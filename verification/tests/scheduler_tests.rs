use wagner_host::scheduler::{default_concurrency, isolation_required, non_overlapping_waves, paths_overlap};

#[test]
fn concurrency_default_is_min_cpu_minus_two_and_four() {
    assert_eq!(default_concurrency(16), 4);
    assert_eq!(default_concurrency(8), 4);
    assert_eq!(default_concurrency(5), 3);
    assert_eq!(default_concurrency(4), 2);
    assert_eq!(default_concurrency(2), 1);
    assert_eq!(default_concurrency(1), 1);
}

#[test]
fn detects_overlap() {
    assert!(paths_overlap(&["src/a.rs".into(), "src/b.rs".into()], &["src/b.rs".into()]));
    assert!(!paths_overlap(&["src/a.rs".into()], &["src/c.rs".into()]));
}

#[test]
fn isolates_only_colliding_writers() {
    let wave = vec![
        vec!["src/a.rs".to_string()],
        vec!["src/b.rs".to_string()],
        vec!["src/a.rs".to_string(), "x.rs".into()],
        vec![],
    ];
    assert_eq!(isolation_required(&wave), vec![0, 2]);
}

#[test]
fn no_isolation_when_all_disjoint() {
    let wave = vec![vec!["a".to_string()], vec!["b".to_string()], vec!["c".to_string()]];
    assert!(isolation_required(&wave).is_empty());
}

#[test]
fn read_only_never_isolated() {
    let wave: Vec<Vec<String>> = vec![vec![], vec![]];
    assert!(isolation_required(&wave).is_empty());
}

#[test]
fn disjoint_and_readonly_subtasks_share_one_wave() {
    let paths = vec![vec!["a".to_string()], vec!["b".to_string()], vec![]];
    assert_eq!(non_overlapping_waves(&paths), vec![vec![0, 1, 2]]);
}

#[test]
fn overlapping_writers_split_into_sequential_waves() {
    let paths = vec![vec!["a".to_string()], vec!["b".to_string()], vec!["a".to_string()]];
    let waves = non_overlapping_waves(&paths);
    assert_eq!(waves, vec![vec![0, 1], vec![2]]);
}

#[test]
fn no_wave_holds_two_overlapping_writers() {
    let paths = vec![
        vec!["a".to_string(), "b".to_string()],
        vec!["b".to_string()],
        vec!["c".to_string()],
        vec!["a".to_string()],
        vec!["b".to_string(), "c".to_string()],
    ];
    let waves = non_overlapping_waves(&paths);
    let mut seen = vec![false; paths.len()];
    for wave in &waves {
        for (x, &i) in wave.iter().enumerate() {
            seen[i] = true;
            for &j in &wave[x + 1..] {
                assert!(!paths_overlap(&paths[i], &paths[j]), "{i} and {j} share a wave");
            }
        }
    }
    assert!(seen.iter().all(|s| *s), "every subtask is placed");
}
