//! The participant registry's bookkeeping: which names are live (plain agents
//! or supervised runs), which runs take steering, and what was asked of a run
//! before it started (a cancel, or steering to deliver once it starts).
//!
//! Cancellation wins over steering: a run cancelled before it starts never
//! starts, whatever steering arrived meanwhile. A live run is never replaced:
//! a duplicate start is refused, and a plain agent never takes a run's name.
use vstd::prelude::*;
use crate::names::NameMap;

verus! {

/// What holds a live name.
#[derive(Debug, Clone, Copy, PartialEq, Eq, Structural)]
pub enum EntryKind {
    Agent,
    Run,
}

/// Why a registry operation was refused.
#[derive(Debug, Clone, PartialEq, Eq)]
pub enum RegistryError {
    /// A run with this id is already live; it is left untouched.
    AlreadyLive(String),
    /// The name is held by a live run; a plain agent cannot take it.
    RunKeyedName(String),
}

/// What a cancel did.
#[derive(Debug, Clone, Copy, PartialEq, Eq, Structural)]
pub enum CancelOutcome {
    /// A live run was deregistered; signal it to stop.
    CancelledLive,
    /// No live run had the id: the cancel is recorded for when it starts.
    Recorded,
}

/// How driving a run begins.
#[derive(Debug, Clone, PartialEq, Eq)]
pub enum DriveStart {
    /// The run was cancelled before it started: it ends aborted at once.
    PreCancelled,
    /// The run starts, with the steering that arrived before it, in order.
    Start(Vec<String>),
}

/// What a steer did.
#[derive(Debug, Clone, PartialEq, Eq)]
pub enum SteerOutcome {
    /// Deliver the text to the live run's console.
    Deliver(String),
    /// No run takes steering under this id yet: the text is kept for it.
    Buffered,
}

/// The registry's bookkeeping as mathematical values.
pub struct BookModel {
    pub running: Map<Seq<char>, EntryKind>,
    pub steerable: Set<Seq<char>>,
    pub cancels: Set<Seq<char>>,
    pub steers: Map<Seq<char>, Seq<Seq<char>>>,
}

/// The bookkeeping after a cancel of `id`, and what the cancel did.
pub open spec fn cancel_model(m: BookModel, id: Seq<char>) -> (BookModel, CancelOutcome) {
    if m.running.dom().contains(id) && m.running[id] == EntryKind::Run {
        (BookModel { running: m.running.remove(id), ..m }, CancelOutcome::CancelledLive)
    } else {
        (
            BookModel { running: m.running.remove(id), cancels: m.cancels.insert(id), ..m },
            CancelOutcome::Recorded,
        )
    }
}

/// The bookkeeping after steering `id` with `text` (delivered when the id takes
/// steering, else kept for it).
pub open spec fn steer_model(m: BookModel, id: Seq<char>, text: Seq<char>) -> BookModel {
    if m.steerable.contains(id) {
        m
    } else {
        let kept = if m.steers.dom().contains(id) {
            m.steers[id]
        } else {
            Seq::empty()
        };
        BookModel { steers: m.steers.insert(id, kept.push(text)), ..m }
    }
}

/// Whether driving `id` starts, and the bookkeeping after: a recorded cancel is
/// consumed and the run ends aborted; otherwise the kept steering is handed
/// over and the run becomes live.
pub open spec fn drive_model(m: BookModel, id: Seq<char>) -> (BookModel, bool) {
    if m.cancels.contains(id) {
        (BookModel { cancels: m.cancels.remove(id), ..m }, false)
    } else {
        (
            BookModel {
                running: m.running.insert(id, EntryKind::Run),
                steers: m.steers.remove(id),
                ..m
            },
            true,
        )
    }
}

/// The registry's bookkeeping.
pub struct RunBook {
    pub running: NameMap<EntryKind>,
    pub steer_targets: NameMap<()>,
    pub pending_cancels: NameMap<()>,
    pub pending_steers: NameMap<Vec<String>>,
}

/// The kept steering of each run, as texts.
pub open spec fn steer_texts(m: Map<Seq<char>, Vec<String>>) -> Map<Seq<char>, Seq<Seq<char>>> {
    Map::new(|k: Seq<char>| m.dom().contains(k), |k: Seq<char>| texts(m[k]))
}

/// The texts of a list of strings.
pub open spec fn texts(v: Vec<String>) -> Seq<Seq<char>> {
    v@.map_values(|s: String| s@)
}

impl RunBook {
    pub open spec fn wf(&self) -> bool {
        &&& self.running.wf()
        &&& self.steer_targets.wf()
        &&& self.pending_cancels.wf()
        &&& self.pending_steers.wf()
    }

    pub open spec fn model(&self) -> BookModel {
        BookModel {
            running: self.running.map(),
            steerable: self.steer_targets.map().dom(),
            cancels: self.pending_cancels.map().dom(),
            steers: steer_texts(self.pending_steers.map()),
        }
    }

    pub fn new() -> (r: Self)
        ensures
            r.wf(),
            r.model().running == Map::<Seq<char>, EntryKind>::empty(),
            r.model().steerable == Set::<Seq<char>>::empty(),
            r.model().cancels == Set::<Seq<char>>::empty(),
            r.model().steers == Map::<Seq<char>, Seq<Seq<char>>>::empty(),
    {
        let r = RunBook {
            running: NameMap::new(),
            steer_targets: NameMap::new(),
            pending_cancels: NameMap::new(),
            pending_steers: NameMap::new(),
        };
        proof {
            assert(r.model().steerable =~= Set::<Seq<char>>::empty());
            assert(r.model().cancels =~= Set::<Seq<char>>::empty());
            assert(r.model().steers =~= Map::<Seq<char>, Seq<Seq<char>>>::empty());
        }
        r
    }

    /// Whether a participant of this name is live.
    pub fn is_running(&self, name: &str) -> (r: bool)
        requires
            self.wf(),
        ensures
            r == self.model().running.dom().contains(name@),
    {
        self.running.contains(name)
    }

    /// Registers a plain agent under `name`, replacing a live agent of that
    /// name (returns whether one was replaced); a name held by a live run is
    /// refused and nothing changes.
    pub fn spawn_agent(&mut self, name: String) -> (r: Result<bool, RegistryError>)
        requires
            old(self).wf(),
        ensures
            final(self).wf(),
            old(self).model().running.dom().contains(name@) && old(self).model().running[name@]
                == EntryKind::Run ==> {
                &&& (r matches Err(RegistryError::RunKeyedName(n)) && n@ == name@)
                &&& final(self).model() == old(self).model()
            },
            !(old(self).model().running.dom().contains(name@) && old(self).model().running[name@]
                == EntryKind::Run) ==> {
                &&& r == Ok::<bool, RegistryError>(old(self).model().running.dom().contains(name@))
                &&& final(self).model() == (BookModel {
                    running: old(self).model().running.insert(name@, EntryKind::Agent),
                    ..old(self).model()
                })
            },
    {
        let prev = match self.running.get(name.as_str()) {
            Some(k) => Some(*k),
            None => None,
        };
        match prev {
            Some(EntryKind::Run) => Err(RegistryError::RunKeyedName(name)),
            _ => {
                self.running.insert(name, EntryKind::Agent);
                Ok(prev.is_some())
            },
        }
    }

    /// Registers a supervised run that takes steering; a duplicate id is
    /// refused and the live run is left untouched.
    pub fn spawn_run(&mut self, run_id: String) -> (r: Result<(), RegistryError>)
        requires
            old(self).wf(),
        ensures
            final(self).wf(),
            old(self).model().running.dom().contains(run_id@) ==> {
                &&& (r matches Err(RegistryError::AlreadyLive(n)) && n@ == run_id@)
                &&& final(self).model() == old(self).model()
            },
            !old(self).model().running.dom().contains(run_id@) ==> {
                &&& r is Ok
                &&& final(self).model() == (BookModel {
                    running: old(self).model().running.insert(run_id@, EntryKind::Run),
                    steerable: old(self).model().steerable.insert(run_id@),
                    ..old(self).model()
                })
            },
    {
        if self.running.contains(run_id.as_str()) {
            return Err(RegistryError::AlreadyLive(run_id));
        }
        let id2 = run_id.clone();
        self.steer_targets.insert(id2, ());
        self.running.insert(run_id, EntryKind::Run);
        Ok(())
    }

    /// Cancels `run_id` (see `cancel_model`).
    pub fn cancel(&mut self, run_id: &str) -> (o: CancelOutcome)
        requires
            old(self).wf(),
        ensures
            final(self).wf(),
            (final(self).model(), o) == cancel_model(old(self).model(), run_id@),
    {
        let prev = self.running.remove(run_id);
        match prev {
            Some(EntryKind::Run) => CancelOutcome::CancelledLive,
            _ => {
                self.pending_cancels.insert(run_id.to_owned(), ());
                CancelOutcome::Recorded
            },
        }
    }

    /// Steers `run_id` with `text` (see `steer_model`).
    pub fn steer(&mut self, run_id: &str, text: String) -> (o: SteerOutcome)
        requires
            old(self).wf(),
        ensures
            final(self).wf(),
            final(self).model() == steer_model(old(self).model(), run_id@, text@),
            old(self).model().steerable.contains(run_id@) ==> (o matches SteerOutcome::Deliver(t)
                && t@ == text@),
            !old(self).model().steerable.contains(run_id@) ==> o is Buffered,
    {
        if self.steer_targets.contains(run_id) {
            return SteerOutcome::Deliver(text);
        }
        let ghost t = text@;
        let ghost old_map = self.pending_steers.map();
        let kept = self.pending_steers.remove(run_id);
        let mut list = match kept {
            Some(v) => v,
            None => {
                let e: Vec<String> = Vec::new();
                assert(texts(e) =~= Seq::<Seq<char>>::empty());
                e
            },
        };
        let ghost prev = list;
        list.push(text);
        proof {
            assert(texts(list) =~= texts(prev).push(t));
        }
        let ghost new_list = list;
        self.pending_steers.insert(run_id.to_owned(), list);
        proof {
            assert(self.pending_steers.map() =~= old_map.insert(run_id@, new_list));
            assert(steer_texts(self.pending_steers.map()) =~= steer_texts(old_map).insert(
                run_id@,
                texts(new_list),
            ));
            assert(self.model().steers =~= steer_model(old(self).model(), run_id@, t).steers);
        }
        SteerOutcome::Buffered
    }

    /// Begins driving `run_id` (see `drive_model`).
    pub fn begin_drive(&mut self, run_id: String) -> (d: DriveStart)
        requires
            old(self).wf(),
        ensures
            final(self).wf(),
            final(self).model() == drive_model(old(self).model(), run_id@).0,
            d is PreCancelled <==> !drive_model(old(self).model(), run_id@).1,
            d matches DriveStart::Start(v) ==> texts(v) == (if old(self).model().steers.dom().contains(
                run_id@,
            ) {
                old(self).model().steers[run_id@]
            } else {
                Seq::empty()
            }),
    {
        if self.pending_cancels.remove(run_id.as_str()).is_some() {
            return DriveStart::PreCancelled;
        }
        let ghost old_map = self.pending_steers.map();
        let kept = self.pending_steers.remove(run_id.as_str());
        let steers = match kept {
            Some(v) => v,
            None => {
                let e: Vec<String> = Vec::new();
                assert(texts(e) =~= Seq::<Seq<char>>::empty());
                e
            },
        };
        self.running.insert(run_id, EntryKind::Run);
        proof {
            assert(steer_texts(self.pending_steers.map()) =~= steer_texts(old_map).remove(run_id@));
            assert(self.model().cancels =~= old(self).model().cancels);
            assert(self.model().running =~= old(self).model().running.insert(run_id@, EntryKind::Run));
            assert(self.model().steerable =~= old(self).model().steerable);
            assert(self.model().steers =~= drive_model(old(self).model(), run_id@).0.steers);
        }
        DriveStart::Start(steers)
    }

    /// Ends driving `run_id`: it is no longer live and takes no steering.
    pub fn end_drive(&mut self, run_id: &str)
        requires
            old(self).wf(),
        ensures
            final(self).wf(),
            final(self).model() == (BookModel {
                running: old(self).model().running.remove(run_id@),
                steerable: old(self).model().steerable.remove(run_id@),
                ..old(self).model()
            }),
    {
        self.running.remove(run_id);
        self.steer_targets.remove(run_id);
        proof {
            assert(self.model().steerable =~= old(self).model().steerable.remove(run_id@));
        }
    }

    /// Stops a participant by name; whether one was live.
    pub fn stop(&mut self, name: &str) -> (r: bool)
        requires
            old(self).wf(),
        ensures
            final(self).wf(),
            r == old(self).model().running.dom().contains(name@),
            final(self).model() == (BookModel {
                running: old(self).model().running.remove(name@),
                ..old(self).model()
            }),
    {
        self.running.remove(name).is_some()
    }

    /// The runs an abort names: the given run, or every live run.
    pub fn abort_targets(&self, run_id: Option<String>) -> (r: Vec<String>)
        requires
            self.wf(),
        ensures
            match run_id {
                Some(id) => r@.len() == 1 && r@[0]@ == id@,
                None => forall|k: Seq<char>|
                    #![trigger lists_text(r@, k)]
                    #![trigger self.model().running.dom().contains(k)]
                    lists_text(r@, k) <==> (self.model().running.dom().contains(k)
                        && self.model().running[k] == EntryKind::Run),
            },
    {
        match run_id {
            Some(id) => {
                let mut v: Vec<String> = Vec::new();
                v.push(id);
                v
            },
            None => {
                let mut v: Vec<String> = Vec::new();
                let mut i: usize = 0;
                let ghost es = self.running.entries@;
                while i < self.running.entries.len()
                    invariant
                        0 <= i <= es.len(),
                        es == self.running.entries@,
                        crate::names::keys_distinct(es),
                        forall|k: Seq<char>|
                            #![trigger lists_text(v@, k)]
                            #![trigger runs_before(es, i as int, k)]
                            lists_text(v@, k) <==> runs_before(es, i as int, k),
                    decreases es.len() - i,
                {
                    let ghost before = v@;
                    if self.running.entries[i].1 == EntryKind::Run {
                        v.push(self.running.entries[i].0.clone());
                    }
                    proof {
                        assert forall|k: Seq<char>|
                            #![trigger lists_text(v@, k)]
                            #![trigger runs_before(es, i + 1, k)]
                            lists_text(v@, k) <==> runs_before(es, i + 1, k) by {
                            if lists_text(v@, k) {
                                let j = choose|j: int| 0 <= j < v@.len() && (#[trigger] v@[j])@ == k;
                                if j < before.len() {
                                    assert(before[j] == v@[j]);
                                    assert(lists_text(before, k));
                                    assert(runs_before(es, i as int, k));
                                    let m = choose|m: int| 0 <= m < i && (#[trigger] es[m]).0@ == k && es[m].1 == EntryKind::Run;
                                    assert(0 <= m < i + 1 && es[m].0@ == k && es[m].1 == EntryKind::Run);
                                } else {
                                    assert(es[i as int].0@ == k && es[i as int].1 == EntryKind::Run);
                                }
                            }
                            if runs_before(es, i + 1, k) {
                                let m = choose|m: int| 0 <= m < i + 1 && (#[trigger] es[m]).0@ == k && es[m].1 == EntryKind::Run;
                                if m < i {
                                    assert(runs_before(es, i as int, k));
                                    assert(lists_text(before, k));
                                    let j = choose|j: int| 0 <= j < before.len() && (#[trigger] before[j])@ == k;
                                    assert(v@[j] == before[j]);
                                } else {
                                    assert(v@[before.len() as int]@ == k);
                                }
                            }
                        }
                    }
                    i = i + 1;
                }
                proof {
                    assert forall|k: Seq<char>|
                        #![trigger lists_text(v@, k)]
                        #![trigger self.model().running.dom().contains(k)]
                        lists_text(v@, k) <==> (self.model().running.dom().contains(k)
                            && self.model().running[k] == EntryKind::Run) by {
                        crate::names::lemma_dom(es, k);
                        if self.model().running.dom().contains(k) {
                            let m = choose|m: int| 0 <= m < es.len() && (#[trigger] es[m]).0@ == k;
                            crate::names::lemma_value(es, m);
                            if self.model().running[k] == EntryKind::Run {
                                assert(runs_before(es, es.len() as int, k));
                            }
                        }
                        if runs_before(es, es.len() as int, k) {
                            let m = choose|m: int| 0 <= m < es.len() && (#[trigger] es[m]).0@ == k && es[m].1 == EntryKind::Run;
                            crate::names::lemma_value(es, m);
                        }
                    }
                }
                v
            },
        }
    }
}

/// Some entry of `v` has the text `k`.
pub open spec fn lists_text(v: Seq<String>, k: Seq<char>) -> bool {
    exists|j: int| 0 <= j < v.len() && (#[trigger] v[j])@ == k
}

/// One of the first `n` entries is a run named `k`.
pub open spec fn runs_before(es: Seq<(String, EntryKind)>, n: int, k: Seq<char>) -> bool {
    exists|m: int| 0 <= m < n && (#[trigger] es[m]).0@ == k && es[m].1 == EntryKind::Run
}

/// Cancellation wins over steering: a run cancelled while not live, then
/// steered, does not start when driven.
pub proof fn lemma_cancel_beats_steer(m: BookModel, id: Seq<char>, text: Seq<char>)
    requires
        !(m.running.dom().contains(id) && m.running[id] == EntryKind::Run),
    ensures
        !drive_model(steer_model(cancel_model(m, id).0, id, text), id).1,
{
}

} // verus!
