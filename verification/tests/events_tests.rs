use wagner_host::events::{
    activity_to_district, activity_to_state, classify_command, item_to_activity, tool_to_activity,
    Activity, District, OperativeState,
};

#[test]
fn activity_district_mapping_is_correct() {
    assert_eq!(activity_to_district(Activity::Read), District::Stacks);
    assert_eq!(activity_to_district(Activity::Edit), District::Stacks);
    assert_eq!(activity_to_district(Activity::Test), District::Forge);
    assert_eq!(activity_to_district(Activity::Build), District::Forge);
    assert_eq!(activity_to_district(Activity::Lint), District::Forge);
    assert_eq!(activity_to_district(Activity::Shell), District::Forge);
    assert_eq!(activity_to_district(Activity::Review), District::Mirror);
    assert_eq!(activity_to_district(Activity::Diff), District::Mirror);
    assert_eq!(activity_to_district(Activity::Judge), District::Mirror);
    assert_eq!(activity_to_district(Activity::Plan), District::Oracle);
    assert_eq!(activity_to_district(Activity::Decompose), District::Oracle);
    assert_eq!(activity_to_district(Activity::Think), District::Oracle);
    assert_eq!(activity_to_district(Activity::AwaitPermission), District::Gate);
    assert_eq!(activity_to_district(Activity::AwaitQuestion), District::Gate);
}

#[test]
fn await_activities_are_blocked() {
    assert_eq!(activity_to_state(Activity::AwaitPermission), OperativeState::Blocked);
    assert_eq!(activity_to_state(Activity::Edit), OperativeState::Working);
    assert_eq!(activity_to_state(Activity::Plan), OperativeState::Thinking);
}

#[test]
fn command_classification() {
    assert_eq!(classify_command("pnpm build"), Activity::Build);
    assert_eq!(classify_command("cargo clippy"), Activity::Lint);
    assert_eq!(classify_command("ls -la"), Activity::Shell);
    assert_eq!(tool_to_activity("Read", None), Activity::Read);
    assert_eq!(tool_to_activity("Task", None), Activity::Decompose);
}

#[test]
fn test_commands_classify_as_test_case_insensitively() {
    assert_eq!(classify_command("CARGO TEST --all"), Activity::Test);
    assert_eq!(tool_to_activity("Bash", Some("npm test")), Activity::Test);
}

#[test]
fn codex_items_classify() {
    assert_eq!(item_to_activity("command_execution"), Activity::Shell);
    assert_eq!(item_to_activity("file_change"), Activity::Edit);
}
