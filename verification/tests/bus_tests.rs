use wagner_host::bus::{
    schema_name, subscription_matches, Capability, Namespace, PayloadKind, StabilityTier, StreamId,
    StreamSeqs, Subscription,
};

fn sub(topic: &str, filter: Option<&str>) -> Subscription {
    Subscription { topic: topic.into(), filter: filter.map(String::from) }
}

fn ext(ns: &str, name: &str) -> PayloadKind {
    PayloadKind::Ext { ns: ns.into(), name: name.into() }
}

#[test]
fn subscriptions_match_by_topic_stream_and_ext_name() {
    let run = StreamId::Run("r1".into());
    assert!(subscription_matches(&sub("*", None), &run, &PayloadKind::Core(Namespace::Goal)));
    assert!(subscription_matches(&sub("run", None), &run, &PayloadKind::Core(Namespace::Run)));
    assert!(!subscription_matches(&sub("run", None), &run, &PayloadKind::Core(Namespace::Vault)));
    assert!(subscription_matches(&sub("stream", Some("r1")), &run, &PayloadKind::Core(Namespace::Ui)));
    assert!(!subscription_matches(&sub("stream", None), &run, &PayloadKind::Core(Namespace::Ui)));
    assert!(subscription_matches(&sub("ext.slack", Some("send")), &run, &ext("slack", "send")));
    assert!(!subscription_matches(&sub("ext.slack", Some("send")), &run, &ext("slack", "message_sent")));
    assert!(subscription_matches(&sub("ext.slack", Some("*")), &run, &ext("slack", "x")));
    assert!(subscription_matches(&sub("ext.slack", None), &run, &ext("slack", "x")));
    assert!(!subscription_matches(&sub("ext.slack", None), &run, &ext("github", "x")));
    assert!(!subscription_matches(&sub("ext.slack", None), &run, &PayloadKind::Core(Namespace::Run)));
    assert!(subscription_matches(&sub("ext", None), &run, &ext("any", "x")));
}

#[test]
fn sequence_numbers_count_per_stream_from_zero() {
    let mut s = StreamSeqs::new();
    let a = StreamId::Run("a".into());
    let b = StreamId::Agent("a".into());
    assert_eq!(s.stamp(&a), 0);
    assert_eq!(s.stamp(&a), 1);
    assert_eq!(s.stamp(&b), 0, "a stream's kind is part of its identity");
    assert_eq!(s.stamp(&a), 2);
    assert_eq!(s.stamp(&b), 1);
}

#[test]
fn schema_names_are_the_stem() {
    assert_eq!(schema_name("envelope.v1"), "envelope");
    assert_eq!(schema_name("plain"), "plain");
}

#[test]
fn new_types_default_to_experimental_and_capabilities_have_wire_names() {
    assert_eq!(StabilityTier::default(), StabilityTier::Experimental);
    assert_eq!(Capability::ProcessSpawn.wire_name(), "process.spawn");
    assert_eq!(Capability::SecretsRead.wire_name(), "secrets.read");
}
