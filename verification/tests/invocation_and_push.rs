use jmap_cluster::collection::{BitmapItem, Collection};
use jmap_cluster::errors::MethodError;
use jmap_cluster::invocation::{Invocation, Method, Object};
use jmap_cluster::json::JSONValue;
use jmap_cluster::push::{PushServer, PUSH_ATTEMPT_INTERVAL_MS, THROTTLE_MS};
use jmap_cluster::submission::{Envelope, Property, UndoStatus, Value};
use jmap_cluster::orm::{Indexable, IndexValue};

fn args_with_account(account: u64) -> JSONValue {
    JSONValue::Object(vec![("accountId".to_string(), JSONValue::Number(account))])
}

#[test]
fn object_names_parse() {
    assert_eq!(Object::parse("Email"), Some(Object::Email));
    assert_eq!(Object::parse("Core"), Some(Object::Core));
    assert_eq!(Object::parse("EmailSubmission"), Some(Object::EmailSubmission));
    assert_eq!(Object::parse("email"), None);
    assert_eq!(Object::parse(""), None);
}

#[test]
fn invocation_get_parses_the_account() {
    let inv = Invocation::parse("Email", "get", args_with_account(3), 100).unwrap();
    assert_eq!(inv.obj, Object::Email);
    assert_eq!(inv.account_id, 3);
    assert!(matches!(inv.call, Method::Get(g) if g.account_id == 3));
}

#[test]
fn invocation_echo_needs_no_account() {
    let inv = Invocation::parse("Core", "echo", JSONValue::Null, 100).unwrap();
    assert_eq!(inv.obj, Object::Core);
    assert_eq!(inv.account_id, 0);
    assert!(matches!(inv.call, Method::Echo(_)));
}

#[test]
fn invocation_rejects_unknown_names() {
    assert!(matches!(
        Invocation::parse("Nothing", "get", args_with_account(3), 100),
        Err(MethodError::InvalidArguments)
    ));
    assert!(matches!(
        Invocation::parse("Email", "frobnicate", args_with_account(3), 100),
        Err(MethodError::UnknownMethod)
    ));
    assert!(matches!(
        Invocation::parse("Email", "get", JSONValue::Null, 100),
        Err(MethodError::InvalidArguments)
    ));
}

#[test]
fn invocation_set_counts_its_objects() {
    let args = JSONValue::Object(vec![
        ("accountId".to_string(), JSONValue::Number(3)),
        (
            "create".to_string(),
            JSONValue::Object(vec![
                ("a".to_string(), JSONValue::Null),
                ("b".to_string(), JSONValue::Null),
            ]),
        ),
        ("destroy".to_string(), JSONValue::Array(vec![JSONValue::Number(1)])),
    ]);
    let inv = Invocation::parse("Email", "set", args, 3).unwrap();
    match inv.call {
        Method::SetCall(s) => {
            assert_eq!((s.create, s.update, s.destroy), (2, 0, 1));
            assert!(!s.tombstone_deletions);
        }
        _ => panic!("expected a set call"),
    }
    let too_big = JSONValue::Object(vec![
        ("accountId".to_string(), JSONValue::Number(3)),
        (
            "destroy".to_string(),
            JSONValue::Array(vec![JSONValue::Number(1), JSONValue::Number(2)]),
        ),
    ]);
    assert!(matches!(
        Invocation::parse("Email", "set", too_big, 1),
        Err(MethodError::RequestTooLarge)
    ));
}

#[test]
fn set_flags_update_only_set_calls() {
    let mut inv = Invocation::parse("Email", "set", args_with_account(3), 100).unwrap();
    assert!(inv.update_set_flags(true));
    assert!(matches!(inv.call, Method::SetCall(s) if s.tombstone_deletions));
    let mut get_inv = Invocation::parse("Email", "get", args_with_account(3), 100).unwrap();
    assert!(!get_inv.update_set_flags(true));
}

#[test]
fn collection_keys_round_trip() {
    for c in [
        Collection::Principal,
        Collection::PushSubscription,
        Collection::Mail,
        Collection::Mailbox,
        Collection::Thread,
        Collection::Identity,
        Collection::EmailSubmission,
        Collection::VacationResponse,
    ] {
        let key: u8 = c.into();
        assert_eq!(Collection::from(key), c);
        assert!(c.is_valid());
    }
    assert_eq!(Collection::from(200u8), Collection::Invalid);
    assert!(!Collection::Invalid.is_valid());
    assert_eq!(Collection::default(), Collection::Invalid);
    assert_eq!(<Collection as BitmapItem>::max(), 8);
    assert_eq!(Collection::from(Object::Email), Collection::Mail);
    assert_eq!(Object::of_collection(Collection::Mail), Some(Object::Email));
    assert_eq!(Object::of_collection(Collection::Principal), None);
}

#[test]
fn submission_properties_and_values() {
    assert_eq!(Property::parse("undoStatus"), Property::UndoStatus);
    assert_eq!(Property::parse("unknown"), Property::Invalid);
    assert_eq!(Property::UndoStatus.name(), "undoStatus");
    assert_eq!(Property::EmailId.field_id(), 2);
    let field: u8 = Property::SendAt.into();
    assert_eq!(field, 5);

    let v = Value::UndoStatus { value: UndoStatus::Pending };
    match v.index_as() {
        IndexValue::Text(s) => assert_eq!(s, "p"),
        _ => panic!("an undo status indexes as a one-letter keyword"),
    }
    let d = Value::DateTime { value: 1_234 };
    assert!(matches!(d.index_as(), IndexValue::LongInteger(1_234)));
    assert!(Value::Null.is_empty_value());
    assert!(Value::Text { value: String::new() }.is_empty_value());
    assert!(!Value::Text { value: "x".to_string() }.is_empty_value());
    let a = Value::Id { value: 8 };
    let b = a.clone_value();
    assert!(a.eq_value(&b));
    assert!(!a.eq_value(&Value::Id { value: 9 }));

    let env = Envelope::new("a@b.example".to_string());
    assert_eq!(env.mail_from.email, "a@b.example");
    assert!(env.rcpt_to.is_empty());
    let ev = Value::Envelope { value: env };
    assert!(matches!(ev.index_as(), IndexValue::Null));
}

#[test]
fn push_delivery_discipline() {
    let mut server = PushServer::new("https://push.example/endpoint".to_string(), None);
    // a fresh endpoint may send once the throttle has passed
    assert!(!server.may_attempt(THROTTLE_MS));
    assert!(server.may_attempt(THROTTLE_MS + 1));
    let taken = server.start_delivery(THROTTLE_MS + 1);
    assert!(taken.is_empty());
    assert!(!server.may_attempt(THROTTLE_MS + 2), "one request in flight at a time");
    // a failure queues the changes back and spaces the retry
    server.record_failure(
        THROTTLE_MS + 2,
        vec![jmap_cluster::push::StateChange { account_id: 1, types: vec![] }],
    );
    assert_eq!(server.state_changes.len(), 1);
    assert!(!server.may_attempt(THROTTLE_MS + 3));
    assert!(server.may_attempt(THROTTLE_MS + 2 + PUSH_ATTEMPT_INTERVAL_MS + 1));
    // three failures exhaust the endpoint
    server.record_failure(THROTTLE_MS + 3, vec![]);
    server.record_failure(THROTTLE_MS + 4, vec![]);
    assert!(server.attempts_exhausted());
    assert!(!server.may_attempt(u64::MAX));
    server.abandon();
    assert_eq!(server.state_changes.len(), 0);
    assert!(!server.attempts_exhausted());
    // success resets the attempt counter
    let mut healthy = PushServer::new("https://push.example/endpoint".to_string(), None);
    healthy.start_delivery(2_000);
    healthy.record_success();
    assert_eq!(healthy.num_attempts, 0);
    assert!(!healthy.in_flight);
}

#[test]
fn invocation_other_calls_parse() {
    for (name, check) in [
        ("query", 0u8),
        ("queryChanges", 1),
        ("changes", 2),
        ("import", 3),
        ("parse", 4),
    ] {
        let inv = Invocation::parse("Email", name, args_with_account(8), 10).unwrap();
        assert_eq!(inv.account_id, 8);
        let ok = match (check, &inv.call) {
            (0, Method::Query(q)) => q.account_id == 8,
            (1, Method::QueryChanges(q)) => q.account_id == 8,
            (2, Method::Changes(q)) => q.account_id == 8,
            (3, Method::Import(q)) => q.account_id == 8,
            (4, Method::Parse(q)) => q.account_id == 8,
            _ => false,
        };
        assert!(ok, "wrong request kind for {}", name);
    }
}
