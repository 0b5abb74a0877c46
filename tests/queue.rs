use queue_backend::config::{default_address, default_redis_url};
use queue_backend::entity::Entity;
use queue_backend::error::{QueueError, Violation};
use queue_backend::rules::{
    authenticate, check_changes, check_submission, count_owned, keep_readable, queue_key,
};
use queue_backend::service::QueueService;
use queue_backend::store::QueueStore;

fn ent(id: &str, name: &str) -> Entity {
    Entity::new(id.to_string(), name.to_string())
}

fn who(id: &str) -> Option<String> {
    Some(id.to_string())
}

fn service_with_a() -> QueueService {
    let mut svc = QueueService::new(QueueStore::new());
    svc.set_queue("q".to_string(), who("a@x"), vec![ent("a@x", "A")])
        .unwrap();
    svc
}

#[test]
fn unwritten_queue_reads_empty() {
    let svc = QueueService::new(QueueStore::new());
    assert_eq!(svc.get_queue("never".to_string(), who("u@x")), Ok(vec![]));
}

#[test]
fn clear_queue_without_foreign_records() {
    let mut svc = QueueService::new(QueueStore::new());
    svc.set_queue("q".to_string(), who("u@x"), vec![ent("u@x", "U")])
        .unwrap();
    assert_eq!(svc.set_queue("q".to_string(), who("u@x"), vec![]), Ok(()));
    assert_eq!(svc.get_queue("q".to_string(), who("u@x")), Ok(vec![]));
}

#[test]
fn clear_queue_with_foreign_record_denied() {
    let mut svc = service_with_a();
    assert_eq!(
        svc.set_queue("q".to_string(), who("b@x"), vec![]),
        Err(QueueError::PermissionDenied(Violation::Removed))
    );
    assert_eq!(svc.get_queue("q".to_string(), who("b@x")), Ok(vec![ent("a@x", "A")]));
}

#[test]
fn two_own_records_invalid() {
    let mut svc = service_with_a();
    let r = svc.set_queue(
        "q".to_string(),
        who("a@x"),
        vec![ent("a@x", "A"), ent("a@x", "A2")],
    );
    assert_eq!(r, Err(QueueError::InvalidArgument));
    assert_eq!(svc.get_queue("q".to_string(), who("a@x")), Ok(vec![ent("a@x", "A")]));
}

#[test]
fn keep_foreign_and_add_own() {
    let mut svc = service_with_a();
    let r = svc.set_queue(
        "q".to_string(),
        who("b@x"),
        vec![ent("a@x", "A"), ent("b@x", "B")],
    );
    assert_eq!(r, Ok(()));
    assert_eq!(
        svc.get_queue("q".to_string(), who("b@x")),
        Ok(vec![ent("a@x", "A"), ent("b@x", "B")])
    );
}

#[test]
fn rename_foreign_denied() {
    let mut svc = service_with_a();
    let r = svc.set_queue(
        "q".to_string(),
        who("b@x"),
        vec![ent("a@x", "Changed"), ent("b@x", "B")],
    );
    assert_eq!(r, Err(QueueError::PermissionDenied(Violation::AddedOrModified)));
    assert_eq!(svc.get_queue("q".to_string(), who("b@x")), Ok(vec![ent("a@x", "A")]));
}

#[test]
fn drop_foreign_denied() {
    let mut svc = service_with_a();
    let r = svc.set_queue("q".to_string(), who("b@x"), vec![ent("b@x", "B")]);
    assert_eq!(r, Err(QueueError::PermissionDenied(Violation::Removed)));
    assert_eq!(svc.get_queue("q".to_string(), who("b@x")), Ok(vec![ent("a@x", "A")]));
}

#[test]
fn round_trip_keeps_order() {
    let mut svc = service_with_a();
    let submitted = vec![ent("c@x", "C"), ent("a@x", "A")];
    assert_eq!(svc.set_queue("q".to_string(), who("c@x"), submitted.clone()), Ok(()));
    assert_eq!(svc.get_queue("q".to_string(), who("c@x")), Ok(submitted));
}

#[test]
fn reorder_foreign_records_allowed() {
    let mut svc = QueueService::new(QueueStore::new());
    svc.set_queue("q".to_string(), who("a@x"), vec![ent("a@x", "A")])
        .unwrap();
    svc.set_queue("q".to_string(), who("b@x"), vec![ent("a@x", "A"), ent("b@x", "B")])
        .unwrap();
    let swapped = vec![ent("b@x", "B"), ent("a@x", "A")];
    assert_eq!(svc.set_queue("q".to_string(), who("c@x"), swapped.clone()), Ok(()));
    assert_eq!(svc.get_queue("q".to_string(), who("c@x")), Ok(swapped));
}

#[test]
fn queues_are_independent() {
    let mut svc = service_with_a();
    assert_eq!(svc.set_queue("other".to_string(), who("b@x"), vec![ent("b@x", "B")]), Ok(()));
    assert_eq!(svc.get_queue("q".to_string(), who("b@x")), Ok(vec![ent("a@x", "A")]));
    assert_eq!(svc.get_queue("other".to_string(), who("b@x")), Ok(vec![ent("b@x", "B")]));
}

#[test]
fn unauthenticated_calls_rejected() {
    let mut svc = service_with_a();
    assert_eq!(svc.get_queue("q".to_string(), None), Err(QueueError::Unauthenticated));
    assert_eq!(svc.get_queue("q".to_string(), who("")), Err(QueueError::Unauthenticated));
    assert_eq!(
        svc.set_queue("q".to_string(), who(""), vec![]),
        Err(QueueError::Unauthenticated)
    );
    assert_eq!(
        svc.set_queue("q".to_string(), None, vec![]),
        Err(QueueError::Unauthenticated)
    );
    assert_eq!(svc.get_queue("q".to_string(), who("a@x")), Ok(vec![ent("a@x", "A")]));
}

#[test]
fn store_replace_and_read() {
    let mut store = QueueStore::new();
    let key = "queue:q".to_string();
    assert_eq!(store.read_all(&key), vec![]);
    store.replace_all(key.clone(), vec![Some(ent("a@x", "A")), None]);
    assert_eq!(store.read_all(&key), vec![Some(ent("a@x", "A")), None]);
    store.replace_all(key.clone(), vec![]);
    assert_eq!(store.read_all(&key), vec![]);
}

#[test]
fn key_is_prefixed() {
    assert_eq!(queue_key("abc".to_string()), "queue:abc".to_string());
    assert_eq!(queue_key(String::new()), "queue:".to_string());
}

#[test]
fn defaults() {
    assert_eq!(default_address(), "[::1]:8001".to_string());
    assert_eq!(default_redis_url(), "redis://127.0.0.1/".to_string());
}

#[test]
fn authenticate_cases() {
    assert_eq!(authenticate(who("a@x")), Ok("a@x".to_string()));
    assert_eq!(authenticate(who("")), Err(QueueError::Unauthenticated));
    assert_eq!(authenticate(None), Err(QueueError::Unauthenticated));
}

#[test]
fn count_and_submission() {
    let es = vec![ent("a@x", "A"), ent("b@x", "B"), ent("a@x", "C")];
    assert_eq!(count_owned(&"a@x".to_string(), &es), 2);
    assert_eq!(count_owned(&"b@x".to_string(), &es), 1);
    assert_eq!(count_owned(&"z@x".to_string(), &es), 0);
    assert_eq!(check_submission(&"a@x".to_string(), &es), Err(QueueError::InvalidArgument));
    assert_eq!(check_submission(&"b@x".to_string(), &es), Ok(()));
}

#[test]
fn unreadable_records_dropped() {
    let records = vec![None, Some(ent("a@x", "A")), None, Some(ent("b@x", "B"))];
    assert_eq!(keep_readable(records), vec![ent("a@x", "A"), ent("b@x", "B")]);
    assert_eq!(keep_readable(vec![None]), vec![]);
}

#[test]
fn change_checks() {
    let existing = vec![ent("a@x", "A")];
    let me = "b@x".to_string();
    assert_eq!(check_changes(&me, &vec![ent("a@x", "A"), ent("b@x", "B")], &existing), Ok(()));
    assert_eq!(
        check_changes(&me, &vec![ent("c@x", "C"), ent("a@x", "A")], &existing),
        Err(QueueError::PermissionDenied(Violation::AddedOrModified))
    );
    assert_eq!(
        check_changes(&me, &vec![], &existing),
        Err(QueueError::PermissionDenied(Violation::Removed))
    );
    assert_eq!(check_changes(&"a@x".to_string(), &vec![], &existing), Ok(()));
}
