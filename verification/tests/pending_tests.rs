use ibexgit_core::error::AppError;
use ibexgit_core::pending::PendingTable;

#[test]
fn an_answer_is_taken_once() {
    let mut t: PendingTable<u32> = PendingTable::new();
    t.insert("r1".to_string(), 7);
    t.insert("r2".to_string(), 8);
    assert_eq!(t.take("r1").ok(), Some(7));
    match t.take("r1") {
        Err(AppError::Parse { message }) => assert_eq!(message, "unknown credential request: r1"),
        other => panic!("unexpected {:?}", other.ok()),
    }
    assert_eq!(t.take("r2").ok(), Some(8));
}

#[test]
fn a_second_waiter_replaces_the_first() {
    let mut t: PendingTable<&str> = PendingTable::new();
    t.insert("r1".to_string(), "a");
    t.insert("r1".to_string(), "b");
    assert_eq!(t.take("r1").ok(), Some("b"));
    assert!(t.take("r1").is_err());
    assert!(t.take("never").is_err());
}
