use ptyd::todo::{next_deadline, TodoList, Verdict};

#[test]
fn deadline_carries_into_seconds() {
    assert_eq!(next_deadline(5, 950_000_000), (6, 50_000_000));
    assert_eq!(next_deadline(5, 0), (5, 100_000_000));
    assert_eq!(next_deadline(-1, 900_000_000), (0, 0));
}

#[test]
fn parked_requests_settle_in_order() {
    let mut todo: TodoList<&str> = TodoList::new();
    todo.push("a");
    todo.push("b");
    todo.push("c");
    assert_eq!(todo.len(), 3);
    todo.cancel(1);
    assert!(matches!(todo.resolve(0, false), Verdict::Kept));
    assert_eq!(*todo.get(0), "a");
    assert!(matches!(todo.resolve(1, false), Verdict::Interrupted("b")));
    assert_eq!(todo.len(), 2);
    assert!(matches!(todo.resolve(1, false), Verdict::Kept));
    assert!(matches!(todo.resolve(1, true), Verdict::Completed("c")));
    assert!(matches!(todo.resolve(0, true), Verdict::Completed("a")));
    assert_eq!(todo.len(), 0);
}

#[test]
fn cancelled_request_that_completes_is_answered_normally() {
    let mut todo: TodoList<u32> = TodoList::new();
    todo.push(7);
    todo.cancel(0);
    assert!(matches!(todo.resolve(0, true), Verdict::Completed(7)));
}
