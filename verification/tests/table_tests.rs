use rts::table::TaskTable;
use rts::task::{Task, TaskStatus};

#[test]
fn table_keeps_ids_in_order() {
    let mut t = TaskTable::new();
    t.insert(5, Task { command: "five".into(), ..Default::default() });
    t.insert(1, Task { command: "one".into(), ..Default::default() });
    t.insert(3, Task { command: "three".into(), ..Default::default() });
    t.insert(3, Task { command: "three again".into(), status: TaskStatus::Killed, ..Default::default() });
    assert_eq!(t.len(), 3);
    assert_eq!(t.id_at(0), 1);
    assert_eq!(t.id_at(1), 3);
    assert_eq!(t.id_at(2), 5);
    assert_eq!(t.get(3).unwrap().command, "three again");
    let removed = t.remove(1).unwrap();
    assert_eq!(removed.command, "one");
    assert!(t.remove(1).is_none());
    assert!(!t.contains_key(1));
    assert_eq!(t.position(5), Some(1));
}
