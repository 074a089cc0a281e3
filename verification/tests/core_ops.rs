//! Collection operations: add, complete, remove, clear, stats.

use todo_list::collection::{AddOutcome, DoneOutcome, TodoList};

fn list_with(texts: &[&str]) -> TodoList {
    let mut l = TodoList::new();
    for (k, t) in texts.iter().enumerate() {
        let r = l.add(t.to_string(), 100 + k as u64);
        assert!(matches!(r, AddOutcome::Added { .. }));
    }
    l
}

#[test]
fn add_then_list_has_exactly_one_pending_task() {
    let mut l = TodoList::new();
    let r = l.add("buy milk".to_string(), 100);
    assert_eq!(r, AddOutcome::Added { id: 0 });
    let tasks = l.tasks();
    assert_eq!(tasks.len(), 1);
    assert_eq!(tasks[0].text, "buy milk");
    assert!(!tasks[0].done);
    assert_eq!(tasks[0].completed_at, None);
    assert_eq!(tasks[0].created_at, 100);
    assert_eq!(
        tasks.iter().filter(|t| t.text == "buy milk").count(),
        1
    );
}

#[test]
fn add_rejects_empty_text() {
    let mut l = TodoList::new();
    assert_eq!(l.add(String::new(), 100), AddOutcome::EmptyText);
    assert_eq!(l.len(), 0);
}

#[test]
fn second_add_of_same_text_is_rejected_without_mutation() {
    let mut l = TodoList::new();
    assert_eq!(l.add("a".to_string(), 100), AddOutcome::Added { id: 0 });
    assert_eq!(l.add("a".to_string(), 200), AddOutcome::DuplicateText);
    assert_eq!(l.len(), 1);
    assert_eq!(l.tasks()[0].created_at, 100);
}

#[test]
fn ids_are_max_plus_one() {
    let mut l = list_with(&["a", "b"]);
    assert_eq!(l.tasks()[0].id, 0);
    assert_eq!(l.tasks()[1].id, 1);
    assert!(l.remove(1).is_some());
    assert_eq!(l.add("c".to_string(), 300), AddOutcome::Added { id: 1 });
}

#[test]
fn mark_done_is_idempotent_in_effect() {
    let mut l = list_with(&["a"]);
    assert_eq!(l.mark_done(0, 500), DoneOutcome::Completed);
    assert!(l.tasks()[0].done);
    assert_eq!(l.tasks()[0].completed_at, Some(500));
    assert_eq!(l.mark_done(0, 900), DoneOutcome::AlreadyDone);
    assert!(l.tasks()[0].done);
    assert_eq!(l.tasks()[0].completed_at, Some(500));
}

#[test]
fn mark_done_unknown_id_is_not_found() {
    let mut l = list_with(&["a"]);
    assert_eq!(l.mark_done(7, 500), DoneOutcome::NotFound);
    assert!(!l.tasks()[0].done);
}

#[test]
fn remove_twice_reports_not_found_without_mutation() {
    let mut l = list_with(&["a", "b"]);
    let removed = l.remove(0).expect("first removal");
    assert_eq!(removed.text, "a");
    assert_eq!(l.len(), 1);
    assert!(l.remove(0).is_none());
    assert_eq!(l.len(), 1);
    assert_eq!(l.tasks()[0].text, "b");
}

#[test]
fn clear_removes_exactly_the_done_tasks_in_order() {
    let mut l = list_with(&["a", "b", "c", "d"]);
    assert_eq!(l.mark_done(1, 500), DoneOutcome::Completed);
    assert_eq!(l.mark_done(3, 600), DoneOutcome::Completed);
    let removed = l.clear();
    assert_eq!(removed, 2);
    let tasks = l.tasks();
    assert_eq!(tasks.len(), 2);
    assert_eq!(tasks[0].text, "a");
    assert_eq!(tasks[1].text, "c");
    assert!(!tasks[0].done && !tasks[1].done);
    assert_eq!(tasks[0].created_at, 100);
    assert_eq!(tasks[1].created_at, 102);
}

#[test]
fn clear_with_nothing_done_changes_nothing() {
    let mut l = list_with(&["a", "b"]);
    assert_eq!(l.clear(), 0);
    assert_eq!(l.len(), 2);
}

#[test]
fn stats_counts_and_rate() {
    let mut l = list_with(&["a", "b", "c"]);
    l.mark_done(0, 500);
    let st = l.stats();
    assert_eq!(st.total, 3);
    assert_eq!(st.completed, 1);
    assert_eq!(st.pending, 2);
    assert_eq!(st.rate_tenths, 333);
}

#[test]
fn stats_on_empty_collection() {
    let l = TodoList::new();
    let st = l.stats();
    assert_eq!(st.total, 0);
    assert_eq!(st.completed, 0);
    assert_eq!(st.pending, 0);
    assert_eq!(st.rate_tenths, 0);
}

#[test]
fn oldest_and_newest_follow_created_at_with_ties_kept() {
    let mut l = TodoList::new();
    l.add("a".to_string(), 300);
    l.add("b".to_string(), 100);
    l.add("c".to_string(), 100);
    l.add("d".to_string(), 300);
    // first minimum wins; last maximum wins
    assert_eq!(l.oldest_index(), Some(1));
    assert_eq!(l.newest_index(), Some(3));
    assert_eq!(TodoList::new().oldest_index(), None);
    assert_eq!(TodoList::new().newest_index(), None);
}
