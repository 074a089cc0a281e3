//! The persisted format: exact text, round trips, missing and corrupt input.

use todo_list::codec::{decode, encode};
use todo_list::collection::{AddOutcome, TodoList};
use todo_list::storage::{load_from_contents, save_to_string, LoadStatus};

#[test]
fn encode_writes_the_exact_document() {
    let mut l = TodoList::new();
    l.add("buy milk".to_string(), 100);
    l.add("walk".to_string(), 200);
    l.mark_done(1, 300);
    let s = encode(&l);
    let want = "[{\"id\":0,\"text\":\"buy milk\",\"done\":false,\"created_at\":100,\"completed_at\":null},{\"id\":1,\"text\":\"walk\",\"done\":true,\"created_at\":200,\"completed_at\":300}]";
    assert_eq!(s, want);
}

#[test]
fn encode_of_empty_collection_is_an_empty_array() {
    assert_eq!(encode(&TodoList::new()), "[]");
}

#[test]
fn decode_reads_the_exact_document() {
    let s = "[{\"id\":4,\"text\":\"x\",\"done\":false,\"created_at\":7,\"completed_at\":null}]";
    let l = decode(s).expect("valid document");
    assert_eq!(l.len(), 1);
    assert_eq!(l.tasks()[0].id, 4);
    assert_eq!(l.tasks()[0].text, "x");
    assert!(!l.tasks()[0].done);
    assert_eq!(l.tasks()[0].created_at, 7);
    assert_eq!(l.tasks()[0].completed_at, None);
}

#[test]
fn round_trip_preserves_every_field() {
    let mut l = TodoList::new();
    l.add("buy milk".to_string(), 100);
    l.add("say \"hi\" to C:\\dir".to_string(), 200);
    l.add("unicode görevi ✓".to_string(), 300);
    l.mark_done(1, 450);
    let s = encode(&l);
    let back = decode(&s).expect("own encoding must parse");
    assert_eq!(back.tasks(), l.tasks());
    let s2 = encode(&back);
    assert_eq!(s2, s);
}

#[test]
fn loading_a_missing_file_yields_an_empty_collection_without_error() {
    let (l, status) = load_from_contents(None);
    assert_eq!(status, LoadStatus::Missing);
    assert_eq!(l.len(), 0);
}

#[test]
fn loading_a_corrupt_file_yields_an_empty_collection_and_a_warning() {
    for bad in [
        "",
        "not json at all",
        "{}",
        "[{\"id\":0}]",
        "[{\"id\":0,\"text\":\"a\",\"done\":false,\"created_at\":1,\"completed_at\":null}",
        "[{\"id\":0,\"text\":\"a\",\"done\":yes,\"created_at\":1,\"completed_at\":null}]",
    ] {
        let (l, status) = load_from_contents(Some(bad));
        assert_eq!(status, LoadStatus::Corrupt, "input: {bad}");
        assert_eq!(l.len(), 0);
    }
}

#[test]
fn loading_a_document_that_breaks_the_invariant_is_corrupt() {
    // duplicate text
    let dup = "[{\"id\":0,\"text\":\"a\",\"done\":false,\"created_at\":1,\"completed_at\":null},{\"id\":1,\"text\":\"a\",\"done\":false,\"created_at\":2,\"completed_at\":null}]";
    assert_eq!(load_from_contents(Some(dup)).1, LoadStatus::Corrupt);
    // done flag without completion time
    let flag = "[{\"id\":0,\"text\":\"a\",\"done\":true,\"created_at\":1,\"completed_at\":null}]";
    assert_eq!(load_from_contents(Some(flag)).1, LoadStatus::Corrupt);
    // empty text
    let empty = "[{\"id\":0,\"text\":\"\",\"done\":false,\"created_at\":1,\"completed_at\":null}]";
    assert_eq!(load_from_contents(Some(empty)).1, LoadStatus::Corrupt);
    // a number that does not fit in 64 bits
    let wide = "[{\"id\":99999999999999999999999999,\"text\":\"a\",\"done\":false,\"created_at\":1,\"completed_at\":null}]";
    assert_eq!(load_from_contents(Some(wide)).1, LoadStatus::Corrupt);
}

#[test]
fn the_number_parser_takes_leading_zeros() {
    let s = "[{\"id\":007,\"text\":\"a\",\"done\":false,\"created_at\":01,\"completed_at\":null}]";
    let (l, status) = load_from_contents(Some(s));
    assert_eq!(status, LoadStatus::Loaded);
    assert_eq!(l.tasks()[0].id, 7);
    assert_eq!(l.tasks()[0].created_at, 1);
}

#[test]
fn loading_a_valid_file_reports_loaded() {
    let mut l = TodoList::new();
    l.add("a".to_string(), 100);
    let s = save_to_string(&l);
    let (back, status) = load_from_contents(Some(&s));
    assert_eq!(status, LoadStatus::Loaded);
    assert_eq!(back.tasks(), l.tasks());
}

#[test]
fn the_persisted_text_is_json() {
    let mut l = TodoList::new();
    l.add("say \"hi\"".to_string(), 100);
    l.add("b".to_string(), 200);
    l.mark_done(0, 300);
    let s = encode(&l);
    let v: serde_json::Value = serde_json::from_str(&s).expect("well-formed JSON");
    let arr = v.as_array().expect("an array");
    assert_eq!(arr.len(), 2);
    assert_eq!(arr[0]["id"], 0);
    assert_eq!(arr[0]["text"], "say \"hi\"");
    assert_eq!(arr[0]["done"], true);
    assert_eq!(arr[0]["created_at"], 100);
    assert_eq!(arr[0]["completed_at"], 300);
    assert!(arr[1]["completed_at"].is_null());
}

#[test]
fn a_loaded_max_id_exhausts_the_id_space() {
    let s = "[{\"id\":18446744073709551615,\"text\":\"a\",\"done\":false,\"created_at\":1,\"completed_at\":null}]";
    let (mut l, status) = load_from_contents(Some(&s));
    assert_eq!(status, LoadStatus::Loaded);
    assert_eq!(l.add("b".to_string(), 2), AddOutcome::IdExhausted);
    assert_eq!(l.len(), 1);
}
