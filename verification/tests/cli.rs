//! The dispatcher: argument parsing, routed operations, outcomes, exit
//! codes, and the rendered lines.

use todo_list::collection::TodoList;
use todo_list::command::{exit_code, parse_command, run_command, Command, Report};
use todo_list::render::{list_lines, rate_text, render_task_line};
use todo_list::time::u64_to_string;

fn argv(parts: &[&str]) -> Vec<String> {
    parts.iter().map(|p| p.to_string()).collect()
}

#[test]
fn parse_command_recognises_each_word_exactly() {
    assert_eq!(parse_command(&argv(&["prog"])), Command::MissingCommand);
    assert_eq!(parse_command(&argv(&["prog", "help"])), Command::Help);
    assert_eq!(parse_command(&argv(&["prog", "list"])), Command::List);
    assert_eq!(parse_command(&argv(&["prog", "stats"])), Command::Stats);
    assert_eq!(parse_command(&argv(&["prog", "clear"])), Command::Clear);
    assert_eq!(
        parse_command(&argv(&["prog", "add", "buy milk"])),
        Command::Add("buy milk".to_string())
    );
    assert_eq!(parse_command(&argv(&["prog", "done", "12"])), Command::Done(12));
    assert_eq!(parse_command(&argv(&["prog", "remove", "0"])), Command::Remove(0));
    assert_eq!(parse_command(&argv(&["prog", "add"])), Command::MissingArgument);
    assert_eq!(parse_command(&argv(&["prog", "done"])), Command::MissingArgument);
    assert_eq!(parse_command(&argv(&["prog", "remove"])), Command::MissingArgument);
    assert_eq!(parse_command(&argv(&["prog", "done", "x7"])), Command::InvalidId);
    assert_eq!(parse_command(&argv(&["prog", "remove", "-1"])), Command::InvalidId);
    assert_eq!(parse_command(&argv(&["prog", "frobnicate"])), Command::Unknown);
    // exact match: a different case is not recognised
    assert_eq!(parse_command(&argv(&["prog", "LIST"])), Command::Unknown);
}

#[test]
fn exit_codes_are_zero_except_for_usage_errors() {
    assert_eq!(exit_code(&Report::Usage), 1);
    assert_eq!(exit_code(&Report::UnknownCommand), 1);
    assert_eq!(exit_code(&Report::MissingArgument), 1);
    assert_eq!(exit_code(&Report::InvalidId), 1);
    assert_eq!(exit_code(&Report::Help), 0);
    assert_eq!(exit_code(&Report::Empty), 0);
    assert_eq!(exit_code(&Report::NotFound { id: 3 }), 0);
    assert_eq!(exit_code(&Report::DuplicateText), 0);
    assert_eq!(exit_code(&Report::Cleared { count: 2 }), 0);
}

#[test]
fn full_scenario_add_done_stats_clear() {
    let mut l = TodoList::new();
    let (r, save) = run_command(&mut l, Command::List, 10);
    assert_eq!(r, Report::Empty);
    assert!(!save);

    let (r, save) = run_command(&mut l, Command::Add("buy milk".to_string()), 100);
    assert_eq!(r, Report::Added { id: 0 });
    assert!(save);

    let (r, save) = run_command(&mut l, Command::List, 110);
    assert_eq!(r, Report::Listing);
    assert!(!save);
    assert_eq!(l.len(), 1);
    assert!(!l.tasks()[0].done);

    let (r, save) = run_command(&mut l, Command::Done(0), 200);
    assert_eq!(r, Report::Completed { id: 0 });
    assert!(save);

    let (r, save) = run_command(&mut l, Command::Stats, 210);
    assert!(!save);
    assert_eq!(
        r,
        Report::StatsReport { total: 1, completed: 1, pending: 0, rate_tenths: 1000 }
    );
    assert_eq!(rate_text(1000), "100.0");

    let (r, save) = run_command(&mut l, Command::Clear, 220);
    assert_eq!(r, Report::Cleared { count: 1 });
    assert!(save);

    let (r, save) = run_command(&mut l, Command::List, 230);
    assert_eq!(r, Report::Empty);
    assert!(!save);
}

#[test]
fn scenario_remove_first_of_two_leaves_the_second() {
    let mut l = TodoList::new();
    run_command(&mut l, Command::Add("a".to_string()), 100);
    run_command(&mut l, Command::Add("b".to_string()), 200);
    let id_of_a = l.tasks()[0].id;
    let (r, save) = run_command(&mut l, Command::Remove(id_of_a), 300);
    assert_eq!(r, Report::Removed { id: id_of_a });
    assert!(save);
    assert_eq!(l.len(), 1);
    assert_eq!(l.tasks()[0].text, "b");
}

#[test]
fn informational_outcomes_do_not_ask_for_a_save() {
    let mut l = TodoList::new();
    run_command(&mut l, Command::Add("a".to_string()), 100);
    let (r, save) = run_command(&mut l, Command::Add("a".to_string()), 150);
    assert_eq!(r, Report::DuplicateText);
    assert!(!save);
    let (r, save) = run_command(&mut l, Command::Add(String::new()), 150);
    assert_eq!(r, Report::EmptyText);
    assert!(!save);
    let (r, save) = run_command(&mut l, Command::Done(9), 160);
    assert_eq!(r, Report::NotFound { id: 9 });
    assert!(!save);
    let (r, save) = run_command(&mut l, Command::Clear, 170);
    assert_eq!(r, Report::NothingToClear);
    assert!(!save);
    let (r, save) = run_command(&mut l, Command::Unknown, 180);
    assert_eq!(r, Report::UnknownCommand);
    assert!(!save);
    assert_eq!(l.len(), 1);
}

#[test]
fn rendered_line_shows_glyph_id_text_and_calendar_times() {
    let mut l = TodoList::new();
    run_command(&mut l, Command::Add("buy milk".to_string()), 0);
    assert_eq!(
        render_task_line(&l.tasks()[0]),
        "⏳ [0] buy milk (created: 1970-01-01 00:00:00)"
    );
    run_command(&mut l, Command::Done(0), 86400);
    assert_eq!(
        render_task_line(&l.tasks()[0]),
        "✅ [0] buy milk (created: 1970-01-01 00:00:00, completed: 1970-01-02 00:00:00)"
    );
}

#[test]
fn the_listing_renders_one_line_per_task_in_order() {
    let mut l = TodoList::new();
    run_command(&mut l, Command::Add("first".to_string()), 0);
    run_command(&mut l, Command::Add("second".to_string()), 86400);
    run_command(&mut l, Command::Done(1), 86401);
    let lines = list_lines(&l);
    assert_eq!(lines.len(), 2);
    assert_eq!(lines[0], "⏳ [0] first (created: 1970-01-01 00:00:00)");
    assert_eq!(
        lines[1],
        "✅ [1] second (created: 1970-01-02 00:00:00, completed: 1970-01-02 00:00:01)"
    );
}

#[test]
fn the_largest_supported_timestamp_still_renders_as_a_date() {
    let mut l = TodoList::new();
    run_command(
        &mut l,
        Command::Add("last".to_string()),
        todo_list::todo::MAX_TIMESTAMP,
    );
    assert_eq!(
        render_task_line(&l.tasks()[0]),
        "⏳ [0] last (created: 9999-12-31 23:59:59)"
    );
}

#[test]
fn numbers_and_rates_render_exactly() {
    assert_eq!(u64_to_string(0), "0");
    assert_eq!(u64_to_string(7), "7");
    assert_eq!(u64_to_string(1234567890), "1234567890");
    assert_eq!(u64_to_string(u64::MAX), "18446744073709551615");
    assert_eq!(rate_text(0), "0.0");
    assert_eq!(rate_text(333), "33.3");
    assert_eq!(rate_text(505), "50.5");
}
