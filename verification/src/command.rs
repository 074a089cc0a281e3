//! The command dispatcher: a typed command parsed from the argument list,
//! one operation run against the collection, and a structured outcome for
//! the caller to render, persist on, and exit with.

use vstd::prelude::*;

use crate::collection::{
    has_id, has_text, idx_of_id, spec_count_done, spec_next_id, spec_pending,
    spec_rate_tenths, AddOutcome, DoneOutcome, TodoList,
};
use crate::digits::{parse_u64, sp_parse_u64};
use crate::strutil::{str_eq, str_to_chars};
use crate::todo::{TodoView, MAX_TIMESTAMP};

verus! {

/// One invocation's command, parsed from the argument list.
#[derive(Debug, PartialEq, Eq)]
pub enum Command {
    Help,
    List,
    Stats,
    Clear,
    Add(String),
    Done(u64),
    Remove(u64),
    /// No command word was given at all.
    MissingCommand,
    /// The command needs an argument that was not given.
    MissingArgument,
    /// The given identifier is not an unsigned decimal number.
    InvalidId,
    /// The command word is none of the known ones.
    Unknown,
}

/// What one run reports: the outcome kind and the data needed to render it.
#[derive(Clone, Copy, Debug, PartialEq, Eq, Structural)]
pub enum Report {
    /// `help` was asked for.
    Help,
    /// Usage must be shown because no command was given.
    Usage,
    UnknownCommand,
    MissingArgument,
    InvalidId,
    /// The listing has no tasks.
    Empty,
    /// The listing has tasks; the caller renders each line.
    Listing,
    NoStats,
    StatsReport { total: usize, completed: usize, pending: usize, rate_tenths: u64 },
    Added { id: u64 },
    EmptyText,
    DuplicateText,
    IdExhausted,
    Completed { id: u64 },
    AlreadyDone { id: u64 },
    NotFound { id: u64 },
    Removed { id: u64 },
    Cleared { count: usize },
    NothingToClear,
}

/// A whole argument string as an unsigned decimal number.
pub open spec fn sp_full_u64(s: Seq<char>) -> Option<u64> {
    match sp_parse_u64(s, 0) {
        Some((v, j)) => if j == s.len() {
            Some(v)
        } else {
            None
        },
        None => None,
    }
}

/// Parse one whole argument as an id.
fn parse_id(s: &String) -> (r: Option<u64>)
    ensures
        r == sp_full_u64(s@),
{
    let v = str_to_chars(s.as_str());
    match parse_u64(&v, 0) {
        Some(p) => if p.1 == v.len() {
            Some(p.0)
        } else {
            None
        },
        None => None,
    }
}

/// Parse the argument list (the program name first, as handed to a process)
/// into a command. Command words match exactly.
pub fn parse_command(args: &Vec<String>) -> (c: Command)
    ensures
        args@.len() < 2 <==> c is MissingCommand,
        args@.len() >= 2 ==> {
            let w = args@[1]@;
            &&& (w == "help"@ <==> c is Help)
            &&& (w == "list"@ <==> c is List)
            &&& (w == "stats"@ <==> c is Stats)
            &&& (w == "clear"@ <==> c is Clear)
            &&& (c is Add <==> w == "add"@ && args@.len() >= 3)
            &&& (c matches Command::Add(t) ==> t@ == args@[2]@)
            &&& (c is MissingArgument <==> (w == "add"@ || w == "done"@ || w == "remove"@)
                && args@.len() < 3)
            &&& (w == "done"@ && args@.len() >= 3 ==> (match sp_full_u64(args@[2]@) {
                Some(id) => c == Command::Done(id),
                None => c is InvalidId,
            }))
            &&& (w == "remove"@ && args@.len() >= 3 ==> (match sp_full_u64(args@[2]@) {
                Some(id) => c == Command::Remove(id),
                None => c is InvalidId,
            }))
            &&& (c is Done ==> w == "done"@)
            &&& (c is Remove ==> w == "remove"@)
            &&& (c is Unknown <==> !(w == "help"@ || w == "list"@ || w == "stats"@ || w
                == "clear"@ || w == "add"@ || w == "done"@ || w == "remove"@))
        },
{
    proof {
        reveal_strlit("help");
        reveal_strlit("list");
        reveal_strlit("stats");
        reveal_strlit("clear");
        reveal_strlit("add");
        reveal_strlit("done");
        reveal_strlit("remove");
        assert("help"@[0] == 'h');
        assert("list"@[0] == 'l');
        assert("stats"@[0] == 's');
        assert("clear"@[0] == 'c');
        assert("add"@[0] == 'a');
        assert("done"@[0] == 'd');
        assert("remove"@[0] == 'r');
    }
    if args.len() < 2 {
        return Command::MissingCommand;
    }
    let w = args[1].as_str();
    if str_eq(w, "help") {
        return Command::Help;
    }
    if str_eq(w, "list") {
        return Command::List;
    }
    if str_eq(w, "stats") {
        return Command::Stats;
    }
    if str_eq(w, "clear") {
        return Command::Clear;
    }
    if str_eq(w, "add") {
        if args.len() < 3 {
            return Command::MissingArgument;
        }
        return Command::Add(args[2].clone());
    }
    if str_eq(w, "done") {
        if args.len() < 3 {
            return Command::MissingArgument;
        }
        return match parse_id(&args[2]) {
            Some(id) => Command::Done(id),
            None => Command::InvalidId,
        };
    }
    if str_eq(w, "remove") {
        if args.len() < 3 {
            return Command::MissingArgument;
        }
        return match parse_id(&args[2]) {
            Some(id) => Command::Remove(id),
            None => Command::InvalidId,
        };
    }
    Command::Unknown
}

/// Run one command against the collection. The second component says whether
/// the collection changed, and so whether the caller must persist it; it is
/// false exactly when the collection is untouched.
pub fn run_command(list: &mut TodoList, cmd: Command, now: u64) -> (r: (Report, bool))
    requires
        old(list).wf(),
        now <= MAX_TIMESTAMP,
    ensures
        final(list).wf(),
        !r.1 ==> final(list)@ == old(list)@,
        cmd is Help ==> r.0 == Report::Help && !r.1,
        cmd is MissingCommand ==> r.0 == Report::Usage && !r.1,
        cmd is Unknown ==> r.0 == Report::UnknownCommand && !r.1,
        cmd is MissingArgument ==> r.0 == Report::MissingArgument && !r.1,
        cmd is InvalidId ==> r.0 == Report::InvalidId && !r.1,
        cmd is List ==> !r.1 && r.0 == if old(list)@.len() == 0 {
            Report::Empty
        } else {
            Report::Listing
        },
        cmd is Stats ==> {
            &&& !r.1
            &&& old(list)@.len() == 0 ==> r.0 == Report::NoStats
            &&& old(list)@.len() > 0 ==> (r.0 matches Report::StatsReport {
                total,
                completed,
                pending,
                rate_tenths,
            } && total == old(list)@.len() && completed == spec_count_done(old(list)@) && pending
                == old(list)@.len() - spec_count_done(old(list)@) && rate_tenths
                == spec_rate_tenths(old(list)@))
        },
        cmd matches Command::Add(text) ==> {
            &&& text@.len() == 0 ==> r.0 == Report::EmptyText && !r.1
            &&& text@.len() > 0 && has_text(old(list)@, text@) ==> r.0 == Report::DuplicateText
                && !r.1
            &&& text@.len() > 0 && !has_text(old(list)@, text@) && spec_next_id(old(list)@)
                > u64::MAX ==> r.0 == Report::IdExhausted && !r.1
            &&& text@.len() > 0 && !has_text(old(list)@, text@) && spec_next_id(old(list)@)
                <= u64::MAX ==> r.0 == (Report::Added { id: spec_next_id(old(list)@) as u64 })
                && r.1 && final(list)@ == old(list)@.push(
                (TodoView {
                    id: spec_next_id(old(list)@) as u64,
                    text: text@,
                    done: false,
                    created_at: now,
                    completed_at: None::<u64>,
                }),
            )
        },
        cmd matches Command::Done(id) ==> {
            &&& !has_id(old(list)@, id) ==> r.0 == (Report::NotFound { id }) && !r.1
            &&& has_id(old(list)@, id) && old(list)@[idx_of_id(old(list)@, id)].done ==> r.0 == (
            Report::AlreadyDone { id }) && !r.1
            &&& has_id(old(list)@, id) && !old(list)@[idx_of_id(old(list)@, id)].done ==> r.0 == (
            Report::Completed { id }) && r.1 && final(list)@ == old(list)@.update(
                idx_of_id(old(list)@, id),
                (TodoView {
                    done: true,
                    completed_at: Some(now),
                    ..old(list)@[idx_of_id(old(list)@, id)]
                }),
            )
        },
        cmd matches Command::Remove(id) ==> {
            &&& !has_id(old(list)@, id) ==> r.0 == (Report::NotFound { id }) && !r.1
            &&& has_id(old(list)@, id) ==> r.0 == (Report::Removed { id }) && r.1 && final(list)@
                == old(list)@.remove(idx_of_id(old(list)@, id))
        },
        cmd is Clear ==> {
            &&& final(list)@ == spec_pending(old(list)@)
            &&& r.1 <==> spec_count_done(old(list)@) > 0
            &&& spec_count_done(old(list)@) == 0 ==> r.0 == Report::NothingToClear
            &&& spec_count_done(old(list)@) > 0 ==> r.0 == (Report::Cleared {
                count: spec_count_done(old(list)@) as usize,
            })
        },
{
    match cmd {
        Command::Help => (Report::Help, false),
        Command::MissingCommand => (Report::Usage, false),
        Command::Unknown => (Report::UnknownCommand, false),
        Command::MissingArgument => (Report::MissingArgument, false),
        Command::InvalidId => (Report::InvalidId, false),
        Command::List => {
            if list.is_empty() {
                (Report::Empty, false)
            } else {
                (Report::Listing, false)
            }
        },
        Command::Stats => {
            if list.is_empty() {
                (Report::NoStats, false)
            } else {
                let st = list.stats();
                (
                    Report::StatsReport {
                        total: st.total,
                        completed: st.completed,
                        pending: st.pending,
                        rate_tenths: st.rate_tenths,
                    },
                    false,
                )
            }
        },
        Command::Add(text) => {
            match list.add(text, now) {
                AddOutcome::Added { id } => (Report::Added { id }, true),
                AddOutcome::EmptyText => (Report::EmptyText, false),
                AddOutcome::DuplicateText => (Report::DuplicateText, false),
                AddOutcome::IdExhausted => (Report::IdExhausted, false),
            }
        },
        Command::Done(id) => {
            match list.mark_done(id, now) {
                DoneOutcome::Completed => (Report::Completed { id }, true),
                DoneOutcome::AlreadyDone => (Report::AlreadyDone { id }, false),
                DoneOutcome::NotFound => (Report::NotFound { id }, false),
            }
        },
        Command::Remove(id) => {
            match list.remove(id) {
                Some(_) => (Report::Removed { id }, true),
                None => (Report::NotFound { id }, false),
            }
        },
        Command::Clear => {
            let count = list.clear();
            if count > 0 {
                (Report::Cleared { count }, true)
            } else {
                (Report::NothingToClear, false)
            }
        },
    }
}

/// The process exit code a report calls for: non-zero only for usage errors.
pub open spec fn spec_exit_code(r: Report) -> int {
    match r {
        Report::Usage => 1,
        Report::UnknownCommand => 1,
        Report::MissingArgument => 1,
        Report::InvalidId => 1,
        _ => 0,
    }
}

pub fn exit_code(r: &Report) -> (c: i32)
    ensures
        c == spec_exit_code(*r),
{
    match r {
        Report::Usage => 1,
        Report::UnknownCommand => 1,
        Report::MissingArgument => 1,
        Report::InvalidId => 1,
        _ => 0,
    }
}

} // verus!
