//! Pure projections from tasks and totals to display text. No decision is
//! made here; the dispatcher and its caller choose what to show.

use vstd::prelude::*;
use vstd::string::StringExecFns;

use crate::digits::spec_u64_str;
use crate::time::{formatted_of, timestamp_text, u64_to_string};
use crate::todo::{Todo, TodoView};

verus! {

/// The one-line text of a task: status glyph, id, text, and its time(s).
pub open spec fn spec_render_line(t: TodoView) -> Seq<char> {
    if t.done {
        "✅ ["@ + spec_u64_str(t.id) + "] "@ + t.text + " (created: "@ + formatted_of(
            t.created_at,
        ) + ", completed: "@ + (match t.completed_at {
            Some(c) => formatted_of(c),
            None => Seq::<char>::empty(),
        }) + ")"@
    } else {
        "⏳ ["@ + spec_u64_str(t.id) + "] "@ + t.text + " (created: "@ + formatted_of(
            t.created_at,
        ) + ")"@
    }
}

/// Render one task for the listing.
pub fn render_task_line(t: &Todo) -> (r: String)
    requires
        t@.wf(),
    ensures
        r@ == spec_render_line(t@),
{
    let mut r = String::new();
    if t.done {
        r.append("✅ [");
        r.append(u64_to_string(t.id).as_str());
        r.append("] ");
        r.append(t.text.as_str());
        r.append(" (created: ");
        r.append(timestamp_text(t.created_at).as_str());
        r.append(", completed: ");
        let ct = match t.completed_at {
            Some(c) => timestamp_text(c),
            None => unreached(),
        };
        r.append(ct.as_str());
        r.append(")");
        proof {
            assert(r@ =~= spec_render_line(t@));
        }
    } else {
        r.append("⏳ [");
        r.append(u64_to_string(t.id).as_str());
        r.append("] ");
        r.append(t.text.as_str());
        r.append(" (created: ");
        r.append(timestamp_text(t.created_at).as_str());
        r.append(")");
        proof {
            assert(r@ =~= spec_render_line(t@));
        }
    }
    r
}

/// The listing: one rendered line per task, oldest first.
pub fn list_lines(l: &crate::collection::TodoList) -> (r: Vec<String>)
    requires
        l.wf(),
    ensures
        r@.len() == l@.len(),
        forall|i: int| 0 <= i < r@.len() ==> (#[trigger] r@[i])@ == spec_render_line(l@[i]),
{
    let tasks = l.tasks();
    let mut r: Vec<String> = Vec::new();
    let mut i: usize = 0;
    while i < tasks.len()
        invariant
            i <= l@.len(),
            l.wf(),
            tasks@.map_values(|t: Todo| t@) == l@,
            r@.len() == i,
            forall|k: int| 0 <= k < i ==> (#[trigger] r@[k])@ == spec_render_line(l@[k]),
        decreases l@.len() - i,
    {
        assert(tasks@[i as int]@ == l@[i as int]);
        assert(l@[i as int].wf());
        r.push(render_task_line(&tasks[i]));
        i = i + 1;
    }
    r
}

/// The completion rate, tenths of a percent, written as a decimal with one
/// fractional digit.
pub open spec fn spec_rate_text(rate_tenths: u64) -> Seq<char> {
    spec_u64_str(rate_tenths / 10) + "."@ + spec_u64_str(rate_tenths % 10)
}

pub fn rate_text(rate_tenths: u64) -> (r: String)
    ensures
        r@ == spec_rate_text(rate_tenths),
{
    let mut r = u64_to_string(rate_tenths / 10);
    r.append(".");
    r.append(u64_to_string(rate_tenths % 10).as_str());
    proof {
        assert(r@ =~= spec_rate_text(rate_tenths));
    }
    r
}

} // verus!
