//! The decision side of persistence: what collection a run starts from,
//! given what was (or was not) read from the storage file, and what text a
//! collection is saved as. Reading and writing the file itself is the
//! caller's business.

use vstd::prelude::*;

use crate::codec::{decode, encode, spec_decode, spec_encode};
use crate::collection::TodoList;
use crate::todo::TodoView;

verus! {

/// How a load ended.
#[derive(Clone, Copy, Debug, PartialEq, Eq, Structural)]
pub enum LoadStatus {
    /// The file was read and parsed.
    Loaded,
    /// No file yet: the expected state on a first run, not an error.
    Missing,
    /// The file exists but does not hold a valid task document: the run
    /// starts empty and the caller reports a warning.
    Corrupt,
}

/// The collection a run starts from. `contents` is the file's text, or
/// `None` when the file is absent. A missing file yields the empty
/// collection without complaint; text that does not parse yields the empty
/// collection and the corrupt status; this never fails.
pub fn load_from_contents(contents: Option<&str>) -> (r: (TodoList, LoadStatus))
    ensures
        r.0.wf(),
        contents is None ==> r.1 == LoadStatus::Missing && r.0@ == Seq::<TodoView>::empty(),
        contents matches Some(s) ==> match spec_decode(s@) {
            Some(ts) => r.1 == LoadStatus::Loaded && r.0@ == ts,
            None => r.1 == LoadStatus::Corrupt && r.0@ == Seq::<TodoView>::empty(),
        },
{
    match contents {
        None => (TodoList::new(), LoadStatus::Missing),
        Some(s) => match decode(s) {
            Some(l) => (l, LoadStatus::Loaded),
            None => (TodoList::new(), LoadStatus::Corrupt),
        },
    }
}

/// The text under which a collection is persisted.
pub fn save_to_string(l: &TodoList) -> (r: String)
    ensures
        r@ == spec_encode(l@),
{
    encode(l)
}

} // verus!
