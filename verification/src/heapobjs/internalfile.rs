use vstd::prelude::*;
use crate::objsys::{RefKey, fresh_key};

verus! {

/// A file on the heap: its key, the name it was opened by, and its mark for
/// the garbage collector. The open file itself is held by the program that
/// performs the reading.
pub struct InternalFile {
    pub id: RefKey,
    pub filename: String,
    pub marked: bool,
}

impl InternalFile {
    /// A new, unmarked file object for `filename` under a fresh key.
    pub fn new(filename: String) -> (r: InternalFile)
        ensures
            r.filename == filename,
            !r.marked,
            r.id.0@.len() == 22,
    {
        InternalFile { id: fresh_key(), filename, marked: false }
    }
}

} // verus!
