use crate::text::LF;
use crate::types::BlankLine;
use vstd::prelude::*;

verus! {

impl BlankLine {
    /// A single empty line: one line feed.
    pub fn empty() -> (r: BlankLine)
        ensures
            r.raw@ == seq![LF],
    {
        let mut raw: Vec<u8> = Vec::new();
        raw.push(LF);
        proof {
            assert(raw@ =~= seq![LF]);
        }
        BlankLine { raw }
    }
}

} // verus!
