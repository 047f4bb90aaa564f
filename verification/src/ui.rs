use vstd::prelude::*;

use crate::model::Status;

verus! {

/// Glyph shown in front of a task line for each status.
pub open spec fn spec_status_emoji(s: Status) -> Seq<char> {
    match s {
        Status::Todo => "□"@,
        Status::Doing => "▶"@,
        Status::Done => "✓"@,
        Status::Archived => "⎌"@,
    }
}

pub fn status_emoji(s: &Status) -> (r: &'static str)
    ensures
        r@ == spec_status_emoji(*s),
{
    match s {
        Status::Todo => "□",
        Status::Doing => "▶",
        Status::Done => "✓",
        Status::Archived => "⎌",
    }
}

} // verus!
