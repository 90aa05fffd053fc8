//! Batch picture resizing: the decisions, formats and protocols of a batch
//! resizer, verified; reading, writing and showing are left to the caller.
use vstd::prelude::*;

pub mod text;
pub mod number;
pub mod params;
pub mod counters;
pub mod protocol;
pub mod resize;
pub mod output;
pub mod scan;
pub mod html;

verus! {

/// Joins the fields of a message between the workers and the window.
pub const CMDS_JOINSIGN: &'static str = "🀡🀡";

/// Joins the paths of a file list.
pub const FILES_JOINSIGN: &'static str = "🀅🀅";

/// The characters of `CMDS_JOINSIGN`.
pub open spec fn cmds_sep() -> Seq<char> {
    seq!['\u{1F021}', '\u{1F021}']
}

/// The characters of `FILES_JOINSIGN`.
pub open spec fn files_sep() -> Seq<char> {
    seq!['\u{1F005}', '\u{1F005}']
}

/// `CMDS_JOINSIGN`, with what it holds.
pub fn cmds_joinsign() -> (r: &'static str)
    ensures
        r@ == cmds_sep(),
{
    proof {
        reveal_strlit("🀡🀡");
    }
    CMDS_JOINSIGN
}

/// `FILES_JOINSIGN`, with what it holds.
pub fn files_joinsign() -> (r: &'static str)
    ensures
        r@ == files_sep(),
{
    proof {
        reveal_strlit("🀅🀅");
    }
    FILES_JOINSIGN
}

} // verus!
