//! Detection of duplicate sequences in FASTA-formatted text.
//!
//! The library works on plain values: a FASTA input is an ordered list of
//! text lines, and the result of parsing is a mapping from sequence content
//! to the identifiers of all records that share it, in first-seen order.
//! A report over that mapping lists every sequence shared by more than one
//! record. Reading the input and writing the report are left to the caller.

pub mod group;
pub mod laws;
pub mod naming;
pub mod parse;
pub mod report;
pub mod text;

use vstd::prelude::*;

verus! {

/// The full pipeline on plain values: group the records of `lines` by exact
/// sequence content and render the duplicate report of the mapping.
pub fn duplicate_report(lines: &Vec<String>) -> (r: String)
    ensures
        r@ == crate::report::report_spec(crate::group::groups_of(lines.deep_view())),
{
    let groups = crate::group::parse_groups(lines);
    crate::report::render_report(&groups)
}

} // verus!
