//! The record model of FASTA text.
//!
//! A FASTA input is an ordered sequence of text lines. A line whose first
//! character is the header marker `>` starts a new record; its trimmed text
//! (marker included) is the record's identifier. Every other line, trimmed,
//! is appended to the current record's sequence with no separator. Lines
//! before the first header belong to no record and are dropped.

use vstd::prelude::*;
use crate::text::trim_spec;

verus! {

/// One FASTA record: the identifier line, verbatim but trimmed, and the
/// concatenation of its trimmed data lines.
pub struct RecordV {
    pub id: Seq<char>,
    pub sequence: Seq<char>,
}

/// The parser's intermediate state: the records committed so far, the
/// identifier of the record being read (empty when no header has been seen),
/// and its accumulated sequence.
pub struct ParseState {
    pub recs: Seq<RecordV>,
    pub cur_id: Seq<char>,
    pub cur_seq: Seq<char>,
}

/// Whether a line starts a new record.
pub open spec fn is_header(line: Seq<char>) -> bool {
    line.len() > 0 && line[0] == '>'
}

/// The state before any line has been read.
pub open spec fn init_state() -> ParseState {
    ParseState { recs: Seq::empty(), cur_id: Seq::empty(), cur_seq: Seq::empty() }
}

/// The record under construction, committed when its header is complete.
pub open spec fn commit(st: ParseState) -> Seq<RecordV> {
    if st.cur_id.len() > 0 {
        st.recs.push(RecordV { id: st.cur_id, sequence: st.cur_seq })
    } else {
        st.recs
    }
}

/// One step of the parser: consume a single line.
pub open spec fn step(st: ParseState, line: Seq<char>) -> ParseState {
    if is_header(line) {
        ParseState { recs: commit(st), cur_id: trim_spec(line), cur_seq: Seq::empty() }
    } else {
        ParseState { recs: st.recs, cur_id: st.cur_id, cur_seq: st.cur_seq + trim_spec(line) }
    }
}

/// The parser's state after consuming all of `lines`.
pub open spec fn run(lines: Seq<Seq<char>>) -> ParseState
    decreases lines.len(),
{
    if lines.len() == 0 {
        init_state()
    } else {
        step(run(lines.drop_last()), lines.last())
    }
}

/// The records of `lines`, in order of appearance: all committed records,
/// plus the record still open at end of input, if any.
pub open spec fn records_of(lines: Seq<Seq<char>>) -> Seq<RecordV> {
    commit(run(lines))
}

} // verus!
