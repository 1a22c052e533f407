//! Grouping of records by exact sequence content.
//!
//! The mapping produced here is an association list in first-seen key order:
//! one entry per distinct sequence content, carrying the identifiers of all
//! records that share it, in order of appearance. Keys are compared by exact
//! sequence equality; no normalization beyond the per-line trimming of the
//! parser takes place.

use vstd::prelude::*;
use vstd::string::{StrSliceExecFns, StringExecFns};
use crate::parse::{RecordV, records_of, run};
use crate::text::trim_str;

verus! {

/// One group of the mapping: a sequence content and the identifiers of all
/// records whose sequence equals it, in order of appearance.
pub struct GroupV {
    pub sequence: Seq<char>,
    pub ids: Seq<Seq<char>>,
}

/// The index of the group keyed by `sequence`, or `groups.len()` when no
/// group has that key.
pub open spec fn find_group(groups: Seq<GroupV>, sequence: Seq<char>) -> int
    decreases groups.len(),
{
    if groups.len() == 0 {
        0
    } else if groups[0].sequence == sequence {
        0
    } else {
        1 + find_group(groups.drop_first(), sequence)
    }
}

/// `find_group` returns the first index whose key matches, or the length.
pub proof fn lemma_find_group(groups: Seq<GroupV>, sequence: Seq<char>)
    ensures
        0 <= find_group(groups, sequence) <= groups.len(),
        forall|j: int|
            0 <= j < find_group(groups, sequence) ==> groups[j].sequence != sequence,
        find_group(groups, sequence) < groups.len() ==> groups[find_group(
            groups,
            sequence,
        )].sequence == sequence,
    decreases groups.len(),
{
    if groups.len() > 0 && groups[0].sequence != sequence {
        lemma_find_group(groups.drop_first(), sequence);
        assert(forall|j: int|
            0 <= j < find_group(groups, sequence) ==> groups[j].sequence != sequence) by {
            assert(forall|j: int|
                1 <= j < find_group(groups, sequence) ==> groups[j]
                    == groups.drop_first()[j - 1]);
        }
    }
}

/// Add one record to the mapping: append its identifier to the group keyed
/// by its sequence, creating that group at the end when it is new.
pub open spec fn add_record(groups: Seq<GroupV>, r: RecordV) -> Seq<GroupV> {
    let i = find_group(groups, r.sequence);
    if i < groups.len() {
        groups.update(i, GroupV { sequence: groups[i].sequence, ids: groups[i].ids.push(r.id) })
    } else {
        groups.push(GroupV { sequence: r.sequence, ids: seq![r.id] })
    }
}

/// The mapping built from `recs`, one record at a time, in order.
pub open spec fn group_records(recs: Seq<RecordV>) -> Seq<GroupV>
    decreases recs.len(),
{
    if recs.len() == 0 {
        Seq::empty()
    } else {
        add_record(group_records(recs.drop_last()), recs.last())
    }
}

/// The grouped records of a FASTA input.
pub open spec fn groups_of(lines: Seq<Seq<char>>) -> Seq<GroupV> {
    group_records(records_of(lines))
}

/// No two groups of the mapping share a key.
pub open spec fn distinct_keys(groups: Seq<GroupV>) -> bool {
    forall|i: int, j: int|
        0 <= i < j < groups.len() ==> groups[i].sequence != groups[j].sequence
}

/// One group of the mapping, as executable data.
pub struct SequenceGroup {
    pub sequence: String,
    pub ids: Vec<String>,
}

impl View for SequenceGroup {
    type V = GroupV;

    open spec fn view(&self) -> GroupV {
        GroupV { sequence: self.sequence@, ids: self.ids.deep_view() }
    }
}

impl DeepView for SequenceGroup {
    type V = GroupV;

    open spec fn deep_view(&self) -> GroupV {
        self.view()
    }
}

/// The index of the group keyed by `sequence`, or `groups.len()` when no
/// group has that key.
fn find_in_groups(groups: &Vec<SequenceGroup>, sequence: &String) -> (i: usize)
    ensures
        i as int == find_group(groups.deep_view(), sequence@),
{
    let ghost gv = groups.deep_view();
    let mut i: usize = 0;
    while i < groups.len()
        invariant
            i <= groups.len(),
            gv == groups.deep_view(),
            gv.len() == groups.len(),
            forall|j: int| 0 <= j < i ==> gv[j].sequence != sequence@,
        ensures
            i <= groups.len(),
            forall|j: int| 0 <= j < i ==> gv[j].sequence != sequence@,
            i < groups.len() ==> gv[i as int].sequence == sequence@,
        decreases groups.len() - i,
    {
        if groups[i].sequence == *sequence {
            break ;
        }
        i += 1;
    }
    proof {
        lemma_find_group(gv, sequence@);
    }
    i
}

/// Append one record to the mapping, in the group keyed by its sequence.
fn commit_record(groups: &mut Vec<SequenceGroup>, id: String, sequence: String)
    ensures
        final(groups).deep_view() == add_record(
            old(groups).deep_view(),
            RecordV { id: id@, sequence: sequence@ },
        ),
{
    let ghost gv = groups.deep_view();
    let ghost r = RecordV { id: id@, sequence: sequence@ };
    let i = find_in_groups(groups, &sequence);
    if i < groups.len() {
        let ghost old_ids = gv[i as int].ids;
        groups[i].ids.push(id);
        proof {
            assert(groups[i as int].ids.deep_view() =~= old_ids.push(r.id));
            assert(groups.deep_view() =~= add_record(gv, r));
        }
    } else {
        let mut ids: Vec<String> = Vec::new();
        ids.push(id);
        groups.push(SequenceGroup { sequence, ids });
        proof {
            assert(groups[gv.len() as int].ids.deep_view() =~= seq![r.id]);
            assert(groups.deep_view() =~= add_record(gv, r));
        }
    }
}

/// Group the records of a FASTA input by exact sequence content.
///
/// One pass over `lines` builds the mapping: one group per distinct sequence
/// content, in first-seen order, each carrying the identifiers of all records
/// that share it, in order of appearance.
pub fn parse_groups(lines: &Vec<String>) -> (groups: Vec<SequenceGroup>)
    ensures
        groups.deep_view() == groups_of(lines.deep_view()),
        distinct_keys(groups.deep_view()),
{
    let ghost lv = lines.deep_view();
    let mut groups: Vec<SequenceGroup> = Vec::new();
    let mut cur_id = String::new();
    let mut cur_seq = String::new();
    let mut i: usize = 0;
    while i < lines.len()
        invariant
            i <= lines.len(),
            lv == lines.deep_view(),
            lv.len() == lines.len(),
            groups.deep_view() == group_records(run(lv.take(i as int)).recs),
            cur_id@ == run(lv.take(i as int)).cur_id,
            cur_seq@ == run(lv.take(i as int)).cur_seq,
        decreases lines.len() - i,
    {
        let ghost st = run(lv.take(i as int));
        proof {
            assert(lv.take(i + 1).drop_last() =~= lv.take(i as int));
            assert(lv.take(i + 1).last() == lv[i as int]);
        }
        let line = &lines[i];
        let header = !line.as_str().is_empty() && line.as_str().get_char(0) == '>';
        if header {
            if !cur_id.as_str().is_empty() {
                proof {
                    lemma_group_records_push(st.recs, RecordV { id: cur_id@, sequence: cur_seq@ });
                }
                commit_record(&mut groups, cur_id, cur_seq);
            }
            cur_id = String::from_str(trim_str(line.as_str()));
            cur_seq = String::new();
        } else {
            cur_seq.append(trim_str(line.as_str()));
        }
        i += 1;
    }
    proof {
        assert(lv.take(lines.len() as int) =~= lv);
    }
    if !cur_id.as_str().is_empty() {
        proof {
            lemma_group_records_push(run(lv).recs, RecordV { id: cur_id@, sequence: cur_seq@ });
        }
        commit_record(&mut groups, cur_id, cur_seq);
    }
    proof {
        crate::laws::lemma_grouping_partition(records_of(lv));
    }
    groups
}

/// Building the mapping of `recs.push(r)` adds `r` to the mapping of `recs`.
proof fn lemma_group_records_push(recs: Seq<RecordV>, r: RecordV)
    ensures
        group_records(recs.push(r)) == add_record(group_records(recs), r),
{
    assert(recs.push(r).drop_last() =~= recs);
    assert(recs.push(r).last() == r);
}

} // verus!
