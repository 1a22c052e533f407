//! General properties of parsing, grouping and reporting.
//!
//! Each proof function here states one property of the library as a whole,
//! over the same spec functions that the executable functions' contracts
//! use, so the statements compose with those contracts.

use vstd::prelude::*;
use crate::parse::{RecordV, ParseState, is_header, records_of, run, step, init_state};
use crate::group::{
    GroupV, groups_of, group_records, add_record, find_group, lemma_find_group, distinct_keys,
};
use crate::report::{report_spec, found_line, report_body, dup_count};
use crate::text::{trim_spec, is_ws, lemma_trim_keeps_head};

verus! {

/// The identifiers of all records in `recs` whose sequence is exactly `s`,
/// in order of appearance.
pub open spec fn ids_for(recs: Seq<RecordV>, s: Seq<char>) -> Seq<Seq<char>>
    decreases recs.len(),
{
    if recs.len() == 0 {
        Seq::empty()
    } else if recs.last().sequence == s {
        ids_for(recs.drop_last(), s).push(recs.last().id)
    } else {
        ids_for(recs.drop_last(), s)
    }
}

/// When some identifier is collected for `s`, some record has sequence `s`.
proof fn lemma_ids_for_nonempty(recs: Seq<RecordV>, s: Seq<char>)
    ensures
        ids_for(recs, s).len() > 0 ==> exists|k: int|
            0 <= k < recs.len() && #[trigger] recs[k].sequence == s,
    decreases recs.len(),
{
    if recs.len() > 0 {
        lemma_ids_for_nonempty(recs.drop_last(), s);
        if recs.last().sequence == s {
            assert(recs[recs.len() - 1].sequence == s);
        } else if ids_for(recs.drop_last(), s).len() > 0 {
            let k = choose|k: int|
                0 <= k < recs.drop_last().len() && #[trigger] recs.drop_last()[k].sequence == s;
            assert(recs[k].sequence == s);
        }
    }
}

/// The identifier of record `k` is among the identifiers collected for its
/// own sequence.
proof fn lemma_ids_for_contains(recs: Seq<RecordV>, k: int)
    requires
        0 <= k < recs.len(),
    ensures
        ids_for(recs, recs[k].sequence).contains(recs[k].id),
    decreases recs.len(),
{
    if k == recs.len() - 1 {
        let ids = ids_for(recs.drop_last(), recs[k].sequence).push(recs[k].id);
        assert(ids[ids.len() - 1] == recs[k].id);
    } else {
        lemma_ids_for_contains(recs.drop_last(), k);
        let s = recs[k].sequence;
        assert(recs.drop_last()[k] == recs[k]);
        let ids0 = ids_for(recs.drop_last(), s);
        let j = choose|j: int| 0 <= j < ids0.len() && ids0[j] == recs[k].id;
        if recs.last().sequence == s {
            assert(ids_for(recs, s)[j] == recs[k].id);
        }
    }
}

/// The mapping of `recs` partitions the records by exact sequence content:
/// no two groups share a key, every group's identifier list is exactly that
/// of the records with its key, in order, and every record's sequence is the
/// key of some group.
pub proof fn lemma_grouping_partition(recs: Seq<RecordV>)
    ensures
        distinct_keys(group_records(recs)),
        forall|i: int|
            0 <= i < group_records(recs).len() ==> (#[trigger] group_records(recs)[i]).ids
                == ids_for(recs, group_records(recs)[i].sequence),
        forall|k: int|
            0 <= k < recs.len() ==> exists|i: int|
                0 <= i < group_records(recs).len() && (#[trigger] group_records(recs)[i]).sequence
                    == (#[trigger] recs[k]).sequence,
    decreases recs.len(),
{
    if recs.len() > 0 {
        let recs0 = recs.drop_last();
        let r = recs.last();
        lemma_grouping_partition(recs0);
        let g0 = group_records(recs0);
        let g1 = group_records(recs);
        lemma_find_group(g0, r.sequence);
        let fi = find_group(g0, r.sequence);
        assert(g1 == add_record(g0, r));
        assert(forall|s: Seq<char>|
            s != r.sequence ==> ids_for(recs, s) == ids_for(recs0, s));
        if fi < g0.len() {
            assert(g1 =~= g0.update(
                fi,
                GroupV { sequence: g0[fi].sequence, ids: g0[fi].ids.push(r.id) },
            ));
            assert(forall|i: int| 0 <= i < g1.len() ==> g1[i].sequence == g0[i].sequence);
            assert(ids_for(recs, r.sequence) == ids_for(recs0, r.sequence).push(r.id));
            assert forall|i: int| 0 <= i < g1.len() implies (#[trigger] g1[i]).ids == ids_for(
                recs,
                g1[i].sequence,
            ) by {
                if i != fi {
                    assert(g0[fi].sequence == r.sequence);
                    assert(g1[i] == g0[i]);
                    assert(g0[i].sequence != r.sequence);
                }
            }
            assert forall|k: int|
                0 <= k < recs.len() implies exists|i: int|
                0 <= i < g1.len() && (#[trigger] g1[i]).sequence == (#[trigger] recs[k]).sequence by {
                if k < recs0.len() {
                    assert(recs0[k] == recs[k]);
                    let i0 = choose|i0: int|
                        0 <= i0 < g0.len() && (#[trigger] g0[i0]).sequence == recs0[k].sequence;
                    assert(g1[i0].sequence == recs[k].sequence);
                } else {
                    assert(g1[fi].sequence == recs[k].sequence);
                }
            }
        } else {
            assert(g1 =~= g0.push(GroupV { sequence: r.sequence, ids: seq![r.id] }));
            assert(forall|j: int| 0 <= j < g0.len() ==> (#[trigger] g0[j]).sequence != r.sequence);
            lemma_ids_for_nonempty(recs0, r.sequence);
            if ids_for(recs0, r.sequence).len() > 0 {
                let k = choose|k: int|
                    0 <= k < recs0.len() && #[trigger] recs0[k].sequence == r.sequence;
                let i0 = choose|i0: int|
                    0 <= i0 < g0.len() && (#[trigger] g0[i0]).sequence == recs0[k].sequence;
                assert(false);
            }
            assert(ids_for(recs, r.sequence) =~= seq![r.id]);
            assert forall|i: int| 0 <= i < g1.len() implies (#[trigger] g1[i]).ids == ids_for(
                recs,
                g1[i].sequence,
            ) by {
                if i < g0.len() {
                    assert(g1[i] == g0[i]);
                    assert(g0[i].sequence != r.sequence);
                }
            }
            assert forall|k: int|
                0 <= k < recs.len() implies exists|i: int|
                0 <= i < g1.len() && (#[trigger] g1[i]).sequence == (#[trigger] recs[k]).sequence by {
                if k < recs0.len() {
                    assert(recs0[k] == recs[k]);
                    let i0 = choose|i0: int|
                        0 <= i0 < g0.len() && (#[trigger] g0[i0]).sequence == recs0[k].sequence;
                    assert(g1[i0].sequence == recs[k].sequence);
                } else {
                    assert(g1[g0.len() as int].sequence == recs[k].sequence);
                }
            }
        }
    }
}

/// Every record of a FASTA input lands in exactly one group of its mapping:
/// there is a group keyed by the record's own sequence, that group's
/// identifier list contains the record's identifier, and no other group has
/// that key.
pub proof fn lemma_record_in_one_group(lines: Seq<Seq<char>>, k: int)
    requires
        0 <= k < records_of(lines).len(),
    ensures
        distinct_keys(groups_of(lines)),
        exists|i: int|
            0 <= i < groups_of(lines).len() && (#[trigger] groups_of(lines)[i]).sequence
                == records_of(lines)[k].sequence && groups_of(lines)[i].ids.contains(
                records_of(lines)[k].id,
            ),
{
    let recs = records_of(lines);
    lemma_grouping_partition(recs);
    lemma_ids_for_contains(recs, k);
    let groups = group_records(recs);
    let i = choose|i: int|
        0 <= i < groups.len() && (#[trigger] groups[i]).sequence == recs[k].sequence;
    assert(groups[i].ids == ids_for(recs, recs[k].sequence));
    assert(groups_of(lines)[i].sequence == recs[k].sequence && groups_of(lines)[i].ids.contains(
        recs[k].id,
    ));
}

/// Groups are keyed by exact sequence equality: a group's identifier list is
/// exactly that of the records whose sequence is byte-identical to its key,
/// so records whose sequences differ in any character, letter case included,
/// are never merged.
pub proof fn lemma_groups_keyed_exactly(lines: Seq<Seq<char>>)
    ensures
        distinct_keys(groups_of(lines)),
        forall|i: int|
            0 <= i < groups_of(lines).len() ==> (#[trigger] groups_of(lines)[i]).ids == ids_for(
                records_of(lines),
                groups_of(lines)[i].sequence,
            ),
{
    lemma_grouping_partition(records_of(lines));
}

/// The trimmed data lines of a record concatenate with no inserted
/// separator.
pub open spec fn concat_trimmed(data: Seq<Seq<char>>) -> Seq<char>
    decreases data.len(),
{
    if data.len() == 0 {
        Seq::empty()
    } else {
        concat_trimmed(data.drop_last()) + trim_spec(data.last())
    }
}

/// Running the parser over a header and its data lines accumulates the
/// concatenation of the trimmed data lines.
proof fn lemma_run_header_data(h: Seq<char>, data: Seq<Seq<char>>)
    requires
        is_header(h),
        forall|i: int| 0 <= i < data.len() ==> !is_header(#[trigger] data[i]),
    ensures
        run(seq![h] + data) == (ParseState {
            recs: Seq::empty(),
            cur_id: trim_spec(h),
            cur_seq: concat_trimmed(data),
        }),
    decreases data.len(),
{
    if data.len() == 0 {
        assert(seq![h] + data =~= seq![h]);
        assert(seq![h].drop_last() =~= Seq::<Seq<char>>::empty());
        assert(seq![h].last() == h);
        assert(run(Seq::<Seq<char>>::empty()) == init_state());
        assert(run(seq![h]) == step(run(seq![h].drop_last()), seq![h].last()));
        assert(run(seq![h]) == step(init_state(), h));
    } else {
        let d0 = data.drop_last();
        assert(forall|i: int| 0 <= i < d0.len() ==> d0[i] == data[i]);
        lemma_run_header_data(h, d0);
        assert((seq![h] + data).drop_last() =~= seq![h] + d0);
        assert((seq![h] + data).last() == data.last());
    }
}

/// A multi-line sequence is the concatenation of its trimmed data lines,
/// with nothing inserted between them: a single record whose header is
/// followed by data lines only parses to exactly that record.
pub proof fn lemma_multiline_concat(h: Seq<char>, data: Seq<Seq<char>>)
    requires
        is_header(h),
        forall|i: int| 0 <= i < data.len() ==> !is_header(#[trigger] data[i]),
    ensures
        records_of(seq![h] + data) == seq![
            RecordV { id: trim_spec(h), sequence: concat_trimmed(data) },
        ],
{
    lemma_run_header_data(h, data);
    assert(!is_ws('>'));
    lemma_trim_keeps_head(h);
    assert(Seq::<RecordV>::empty().push(
        RecordV { id: trim_spec(h), sequence: concat_trimmed(data) },
    ) =~= seq![RecordV { id: trim_spec(h), sequence: concat_trimmed(data) }]);
}

/// A record whose header is followed by no data line has the empty sequence,
/// and such records group together under the empty key: two consecutive
/// headers parse to two records with sequence `""` and one group.
pub proof fn lemma_empty_sequence_records(h1: Seq<char>, h2: Seq<char>)
    requires
        is_header(h1),
        is_header(h2),
    ensures
        records_of(seq![h1, h2]) == seq![
            RecordV { id: trim_spec(h1), sequence: Seq::empty() },
            RecordV { id: trim_spec(h2), sequence: Seq::empty() },
        ],
        groups_of(seq![h1, h2]) == seq![
            GroupV { sequence: Seq::empty(), ids: seq![trim_spec(h1), trim_spec(h2)] },
        ],
{
    assert(!is_ws('>'));
    lemma_trim_keeps_head(h1);
    lemma_trim_keeps_head(h2);
    let r1 = RecordV { id: trim_spec(h1), sequence: Seq::empty() };
    let r2 = RecordV { id: trim_spec(h2), sequence: Seq::empty() };
    assert(seq![h1, h2].drop_last() =~= seq![h1]);
    assert(seq![h1, h2].last() == h2);
    assert(seq![h1].drop_last() =~= Seq::<Seq<char>>::empty());
    assert(seq![h1].last() == h1);
    assert(run(Seq::<Seq<char>>::empty()) == init_state());
    assert(run(seq![h1]) == step(run(seq![h1].drop_last()), seq![h1].last()));
    assert(run(seq![h1]) == step(init_state(), h1));
    assert(run(seq![h1, h2]) == step(run(seq![h1, h2].drop_last()), seq![h1, h2].last()));
    assert(run(seq![h1, h2]) == step(run(seq![h1]), h2));
    assert(run(seq![h1]).cur_id == trim_spec(h1));
    assert(run(seq![h1, h2]).recs =~= seq![r1]);
    let recs = records_of(seq![h1, h2]);
    assert(recs =~= seq![r1, r2]);
    assert(records_of(seq![h1, h2]) == seq![r1, r2]);
    assert(recs.drop_last() =~= seq![r1]);
    assert(recs.last() == r2);
    assert(seq![r1].drop_last() =~= Seq::<RecordV>::empty());
    assert(seq![r1].last() == r1);
    assert(group_records(Seq::<RecordV>::empty()) == Seq::<GroupV>::empty());
    assert(group_records(seq![r1]) == add_record(group_records(seq![r1].drop_last()), seq![r1].last()));
    let ga = add_record(Seq::empty(), r1);
    assert(group_records(seq![r1]) == ga);
    assert(find_group(Seq::<GroupV>::empty(), r1.sequence) == 0);
    assert(ga =~= seq![GroupV { sequence: Seq::empty(), ids: seq![r1.id] }]);
    let gb = add_record(ga, r2);
    assert(group_records(recs) == add_record(group_records(recs.drop_last()), recs.last()));
    assert(group_records(recs) == gb);
    assert(ga[0].sequence == r2.sequence);
    assert(find_group(ga, r2.sequence) == 0);
    assert(gb == ga.update(0, GroupV { sequence: ga[0].sequence, ids: ga[0].ids.push(r2.id) }));
    assert(seq![r1.id].push(r2.id) =~= seq![trim_spec(h1), trim_spec(h2)]);
    assert(gb =~= seq![GroupV { sequence: Seq::empty(), ids: seq![trim_spec(h1), trim_spec(h2)] }]);
    assert(groups_of(seq![h1, h2]) == gb);
}

/// The parser's state after junk lines only: nothing committed, no record
/// open.
proof fn lemma_run_junk_only(p: Seq<Seq<char>>)
    requires
        forall|i: int| 0 <= i < p.len() ==> !is_header(#[trigger] p[i]),
    ensures
        run(p).recs == Seq::<RecordV>::empty(),
        run(p).cur_id == Seq::<char>::empty(),
    decreases p.len(),
{
    if p.len() > 0 {
        let p0 = p.drop_last();
        assert(forall|i: int| 0 <= i < p0.len() ==> p0[i] == p[i]);
        lemma_run_junk_only(p0);
    }
}

/// Junk lines before the input proper change neither the committed records
/// nor the open record's identifier, and leave its sequence unchanged
/// whenever a record is open.
proof fn lemma_run_prefix_junk(p: Seq<Seq<char>>, ls: Seq<Seq<char>>)
    requires
        forall|i: int| 0 <= i < p.len() ==> !is_header(#[trigger] p[i]),
    ensures
        run(p + ls).recs == run(ls).recs,
        run(p + ls).cur_id == run(ls).cur_id,
        run(ls).cur_id.len() > 0 ==> run(p + ls).cur_seq == run(ls).cur_seq,
    decreases ls.len(),
{
    if ls.len() == 0 {
        assert(p + ls =~= p);
        lemma_run_junk_only(p);
    } else {
        assert((p + ls).drop_last() =~= p + ls.drop_last());
        assert((p + ls).last() == ls.last());
        lemma_run_prefix_junk(p, ls.drop_last());
    }
}

/// Lines preceding the first header are ignored: they raise no error and
/// appear in no record and no group.
pub proof fn lemma_leading_lines_ignored(p: Seq<Seq<char>>, ls: Seq<Seq<char>>)
    requires
        forall|i: int| 0 <= i < p.len() ==> !is_header(#[trigger] p[i]),
    ensures
        records_of(p + ls) == records_of(ls),
        groups_of(p + ls) == groups_of(ls),
{
    lemma_run_prefix_junk(p, ls);
}

/// The report is a function of the mapping's mathematical value alone: two
/// mappings with equal contents render to byte-identical reports.
pub proof fn lemma_report_deterministic(a: Seq<GroupV>, b: Seq<GroupV>)
    requires
        a == b,
    ensures
        report_spec(a) == report_spec(b),
{
}

/// The count in the report's opening line is exactly the number of groups
/// whose identifier list holds more than one identifier, and the rest of the
/// report is the groups' blocks in stored order.
pub proof fn lemma_report_header_count(groups: Seq<GroupV>)
    ensures
        report_spec(groups) == found_line(dup_count(groups)) + report_body(groups),
{
}

} // verus!
