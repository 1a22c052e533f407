//! The duplicate report.
//!
//! The report opens with a line stating how many sequence contents are shared
//! by more than one record, followed by a blank line. Then, for each such
//! group in the mapping's stored (first-seen) order: a marker line, one line
//! per identifier in the group's stored order, the sequence content, and a
//! blank line.

use vstd::prelude::*;
use vstd::string::StringExecFns;
use crate::group::{GroupV, SequenceGroup};

verus! {

/// The decimal digit `d` as a character.
pub open spec fn digit_char(d: int) -> char {
    if d == 0 {
        '0'
    } else if d == 1 {
        '1'
    } else if d == 2 {
        '2'
    } else if d == 3 {
        '3'
    } else if d == 4 {
        '4'
    } else if d == 5 {
        '5'
    } else if d == 6 {
        '6'
    } else if d == 7 {
        '7'
    } else if d == 8 {
        '8'
    } else {
        '9'
    }
}

/// `n` written in decimal, without leading zeros.
pub open spec fn dec_str(n: nat) -> Seq<char>
    decreases n,
{
    if n < 10 {
        seq![digit_char(n as int)]
    } else {
        dec_str(n / 10) + seq![digit_char((n % 10) as int)]
    }
}

/// The number of groups shared by more than one record.
pub open spec fn dup_count(groups: Seq<GroupV>) -> nat
    decreases groups.len(),
{
    if groups.len() == 0 {
        0
    } else {
        dup_count(groups.drop_last()) + (if groups.last().ids.len() > 1 {
            1nat
        } else {
            0nat
        })
    }
}

/// The report's opening: the duplicate count and a blank line.
pub open spec fn found_line(n: nat) -> Seq<char> {
    "Found "@ + dec_str(n) + " duplicate sequences:\n\n"@
}

/// One identifier line per identifier, in stored order.
pub open spec fn id_lines(ids: Seq<Seq<char>>) -> Seq<char>
    decreases ids.len(),
{
    if ids.len() == 0 {
        Seq::empty()
    } else {
        id_lines(ids.drop_last()) + "  ID: "@ + ids.last() + "\n"@
    }
}

/// The block reporting one duplicated sequence.
pub open spec fn group_block(g: GroupV) -> Seq<char> {
    "Duplicate sequence found:\n"@ + id_lines(g.ids) + "Sequence: "@ + g.sequence + "\n\n"@
}

/// What a group contributes to the report: its block when it holds more than
/// one identifier, nothing otherwise.
pub open spec fn block_of(g: GroupV) -> Seq<char> {
    if g.ids.len() > 1 {
        group_block(g)
    } else {
        Seq::empty()
    }
}

/// The blocks of all duplicated sequences, in the mapping's stored order.
pub open spec fn report_body(groups: Seq<GroupV>) -> Seq<char>
    decreases groups.len(),
{
    if groups.len() == 0 {
        Seq::empty()
    } else {
        report_body(groups.drop_last()) + block_of(groups.last())
    }
}

/// The full report of a mapping.
pub open spec fn report_spec(groups: Seq<GroupV>) -> Seq<char> {
    found_line(dup_count(groups)) + report_body(groups)
}

/// The decimal digit `d` as a string.
fn digit_str(d: usize) -> (r: &'static str)
    requires
        d < 10,
    ensures
        r@ == seq![digit_char(d as int)],
{
    proof {
        reveal_strlit("0");
        reveal_strlit("1");
        reveal_strlit("2");
        reveal_strlit("3");
        reveal_strlit("4");
        reveal_strlit("5");
        reveal_strlit("6");
        reveal_strlit("7");
        reveal_strlit("8");
        reveal_strlit("9");
        assert("0"@ =~= seq!['0']);
        assert("1"@ =~= seq!['1']);
        assert("2"@ =~= seq!['2']);
        assert("3"@ =~= seq!['3']);
        assert("4"@ =~= seq!['4']);
        assert("5"@ =~= seq!['5']);
        assert("6"@ =~= seq!['6']);
        assert("7"@ =~= seq!['7']);
        assert("8"@ =~= seq!['8']);
        assert("9"@ =~= seq!['9']);
    }
    match d {
        0 => "0",
        1 => "1",
        2 => "2",
        3 => "3",
        4 => "4",
        5 => "5",
        6 => "6",
        7 => "7",
        8 => "8",
        _ => "9",
    }
}

/// `n` written in decimal, without leading zeros.
pub fn usize_to_string(n: usize) -> (r: String)
    ensures
        r@ == dec_str(n as nat),
    decreases n,
{
    if n < 10 {
        let mut s = String::new();
        s.append(digit_str(n));
        proof {
            assert(Seq::<char>::empty() + seq![digit_char(n as int)] =~= seq![
                digit_char(n as int),
            ]);
        }
        s
    } else {
        let mut s = usize_to_string(n / 10);
        s.append(digit_str(n % 10));
        s
    }
}

/// The number of groups shared by more than one record.
pub fn duplicate_count(groups: &Vec<SequenceGroup>) -> (n: usize)
    ensures
        n as nat == dup_count(groups.deep_view()),
        n <= groups.len(),
{
    let ghost gv = groups.deep_view();
    let mut n: usize = 0;
    let mut i: usize = 0;
    while i < groups.len()
        invariant
            i <= groups.len(),
            n <= i,
            gv == groups.deep_view(),
            gv.len() == groups.len(),
            n as nat == dup_count(gv.take(i as int)),
        decreases groups.len() - i,
    {
        proof {
            assert(gv.take(i + 1).drop_last() =~= gv.take(i as int));
            assert(gv.take(i + 1).last() == gv[i as int]);
        }
        if groups[i].ids.len() > 1 {
            n += 1;
        }
        i += 1;
    }
    proof {
        assert(gv.take(groups.len() as int) =~= gv);
    }
    n
}

/// Render the duplicate report of a mapping.
pub fn render_report(groups: &Vec<SequenceGroup>) -> (r: String)
    ensures
        r@ == report_spec(groups.deep_view()),
{
    let ghost gv = groups.deep_view();
    let n = duplicate_count(groups);
    let ghost head = found_line(dup_count(gv));
    let mut out = String::new();
    out.append("Found ");
    let digits = usize_to_string(n);
    out.append(digits.as_str());
    out.append(" duplicate sequences:\n\n");
    proof {
        assert(out@ =~= head + report_body(gv.take(0)));
    }
    let mut i: usize = 0;
    while i < groups.len()
        invariant
            i <= groups.len(),
            gv == groups.deep_view(),
            gv.len() == groups.len(),
            head == found_line(dup_count(gv)),
            out@ == head + report_body(gv.take(i as int)),
        decreases groups.len() - i,
    {
        proof {
            assert(gv.take(i + 1).drop_last() =~= gv.take(i as int));
            assert(gv.take(i + 1).last() == gv[i as int]);
        }
        let ghost pre = out@;
        if groups[i].ids.len() > 1 {
            out.append("Duplicate sequence found:\n");
            let ghost ids = gv[i as int].ids;
            let mut j: usize = 0;
            proof {
                assert(out@ =~= pre + "Duplicate sequence found:\n"@ + id_lines(ids.take(0)));
            }
            while j < groups[i].ids.len()
                invariant
                    i < groups.len(),
                    j <= groups[i as int].ids.len(),
                    gv == groups.deep_view(),
                    gv.len() == groups.len(),
                    ids == gv[i as int].ids,
                    ids.len() == groups[i as int].ids.len(),
                    out@ == pre + "Duplicate sequence found:\n"@ + id_lines(ids.take(j as int)),
                decreases groups[i as int].ids.len() - j,
            {
                proof {
                    assert(ids.take(j + 1).drop_last() =~= ids.take(j as int));
                    assert(ids.take(j + 1).last() == ids[j as int]);
                }
                out.append("  ID: ");
                out.append(groups[i].ids[j].as_str());
                out.append("\n");
                proof {
                    assert(out@ =~= pre + "Duplicate sequence found:\n"@ + id_lines(
                        ids.take(j + 1),
                    ));
                }
                j += 1;
            }
            proof {
                assert(ids.take(groups[i as int].ids.len() as int) =~= ids);
            }
            out.append("Sequence: ");
            out.append(groups[i].sequence.as_str());
            out.append("\n\n");
            proof {
                assert(out@ =~= pre + block_of(gv[i as int]));
            }
        }
        proof {
            assert(out@ =~= head + report_body(gv.take(i + 1)));
        }
        i += 1;
    }
    proof {
        assert(gv.take(groups.len() as int) =~= gv);
    }
    out
}

} // verus!
