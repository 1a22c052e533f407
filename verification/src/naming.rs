//! Names derived from the input path.
//!
//! The report's destination keeps the input's directory and stem and replaces
//! the extension with a fixed suffix: `dir/name.fasta` becomes
//! `dir/name_duplicates.txt`. Path components are separated by `/`; the
//! extension is what follows the last `.` of the final component, provided
//! that dot is not the component's first character.

use vstd::prelude::*;
use vstd::string::{StrSliceExecFns, StringExecFns};

verus! {

/// The index where the path's final component starts: right after the last
/// `/`, or `0` when there is none.
pub open spec fn file_start(s: Seq<char>) -> int
    decreases s.len(),
{
    if s.len() == 0 {
        0
    } else if s.last() == '/' {
        s.len() as int
    } else {
        file_start(s.drop_last())
    }
}

/// The largest index `i > lo` with `s[i] == '.'`, or `-1` when there is none.
pub open spec fn last_dot(s: Seq<char>, lo: int) -> int
    decreases s.len(),
{
    if s.len() == 0 || s.len() - 1 <= lo {
        -1
    } else if s.last() == '.' {
        s.len() - 1
    } else {
        last_dot(s.drop_last(), lo)
    }
}

/// Where the extension of the path's final component begins (the index of
/// its last `.`), or the path's length when it has no extension.
pub open spec fn stem_end(s: Seq<char>) -> int {
    let d = last_dot(s, file_start(s));
    if d == -1 {
        s.len() as int
    } else {
        d
    }
}

/// The destination name: the input with its extension replaced by the
/// report suffix.
pub open spec fn output_name_spec(s: Seq<char>) -> Seq<char> {
    s.take(stem_end(s)) + "_duplicates.txt"@
}

/// Whether the path's extension is `fasta`, compared without regard to
/// ASCII letter case.
pub open spec fn fasta_ext_spec(s: Seq<char>) -> bool {
    let d = last_dot(s, file_start(s));
    let e = s.subrange(d + 1, s.len() as int);
    d >= 0 && e.len() == 5 && (e[0] == 'f' || e[0] == 'F') && (e[1] == 'a' || e[1] == 'A') && (e[2]
        == 's' || e[2] == 'S') && (e[3] == 't' || e[3] == 'T') && (e[4] == 'a' || e[4] == 'A')
}

/// `file_start` never exceeds the length, and `last_dot` stays in range.
proof fn lemma_split_bounds(s: Seq<char>, lo: int)
    requires
        lo >= -1,
    ensures
        0 <= file_start(s) <= s.len(),
        -1 <= last_dot(s, lo),
        last_dot(s, lo) != -1 ==> lo < last_dot(s, lo) < s.len() && s[last_dot(s, lo)] == '.',
    decreases s.len(),
{
    if s.len() > 0 {
        lemma_split_bounds(s.drop_last(), lo);
    }
}

/// Scanning forward and keeping the last separator seen computes
/// `file_start`.
proof fn lemma_file_start_extend(s: Seq<char>, k: int)
    requires
        0 <= k < s.len(),
    ensures
        file_start(s.take(k + 1)) == if s[k] == '/' {
            k + 1
        } else {
            file_start(s.take(k))
        },
{
    assert(s.take(k + 1).drop_last() =~= s.take(k));
    assert(s.take(k + 1).last() == s[k]);
}

/// Scanning forward and keeping the last dot seen computes `last_dot`.
proof fn lemma_last_dot_extend(s: Seq<char>, lo: int, k: int)
    requires
        0 <= k < s.len(),
    ensures
        last_dot(s.take(k + 1), lo) == if k > lo && s[k] == '.' {
            k
        } else {
            last_dot(s.take(k), lo)
        },
{
    assert(s.take(k + 1).drop_last() =~= s.take(k));
    assert(s.take(k + 1).last() == s[k]);
    if !(k > lo && s[k] == '.') && s.take(k + 1).len() - 1 <= lo {
        lemma_last_dot_short(s.take(k), lo);
    }
}

/// A sequence with no index above `lo` has no dot above `lo`.
proof fn lemma_last_dot_short(s: Seq<char>, lo: int)
    requires
        s.len() - 1 <= lo,
    ensures
        last_dot(s, lo) == -1,
    decreases s.len(),
{
    if s.len() > 0 {
        lemma_last_dot_short(s.drop_last(), lo);
    }
}

/// The index where the path's final component starts.
fn find_file_start(s: &str) -> (fs: usize)
    ensures
        fs as int == file_start(s@),
        fs <= s@.len(),
{
    let n = s.unicode_len();
    let mut fs: usize = 0;
    let mut k: usize = 0;
    while k < n
        invariant
            n == s@.len(),
            k <= n,
            fs <= k,
            fs as int == file_start(s@.take(k as int)),
        decreases n - k,
    {
        proof {
            lemma_file_start_extend(s@, k as int);
        }
        if s.get_char(k) == '/' {
            fs = k + 1;
        }
        k += 1;
    }
    proof {
        assert(s@.take(n as int) =~= s@);
    }
    fs
}

/// The index of the last `.` strictly after `lo`, or `s@.len()` when there
/// is none.
fn find_last_dot(s: &str, lo: usize) -> (d: usize)
    ensures
        d <= s@.len(),
        d < s@.len() ==> d as int == last_dot(s@, lo as int),
        d == s@.len() ==> last_dot(s@, lo as int) == -1,
{
    let n = s.unicode_len();
    let mut d: usize = n;
    let mut k: usize = 0;
    while k < n
        invariant
            n == s@.len(),
            k <= n,
            d == n || d < k,
            d < n ==> d as int == last_dot(s@.take(k as int), lo as int),
            d == n ==> last_dot(s@.take(k as int), lo as int) == -1,
        decreases n - k,
    {
        proof {
            lemma_last_dot_extend(s@, lo as int, k as int);
        }
        if k > lo && s.get_char(k) == '.' {
            d = k;
        }
        k += 1;
    }
    proof {
        assert(s@.take(n as int) =~= s@);
    }
    d
}

/// The destination name derived from the input name: directory and stem
/// kept, extension replaced by the report suffix.
pub fn output_name(input: &str) -> (r: String)
    ensures
        r@ == output_name_spec(input@),
{
    let fs = find_file_start(input);
    let cut = find_last_dot(input, fs);
    proof {
        lemma_split_bounds(input@, fs as int);
        assert(cut as int == stem_end(input@));
    }
    let stem = input.substring_char(0, cut);
    let mut r = String::new();
    r.append(stem);
    r.append("_duplicates.txt");
    proof {
        assert(Seq::<char>::empty() + input@.subrange(0, cut as int) + "_duplicates.txt"@
            =~= input@.take(stem_end(input@)) + "_duplicates.txt"@);
    }
    r
}

/// Whether the path names a FASTA file: its extension is `fasta`, compared
/// without regard to ASCII letter case.
pub fn has_fasta_extension(input: &str) -> (r: bool)
    ensures
        r == fasta_ext_spec(input@),
{
    let fs = find_file_start(input);
    let d = find_last_dot(input, fs);
    let n = input.unicode_len();
    proof {
        lemma_split_bounds(input@, fs as int);
    }
    if d == n {
        return false;
    }
    if n - d != 6 {
        proof {
            assert(input@.subrange(d + 1, n as int).len() != 5);
        }
        return false;
    }
    let c0 = input.get_char(d + 1);
    let c1 = input.get_char(d + 2);
    let c2 = input.get_char(d + 3);
    let c3 = input.get_char(d + 4);
    let c4 = input.get_char(d + 5);
    proof {
        let e = input@.subrange(d + 1, n as int);
        assert(e[0] == input@[d + 1]);
        assert(e[1] == input@[d + 2]);
        assert(e[2] == input@[d + 3]);
        assert(e[3] == input@[d + 4]);
        assert(e[4] == input@[d + 5]);
    }
    (c0 == 'f' || c0 == 'F') && (c1 == 'a' || c1 == 'A') && (c2 == 's' || c2 == 'S') && (c3 == 't'
        || c3 == 'T') && (c4 == 'a' || c4 == 'A')
}

} // verus!
