//! Literal, left-to-right, non-overlapping substring replacement of text.

use vstd::prelude::*;

verus! {

/// `s` with every occurrence of `from` replaced by `to`, scanning left to
/// right and resuming after each replaced occurrence. An empty `from`
/// occurs before every character and once more at the end.
pub open spec fn replaced(s: Seq<char>, from: Seq<char>, to: Seq<char>) -> Seq<char>
    decreases s.len(),
{
    if from.len() == 0 {
        if s.len() == 0 {
            to
        } else {
            to + seq![s[0]] + replaced(s.drop_first(), from, to)
        }
    } else if s.len() < from.len() {
        s
    } else if s.subrange(0, from.len() as int) == from {
        to + replaced(s.subrange(from.len() as int, s.len() as int), from, to)
    } else {
        seq![s[0]] + replaced(s.drop_first(), from, to)
    }
}

/// Whether `pat` occurs in `s` at position `i`.
fn occurs_at(s: &[char], i: usize, pat: &[char]) -> (r: bool)
    requires
        i <= s@.len(),
    ensures
        r == (pat@.len() <= s@.len() - i && s@.subrange(i as int, i + pat@.len()) == pat@),
{
    if pat.len() > s.len() - i {
        return false;
    }
    let len = s.len();
    let mut j: usize = 0;
    while j < pat.len()
        invariant
            i <= s@.len() == len,
            j <= pat@.len() <= s@.len() - i,
            forall|k: int| 0 <= k < j ==> s@[i + k] == pat@[k],
        decreases pat@.len() - j,
    {
        if s[i + j] != pat[j] {
            assert(s@.subrange(i as int, i + pat@.len())[j as int] != pat@[j as int]);
            return false;
        }
        j += 1;
    }
    assert(s@.subrange(i as int, i + pat@.len()) =~= pat@);
    true
}

/// Appends every character of `s` to `v`.
fn push_chars(v: &mut Vec<char>, s: &[char])
    ensures
        final(v)@ == old(v)@ + s@,
{
    let mut i: usize = 0;
    while i < s.len()
        invariant
            i <= s.len(),
            v@ == old(v)@ + s@.subrange(0, i as int),
        decreases s.len() - i,
    {
        v.push(s[i]);
        i += 1;
        assert(v@ =~= old(v)@ + s@.subrange(0, i as int));
    }
    assert(s@.subrange(0, i as int) =~= s@);
}

/// The new contents of a text file: `text` with each occurrence of `from`
/// replaced by `to`.
pub fn replace_all(text: &[char], from: &[char], to: &[char]) -> (r: Vec<char>)
    ensures
        r@ == replaced(text@, from@, to@),
{
    let n = text.len();
    let m = from.len();
    let mut out: Vec<char> = Vec::new();
    let mut i: usize = 0;
    assert(text@.subrange(0, n as int) =~= text@);
    assert(out@ + replaced(text@, from@, to@) =~= replaced(text@, from@, to@));
    while i < n
        invariant
            n == text@.len(),
            m == from@.len(),
            i <= n,
            out@ + replaced(text@.subrange(i as int, n as int), from@, to@) == replaced(
                text@,
                from@,
                to@,
            ),
        decreases n - i,
    {
        let rest = Ghost(text@.subrange(i as int, n as int));
        if m == 0 {
            assert(rest@.drop_first() =~= text@.subrange(i + 1, n as int));
            push_chars(&mut out, to);
            out.push(text[i]);
            i += 1;
            assert(out@ + replaced(text@.subrange(i as int, n as int), from@, to@) =~= replaced(
                text@,
                from@,
                to@,
            ));
        } else if occurs_at(text, i, from) {
            assert(rest@.subrange(0, m as int) =~= text@.subrange(i as int, i + m));
            assert(rest@.subrange(m as int, rest@.len() as int) =~= text@.subrange(
                i + m,
                n as int,
            ));
            push_chars(&mut out, to);
            i += m;
            assert(out@ + replaced(text@.subrange(i as int, n as int), from@, to@) =~= replaced(
                text@,
                from@,
                to@,
            ));
        } else {
            if m <= n - i {
                assert(rest@.subrange(0, m as int) =~= text@.subrange(i as int, i + m));
            }
            assert(rest@.drop_first() =~= text@.subrange(i + 1, n as int));
            out.push(text[i]);
            i += 1;
            assert(out@ + replaced(text@.subrange(i as int, n as int), from@, to@) =~= replaced(
                text@,
                from@,
                to@,
            ));
        }
    }
    assert(text@.subrange(n as int, n as int) =~= Seq::<char>::empty());
    if m == 0 {
        push_chars(&mut out, to);
    }
    assert(out@ =~= replaced(text@, from@, to@));
    out
}

} // verus!
