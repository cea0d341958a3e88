//! Unix paths as byte strings: absoluteness, joining, leaf name and parent.

use vstd::prelude::*;

verus! {

/// The path separator.
pub const SEP: u8 = 47;

/// A path is absolute when it starts at the root.
pub open spec fn spec_is_absolute(p: Seq<u8>) -> bool {
    p.len() > 0 && p[0] == SEP
}

/// Appending `p` to `base`: an absolute `p` replaces `base`; otherwise a
/// separator is put between them unless `base` is empty or already ends in one.
pub open spec fn spec_join(base: Seq<u8>, p: Seq<u8>) -> Seq<u8> {
    if spec_is_absolute(p) {
        p
    } else if base.len() == 0 || base.last() == SEP {
        base + p
    } else {
        base + seq![SEP] + p
    }
}

/// Length of the first `n` bytes of `p` once trailing separators are dropped.
pub open spec fn trimmed_len(p: Seq<u8>, n: int) -> int
    decreases n,
{
    if n > 0 && p[n - 1] == SEP {
        trimmed_len(p, n - 1)
    } else {
        n
    }
}

/// Index of the last separator among the first `n` bytes of `p`, or -1.
pub open spec fn last_sep_before(p: Seq<u8>, n: int) -> int
    decreases n,
{
    if n <= 0 {
        -1
    } else if p[n - 1] == SEP {
        n - 1
    } else {
        last_sep_before(p, n - 1)
    }
}

/// The last component of a path in canonical form: the root itself for a
/// path made of separators only, nothing for the empty path.
pub open spec fn spec_leaf(p: Seq<u8>) -> Option<Seq<u8>> {
    let t = trimmed_len(p, p.len() as int);
    if t == 0 {
        if p.len() > 0 {
            Some(seq![SEP])
        } else {
            None
        }
    } else {
        Some(p.subrange(last_sep_before(p, t) + 1, t))
    }
}

/// The parent of a path in canonical form: nothing for the root or the empty
/// path, the empty path for a single relative component.
pub open spec fn spec_parent(p: Seq<u8>) -> Option<Seq<u8>> {
    let t = trimmed_len(p, p.len() as int);
    if t == 0 {
        None
    } else {
        let i = last_sep_before(p, t);
        if i < 0 {
            Some(Seq::<u8>::empty())
        } else {
            let h = trimmed_len(p, i);
            if h == 0 {
                Some(p.subrange(0, 1))
            } else {
                Some(p.subrange(0, h))
            }
        }
    }
}

proof fn lemma_trimmed_len_bounds(p: Seq<u8>, n: int)
    requires
        0 <= n <= p.len(),
    ensures
        0 <= trimmed_len(p, n) <= n,
        trimmed_len(p, n) > 0 ==> p[trimmed_len(p, n) - 1] != SEP,
        forall|k: int| trimmed_len(p, n) <= k < n ==> p[k] == SEP,
    decreases n,
{
    if n > 0 && p[n - 1] == SEP {
        lemma_trimmed_len_bounds(p, n - 1);
    }
}

proof fn lemma_last_sep_bounds(p: Seq<u8>, n: int)
    requires
        0 <= n <= p.len(),
    ensures
        -1 <= last_sep_before(p, n) < n,
        last_sep_before(p, n) >= 0 ==> p[last_sep_before(p, n)] == SEP,
    decreases n,
{
    if n > 0 && p[n - 1] != SEP {
        lemma_last_sep_bounds(p, n - 1);
    }
}

/// Whether `p` is an absolute path.
pub fn is_absolute(p: &[u8]) -> (r: bool)
    ensures
        r == spec_is_absolute(p@),
{
    p.len() > 0 && p[0] == SEP
}

/// `base` with `p` appended, as a path.
pub fn join(base: &[u8], p: &[u8]) -> (r: Vec<u8>)
    ensures
        r@ == spec_join(base@, p@),
{
    let mut r: Vec<u8> = Vec::new();
    if !is_absolute(p) {
        push_all(&mut r, base);
        if base.len() > 0 && base[base.len() - 1] != SEP {
            r.push(SEP);
        }
    }
    push_all(&mut r, p);
    r
}

/// Appends every byte of `s` to `v`.
fn push_all(v: &mut Vec<u8>, s: &[u8])
    ensures
        final(v)@ == old(v)@ + s@,
{
    let mut i: usize = 0;
    while i < s.len()
        invariant
            i <= s.len(),
            v@ == old(v)@ + s@.subrange(0, i as int),
        decreases s.len() - i,
    {
        v.push(s[i]);
        i += 1;
        assert(v@ =~= old(v)@ + s@.subrange(0, i as int));
    }
    assert(s@.subrange(0, i as int) =~= s@);
}

/// The bytes of `p` from `lo` up to `hi`.
fn copy_range(p: &[u8], lo: usize, hi: usize) -> (r: Vec<u8>)
    requires
        lo <= hi <= p@.len(),
    ensures
        r@ == p@.subrange(lo as int, hi as int),
{
    let mut r: Vec<u8> = Vec::new();
    let mut i: usize = lo;
    while i < hi
        invariant
            lo <= i <= hi <= p@.len(),
            r@ == p@.subrange(lo as int, i as int),
        decreases hi - i,
    {
        r.push(p[i]);
        i += 1;
        assert(r@ =~= p@.subrange(lo as int, i as int));
    }
    r
}

/// `trimmed_len(p, n)`, computed.
fn trim_end(p: &[u8], n: usize) -> (r: usize)
    requires
        n <= p@.len(),
    ensures
        r as int == trimmed_len(p@, n as int),
{
    let mut e: usize = n;
    while e > 0 && p[e - 1] == SEP
        invariant
            e <= n <= p@.len(),
            trimmed_len(p@, e as int) == trimmed_len(p@, n as int),
        decreases e,
    {
        e -= 1;
    }
    e
}

/// `last_sep_before(p, n)`, computed: `None` where there is no separator.
fn find_last_sep(p: &[u8], n: usize) -> (r: Option<usize>)
    requires
        n <= p@.len(),
    ensures
        match r {
            Some(i) => i as int == last_sep_before(p@, n as int),
            None => last_sep_before(p@, n as int) == -1,
        },
{
    let mut e: usize = n;
    while e > 0
        invariant
            e <= n <= p@.len(),
            last_sep_before(p@, e as int) == last_sep_before(p@, n as int),
        decreases e,
    {
        if p[e - 1] == SEP {
            return Some(e - 1);
        }
        e -= 1;
    }
    None
}

/// The last component of `p`.
pub fn leaf(p: &[u8]) -> (r: Option<Vec<u8>>)
    ensures
        match r {
            Some(v) => spec_leaf(p@) == Some(v@),
            None => spec_leaf(p@) is None,
        },
{
    let t = trim_end(p, p.len());
    proof {
        lemma_trimmed_len_bounds(p@, p@.len() as int);
        lemma_last_sep_bounds(p@, t as int);
    }
    if t == 0 {
        if p.len() > 0 {
            let mut v: Vec<u8> = Vec::new();
            v.push(SEP);
            assert(v@ =~= seq![SEP]);
            Some(v)
        } else {
            None
        }
    } else {
        let start: usize = match find_last_sep(p, t) {
            Some(i) => i + 1,
            None => 0,
        };
        Some(copy_range(p, start, t))
    }
}

/// The parent of `p`.
pub fn parent(p: &[u8]) -> (r: Option<Vec<u8>>)
    ensures
        match r {
            Some(v) => spec_parent(p@) == Some(v@),
            None => spec_parent(p@) is None,
        },
{
    let t = trim_end(p, p.len());
    proof {
        lemma_trimmed_len_bounds(p@, p@.len() as int);
        lemma_last_sep_bounds(p@, t as int);
    }
    if t == 0 {
        return None;
    }
    match find_last_sep(p, t) {
        None => Some(Vec::new()),
        Some(i) => {
            let h = trim_end(p, i);
            proof {
                lemma_trimmed_len_bounds(p@, i as int);
            }
            if h == 0 {
                Some(copy_range(p, 0, 1))
            } else {
                Some(copy_range(p, 0, h))
            }
        },
    }
}

} // verus!
