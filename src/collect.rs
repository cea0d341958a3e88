//! The single consumer of scan results: one report line per entry, and the
//! accepted paths in arrival order.

use vstd::prelude::*;
use crate::scan::{spec_collected_entry, spec_is_text_file, FileProbe, ScanEntry};

verus! {

/// The accepted paths among `s`, in order.
pub open spec fn accepted_paths(s: Seq<ScanEntry>) -> Seq<Vec<u8>>
    decreases s.len(),
{
    if s.len() == 0 {
        Seq::empty()
    } else {
        let r = accepted_paths(s.drop_last());
        match s.last() {
            ScanEntry::Accepted(p) => r.push(p),
            ScanEntry::Error(_) => r,
        }
    }
}

/// The number of failures among `s`.
pub open spec fn error_count(s: Seq<ScanEntry>) -> nat
    decreases s.len(),
{
    if s.len() == 0 {
        0
    } else {
        let r = error_count(s.drop_last());
        match s.last() {
            ScanEntry::Accepted(_) => r,
            ScanEntry::Error(_) => r + 1,
        }
    }
}

/// `renaming: `, which opens the report line of an accepted path.
pub open spec fn renaming_prefix() -> Seq<u8> {
    seq![114u8, 101u8, 110u8, 97u8, 109u8, 105u8, 110u8, 103u8, 58u8, 32u8]
}

/// The line reported for one entry.
pub open spec fn report_line(e: ScanEntry) -> Seq<u8> {
    match e {
        ScanEntry::Accepted(p) => renaming_prefix() + p@ + seq![10u8],
        ScanEntry::Error(m) => m@ + seq![10u8],
    }
}

/// Drains scan results in arrival order.
pub struct Collector {
    paths: Vec<Vec<u8>>,
    received: Ghost<Seq<ScanEntry>>,
}

impl Collector {
    /// Every entry received so far, in arrival order.
    pub closed spec fn received(&self) -> Seq<ScanEntry> {
        self.received@
    }

    /// The paths kept so far.
    pub closed spec fn paths(&self) -> Seq<Vec<u8>> {
        self.paths@
    }

    /// The kept paths are exactly the accepted ones received.
    pub open spec fn wf(&self) -> bool {
        self.paths() == accepted_paths(self.received())
    }

    /// A collector that has received nothing.
    pub fn new() -> (r: Collector)
        ensures
            r.wf(),
            r.received() == Seq::<ScanEntry>::empty(),
    {
        Collector { paths: Vec::new(), received: Ghost(Seq::empty()) }
    }

    /// Takes one entry: keeps its path if it was accepted, and returns the
    /// line to report for it.
    pub fn receive(&mut self, entry: ScanEntry) -> (line: Vec<u8>)
        requires
            old(self).wf(),
        ensures
            final(self).wf(),
            final(self).received() == old(self).received().push(entry),
            line@ == report_line(entry),
    {
        let ghost before = self.received@;
        let ghost e = entry;
        let mut line: Vec<u8> = Vec::new();
        match entry {
            ScanEntry::Accepted(p) => {
                push_renaming_prefix(&mut line);
                push_bytes(&mut line, p.as_slice());
                line.push(10u8);
                self.paths.push(p);
            },
            ScanEntry::Error(m) => {
                push_bytes(&mut line, m.as_slice());
                line.push(10u8);
            },
        }
        self.received = Ghost(before.push(e));
        proof {
            assert(self.received@.drop_last() =~= before);
        }
        assert(line@ =~= report_line(e));
        line
    }

    /// The accepted paths, in arrival order, once the channel is drained.
    pub fn finish(self) -> (r: Vec<Vec<u8>>)
        requires
            self.wf(),
        ensures
            r@ == accepted_paths(self.received()),
    {
        self.paths
    }
}

/// Appends `renaming: ` to `v`.
fn push_renaming_prefix(v: &mut Vec<u8>)
    ensures
        final(v)@ == old(v)@ + renaming_prefix(),
{
    v.push(114u8);
    v.push(101u8);
    v.push(110u8);
    v.push(97u8);
    v.push(109u8);
    v.push(105u8);
    v.push(110u8);
    v.push(103u8);
    v.push(58u8);
    v.push(32u8);
    assert(v@ =~= old(v)@ + renaming_prefix());
}

/// Appends every byte of `s` to `v`.
fn push_bytes(v: &mut Vec<u8>, s: &[u8])
    ensures
        final(v)@ == old(v)@ + s@,
{
    let mut i: usize = 0;
    while i < s.len()
        invariant
            i <= s.len(),
            v@ == old(v)@ + s@.subrange(0, i as int),
        decreases s.len() - i,
    {
        v.push(s[i]);
        i += 1;
        assert(v@ =~= old(v)@ + s@.subrange(0, i as int));
    }
    assert(s@.subrange(0, i as int) =~= s@);
}

/// Nothing received is lost or repeated: each path is kept as many times as
/// it arrived accepted, and the kept paths and the failures together number
/// the entries received.
pub proof fn lemma_nothing_lost(s: Seq<ScanEntry>)
    ensures
        accepted_paths(s).len() + error_count(s) == s.len(),
        forall|p: Vec<u8>|
            #![trigger accepted_paths(s).to_multiset().count(p)]
            accepted_paths(s).to_multiset().count(p) == s.to_multiset().count(
                ScanEntry::Accepted(p),
            ),
    decreases s.len(),
{
    s.to_multiset_ensures();
    accepted_paths(s).to_multiset_ensures();
    if s.len() > 0 {
        let init = s.drop_last();
        lemma_nothing_lost(init);
        assert(init.push(s.last()) =~= s);
        init.to_multiset_ensures();
        let r = accepted_paths(init);
        r.to_multiset_ensures();
        assert forall|p: Vec<u8>|
            #![trigger accepted_paths(s).to_multiset().count(p)]
            accepted_paths(s).to_multiset().count(p) == s.to_multiset().count(
                ScanEntry::Accepted(p),
            ) by {
            assert(r.to_multiset().count(p) == init.to_multiset().count(ScanEntry::Accepted(p)));
            match s.last() {
                ScanEntry::Accepted(q) => {
                    assert(accepted_paths(s) == r.push(q));
                    if p != q {
                        assert(ScanEntry::Accepted(p) != ScanEntry::Accepted(q));
                    }
                },
                ScanEntry::Error(_) => {
                    assert(ScanEntry::Accepted(p) != s.last());
                },
            }
        }
    }
}

/// The order in which entries arrive does not change what is kept: two
/// arrival orders of the same entries keep the same paths, each as often,
/// and count the same failures.
pub proof fn lemma_arrival_order_irrelevant(a: Seq<ScanEntry>, b: Seq<ScanEntry>)
    requires
        a.to_multiset() == b.to_multiset(),
    ensures
        accepted_paths(a).to_multiset() == accepted_paths(b).to_multiset(),
        accepted_paths(a).to_set() == accepted_paths(b).to_set(),
        error_count(a) == error_count(b),
{
    lemma_nothing_lost(a);
    lemma_nothing_lost(b);
    assert(accepted_paths(a).to_multiset() =~= accepted_paths(b).to_multiset());
    accepted_paths(a).to_multiset_ensures();
    accepted_paths(b).to_multiset_ensures();
    assert forall|p: Vec<u8>|
        accepted_paths(a).to_set().contains(p) == accepted_paths(b).to_set().contains(p) by {
        assert(accepted_paths(a).to_multiset().count(p) == accepted_paths(b).to_multiset().count(
            p,
        ));
    }
    assert(accepted_paths(a).to_set() =~= accepted_paths(b).to_set());
    a.to_multiset_ensures();
    b.to_multiset_ensures();
    assert(a.len() == b.len());
    assert(accepted_paths(a).len() == accepted_paths(a).to_multiset().len());
    assert(accepted_paths(b).len() == accepted_paths(b).to_multiset().len());
}

/// The entries that the collector receives from a run of the walk that
/// produced `items`, in the same order.
pub open spec fn collected_entries(items: Seq<Result<FileProbe, Vec<u8>>>) -> Seq<ScanEntry>
    decreases items.len(),
{
    if items.len() == 0 {
        Seq::empty()
    } else {
        let r = collected_entries(items.drop_last());
        match spec_collected_entry(items.last()) {
            Some(e) => r.push(e),
            None => r,
        }
    }
}

/// Whether the walk found a text file at `path` as its `j`-th result.
pub open spec fn text_file_at(items: Seq<Result<FileProbe, Vec<u8>>>, j: int, path: Vec<u8>) -> bool {
    match items[j] {
        Ok(p) => spec_is_text_file(p) && p.path == path,
        Err(_) => false,
    }
}

/// Only text files are kept, and every text file the walk found is kept: a
/// path is among the accepted ones exactly when the walk found a regular file
/// there whose contents sniff as text.
pub proof fn lemma_only_text_files_kept(items: Seq<Result<FileProbe, Vec<u8>>>)
    ensures
        forall|path: Vec<u8>|
            #![trigger accepted_paths(collected_entries(items)).contains(path)]
            accepted_paths(collected_entries(items)).contains(path) <==> exists|j: int|
                0 <= j < items.len() && #[trigger] text_file_at(items, j, path),
    decreases items.len(),
{
    if items.len() > 0 {
        let init = items.drop_last();
        lemma_only_text_files_kept(init);
        let last = items.len() - 1;
        let prev = accepted_paths(collected_entries(init));
        assert forall|path: Vec<u8>|
            #![trigger accepted_paths(collected_entries(items)).contains(path)]
            accepted_paths(collected_entries(items)).contains(path) <==> exists|j: int|
                0 <= j < items.len() && #[trigger] text_file_at(items, j, path) by {
            assert forall|j: int| 0 <= j < last implies text_file_at(items, j, path)
                == text_file_at(init, j, path) by {
                assert(items[j] == init[j]);
            }
            let now = accepted_paths(collected_entries(items));
            match spec_collected_entry(items.last()) {
                Some(e) => {
                    let ce = collected_entries(init).push(e);
                    assert(ce.drop_last() =~= collected_entries(init));
                    match e {
                        ScanEntry::Accepted(q) => {
                            assert(now == prev.push(q));
                            assert(text_file_at(items, last, q));
                            if now.contains(path) && !prev.contains(path) {
                                let k = choose|k: int| 0 <= k < now.len() && now[k] == path;
                                assert(k == prev.len());
                            }
                            if prev.contains(path) {
                                let k = choose|k: int| 0 <= k < prev.len() && prev[k] == path;
                                assert(now[k] == path);
                            }
                            if path == q {
                                assert(now[prev.len() as int] == path);
                            }
                        },
                        ScanEntry::Error(_) => {
                            assert(now == prev);
                            assert(!text_file_at(items, last, path));
                        },
                    }
                },
                None => {
                    assert(now == prev);
                    assert(!text_file_at(items, last, path));
                },
            }
        }
    }
}

} // verus!
