//! What the tree walk reports for each entry, and which entries are kept.

use vstd::prelude::*;

verus! {

/// The word that marks a textual media type: `text`.
pub open spec fn text_word() -> Seq<u8> {
    seq![116u8, 101u8, 120u8, 116u8]
}

/// Whether `pat` occurs in `s` at position `i`.
pub open spec fn occurs_at(s: Seq<u8>, pat: Seq<u8>, i: int) -> bool {
    0 <= i && i + pat.len() <= s.len() && s.subrange(i, i + pat.len()) == pat
}

/// Whether a media type descriptor names a textual category.
pub open spec fn spec_is_text_mime(m: Seq<u8>) -> bool {
    exists|i: int| occurs_at(m, text_word(), i)
}

/// Whether a media type descriptor names a textual category.
pub fn is_text_mime(m: &[u8]) -> (r: bool)
    ensures
        r == spec_is_text_mime(m@),
{
    let n = m.len();
    if n < 4 {
        assert forall|i: int| !occurs_at(m@, text_word(), i) by {}
        return false;
    }
    let mut i: usize = 0;
    while i <= n - 4
        invariant
            n == m@.len() >= 4,
            i <= n - 3,
            forall|j: int| 0 <= j < i ==> !occurs_at(m@, text_word(), j),
        decreases n - i,
    {
        if m[i] == 116 && m[i + 1] == 101 && m[i + 2] == 120 && m[i + 3] == 116 {
            assert(m@.subrange(i as int, i + 4) =~= text_word());
            assert(occurs_at(m@, text_word(), i as int));
            return true;
        }
        assert(m@.subrange(i as int, i + 4)[0] == m@[i as int]);
        assert(m@.subrange(i as int, i + 4)[1] == m@[i + 1]);
        assert(m@.subrange(i as int, i + 4)[2] == m@[i + 2]);
        assert(m@.subrange(i as int, i + 4)[3] == m@[i + 3]);
        i += 1;
    }
    false
}

/// What the walk found at one entry: its path, whether it is a regular file,
/// and the media type sniffed from its contents, where one was found.
#[derive(Debug)]
pub struct FileProbe {
    pub path: Vec<u8>,
    pub is_file: bool,
    pub mime: Option<Vec<u8>>,
}

/// One result handed from the walk to the collector.
#[derive(Debug)]
pub enum ScanEntry {
    /// A text file, to be rewritten.
    Accepted(Vec<u8>),
    /// A failure of the walk at one entry, with its message.
    Error(Vec<u8>),
}

/// An entry is kept when it is a regular file whose contents sniff as text.
pub open spec fn spec_is_text_file(p: FileProbe) -> bool {
    p.is_file && match p.mime {
        Some(m) => spec_is_text_mime(m@),
        None => false,
    }
}

/// What the collector receives for one result of the walk, if anything.
pub open spec fn spec_collected_entry(item: Result<FileProbe, Vec<u8>>) -> Option<ScanEntry> {
    match item {
        Ok(p) => if spec_is_text_file(p) {
            Some(ScanEntry::Accepted(p.path))
        } else {
            None
        },
        Err(e) => Some(ScanEntry::Error(e)),
    }
}

/// Whether the probed entry is a text file.
pub fn is_text_file(p: &FileProbe) -> (r: bool)
    ensures
        r == spec_is_text_file(*p),
{
    p.is_file && match &p.mime {
        Some(m) => is_text_mime(m.as_slice()),
        None => false,
    }
}

/// The entry to send on for one result of the walk: a text file is accepted,
/// a failure is passed on, anything else is dropped.
pub fn collect_if_text_file(item: Result<FileProbe, Vec<u8>>) -> (r: Option<ScanEntry>)
    ensures
        r == spec_collected_entry(item),
{
    match item {
        Ok(p) => {
            if is_text_file(&p) {
                Some(ScanEntry::Accepted(p.path))
            } else {
                None
            }
        },
        Err(e) => Some(ScanEntry::Error(e)),
    }
}

} // verus!
