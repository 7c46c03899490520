use vstd::prelude::*;

use crate::errors::PsfError;
use crate::reader::be_u32_at;

verus! {

/// One of the five sections a PSF file may carry, in the order of their
/// directory kind codes 0 through 4.
#[derive(Debug, Clone, Copy, PartialEq, Eq, Hash, Structural)]
pub enum SectionKind {
    Header,
    Type,
    Sweep,
    Trace,
    Value,
}

/// The section kind a directory kind code stands for, if any.
pub open spec fn spec_section_kind(value: u32) -> Option<SectionKind> {
    if value == 0 {
        Some(SectionKind::Header)
    } else if value == 1 {
        Some(SectionKind::Type)
    } else if value == 2 {
        Some(SectionKind::Sweep)
    } else if value == 3 {
        Some(SectionKind::Trace)
    } else if value == 4 {
        Some(SectionKind::Value)
    } else {
        None
    }
}

impl SectionKind {
    /// The directory kind code this section is written as.
    pub fn code(self) -> (r: u32)
        ensures
            r == section_code(self),
    {
        match self {
            SectionKind::Header => 0,
            SectionKind::Type => 1,
            SectionKind::Sweep => 2,
            SectionKind::Trace => 3,
            SectionKind::Value => 4,
        }
    }

    /// Decodes a directory kind code; codes outside 0..=4 are a decode
    /// failure, never a panic.
    pub fn from_int(value: u32) -> (r: Result<SectionKind, PsfError>)
        ensures
            r == match spec_section_kind(value) {
                Some(k) => Ok::<SectionKind, PsfError>(k),
                None => Err::<SectionKind, PsfError>((PsfError::UnknownSectionKind { got: value })),
            },
    {
        match value {
            0 => Ok(SectionKind::Header),
            1 => Ok(SectionKind::Type),
            2 => Ok(SectionKind::Sweep),
            3 => Ok(SectionKind::Trace),
            4 => Ok(SectionKind::Value),
            _ => Err(PsfError::UnknownSectionKind { got: value }),
        }
    }
}

/// The byte range `[start, end)` of one section.
#[derive(Debug, Clone, Copy, PartialEq, Eq, Structural)]
pub struct TocEntry {
    pub start: usize,
    /// Not inclusive.
    pub end: usize,
}

/// The last entry for `kind` in the directory, under the rule that a later
/// directory entry for the same kind replaces an earlier one.
pub open spec fn spec_toc_lookup(entries: Seq<(SectionKind, TocEntry)>, kind: SectionKind) -> Option<
    TocEntry,
>
    decreases entries.len(),
{
    if entries.len() == 0 {
        None
    } else if entries.last().0 == kind {
        Some(entries.last().1)
    } else {
        spec_toc_lookup(entries.drop_last(), kind)
    }
}

/// The table of contents: each section kind the trailing directory lists,
/// with its byte range, in directory order.
#[derive(Debug, Clone)]
pub struct Toc {
    pub entries: Vec<(SectionKind, TocEntry)>,
}

impl Toc {
    /// An empty table of contents.
    pub fn new() -> (r: Toc)
        ensures
            r.entries@ == Seq::<(SectionKind, TocEntry)>::empty(),
    {
        Toc { entries: Vec::new() }
    }

    /// An empty table of contents with room reserved for `capacity` entries.
    pub fn with_capacity(capacity: usize) -> (r: Toc)
        ensures
            r.entries@ == Seq::<(SectionKind, TocEntry)>::empty(),
    {
        Toc { entries: Vec::with_capacity(capacity) }
    }

    /// The byte range of `section`; a kind the directory does not list is a
    /// decode failure, never a panic.
    pub fn section(&self, section: SectionKind) -> (r: Result<TocEntry, PsfError>)
        ensures
            r == match spec_toc_lookup(self.entries@, section) {
                Some(e) => Ok::<TocEntry, PsfError>(e),
                None => Err::<TocEntry, PsfError>(
                    (PsfError::MissingSection { got: section_code(section) }),
                ),
            },
    {
        let n = self.entries.len();
        proof {
            assert(self.entries@.take(n as int) =~= self.entries@);
        }
        let mut i: usize = n;
        while i > 0
            invariant
                i <= n,
                n == self.entries@.len(),
                spec_toc_lookup(self.entries@, section) == spec_toc_lookup(
                    self.entries@.take(i as int),
                    section,
                ),
            decreases i,
        {
            i = i - 1;
            proof {
                assert(self.entries@.take(i + 1).drop_last() =~= self.entries@.take(i as int));
                assert(self.entries@.take(i + 1).last() == self.entries@[i as int]);
            }
            if self.entries[i].0 == section {
                return Ok(self.entries[i].1);
            }
        }
        proof {
            assert(self.entries@.take(0) =~= Seq::<(SectionKind, TocEntry)>::empty());
        }
        Err(PsfError::MissingSection { got: section.code() })
    }
}

/// The directory kind code of a section, the inverse of [`spec_section_kind`].
pub open spec fn section_code(kind: SectionKind) -> u32 {
    match kind {
        SectionKind::Header => 0,
        SectionKind::Type => 1,
        SectionKind::Sweep => 2,
        SectionKind::Trace => 3,
        SectionKind::Value => 4,
    }
}

/// The payload size the last four bytes of the buffer declare.
pub open spec fn spec_footer_ds(s: Seq<u8>) -> int {
    be_u32_at(s, s.len() - 4) as int
}

/// How many eight-byte entries the trailing directory holds.
pub open spec fn spec_toc_count(s: Seq<u8>) -> int {
    (s.len() - spec_footer_ds(s) - 12) / 8
}

/// The offset of the first directory entry.
pub open spec fn spec_toc_offset(s: Seq<u8>) -> int {
    s.len() - 12 - 8 * spec_toc_count(s)
}

/// Whether the buffer is long enough to hold the footer and the directory it
/// declares.
pub open spec fn toc_in_bounds(s: Seq<u8>) -> bool {
    s.len() >= 4 && spec_footer_ds(s) + 12 <= s.len()
}

/// What a successfully scanned table of contents holds: entry `i` is the
/// `i`-th directory record, its range runs from its own start offset to the
/// next entry's start offset, and the last entry's range runs to the end of
/// the buffer.
pub open spec fn toc_matches(s: Seq<u8>, entries: Seq<(SectionKind, TocEntry)>) -> bool {
    let n = spec_toc_count(s);
    let ofs = spec_toc_offset(s);
    &&& entries.len() == n
    &&& forall|i: int|
        0 <= i < n ==> spec_section_kind(be_u32_at(s, ofs + 8 * i)) == Some(#[trigger] entries[i].0)
    &&& forall|i: int|
        0 <= i < n ==> (#[trigger] entries[i].1).start == be_u32_at(s, ofs + 8 * i + 4) as int
    &&& forall|i: int|
        0 <= i < n - 1 ==> (#[trigger] entries[i].1).end == be_u32_at(s, ofs + 8 * (i + 1) + 4) as int
    &&& n > 0 ==> entries[n - 1].1.end == s.len()
}

/// Scans the trailing directory: the final four bytes hold the payload size
/// `ds`, the `(len - ds - 12) / 8` eight-byte `(kind, start)` records before
/// them form the directory, and each section's range ends where the next
/// listed section starts (the last one at the end of the buffer). A buffer
/// too short for its own footer is out of bounds; a kind code outside 0..=4
/// is an unknown section kind.
pub fn parse_toc(data: &[u8]) -> (r: Result<Toc, PsfError>)
    ensures
        match r {
            Ok(toc) => spec_parse_toc(data@) == Ok::<Seq<(SectionKind, TocEntry)>, PsfError>(
                toc.entries@,
            ) && toc_matches(data@, toc.entries@),
            Err(e) => spec_parse_toc(data@) == Err::<Seq<(SectionKind, TocEntry)>, PsfError>(e),
        },
{
    let dlen = data.len();
    if dlen < 4 {
        return Err(PsfError::OutOfBounds { at: 0, want: 4 });
    }
    let ds32 = crate::reader::word_at(data, dlen - 4);
    let ds = ds32 as usize;
    if ds > dlen || dlen - ds < 12 {
        return Err(PsfError::OutOfBounds { at: dlen, want: 12 });
    }
    let n = (dlen - ds - 12) / 8;
    let toc_ofs = dlen - 12 - 8 * n;
    proof {
        assert(n == spec_toc_count(data@));
        assert(toc_ofs == spec_toc_offset(data@));
        assert(toc_ofs + 8 * n + 12 == dlen);
    }
    let mut toc = Toc::with_capacity(n);
    let mut i: usize = 0;
    while i < n
        invariant
            i <= n,
            n == spec_toc_count(data@),
            toc_ofs == spec_toc_offset(data@),
            dlen == data@.len(),
            toc_ofs + 8 * n + 12 == dlen,
            toc_in_bounds(data@),
            toc.entries@.len() == i,
            forall|j: int|
                0 <= j < i ==> spec_section_kind(be_u32_at(data@, toc_ofs + 8 * j)) == Some(
                    #[trigger] toc.entries@[j].0,
                ),
            forall|j: int|
                0 <= j < i ==> (#[trigger] toc.entries@[j].1).start == be_u32_at(
                    data@,
                    toc_ofs + 8 * j + 4,
                ) as int,
            forall|j: int|
                0 <= j < i - 1 ==> (#[trigger] toc.entries@[j].1).end == be_u32_at(
                    data@,
                    toc_ofs + 8 * (j + 1) + 4,
                ) as int,
            i > 0 ==> toc.entries@[i - 1].1.end == data@.len(),
            forall|j: int|
                0 <= j < i ==> spec_section_kind(
                    #[trigger] be_u32_at(data@, spec_toc_offset(data@) + 8 * j),
                ) is Some,
        decreases n - i,
    {
        proof {
            assert(8 * i + 8 <= 8 * n);
        }
        let kind_code = crate::reader::word_at(data, toc_ofs + 8 * i);
        let kind = match SectionKind::from_int(kind_code) {
            Ok(k) => k,
            Err(e) => {
                proof {
                    lemma_first_bad_kind(data@, 0, i as int);
                }
                return Err(e);
            },
        };
        let ofs32 = crate::reader::word_at(data, toc_ofs + 8 * i + 4);
        let ofs = ofs32 as usize;
        if i > 0 {
            let last = toc.entries.len() - 1;
            let prev = toc.entries[last];
            toc.entries[last] = (prev.0, TocEntry { start: prev.1.start, end: ofs });
        }
        toc.entries.push((kind, TocEntry { start: ofs, end: dlen }));
        i = i + 1;
    }
    proof {
        lemma_first_bad_kind(data@, 0, n as int);
        assert forall|j: int| 0 <= j < n implies toc.entries@[j] == spec_toc_entries(data@)[j] by {
            assert(spec_section_kind(be_u32_at(data@, spec_toc_offset(data@) + 8 * j)) == Some(
                toc.entries@[j].0,
            ));
            assert((toc.entries@[j].1).start == be_u32_at(
                data@,
                spec_toc_offset(data@) + 8 * j + 4,
            ) as int);
            if j < n - 1 {
                assert((toc.entries@[j].1).end == be_u32_at(
                    data@,
                    spec_toc_offset(data@) + 8 * (j + 1) + 4,
                ) as int);
            }
        }
        assert(toc.entries@ =~= spec_toc_entries(data@));
    }
    Ok(toc)
}


/// The directory scanned functionally: entry `i`'s kind and start come from
/// the `i`-th directory record, and its end is the next record's start, or
/// the buffer's end for the last record.
pub open spec fn spec_toc_entries(s: Seq<u8>) -> Seq<(SectionKind, TocEntry)> {
    Seq::new(
        spec_toc_count(s) as nat,
        |i: int|
            (
                spec_section_kind(be_u32_at(s, spec_toc_offset(s) + 8 * i)).unwrap(),
                TocEntry {
                    start: be_u32_at(s, spec_toc_offset(s) + 8 * i + 4) as usize,
                    end: if i == spec_toc_count(s) - 1 {
                        s.len() as usize
                    } else {
                        be_u32_at(s, spec_toc_offset(s) + 8 * (i + 1) + 4) as usize
                    },
                },
            ),
    )
}

/// The index of the first directory record at or after `k` whose kind code is
/// invalid, or the record count when every kind from `k` on is valid.
pub open spec fn spec_first_bad_kind(s: Seq<u8>, k: int) -> int
    decreases spec_toc_count(s) - k,
{
    if k < 0 || k >= spec_toc_count(s) {
        spec_toc_count(s)
    } else if spec_section_kind(be_u32_at(s, spec_toc_offset(s) + 8 * k)) is None {
        k
    } else {
        spec_first_bad_kind(s, k + 1)
    }
}

/// Locates the first invalid kind from the records scanned so far.
pub proof fn lemma_first_bad_kind(s: Seq<u8>, k: int, i: int)
    requires
        0 <= k <= i <= spec_toc_count(s),
        forall|j: int|
            k <= j < i ==> spec_section_kind(
                #[trigger] be_u32_at(s, spec_toc_offset(s) + 8 * j),
            ) is Some,
        i == spec_toc_count(s) || spec_section_kind(
            be_u32_at(s, spec_toc_offset(s) + 8 * i),
        ) is None,
    ensures
        spec_first_bad_kind(s, k) == i,
    decreases i - k,
{
    if k < i {
        lemma_first_bad_kind(s, k + 1, i);
    }
}

/// The model of [`parse_toc`]: the footer and directory decoded functionally,
/// failing on a buffer too short for its declared payload or on an invalid
/// kind code.
pub open spec fn spec_parse_toc(s: Seq<u8>) -> Result<Seq<(SectionKind, TocEntry)>, PsfError> {
    if s.len() < 4 {
        Err(PsfError::OutOfBounds { at: 0, want: 4 })
    } else if spec_footer_ds(s) + 12 > s.len() {
        Err(PsfError::OutOfBounds { at: s.len() as usize, want: 12 })
    } else {
        let bad = spec_first_bad_kind(s, 0);
        if bad < spec_toc_count(s) {
            Err(
                PsfError::UnknownSectionKind {
                    got: be_u32_at(s, spec_toc_offset(s) + 8 * bad),
                },
            )
        } else {
            Ok(spec_toc_entries(s))
        }
    }
}

} // verus!
