//! Function boundaries from traceback tables.
//!
//! Each code section is scanned at every 4-byte-aligned offset. A whole
//! traceback table found there marks the end of a function, and the scan
//! resumes right after the table. A function starts where the table before
//! it ends: that end is a boundary as soon as the table is found, whether or
//! not the start of the function before it is known, so a tentative function
//! still corroborates the start of the one after it. The first function of a
//! section has no table before it; it has a start only where a known function
//! begins before its end, and stays tentative otherwise.
//!
//! Known functions are authoritative: a discovered function that overlaps
//! one without coinciding with it is dropped.

use vstd::prelude::*;
use vstd::string::StringExecFns;
use crate::obj::{
    symbol_in_bounds, KnownFunction, ObjInfo, ObjSectionKind, ObjSymbol, ObjSymbolKind,
    SectionAddress,
};
use crate::tbtab::{lemma_decoded_name, sentinel_zero, table_at, TableError, table_name_at, table_size_at, text_of, TracebackTable};
use crate::bytes::fits;

verus! {

/// Where the scan resumes after a table at `off`: right after the table, or at
/// the end of the buffer where the table's padding runs past it.
pub open spec fn resume_at(data: Seq<u8>, off: int) -> int {
    if off + table_size_at(data, off) <= data.len() {
        off + table_size_at(data, off)
    } else {
        data.len() as int
    }
}

/// Offsets, from `off` on, at which the scan finds a table. (A whole table
/// always has a positive size; the test only makes the recursion's progress
/// plain.)
pub open spec fn scan_from(data: Seq<u8>, off: int) -> Seq<int>
    decreases data.len() - off,
{
    if off < 0 || off + 4 > data.len() {
        seq![]
    } else if table_at(data, off) && table_size_at(data, off) > 0 {
        seq![off] + scan_from(data, resume_at(data, off))
    } else {
        scan_from(data, off + 4)
    }
}

/// How many candidates, from `off` on, the scan rejects although their
/// leading word is zero: truncated records.
pub open spec fn rejected_from(data: Seq<u8>, off: int) -> nat
    decreases data.len() - off,
{
    if off < 0 || off + 4 > data.len() {
        0
    } else if table_at(data, off) && table_size_at(data, off) > 0 {
        rejected_from(data, resume_at(data, off))
    } else if sentinel_zero(data, off) {
        1 + rejected_from(data, off + 4)
    } else {
        rejected_from(data, off + 4)
    }
}

/// The scan finds whole tables, from `off` on, each after the place where the
/// scan resumed from the one before.
pub proof fn lemma_scan_ordered(data: Seq<u8>, off: int)
    requires
        0 <= off,
    ensures
        forall|a: int|
            0 <= a < scan_from(data, off).len() ==> {
                &&& off <= scan_from(data, off)[a]
                &&& scan_from(data, off)[a] + 4 <= data.len()
                &&& scan_from(data, off)[a] < resume_at(data, scan_from(data, off)[a])
            },
        forall|a: int, b: int|
            0 <= a < b < scan_from(data, off).len() ==> resume_at(data, scan_from(data, off)[a])
                <= scan_from(data, off)[b],
    decreases data.len() - off,
{
    let s = scan_from(data, off);
    if off + 4 > data.len() {
    } else if table_at(data, off) && table_size_at(data, off) > 0 {
        let next = resume_at(data, off);
        lemma_scan_ordered(data, next);
        let t = scan_from(data, next);
        assert(s == seq![off] + t);
        assert forall|a: int| 0 <= a < s.len() implies {
            &&& off <= s[a]
            &&& s[a] + 4 <= data.len()
            &&& s[a] < resume_at(data, s[a])
        } by {
            if a > 0 {
                assert(s[a] == t[a - 1]);
            }
        }
        assert forall|a: int, b: int| 0 <= a < b < s.len() implies resume_at(data, s[a]) <= s[b] by {
            assert(s[b] == t[b - 1]);
            if a > 0 {
                assert(s[a] == t[a - 1]);
            }
        }
    } else {
        lemma_scan_ordered(data, off + 4);
        assert(s == scan_from(data, off + 4));
    }
}

/// A table that the scan found.
pub struct FoundTable {
    pub offset: usize,
    /// Where the table, padding included, ends; no further than the buffer.
    pub next: usize,
    pub table: TracebackTable,
}

/// The offsets of found tables.
pub open spec fn offsets(found: Seq<FoundTable>) -> Seq<int> {
    found.map_values(|f: FoundTable| f.offset as int)
}

/// Where the scan resumes after a table at `off` with `ext_size` bytes of
/// extension.
fn resume_offset(len: usize, off: usize, ext_size: usize) -> (r: usize)
    requires
        off + 12 + ext_size <= len,
    ensures
        r == (if off + crate::tbtab::round_up4(12 + ext_size) <= len {
            off + crate::tbtab::round_up4(12 + ext_size)
        } else {
            len as int
        }),
{
    let n: usize = 12 + ext_size;
    let pad: usize = (4 - n % 4) % 4;
    assert(crate::tbtab::round_up4(n as int) == n + pad);
    if pad <= len - off - n {
        off + n + pad
    } else {
        len
    }
}

/// Scans a section's bytes for traceback tables, in order of offset; also
/// counts the candidates rejected as truncated records.
pub fn scan_section(data: &[u8]) -> (r: (Vec<FoundTable>, usize))
    ensures
        offsets(r.0@) == scan_from(data@, 0),
        forall|i: int|
            0 <= i < r.0@.len() ==> {
                &&& r.0@[i].next == resume_at(data@, r.0@[i].offset as int)
                &&& r.0@[i].table.decoded_from(data@, r.0@[i].offset as int)
            },
        r.1 == saturated(rejected_from(data@, 0)),
{
    let len: usize = data.len();
    let mut found: Vec<FoundTable> = Vec::new();
    let mut rejected: usize = 0;
    let ghost mut count: nat = 0;
    let mut off: usize = 0;
    assert(offsets(found@) + scan_from(data@, 0) =~= scan_from(data@, 0));
    while fits(len, off, 4)
        invariant
            len == data@.len(),
            off <= len,
            offsets(found@) + scan_from(data@, off as int) == scan_from(data@, 0),
            forall|i: int|
                0 <= i < found@.len() ==> {
                    &&& found@[i].next == resume_at(data@, found@[i].offset as int)
                    &&& found@[i].table.decoded_from(data@, found@[i].offset as int)
                },
            count + rejected_from(data@, off as int) == rejected_from(data@, 0),
            rejected == saturated(count),
        decreases len - off,
    {
        match TracebackTable::decode(data, off) {
            Ok(t) => {
                proof {
                    reveal(TracebackTable::decoded_from);
                }
                let next = resume_offset(len, off, t.ext_size);
                let ghost before = offsets(found@);
                let ghost at = off as int;
                let ghost rest = scan_from(data@, next as int);
                assert(scan_from(data@, off as int) == seq![off as int] + rest);
                assert(rejected_from(data@, off as int) == rejected_from(data@, next as int));
                found.push(FoundTable { offset: off, next, table: t });
                assert(offsets(found@) =~= before.push(off as int));
                off = next;
                assert(offsets(found@) + scan_from(data@, off as int) =~= before + (seq![at] + rest));
            },
            Err(TableError::NotATable) => {
                off = off + 4;
            },
            Err(_) => {
                rejected = bump(rejected);
                proof {
                    count = count + 1;
                }
                off = off + 4;
            },
        }
    }
    assert(scan_from(data@, off as int) =~= Seq::<int>::empty());
    assert(offsets(found@) =~= offsets(found@) + scan_from(data@, off as int));
    (found, rejected)
}

/// Where the heuristic places a function's start and end.
pub struct FunctionRegion {
    /// Where the function's traceback table begins.
    pub end: SectionAddress,
    /// Where the function begins, where corroborated.
    pub start: Option<usize>,
    /// The name that the table gives.
    pub name: Option<String>,
}

impl FunctionRegion {
    /// Both ends are known and the function is not empty.
    pub open spec fn is_confirmed(self) -> bool {
        self.start is Some && self.start->0 < self.end.offset
    }
}

/// The greatest start of a known function in `section` before `end`.
pub open spec fn known_start_before(known: Seq<KnownFunction>, section: usize, end: int) -> Option<
    int,
>
    decreases known.len(),
{
    if known.len() == 0 {
        None
    } else {
        let rest = known_start_before(known.drop_last(), section, end);
        let k = known.last();
        if k.start.section == section && k.start.offset < end && (rest is None || rest->0
            < k.start.offset) {
            Some(k.start.offset as int)
        } else {
            rest
        }
    }
}

fn find_known_start(known: &Vec<KnownFunction>, section: usize, end: usize) -> (r: Option<usize>)
    ensures
        r matches Some(s) ==> known_start_before(known@, section, end as int) == Some(s as int),
        r is None ==> known_start_before(known@, section, end as int) is None,
{
    let mut best: Option<usize> = None;
    let mut j: usize = 0;
    while j < known.len()
        invariant
            j <= known@.len(),
            best matches Some(s) ==> known_start_before(known@.take(j as int), section, end as int)
                == Some(s as int),
            best is None ==> known_start_before(known@.take(j as int), section, end as int) is None,
        decreases known@.len() - j,
    {
        let k = known[j];
        assert(known@.take(j + 1).drop_last() == known@.take(j as int));
        let better = match best {
            Some(b) => b < k.start.offset,
            None => true,
        };
        if k.start.section == section && k.start.offset < end && better {
            best = Some(k.start.offset);
        }
        j = j + 1;
    }
    assert(known@.take(known@.len() as int) == known@);
    best
}

/// Found tables come in order: each ends no later than the next begins.
proof fn lemma_found_ordered(data: Seq<u8>, found: Seq<FoundTable>)
    requires
        offsets(found) == scan_from(data, 0),
        forall|m: int| 0 <= m < found.len() ==> found[m].next == resume_at(data, found[m].offset as int),
    ensures
        forall|a: int| 0 <= a < found.len() ==> found[a].offset < found[a].next,
        forall|a: int| 0 <= a < found.len() ==> found[a].offset + 4 <= data.len(),
        forall|a: int, b: int| 0 <= a < b < found.len() ==> found[a].next <= found[b].offset,
{
    lemma_scan_ordered(data, 0);
    let scan = scan_from(data, 0);
    assert forall|m: int| 0 <= m < found.len() implies found[m].offset == scan[m] by {
        assert(offsets(found)[m] == found[m].offset);
    }
    assert forall|a: int| 0 <= a < found.len() implies found[a].offset < found[a].next
        && found[a].offset + 4 <= data.len() by {
        assert(found[a].offset == scan[a]);
    }
    assert forall|a: int, b: int| 0 <= a < b < found.len() implies found[a].next
        <= found[b].offset by {
        assert(found[a].offset == scan[a]);
        assert(found[b].offset == scan[b]);
    }
}

/// One region for each found table: it ends where the table begins and
/// starts where the table before it ends; the first starts at the greatest
/// known start before it, if any.
fn regions_of(found: &Vec<FoundTable>, section: usize, known: &Vec<KnownFunction>) -> (r: Vec<
    FunctionRegion,
>)
    ensures
        r@.len() == found@.len(),
        forall|m: int|
            0 <= m < r@.len() ==> r@[m].end == (SectionAddress {
                section,
                offset: found@[m].offset,
            }),
        forall|m: int| 0 < m < r@.len() ==> r@[m].start == Some(found@[m - 1].next),
        r@.len() > 0 ==> match known_start_before(known@, section, found@[0].offset as int) {
            Some(s) => r@[0].start == Some(s as usize),
            None => r@[0].start is None,
        },
        forall|m: int| 0 <= m < r@.len() ==> text_of(r@[m].name) == text_of(found@[m].table.name),
{
    let mut regions: Vec<FunctionRegion> = Vec::new();
    let mut i: usize = 0;
    while i < found.len()
        invariant
            i <= found@.len(),
            regions@.len() == i,
            forall|m: int|
                0 <= m < i ==> regions@[m].end == (SectionAddress {
                    section,
                    offset: found@[m].offset,
                }),
            forall|m: int| 0 < m < i ==> regions@[m].start == Some(found@[m - 1].next),
            forall|m: int| 0 <= m < i ==> text_of(regions@[m].name) == text_of(found@[m].table.name),
            i > 0 ==> match known_start_before(known@, section, found@[0].offset as int) {
                Some(s) => regions@[0].start == Some(s as usize),
                None => regions@[0].start is None,
            },
        decreases found@.len() - i,
    {
        let end = found[i].offset;
        let start = if i == 0 {
            find_known_start(known, section, end)
        } else {
            Some(found[i - 1].next)
        };
        let name = match &found[i].table.name {
            Some(n) => Some(n.clone()),
            None => None,
        };
        regions.push(FunctionRegion { end: SectionAddress { section, offset: end }, start, name });
        i = i + 1;
    }
    regions
}

/// The function regions of one code section, in order of address.
///
/// Each table that the scan finds ends one region. A region's start is
/// where the table before it ends, or, for the first, the greatest start of
/// a known function of the section before its end. Regions never overlap:
/// each ends before the next one starts. Also returns how many candidates the
/// scan rejected as truncated records.
#[verifier::rlimit(100)]
pub fn function_regions(data: &[u8], section: usize, known: &Vec<KnownFunction>) -> (r: (Vec<FunctionRegion>, usize))
    ensures
        r.0@.len() == scan_from(data@, 0).len(),
        r.1 == saturated(rejected_from(data@, 0)),
        forall|i: int|
            0 <= i < r.0@.len() ==> r.0@[i].end == (SectionAddress {
                section,
                offset: scan_from(data@, 0)[i] as usize,
            }),
        forall|i: int|
            0 < i < r.0@.len() ==> r.0@[i].start == Some(
                resume_at(data@, scan_from(data@, 0)[i - 1]) as usize,
            ),
        r.0@.len() > 0 ==> match known_start_before(known@, section, scan_from(data@, 0)[0]) {
            Some(s) => r.0@[0].start == Some(s as usize),
            None => r.0@[0].start is None,
        },
        forall|i: int, j: int|
            0 <= i < j < r.0@.len() && r.0@[j].start is Some ==> r.0@[i].end.offset < r.0@[j].start->0,
        forall|i: int| 0 <= i < r.0@.len() ==> r.0@[i].end.offset + 4 <= data@.len(),
        forall|i: int|
            0 <= i < r.0@.len() ==> text_of(r.0@[i].name) == table_name_at(data@, scan_from(data@, 0)[i]),
        forall|i: int, j: int|
            0 <= i < r.0@.len() && 0 <= j < r.0@.len() && i != j && r.0@[i].is_confirmed()
                && r.0@[j].is_confirmed() ==> r.0@[i].end.offset <= r.0@[j].start->0 || r.0@[j].end.offset
                <= r.0@[i].start->0,
{
    let (found, rejected) = scan_section(data);
    let ghost scan = scan_from(data@, 0);
    proof {
        lemma_found_ordered(data@, found@);
        assert forall|m: int| 0 <= m < found@.len() implies found@[m].offset == scan[m] by {
            assert(offsets(found@)[m] == found@[m].offset);
        }
    }
    let regions = regions_of(&found, section, known);
    assert forall|m: int| 0 <= m < regions@.len() implies text_of(regions@[m].name) == table_name_at(data@, scan[m]) by {
        lemma_decoded_name(found@[m].table, data@, found@[m].offset as int);
    }
    assert forall|a: int, b: int|
        0 <= a < b < regions@.len() && regions@[b].start is Some implies regions@[a].end.offset
        < regions@[b].start->0 by {
        if a < b - 1 {
            assert(found@[a].next <= found@[b - 1].offset);
        }
    }
    (regions, rejected)
}

/// Upper-case hexadecimal digit of `d`.
pub open spec fn hex_digit(d: nat) -> char {
    seq!['0', '1', '2', '3', '4', '5', '6', '7', '8', '9', 'A', 'B', 'C', 'D', 'E', 'F'][d as int]
}

/// Upper-case hexadecimal digits of `v`, without leading zeros.
pub open spec fn hex_digits(v: nat) -> Seq<char>
    decreases v,
{
    if v < 16 {
        seq![hex_digit(v)]
    } else {
        hex_digits(v / 16).push(hex_digit(v % 16))
    }
}

/// The upper-case hexadecimal digits of `address`, padded on the left with
/// zeros to 8.
pub open spec fn padded_hex(address: u64) -> Seq<char> {
    let digits = hex_digits(address as nat);
    let pad = if digits.len() < 8 { 8 - digits.len() } else { 0int };
    Seq::new(pad as nat, |i: int| '0') + digits
}

/// The name given to a function whose table names none: `fn_` and the
/// address in upper-case hexadecimal, padded with zeros to 8 digits.
pub open spec fn placeholder_name(address: u64) -> Seq<char> {
    seq!['f', 'n', '_'] + padded_hex(address)
}

/// Relies on `format!` with `{:08X}`: upper-case hexadecimal digits without
/// leading zeros, padded on the left with zeros to at least 8.
#[verifier::external_body]
fn format_padded_hex(address: u64) -> (r: String)
    ensures
        r@ == padded_hex(address),
{
    format!("{:08X}", address)
}

fn format_placeholder_name(address: u64) -> (r: String)
    ensures
        r@ == placeholder_name(address),
{
    let digits = format_padded_hex(address);
    proof {
        reveal_strlit("fn_");
    }
    let name = String::from_str("fn_").concat(digits.as_str());
    assert(name@ =~= placeholder_name(address));
    name
}

/// A discovered function `[start, end)` of `section` overlaps the known
/// function `k` without coinciding with it.
pub open spec fn conflicts(section: usize, start: int, end: int, k: KnownFunction) -> bool {
    &&& k.start.section == section
    &&& start < k.start.offset + k.size
    &&& k.start.offset < end
    &&& !(start == k.start.offset && end == k.start.offset + k.size)
}

/// Whether `[start, end)` of `section` conflicts with some known function.
fn conflicts_with_known(known: &Vec<KnownFunction>, section: usize, start: usize, end: usize) -> (r:
    bool)
    requires
        start < end,
    ensures
        r == exists|j: int| 0 <= j < known@.len() && conflicts(section, start as int, end as int, known@[j]),
{
    let mut j: usize = 0;
    while j < known.len()
        invariant
            j <= known@.len(),
            start < end,
            forall|m: int| 0 <= m < j ==> !conflicts(section, start as int, end as int, known@[m]),
        decreases known@.len() - j,
    {
        let k = known[j];
        let ko = k.start.offset;
        // start < ko + size and ko < end, without forming ko + size
        let overlaps = k.start.section == section && (start < ko || start - ko < k.size) && ko < end;
        let same = start == ko && k.size == end - start;
        if overlaps && !same {
            assert(conflicts(section, start as int, end as int, known@[j as int]));
            return true;
        }
        j = j + 1;
    }
    false
}

/// What one detection pass found.
#[derive(Debug, Clone, Copy, PartialEq, Eq, Structural)]
pub struct DetectionReport {
    /// Functions with both ends known, entered as symbols.
    pub confirmed: usize,
    /// Functions whose end is known but whose start is not.
    pub tentative: usize,
    /// Confirmed functions dropped because they conflict with a known function.
    pub discarded: usize,
    /// Candidates with a zero leading word rejected as truncated records.
    pub rejected: usize,
}

/// How many candidates the scans of the first `n` sections reject; only code
/// sections are scanned.
pub open spec fn rejected_total(sections: Seq<crate::obj::ObjSection>, n: int) -> nat
    decreases n,
{
    if n <= 0 {
        0
    } else if sections[n - 1].kind == ObjSectionKind::Code {
        rejected_total(sections, n - 1) + rejected_from(sections[n - 1].data@, 0)
    } else {
        rejected_total(sections, n - 1)
    }
}

/// Some known function conflicts with `[start, end)` of `section`.
pub open spec fn conflicts_any(known: Seq<KnownFunction>, section: usize, start: int, end: int) -> bool {
    exists|j: int| 0 <= j < known.len() && conflicts(section, start, end, known[j])
}

/// Where region `m` of the section with bytes `data` starts, where corroborated.
pub open spec fn region_start(data: Seq<u8>, section: usize, known: Seq<KnownFunction>, m: int) -> Option<
    usize,
> {
    if m == 0 {
        match known_start_before(known, section, scan_from(data, 0)[0]) {
            Some(s) => Some(s as usize),
            None => None,
        }
    } else {
        Some(resume_at(data, scan_from(data, 0)[m - 1]) as usize)
    }
}

/// A discovered function: section, offset of its start, size, and the name
/// that its table gives.
pub type Discovery = (usize, int, int, Option<Seq<char>>);

/// What the first `m` regions of a section give: the functions to enter as
/// symbols, and how many regions stay tentative or are dropped.
pub open spec fn section_outcome(
    data: Seq<u8>,
    section: usize,
    known: Seq<KnownFunction>,
    m: int,
) -> (Seq<Discovery>, nat, nat)
    decreases m,
{
    if m <= 0 {
        (seq![], 0, 0)
    } else {
        let (found, tentative, discarded) = section_outcome(data, section, known, m - 1);
        let end = scan_from(data, 0)[m - 1];
        match region_start(data, section, known, m - 1) {
            Some(start) if (start as int) < end => if conflicts_any(known, section, start as int, end) {
                (found, tentative, discarded + 1)
            } else {
                (
                    found.push((section, start as int, end - start, table_name_at(data, end))),
                    tentative,
                    discarded,
                )
            },
            _ => (found, tentative + 1, discarded),
        }
    }
}

/// What the first `n` sections give; only code sections are scanned.
pub open spec fn detection_outcome(sections: Seq<crate::obj::ObjSection>, known: Seq<KnownFunction>, n: int) -> (
    Seq<Discovery>,
    nat,
    nat,
)
    decreases n,
{
    if n <= 0 {
        (seq![], 0, 0)
    } else {
        let (found, tentative, discarded) = detection_outcome(sections, known, n - 1);
        if sections[n - 1].kind == ObjSectionKind::Code {
            let data = sections[n - 1].data@;
            let (f, t, d) = section_outcome(data, (n - 1) as usize, known, scan_from(data, 0).len() as int);
            (found + f, tentative + t, discarded + d)
        } else {
            (found, tentative, discarded)
        }
    }
}

proof fn lemma_section_respects_known(
    data: Seq<u8>,
    section: usize,
    known: Seq<KnownFunction>,
    m: int,
)
    ensures
        forall|j: int|
            0 <= j < section_outcome(data, section, known, m).0.len() ==> {
                let f = #[trigger] section_outcome(data, section, known, m).0[j];
                f.0 == section && !conflicts_any(known, f.0, f.1, f.1 + f.2)
            },
    decreases m,
{
    if m > 0 {
        lemma_section_respects_known(data, section, known, m - 1);
        let prev = section_outcome(data, section, known, m - 1).0;
        let cur = section_outcome(data, section, known, m).0;
        assert(cur == prev || (prev.len() < cur.len() && cur == prev.push(cur.last())
            && cur.last().0 == section && !conflicts_any(known, section, cur.last().1, cur.last().1
            + cur.last().2)));
        assert forall|j: int| 0 <= j < cur.len() implies {
            let f = #[trigger] cur[j];
            f.0 == section && !conflicts_any(known, f.0, f.1, f.1 + f.2)
        } by {
            if j < prev.len() {
                assert(cur[j] == prev[j]);
            }
        }
    }
}

/// Known functions are authoritative: whatever the sections hold, no
/// function that detection enters overlaps a known function of its section
/// without coinciding with it, so no known function is cut short, extended
/// or displaced by a discovery.
pub proof fn discoveries_respect_known(
    sections: Seq<crate::obj::ObjSection>,
    known: Seq<KnownFunction>,
    n: int,
)
    ensures
        forall|j: int|
            0 <= j < detection_outcome(sections, known, n).0.len() ==> {
                let f = #[trigger] detection_outcome(sections, known, n).0[j];
                forall|q: int| 0 <= q < known.len() ==> !conflicts(f.0, f.1, f.1 + f.2, #[trigger] known[q])
            },
    decreases n,
{
    if n > 0 {
        discoveries_respect_known(sections, known, n - 1);
        if sections[n - 1].kind == ObjSectionKind::Code {
            let data = sections[n - 1].data@;
            let m = scan_from(data, 0).len() as int;
            lemma_section_respects_known(data, (n - 1) as usize, known, m);
            let prev = detection_outcome(sections, known, n - 1).0;
            let here = section_outcome(data, (n - 1) as usize, known, m).0;
            assert forall|j: int| 0 <= j < detection_outcome(sections, known, n).0.len() implies {
                let f = #[trigger] detection_outcome(sections, known, n).0[j];
                forall|q: int| 0 <= q < known.len() ==> !conflicts(f.0, f.1, f.1 + f.2, #[trigger] known[q])
            } by {
                if j < prev.len() {
                    assert(detection_outcome(sections, known, n).0[j] == prev[j]);
                } else {
                    assert(detection_outcome(sections, known, n).0[j] == here[j - prev.len()]);
                }
            }
        } else {
            assert(detection_outcome(sections, known, n) == detection_outcome(sections, known, n - 1));
        }
    }
}

/// `n`, or the largest `usize` where `n` is larger.
pub open spec fn saturated(n: nat) -> int {
    if n > usize::MAX { usize::MAX as int } else { n as int }
}

/// The symbol enters the discovered function `f` of one of `sections`.
pub open spec fn symbol_of(sections: Seq<crate::obj::ObjSection>, f: Discovery, sym: ObjSymbol) -> bool {
    &&& sym.kind == ObjSymbolKind::Function
    &&& sym.size_known
    &&& !sym.auto_generated
    &&& sym.section == Some(f.0)
    &&& sym.address == sections[f.0 as int].address + f.1
    &&& sym.size == f.2
    &&& sym.name@ == match f.3 {
        Some(n) => n,
        None => placeholder_name(sym.address),
    }
}

fn add_saturating(a: usize, b: usize) -> (r: usize)
    ensures
        r == (if a + b > usize::MAX { usize::MAX as int } else { a + b }),
{
    if a > usize::MAX - b {
        usize::MAX
    } else {
        a + b
    }
}

fn bump(n: usize) -> (r: usize)
    ensures
        r == saturated(n as nat + 1),
{
    if n < usize::MAX {
        n + 1
    } else {
        n
    }
}

/// Enters the region that ends at `end` of code section `i` and starts at
/// `start`, if known: as a symbol where it is confirmed and conflicts with no
/// known function, or else by counting it as tentative or discarded.
fn enter_region(
    obj: &mut ObjInfo,
    i: usize,
    start: Option<usize>,
    end: usize,
    name: &Option<String>,
    known: &Vec<KnownFunction>,
    tentative: &mut usize,
    discarded: &mut usize,
)
    requires
        old(obj).wf(),
        i < old(obj).sections@.len(),
        end <= old(obj).sections@[i as int].data@.len(),
    ensures
        final(obj).wf(),
        final(obj).sections@ == old(obj).sections@,
        final(obj).known_functions@ == old(obj).known_functions@,
        final(obj).name@ == old(obj).name@,
        final(obj).entry == old(obj).entry,
        ({
            let confirmed = start is Some && start->0 < end;
            let conflict = confirmed && conflicts_any(known@, i, start->0 as int, end as int);
            &&& confirmed && !conflict ==> {
                &&& final(obj).symbols@.len() == old(obj).symbols@.len() + 1
                &&& final(obj).symbols@.drop_last() == old(obj).symbols@
                &&& symbol_of(
                    old(obj).sections@,
                    (i, start->0 as int, end - start->0, text_of(*name)),
                    final(obj).symbols@.last(),
                )
            }
            &&& !(confirmed && !conflict) ==> final(obj).symbols@ == old(obj).symbols@
            &&& *final(tentative) == if confirmed {
                *old(tentative) as int
            } else {
                saturated(*old(tentative) as nat + 1)
            }
            &&& *final(discarded) == if conflict {
                saturated(*old(discarded) as nat + 1)
            } else {
                *old(discarded) as int
            }
        }),
{
    let s = match start {
        Some(s) => s,
        None => {
            *tentative = bump(*tentative);
            return;
        },
    };
    if s >= end {
        *tentative = bump(*tentative);
        return;
    }
    if conflicts_with_known(known, i, s, end) {
        *discarded = bump(*discarded);
        return;
    }
    let address = obj.sections[i].address + s as u64;
    let name = match name {
        Some(n) => n.clone(),
        None => format_placeholder_name(address),
    };
    let symbol = ObjSymbol {
        name,
        address,
        section: Some(i),
        size: (end - s) as u64,
        size_known: true,
        kind: ObjSymbolKind::Function,
        auto_generated: false,
    };
    let ghost before = obj.symbols@;
    obj.add_symbol(symbol);
    assert(obj.symbols@.drop_last() =~= before);
}

/// Finds the functions of every code section of `obj` and enters each
/// confirmed one that conflicts with no known function as a function symbol,
/// in order of section and address. The known functions, the sections and
/// the symbols already there are left as they are.
pub fn detect_functions(obj: &mut ObjInfo, known: &Vec<KnownFunction>) -> (report: DetectionReport)
    requires
        old(obj).wf(),
    ensures
        final(obj).wf(),
        final(obj).sections@ == old(obj).sections@,
        final(obj).known_functions@ == old(obj).known_functions@,
        final(obj).name@ == old(obj).name@,
        final(obj).entry == old(obj).entry,
        ({
            let (found, tentative, discarded) = detection_outcome(
                old(obj).sections@,
                known@,
                old(obj).sections@.len() as int,
            );
            &&& final(obj).symbols@.len() == old(obj).symbols@.len() + found.len()
            &&& final(obj).symbols@.take(old(obj).symbols@.len() as int) == old(obj).symbols@
            &&& forall|j: int|
                0 <= j < found.len() ==> symbol_of(
                    old(obj).sections@,
                    found[j],
                    final(obj).symbols@[old(obj).symbols@.len() + j],
                )
            &&& report.confirmed == found.len()
            &&& report.tentative == saturated(tentative)
            &&& report.discarded == saturated(discarded)
        }),
        report.rejected == saturated(rejected_total(old(obj).sections@, old(obj).sections@.len() as int)),
{
    let ghost old_symbols = obj.symbols@;
    let ghost sections = obj.sections@;
    let old_len: usize = obj.symbols.len();
    let mut tentative: usize = 0;
    let mut discarded: usize = 0;
    let mut rejected: usize = 0;
    let mut i: usize = 0;
    while i < obj.sections.len()
        invariant
            obj.wf(),
            obj.sections@ == sections,
            sections == old(obj).sections@,
            obj.known_functions@ == old(obj).known_functions@,
            obj.name@ == old(obj).name@,
            obj.entry == old(obj).entry,
            old_symbols == old(obj).symbols@,
            old_len == old_symbols.len(),
            i <= sections.len(),
            rejected == saturated(rejected_total(sections, i as int)),
            ({
                let (found, t, d) = detection_outcome(sections, known@, i as int);
                &&& obj.symbols@.len() == old_symbols.len() + found.len()
                &&& obj.symbols@.take(old_symbols.len() as int) == old_symbols
                &&& forall|j: int|
                    0 <= j < found.len() ==> symbol_of(sections, found[j], obj.symbols@[old_symbols.len() + j])
                &&& tentative == saturated(t)
                &&& discarded == saturated(d)
            }),
        decreases sections.len() - i,
    {
        let ghost (found0, t0, d0) = detection_outcome(sections, known@, i as int);
        if obj.sections[i].kind == ObjSectionKind::Code {
            let (regions, section_rejected) = function_regions(&obj.sections[i].data, i, known);
            rejected = add_saturating(rejected, section_rejected);
            let base = obj.sections[i].address;
            let ghost sec = sections[i as int];
            let ghost data = sec.data@;
            let data_len: usize = obj.sections[i].data.len();
            proof {
                lemma_scan_ordered(data, 0);
            }
            let mut k: usize = 0;
            while k < regions.len()
                invariant
                    obj.wf(),
                    i < sections.len(),
                    obj.sections@ == sections,
                    sec == sections[i as int],
                    data == sec.data@,
                    sec.kind == ObjSectionKind::Code,
                    base == sec.address,
                    regions@.len() == scan_from(data, 0).len(),
                    data.len() == data_len,
                    forall|m: int|
                        0 <= m < scan_from(data, 0).len() ==> 0 <= scan_from(data, 0)[m] && scan_from(data, 0)[m] + 4 <= data.len(),
                    forall|m: int|
                        0 <= m < regions@.len() ==> regions@[m].end == (SectionAddress {
                            section: i,
                            offset: scan_from(data, 0)[m] as usize,
                        }),
                    forall|m: int|
                        0 <= m < regions@.len() ==> regions@[m].start == region_start(data, i, known@, m),
                    forall|m: int| 0 <= m < regions@.len() ==> regions@[m].end.offset <= sec.data@.len(),
                    forall|m: int|
                        0 <= m < regions@.len() ==> text_of(regions@[m].name) == table_name_at(data, scan_from(data, 0)[m]),
                    obj.known_functions@ == old(obj).known_functions@,
                    obj.name@ == old(obj).name@,
                    obj.entry == old(obj).entry,
                    old_symbols == old(obj).symbols@,
                    old_len == old_symbols.len(),
                    k <= regions@.len(),
                    (found0, t0, d0) == detection_outcome(sections, known@, i as int),
                    ({
                        let (f, t, d) = section_outcome(data, i, known@, k as int);
                        &&& obj.symbols@.len() == old_symbols.len() + found0.len() + f.len()
                        &&& obj.symbols@.take(old_symbols.len() as int) == old_symbols
                        &&& forall|j: int|
                            0 <= j < found0.len() + f.len() ==> symbol_of(
                                sections,
                                (found0 + f)[j],
                                obj.symbols@[old_symbols.len() + j],
                            )
                        &&& tentative == saturated(t0 + t)
                        &&& discarded == saturated(d0 + d)
                    }),
                decreases regions@.len() - k,
            {
                let ghost (f, t, d) = section_outcome(data, i, known@, k as int);
                let region = &regions[k];
                let ghost before = obj.symbols@;
                enter_region(obj, i, region.start, region.end.offset, &region.name, known, &mut tentative, &mut discarded);
                proof {
                    let end = scan_from(data, 0)[k as int];
                    let st = region_start(data, i, known@, k as int);
                    assert(region.end.offset as int == end);
                    assert(region.start == st);
                    let confirmed = st is Some && (st->0 as int) < end;
                    let conflict = confirmed && conflicts_any(known@, i, st->0 as int, end);
                    if confirmed && !conflict {
                        let f2 = f.push((i, st->0 as int, end - st->0, table_name_at(data, end)));
                        assert(section_outcome(data, i, known@, k + 1) == (f2, t, d));
                        assert(obj.symbols@.take(old_symbols.len() as int) =~= before.take(
                            old_symbols.len() as int,
                        ));
                        assert(found0 + f2 =~= (found0 + f).push((i, st->0 as int, end - st->0, table_name_at(data, end))));
                        assert forall|j: int| 0 <= j < found0.len() + f2.len() implies symbol_of(
                            sections,
                            (found0 + f2)[j],
                            obj.symbols@[old_symbols.len() + j],
                        ) by {
                            if j < found0.len() + f.len() {
                                assert(obj.symbols@[old_symbols.len() + j] == obj.symbols@.drop_last()[old_symbols.len() + j]);
                                assert((found0 + f2)[j] == (found0 + f)[j]);
                            }
                        }
                    } else if conflict {
                        assert(section_outcome(data, i, known@, k + 1) == (f, t, d + 1));
                        assert(saturated(saturated(d0 + d) as nat + 1) == saturated(d0 + d + 1));
                    } else {
                        assert(section_outcome(data, i, known@, k + 1) == (f, t + 1, d));
                        assert(saturated(saturated(t0 + t) as nat + 1) == saturated(t0 + t + 1));
                    }
                }
                k = k + 1;
            }
        }
        i = i + 1;
    }
    let confirmed = obj.symbols.len() - old_len;
    DetectionReport { confirmed, tentative, discarded, rejected }
}

} // verus!
