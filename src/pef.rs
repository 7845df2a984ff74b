//! Decoding of Preferred Executable Format containers into the object model.
//!
//! A container starts with a 40-byte header: the tags `Joy!` and `peff`, the
//! architecture `pwpc`, and, at byte 32, the big-endian section count. A
//! 28-byte header per section follows, then the table of section names.
//! Each section header holds, big-endian: the name's offset in the name
//! table (`-1` where there is none), the default address, the total,
//! unpacked and packed sizes, the offset of the section's bytes in the
//! container, and the section kind.

use vstd::prelude::*;
use vstd::slice::{slice_subrange, slice_to_vec};
use crate::bytes::{be_i32, be_u16, be_u32, read_i32_be, read_u16_be, read_u32_be};
use crate::obj::{ObjArchitecture, ObjInfo, ObjKind, ObjSection, ObjSectionKind};
use crate::tbtab::{utf8_string, utf8_text};

verus! {

/// Why a container cannot be decoded.
#[derive(Debug, Clone, Copy, PartialEq, Eq, Structural)]
pub enum PefError {
    /// A bad signature, or a table, name or section that runs past the end.
    FormatError,
    /// A section of a kind that has no counterpart in the object model.
    UnsupportedSectionKind(u8),
}

/// Size of the container header.
pub const CONTAINER_HEADER_SIZE: usize = 40;

/// Size of one section header.
pub const SECTION_HEADER_SIZE: usize = 28;

/// The container starts with `Joy!peffpwpc` and holds its whole header.
pub open spec fn signature_ok(b: Seq<u8>) -> bool {
    &&& b.len() >= 40
    &&& b[0] == 0x4a && b[1] == 0x6f && b[2] == 0x79 && b[3] == 0x21
    &&& b[4] == 0x70 && b[5] == 0x65 && b[6] == 0x66 && b[7] == 0x66
    &&& b[8] == 0x70 && b[9] == 0x77 && b[10] == 0x70 && b[11] == 0x63
}

pub open spec fn section_count(b: Seq<u8>) -> int {
    be_u16(b, 32)
}

/// Where the header of section `i` stands.
pub open spec fn section_header_at(i: int) -> int {
    40 + 28 * i
}

/// Where the name table starts.
pub open spec fn names_at(b: Seq<u8>) -> int {
    section_header_at(section_count(b))
}

/// The signature is right and the section headers lie inside the buffer.
pub open spec fn header_ok(b: Seq<u8>) -> bool {
    signature_ok(b) && names_at(b) <= b.len()
}

/// The model's kind for a section-kind tag: code is code; unpacked,
/// pattern-initialized and executable data are data; constants and loader
/// information are read-only.
pub open spec fn kind_of_tag(tag: u8) -> Option<ObjSectionKind> {
    if tag == 0 {
        Some(ObjSectionKind::Code)
    } else if tag == 1 || tag == 2 || tag == 6 {
        Some(ObjSectionKind::Data)
    } else if tag == 3 || tag == 4 {
        Some(ObjSectionKind::ReadOnlyData)
    } else {
        None
    }
}

pub open spec fn tag_of(b: Seq<u8>, i: int) -> u8 {
    b[section_header_at(i) + 24]
}

pub open spec fn name_offset_of(b: Seq<u8>, i: int) -> int {
    be_i32(b, section_header_at(i))
}

pub open spec fn address_of(b: Seq<u8>, i: int) -> int {
    be_u32(b, section_header_at(i) + 4)
}

pub open spec fn packed_size_of(b: Seq<u8>, i: int) -> int {
    be_u32(b, section_header_at(i) + 16)
}

pub open spec fn container_offset_of(b: Seq<u8>, i: int) -> int {
    be_u32(b, section_header_at(i) + 20)
}

/// The first zero byte at or after `p`, or the buffer's length where there is none.
pub open spec fn zero_from(b: Seq<u8>, p: int) -> int
    decreases b.len() - p,
{
    if p < 0 || p >= b.len() {
        b.len() as int
    } else if b[p] == 0 {
        p
    } else {
        zero_from(b, p + 1)
    }
}

proof fn lemma_zero_from_bounds(b: Seq<u8>, p: int)
    requires
        0 <= p <= b.len(),
    ensures
        p <= zero_from(b, p) <= b.len(),
    decreases b.len() - p,
{
    if p < b.len() && b[p] != 0 {
        lemma_zero_from_bounds(b, p + 1);
    }
}

/// Where the name of section `i` starts.
pub open spec fn name_start_of(b: Seq<u8>, i: int) -> int {
    names_at(b) + name_offset_of(b, i)
}

/// The bytes of the name of section `i`, up to its terminating zero.
pub open spec fn name_bytes_of(b: Seq<u8>, i: int) -> Seq<u8> {
    b.subrange(name_start_of(b, i), zero_from(b, name_start_of(b, i)))
}

/// Section `i` has a name, terminated inside the buffer, that is UTF-8.
pub open spec fn name_ok(b: Seq<u8>, i: int) -> bool {
    &&& name_offset_of(b, i) >= 0
    &&& name_start_of(b, i) < b.len()
    &&& zero_from(b, name_start_of(b, i)) < b.len()
    &&& utf8_text(name_bytes_of(b, i)) is Some
}

/// The bytes of section `i` lie inside the buffer.
pub open spec fn data_ok(b: Seq<u8>, i: int) -> bool {
    container_offset_of(b, i) + packed_size_of(b, i) <= b.len()
}

/// The bytes of sections `i` and `j` share no byte of the file.
pub open spec fn file_ranges_apart(b: Seq<u8>, i: int, j: int) -> bool {
    ||| packed_size_of(b, i) == 0
    ||| packed_size_of(b, j) == 0
    ||| container_offset_of(b, i) + packed_size_of(b, i) <= container_offset_of(b, j)
    ||| container_offset_of(b, j) + packed_size_of(b, j) <= container_offset_of(b, i)
}

/// Section `i` has a known kind, a name, and bytes inside the buffer.
pub open spec fn section_readable(b: Seq<u8>, i: int) -> bool {
    kind_of_tag(tag_of(b, i)) is Some && name_ok(b, i) && data_ok(b, i)
}

/// Section `i` can be decoded: it is readable and its bytes share none with
/// an earlier section's.
pub open spec fn section_ok(b: Seq<u8>, i: int) -> bool {
    &&& section_readable(b, i)
    &&& forall|j: int| 0 <= j < i ==> file_ranges_apart(b, j, i)
}

/// Two sections share no byte of the file.
pub open spec fn sections_apart(a: ObjSection, c: ObjSection) -> bool {
    ||| a.size == 0
    ||| c.size == 0
    ||| a.file_offset + a.size <= c.file_offset
    ||| c.file_offset + c.size <= a.file_offset
}

/// The error that section `i` gives where it cannot be decoded.
pub open spec fn section_error(b: Seq<u8>, i: int) -> PefError {
    if kind_of_tag(tag_of(b, i)) is None {
        PefError::UnsupportedSectionKind(tag_of(b, i))
    } else {
        PefError::FormatError
    }
}

/// `s` holds what the header of section `i` says, and the section's bytes.
pub open spec fn section_decoded(s: ObjSection, b: Seq<u8>, i: int) -> bool {
    let start = container_offset_of(b, i);
    &&& Some(s.kind) == kind_of_tag(tag_of(b, i))
    &&& Some(s.name@) == utf8_text(name_bytes_of(b, i))
    &&& s.address == address_of(b, i)
    &&& s.size == packed_size_of(b, i)
    &&& s.data@ == b.subrange(start, start + packed_size_of(b, i))
    &&& s.file_offset == start
    &&& s.section_known
}

/// The model's kind for a section-kind tag.
pub fn section_kind(tag: u8) -> (r: Option<ObjSectionKind>)
    ensures
        r == kind_of_tag(tag),
{
    match tag {
        0 => Some(ObjSectionKind::Code),
        1 | 2 | 6 => Some(ObjSectionKind::Data),
        3 | 4 => Some(ObjSectionKind::ReadOnlyData),
        _ => None,
    }
}

fn find_zero(b: &[u8], p: usize) -> (r: usize)
    requires
        p <= b@.len(),
    ensures
        r == zero_from(b@, p as int),
{
    let mut q: usize = p;
    while q < b.len() && b[q] != 0
        invariant
            p <= q <= b@.len(),
            zero_from(b@, q as int) == zero_from(b@, p as int),
        decreases b@.len() - q,
    {
        q = q + 1;
    }
    q
}

/// Decodes section `i`, whose header lies inside the buffer.
fn decode_section(buf: &[u8], i: usize, names: usize) -> (r: Result<ObjSection, PefError>)
    requires
        section_header_at(i as int) + 28 <= buf@.len(),
        names == names_at(buf@),
        names <= buf@.len(),
    ensures
        r is Ok <==> section_readable(buf@, i as int),
        r matches Ok(s) ==> section_decoded(s, buf@, i as int) && s.wf(),
        r matches Err(e) ==> e == section_error(buf@, i as int),
{
    let len: usize = buf.len();
    let at: usize = CONTAINER_HEADER_SIZE + SECTION_HEADER_SIZE * i;
    let tag = buf[at + 24];
    let kind = match section_kind(tag) {
        Some(k) => k,
        None => return Err(PefError::UnsupportedSectionKind(tag)),
    };
    let name_offset = read_i32_be(buf, at);
    if name_offset < 0 || name_offset as usize >= len - names {
        return Err(PefError::FormatError);
    }
    let name_start = names + name_offset as usize;
    let name_end = find_zero(buf, name_start);
    proof {
        lemma_zero_from_bounds(buf@, name_start as int);
    }
    if name_end >= len {
        return Err(PefError::FormatError);
    }
    let name_bytes = slice_to_vec(slice_subrange(buf, name_start, name_end));
    let name = match utf8_string(name_bytes) {
        Some(n) => n,
        None => return Err(PefError::FormatError),
    };
    let address = read_u32_be(buf, at + 4);
    let packed_size = read_u32_be(buf, at + 16);
    let container_offset = read_u32_be(buf, at + 20);
    if container_offset as u64 + packed_size as u64 > len as u64 {
        return Err(PefError::FormatError);
    }
    let start = container_offset as usize;
    let end = start + packed_size as usize;
    let data = slice_to_vec(slice_subrange(buf, start, end));
    Ok(ObjSection {
        name,
        kind,
        address: address as u64,
        size: packed_size as u64,
        data,
        file_offset: container_offset as u64,
        section_known: true,
    })
}

/// Whether the bytes of `s` share some byte of the file with an earlier section.
fn overlaps_earlier(sections: &Vec<ObjSection>, s: &ObjSection) -> (r: bool)
    requires
        s.file_offset <= u32::MAX && s.size <= u32::MAX,
        forall|j: int|
            0 <= j < sections@.len() ==> sections@[j].file_offset <= u32::MAX && sections@[j].size
                <= u32::MAX,
    ensures
        r == exists|j: int| 0 <= j < sections@.len() && !sections_apart(sections@[j], *s),
{
    let mut j: usize = 0;
    while j < sections.len()
        invariant
            j <= sections@.len(),
            s.file_offset <= u32::MAX && s.size <= u32::MAX,
            forall|m: int|
                0 <= m < sections@.len() ==> sections@[m].file_offset <= u32::MAX
                    && sections@[m].size <= u32::MAX,
            forall|m: int| 0 <= m < j ==> sections_apart(sections@[m], *s),
        decreases sections@.len() - j,
    {
        let a = &sections[j];
        let apart = a.size == 0 || s.size == 0 || a.file_offset + a.size <= s.file_offset
            || s.file_offset + s.size <= a.file_offset;
        if !apart {
            return true;
        }
        j = j + 1;
    }
    false
}

/// Decodes a container into an object named `name`, with one section per
/// section header, in order, and no symbols. Sections whose bytes overlap in
/// the file make the container malformed.
pub fn process_pef(buf: &[u8], name: &str) -> (r: Result<ObjInfo, PefError>)
    ensures
        r is Ok <==> (header_ok(buf@) && forall|i: int|
            0 <= i < section_count(buf@) ==> section_ok(buf@, i)),
        !header_ok(buf@) ==> r == Err::<ObjInfo, PefError>(PefError::FormatError),
        header_ok(buf@) ==> (r matches Err(e) ==> exists|i: int|
            0 <= i < section_count(buf@) && (forall|j: int| 0 <= j < i ==> section_ok(buf@, j))
                && !section_ok(buf@, i) && e == section_error(buf@, i)),
        r matches Ok(obj) ==> {
            &&& obj.wf()
            &&& obj.kind == ObjKind::Executable
            &&& obj.architecture == ObjArchitecture::PowerPc
            &&& obj.name@ == name@
            &&& obj.entry is None
            &&& obj.symbols@.len() == 0
            &&& obj.known_functions@.len() == 0
            &&& obj.sections@.len() == section_count(buf@)
            &&& forall|i: int|
                0 <= i < obj.sections@.len() ==> section_decoded(obj.sections@[i], buf@, i)
            &&& forall|i: int, j: int|
                0 <= i < obj.sections@.len() && 0 <= j < obj.sections@.len() && i != j
                    ==> sections_apart(obj.sections@[i], obj.sections@[j])
        },
{
    let len: usize = buf.len();
    if len < CONTAINER_HEADER_SIZE || buf[0] != 0x4a || buf[1] != 0x6f || buf[2] != 0x79
        || buf[3] != 0x21 || buf[4] != 0x70 || buf[5] != 0x65 || buf[6] != 0x66 || buf[7] != 0x66
        || buf[8] != 0x70 || buf[9] != 0x77 || buf[10] != 0x70 || buf[11] != 0x63 {
        return Err(PefError::FormatError);
    }
    let count = read_u16_be(buf, 32) as usize;
    let names: usize = CONTAINER_HEADER_SIZE + SECTION_HEADER_SIZE * count;
    if names > len {
        return Err(PefError::FormatError);
    }
    let mut sections: Vec<ObjSection> = Vec::new();
    let mut i: usize = 0;
    while i < count
        invariant
            i <= count,
            count == section_count(buf@),
            names == names_at(buf@),
            names <= len,
            len == buf@.len(),
            header_ok(buf@),
            sections@.len() == i,
            forall|j: int| 0 <= j < i ==> section_ok(buf@, j),
            forall|j: int|
                0 <= j < i ==> section_decoded(sections@[j], buf@, j) && sections@[j].wf(),
            forall|j: int, k: int|
                0 <= j < i && 0 <= k < i && j != k ==> sections_apart(sections@[j], sections@[k]),
        decreases count - i,
    {
        match decode_section(buf, i, names) {
            Ok(s) => {
                if overlaps_earlier(&sections, &s) {
                    proof {
                        let j = choose|j: int| 0 <= j < sections@.len() && !sections_apart(sections@[j], s);
                        assert(!file_ranges_apart(buf@, j, i as int));
                        assert(!section_ok(buf@, i as int));
                    }
                    return Err(PefError::FormatError);
                }
                assert forall|j: int| 0 <= j < i implies file_ranges_apart(buf@, j, i as int) by {
                    assert(sections_apart(sections@[j], s));
                }
                sections.push(s);
            },
            Err(e) => {
                assert(!section_ok(buf@, i as int));
                return Err(e);
            },
        }
        i = i + 1;
    }
    let obj = ObjInfo::new(
        ObjKind::Executable,
        ObjArchitecture::PowerPc,
        name.to_owned(),
        Vec::new(),
        sections,
    );
    Ok(obj)
}

} // verus!
