//! Traceback tables: the bit-packed records that PowerPC compilers emit
//! right after the code of each function.
//!
//! A table is a 12-byte header followed by optional fields, each present
//! exactly when a flag or count of the header says so, and always read in
//! the same order, because each field's position depends on those before it.

use vstd::prelude::*;
use vstd::utf8::{decode_utf8, valid_utf8};
use vstd::slice::{slice_subrange, slice_to_vec};
use crate::bytes::{
    be_i32, be_u16, be_u32, fits, read_i32_be, read_i8, read_u16_be, read_u32_be, signed8,
};

verus! {

/// Source language recorded in a traceback table.
#[derive(Debug, Clone, Copy, PartialEq, Eq, Structural)]
pub enum Language {
    C,
    Fortran,
    Pascal,
    Ada,
    Pl1,
    Basic,
    Lisp,
    Cobol,
    Modula2,
    Cpp,
    Rpg,
    Pl8,
    Asm,
}

impl Language {
    /// The code that stands for this language in a table.
    pub open spec fn code(self) -> u8 {
        match self {
            Language::C => 0,
            Language::Fortran => 1,
            Language::Pascal => 2,
            Language::Ada => 3,
            Language::Pl1 => 4,
            Language::Basic => 5,
            Language::Lisp => 6,
            Language::Cobol => 7,
            Language::Modula2 => 8,
            Language::Cpp => 9,
            Language::Rpg => 10,
            Language::Pl8 => 11,
            Language::Asm => 12,
        }
    }

    /// The language with code `value`, or the code itself when no language has it.
    pub fn try_from(value: u8) -> (r: Result<Language, u8>)
        ensures
            value <= 12 ==> (r matches Ok(l) && l.code() == value),
            value > 12 ==> r == Err::<Language, u8>(value),
    {
        match value {
            0 => Ok(Language::C),
            1 => Ok(Language::Fortran),
            2 => Ok(Language::Pascal),
            3 => Ok(Language::Ada),
            4 => Ok(Language::Pl1),
            5 => Ok(Language::Basic),
            6 => Ok(Language::Lisp),
            7 => Ok(Language::Cobol),
            8 => Ok(Language::Modula2),
            9 => Ok(Language::Cpp),
            10 => Ok(Language::Rpg),
            11 => Ok(Language::Pl8),
            12 => Ok(Language::Asm),
            other => Err(other),
        }
    }
}

/// What an unwinder does when a condition is raised in the function.
#[derive(Debug, Clone, Copy, PartialEq, Eq, Structural)]
pub enum OnConditionDirective {
    /// Walk the stack without restoring state.
    WalkOnCond,
    /// Walk the stack and discard.
    DiscardOnCond,
    /// Invoke a specific system routine.
    InvokeOnCond,
}

/// Why a candidate offset holds no traceback table.
#[derive(Debug, Clone, Copy, PartialEq, Eq, Structural)]
pub enum TableError {
    /// The leading word is not zero.
    NotATable,
    /// A field that the header announces runs past the end of the buffer.
    TruncatedRecord,
}

/// Bit `pos` (0 is the least significant) of a flag byte.
pub open spec fn bit(b: u8, pos: u8) -> bool {
    (b >> pos) & 1u8 == 1u8
}

// flags1
const GLOBAL_LINKAGE: u8 = 0x80;
const OUT_OF_LINE_EPILOG_PRO: u8 = 0x40;
const HAS_TB_TABLE_OFFSET: u8 = 0x20;
const INTERNAL_PROCEDURE: u8 = 0x10;
const CONTROLLED_STORAGE: u8 = 0x08;
const TOCLESS: u8 = 0x04;
const FP_PRESENT: u8 = 0x02;
const FP_LOG_OR_ABORT: u8 = 0x01;

// flags2
const INTERRUPT_HANDLER: u8 = 0x80;
const FN_NAME_PRESENT: u8 = 0x40;
const ALLOCA_USED: u8 = 0x20;
const ON_COND_DIRECTIVE_MASK: u8 = 0x1c;
const CRSAVED: u8 = 0x02;
const LRSAVED: u8 = 0x01;

// flags3
const BACKCHAIN_STORED: u8 = 0x80;
const FIXUP: u8 = 0x40;
const FPRSAVED_MASK: u8 = 0x3f;

// flags4
const HAS_EXT_TABLE: u8 = 0x80;
const HAS_VECTOR_INFO: u8 = 0x40;
const GPR_SAVED_MASK: u8 = 0x3f;

// flags5
const FP_PARMS_MASK: u8 = 0xfe;
const PARMS_ON_STACK: u8 = 0x01;

/// Each single-bit mask tests the bit that `bit` names.
proof fn lemma_masks(b: u8)
    by (bit_vector)
    ensures
        (b & 0x80u8 != 0u8) == ((b >> 7u8) & 1u8 == 1u8),
        (b & 0x40u8 != 0u8) == ((b >> 6u8) & 1u8 == 1u8),
        (b & 0x20u8 != 0u8) == ((b >> 5u8) & 1u8 == 1u8),
        (b & 0x10u8 != 0u8) == ((b >> 4u8) & 1u8 == 1u8),
        (b & 0x08u8 != 0u8) == ((b >> 3u8) & 1u8 == 1u8),
        (b & 0x04u8 != 0u8) == ((b >> 2u8) & 1u8 == 1u8),
        (b & 0x02u8 != 0u8) == ((b >> 1u8) & 1u8 == 1u8),
        (b & 0x01u8 != 0u8) == ((b >> 0u8) & 1u8 == 1u8),
        (b & 0x1cu8) >> 2u8 == (b / 4u8) % 8u8,
        b & 0x3fu8 == b % 64u8,
        (b & 0xfeu8) >> 1u8 == b / 2u8,
{
}

/// The fixed 12-byte header of a traceback table.
#[derive(Debug, Clone, Copy, PartialEq, Eq, Structural)]
pub struct TracebackTableShort {
    /// Always zero in a table.
    pub reserved: i32,
    /// Table format version.
    pub type_: u8,
    pub language: u8,
    pub flags1: u8,
    pub flags2: u8,
    pub flags3: u8,
    pub flags4: u8,
    pub number_of_fixed_parms: u8,
    pub flags5: u8,
}

/// The header stored at `at`.
pub open spec fn header_at(data: Seq<u8>, at: int) -> TracebackTableShort {
    TracebackTableShort {
        reserved: be_i32(data, at) as i32,
        type_: data[at + 4],
        language: data[at + 5],
        flags1: data[at + 6],
        flags2: data[at + 7],
        flags3: data[at + 8],
        flags4: data[at + 9],
        number_of_fixed_parms: data[at + 10],
        flags5: data[at + 11],
    }
}

fn read_header_at(data: &[u8], at: usize) -> (r: TracebackTableShort)
    requires
        at + 12 <= data@.len(),
    ensures
        r == header_at(data@, at as int),
{
    let len: usize = data.len();
    assert(at + 12 <= len);
    TracebackTableShort {
        reserved: read_i32_be(data, at),
        type_: data[at + 4],
        language: data[at + 5],
        flags1: data[at + 6],
        flags2: data[at + 7],
        flags3: data[at + 8],
        flags4: data[at + 9],
        number_of_fixed_parms: data[at + 10],
        flags5: data[at + 11],
    }
}

impl TracebackTableShort {
    /// The header at the start of `tb_data`; the buffer must hold all 12 bytes.
    pub fn read(tb_data: &[u8]) -> (r: Result<Self, TableError>)
        ensures
            tb_data@.len() >= 12 ==> r == Ok::<Self, TableError>(header_at(tb_data@, 0)),
            tb_data@.len() < 12 ==> r == Err::<Self, TableError>(TableError::TruncatedRecord),
    {
        if tb_data.len() < 12 {
            Err(TableError::TruncatedRecord)
        } else {
            Ok(read_header_at(tb_data, 0))
        }
    }

    /// Size of the header in bytes.
    pub fn size() -> (r: usize)
        ensures
            r == 12,
    {
        12
    }

    /// The source language, or the unknown code.
    pub fn language(&self) -> (r: Result<Language, u8>)
        ensures
            self.language <= 12 ==> (r matches Ok(l) && l.code() == self.language),
            self.language > 12 ==> r == Err::<Language, u8>(self.language),
    {
        Language::try_from(self.language)
    }

    // flags1
    pub fn is_global_linkage(&self) -> (r: bool)
        ensures
            r == bit(self.flags1, 7),
    {
        proof { lemma_masks(self.flags1); }
        self.flags1 & GLOBAL_LINKAGE != 0
    }

    pub fn is_out_of_line_prolog_epilog(&self) -> (r: bool)
        ensures
            r == bit(self.flags1, 6),
    {
        proof { lemma_masks(self.flags1); }
        self.flags1 & OUT_OF_LINE_EPILOG_PRO != 0
    }

    pub fn has_traceback_table_offset(&self) -> (r: bool)
        ensures
            r == bit(self.flags1, 5),
    {
        proof { lemma_masks(self.flags1); }
        self.flags1 & HAS_TB_TABLE_OFFSET != 0
    }

    pub fn is_internal_procedure(&self) -> (r: bool)
        ensures
            r == bit(self.flags1, 4),
    {
        proof { lemma_masks(self.flags1); }
        self.flags1 & INTERNAL_PROCEDURE != 0
    }

    pub fn has_controlled_storage(&self) -> (r: bool)
        ensures
            r == bit(self.flags1, 3),
    {
        proof { lemma_masks(self.flags1); }
        self.flags1 & CONTROLLED_STORAGE != 0
    }

    pub fn is_tocless(&self) -> (r: bool)
        ensures
            r == bit(self.flags1, 2),
    {
        proof { lemma_masks(self.flags1); }
        self.flags1 & TOCLESS != 0
    }

    pub fn is_floating_point_present(&self) -> (r: bool)
        ensures
            r == bit(self.flags1, 1),
    {
        proof { lemma_masks(self.flags1); }
        self.flags1 & FP_PRESENT != 0
    }

    pub fn log_abort_fp(&self) -> (r: bool)
        ensures
            r == bit(self.flags1, 0),
    {
        proof { lemma_masks(self.flags1); }
        self.flags1 & FP_LOG_OR_ABORT != 0
    }

    // flags2
    pub fn is_interupt_handler(&self) -> (r: bool)
        ensures
            r == bit(self.flags2, 7),
    {
        proof { lemma_masks(self.flags2); }
        self.flags2 & INTERRUPT_HANDLER != 0
    }

    pub fn name_present(&self) -> (r: bool)
        ensures
            r == bit(self.flags2, 6),
    {
        proof { lemma_masks(self.flags2); }
        self.flags2 & FN_NAME_PRESENT != 0
    }

    pub fn uses_alloca(&self) -> (r: bool)
        ensures
            r == bit(self.flags2, 5),
    {
        proof { lemma_masks(self.flags2); }
        self.flags2 & ALLOCA_USED != 0
    }

    /// The 3-bit on-condition directive, bits 4..2 of the second flag byte.
    pub fn on_condition_directive(&self) -> (r: u8)
        ensures
            r == (self.flags2 / 4) % 8,
    {
        proof { lemma_masks(self.flags2); }
        (self.flags2 & ON_COND_DIRECTIVE_MASK) >> 2
    }

    pub fn cr_saved(&self) -> (r: bool)
        ensures
            r == bit(self.flags2, 1),
    {
        proof { lemma_masks(self.flags2); }
        self.flags2 & CRSAVED != 0
    }

    pub fn lr_saved(&self) -> (r: bool)
        ensures
            r == bit(self.flags2, 0),
    {
        proof { lemma_masks(self.flags2); }
        self.flags2 & LRSAVED != 0
    }

    // flags3
    pub fn stores_bc(&self) -> (r: bool)
        ensures
            r == bit(self.flags3, 7),
    {
        proof { lemma_masks(self.flags3); }
        self.flags3 & BACKCHAIN_STORED != 0
    }

    pub fn is_fixup(&self) -> (r: bool)
        ensures
            r == bit(self.flags3, 6),
    {
        proof { lemma_masks(self.flags3); }
        self.flags3 & FIXUP != 0
    }

    /// Number of floating-point registers saved: the low 6 bits.
    pub fn fp_regs_saved(&self) -> (r: u8)
        ensures
            r == self.flags3 % 64,
    {
        proof { lemma_masks(self.flags3); }
        self.flags3 & FPRSAVED_MASK
    }

    // flags4
    pub fn has_ext_table(&self) -> (r: bool)
        ensures
            r == bit(self.flags4, 7),
    {
        proof { lemma_masks(self.flags4); }
        self.flags4 & HAS_EXT_TABLE != 0
    }

    pub fn has_vector_info(&self) -> (r: bool)
        ensures
            r == bit(self.flags4, 6),
    {
        proof { lemma_masks(self.flags4); }
        self.flags4 & HAS_VECTOR_INFO != 0
    }

    /// Number of general-purpose registers saved: the low 6 bits.
    pub fn gpr_regs_saved(&self) -> (r: u8)
        ensures
            r == self.flags4 % 64,
    {
        proof { lemma_masks(self.flags4); }
        self.flags4 & GPR_SAVED_MASK
    }

    pub fn get_number_of_fixed_parms(&self) -> (r: u8)
        ensures
            r == self.number_of_fixed_parms,
    {
        self.number_of_fixed_parms
    }

    /// Number of floating-point parameters: the upper 7 bits of the last
    /// flag byte, masked first and then shifted down.
    pub fn get_number_of_fp_parms(&self) -> (r: u8)
        ensures
            r == self.flags5 / 2,
    {
        proof { lemma_masks(self.flags5); }
        (self.flags5 & FP_PARMS_MASK) >> 1
    }

    pub fn params_on_stack(&self) -> (r: bool)
        ensures
            r == bit(self.flags5, 0),
    {
        proof { lemma_masks(self.flags5); }
        self.flags5 & PARMS_ON_STACK != 0
    }
}


/// How one parameter is passed, as the parameter-type word encodes it.
#[derive(Debug, Clone, Copy, PartialEq, Eq, Structural)]
pub enum ParamKind {
    /// Encoded `0`.
    Fixed,
    /// Encoded `10`.
    SingleFloat,
    /// Encoded `11`.
    DoubleFloat,
}

/// The bits of a parameter-type word, most significant first.
pub open spec fn word_bits(word: u32) -> Seq<bool> {
    Seq::new(32, |i: int| (word >> (31 - i) as u32) & 1u32 == 1u32)
}

/// The kinds of `left` parameters whose encodings start at bit `i`; the list
/// stops early where the bits run out.
pub open spec fn kinds_from(bits: Seq<bool>, i: int, left: nat) -> Seq<ParamKind>
    decreases left,
{
    if left == 0 || i < 0 || i >= bits.len() {
        seq![]
    } else if !bits[i] {
        seq![ParamKind::Fixed] + kinds_from(bits, i + 1, (left - 1) as nat)
    } else if i + 1 >= bits.len() {
        seq![]
    } else if !bits[i + 1] {
        seq![ParamKind::SingleFloat] + kinds_from(bits, i + 2, (left - 1) as nat)
    } else {
        seq![ParamKind::DoubleFloat] + kinds_from(bits, i + 2, (left - 1) as nat)
    }
}

/// The text that the bytes `b` encode in UTF-8, or none where they are not UTF-8.
pub open spec fn utf8_text(b: Seq<u8>) -> Option<Seq<char>> {
    if valid_utf8(b) {
        Some(decode_utf8(b))
    } else {
        None
    }
}

/// Relies on `String::from_utf8`: it succeeds exactly where the bytes are
/// valid UTF-8, and the string then holds the characters they encode.
#[verifier::external_body]
pub(crate) fn utf8_string(b: Vec<u8>) -> (r: Option<String>)
    ensures
        r is Some <==> valid_utf8(b@),
        r is Some ==> r->0@ == decode_utf8(b@),
{
    String::from_utf8(b).ok()
}

/// The text of an optional string.
pub open spec fn text_of(o: Option<String>) -> Option<Seq<char>> {
    match o {
        Some(s) => Some(s@),
        None => None,
    }
}

/// Whether the header asks for the parameter-type word.
pub open spec fn has_parm_info(h: TracebackTableShort) -> bool {
    h.number_of_fixed_parms > 0 || h.flags5 / 2 > 0
}

/// Bytes taken by the parameter-type word.
pub open spec fn parm_info_len(h: TracebackTableShort) -> int {
    if has_parm_info(h) { 4 } else { 0 }
}

/// Bytes taken by the function-size word.
pub open spec fn fnc_size_len(h: TracebackTableShort) -> int {
    if bit(h.flags1, 5) { 4 } else { 0 }
}

/// Bytes taken by the interrupt-handler mask.
pub open spec fn hand_mask_len(h: TracebackTableShort) -> int {
    if bit(h.flags2, 7) { 4 } else { 0 }
}

/// Bytes taken by the alloca register.
pub open spec fn alloca_len(h: TracebackTableShort) -> int {
    if bit(h.flags2, 5) { 1 } else { 0 }
}

/// Where the anchor count of the table at `off`, with header `h`, stands.
pub open spec fn ctl_at(h: TracebackTableShort, off: int) -> int {
    off + 12 + parm_info_len(h) + fnc_size_len(h) + hand_mask_len(h)
}

/// Bytes taken by the anchor count and anchors, where the count stands at `c`.
pub open spec fn ctl_info_len(h: TracebackTableShort, data: Seq<u8>, c: int) -> int {
    if bit(h.flags1, 3) {
        4 + 4 * be_i32(data, c)
    } else {
        0
    }
}

/// Where the name length stands, where the anchor count stands at `c`.
pub open spec fn name_at(h: TracebackTableShort, data: Seq<u8>, c: int) -> int {
    c + ctl_info_len(h, data, c)
}

/// Bytes taken by the name length and name.
pub open spec fn name_info_len(h: TracebackTableShort, data: Seq<u8>, c: int) -> int {
    if bit(h.flags2, 6) {
        2 + be_u16(data, name_at(h, data, c))
    } else {
        0
    }
}

/// Where the alloca register stands.
pub open spec fn alloca_at(h: TracebackTableShort, data: Seq<u8>, c: int) -> int {
    name_at(h, data, c) + name_info_len(h, data, c)
}

/// Bytes taken by the fields from the anchor count on, which stands at `c`.
pub open spec fn tail_len(h: TracebackTableShort, data: Seq<u8>, c: int) -> int {
    ctl_info_len(h, data, c) + name_info_len(h, data, c) + alloca_len(h)
}

/// Length of the extension of the table at `off`: the sum of the sizes of
/// the fields present.
pub open spec fn ext_len(h: TracebackTableShort, data: Seq<u8>, off: int) -> int {
    parm_info_len(h) + fnc_size_len(h) + hand_mask_len(h) + tail_len(h, data, ctl_at(h, off))
}

/// The fields from the anchor count on, which stands at `c`, can be read in full.
pub open spec fn tail_fits(h: TracebackTableShort, data: Seq<u8>, c: int) -> bool {
    &&& c <= data.len()
    &&& bit(h.flags1, 3) ==> c + 4 <= data.len() && be_i32(data, c) >= 0
    &&& bit(h.flags2, 6) ==> name_at(h, data, c) + 2 <= data.len()
    &&& c + tail_len(h, data, c) <= data.len()
}

/// `n` rounded up to a multiple of 4.
pub open spec fn round_up4(n: int) -> int {
    (n + 3) / 4 * 4
}

/// The four bytes at `off` exist and are all zero.
pub open spec fn sentinel_zero(data: Seq<u8>, off: int) -> bool {
    &&& 0 <= off
    &&& off + 4 <= data.len()
    &&& data[off] == 0 && data[off + 1] == 0 && data[off + 2] == 0 && data[off + 3] == 0
}

/// Every field that header `h` announces for the table at `off` can be read
/// in full.
pub open spec fn extension_fits(h: TracebackTableShort, data: Seq<u8>, off: int) -> bool {
    tail_fits(h, data, ctl_at(h, off))
}

/// The header at `off` and every field that it announces can be read in full.
pub open spec fn table_fits(data: Seq<u8>, off: int) -> bool {
    off + 12 <= data.len() && extension_fits(header_at(data, off), data, off)
}

/// A whole traceback table stands at `off`.
pub open spec fn table_at(data: Seq<u8>, off: int) -> bool {
    sentinel_zero(data, off) && table_fits(data, off)
}

/// Bytes that the table at `off` occupies, padding included.
pub open spec fn table_size_at(data: Seq<u8>, off: int) -> int {
    round_up4(12 + ext_len(header_at(data, off), data, off))
}

/// A 4-byte unsigned field at `pos`, where `present` says it is there.
fn read_u32_field(data: &[u8], pos: usize, present: bool) -> (r: Result<Option<u32>, TableError>)
    ensures
        !present ==> r == Ok::<Option<u32>, TableError>(None),
        present && pos + 4 <= data@.len() ==> r == Ok::<Option<u32>, TableError>(
            Some(be_u32(data@, pos as int) as u32),
        ),
        present && pos + 4 > data@.len() ==> r == Err::<Option<u32>, TableError>(
            TableError::TruncatedRecord,
        ),
{
    if !present {
        Ok(None)
    } else if !fits(data.len(), pos, 4) {
        Err(TableError::TruncatedRecord)
    } else {
        Ok(Some(read_u32_be(data, pos)))
    }
}

/// A 4-byte signed field at `pos`, where `present` says it is there.
fn read_i32_field(data: &[u8], pos: usize, present: bool) -> (r: Result<Option<i32>, TableError>)
    ensures
        !present ==> r == Ok::<Option<i32>, TableError>(None),
        present && pos + 4 <= data@.len() ==> r == Ok::<Option<i32>, TableError>(
            Some(be_i32(data@, pos as int) as i32),
        ),
        present && pos + 4 > data@.len() ==> r == Err::<Option<i32>, TableError>(
            TableError::TruncatedRecord,
        ),
{
    if !present {
        Ok(None)
    } else if !fits(data.len(), pos, 4) {
        Err(TableError::TruncatedRecord)
    } else {
        Ok(Some(read_i32_be(data, pos)))
    }
}

/// The anchor count at `pos` and the anchors that follow it.
fn read_anchors(data: &[u8], pos: usize) -> (r: Result<Vec<i32>, TableError>)
    ensures
        r is Ok <==> (pos + 4 <= data@.len() && be_i32(data@, pos as int) >= 0 && pos + 4 + 4
            * be_i32(data@, pos as int) <= data@.len()),
        r is Err ==> r == Err::<Vec<i32>, TableError>(TableError::TruncatedRecord),
        r matches Ok(v) ==> {
            &&& v@.len() == be_i32(data@, pos as int)
            &&& forall|k: int|
                0 <= k < v@.len() ==> v@[k] as int == be_i32(data@, pos + 4 + 4 * k)
        },
{
    let len: usize = data.len();
    if !fits(len, pos, 4) {
        return Err(TableError::TruncatedRecord);
    }
    let cnt = read_i32_be(data, pos);
    let first = pos + 4;
    if cnt < 0 || cnt as usize > (len - first) / 4 {
        return Err(TableError::TruncatedRecord);
    }
    let n = cnt as usize;
    let mut anchors: Vec<i32> = Vec::new();
    let mut k: usize = 0;
    while k < n
        invariant
            k <= n,
            first + 4 * n <= len,
            len == data@.len(),
            anchors@.len() == k,
            forall|j: int| 0 <= j < k ==> anchors@[j] as int == be_i32(data@, first + 4 * j),
        decreases n - k,
    {
        anchors.push(read_i32_be(data, first + 4 * k));
        k = k + 1;
    }
    Ok(anchors)
}

/// The name length at `pos`, then the name: its bytes, its text where they
/// are UTF-8, and the bytes used by length and name.
fn read_name(data: &[u8], pos: usize) -> (r: Result<(Vec<u8>, Option<String>, usize), TableError>)
    ensures
        r is Ok <==> (pos + 2 <= data@.len() && pos + 2 + be_u16(data@, pos as int)
            <= data@.len()),
        r is Err ==> r == Err::<(Vec<u8>, Option<String>, usize), TableError>(
            TableError::TruncatedRecord,
        ),
        r matches Ok((bytes, text, used)) ==> {
            &&& used == 2 + be_u16(data@, pos as int)
            &&& bytes@ == data@.subrange(pos + 2, pos + 2 + be_u16(data@, pos as int))
            &&& text_of(text) == utf8_text(bytes@)
        },
{
    let len: usize = data.len();
    if !fits(len, pos, 2) {
        return Err(TableError::TruncatedRecord);
    }
    let name_len = read_u16_be(data, pos) as usize;
    let first = pos + 2;
    if !fits(len, first, name_len) {
        return Err(TableError::TruncatedRecord);
    }
    let bytes = slice_to_vec(slice_subrange(data, first, first + name_len));
    let text = utf8_string(slice_to_vec(slice_subrange(data, first, first + name_len)));
    Ok((bytes, text, name_len + 2))
}

/// The name that the table at `off` gives: its text where the name is
/// present and UTF-8.
pub open spec fn table_name_at(data: Seq<u8>, off: int) -> Option<Seq<char>> {
    let h = header_at(data, off);
    let name = name_at(h, data, ctl_at(h, off));
    if bit(h.flags2, 6) {
        utf8_text(data.subrange(name + 2, name + 2 + be_u16(data, name)))
    } else {
        None
    }
}

/// A traceback table: the header and the extension fields that it announces.
#[derive(Debug)]
pub struct TracebackTable {
    pub short: TracebackTableShort,
    /// Order and kind of the parameters, left-justified: `0` a fixed
    /// parameter, `10` a single-precision and `11` a double-precision one.
    pub parm_info: Option<u32>,
    /// Offset from the start of the code to the table.
    pub fnc_size: Option<u32>,
    /// The interrupts handled.
    pub hand_mask: Option<i32>,
    /// Controlled-storage anchors.
    pub ctl_info: Option<Vec<i32>>,
    /// The bytes of the function's name, where the header announces one.
    pub name_bytes: Option<Vec<u8>>,
    /// The function's name as text, where it is present and UTF-8.
    pub name: Option<String>,
    /// Register that holds alloca storage.
    pub alloca_reg: Option<i8>,
    /// Bytes read after the header.
    pub ext_size: usize,
}

impl TracebackTable {
    /// This table holds what the bytes at `off` of `data` say.
    #[verifier::opaque]
    pub open spec fn decoded_from(self, data: Seq<u8>, off: int) -> bool {
        self.short == header_at(data, off) && self.extension_from(data, off)
    }

    /// The extension fields hold what the bytes after the header at `off`
    /// say, as this table's header lays them out.
    pub open spec fn extension_from(self, data: Seq<u8>, off: int) -> bool {
        let h = self.short;
        let base = off + 12;
        let ctl = ctl_at(h, off);
        &&& self.parm_info == (if has_parm_info(h) {
            Some(be_u32(data, base) as u32)
        } else {
            None
        })
        &&& self.fnc_size == (if bit(h.flags1, 5) {
            Some(be_u32(data, base + parm_info_len(h)) as u32)
        } else {
            None
        })
        &&& self.hand_mask == (if bit(h.flags2, 7) {
            Some(be_i32(data, base + parm_info_len(h) + fnc_size_len(h)) as i32)
        } else {
            None
        })
        &&& self.tail_from(data, ctl)
        &&& self.ext_size == ext_len(h, data, off)
    }

    /// The fields from the anchor count on hold what the bytes from `ctl` on say.
    pub open spec fn tail_from(self, data: Seq<u8>, ctl: int) -> bool {
        let h = self.short;
        let name = name_at(h, data, ctl);
        &&& if bit(h.flags1, 3) {
            &&& self.ctl_info is Some
            &&& self.ctl_info->0@.len() == be_i32(data, ctl)
            &&& forall|k: int|
                0 <= k < self.ctl_info->0@.len() ==> self.ctl_info->0@[k] as int == be_i32(
                    data,
                    ctl + 4 + 4 * k,
                )
        } else {
            self.ctl_info is None
        }
        &&& if bit(h.flags2, 6) {
            &&& self.name_bytes is Some
            &&& self.name_bytes->0@ == data.subrange(name + 2, name + 2 + be_u16(data, name))
        } else {
            self.name_bytes is None
        }
        &&& text_of(self.name) == (if bit(h.flags2, 6) {
            utf8_text(data.subrange(name + 2, name + 2 + be_u16(data, name)))
        } else {
            None
        })
        &&& self.alloca_reg == (if bit(h.flags2, 5) {
            Some(signed8(data[alloca_at(h, data, ctl)]) as i8)
        } else {
            None
        })
    }

    /// Decodes the fields after header `short` of the table at `tb_offset`.
    #[verifier::rlimit(100)]
    fn decode_extension(section_data: &[u8], tb_offset: usize, short: TracebackTableShort) -> (r: Result<Self, TableError>)
        requires
            tb_offset + 12 <= section_data@.len(),
        ensures
            !extension_fits(short, section_data@, tb_offset as int) ==> r == Err::<Self, TableError>(TableError::TruncatedRecord),
            extension_fits(short, section_data@, tb_offset as int) ==> (r matches Ok(t) && t.short == short && t.extension_from(section_data@, tb_offset as int)),
    {
        let ghost data = section_data@;
        let ghost off = tb_offset as int;
        let ghost h = short;
        let len: usize = section_data.len();
        let mut pos: usize = tb_offset + 12;
        let parm_info = match read_u32_field(
            section_data,
            pos,
            short.get_number_of_fixed_parms() > 0 || short.get_number_of_fp_parms() > 0,
        ) {
            Ok(v) => v,
            Err(e) => return Err(e),
        };
        if parm_info.is_some() {
            pos = pos + 4;
        }
        let fnc_size = match read_u32_field(section_data, pos, short.has_traceback_table_offset()) {
            Ok(v) => v,
            Err(e) => return Err(e),
        };
        if fnc_size.is_some() {
            pos = pos + 4;
        }
        let hand_mask = match read_i32_field(section_data, pos, short.is_interupt_handler()) {
            Ok(v) => v,
            Err(e) => return Err(e),
        };
        if hand_mask.is_some() {
            pos = pos + 4;
        }
        assert(pos == ctl_at(h, off));
        let fixed_len = pos - tb_offset - 12;
        Self::decode_tail(section_data, pos, short, parm_info, fnc_size, hand_mask, fixed_len)
    }

    /// Decodes the fields from the anchor count on, which stands at `c`, and
    /// completes the table with the fields read before them.
    #[verifier::rlimit(100)]
    fn decode_tail(
        section_data: &[u8],
        c: usize,
        short: TracebackTableShort,
        parm_info: Option<u32>,
        fnc_size: Option<u32>,
        hand_mask: Option<i32>,
        fixed_len: usize,
    ) -> (r: Result<Self, TableError>)
        requires
            c <= section_data@.len(),
            fixed_len <= c,
        ensures
            !tail_fits(short, section_data@, c as int) ==> r == Err::<Self, TableError>(
                TableError::TruncatedRecord,
            ),
            tail_fits(short, section_data@, c as int) ==> (r matches Ok(t) && t.short == short
                && t.parm_info == parm_info && t.fnc_size == fnc_size && t.hand_mask == hand_mask
                && t.tail_from(section_data@, c as int) && t.ext_size == fixed_len + tail_len(
                short,
                section_data@,
                c as int,
            )),
    {
        let ghost data = section_data@;
        let ghost h = short;
        let len: usize = section_data.len();
        let mut pos: usize = c;
        let ctl_info = if short.has_controlled_storage() {
            match read_anchors(section_data, pos) {
                Ok(v) => {
                    pos = pos + 4 + 4 * v.len();
                    Some(v)
                },
                Err(e) => return Err(e),
            }
        } else {
            None
        };
        assert(pos == name_at(h, data, c as int));

        let (name_bytes, name) = if short.name_present() {
            match read_name(section_data, pos) {
                Ok((bytes, text, used)) => {
                    pos = pos + used;
                    (Some(bytes), text)
                },
                Err(e) => return Err(e),
            }
        } else {
            (None, None)
        };
        assert(pos == alloca_at(h, data, c as int));

        let alloca_reg = if short.uses_alloca() {
            if !fits(len, pos, 1) {
                return Err(TableError::TruncatedRecord);
            }
            let v = read_i8(section_data, pos);
            pos = pos + 1;
            Some(v)
        } else {
            None
        };

        Ok(TracebackTable {
            short,
            parm_info,
            fnc_size,
            hand_mask,
            ctl_info,
            name_bytes,
            name,
            alloca_reg,
            ext_size: fixed_len + (pos - c),
        })
    }

    /// Decodes the table at `tb_offset`. A leading word that is not zero
    /// rejects the candidate before anything else is read; a field that the
    /// header announces but the buffer cannot hold rejects the whole table.
    /// A name whose bytes are not UTF-8 is kept as bytes, without text.
    pub fn decode(section_data: &[u8], tb_offset: usize) -> (r: Result<Self, TableError>)
        ensures
            tb_offset + 4 > section_data@.len() ==> r == Err::<Self, TableError>(
                TableError::TruncatedRecord,
            ),
            tb_offset + 4 <= section_data@.len() && !sentinel_zero(section_data@, tb_offset as int)
                ==> r == Err::<Self, TableError>(TableError::NotATable),
            sentinel_zero(section_data@, tb_offset as int) && !table_fits(
                section_data@,
                tb_offset as int,
            ) ==> r == Err::<Self, TableError>(TableError::TruncatedRecord),
            table_at(section_data@, tb_offset as int) ==> (r matches Ok(t) && t.decoded_from(
                section_data@,
                tb_offset as int,
            )),
    {
        let ghost data = section_data@;
        let ghost off = tb_offset as int;
        let len: usize = section_data.len();
        if !fits(len, tb_offset, 4) {
            return Err(TableError::TruncatedRecord);
        }
        if section_data[tb_offset] != 0 || section_data[tb_offset + 1] != 0
            || section_data[tb_offset + 2] != 0 || section_data[tb_offset + 3] != 0 {
            return Err(TableError::NotATable);
        }
        if !fits(len, tb_offset, 12) {
            return Err(TableError::TruncatedRecord);
        }
        let short = read_header_at(section_data, tb_offset);
        proof {
            reveal(TracebackTable::decoded_from);
        }
        Self::decode_extension(section_data, tb_offset, short)
    }


    /// The table at `tb_offset`, or none where no whole table stands there.
    pub fn read(section_data: &[u8], tb_offset: usize) -> (r: Option<Self>)
        ensures
            r is Some <==> table_at(section_data@, tb_offset as int),
            r matches Some(t) ==> t.decoded_from(section_data@, tb_offset as int),
    {
        match Self::decode(section_data, tb_offset) {
            Ok(t) => Some(t),
            Err(_) => None,
        }
    }

    /// The kinds of the parameters, read from the parameter-type word:
    /// one for each fixed and floating-point parameter that the header
    /// counts, as far as the word's 32 bits go. None where the word is absent.
    pub fn parameter_kinds(&self) -> (r: Option<Vec<ParamKind>>)
        ensures
            self.parm_info is None ==> r is None,
            self.parm_info matches Some(w) ==> (r matches Some(v) && v@ == kinds_from(
                word_bits(w),
                0,
                (self.short.number_of_fixed_parms + self.short.flags5 / 2) as nat,
            )),
    {
        let word = match self.parm_info {
            Some(w) => w,
            None => return None,
        };
        let ghost bits = word_bits(word);
        let total: usize = self.short.get_number_of_fixed_parms() as usize
            + self.short.get_number_of_fp_parms() as usize;
        let mut kinds: Vec<ParamKind> = Vec::new();
        let mut i: u32 = 0;
        let mut left: usize = total;
        while left > 0 && i < 32
            invariant
                i <= 32,
                left <= total,
                bits == word_bits(word),
                kinds@ + kinds_from(bits, i as int, left as nat) == kinds_from(bits, 0, total as nat),
            decreases left,
        {
            let ghost before = kinds@;
            let ghost i0 = i as int;
            let ghost left0 = left as nat;
            let first = (word >> (31 - i)) & 1 == 1;
            assert(first == bits[i0]);
            if !first {
                kinds.push(ParamKind::Fixed);
                i = i + 1;
                left = left - 1;
            } else if i + 1 >= 32 {
                left = 0;
            } else {
                let second = (word >> (31 - (i + 1))) & 1 == 1;
                assert(second == bits[i0 + 1]);
                if !second {
                    kinds.push(ParamKind::SingleFloat);
                } else {
                    kinds.push(ParamKind::DoubleFloat);
                }
                i = i + 2;
                left = left - 1;
            }
            assert(kinds@ + kinds_from(bits, i as int, left as nat) =~= before + kinds_from(
                bits,
                i0,
                left0,
            ));
        }
        assert(kinds_from(bits, i as int, left as nat) =~= Seq::<ParamKind>::empty());
        assert(kinds@ =~= kinds@ + kinds_from(bits, i as int, left as nat));
        Some(kinds)
    }

    /// Bytes the table occupies: header and extension, rounded up to a
    /// multiple of 4.
    pub fn size(&self) -> (r: usize)
        requires
            self.ext_size + 15 <= usize::MAX,
        ensures
            r == round_up4(12 + self.ext_size),
            r % 4 == 0,
            12 + self.ext_size <= r < 12 + self.ext_size + 4,
    {
        (TracebackTableShort::size() + self.ext_size + 3) / 4 * 4
    }
}

/// Whatever flags a whole table's header sets, its extension is exactly the
/// sum of the sizes of the fields that the flags and counts announce, and
/// the record, padding included, covers a whole number of 4-byte words.
pub proof fn record_size_is_word_aligned(data: Seq<u8>, off: int)
    requires
        table_at(data, off),
    ensures
        ({
            let h = header_at(data, off);
            let c = ctl_at(h, off);
            ext_len(h, data, off) == parm_info_len(h) + fnc_size_len(h) + hand_mask_len(h)
                + ctl_info_len(h, data, c) + name_info_len(h, data, c) + alloca_len(h)
        }),
        table_size_at(data, off) % 4 == 0,
        12 + ext_len(header_at(data, off), data, off) <= table_size_at(data, off) < 16 + ext_len(
            header_at(data, off),
            data,
            off,
        ),
{
    let n = 12 + ext_len(header_at(data, off), data, off);
    assert(round_up4(n) % 4 == 0 && n <= round_up4(n) < n + 4) by (nonlinear_arith)
        requires
            round_up4(n) == (n + 3) / 4 * 4,
    ;
}

/// The extension of a decoded table is the sum of the sizes of the fields
/// that it holds: 4 bytes for each word present, the anchor count and its
/// anchors, the name length and the name's bytes (kept whether or not they are
/// UTF-8), and one byte for the alloca register. The record, padding included, is a whole number of words.
pub proof fn decoded_extension_is_sum_of_fields(t: TracebackTable, data: Seq<u8>, off: int)
    requires
        table_at(data, off),
        t.decoded_from(data, off),
    ensures
        ({
            t.ext_size == (if t.parm_info is Some { 4int } else { 0 }) + (if t.fnc_size is Some {
                4int
            } else {
                0
            }) + (if t.hand_mask is Some { 4int } else { 0 }) + (match t.ctl_info {
                Some(v) => 4 + 4 * v@.len() as int,
                None => 0int,
            }) + (match t.name_bytes {
                Some(n) => 2 + n@.len() as int,
                None => 0int,
            }) + (if t.alloca_reg is Some {
                1int
            } else {
                0
            })
        }),
        t.name_bytes is Some <==> bit(t.short.flags2, 6),
        t.name is Some ==> t.name_bytes is Some,
        12 + t.ext_size <= data.len() - off,
        round_up4(12 + t.ext_size) % 4 == 0,
        12 + t.ext_size <= round_up4(12 + t.ext_size) < 16 + t.ext_size,
{
    reveal(TracebackTable::decoded_from);
    record_size_is_word_aligned(data, off);
}

/// A decoded table carries the name that its bytes give.
pub proof fn lemma_decoded_name(t: TracebackTable, data: Seq<u8>, off: int)
    requires
        t.decoded_from(data, off),
    ensures
        text_of(t.name) == table_name_at(data, off),
{
    reveal(TracebackTable::decoded_from);
}

/// Cutting a buffer anywhere after the leading word of a whole table but
/// before the table's last field ends leaves a buffer in which the sentinel
/// still stands and the announced fields no longer fit: the decoder reports a
/// truncated record for it, never a partial table.
pub proof fn truncated_table_rejected(data: Seq<u8>, off: int, cut: int)
    requires
        table_at(data, off),
        off + 4 <= cut < off + 12 + ext_len(header_at(data, off), data, off),
    ensures
        sentinel_zero(data.take(cut), off),
        !table_fits(data.take(cut), off),
{
    let d = data.take(cut);
    if cut >= off + 12 {
        let h = header_at(data, off);
        assert(header_at(d, off) == h);
        let c = ctl_at(h, off);
        if tail_fits(h, d, c) {
            if bit(h.flags1, 3) {
                assert(be_i32(d, c) == be_i32(data, c));
            }
            let n = name_at(h, data, c);
            assert(name_at(h, d, c) == n);
            if bit(h.flags2, 6) {
                assert(be_u16(d, n) == be_u16(data, n));
            }
            assert(tail_len(h, d, c) == tail_len(h, data, c));
        }
    }
}

} // verus!
