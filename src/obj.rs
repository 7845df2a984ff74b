//! The object model: sections, symbols and known functions of one decoded
//! executable.

use vstd::prelude::*;

verus! {

#[derive(Debug, Clone, Copy, PartialEq, Eq, Structural)]
pub enum ObjArchitecture {
    PowerPc,
}

#[derive(Debug, Clone, Copy, PartialEq, Eq, Structural)]
pub enum ObjKind {
    Executable,
    Relocatable,
}

/// What a section's bytes hold.
#[derive(Debug, Clone, Copy, PartialEq, Eq, Structural)]
pub enum ObjSectionKind {
    Code,
    Data,
    ReadOnlyData,
    Uninitialized,
}

pub struct ObjSection {
    pub name: String,
    pub kind: ObjSectionKind,
    /// Virtual address of the first byte.
    pub address: u64,
    pub size: u64,
    pub data: Vec<u8>,
    /// Offset of the section's bytes in the file.
    pub file_offset: u64,
    /// Whether the address can be trusted.
    pub section_known: bool,
}

impl ObjSection {
    /// The bytes are exactly `size` long and the address range fits in 64 bits.
    pub open spec fn wf(&self) -> bool {
        &&& self.data@.len() == self.size
        &&& self.address + self.size <= u64::MAX
    }
}

/// A location: a section and a byte offset inside it.
#[derive(Debug, Clone, Copy, PartialEq, Eq, Structural, PartialOrd, Ord, Hash)]
pub struct SectionAddress {
    pub section: usize,
    pub offset: usize,
}

#[derive(Debug, Clone, Copy, PartialEq, Eq, Structural)]
pub enum ObjSymbolKind {
    Unknown,
    Function,
    Object,
}

pub struct ObjSymbol {
    pub name: String,
    pub address: u64,
    /// The owning section; none for an absolute symbol.
    pub section: Option<usize>,
    pub size: u64,
    pub size_known: bool,
    pub kind: ObjSymbolKind,
    /// Whether the library made the symbol up rather than read it.
    pub auto_generated: bool,
}

/// A function whose start and size come from an authoritative source, such
/// as an exception table.
#[derive(Debug, Clone, Copy, PartialEq, Eq, Structural)]
pub struct KnownFunction {
    pub start: SectionAddress,
    pub size: usize,
}

pub struct ObjInfo {
    pub kind: ObjKind,
    pub architecture: ObjArchitecture,
    pub name: String,
    pub entry: Option<u64>,
    pub sections: Vec<ObjSection>,
    pub symbols: Vec<ObjSymbol>,
    pub known_functions: Vec<KnownFunction>,
}

/// A symbol with a section lies inside it; an absolute symbol may lie anywhere.
pub open spec fn symbol_in_bounds(sections: Seq<ObjSection>, s: ObjSymbol) -> bool {
    match s.section {
        Some(i) => {
            &&& 0 <= i < sections.len()
            &&& sections[i as int].address <= s.address
            &&& s.address + s.size <= sections[i as int].address + sections[i as int].size
        },
        None => true,
    }
}

impl ObjInfo {
    /// Every section is well formed and every symbol lies in its section.
    pub open spec fn wf(&self) -> bool {
        &&& forall|i: int| 0 <= i < self.sections@.len() ==> self.sections@[i].wf()
        &&& forall|j: int|
            0 <= j < self.symbols@.len() ==> symbol_in_bounds(self.sections@, self.symbols@[j])
    }

    pub fn new(
        kind: ObjKind,
        architecture: ObjArchitecture,
        name: String,
        symbols: Vec<ObjSymbol>,
        sections: Vec<ObjSection>,
    ) -> (r: ObjInfo)
        ensures
            r.kind == kind,
            r.architecture == architecture,
            r.name@ == name@,
            r.entry is None,
            r.symbols@ == symbols@,
            r.sections@ == sections@,
            r.known_functions@.len() == 0,
    {
        ObjInfo {
            kind,
            architecture,
            name,
            entry: None,
            sections,
            symbols,
            known_functions: Vec::new(),
        }
    }

    /// Appends a symbol; the sections and the other symbols stay as they were.
    pub fn add_symbol(&mut self, symbol: ObjSymbol)
        requires
            old(self).wf(),
            symbol_in_bounds(old(self).sections@, symbol),
        ensures
            final(self).wf(),
            final(self).symbols@ == old(self).symbols@.push(symbol),
            final(self).sections@ == old(self).sections@,
            final(self).known_functions@ == old(self).known_functions@,
            final(self).name@ == old(self).name@,
            final(self).entry == old(self).entry,
            final(self).kind == old(self).kind,
            final(self).architecture == old(self).architecture,
    {
        self.symbols.push(symbol);
    }
}

} // verus!
