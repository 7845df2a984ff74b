use pef_tbtab::detect::{detect_functions, function_regions, scan_section};
use pef_tbtab::obj::{
    KnownFunction, ObjArchitecture, ObjInfo, ObjKind, ObjSection, ObjSectionKind, ObjSymbolKind,
    SectionAddress,
};

fn code_section(data: Vec<u8>) -> ObjSection {
    ObjSection {
        name: ".text".to_string(),
        kind: ObjSectionKind::Code,
        address: 0x1000,
        size: data.len() as u64,
        data,
        file_offset: 0x40,
        section_known: true,
    }
}

fn object_with(data: Vec<u8>) -> ObjInfo {
    ObjInfo::new(ObjKind::Executable, ObjArchitecture::PowerPc, "t".to_string(), vec![], vec![code_section(data)])
}

/// Code filled with `nop`, with a bare 12-byte traceback table at each offset.
fn code_with_tables(len: usize, tables: &[usize]) -> Vec<u8> {
    let mut data = Vec::new();
    while data.len() < len {
        data.extend_from_slice(&[0x60, 0x00, 0x00, 0x00]);
    }
    for &t in tables {
        for b in &mut data[t..t + 12] {
            *b = 0;
        }
    }
    data
}

#[test]
fn no_zero_word_no_functions() {
    let data = vec![0xff; 256];
    let (found, rejected) = scan_section(&data);
    assert!(found.is_empty());
    assert_eq!(rejected, 0);
    let mut obj = object_with(data);
    let report = detect_functions(&mut obj, &vec![]);
    assert_eq!(report.confirmed, 0);
    assert_eq!(report.tentative, 0);
    assert_eq!(report.discarded, 0);
    assert_eq!(report.rejected, 0);
    assert!(obj.symbols.is_empty());
}

#[test]
fn adjacent_tables_first_is_tentative() {
    let data = code_with_tables(0x190, &[0x100, 0x180]);
    let (found, _) = scan_section(&data);
    assert_eq!(found.len(), 2);
    assert_eq!(found[0].offset, 0x100);
    assert_eq!(found[0].next, 0x10c);
    assert_eq!(found[1].offset, 0x180);
    let (regions, _) = function_regions(&data, 0, &vec![]);
    assert_eq!(regions.len(), 2);
    assert_eq!(regions[0].start, None);
    assert_eq!(regions[0].end, SectionAddress { section: 0, offset: 0x100 });
    assert_eq!(regions[1].start, Some(0x10c));
    assert_eq!(regions[1].end, SectionAddress { section: 0, offset: 0x180 });

    let mut obj = object_with(data);
    let report = detect_functions(&mut obj, &vec![]);
    assert_eq!(report.confirmed, 1);
    assert_eq!(report.tentative, 1);
    assert_eq!(report.discarded, 0);
    assert_eq!(obj.symbols.len(), 1);
    let s = &obj.symbols[0];
    assert_eq!(s.address, 0x110c);
    assert_eq!(s.size, 0x74);
    assert!(s.size_known);
    assert_eq!(s.section, Some(0));
    assert_eq!(s.kind, ObjSymbolKind::Function);
    assert_eq!(s.name, "fn_0000110C");
}

#[test]
fn known_start_confirms_first_function() {
    let data = code_with_tables(0x190, &[0x100, 0x180]);
    let known = vec![KnownFunction { start: SectionAddress { section: 0, offset: 0 }, size: 0x100 }];
    let mut obj = object_with(data);
    let report = detect_functions(&mut obj, &known);
    assert_eq!(report.confirmed, 2);
    assert_eq!(report.tentative, 0);
    assert_eq!(obj.symbols[0].address, 0x1000);
    assert_eq!(obj.symbols[0].size, 0x100);
    assert_eq!(obj.symbols[0].name, "fn_00001000");
    assert_eq!(known[0].size, 0x100);
}

#[test]
fn conflicting_discovery_dropped() {
    let data = code_with_tables(0x190, &[0x100, 0x180]);
    let known = vec![KnownFunction { start: SectionAddress { section: 0, offset: 0x120 }, size: 0x10 }];
    let mut obj = object_with(data);
    let report = detect_functions(&mut obj, &known);
    assert_eq!(report.confirmed, 0);
    assert_eq!(report.discarded, 1);
    assert_eq!(report.tentative, 1);
    assert!(obj.symbols.is_empty());
    assert_eq!(known[0], KnownFunction { start: SectionAddress { section: 0, offset: 0x120 }, size: 0x10 });
}

#[test]
fn named_table_names_symbol() {
    let mut data = code_with_tables(0x40, &[]);
    let table = [0u8, 0, 0, 0, 0, 0, 0, 0x40, 0, 0, 0, 0, 0, 3, b'a', b'b', b'c', 0, 0, 0];
    data[0x20..0x34].copy_from_slice(&table);
    let known = vec![KnownFunction { start: SectionAddress { section: 0, offset: 0x8 }, size: 4 }];
    let (regions, _) = function_regions(&data, 0, &known);
    assert_eq!(regions.len(), 1);
    assert_eq!(regions[0].start, Some(0x8));
    assert_eq!(regions[0].name.as_deref(), Some("abc"));
    let mut obj = object_with(data);
    // [0x8, 0x20) overlaps the known [0x8, 0xc) without matching it
    let report = detect_functions(&mut obj, &known);
    assert_eq!(report.discarded, 1);
    let known2 = vec![KnownFunction { start: SectionAddress { section: 0, offset: 0x8 }, size: 0x18 }];
    let report2 = detect_functions(&mut obj, &known2);
    assert_eq!(report2.confirmed, 1);
    assert_eq!(obj.symbols[0].name, "abc");
    assert_eq!(obj.symbols[0].address, 0x1008);
}

#[test]
fn data_sections_not_scanned() {
    let data = code_with_tables(0x190, &[0x100, 0x180]);
    let mut section = code_section(data);
    section.kind = ObjSectionKind::Data;
    let mut obj = ObjInfo::new(ObjKind::Executable, ObjArchitecture::PowerPc, "t".to_string(), vec![], vec![section]);
    let report = detect_functions(&mut obj, &vec![]);
    assert_eq!(report.confirmed + report.tentative + report.discarded, 0);
}

#[test]
fn empty_section_has_no_tables() {
    assert!(scan_section(&[]).0.is_empty());
    assert!(function_regions(&[0, 0, 0], 0, &vec![]).0.is_empty());
}

#[test]
fn table_padding_past_end_ends_scan() {
    // a table whose one-byte alloca field leaves padding beyond the buffer
    let data = vec![0, 0, 0, 0, 0, 0, 0, 0x20, 0, 0, 0, 0, 7];
    let (found, _) = scan_section(&data);
    assert_eq!(found.len(), 1);
    assert_eq!(found[0].offset, 0);
    assert_eq!(found[0].next, data.len());
    assert_eq!(found[0].table.alloca_reg, Some(7));
}

#[test]
fn truncated_candidates_counted() {
    // zero words that announce an alloca byte past the end, then a whole table
    let mut data = code_with_tables(0x40, &[0x10]);
    let n = data.len();
    data[n - 4..].copy_from_slice(&[0, 0, 0, 0]);
    let (found, rejected) = scan_section(&data);
    assert_eq!(found.len(), 1);
    assert_eq!(found[0].offset, 0x10);
    assert_eq!(rejected, 1);
    let mut obj = object_with(data);
    let report = detect_functions(&mut obj, &vec![]);
    assert_eq!(report.rejected, 1);
    assert_eq!(report.tentative, 1);
}
