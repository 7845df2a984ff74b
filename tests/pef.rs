use pef_tbtab::obj::{ObjArchitecture, ObjKind, ObjSectionKind};
use pef_tbtab::pef::{process_pef, section_kind, PefError};

/// A container with one section per (kind, name offset, bytes), names "code\0data\0".
fn container(sections: &[(u8, i32, &[u8])]) -> Vec<u8> {
    let mut b = Vec::new();
    b.extend_from_slice(b"Joy!peffpwpc");
    b.extend_from_slice(&[0, 0, 0, 1]);
    b.extend_from_slice(&[0; 16]);
    b.extend_from_slice(&(sections.len() as u16).to_be_bytes());
    b.extend_from_slice(&[0; 6]);
    let names = b"code\0data\0";
    let mut data_off = 40 + 28 * sections.len() + names.len();
    for (i, (kind, name_off, bytes)) in sections.iter().enumerate() {
        b.extend_from_slice(&name_off.to_be_bytes());
        b.extend_from_slice(&(0x1000u32 * (i as u32 + 1)).to_be_bytes());
        b.extend_from_slice(&(bytes.len() as u32).to_be_bytes());
        b.extend_from_slice(&(bytes.len() as u32).to_be_bytes());
        b.extend_from_slice(&(bytes.len() as u32).to_be_bytes());
        b.extend_from_slice(&(data_off as u32).to_be_bytes());
        b.extend_from_slice(&[*kind, 0, 4, 0]);
        data_off += bytes.len();
    }
    b.extend_from_slice(names);
    for (_, _, bytes) in sections {
        b.extend_from_slice(bytes);
    }
    b
}

#[test]
fn decodes_sections() {
    let b = container(&[(0, 0, &[1, 2, 3, 4]), (1, 5, &[9, 8])]);
    let obj = process_pef(&b, "app").unwrap();
    assert_eq!(obj.name, "app");
    assert_eq!(obj.kind, ObjKind::Executable);
    assert_eq!(obj.architecture, ObjArchitecture::PowerPc);
    assert_eq!(obj.entry, None);
    assert!(obj.symbols.is_empty());
    assert_eq!(obj.sections.len(), 2);
    let s0 = &obj.sections[0];
    assert_eq!(s0.name, "code");
    assert_eq!(s0.kind, ObjSectionKind::Code);
    assert_eq!(s0.address, 0x1000);
    assert_eq!(s0.size, 4);
    assert_eq!(s0.data, vec![1, 2, 3, 4]);
    assert_eq!(s0.file_offset, 40 + 56 + 10);
    let s1 = &obj.sections[1];
    assert_eq!(s1.name, "data");
    assert_eq!(s1.kind, ObjSectionKind::Data);
    assert_eq!(s1.address, 0x2000);
    assert_eq!(s1.data, vec![9, 8]);
}

#[test]
fn bad_signature() {
    let mut b = container(&[(0, 0, &[1, 2, 3, 4])]);
    b[0] = b'j';
    assert_eq!(process_pef(&b, "x").err(), Some(PefError::FormatError));
    assert_eq!(process_pef(&b[..20], "x").err(), Some(PefError::FormatError));
}

#[test]
fn section_table_past_end() {
    let b = container(&[(0, 0, &[1, 2, 3, 4])]);
    assert_eq!(process_pef(&b[..50], "x").err(), Some(PefError::FormatError));
}

#[test]
fn unsupported_kind() {
    let b = container(&[(0, 0, &[1, 2, 3, 4]), (7, 5, &[9, 8])]);
    assert_eq!(process_pef(&b, "x").err(), Some(PefError::UnsupportedSectionKind(7)));
}

#[test]
fn missing_name() {
    let b = container(&[(0, -1, &[1, 2, 3, 4])]);
    assert_eq!(process_pef(&b, "x").err(), Some(PefError::FormatError));
}

#[test]
fn data_past_end() {
    let b = container(&[(0, 0, &[1, 2, 3, 4])]);
    assert_eq!(process_pef(&b[..b.len() - 1], "x").err(), Some(PefError::FormatError));
}

#[test]
fn kind_tags() {
    assert_eq!(section_kind(0), Some(ObjSectionKind::Code));
    assert_eq!(section_kind(2), Some(ObjSectionKind::Data));
    assert_eq!(section_kind(3), Some(ObjSectionKind::ReadOnlyData));
    assert_eq!(section_kind(4), Some(ObjSectionKind::ReadOnlyData));
    assert_eq!(section_kind(8), None);
}

#[test]
fn no_sections() {
    let b = container(&[]);
    let obj = process_pef(&b, "empty").unwrap();
    assert!(obj.sections.is_empty());
    assert_eq!(obj.name, "empty");
}

#[test]
fn overlapping_sections_rejected() {
    let mut b = container(&[(0, 0, &[1, 2, 3, 4]), (1, 5, &[9, 8])]);
    // point the second section's bytes into the first's
    let first_off = u32::from_be_bytes([b[40 + 20], b[40 + 21], b[40 + 22], b[40 + 23]]);
    let at = 40 + 28 + 20;
    b[at..at + 4].copy_from_slice(&(first_off + 1).to_be_bytes());
    assert_eq!(process_pef(&b, "x").err(), Some(PefError::FormatError));
}

#[test]
fn adjacent_sections_accepted() {
    let b = container(&[(0, 0, &[1, 2, 3, 4]), (3, 5, &[9, 8])]);
    let obj = process_pef(&b, "x").unwrap();
    assert_eq!(obj.sections[1].file_offset, obj.sections[0].file_offset + 4);
    assert_eq!(obj.sections[1].kind, ObjSectionKind::ReadOnlyData);
}
