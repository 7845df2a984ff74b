use pef_tbtab::tbtab::{Language, ParamKind, TableError, TracebackTable, TracebackTableShort};

fn example_table() -> Vec<u8> {
    let mut b = vec![0x00, 0x00, 0x00, 0x00, 0x00, 0x00, 0x80, 0x40, 0x00, 0x00, 0x03, 0x00];
    b.extend_from_slice(&[0x12, 0x34, 0x56, 0x78]);
    b.extend_from_slice(&[0x00, 0x05]);
    b.extend_from_slice(b"tst_f");
    b
}

#[test]
fn example_header_fields() {
    let b = example_table();
    let h = TracebackTableShort::read(&b).unwrap();
    assert_eq!(h.reserved, 0);
    assert_eq!(h.type_, 0);
    assert_eq!(h.language(), Ok(Language::C));
    assert_eq!(h.flags1, 0x80);
    assert!(h.is_global_linkage());
    assert!(!h.is_out_of_line_prolog_epilog());
    assert!(!h.has_traceback_table_offset());
    assert!(!h.is_internal_procedure());
    assert!(!h.has_controlled_storage());
    assert!(!h.is_tocless());
    assert!(!h.is_floating_point_present());
    assert!(!h.log_abort_fp());
    assert_eq!(h.flags2, 0x40);
    assert!(h.name_present());
    assert!(!h.is_interupt_handler());
    assert!(!h.uses_alloca());
    assert!(!h.cr_saved());
    assert!(!h.lr_saved());
    assert_eq!(h.on_condition_directive(), 0);
    assert_eq!(h.get_number_of_fixed_parms(), 3);
    assert_eq!(h.get_number_of_fp_parms(), 0);
    assert_eq!(h.flags5, 0);
    assert_eq!(TracebackTableShort::size(), 12);
}

#[test]
fn example_record_size() {
    let b = example_table();
    let t = TracebackTable::read(&b, 0).unwrap();
    assert_eq!(t.parm_info, Some(0x1234_5678));
    assert_eq!(t.fnc_size, None);
    assert_eq!(t.hand_mask, None);
    assert!(t.ctl_info.is_none());
    assert_eq!(t.name.as_deref(), Some("tst_f"));
    assert_eq!(t.name_bytes.as_deref(), Some(&b"tst_f"[..]));
    assert_eq!(t.alloca_reg, None);
    assert_eq!(t.ext_size, 11);
    assert_eq!(t.size(), 24);
}

#[test]
fn nonzero_sentinel_rejected() {
    let mut b = example_table();
    b[3] = 1;
    assert!(matches!(TracebackTable::decode(&b, 0), Err(TableError::NotATable)));
    assert!(TracebackTable::read(&b, 0).is_none());
}

#[test]
fn truncated_name_rejected() {
    let b = example_table();
    for cut in 4..b.len() {
        assert!(
            matches!(TracebackTable::decode(&b[..cut], 0), Err(TableError::TruncatedRecord)),
            "cut at {}",
            cut
        );
    }
}

#[test]
fn short_buffer_rejected() {
    assert!(matches!(TracebackTable::decode(&[0, 0], 0), Err(TableError::TruncatedRecord)));
    assert!(matches!(TracebackTableShort::read(&[0; 11]), Err(TableError::TruncatedRecord)));
}

#[test]
fn all_fields_in_order() {
    // flags1: tb offset + controlled storage; flags2: interrupt, name, alloca;
    // flags5: 2 floating-point parameters.
    let mut b = vec![0, 0, 0, 0, 0, 9, 0x28, 0xe0, 0, 0, 0, 0x04];
    b.extend_from_slice(&[0xc0, 0, 0, 0]); // parameter types
    b.extend_from_slice(&[0, 0, 0x01, 0x00]); // function size
    b.extend_from_slice(&[0xff, 0xff, 0xff, 0xfe]); // handler mask
    b.extend_from_slice(&[0, 0, 0, 2, 0, 0, 0, 7, 0x80, 0, 0, 0]); // two anchors
    b.extend_from_slice(&[0, 1, b'f']); // name
    b.push(0xff); // alloca register
    let t = TracebackTable::read(&b, 0).unwrap();
    assert_eq!(t.short.language(), Ok(Language::Cpp));
    assert_eq!(t.short.get_number_of_fp_parms(), 2);
    assert_eq!(t.parm_info, Some(0xc000_0000));
    assert_eq!(t.fnc_size, Some(0x100));
    assert_eq!(t.hand_mask, Some(-2));
    assert_eq!(t.ctl_info, Some(vec![7, i32::MIN]));
    assert_eq!(t.name.as_deref(), Some("f"));
    assert_eq!(t.alloca_reg, Some(-1));
    assert_eq!(t.ext_size, 4 + 4 + 4 + 12 + 3 + 1);
    assert_eq!(t.size(), 40);
    assert_eq!(t.size() % 4, 0);
}

#[test]
fn negative_anchor_count_rejected() {
    let mut b = vec![0, 0, 0, 0, 0, 0, 0x08, 0, 0, 0, 0, 0];
    b.extend_from_slice(&[0xff, 0xff, 0xff, 0xff]);
    b.extend_from_slice(&[0; 16]);
    assert!(matches!(TracebackTable::decode(&b, 0), Err(TableError::TruncatedRecord)));
}

#[test]
fn oversized_anchor_count_rejected() {
    let mut b = vec![0, 0, 0, 0, 0, 0, 0x08, 0, 0, 0, 0, 0];
    b.extend_from_slice(&[0, 0, 0, 3]);
    b.extend_from_slice(&[0; 8]);
    assert!(matches!(TracebackTable::decode(&b, 0), Err(TableError::TruncatedRecord)));
}

#[test]
fn unknown_language_is_soft() {
    let b = vec![0, 0, 0, 0, 0, 42, 0, 0, 0, 0, 0, 0];
    let t = TracebackTable::read(&b, 0).unwrap();
    assert_eq!(t.short.language(), Err(42));
    assert_eq!(t.size(), 12);
}

#[test]
fn language_codes() {
    assert_eq!(Language::try_from(0), Ok(Language::C));
    assert_eq!(Language::try_from(8), Ok(Language::Modula2));
    assert_eq!(Language::try_from(12), Ok(Language::Asm));
    assert_eq!(Language::try_from(13), Err(13));
}

#[test]
fn multi_bit_fields() {
    let b = vec![0, 0, 0, 0, 0, 0, 0xff, 0x1f, 0xff, 0x7f, 0, 0xff];
    let h = TracebackTableShort::read(&b).unwrap();
    assert_eq!(h.on_condition_directive(), 7);
    assert!(h.cr_saved() && h.lr_saved());
    assert_eq!(h.fp_regs_saved(), 63);
    assert!(h.stores_bc() && h.is_fixup());
    assert_eq!(h.gpr_regs_saved(), 63);
    assert!(!h.has_ext_table());
    assert!(h.has_vector_info());
    // masked first, then shifted
    assert_eq!(h.get_number_of_fp_parms(), 127);
    assert!(h.params_on_stack());
    assert!(h.is_global_linkage() && h.log_abort_fp() && h.is_tocless());
}

#[test]
fn table_at_offset() {
    let mut b = vec![0x60, 0, 0, 0, 0x4e, 0x80, 0, 0x20];
    b.extend_from_slice(&example_table());
    assert!(TracebackTable::read(&b, 0).is_none());
    let t = TracebackTable::read(&b, 8).unwrap();
    assert_eq!(t.name.as_deref(), Some("tst_f"));
}

#[test]
fn invalid_utf8_name_keeps_table() {
    let mut b = vec![0, 0, 0, 0, 0, 0, 0, 0x40, 0, 0, 0, 0];
    b.extend_from_slice(&[0, 2, 0xff, 0xfe]);
    let t = TracebackTable::read(&b, 0).unwrap();
    assert_eq!(t.name, None);
    assert_eq!(t.name_bytes, Some(vec![0xff, 0xfe]));
    assert_eq!(t.ext_size, 4);
    assert_eq!(t.size(), 16);
    assert!(matches!(TracebackTable::decode(&b[..15], 0), Err(TableError::TruncatedRecord)));
}

#[test]
fn parameter_kinds_decoded() {
    // two fixed and one floating-point parameter: bits 0 10 0 ...
    let mut b = vec![0, 0, 0, 0, 0, 0, 0, 0, 0, 0, 2, 0x02];
    b.extend_from_slice(&[0x40, 0, 0, 0]);
    let t = TracebackTable::read(&b, 0).unwrap();
    assert_eq!(
        t.parameter_kinds(),
        Some(vec![ParamKind::Fixed, ParamKind::SingleFloat, ParamKind::Fixed])
    );
    // bits 0 11 0 ...
    b[12] = 0x60;
    let t = TracebackTable::read(&b, 0).unwrap();
    assert_eq!(
        t.parameter_kinds(),
        Some(vec![ParamKind::Fixed, ParamKind::DoubleFloat, ParamKind::Fixed])
    );
}

#[test]
fn parameter_kinds_absent() {
    let b = vec![0, 0, 0, 0, 0, 0, 0, 0, 0, 0, 0, 0];
    let t = TracebackTable::read(&b, 0).unwrap();
    assert_eq!(t.parm_info, None);
    assert_eq!(t.parameter_kinds(), None);
}

#[test]
fn extension_length_for_every_flag_combination() {
    for combo in 0u32..64 {
        let parm = combo & 1 != 0;
        let tbo = combo & 2 != 0;
        let hand = combo & 4 != 0;
        let ctl = combo & 8 != 0;
        let name = combo & 16 != 0;
        let alloca = combo & 32 != 0;
        let flags1 = if tbo { 0x20 } else { 0 } | if ctl { 0x08 } else { 0 };
        let flags2 = if hand { 0x80 } else { 0 } | if name { 0x40 } else { 0 } | if alloca { 0x20 } else { 0 };
        let fixed = if parm { 1 } else { 0 };
        let mut b = vec![0, 0, 0, 0, 0, 0, flags1, flags2, 0, 0, fixed, 0];
        let mut expected = 0;
        if parm {
            b.extend_from_slice(&[0, 0, 0, 0]);
            expected += 4;
        }
        if tbo {
            b.extend_from_slice(&[0, 0, 0, 0x40]);
            expected += 4;
        }
        if hand {
            b.extend_from_slice(&[0, 0, 0, 1]);
            expected += 4;
        }
        if ctl {
            b.extend_from_slice(&[0, 0, 0, 1, 0, 0, 0, 5]);
            expected += 8;
        }
        if name {
            b.extend_from_slice(&[0, 3, b'a', b'b', b'c']);
            expected += 5;
        }
        if alloca {
            b.push(31);
            expected += 1;
        }
        let t = TracebackTable::read(&b, 0).unwrap();
        assert_eq!(t.ext_size, expected, "combination {}", combo);
        assert_eq!(t.size() % 4, 0);
        assert!(t.size() >= 12 + expected && t.size() < 16 + expected);
        assert_eq!(t.parm_info.is_some(), parm);
        assert_eq!(t.fnc_size.is_some(), tbo);
        assert_eq!(t.hand_mask.is_some(), hand);
        assert_eq!(t.ctl_info.is_some(), ctl);
        assert_eq!(t.name.is_some(), name);
        assert_eq!(t.alloca_reg, if alloca { Some(31) } else { None });
        if expected > 0 {
            assert!(matches!(
                TracebackTable::decode(&b[..b.len() - 1], 0),
                Err(TableError::TruncatedRecord)
            ));
        }
    }
}
