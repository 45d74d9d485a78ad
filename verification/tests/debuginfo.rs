use rustc_codegen_cranelift::constants::{
    DW_AT_COMP_DIR, DW_AT_DECL_COLUMN, DW_AT_DECL_FILE, DW_AT_DECL_LINE, DW_AT_HIGH_PC,
    DW_AT_LANGUAGE, DW_AT_LINKAGE_NAME, DW_AT_LOW_PC, DW_AT_PRODUCER, DW_LANG_RUST,
    DW_TAG_COMPILE_UNIT, DW_TAG_SUBPROGRAM,
};
use rustc_codegen_cranelift::debuginfo::{
    DebugContext, DebugError, DebugSection, FunctionDebugContext, PRODUCER,
};
use rustc_codegen_cranelift::endian::Endian;
use rustc_codegen_cranelift::line::{InstructionLocation, LineRow, LineSequence};
use rustc_codegen_cranelift::strings::StringId;
use rustc_codegen_cranelift::unit::{Address, AttributeValue, Format, UnitEntryId};
use rustc_codegen_cranelift::writer::{DebugReloc, SectionId, WriterRelocate};

fn text(ctx: &DebugContext, value: Option<AttributeValue>) -> Vec<u8> {
    match value {
        Some(AttributeValue::StringRef(id)) => ctx.strings().get(id).unwrap().to_vec(),
        other => panic!("not a string: {:?}", other),
    }
}

#[test]
fn new_context_has_one_unit_with_root_attributes() {
    let ctx = DebugContext::new(8, "/work");
    assert_eq!(ctx.units().len(), 1);
    let unit = ctx.unit();
    assert_eq!(unit.version(), 4);
    assert_eq!(unit.address_size(), 8);
    assert_eq!(unit.format(), Format::Dwarf32);
    assert_eq!(unit.count(), 1);
    let root = unit.root();
    assert_eq!(unit.tag(root), DW_TAG_COMPILE_UNIT);
    assert_eq!(unit.parent(root), None);
    assert_eq!(text(&ctx, unit.get(root, DW_AT_PRODUCER)), PRODUCER.as_bytes());
    assert_eq!(
        PRODUCER,
        "cranelift fn (rustc version unknown version)"
    );
    assert_eq!(unit.get(root, DW_AT_LANGUAGE), Some(AttributeValue::Udata(DW_LANG_RUST)));
    assert_eq!(text(&ctx, unit.get(root, DW_AT_COMP_DIR)), b"/work");
    let kinds: Vec<u16> = unit.attrs(root).iter().map(|a| a.name).collect();
    assert_eq!(kinds, vec![DW_AT_PRODUCER, DW_AT_LANGUAGE, DW_AT_COMP_DIR]);
    assert_eq!(ctx.strings().count(), 2);
    assert_eq!(ctx.symbol_count(), 0);
    assert!(ctx.line_programs().is_empty());
}

#[test]
fn function_gets_entry_and_symbol() {
    let mut ctx = DebugContext::new(8, "/work");
    let f = FunctionDebugContext::new(&mut ctx, "_ZN4main", "main.rs", 3, 5);
    let g = FunctionDebugContext::new(&mut ctx, "_ZN5other", "main.rs", 9, 1);
    assert_eq!(
        f,
        FunctionDebugContext {
            entry_id: UnitEntryId { index: 1 },
            symbol: 0,
            file: StringId { index: 3 }
        }
    );
    assert_eq!(
        g,
        FunctionDebugContext {
            entry_id: UnitEntryId { index: 2 },
            symbol: 1,
            file: StringId { index: 3 }
        }
    );
    assert_eq!(ctx.strings().get(f.file), Some(&b"main.rs"[..]));
    assert_eq!(ctx.symbol_count(), 2);
    assert_eq!(ctx.symbol_name(0), "_ZN4main");
    assert_eq!(ctx.symbol_name(1), "_ZN5other");
    let unit = ctx.unit();
    assert_eq!(unit.children(unit.root()), &vec![f.entry_id, g.entry_id]);
    assert_eq!(unit.tag(f.entry_id), DW_TAG_SUBPROGRAM);
    assert_eq!(unit.parent(f.entry_id), Some(unit.root()));
    assert_eq!(text(&ctx, unit.get(f.entry_id, DW_AT_LINKAGE_NAME)), b"_ZN4main");
    assert_eq!(text(&ctx, unit.get(f.entry_id, DW_AT_DECL_FILE)), b"main.rs");
    assert_eq!(unit.get(f.entry_id, DW_AT_DECL_LINE), Some(AttributeValue::Udata(3)));
    assert_eq!(unit.get(f.entry_id, DW_AT_DECL_COLUMN), Some(AttributeValue::Udata(5)));
    assert_eq!(
        unit.get(g.entry_id, DW_AT_LOW_PC),
        Some(AttributeValue::Address(Address::Relative { symbol: 1, addend: 0 }))
    );
    // producer, directory, two names, one file
    assert_eq!(ctx.strings().count(), 5);
    assert!(ctx.has_function(&f));
    assert!(!ctx.has_function(&FunctionDebugContext {
        entry_id: UnitEntryId { index: 3 },
        symbol: 0,
        file: StringId { index: 0 }
    }));
    assert!(!ctx.has_function(&FunctionDebugContext {
        entry_id: UnitEntryId { index: 1 },
        symbol: 0,
        file: StringId { index: 5 }
    }));
}

#[test]
fn define_records_size_and_rows() {
    let mut ctx = DebugContext::new(8, "/work");
    let mut f = FunctionDebugContext::new(&mut ctx, "f", "main.rs", 3, 5);
    let table = vec![
        InstructionLocation { offset: 8, line: Some(12) },
        InstructionLocation { offset: 0, line: Some(10) },
        InstructionLocation { offset: 2, line: Some(10) },
        InstructionLocation { offset: 4, line: None },
        InstructionLocation { offset: 6, line: Some(11) },
        InstructionLocation { offset: 12, line: Some(10) },
    ];
    assert_eq!(f.define(&mut ctx, 0x0102_0304, &table), Ok(()));
    assert_eq!(
        ctx.unit().get(f.entry_id, DW_AT_HIGH_PC),
        Some(AttributeValue::Data8([4, 3, 2, 1, 0, 0, 0, 0]))
    );
    assert_eq!(
        ctx.line_programs(),
        &vec![LineSequence {
            symbol: 0,
            file: f.file,
            rows: vec![
                LineRow { address_offset: 0, line: 10 },
                LineRow { address_offset: 6, line: 11 },
                LineRow { address_offset: 8, line: 12 },
                LineRow { address_offset: 12, line: 10 },
            ],
            end_offset: 0x0102_0304,
        }]
    );
}

#[test]
fn define_without_table_adds_no_sequence() {
    let mut ctx = DebugContext::new(8, "/work");
    let mut f = FunctionDebugContext::new(&mut ctx, "f", "main.rs", 3, 5);
    assert_eq!(f.define(&mut ctx, 16, &Vec::new()), Ok(()));
    assert!(ctx.line_programs().is_empty());
    let unlocated = vec![InstructionLocation { offset: 0, line: None }];
    assert_eq!(f.define(&mut ctx, 16, &unlocated), Ok(()));
    assert_eq!(
        ctx.line_programs(),
        &vec![LineSequence { symbol: 0, file: f.file, rows: vec![], end_offset: 16 }]
    );
    assert_eq!(
        ctx.unit().get(f.entry_id, DW_AT_HIGH_PC),
        Some(AttributeValue::Data8([16, 0, 0, 0, 0, 0, 0, 0]))
    );
}

#[test]
fn define_refuses_what_is_wrong() {
    let mut ctx = DebugContext::new(8, "/work");
    let mut f = FunctionDebugContext::new(&mut ctx, "f", "main.rs", 3, 5);
    let beyond = vec![
        InstructionLocation { offset: 0, line: Some(1) },
        InstructionLocation { offset: 17, line: Some(2) },
    ];
    assert_eq!(f.define(&mut ctx, 16, &beyond), Err(DebugError::OffsetBeyondCode));
    assert_eq!(ctx.unit().get(f.entry_id, DW_AT_HIGH_PC), None);
    assert!(ctx.line_programs().is_empty());
    let at_end = vec![InstructionLocation { offset: 16, line: Some(2) }];
    assert_eq!(f.define(&mut ctx, 16, &at_end), Ok(()));

    let mut stranger = FunctionDebugContext {
        entry_id: UnitEntryId { index: 7 },
        symbol: 0,
        file: StringId { index: 0 },
    };
    assert_eq!(
        stranger.define(&mut ctx, 16, &Vec::new()),
        Err(DebugError::UnknownFunction)
    );
}

#[test]
fn emit_hands_out_four_sections_in_order() {
    let mut ctx = DebugContext::new(8, "/work");
    FunctionDebugContext::new(&mut ctx, "f", "main.rs", 3, 5);
    let mut abbrev = WriterRelocate::new(&ctx, Endian::Little);
    abbrev.write(&[1, 2]);
    let mut info = WriterRelocate::new(&ctx, Endian::Little);
    info.write_offset(0, SectionId::DebugAbbrev, 4).unwrap();
    info.write_address(Address::Relative { symbol: 0, addend: 0 }, 8).unwrap();
    let mut line = WriterRelocate::new(&ctx, Endian::Little);
    line.write(&[7]);
    let sections = ctx.emit(abbrev, info, line).unwrap();
    let mut strings = b"/work\0".to_vec();
    strings.extend_from_slice(PRODUCER.as_bytes());
    strings.extend_from_slice(b"\0f\0main.rs\0");
    assert_eq!(
        sections,
        vec![
            DebugSection { name: ".debug_abbrev".to_string(), data: vec![1, 2], relocs: vec![] },
            DebugSection {
                name: ".debug_info".to_string(),
                data: vec![0; 12],
                relocs: vec![
                    DebugReloc { offset: 0, size: 4, name: ".debug_abbrev".to_string(), addend: 0 },
                    DebugReloc { offset: 4, size: 8, name: "f".to_string(), addend: 0 },
                ],
            },
            DebugSection { name: ".debug_str".to_string(), data: strings, relocs: vec![] },
            DebugSection { name: ".debug_line".to_string(), data: vec![7], relocs: vec![] },
        ]
    );
}

#[test]
fn emit_refuses_dangling_references() {
    let ctx = DebugContext::new(8, "/work");
    assert!(ctx.check_references());
    let mut unit = rustc_codegen_cranelift::unit::Unit::new(4, 8, Format::Dwarf32);
    let root = unit.root();
    unit.set(root, DW_AT_PRODUCER, AttributeValue::StringRef(StringId { index: 3 }));
    assert!(!unit.check_references(3, 0));
    assert!(unit.check_references(4, 0));
    unit.set(root, DW_AT_LOW_PC, AttributeValue::Address(Address::Relative { symbol: 0, addend: 0 }));
    assert!(!unit.check_references(4, 0));
    assert!(unit.check_references(4, 1));
    unit.set(root, DW_AT_LOW_PC, AttributeValue::ThisUnitEntryRef(UnitEntryId { index: 1 }));
    assert!(!unit.check_references(4, 1));
}
