use gimli::write::{
    Address as GimliAddress, AttributeValue as GimliValue, DebugAbbrev, DebugInfo, DebugLine,
    DebugLineStr, DebugRanges, DebugRngLists, DebugStr, Dwarf, Error, LineProgram, LineString,
    Result as WriteResult, SectionId as GimliSectionId, Sections, Unit as GimliUnit, Writer,
};
use gimli::{DebugLineOffset, DwAt, DwTag, Encoding, LineEncoding, LittleEndian, RunTimeEndian};
use rustc_codegen_cranelift::debuginfo::{DebugContext, DebugSection};
use rustc_codegen_cranelift::driver::{
    Action, CodegenOutput, Driver, Event, Linkage, Mode, RLinkage, Visibility, WorkItem,
};
use rustc_codegen_cranelift::endian::Endian;
use rustc_codegen_cranelift::line::InstructionLocation;
use rustc_codegen_cranelift::strings::StringId;
use rustc_codegen_cranelift::unit::{Address, AttributeValue, UnitEntryId};
use rustc_codegen_cranelift::writer::{SectionId, WriteError, WriterRelocate};

struct SectionWriter<'a>(WriterRelocate<'a>);

fn gimli_error(e: WriteError) -> Error {
    match e {
        WriteError::OffsetOutOfBounds => Error::OffsetOutOfBounds,
        WriteError::LengthOutOfBounds => Error::LengthOutOfBounds,
        WriteError::ValueTooLarge => Error::ValueTooLarge,
        WriteError::UnsupportedWordSize(size) => Error::UnsupportedWordSize(size),
        WriteError::InvalidAddress => Error::InvalidAddress,
    }
}

fn section_id(id: GimliSectionId) -> SectionId {
    match id {
        GimliSectionId::DebugAbbrev => SectionId::DebugAbbrev,
        GimliSectionId::DebugInfo => SectionId::DebugInfo,
        GimliSectionId::DebugLine => SectionId::DebugLine,
        GimliSectionId::DebugLineStr => SectionId::DebugLineStr,
        GimliSectionId::DebugLoc => SectionId::DebugLoc,
        GimliSectionId::DebugLocLists => SectionId::DebugLocLists,
        GimliSectionId::DebugMacinfo => SectionId::DebugMacinfo,
        GimliSectionId::DebugRanges => SectionId::DebugRanges,
        GimliSectionId::DebugRngLists => SectionId::DebugRngLists,
        GimliSectionId::DebugStr => SectionId::DebugStr,
    }
}

impl<'a> Writer for SectionWriter<'a> {
    type Endian = RunTimeEndian;

    fn endian(&self) -> RunTimeEndian {
        match self.0.endian() {
            Endian::Little => RunTimeEndian::Little,
            Endian::Big => RunTimeEndian::Big,
        }
    }

    fn len(&self) -> usize {
        self.0.len()
    }

    fn write(&mut self, bytes: &[u8]) -> WriteResult<()> {
        self.0.write(bytes);
        Ok(())
    }

    fn write_at(&mut self, offset: usize, bytes: &[u8]) -> WriteResult<()> {
        self.0.write_at(offset, bytes).map_err(gimli_error)
    }

    fn write_address(&mut self, address: GimliAddress, size: u8) -> WriteResult<()> {
        let address = match address {
            GimliAddress::Absolute(val) => Address::Absolute(val),
            GimliAddress::Relative { symbol, addend } => Address::Relative { symbol, addend },
        };
        self.0.write_address(address, size).map_err(gimli_error)
    }

    fn write_offset(&mut self, val: usize, section: GimliSectionId, size: u8) -> WriteResult<()> {
        self.0.write_offset(val, section_id(section), size).map_err(gimli_error)
    }

    fn write_offset_at(
        &mut self,
        offset: usize,
        val: usize,
        section: GimliSectionId,
        size: u8,
    ) -> WriteResult<()> {
        self.0.write_offset_at(offset, val, section_id(section), size).map_err(gimli_error)
    }
}

fn compiled_context() -> (DebugContext, Driver) {
    let mut ctx = DebugContext::new(8, "/work");
    let mut driver = Driver::new(
        vec![
            WorkItem {
                name: "item_a".to_string(),
                linkage: RLinkage::External,
                visibility: Visibility::Default,
            },
            WorkItem {
                name: "item_b".to_string(),
                linkage: RLinkage::Internal,
                visibility: Visibility::Default,
            },
        ],
        Mode::Emit,
    );
    assert_eq!(driver.action(), Action::Codegen { item: 0, linkage: Linkage::Export });
    driver.step(
        &mut ctx,
        Event::Compiled(CodegenOutput {
            file: "main.rs".to_string(),
            line: 9,
            column: 1,
            code_size: 4,
            table: vec![InstructionLocation { offset: 0, line: Some(10) }],
        }),
    );
    assert_eq!(driver.action(), Action::Codegen { item: 1, linkage: Linkage::Local });
    driver.step(
        &mut ctx,
        Event::Compiled(CodegenOutput {
            file: "main.rs".to_string(),
            line: 20,
            column: 1,
            code_size: 0,
            table: Vec::new(),
        }),
    );
    driver.step(&mut ctx, Event::Finalized);
    assert_eq!(driver.action(), Action::Emit);
    (ctx, driver)
}

fn to_gimli(ctx: &DebugContext) -> Dwarf {
    assert!(ctx.check_references());
    let mut dwarf = Dwarf::new();
    let mut strings = Vec::new();
    for index in 0..ctx.strings().count() {
        strings.push(dwarf.strings.add(ctx.strings().get(StringId { index }).unwrap()));
    }
    let unit = ctx.unit();
    let encoding = Encoding {
        format: gimli::Format::Dwarf32,
        version: unit.version(),
        address_size: unit.address_size(),
    };
    let mut program = LineProgram::new(
        encoding,
        LineEncoding::default(),
        LineString::new(&b"/work"[..], encoding, &mut dwarf.line_strings),
        LineString::new(&b"main.rs"[..], encoding, &mut dwarf.line_strings),
        None,
    );
    let directory = program.default_directory();
    let file = program.add_file(
        LineString::new(&b"main.rs"[..], encoding, &mut dwarf.line_strings),
        directory,
        None,
    );
    for sequence in ctx.line_programs() {
        program.begin_sequence(Some(GimliAddress::Relative {
            symbol: sequence.symbol,
            addend: 0,
        }));
        for row in &sequence.rows {
            program.row().file = file;
            program.row().address_offset = row.address_offset;
            program.row().line = row.line;
            program.generate_row();
        }
        program.end_sequence(sequence.end_offset);
    }
    let mut out = GimliUnit::new(encoding, program);
    let mut entries = vec![out.root()];
    for index in 1..unit.count() {
        let id = UnitEntryId { index };
        let parent = entries[unit.parent(id).unwrap().index];
        entries.push(out.add(parent, DwTag(u64::from(unit.tag(id)))));
    }
    for index in 0..unit.count() {
        for attr in unit.attrs(UnitEntryId { index }) {
            let value = match attr.value {
                AttributeValue::Address(Address::Absolute(val)) => {
                    GimliValue::Address(GimliAddress::Absolute(val))
                }
                AttributeValue::Address(Address::Relative { symbol, addend }) => {
                    GimliValue::Address(GimliAddress::Relative { symbol, addend })
                }
                AttributeValue::Data1(b) => GimliValue::Data1(b[0]),
                AttributeValue::Data2(b) => GimliValue::Data2(u16::from_le_bytes(b)),
                AttributeValue::Data4(b) => GimliValue::Data4(u32::from_le_bytes(b)),
                AttributeValue::Data8(b) => GimliValue::Data8(u64::from_le_bytes(b)),
                AttributeValue::Udata(v) => GimliValue::Udata(v),
                AttributeValue::StringRef(id) => GimliValue::StringRef(strings[id.index]),
                AttributeValue::ThisUnitEntryRef(id) => {
                    GimliValue::ThisUnitEntryRef(entries[id.index])
                }
            };
            out.get_mut(entries[index]).set(DwAt(u64::from(attr.name)), value);
        }
    }
    dwarf.units.add(out);
    dwarf
}

fn written(ctx: &DebugContext) -> (Vec<DebugSection>, Vec<u8>) {
    let mut dwarf = to_gimli(ctx);
    let writer = || SectionWriter(WriterRelocate::new(ctx, Endian::Little));
    let mut sections = Sections {
        debug_abbrev: DebugAbbrev::from(writer()),
        debug_info: DebugInfo::from(writer()),
        debug_line: DebugLine::from(writer()),
        debug_line_str: DebugLineStr::from(writer()),
        debug_ranges: DebugRanges::from(writer()),
        debug_rnglists: DebugRngLists::from(writer()),
        debug_str: DebugStr::from(writer()),
    };
    dwarf.write(&mut sections).unwrap();
    let Sections { debug_abbrev, debug_info, debug_line, debug_str, .. } = sections;
    let (strings, string_relocs) = ((debug_str.0).0).into_parts();
    assert!(string_relocs.is_empty());
    let sections = ctx.emit((debug_abbrev.0).0, (debug_info.0).0, (debug_line.0).0).unwrap();
    (sections, strings)
}

#[test]
fn string_section_is_the_one_that_gimli_writes() {
    let (ctx, _) = compiled_context();
    let (sections, strings) = written(&ctx);
    assert_eq!(sections[2].name, ".debug_str");
    assert_eq!(sections[2].data, strings);
    assert_eq!(ctx.strings().serialize().0, strings);
}

#[test]
fn every_relocation_of_the_written_sections_has_a_zero_window() {
    let (ctx, _) = compiled_context();
    let (sections, _) = written(&ctx);
    let mut count = 0;
    for section in &sections {
        for reloc in &section.relocs {
            let start = reloc.offset as usize;
            let end = start + reloc.size as usize;
            assert!(end <= section.data.len());
            assert!(section.data[start..end].iter().all(|b| *b == 0));
            count += 1;
        }
    }
    assert!(count > 0);
    let targets: Vec<&str> = sections[1].relocs.iter().map(|r| r.name.as_str()).collect();
    assert!(targets.contains(&".debug_abbrev"));
    assert!(targets.contains(&".debug_str"));
    assert!(targets.contains(&".debug_line"));
    assert!(targets.contains(&"item_a"));
    assert!(targets.contains(&"item_b"));
    assert!(sections[3].relocs.iter().any(|r| r.name == "item_a" && r.addend == 0));
    assert!(!sections[3].relocs.iter().any(|r| r.name == "item_b"));
}

#[test]
fn line_section_holds_one_sequence_with_one_row() {
    let (ctx, driver) = compiled_context();
    assert_eq!(driver.records().len(), 2);
    let (sections, _) = written(&ctx);
    assert_eq!(sections[3].name, ".debug_line");
    let debug_line = gimli::DebugLine::new(&sections[3].data, LittleEndian);
    let program = debug_line.program(DebugLineOffset(0), 8, None, None).unwrap();
    let mut rows = program.rows();
    let mut seen = Vec::new();
    while let Some((_, row)) = rows.next_row().unwrap() {
        seen.push((row.address(), row.line(), row.end_sequence()));
    }
    assert_eq!(seen.len(), 2);
    assert_eq!(seen[0], (0, Some(10), false));
    assert_eq!((seen[1].0, seen[1].2), (4, true));
}
