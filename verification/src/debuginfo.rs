//! The debug context of one compilation: string table, entry tree, code
//! symbols and line rows, and the functions that fill them.

use crate::constants::{
    DW_AT_COMP_DIR, DW_AT_DECL_COLUMN, DW_AT_DECL_FILE, DW_AT_DECL_LINE, DW_AT_HIGH_PC,
    DW_AT_LANGUAGE, DW_AT_LINKAGE_NAME, DW_AT_LOW_PC, DW_AT_PRODUCER, DW_LANG_RUST,
    DW_TAG_SUBPROGRAM,
};
use crate::endian::{le_bytes, le_u64};
use crate::line::{
    check_within_code, lemma_rows_of_sorted, line_rows, rows_of, rows_ordered, sort_by_offset,
    sorted_by_offset, within_code, InstructionLocation, LineSequence, LineSequenceView,
};
use crate::strings::{interned, position_of, section_of, StringId, StringTable};
use crate::unit::{
    entries_resolve, tree_wf, with_attribute, with_entry, Address, Attribute, AttributeValue,
    EntryView, Format, Unit, UnitEntryId, UnitView,
};
use crate::writer::{
    reloc_views, windows_zeroed, DebugReloc, DebugRelocView, SectionId, WriterRelocate, WriterView,
};
use gimli::write::SectionId as GimliSectionId;
use vstd::prelude::*;
use vstd::string::StringSliceAdditionalSpecFns;
use vstd::utf8::encode_utf8;

verus! {

/// The name under which this code generator enters itself as the producer
/// of a unit.
pub const PRODUCER: &'static str = "cranelift fn (rustc version unknown version)";

/// The DWARF version of the units.
pub const DWARF_VERSION: u16 = 4;

/// The debug context as the contracts see it.
pub struct DebugContextView {
    pub strings: Seq<Seq<u8>>,
    pub units: Seq<UnitView>,
    pub unit_id: usize,
    pub line_programs: Seq<LineSequenceView>,
    pub symbol_names: Seq<Seq<char>>,
}

/// The debug information of one compilation run.
pub struct DebugContext {
    strings: StringTable,
    units: Vec<Unit>,
    unit_id: usize,
    line_programs: Vec<LineSequence>,
    symbol_names: Vec<String>,
}

/// The recorder of one function: the entry and the code symbol that the
/// debug context gave the function, and the file in which the function is
/// declared.
#[derive(Clone, Copy, Debug, PartialEq, Eq, Structural)]
pub struct FunctionDebugContext {
    pub entry_id: UnitEntryId,
    pub symbol: usize,
    pub file: StringId,
}

/// Why the debug context refused a request.
#[derive(Clone, Copy, Debug, PartialEq, Eq, Structural)]
pub enum DebugError {
    /// The recorder does not belong to this debug context.
    UnknownFunction,
    /// An instruction lies beyond the end of the function's code.
    OffsetBeyondCode,
    /// An attribute refers to a string, an entry or a code symbol that does
    /// not exist.
    InvalidReference,
}

/// One section of debug information, ready for the object writer.
#[derive(Debug, PartialEq, Eq)]
pub struct DebugSection {
    pub name: String,
    pub data: Vec<u8>,
    pub relocs: Vec<DebugReloc>,
}

/// A section as the contracts see it.
pub struct DebugSectionView {
    pub name: Seq<char>,
    pub data: Seq<u8>,
    pub relocs: Seq<DebugRelocView>,
}

impl View for DebugSection {
    type V = DebugSectionView;

    open spec fn view(&self) -> DebugSectionView {
        DebugSectionView { name: self.name@, data: self.data@, relocs: reloc_views(self.relocs@) }
    }
}

/// The eight bytes `bytes` as a block.
pub open spec fn block8(bytes: Seq<u8>) -> [u8; 8] {
    choose|block: [u8; 8]| block@ == bytes
}

/// The line sequences of `sequences`, each as the contracts see it.
pub open spec fn sequence_views(sequences: Seq<LineSequence>) -> Seq<LineSequenceView> {
    Seq::new(sequences.len(), |i: int| sequences[i]@)
}

/// The rows of a sequence are in the order of their offsets, none lies
/// behind the end of the sequence, and the sequence belongs to a code
/// symbol and to a file that exist.
pub open spec fn sequence_wf(sequence: LineSequenceView, symbols: nat, strings: nat) -> bool {
    &&& sequence.symbol < symbols
    &&& sequence.file.index < strings
    &&& rows_ordered(sequence.rows)
    &&& forall|i: int|
        0 <= i < sequence.rows.len() ==> (#[trigger] sequence.rows[i]).address_offset
            <= sequence.end_offset
}

/// The state of a debug context is sound: no string is held twice, the
/// current unit exists, every unit holds a well-built tree, and every line
/// sequence is in order.
pub open spec fn context_wf(ctx: DebugContextView) -> bool {
    &&& ctx.strings.no_duplicates()
    &&& ctx.unit_id < ctx.units.len()
    &&& forall|i: int| 0 <= i < ctx.units.len() ==> tree_wf((#[trigger] ctx.units[i]).entries)
    &&& forall|i: int|
        0 <= i < ctx.line_programs.len() ==> sequence_wf(
            #[trigger] ctx.line_programs[i],
            ctx.symbol_names.len(),
            ctx.strings.len(),
        )
}

/// The root entry of a fresh unit with its attributes: producer, source
/// language and compilation directory.
pub open spec fn root_entry(comp_dir: StringId, producer: StringId) -> EntryView {
    EntryView {
        tag: crate::constants::DW_TAG_COMPILE_UNIT,
        parent: None,
        attrs: seq![
            Attribute { name: DW_AT_PRODUCER, value: AttributeValue::StringRef(producer) },
            Attribute { name: DW_AT_LANGUAGE, value: AttributeValue::Udata(DW_LANG_RUST) },
            Attribute { name: DW_AT_COMP_DIR, value: AttributeValue::StringRef(comp_dir) },
        ],
        children: Seq::empty(),
    }
}

/// The debug context at the start of a compilation in the directory
/// `comp_dir`: the string table holds the directory and the producer, each
/// once, and the one unit holds its root entry.
pub open spec fn initial_context(address_size: u8, comp_dir: Seq<char>) -> DebugContextView {
    let directory = encode_utf8(comp_dir);
    let strings = interned(seq![directory], PRODUCER.spec_bytes());
    let producer = StringId { index: position_of(seq![directory], PRODUCER.spec_bytes()) as usize };
    DebugContextView {
        strings,
        units: seq![
            UnitView {
                version: DWARF_VERSION,
                address_size,
                format: Format::Dwarf32,
                entries: seq![root_entry(StringId { index: 0 }, producer)],
            },
        ],
        unit_id: 0,
        line_programs: Seq::empty(),
        symbol_names: Seq::empty(),
    }
}

/// The entries of a unit after a function was entered: a subprogram entry
/// under the root, with its linkage name, its address relative to its code
/// symbol, and the file, line and column of its declaration.
pub open spec fn with_function(
    entries: Seq<EntryView>,
    name: StringId,
    file: StringId,
    symbol: usize,
    line: u64,
    column: u64,
) -> Seq<EntryView> {
    let id = UnitEntryId { index: entries.len() as usize };
    let e0 = with_entry(entries, UnitEntryId { index: 0 }, DW_TAG_SUBPROGRAM);
    let e1 = with_attribute(e0, id, DW_AT_LINKAGE_NAME, AttributeValue::StringRef(name));
    let e2 = with_attribute(
        e1,
        id,
        DW_AT_LOW_PC,
        AttributeValue::Address(Address::Relative { symbol, addend: 0 }),
    );
    let e3 = with_attribute(e2, id, DW_AT_DECL_FILE, AttributeValue::StringRef(file));
    let e4 = with_attribute(e3, id, DW_AT_DECL_LINE, AttributeValue::Udata(line));
    with_attribute(e4, id, DW_AT_DECL_COLUMN, AttributeValue::Udata(column))
}

/// The debug context after a function named `name`, declared at `line` and
/// `column` of `file`, was entered.
pub open spec fn started(
    ctx: DebugContextView,
    name: Seq<char>,
    file: Seq<char>,
    line: u64,
    column: u64,
) -> DebugContextView {
    let name_bytes = encode_utf8(name);
    let file_bytes = encode_utf8(file);
    let with_name = interned(ctx.strings, name_bytes);
    let name_id = StringId { index: position_of(ctx.strings, name_bytes) as usize };
    let file_id = StringId { index: position_of(with_name, file_bytes) as usize };
    let unit = ctx.units[ctx.unit_id as int];
    DebugContextView {
        strings: interned(with_name, file_bytes),
        units: ctx.units.update(
            ctx.unit_id as int,
            UnitView {
                version: unit.version,
                address_size: unit.address_size,
                format: unit.format,
                entries: with_function(
                    unit.entries,
                    name_id,
                    file_id,
                    ctx.symbol_names.len() as usize,
                    line,
                    column,
                ),
            },
        ),
        unit_id: ctx.unit_id,
        line_programs: ctx.line_programs,
        symbol_names: ctx.symbol_names.push(name),
    }
}

/// The line sequences after the code of a function was defined: one more
/// sequence where the function comes with a table of instructions, closed
/// at the end of its code; none where the table is empty.
pub open spec fn with_rows(
    sequences: Seq<LineSequenceView>,
    function: FunctionDebugContext,
    size: u32,
    table: Seq<InstructionLocation>,
) -> Seq<LineSequenceView> {
    if table.len() > 0 {
        sequences.push(
            LineSequenceView {
                symbol: function.symbol,
                file: function.file,
                rows: rows_of(sorted_by_offset(table)),
                end_offset: size as u64,
            },
        )
    } else {
        sequences
    }
}

/// The debug context after the code of a function was defined: its entry
/// holds the size of the code, and its rows are added.
pub open spec fn defined(
    ctx: DebugContextView,
    function: FunctionDebugContext,
    size: u32,
    table: Seq<InstructionLocation>,
) -> DebugContextView {
    let unit = ctx.units[ctx.unit_id as int];
    DebugContextView {
        strings: ctx.strings,
        units: ctx.units.update(
            ctx.unit_id as int,
            UnitView {
                version: unit.version,
                address_size: unit.address_size,
                format: unit.format,
                entries: with_attribute(
                    unit.entries,
                    function.entry_id,
                    DW_AT_HIGH_PC,
                    AttributeValue::Data8(block8(le_bytes(size as u64, 8))),
                ),
            },
        ),
        unit_id: ctx.unit_id,
        line_programs: with_rows(ctx.line_programs, function, size, table),
        symbol_names: ctx.symbol_names,
    }
}

/// Every attribute of every unit refers to a string, an entry or a code
/// symbol that exists.
pub open spec fn references_resolve(ctx: DebugContextView) -> bool {
    forall|u: int|
        0 <= u < ctx.units.len() ==> entries_resolve(
            (#[trigger] ctx.units[u]).entries,
            ctx.strings.len(),
            ctx.symbol_names.len(),
        )
}

/// The section named after `id` that holds what was written to `writer`.
pub open spec fn section_from(id: SectionId, writer: WriterView) -> DebugSectionView {
    DebugSectionView { name: id.name(), data: writer.bytes, relocs: writer.relocs }
}

/// The sections of the debug information in the order in which they are
/// handed out: abbreviations, entries, strings, line rows. The section of
/// strings is laid out from the string table and has no relocations.
pub open spec fn emitted(
    ctx: DebugContextView,
    debug_abbrev: WriterView,
    debug_info: WriterView,
    debug_line: WriterView,
) -> Seq<DebugSectionView> {
    seq![
        section_from(SectionId::DebugAbbrev, debug_abbrev),
        section_from(SectionId::DebugInfo, debug_info),
        DebugSectionView {
            name: SectionId::DebugStr.name(),
            data: section_of(ctx.strings),
            relocs: Seq::empty(),
        },
        section_from(SectionId::DebugLine, debug_line),
    ]
}

/// The sections of `sections`, each as the contracts see it.
pub open spec fn section_views(sections: Seq<DebugSection>) -> Seq<DebugSectionView> {
    Seq::new(sections.len(), |i: int| sections[i]@)
}

/// The debug context after `text` was interned.
pub open spec fn with_string(ctx: DebugContextView, text: Seq<u8>) -> DebugContextView {
    DebugContextView {
        strings: interned(ctx.strings, text),
        units: ctx.units,
        unit_id: ctx.unit_id,
        line_programs: ctx.line_programs,
        symbol_names: ctx.symbol_names,
    }
}

/// The debug context with `entries` as the entries of its current unit.
pub open spec fn with_entries(ctx: DebugContextView, entries: Seq<EntryView>) -> DebugContextView {
    let unit = ctx.units[ctx.unit_id as int];
    DebugContextView {
        strings: ctx.strings,
        units: ctx.units.update(
            ctx.unit_id as int,
            UnitView {
                version: unit.version,
                address_size: unit.address_size,
                format: unit.format,
                entries,
            },
        ),
        unit_id: ctx.unit_id,
        line_programs: ctx.line_programs,
        symbol_names: ctx.symbol_names,
    }
}

impl View for DebugContext {
    type V = DebugContextView;

    closed spec fn view(&self) -> DebugContextView {
        DebugContextView {
            strings: self.strings@,
            units: Seq::new(self.units@.len(), |i: int| self.units@[i]@),
            unit_id: self.unit_id,
            line_programs: sequence_views(self.line_programs@),
            symbol_names: Seq::new(self.symbol_names@.len(), |i: int| self.symbol_names@[i]@),
        }
    }
}

impl FunctionDebugContext {
    /// Enters a function into the debug context: creates its subprogram
    /// entry under the root of the unit, with the linkage name `name` and
    /// the place of its declaration, and allocates its code symbol.
    pub fn new(
        debug_context: &mut DebugContext,
        name: &str,
        file: &str,
        line: u64,
        column: u64,
    ) -> (function: FunctionDebugContext)
        requires
            old(debug_context).wf(),
        ensures
            final(debug_context).wf(),
            final(debug_context)@ == started(old(debug_context)@, name@, file@, line, column),
            function.entry_id.index == old(debug_context)@.units[old(
                debug_context,
            )@.unit_id as int].entries.len(),
            function.symbol == old(debug_context)@.symbol_names.len(),
            function.file.index == position_of(
                interned(old(debug_context)@.strings, encode_utf8(name@)),
                encode_utf8(file@),
            ),
            final(debug_context).owns(function),
    {
        let ghost before = debug_context@;
        let unit_id = debug_context.unit_id;
        let root = debug_context.units[unit_id].root();
        let entry_id = debug_context.units[unit_id].add(root, DW_TAG_SUBPROGRAM);
        let name_id = debug_context.strings.intern(name.as_bytes());
        let file_id = debug_context.strings.intern(file.as_bytes());
        debug_context.units[unit_id].set(
            entry_id,
            DW_AT_LINKAGE_NAME,
            AttributeValue::StringRef(name_id),
        );
        let symbol = debug_context.symbol_names.len();
        debug_context.symbol_names.push(name.to_owned());
        debug_context.units[unit_id].set(
            entry_id,
            DW_AT_LOW_PC,
            AttributeValue::Address(Address::Relative { symbol, addend: 0 }),
        );
        debug_context.units[unit_id].set(
            entry_id,
            DW_AT_DECL_FILE,
            AttributeValue::StringRef(file_id),
        );
        debug_context.units[unit_id].set(entry_id, DW_AT_DECL_LINE, AttributeValue::Udata(line));
        debug_context.units[unit_id].set(
            entry_id,
            DW_AT_DECL_COLUMN,
            AttributeValue::Udata(column),
        );
        proof {
            let after = debug_context@;
            let expected = started(before, name@, file@, line, column);
            crate::strings::lemma_intern_idempotent(before.strings, name.spec_bytes());
            crate::strings::lemma_intern_idempotent(
                interned(before.strings, name.spec_bytes()),
                file.spec_bytes(),
            );
            assert(after.units =~= expected.units);
            assert(after.symbol_names =~= expected.symbol_names);
            assert(after.line_programs =~= expected.line_programs);
            assert forall|i: int| 0 <= i < after.units.len() implies tree_wf(
                (#[trigger] after.units[i]).entries,
            ) by {
                if i != unit_id {
                    assert(after.units[i] == before.units[i]);
                }
            }
            assert forall|i: int| 0 <= i < after.line_programs.len() implies sequence_wf(
                #[trigger] after.line_programs[i],
                after.symbol_names.len(),
                after.strings.len(),
            ) by {
                assert(sequence_wf(
                    before.line_programs[i],
                    before.symbol_names.len(),
                    before.strings.len(),
                ));
            }
        }
        FunctionDebugContext { entry_id, symbol, file: file_id }
    }

    /// Records the code of the function: the size of the code in its entry
    /// and, where the function comes with a table of instructions, its
    /// sequence of rows. The table is brought into the order of its offsets;
    /// one row is made for each run of instructions that share a source
    /// line, and the sequence is closed at the end of the code.
    pub fn define(
        &mut self,
        debug_context: &mut DebugContext,
        size: u32,
        table: &Vec<InstructionLocation>,
    ) -> (result: Result<(), DebugError>)
        requires
            old(debug_context).wf(),
        ensures
            *final(self) == *old(self),
            final(debug_context).wf(),
            match result {
                Ok(()) => {
                    &&& old(debug_context).owns(*old(self))
                    &&& within_code(table@, size)
                    &&& final(debug_context)@ == defined(
                        old(debug_context)@,
                        *old(self),
                        size,
                        table@,
                    )
                },
                Err(e) => {
                    &&& final(debug_context)@ == old(debug_context)@
                    &&& if !old(debug_context).owns(*old(self)) {
                        e == DebugError::UnknownFunction
                    } else {
                        !within_code(table@, size) && e == DebugError::OffsetBeyondCode
                    }
                },
            },
    {
        if !debug_context.has_function(self) {
            return Err(DebugError::UnknownFunction);
        }
        if !check_within_code(table, size) {
            return Err(DebugError::OffsetBeyondCode);
        }
        let ghost before = debug_context@;
        let unit_id = debug_context.unit_id;
        let size_array = le_u64(size as u64);
        proof {
            assert(size_array =~= block8(le_bytes(size as u64, 8))) by {
                assert(size_array@ == le_bytes(size as u64, 8));
                assert(block8(le_bytes(size as u64, 8))@ == le_bytes(size as u64, 8));
            }
        }
        debug_context.units[unit_id].set(
            self.entry_id,
            DW_AT_HIGH_PC,
            AttributeValue::Data8(size_array),
        );
        let sorted = sort_by_offset(table);
        let rows = line_rows(&sorted);
        proof {
            lemma_rows_of_sorted(table@, size);
        }
        if table.len() > 0 {
            debug_context.line_programs.push(
                LineSequence {
                    symbol: self.symbol,
                    file: self.file,
                    rows,
                    end_offset: size as u64,
                },
            );
        }
        proof {
            let after = debug_context@;
            let expected = defined(before, *self, size, table@);
            assert(after.units =~= expected.units);
            assert(after.line_programs =~= expected.line_programs);
            assert(after.symbol_names =~= expected.symbol_names);
            assert forall|i: int| 0 <= i < after.units.len() implies tree_wf(
                (#[trigger] after.units[i]).entries,
            ) by {
                if i != unit_id {
                    assert(after.units[i] == before.units[i]);
                }
            }
            assert forall|i: int| 0 <= i < after.line_programs.len() implies sequence_wf(
                #[trigger] after.line_programs[i],
                after.symbol_names.len(),
                after.strings.len(),
            ) by {
                if i < before.line_programs.len() {
                    assert(sequence_wf(
                        before.line_programs[i],
                        before.symbol_names.len(),
                        before.strings.len(),
                    ));
                }
            }
        }
        Ok(())
    }
}

impl DebugContext {
    /// The state of the debug context is sound.
    pub open spec fn wf(&self) -> bool {
        context_wf(self@)
    }

    /// The recorder names an entry of the current unit, a code symbol and a
    /// string of this debug context.
    pub open spec fn owns(&self, function: FunctionDebugContext) -> bool {
        &&& function.entry_id.index < self@.units[self@.unit_id as int].entries.len()
        &&& function.symbol < self@.symbol_names.len()
        &&& function.file.index < self@.strings.len()
    }

    /// Starts the debug information of a compilation: one unit whose root
    /// entry names the producer, the source language and the compilation
    /// directory.
    pub fn new(address_size: u8, comp_dir: &str) -> (ctx: DebugContext)
        ensures
            ctx.wf(),
            ctx@ == initial_context(address_size, comp_dir@),
    {
        let mut units: Vec<Unit> = Vec::new();
        let mut strings = StringTable::new();
        let mut unit = Unit::new(DWARF_VERSION, address_size, Format::Dwarf32);
        let comp_dir_id = strings.intern(comp_dir.as_bytes());
        let root = unit.root();
        let producer_id = strings.intern(PRODUCER.as_bytes());
        let ghost producer = Attribute {
            name: DW_AT_PRODUCER,
            value: AttributeValue::StringRef(producer_id),
        };
        let ghost language = Attribute {
            name: DW_AT_LANGUAGE,
            value: AttributeValue::Udata(DW_LANG_RUST),
        };
        let ghost directory = Attribute {
            name: DW_AT_COMP_DIR,
            value: AttributeValue::StringRef(comp_dir_id),
        };
        proof {
            crate::unit::lemma_attr_position_is(Seq::empty(), DW_AT_PRODUCER, 0);
            crate::unit::lemma_attr_position_is(seq![producer], DW_AT_LANGUAGE, 1);
            crate::unit::lemma_attr_position_is(seq![producer, language], DW_AT_COMP_DIR, 2);
        }
        unit.set(root, DW_AT_PRODUCER, AttributeValue::StringRef(producer_id));
        assert(unit@.entries[0].attrs =~= seq![producer]);
        unit.set(root, DW_AT_LANGUAGE, AttributeValue::Udata(DW_LANG_RUST));
        assert(unit@.entries[0].attrs =~= seq![producer, language]);
        unit.set(root, DW_AT_COMP_DIR, AttributeValue::StringRef(comp_dir_id));
        assert(unit@.entries[0].attrs =~= seq![producer, language, directory]);
        units.push(unit);
        let ctx = DebugContext {
            strings,
            units,
            unit_id: 0,
            line_programs: Vec::new(),
            symbol_names: Vec::new(),
        };
        proof {
            let expected = initial_context(address_size, comp_dir@);
            let empty = Seq::<Seq<u8>>::empty();
            assert(interned(empty, comp_dir.spec_bytes()) =~= seq![comp_dir.spec_bytes()]);
            crate::strings::lemma_intern_idempotent(empty, comp_dir.spec_bytes());
            crate::strings::lemma_intern_idempotent(
                seq![comp_dir.spec_bytes()],
                PRODUCER.spec_bytes(),
            );
            assert(ctx@.units[0].entries =~= expected.units[0].entries) by {
                assert(ctx@.units[0].entries[0].attrs =~= expected.units[0].entries[0].attrs);
            }
            assert(ctx@.units =~= expected.units);
            assert(ctx@.line_programs =~= expected.line_programs);
            assert(ctx@.symbol_names =~= expected.symbol_names);
        }
        ctx
    }

    /// Interns `text` in the string table and returns its reference.
    pub fn intern(&mut self, text: &[u8]) -> (id: StringId)
        requires
            old(self).wf(),
        ensures
            final(self).wf(),
            final(self)@ == with_string(old(self)@, text@),
            id.index == position_of(old(self)@.strings, text@),
    {
        let id = self.strings.intern(text);
        proof {
            let before = old(self)@;
            assert(self@.units =~= before.units);
            assert(self@.symbol_names =~= before.symbol_names);
            assert(self@.line_programs =~= before.line_programs);
            assert forall|i: int| 0 <= i < self@.units.len() implies tree_wf(
                (#[trigger] self@.units[i]).entries,
            ) by {
                assert(self@.units[i] == before.units[i]);
            }
        }
        id
    }

    /// Creates an entry with tag `tag` in the current unit, as the last
    /// child of `parent`.
    pub fn add_entry(&mut self, parent: UnitEntryId, tag: u16) -> (id: UnitEntryId)
        requires
            old(self).wf(),
            parent.index < old(self)@.units[old(self)@.unit_id as int].entries.len(),
        ensures
            final(self).wf(),
            final(self)@ == with_entries(
                old(self)@,
                with_entry(old(self)@.units[old(self)@.unit_id as int].entries, parent, tag),
            ),
            id.index == old(self)@.units[old(self)@.unit_id as int].entries.len(),
    {
        let unit_id = self.unit_id;
        let id = self.units[unit_id].add(parent, tag);
        proof {
            let before = old(self)@;
            let expected = with_entries(
                before,
                with_entry(before.units[before.unit_id as int].entries, parent, tag),
            );
            assert(self@.units =~= expected.units);
            assert(self@.symbol_names =~= before.symbol_names);
            assert forall|i: int| 0 <= i < self@.units.len() implies tree_wf(
                (#[trigger] self@.units[i]).entries,
            ) by {
                if i != unit_id {
                    assert(self@.units[i] == before.units[i]);
                }
            }
        }
        id
    }

    /// Sets attribute `name` of `entry` of the current unit to `value`, in
    /// place of an earlier value of that kind.
    pub fn set_attribute(&mut self, entry: UnitEntryId, name: u16, value: AttributeValue)
        requires
            old(self).wf(),
            entry.index < old(self)@.units[old(self)@.unit_id as int].entries.len(),
        ensures
            final(self).wf(),
            final(self)@ == with_entries(
                old(self)@,
                with_attribute(
                    old(self)@.units[old(self)@.unit_id as int].entries,
                    entry,
                    name,
                    value,
                ),
            ),
    {
        let unit_id = self.unit_id;
        self.units[unit_id].set(entry, name, value);
        proof {
            let before = old(self)@;
            let expected = with_entries(
                before,
                with_attribute(before.units[before.unit_id as int].entries, entry, name, value),
            );
            assert(self@.units =~= expected.units);
            assert(self@.symbol_names =~= before.symbol_names);
            assert forall|i: int| 0 <= i < self@.units.len() implies tree_wf(
                (#[trigger] self@.units[i]).entries,
            ) by {
                if i != unit_id {
                    assert(self@.units[i] == before.units[i]);
                }
            }
        }
    }

    /// Whether the recorder names an entry of the current unit, a code
    /// symbol and a string of this debug context.
    pub fn has_function(&self, function: &FunctionDebugContext) -> (known: bool)
        requires
            self.wf(),
        ensures
            known == self.owns(*function),
    {
        function.entry_id.index < self.units[self.unit_id].count() && function.symbol
            < self.symbol_names.len() && self.strings.has(function.file)
    }

    /// Whether every attribute of every unit refers to a string, an entry
    /// or a code symbol that exists.
    pub fn check_references(&self) -> (resolved: bool)
        ensures
            resolved == references_resolve(self@),
    {
        let strings = self.strings.count();
        let symbols = self.symbol_names.len();
        let mut u: usize = 0;
        while u < self.units.len()
            invariant
                u <= self.units.len(),
                strings == self@.strings.len(),
                symbols == self@.symbol_names.len(),
                forall|k: int|
                    0 <= k < u ==> entries_resolve(
                        (#[trigger] self@.units[k]).entries,
                        strings as nat,
                        symbols as nat,
                    ),
            decreases self.units.len() - u,
        {
            if !self.units[u].check_references(strings, symbols) {
                assert(!entries_resolve(
                    self@.units[u as int].entries,
                    strings as nat,
                    symbols as nat,
                ));
                return false;
            }
            u = u + 1;
        }
        true
    }

    /// Hands out the sections of the debug information, in this order:
    /// abbreviations, entries, strings, line rows. The sections of
    /// abbreviations, entries and line rows hold what was written to their
    /// writers; the section of strings is laid out from the string table.
    /// Nothing is handed out where an attribute refers to what does not
    /// exist.
    pub fn emit(
        &self,
        debug_abbrev: WriterRelocate,
        debug_info: WriterRelocate,
        debug_line: WriterRelocate,
    ) -> (result: Result<Vec<DebugSection>, DebugError>)
        ensures
            match result {
                Ok(sections) => {
                    &&& references_resolve(self@)
                    &&& section_views(sections@) == emitted(
                        self@,
                        debug_abbrev@,
                        debug_info@,
                        debug_line@,
                    )
                    &&& forall|i: int|
                        0 <= i < 4 && debug_abbrev.windows_zeroed() && debug_info.windows_zeroed()
                            && debug_line.windows_zeroed() ==> windows_zeroed(
                            (#[trigger] sections@[i])@.data,
                            sections@[i]@.relocs,
                        )
                },
                Err(e) => !references_resolve(self@) && e == DebugError::InvalidReference,
            },
    {
        if !self.check_references() {
            return Err(DebugError::InvalidReference);
        }
        let mut debug_str = WriterRelocate::new(self, debug_abbrev.endian());
        let (strings, _) = self.strings.serialize();
        debug_str.write(strings.as_slice());
        assert(debug_str@.bytes =~= section_of(self@.strings));

        let mut sections: Vec<DebugSection> = Vec::new();
        let ghost abbrev_view = debug_abbrev@;
        let ghost info_view = debug_info@;
        let ghost str_view = debug_str@;
        let ghost line_view = debug_line@;
        sections.push(self.section(SectionId::DebugAbbrev, debug_abbrev));
        sections.push(self.section(SectionId::DebugInfo, debug_info));
        sections.push(self.section(SectionId::DebugStr, debug_str));
        sections.push(self.section(SectionId::DebugLine, debug_line));
        proof {
            assert(section_views(sections@) =~= emitted(self@, abbrev_view, info_view, line_view));
            assert(sections@[0]@ == section_from(SectionId::DebugAbbrev, abbrev_view));
            assert(sections@[1]@ == section_from(SectionId::DebugInfo, info_view));
            assert(sections@[2]@ == section_from(SectionId::DebugStr, str_view));
            assert(sections@[3]@ == section_from(SectionId::DebugLine, line_view));
        }
        Ok(sections)
    }

    /// The section named after `id` that holds what was written to
    /// `writer`.
    fn section(&self, id: SectionId, writer: WriterRelocate) -> (section: DebugSection)
        ensures
            section@ == section_from(id, writer@),
    {
        let name = self.section_name(id);
        let (data, relocs) = writer.into_parts();
        DebugSection { name, data, relocs }
    }

    /// The string table.
    pub fn strings(&self) -> (strings: &StringTable)
        ensures
            strings@ == self@.strings,
    {
        &self.strings
    }

    /// The unit that the functions are entered into.
    pub fn unit(&self) -> (unit: &Unit)
        requires
            self.wf(),
        ensures
            unit@ == self@.units[self@.unit_id as int],
            unit.wf(),
    {
        assert(tree_wf(self@.units[self.unit_id as int].entries));
        &self.units[self.unit_id]
    }

    /// The units.
    pub fn units(&self) -> (units: &Vec<Unit>)
        ensures
            units@.len() == self@.units.len(),
            forall|i: int| 0 <= i < units@.len() ==> (#[trigger] units@[i])@ == self@.units[i],
    {
        &self.units
    }

    /// The line sequences of the functions that have rows, in the order in
    /// which the functions were defined.
    pub fn line_programs(&self) -> (sequences: &Vec<LineSequence>)
        ensures
            sequence_views(sequences@) == self@.line_programs,
    {
        &self.line_programs
    }

    /// The number of code symbols that were allocated.
    pub fn symbol_count(&self) -> (n: usize)
        ensures
            n == self@.symbol_names.len(),
    {
        self.symbol_names.len()
    }

    /// The name of code symbol `symbol`.
    pub fn symbol_name(&self, symbol: usize) -> (name: &String)
        requires
            symbol < self@.symbol_names.len(),
        ensures
            name@ == self@.symbol_names[symbol as int],
    {
        &self.symbol_names[symbol]
    }

    /// The name of a section, as `gimli::write::SectionId::name` gives it:
    /// the ELF section name that belongs to the identifier.
    #[verifier::external_body]
    pub(crate) fn section_name(&self, id: SectionId) -> (name: String)
        ensures
            name@ == id.name(),
    {
        let id = match id {
            SectionId::DebugAbbrev => GimliSectionId::DebugAbbrev,
            SectionId::DebugInfo => GimliSectionId::DebugInfo,
            SectionId::DebugLine => GimliSectionId::DebugLine,
            SectionId::DebugLineStr => GimliSectionId::DebugLineStr,
            SectionId::DebugLoc => GimliSectionId::DebugLoc,
            SectionId::DebugLocLists => GimliSectionId::DebugLocLists,
            SectionId::DebugMacinfo => GimliSectionId::DebugMacinfo,
            SectionId::DebugRanges => GimliSectionId::DebugRanges,
            SectionId::DebugRngLists => GimliSectionId::DebugRngLists,
            SectionId::DebugStr => GimliSectionId::DebugStr,
        };
        id.name().to_string()
    }
}

} // verus!
