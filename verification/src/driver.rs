//! The code generation driver: one pass over the work list, the linkage
//! class of each item, and the step from what the code generator reported
//! to what has to be done next.

use crate::debuginfo::{defined, started, DebugContext, DebugContextView, FunctionDebugContext};
use crate::line::{check_within_code, within_code, InstructionLocation};
use crate::strings::{interned, position_of, StringId};
use crate::unit::UnitEntryId;
use vstd::prelude::*;
use vstd::utf8::encode_utf8;

verus! {

/// The linkage that was requested for an item.
#[derive(Clone, Copy, Debug, PartialEq, Eq, Structural)]
pub enum RLinkage {
    External,
    Internal,
}

/// The visibility that was requested for an item.
#[derive(Clone, Copy, Debug, PartialEq, Eq, Structural)]
pub enum Visibility {
    Default,
    Hidden,
}

/// The linkage class under which an item is handed to the code generator.
#[derive(Clone, Copy, Debug, PartialEq, Eq, Structural)]
pub enum Linkage {
    Import,
    Local,
    Export,
}

/// A pair of linkage and visibility that has no linkage class.
#[derive(Clone, Copy, Debug, PartialEq, Eq, Structural)]
pub struct UnsupportedLinkage {
    pub linkage: RLinkage,
    pub visibility: Visibility,
}

/// The linkage class of a pair of requested linkage and visibility. An
/// external item is exported, whether it is hidden or not; an internal item
/// with default visibility is local; an internal hidden item has no class.
pub open spec fn linkage_class(linkage: RLinkage, visibility: Visibility) -> Option<Linkage> {
    match (linkage, visibility) {
        (RLinkage::External, Visibility::Default) => Some(Linkage::Export),
        (RLinkage::Internal, Visibility::Default) => Some(Linkage::Local),
        (RLinkage::External, Visibility::Hidden) => Some(Linkage::Export),
        (RLinkage::Internal, Visibility::Hidden) => None,
    }
}

/// Maps the requested linkage and visibility of an item to its linkage
/// class.
pub fn output_linkage(linkage: RLinkage, visibility: Visibility) -> (class: Result<
    Linkage,
    UnsupportedLinkage,
>)
    ensures
        match class {
            Ok(class) => linkage_class(linkage, visibility) == Some(class),
            Err(e) => linkage_class(linkage, visibility) is None && e == (UnsupportedLinkage {
                linkage,
                visibility,
            }),
        },
{
    match (linkage, visibility) {
        (RLinkage::External, Visibility::Default) => Ok(Linkage::Export),
        (RLinkage::Internal, Visibility::Default) => Ok(Linkage::Local),
        (RLinkage::External, Visibility::Hidden) => Ok(Linkage::Export),
        (RLinkage::Internal, Visibility::Hidden) => Err(UnsupportedLinkage { linkage, visibility }),
    }
}

/// One item of the work list.
#[derive(Debug, PartialEq, Eq)]
pub struct WorkItem {
    pub name: String,
    pub linkage: RLinkage,
    pub visibility: Visibility,
}

/// A work item as the contracts see it.
pub struct WorkItemView {
    pub name: Seq<char>,
    pub linkage: RLinkage,
    pub visibility: Visibility,
}

impl View for WorkItem {
    type V = WorkItemView;

    open spec fn view(&self) -> WorkItemView {
        WorkItemView { name: self.name@, linkage: self.linkage, visibility: self.visibility }
    }
}

/// What becomes of the finalized module.
#[derive(Clone, Copy, Debug, PartialEq, Eq, Structural)]
pub enum Mode {
    /// The entry point is run in this process.
    Jit,
    /// The module and the debug sections go to the object writer.
    Emit,
}

/// Why a run was given up.
#[derive(Clone, Copy, Debug, PartialEq, Eq, Structural)]
pub enum DriverError {
    /// The item has a linkage and visibility without a linkage class.
    UnsupportedLinkage { item: usize },
    /// The item could not be translated, or no code could be generated for
    /// it.
    CodegenFailed { item: usize },
    /// An instruction of the item lies beyond the end of its code.
    OffsetBeyondCode { item: usize },
    /// An event was reported that does not answer the pending action.
    UnexpectedEvent,
}

/// Where a run stands.
#[derive(Clone, Copy, Debug, PartialEq, Eq, Structural)]
pub enum Stage {
    /// The code of the next item is awaited, under this linkage class.
    Codegen { linkage: Linkage },
    /// Every item has its code; the module is to be finalized.
    Finalize,
    /// The module is finalized and is to be run or emitted.
    Finish,
    /// The run is complete.
    Done,
    /// The run was given up.
    Failed(DriverError),
}

/// What is to be done next.
#[derive(Clone, Copy, Debug, PartialEq, Eq, Structural)]
pub enum Action {
    /// Translate item `item` and generate its code under `linkage`.
    Codegen { item: usize, linkage: Linkage },
    /// Finalize the module.
    Finalize,
    /// Run the entry point of the finalized module.
    Execute,
    /// Hand the finalized module and the debug sections to the object
    /// writer.
    Emit,
    /// Nothing is left to do.
    Stop,
    /// Give the run up; nothing is finalized, run or emitted.
    Abort(DriverError),
}

/// What the code generator gave for one item.
#[derive(Debug, PartialEq, Eq)]
pub struct CodegenOutput {
    pub file: String,
    pub line: u64,
    pub column: u64,
    pub code_size: u32,
    pub table: Vec<InstructionLocation>,
}

/// What came of the pending action.
#[derive(Debug, PartialEq, Eq)]
pub enum Event {
    /// The code of the item was generated.
    Compiled(CodegenOutput),
    /// The item could not be translated, or no code could be generated.
    Failed,
    /// The module was finalized.
    Finalized,
    /// The module was run or emitted.
    Finished,
}

/// An event as the contracts see it.
pub enum EventView {
    Compiled {
        file: Seq<char>,
        line: u64,
        column: u64,
        code_size: u32,
        table: Seq<InstructionLocation>,
    },
    Failed,
    Finalized,
    Finished,
}

impl View for Event {
    type V = EventView;

    open spec fn view(&self) -> EventView {
        match self {
            Event::Compiled(output) => EventView::Compiled {
                file: output.file@,
                line: output.line,
                column: output.column,
                code_size: output.code_size,
                table: output.table@,
            },
            Event::Failed => EventView::Failed,
            Event::Finalized => EventView::Finalized,
            Event::Finished => EventView::Finished,
        }
    }
}

/// What the driver keeps of an item whose code was generated.
#[derive(Clone, Copy, Debug, PartialEq, Eq, Structural)]
pub struct FunctionRecord {
    pub item: usize,
    pub linkage: Linkage,
    pub function: FunctionDebugContext,
}

/// The driver as the contracts see it.
pub struct DriverView {
    pub items: Seq<WorkItemView>,
    pub mode: Mode,
    pub next: usize,
    pub stage: Stage,
    pub records: Seq<FunctionRecord>,
}

/// The driver of one run.
pub struct Driver {
    items: Vec<WorkItem>,
    mode: Mode,
    next: usize,
    stage: Stage,
    records: Vec<FunctionRecord>,
}

/// The work items of `items`, each as the contracts see it.
pub open spec fn item_views(items: Seq<WorkItem>) -> Seq<WorkItemView> {
    Seq::new(items.len(), |i: int| items[i]@)
}

/// The stage in which item `next` is taken up: the code of the item is
/// awaited, or the run is given up because the item has no linkage class,
/// or no item is left.
pub open spec fn entered(items: Seq<WorkItemView>, next: usize) -> Stage {
    if next >= items.len() {
        Stage::Finalize
    } else {
        match linkage_class(items[next as int].linkage, items[next as int].visibility) {
            Some(linkage) => Stage::Codegen { linkage },
            None => Stage::Failed(DriverError::UnsupportedLinkage { item: next }),
        }
    }
}

/// The driver at the start of a run.
pub open spec fn initial_driver(items: Seq<WorkItemView>, mode: Mode) -> DriverView {
    DriverView { items, mode, next: 0, stage: entered(items, 0), records: Seq::empty() }
}

/// The driver `d` in another stage.
pub open spec fn in_stage(d: DriverView, stage: Stage) -> DriverView {
    DriverView { items: d.items, mode: d.mode, next: d.next, stage, records: d.records }
}

/// What the driver in state `d` asks for.
pub open spec fn pending_action(d: DriverView) -> Action {
    match d.stage {
        Stage::Codegen { linkage } => Action::Codegen { item: d.next, linkage },
        Stage::Finalize => Action::Finalize,
        Stage::Finish => match d.mode {
            Mode::Jit => Action::Execute,
            Mode::Emit => Action::Emit,
        },
        Stage::Done => Action::Stop,
        Stage::Failed(e) => Action::Abort(e),
    }
}

/// The recorder that the debug context `ctx` gives the next function, a
/// function named `name` that is declared in `file`.
pub open spec fn next_function(
    ctx: DebugContextView,
    name: Seq<char>,
    file: Seq<char>,
) -> FunctionDebugContext {
    FunctionDebugContext {
        entry_id: UnitEntryId { index: ctx.units[ctx.unit_id as int].entries.len() as usize },
        symbol: ctx.symbol_names.len() as usize,
        file: StringId {
            index: position_of(interned(ctx.strings, encode_utf8(name)), encode_utf8(file)) as usize,
        },
    }
}

/// The debug context after the function of an item named `name` was
/// entered and defined.
pub open spec fn recorded(
    ctx: DebugContextView,
    name: Seq<char>,
    file: Seq<char>,
    line: u64,
    column: u64,
    code_size: u32,
    table: Seq<InstructionLocation>,
) -> DebugContextView {
    defined(
        started(ctx, name, file, line, column),
        next_function(ctx, name, file),
        code_size,
        table,
    )
}

/// The driver and the debug context after `event` was reported.
///
/// A run that was given up stays so. The code of an item is entered into
/// the debug context and the next item is taken up; an item that failed, or
/// whose instructions lie beyond its code, ends the run. After the last
/// item the module is finalized, then run or emitted. An event that does
/// not answer the pending action ends the run.
pub open spec fn stepped(d: DriverView, ctx: DebugContextView, event: EventView) -> (
    DriverView,
    DebugContextView,
) {
    match d.stage {
        Stage::Failed(_) => (d, ctx),
        Stage::Codegen { linkage } => match event {
            EventView::Compiled { file, line, column, code_size, table } => {
                if within_code(table, code_size) {
                    let item = d.items[d.next as int];
                    let record = FunctionRecord {
                        item: d.next,
                        linkage,
                        function: next_function(ctx, item.name, file),
                    };
                    let next = (d.next + 1) as usize;
                    (
                        DriverView {
                            items: d.items,
                            mode: d.mode,
                            next,
                            stage: entered(d.items, next),
                            records: d.records.push(record),
                        },
                        recorded(ctx, item.name, file, line, column, code_size, table),
                    )
                } else {
                    (
                        in_stage(d, Stage::Failed(DriverError::OffsetBeyondCode { item: d.next })),
                        ctx,
                    )
                }
            },
            EventView::Failed => (
                in_stage(d, Stage::Failed(DriverError::CodegenFailed { item: d.next })),
                ctx,
            ),
            _ => (in_stage(d, Stage::Failed(DriverError::UnexpectedEvent)), ctx),
        },
        Stage::Finalize => match event {
            EventView::Finalized => (in_stage(d, Stage::Finish), ctx),
            _ => (in_stage(d, Stage::Failed(DriverError::UnexpectedEvent)), ctx),
        },
        Stage::Finish => match event {
            EventView::Finished => (in_stage(d, Stage::Done), ctx),
            _ => (in_stage(d, Stage::Failed(DriverError::UnexpectedEvent)), ctx),
        },
        Stage::Done => (in_stage(d, Stage::Failed(DriverError::UnexpectedEvent)), ctx),
    }
}

/// The state of a driver is sound: the items before `next` are those whose
/// code was generated, each recorded once, in the order of the work list
/// and under its linkage class; the item whose code is awaited has a
/// linkage class; and the module is finalized, run or emitted only when no
/// item is left.
pub open spec fn driver_wf(d: DriverView) -> bool {
    &&& d.next <= d.items.len() <= usize::MAX
    &&& d.records.len() == d.next
    &&& forall|i: int|
        0 <= i < d.records.len() ==> (#[trigger] d.records[i]).item == i && linkage_class(
            d.items[i].linkage,
            d.items[i].visibility,
        ) == Some(d.records[i].linkage)
    &&& match d.stage {
        Stage::Codegen { linkage } => d.next < d.items.len() && linkage_class(
            d.items[d.next as int].linkage,
            d.items[d.next as int].visibility,
        ) == Some(linkage),
        Stage::Finalize | Stage::Finish | Stage::Done => d.next == d.items.len(),
        Stage::Failed(_) => true,
    }
}

/// A step keeps the state of the driver sound.
pub proof fn lemma_step_keeps_wf(d: DriverView, ctx: DebugContextView, event: EventView)
    requires
        driver_wf(d),
    ensures
        driver_wf(stepped(d, ctx, event).0),
{
    let after = stepped(d, ctx, event).0;
    assert forall|i: int| 0 <= i < after.records.len() implies (#[trigger] after.records[i]).item
        == i && linkage_class(after.items[i].linkage, after.items[i].visibility) == Some(
        after.records[i].linkage,
    ) by {
        if i < d.records.len() {
            assert(after.records[i] == d.records[i]);
        }
    }
}

/// A run that was given up stays given up: whatever is reported, the
/// driver and the debug context stay as they are, and the driver asks for
/// nothing but to abort.
pub proof fn lemma_failure_is_final(d: DriverView, ctx: DebugContextView, event: EventView)
    requires
        d.stage is Failed,
    ensures
        stepped(d, ctx, event) == (d, ctx),
        pending_action(d) is Abort,
{
}

/// All or nothing: the driver asks to finalize, run or emit only when the
/// code of every item of the work list was generated and recorded.
pub proof fn lemma_output_needs_every_item(d: DriverView)
    requires
        driver_wf(d),
        pending_action(d) is Finalize || pending_action(d) is Execute || pending_action(d) is Emit,
    ensures
        d.records.len() == d.items.len(),
        forall|i: int| 0 <= i < d.items.len() ==> (#[trigger] d.records[i]).item == i,
{
}

/// One pass in the order of the work list: the item whose code the driver
/// asks for is the first one that has no record yet, and a step that
/// records it asks for the one after it or, after the last, to finalize.
pub proof fn lemma_items_in_order(d: DriverView, ctx: DebugContextView, event: EventView)
    requires
        driver_wf(d),
        pending_action(d) is Codegen,
    ensures
        pending_action(d)->Codegen_item == d.records.len(),
        linkage_class(d.items[d.next as int].linkage, d.items[d.next as int].visibility) == Some(
            pending_action(d)->Codegen_linkage,
        ),
        match pending_action(stepped(d, ctx, event).0) {
            Action::Codegen { item, linkage } => item == d.records.len() + 1,
            Action::Finalize => d.records.len() + 1 == d.items.len(),
            Action::Abort(_) => true,
            _ => false,
        },
{
    lemma_step_keeps_wf(d, ctx, event);
}

impl View for Driver {
    type V = DriverView;

    closed spec fn view(&self) -> DriverView {
        DriverView {
            items: item_views(self.items@),
            mode: self.mode,
            next: self.next,
            stage: self.stage,
            records: self.records@,
        }
    }
}

impl Driver {
    /// The state of the driver is sound.
    pub open spec fn wf(&self) -> bool {
        driver_wf(self@)
    }

    /// A driver for one pass over `items`.
    pub fn new(items: Vec<WorkItem>, mode: Mode) -> (driver: Driver)
        ensures
            driver.wf(),
            driver@ == initial_driver(item_views(items@), mode),
    {
        let stage = Self::enter(&items, 0);
        let driver = Driver { items, mode, next: 0, stage, records: Vec::new() };
        assert(driver@.records =~= Seq::<FunctionRecord>::empty());
        driver
    }

    /// The stage in which item `next` is taken up.
    fn enter(items: &Vec<WorkItem>, next: usize) -> (stage: Stage)
        ensures
            stage == entered(item_views(items@), next),
            items@.len() <= usize::MAX,
    {
        if next >= items.len() {
            Stage::Finalize
        } else {
            match output_linkage(items[next].linkage, items[next].visibility) {
                Ok(linkage) => Stage::Codegen { linkage },
                Err(_) => Stage::Failed(DriverError::UnsupportedLinkage { item: next }),
            }
        }
    }

    /// What is to be done next.
    pub fn action(&self) -> (action: Action)
        requires
            self.wf(),
        ensures
            action == pending_action(self@),
    {
        match self.stage {
            Stage::Codegen { linkage } => Action::Codegen { item: self.next, linkage },
            Stage::Finalize => Action::Finalize,
            Stage::Finish => match self.mode {
                Mode::Jit => Action::Execute,
                Mode::Emit => Action::Emit,
            },
            Stage::Done => Action::Stop,
            Stage::Failed(e) => Action::Abort(e),
        }
    }

    /// Takes in what came of the pending action. The code of an item is
    /// entered into the debug context: the function gets its entry, its
    /// code symbol and its rows.
    pub fn step(&mut self, debug_context: &mut DebugContext, event: Event)
        requires
            old(self).wf(),
            old(debug_context).wf(),
        ensures
            final(self).wf(),
            final(debug_context).wf(),
            (final(self)@, final(debug_context)@) == stepped(
                old(self)@,
                old(debug_context)@,
                event@,
            ),
    {
        proof {
            lemma_step_keeps_wf(self@, debug_context@, event@);
        }
        match self.stage {
            Stage::Failed(_) => {},
            Stage::Codegen { linkage } => match event {
                Event::Compiled(output) => {
                    if check_within_code(&output.table, output.code_size) {
                        let item = &self.items[self.next];
                        let mut function = FunctionDebugContext::new(
                            debug_context,
                            item.name.as_str(),
                            output.file.as_str(),
                            output.line,
                            output.column,
                        );
                        let defined = function.define(
                            debug_context,
                            output.code_size,
                            &output.table,
                        );
                        assert(defined is Ok);
                        self.records.push(FunctionRecord { item: self.next, linkage, function });
                        self.next = self.next + 1;
                        self.stage = Self::enter(&self.items, self.next);
                    } else {
                        self.stage = Stage::Failed(
                            DriverError::OffsetBeyondCode { item: self.next },
                        );
                    }
                },
                Event::Failed => {
                    self.stage = Stage::Failed(DriverError::CodegenFailed { item: self.next });
                },
                _ => {
                    self.stage = Stage::Failed(DriverError::UnexpectedEvent);
                },
            },
            Stage::Finalize => match event {
                Event::Finalized => {
                    self.stage = Stage::Finish;
                },
                _ => {
                    self.stage = Stage::Failed(DriverError::UnexpectedEvent);
                },
            },
            Stage::Finish => match event {
                Event::Finished => {
                    self.stage = Stage::Done;
                },
                _ => {
                    self.stage = Stage::Failed(DriverError::UnexpectedEvent);
                },
            },
            Stage::Done => {
                self.stage = Stage::Failed(DriverError::UnexpectedEvent);
            },
        }
    }

    /// The work list.
    pub fn items(&self) -> (items: &Vec<WorkItem>)
        ensures
            item_views(items@) == self@.items,
    {
        &self.items
    }

    /// What became of the items whose code was generated, in the order of
    /// the work list.
    pub fn records(&self) -> (records: &Vec<FunctionRecord>)
        ensures
            records@ == self@.records,
    {
        &self.records
    }

    /// Where the run stands.
    pub fn stage(&self) -> (stage: Stage)
        ensures
            stage == self@.stage,
    {
        self.stage
    }

    /// What becomes of the finalized module.
    pub fn mode(&self) -> (mode: Mode)
        ensures
            mode == self@.mode,
    {
        self.mode
    }
}

} // verus!
