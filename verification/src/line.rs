//! Line rows: the table that maps the code offsets of a function back to
//! source lines.

use crate::strings::StringId;
use vstd::prelude::*;

verus! {

/// One entry of the instruction offset table of a function: where an
/// instruction lies in the code, and the source line it came from, if it is
/// known.
#[derive(Clone, Copy, Debug, PartialEq, Eq)]
pub struct InstructionLocation {
    pub offset: u32,
    pub line: Option<u64>,
}

/// One row of a line sequence: from this code offset on, the code belongs
/// to this source line.
#[derive(Clone, Copy, Debug, PartialEq, Eq, Structural)]
pub struct LineRow {
    pub address_offset: u64,
    pub line: u64,
}

/// The rows of one function, anchored at its code symbol and closed at the
/// end of its code. The lines are those of the file in which the function
/// is declared.
#[derive(Debug, PartialEq, Eq)]
pub struct LineSequence {
    pub symbol: usize,
    pub file: StringId,
    pub rows: Vec<LineRow>,
    pub end_offset: u64,
}

/// A line sequence as the contracts see it.
pub struct LineSequenceView {
    pub symbol: usize,
    pub file: StringId,
    pub rows: Seq<LineRow>,
    pub end_offset: u64,
}

impl View for LineSequence {
    type V = LineSequenceView;

    open spec fn view(&self) -> LineSequenceView {
        LineSequenceView {
            symbol: self.symbol,
            file: self.file,
            rows: self.rows@,
            end_offset: self.end_offset,
        }
    }
}

/// The offsets never decrease.
pub open spec fn ordered(table: Seq<InstructionLocation>) -> bool {
    forall|i: int, j: int| 0 <= i <= j < table.len() ==> table[i].offset <= table[j].offset
}

/// Instructions that come from different source lines lie at different
/// offsets.
pub open spec fn lines_apart(table: Seq<InstructionLocation>) -> bool {
    forall|i: int, j: int|
        0 <= i < table.len() && 0 <= j < table.len() && table[i].line is Some && table[j].line
            is Some && table[i].line != table[j].line ==> table[i].offset != table[j].offset
}

/// The number of entries at the front of `table` whose offset is at most
/// `offset`, counted up to the first entry beyond it.
pub open spec fn insertion_point(table: Seq<InstructionLocation>, offset: u32) -> nat
    decreases table.len(),
{
    if table.len() == 0 {
        0
    } else if table.last().offset <= offset {
        table.len()
    } else {
        insertion_point(table.drop_last(), offset)
    }
}

/// `table` with `entry` put behind the last entry whose offset is not
/// larger.
pub open spec fn inserted(
    table: Seq<InstructionLocation>,
    entry: InstructionLocation,
) -> Seq<InstructionLocation> {
    table.insert(insertion_point(table, entry.offset) as int, entry)
}

/// The entries of `table` in the order of their offsets; entries that share
/// an offset stay in the order in which they came.
pub open spec fn sorted_by_offset(table: Seq<InstructionLocation>) -> Seq<InstructionLocation>
    decreases table.len(),
{
    if table.len() == 0 {
        Seq::empty()
    } else {
        inserted(sorted_by_offset(table.drop_last()), table.last())
    }
}

/// The rows of a table that is in the order of its offsets: one row for
/// each run of entries that share a source line, at the offset of the first
/// entry of the run. Entries without a source line give no row and end no
/// run.
pub open spec fn rows_of(table: Seq<InstructionLocation>) -> Seq<LineRow>
    decreases table.len(),
{
    if table.len() == 0 {
        Seq::empty()
    } else {
        let rows = rows_of(table.drop_last());
        match table.last().line {
            None => rows,
            Some(line) => if rows.len() > 0 && rows.last().line == line {
                rows
            } else {
                rows.push(LineRow { address_offset: table.last().offset as u64, line })
            },
        }
    }
}

/// The address offsets increase from each row to the next.
pub open spec fn rows_increase(rows: Seq<LineRow>) -> bool {
    forall|i: int, j: int|
        0 <= i < j < rows.len() ==> rows[i].address_offset < rows[j].address_offset
}

/// The address offsets never decrease.
pub open spec fn rows_ordered(rows: Seq<LineRow>) -> bool {
    forall|i: int, j: int|
        0 <= i <= j < rows.len() ==> rows[i].address_offset <= rows[j].address_offset
}

/// No entry lies beyond `size`.
pub open spec fn within_code(table: Seq<InstructionLocation>, size: u32) -> bool {
    forall|i: int| 0 <= i < table.len() ==> table[i].offset <= size
}

/// Where an entry is inserted: behind entries that are not larger, before
/// entries that are larger.
proof fn lemma_insertion_point(table: Seq<InstructionLocation>, offset: u32)
    requires
        ordered(table),
    ensures
        insertion_point(table, offset) <= table.len(),
        forall|i: int| 0 <= i < insertion_point(table, offset) ==> table[i].offset <= offset,
        forall|i: int| insertion_point(table, offset) <= i < table.len() ==> table[i].offset > offset,
    decreases table.len(),
{
    if table.len() != 0 && table.last().offset > offset {
        let front = table.drop_last();
        assert forall|i: int, j: int| 0 <= i <= j < front.len() implies front[i].offset
            <= front[j].offset by {
            assert(front[i] == table[i] && front[j] == table[j]);
        }
        lemma_insertion_point(front, offset);
        assert forall|i: int| 0 <= i < insertion_point(table, offset) implies table[i].offset
            <= offset by {
            assert(front[i] == table[i]);
        }
        assert forall|i: int| insertion_point(table, offset) <= i < table.len() implies table[i].offset
            > offset by {
            if i < front.len() {
                assert(front[i] == table[i]);
            }
        }
    }
}

/// Sorting gives the same entries in the order of their offsets: the result
/// is as long as the table, its offsets never decrease, it holds each entry
/// as often as the table does, and no entry lies beyond `size` if none did
/// before.
pub proof fn lemma_sorted(table: Seq<InstructionLocation>)
    ensures
        sorted_by_offset(table).len() == table.len(),
        ordered(sorted_by_offset(table)),
        sorted_by_offset(table).to_multiset() == table.to_multiset(),
    decreases table.len(),
{
    if table.len() == 0 {
        assert(sorted_by_offset(table) =~= table);
    } else {
        let front = table.drop_last();
        let last = table.last();
        lemma_sorted(front);
        let s = sorted_by_offset(front);
        lemma_insertion_point(s, last.offset);
        let at = insertion_point(s, last.offset) as int;
        let r = s.insert(at, last);
        assert forall|i: int, j: int| 0 <= i <= j < r.len() implies r[i].offset
            <= r[j].offset by {
            let a = if i < at { i } else { i - 1 };
            let b = if j < at { j } else { j - 1 };
            if i != at && j != at {
                assert(s[a].offset <= s[b].offset);
            }
        }
        s.to_multiset_ensures();
        front.to_multiset_ensures();
        table.to_multiset_ensures();
        r.to_multiset_ensures();
        assert(table =~= front.push(last));
        vstd::seq_lib::to_multiset_insert(s, at, last);
    }
}

/// Two sequences that hold the same entries equally often hold the same
/// entries.
proof fn lemma_same_entries(a: Seq<InstructionLocation>, b: Seq<InstructionLocation>)
    requires
        a.to_multiset() == b.to_multiset(),
    ensures
        forall|i: int| 0 <= i < a.len() ==> b.contains(#[trigger] a[i]),
{
    a.to_multiset_ensures();
    b.to_multiset_ensures();
    assert forall|i: int| 0 <= i < a.len() implies b.contains(#[trigger] a[i]) by {
        assert(a.contains(a[i]));
        assert(a.to_multiset().count(a[i]) > 0);
    }
}

/// The rows of an ordered table: each row stands at the offset and the
/// line of an entry, none behind the last entry, and the offsets of the
/// rows never decrease. Where instructions from different lines lie at
/// different offsets, the offsets of the rows increase strictly.
pub proof fn lemma_rows(table: Seq<InstructionLocation>)
    requires
        ordered(table),
    ensures
        rows_of(table).len() <= table.len(),
        rows_ordered(rows_of(table)),
        forall|i: int|
            0 <= i < rows_of(table).len() ==> table.len() > 0 && (#[trigger] rows_of(
                table,
            )[i]).address_offset <= table.last().offset,
        forall|i: int|
            0 <= i < rows_of(table).len() ==> exists|k: int|
                0 <= k < table.len() && table[k].offset == (#[trigger] rows_of(
                    table,
                )[i]).address_offset && table[k].line == Some(rows_of(table)[i].line),
        lines_apart(table) ==> rows_increase(rows_of(table)),
    decreases table.len(),
{
    if table.len() > 0 {
        let front = table.drop_last();
        let last = table.last();
        assert forall|i: int, j: int| 0 <= i <= j < front.len() implies front[i].offset
            <= front[j].offset by {
            assert(front[i] == table[i] && front[j] == table[j]);
        }
        lemma_rows(front);
        let before = rows_of(front);
        let rows = rows_of(table);
        assert forall|i: int| 0 <= i < before.len() implies (#[trigger] before[i]).address_offset
            <= last.offset by {
            assert(front.last() == table[front.len() - 1]);
        }
        assert forall|i: int| 0 <= i < rows.len() implies exists|k: int|
            0 <= k < table.len() && table[k].offset == (#[trigger] rows[i]).address_offset
                && table[k].line == Some(rows[i].line) by {
            if i < before.len() {
                let k = choose|k: int|
                    0 <= k < front.len() && front[k].offset == before[i].address_offset
                        && front[k].line == Some(before[i].line);
                assert(table[k] == front[k]);
            } else {
                assert(table[table.len() - 1] == last);
            }
        }
        if lines_apart(table) {
            assert forall|i: int, j: int|
                0 <= i < front.len() && 0 <= j < front.len() && front[i].line is Some
                    && front[j].line is Some && front[i].line != front[j].line implies front[i].offset
                != front[j].offset by {
                assert(front[i] == table[i] && front[j] == table[j]);
            }
            if rows.len() > before.len() {
                assert forall|i: int| 0 <= i < before.len() implies (#[trigger] before[i]).address_offset
                    < last.offset by {
                    let tail = before.last();
                    let k = choose|k: int|
                        0 <= k < front.len() && front[k].offset == tail.address_offset
                            && front[k].line == Some(tail.line);
                    assert(table[k] == front[k]);
                    assert(table[table.len() - 1] == last);
                    assert(table[k].offset != last.offset);
                    assert(table[k].offset <= last.offset);
                    assert(before[i].address_offset <= tail.address_offset);
                }
            }
        }
    }
}

/// The rows of a function: whatever the order of its table, the rows made
/// from the sorted table never go back in the code and none lies beyond
/// the end of a code that holds every instruction, where the sequence is
/// closed. Where instructions from different lines lie at different
/// offsets, the offsets of the rows increase strictly.
pub proof fn lemma_rows_of_sorted(table: Seq<InstructionLocation>, size: u32)
    ensures
        rows_ordered(rows_of(sorted_by_offset(table))),
        within_code(table, size) ==> forall|i: int|
            0 <= i < rows_of(sorted_by_offset(table)).len() ==> (#[trigger] rows_of(
                sorted_by_offset(table),
            )[i]).address_offset <= size,
        lines_apart(table) ==> rows_increase(rows_of(sorted_by_offset(table))),
{
    let sorted = sorted_by_offset(table);
    lemma_sorted(table);
    lemma_same_entries(sorted, table);
    if lines_apart(table) {
        assert forall|i: int, j: int|
            0 <= i < sorted.len() && 0 <= j < sorted.len() && sorted[i].line is Some
                && sorted[j].line is Some && sorted[i].line != sorted[j].line implies sorted[i].offset
            != sorted[j].offset by {
            assert(table.contains(sorted[i]));
            assert(table.contains(sorted[j]));
            let x = choose|x: int| 0 <= x < table.len() && table[x] == sorted[i];
            let y = choose|y: int| 0 <= y < table.len() && table[y] == sorted[j];
            assert(table[x].offset != table[y].offset);
        }
    }
    lemma_rows(sorted);
    if within_code(table, size) && sorted.len() > 0 {
        assert(table.contains(sorted[sorted.len() - 1]));
    }
}

/// Whether no entry of `table` lies beyond `size`.
pub fn check_within_code(table: &Vec<InstructionLocation>, size: u32) -> (within: bool)
    ensures
        within == within_code(table@, size),
{
    let mut i: usize = 0;
    while i < table.len()
        invariant
            i <= table.len(),
            forall|k: int| 0 <= k < i ==> table@[k].offset <= size,
        decreases table.len() - i,
    {
        if table[i].offset > size {
            return false;
        }
        i = i + 1;
    }
    true
}

/// Sorts the table by offset. Entries that share an offset stay in the
/// order in which they came.
pub fn sort_by_offset(table: &Vec<InstructionLocation>) -> (sorted: Vec<InstructionLocation>)
    ensures
        sorted@ == sorted_by_offset(table@),
        sorted@.len() == table@.len(),
        ordered(sorted@),
{
    let mut sorted: Vec<InstructionLocation> = Vec::new();
    let mut i: usize = 0;
    proof {
        assert(table@.take(0) =~= Seq::empty());
    }
    while i < table.len()
        invariant
            i <= table.len(),
            sorted@ == sorted_by_offset(table@.take(i as int)),
        decreases table.len() - i,
    {
        let entry = table[i];
        proof {
            lemma_sorted(table@.take(i as int));
            lemma_insertion_point(sorted@, entry.offset);
        }
        let ghost before = sorted@;
        let mut at: usize = sorted.len();
        proof {
            assert(before.take(at as int) =~= before);
        }
        while at > 0 && sorted[at - 1].offset > entry.offset
            invariant
                at <= sorted.len(),
                sorted@ == before,
                insertion_point(before, entry.offset) == insertion_point(
                    before.take(at as int),
                    entry.offset,
                ),
            decreases at,
        {
            proof {
                assert(before.take(at as int).drop_last() =~= before.take(at - 1));
            }
            at = at - 1;
        }
        proof {
            if at > 0 {
                assert(before.take(at as int).last() == before[at - 1]);
            }
            assert(before.take(before.len() as int) =~= before);
            assert(insertion_point(before, entry.offset) == at);
            assert(table@.take(i + 1).drop_last() =~= table@.take(i as int));
        }
        sorted.insert(at, entry);
        i = i + 1;
    }
    proof {
        assert(table@.take(table@.len() as int) =~= table@);
        lemma_sorted(table@);
    }
    sorted
}

/// The rows of a table that is in the order of its offsets.
pub fn line_rows(table: &Vec<InstructionLocation>) -> (rows: Vec<LineRow>)
    ensures
        rows@ == rows_of(table@),
{
    let mut rows: Vec<LineRow> = Vec::new();
    let mut i: usize = 0;
    proof {
        assert(table@.take(0) =~= Seq::empty());
    }
    while i < table.len()
        invariant
            i <= table.len(),
            rows@ == rows_of(table@.take(i as int)),
        decreases table.len() - i,
    {
        proof {
            assert(table@.take(i + 1).drop_last() =~= table@.take(i as int));
        }
        match table[i].line {
            None => {},
            Some(line) => {
                let n = rows.len();
                if !(n > 0 && rows[n - 1].line == line) {
                    rows.push(LineRow { address_offset: table[i].offset as u64, line });
                }
            },
        }
        i = i + 1;
    }
    proof {
        assert(table@.take(table@.len() as int) =~= table@);
    }
    rows
}

} // verus!
