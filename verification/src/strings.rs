//! The string table: deduplicated text blobs with stable reference ids, and
//! their layout as a section of NUL-terminated strings.

use vstd::prelude::*;

verus! {

/// A reference to a string of a [`StringTable`]: its position in insertion
/// order.
#[derive(Clone, Copy, Debug, PartialEq, Eq, Structural)]
pub struct StringId {
    pub index: usize,
}

/// An append-only table of distinct byte strings.
pub struct StringTable {
    strings: Vec<Vec<u8>>,
}

/// The strings of `strings`, each as a sequence of bytes.
pub open spec fn contents_of(strings: Seq<Vec<u8>>) -> Seq<Seq<u8>> {
    Seq::new(strings.len(), |i: int| strings[i]@)
}

/// The position of the first string equal to `text`, or the length of
/// `table` where there is none.
pub open spec fn position_of(table: Seq<Seq<u8>>, text: Seq<u8>) -> nat
    decreases table.len(),
{
    if table.len() == 0 {
        0
    } else if table[0] == text {
        0
    } else {
        1 + position_of(table.drop_first(), text)
    }
}

/// The table after `text` was interned: unchanged where it holds `text`
/// already, else with `text` at its end.
pub open spec fn interned(table: Seq<Seq<u8>>, text: Seq<u8>) -> Seq<Seq<u8>> {
    if position_of(table, text) < table.len() {
        table
    } else {
        table.push(text)
    }
}

/// The section that holds the first `n` strings of `table`: each string,
/// in insertion order, followed by one NUL byte.
pub open spec fn section_prefix(table: Seq<Seq<u8>>, n: nat) -> Seq<u8>
    decreases n,
{
    if n == 0 || n > table.len() {
        Seq::empty()
    } else {
        section_prefix(table, (n - 1) as nat) + table[n - 1].push(0u8)
    }
}

/// The whole section of `table`.
pub open spec fn section_of(table: Seq<Seq<u8>>) -> Seq<u8> {
    section_prefix(table, table.len())
}

/// The offset within the section at which string `i` of `table` begins.
pub open spec fn offset_of(table: Seq<Seq<u8>>, i: nat) -> nat {
    section_prefix(table, i).len()
}

/// No byte of `text` is NUL.
pub open spec fn nul_free(text: Seq<u8>) -> bool {
    forall|k: int| 0 <= k < text.len() ==> text[k] != 0u8
}

/// The text that a reader finds at `offset` of a section: the bytes from
/// there up to the next NUL byte.
pub open spec fn text_at(section: Seq<u8>, offset: int) -> Seq<u8>
    decreases section.len() - offset,
{
    if offset < 0 || offset >= section.len() || section[offset] == 0u8 {
        Seq::empty()
    } else {
        seq![section[offset]] + text_at(section, offset + 1)
    }
}

/// `position_of` finds `text` exactly where `table` holds it, and then at
/// its first occurrence.
pub proof fn lemma_position_of(table: Seq<Seq<u8>>, text: Seq<u8>)
    ensures
        position_of(table, text) <= table.len(),
        position_of(table, text) < table.len() <==> table.contains(text),
        position_of(table, text) < table.len() ==> table[position_of(table, text) as int] == text,
        forall|j: int| 0 <= j < position_of(table, text) ==> table[j] != text,
    decreases table.len(),
{
    if table.len() == 0 {
    } else if table[0] == text {
        assert(table.contains(text));
    } else {
        let rest = table.drop_first();
        lemma_position_of(rest, text);
        let p = position_of(rest, text);
        if p < rest.len() {
            assert(rest[p as int] == table[p as int + 1]);
            assert(table.contains(text));
        }
        if table.contains(text) {
            let k = choose|k: int| 0 <= k < table.len() && table[k] == text;
            assert(rest[k - 1] == text);
            assert(rest.contains(text));
        }
        assert forall|j: int| 0 <= j < position_of(table, text) implies table[j] != text by {
            if j > 0 {
                assert(rest[j - 1] == table[j]);
            }
        }
    }
}

/// Interning is idempotent: a text that was interned is found again under
/// the same reference, and the table holds it exactly once.
pub proof fn lemma_intern_idempotent(table: Seq<Seq<u8>>, text: Seq<u8>)
    requires
        table.no_duplicates(),
    ensures
        interned(interned(table, text), text) == interned(table, text),
        position_of(interned(table, text), text) == position_of(table, text),
        interned(table, text).no_duplicates(),
        forall|i: int|
            0 <= i < interned(table, text).len() ==> (interned(table, text)[i] == text <==> i
                == position_of(table, text)),
{
    lemma_position_of(table, text);
    let after = interned(table, text);
    let p = position_of(table, text);
    assert(after[p as int] == text);
    assert(after.no_duplicates()) by {
        assert forall|i: int, j: int|
            0 <= i < after.len() && 0 <= j < after.len() && i != j implies after[i] != after[j] by {
            if p == table.len() {
                if i == p {
                    assert(table[j] != text);
                }
                if j == p {
                    assert(table[i] != text);
                }
            }
        }
    }
    lemma_position_of(after, text);
    assert(after.contains(text));
    let q = position_of(after, text);
    assert(after[q as int] == text);
    assert(q == p);
}

/// Interning a second text leaves every earlier reference in place.
pub proof fn lemma_intern_stable(table: Seq<Seq<u8>>, text: Seq<u8>, i: int)
    requires
        0 <= i < table.len(),
    ensures
        interned(table, text).len() >= table.len(),
        interned(table, text)[i] == table[i],
{
}

/// Where a string lies in the section: string `i` begins at its offset and
/// is followed by a NUL byte, behind which the next string begins.
pub proof fn lemma_section_layout(table: Seq<Seq<u8>>, i: int)
    requires
        0 <= i < table.len(),
    ensures
        offset_of(table, i as nat) + table[i].len() < section_of(table).len(),
        section_of(table).subrange(
            offset_of(table, i as nat) as int,
            offset_of(table, i as nat) as int + table[i].len(),
        ) == table[i],
        section_of(table)[offset_of(table, i as nat) as int + table[i].len()] == 0u8,
        offset_of(table, (i + 1) as nat) == offset_of(table, i as nat) + table[i].len() + 1,
{
    lemma_prefix_extends(table, (i + 1) as nat, table.len());
    let head = section_prefix(table, i as nat);
    let next = section_prefix(table, (i + 1) as nat);
    assert(next == head + table[i].push(0u8));
    let whole = section_of(table);
    let off = head.len() as int;
    assert(whole.subrange(off, off + table[i].len()) =~= table[i]) by {
        assert forall|k: int| 0 <= k < table[i].len() implies whole[off + k] == table[i][k] by {
            assert(whole[off + k] == next[off + k]);
        }
    }
    assert(whole[off + table[i].len()] == next[off + table[i].len()]);
}

/// A text that was interned is one string of the section: it stands at the
/// offset of its reference and is followed by a NUL byte, and no other
/// reference of the table leads to it.
pub proof fn lemma_interned_in_section(table: Seq<Seq<u8>>, text: Seq<u8>)
    requires
        table.no_duplicates(),
    ensures
        ({
            let after = interned(table, text);
            let at = position_of(table, text);
            let offset = offset_of(after, at) as int;
            &&& at < after.len()
            &&& forall|i: int| 0 <= i < after.len() ==> (after[i] == text <==> i == at)
            &&& offset + text.len() < section_of(after).len()
            &&& section_of(after).subrange(offset, offset + text.len()) == text
            &&& section_of(after)[offset + text.len()] == 0u8
        }),
{
    lemma_position_of(table, text);
    lemma_intern_idempotent(table, text);
    lemma_section_layout(interned(table, text), position_of(table, text) as int);
}

/// A reader finds at `offset` the bytes that stand there, where they hold
/// no NUL byte and a NUL byte follows them.
proof fn lemma_text_at(section: Seq<u8>, offset: int, len: int)
    requires
        0 <= offset,
        0 <= len,
        offset + len < section.len(),
        nul_free(section.subrange(offset, offset + len)),
        section[offset + len] == 0u8,
    ensures
        text_at(section, offset) == section.subrange(offset, offset + len),
    decreases len,
{
    let text = section.subrange(offset, offset + len);
    if len == 0 {
        assert(text =~= Seq::empty());
    } else {
        assert(text[0] == section[offset]);
        let rest = section.subrange(offset + 1, offset + len);
        assert forall|k: int| 0 <= k < rest.len() implies #[trigger] rest[k] != 0u8 by {
            assert(text[k + 1] == rest[k]);
        }
        lemma_text_at(section, offset + 1, len - 1);
        assert(text =~= seq![section[offset]] + section.subrange(offset + 1, offset + len));
    }
}

/// The offsets resolve the references: a reader of the section finds, at
/// the offset of a string that holds no NUL byte, this string.
pub proof fn lemma_offset_resolves(table: Seq<Seq<u8>>, i: int)
    requires
        0 <= i < table.len(),
        nul_free(table[i]),
    ensures
        text_at(section_of(table), offset_of(table, i as nat) as int) == table[i],
{
    lemma_section_layout(table, i);
    lemma_text_at(section_of(table), offset_of(table, i as nat) as int, table[i].len() as int);
}

/// A shorter prefix of the section is a prefix of a longer one.
proof fn lemma_prefix_extends(table: Seq<Seq<u8>>, n: nat, m: nat)
    requires
        n <= m <= table.len(),
    ensures
        section_prefix(table, n).len() <= section_prefix(table, m).len(),
        forall|k: int|
            0 <= k < section_prefix(table, n).len() ==> section_prefix(table, m)[k]
                == section_prefix(table, n)[k],
    decreases m - n,
{
    if n < m {
        lemma_prefix_extends(table, n, (m - 1) as nat);
    }
}

/// Whether two byte strings are equal.
pub fn bytes_eq(a: &[u8], b: &[u8]) -> (equal: bool)
    ensures
        equal == (a@ == b@),
{
    if a.len() != b.len() {
        return false;
    }
    let mut i: usize = 0;
    while i < a.len()
        invariant
            i <= a.len(),
            a.len() == b.len(),
            forall|k: int| 0 <= k < i ==> a@[k] == b@[k],
        decreases a.len() - i,
    {
        if a[i] != b[i] {
            return false;
        }
        i = i + 1;
    }
    assert(a@ =~= b@);
    true
}

/// Whether no byte of `text` is NUL.
pub fn is_nul_free(text: &[u8]) -> (free: bool)
    ensures
        free == nul_free(text@),
{
    let mut i: usize = 0;
    while i < text.len()
        invariant
            i <= text.len(),
            forall|k: int| 0 <= k < i ==> text@[k] != 0u8,
        decreases text.len() - i,
    {
        if text[i] == 0 {
            return false;
        }
        i = i + 1;
    }
    true
}

impl View for StringTable {
    type V = Seq<Seq<u8>>;

    closed spec fn view(&self) -> Seq<Seq<u8>> {
        contents_of(self.strings@)
    }
}

impl StringTable {
    /// No string occurs twice.
    pub open spec fn wf(&self) -> bool {
        self@.no_duplicates()
    }

    /// Whether `id` refers to a string of this table.
    pub open spec fn contains_id(&self, id: StringId) -> bool {
        id.index < self@.len()
    }

    /// An empty table.
    pub fn new() -> (table: StringTable)
        ensures
            table@ == Seq::<Seq<u8>>::empty(),
            table.wf(),
    {
        let table = StringTable { strings: Vec::new() };
        assert(table@ =~= Seq::<Seq<u8>>::empty());
        table
    }

    /// The number of strings in the table.
    pub fn count(&self) -> (n: usize)
        ensures
            n == self@.len(),
    {
        self.strings.len()
    }

    /// Whether `id` refers to a string of this table.
    pub fn has(&self, id: StringId) -> (known: bool)
        ensures
            known == self.contains_id(id),
    {
        id.index < self.strings.len()
    }

    /// The string that `id` refers to, or `None` for a reference that this
    /// table did not hand out.
    pub fn get(&self, id: StringId) -> (text: Option<&[u8]>)
        ensures
            match text {
                Some(bytes) => self.contains_id(id) && bytes@ == self@[id.index as int],
                None => !self.contains_id(id),
            },
    {
        if id.index < self.strings.len() {
            Some(self.strings[id.index].as_slice())
        } else {
            None
        }
    }

    /// Returns the reference of `text`, adding it to the table where the
    /// table does not hold it yet.
    pub fn intern(&mut self, text: &[u8]) -> (id: StringId)
        requires
            old(self).wf(),
        ensures
            final(self).wf(),
            final(self)@ == interned(old(self)@, text@),
            id.index == position_of(old(self)@, text@),
            final(self).contains_id(id),
            final(self)@[id.index as int] == text@,
    {
        let ghost before = self@;
        let mut i: usize = 0;
        while i < self.strings.len()
            invariant
                i <= self.strings.len(),
                self@ == before,
                before.no_duplicates(),
                forall|k: int| 0 <= k < i ==> before[k] != text@,
            decreases self.strings.len() - i,
        {
            if bytes_eq(self.strings[i].as_slice(), text) {
                proof {
                    assert(before[i as int] == text@);
                    lemma_position_of(before, text@);
                    lemma_intern_idempotent(before, text@);
                }
                return StringId { index: i };
            }
            i = i + 1;
        }
        proof {
            lemma_position_of(before, text@);
            lemma_intern_idempotent(before, text@);
        }
        let mut owned: Vec<u8> = Vec::new();
        owned.extend_from_slice(text);
        assert(owned@ =~= text@);
        self.strings.push(owned);
        assert(self@ =~= before.push(text@));
        StringId { index: i }
    }

    /// Lays the table out as a section: every string in insertion order,
    /// each followed by one NUL byte. Returns the section and, for each
    /// string, the offset at which it begins.
    pub fn serialize(&self) -> (out: (Vec<u8>, Vec<usize>))
        ensures
            out.0@ == section_of(self@),
            out.1@.len() == self@.len(),
            forall|i: int| 0 <= i < self@.len() ==> out.1@[i] == offset_of(self@, i as nat),
    {
        let mut bytes: Vec<u8> = Vec::new();
        let mut offsets: Vec<usize> = Vec::new();
        let mut i: usize = 0;
        while i < self.strings.len()
            invariant
                i <= self.strings.len(),
                bytes@ == section_prefix(self@, i as nat),
                offsets@.len() == i,
                forall|k: int| 0 <= k < i ==> offsets@[k] == offset_of(self@, k as nat),
            decreases self.strings.len() - i,
        {
            offsets.push(bytes.len());
            bytes.extend_from_slice(self.strings[i].as_slice());
            bytes.push(0u8);
            assert(bytes@ =~= section_prefix(self@, i as nat) + self@[i as int].push(0u8));
            i = i + 1;
        }
        (bytes, offsets)
    }
}

} // verus!
