//! The entry tree: translation units whose typed, attributed entries are kept
//! in an arena and named by stable integer handles.

use crate::constants::DW_TAG_COMPILE_UNIT;
use crate::order::{document_order, lemma_children, subtree, walk};
use crate::strings::StringId;
use vstd::prelude::*;

verus! {

/// A handle of an entry within its unit: its position in creation order.
#[derive(Clone, Copy, Debug, PartialEq, Eq, Structural)]
pub struct UnitEntryId {
    pub index: usize,
}

/// Width of the offsets and lengths of a unit.
#[derive(Clone, Copy, Debug, PartialEq, Eq, Structural)]
pub enum Format {
    Dwarf32,
    Dwarf64,
}

/// An address: known, or relative to a code symbol that is placed later.
#[derive(Clone, Copy, Debug, PartialEq, Eq, Structural)]
pub enum Address {
    Absolute(u64),
    Relative { symbol: usize, addend: i64 },
}

/// The value of an attribute.
#[derive(Clone, Copy, Debug, PartialEq, Eq)]
pub enum AttributeValue {
    /// An address.
    Address(Address),
    /// A block of one byte.
    Data1([u8; 1]),
    /// A block of two bytes.
    Data2([u8; 2]),
    /// A block of four bytes.
    Data4([u8; 4]),
    /// A block of eight bytes.
    Data8([u8; 8]),
    /// An unsigned integer.
    Udata(u64),
    /// A string of the string table.
    StringRef(StringId),
    /// Another entry of the same unit.
    ThisUnitEntryRef(UnitEntryId),
}

/// An attribute of an entry: its kind and its value.
#[derive(Clone, Copy, Debug, PartialEq, Eq)]
pub struct Attribute {
    pub name: u16,
    pub value: AttributeValue,
}

/// An entry as the contracts see it.
pub struct EntryView {
    pub tag: u16,
    pub parent: Option<UnitEntryId>,
    pub attrs: Seq<Attribute>,
    pub children: Seq<UnitEntryId>,
}

/// A unit as the contracts see it.
pub struct UnitView {
    pub version: u16,
    pub address_size: u8,
    pub format: Format,
    pub entries: Seq<EntryView>,
}

struct Entry {
    tag: u16,
    parent: Option<UnitEntryId>,
    attrs: Vec<Attribute>,
    children: Vec<UnitEntryId>,
}

/// One translation unit: its encoding parameters and its tree of entries.
pub struct Unit {
    version: u16,
    address_size: u8,
    format: Format,
    entries: Vec<Entry>,
}

/// The position of the attribute of kind `name`, or the length of `attrs`
/// where there is none.
pub open spec fn attr_position(attrs: Seq<Attribute>, name: u16) -> nat
    decreases attrs.len(),
{
    if attrs.len() == 0 {
        0
    } else if attrs[0].name == name {
        0
    } else {
        1 + attr_position(attrs.drop_first(), name)
    }
}

/// The value of the attribute of kind `name`, if there is one.
pub open spec fn attr_value(attrs: Seq<Attribute>, name: u16) -> Option<AttributeValue> {
    let p = attr_position(attrs, name);
    if p < attrs.len() {
        Some(attrs[p as int].value)
    } else {
        None
    }
}

/// The attributes after kind `name` was set to `value`: the earlier value
/// of that kind is replaced in place, a new kind comes last.
pub open spec fn attrs_with(attrs: Seq<Attribute>, name: u16, value: AttributeValue) -> Seq<
    Attribute,
> {
    let p = attr_position(attrs, name);
    if p < attrs.len() {
        attrs.update(p as int, Attribute { name, value })
    } else {
        attrs.push(Attribute { name, value })
    }
}

/// No kind occurs twice.
pub open spec fn names_distinct(attrs: Seq<Attribute>) -> bool {
    forall|a: int, b: int|
        0 <= a < attrs.len() && 0 <= b < attrs.len() && a != b ==> attrs[a].name != attrs[b].name
}

/// The entries among the first `n` whose parent is entry `parent`, in
/// creation order.
pub open spec fn children_upto(entries: Seq<EntryView>, parent: int, n: nat) -> Seq<UnitEntryId>
    decreases n,
{
    if n == 0 || n > entries.len() {
        Seq::empty()
    } else {
        let rest = children_upto(entries, parent, (n - 1) as nat);
        if entries[n - 1].parent matches Some(p) && p.index == parent {
            rest.push(UnitEntryId { index: (n - 1) as usize })
        } else {
            rest
        }
    }
}

/// The entries form a tree that was built from the root down: entry 0 is
/// the root, every other entry has a parent that was created before it, an
/// entry lists exactly its children in creation order, and no entry has two
/// attributes of one kind.
pub open spec fn tree_wf(entries: Seq<EntryView>) -> bool {
    &&& 1 <= entries.len() <= usize::MAX
    &&& entries[0].parent is None
    &&& forall|i: int|
        0 < i < entries.len() ==> ((#[trigger] entries[i]).parent matches Some(p) && p.index < i)
    &&& forall|i: int|
        0 <= i < entries.len() ==> (#[trigger] entries[i]).children == children_upto(
            entries,
            i,
            entries.len(),
        )
    &&& forall|i: int| 0 <= i < entries.len() ==> names_distinct((#[trigger] entries[i]).attrs)
}

/// The entries after an entry with tag `tag` was created under `parent`.
pub open spec fn with_entry(entries: Seq<EntryView>, parent: UnitEntryId, tag: u16) -> Seq<
    EntryView,
> {
    let id = UnitEntryId { index: entries.len() as usize };
    let p = entries[parent.index as int];
    entries.update(
        parent.index as int,
        EntryView { tag: p.tag, parent: p.parent, attrs: p.attrs, children: p.children.push(id) },
    ).push(EntryView { tag, parent: Some(parent), attrs: Seq::empty(), children: Seq::empty() })
}

/// The entries after attribute `name` of entry `entry` was set to `value`.
pub open spec fn with_attribute(
    entries: Seq<EntryView>,
    entry: UnitEntryId,
    name: u16,
    value: AttributeValue,
) -> Seq<EntryView> {
    let e = entries[entry.index as int];
    entries.update(
        entry.index as int,
        EntryView {
            tag: e.tag,
            parent: e.parent,
            attrs: attrs_with(e.attrs, name, value),
            children: e.children,
        },
    )
}

/// What `value` refers to exists: a string among the first `strings`, an
/// entry among the first `entries`, a code symbol among the first
/// `symbols`.
pub open spec fn value_resolves(
    value: AttributeValue,
    strings: nat,
    entries: nat,
    symbols: nat,
) -> bool {
    match value {
        AttributeValue::StringRef(id) => id.index < strings,
        AttributeValue::ThisUnitEntryRef(id) => id.index < entries,
        AttributeValue::Address(Address::Relative { symbol, addend }) => symbol < symbols,
        _ => true,
    }
}

/// Every attribute of the list refers to what exists.
pub open spec fn attrs_resolve(
    attrs: Seq<Attribute>,
    strings: nat,
    entries: nat,
    symbols: nat,
) -> bool {
    forall|a: int|
        0 <= a < attrs.len() ==> value_resolves((#[trigger] attrs[a]).value, strings, entries, symbols)
}

/// Every attribute of every entry refers to what exists.
pub open spec fn entries_resolve(entries: Seq<EntryView>, strings: nat, symbols: nat) -> bool {
    forall|e: int|
        0 <= e < entries.len() ==> attrs_resolve(
            (#[trigger] entries[e]).attrs,
            strings,
            entries.len(),
            symbols,
        )
}

/// `attr_position` finds the first attribute of the kind, where there is
/// one.
pub proof fn lemma_attr_position(attrs: Seq<Attribute>, name: u16)
    ensures
        attr_position(attrs, name) <= attrs.len(),
        attr_position(attrs, name) < attrs.len() ==> attrs[attr_position(attrs, name) as int].name
            == name,
        forall|j: int| 0 <= j < attr_position(attrs, name) ==> attrs[j].name != name,
    decreases attrs.len(),
{
    if attrs.len() != 0 && attrs[0].name != name {
        let rest = attrs.drop_first();
        lemma_attr_position(rest, name);
        assert forall|j: int| 0 <= j < attr_position(attrs, name) implies attrs[j].name
            != name by {
            if j > 0 {
                assert(rest[j - 1] == attrs[j]);
            }
        }
    }
}

/// The position of a kind is the one index that holds it, or the length.
pub proof fn lemma_attr_position_is(attrs: Seq<Attribute>, name: u16, p: int)
    requires
        0 <= p <= attrs.len(),
        p < attrs.len() ==> attrs[p].name == name,
        forall|j: int| 0 <= j < p ==> attrs[j].name != name,
    ensures
        attr_position(attrs, name) == p,
{
    lemma_attr_position(attrs, name);
}

/// Setting an attribute overwrites: the kind then has the new value, every
/// other kind keeps its value, no kind occurs twice, and a second setting of
/// the kind leaves only the later value.
pub proof fn lemma_set_overwrites(
    attrs: Seq<Attribute>,
    name: u16,
    first: AttributeValue,
    second: AttributeValue,
)
    requires
        names_distinct(attrs),
    ensures
        names_distinct(attrs_with(attrs, name, first)),
        attr_value(attrs_with(attrs, name, first), name) == Some(first),
        forall|other: u16|
            other != name ==> attr_value(attrs_with(attrs, name, first), other) == attr_value(
                attrs,
                other,
            ),
        attrs_with(attrs_with(attrs, name, first), name, second) == attrs_with(attrs, name, second),
{
    lemma_attr_position(attrs, name);
    let p = attr_position(attrs, name) as int;
    let after = attrs_with(attrs, name, first);
    assert(after[p].name == name);
    lemma_attr_position_is(after, name, p);
    assert forall|other: u16| other != name implies attr_value(after, other) == attr_value(
        attrs,
        other,
    ) by {
        lemma_attr_position(attrs, other);
        let q = attr_position(attrs, other) as int;
        if q < attrs.len() {
            assert(after[q] == attrs[q]);
            lemma_attr_position_is(after, other, q);
        } else {
            lemma_attr_position_is(after, other, after.len() as int);
        }
    }
    assert(attrs_with(after, name, second) =~= attrs_with(attrs, name, second));
}

/// The children among the first `n` entries depend on the parents of those
/// entries alone.
proof fn lemma_children_upto_same(a: Seq<EntryView>, b: Seq<EntryView>, parent: int, n: nat)
    requires
        n <= a.len(),
        n <= b.len(),
        forall|i: int| 0 <= i < n ==> a[i].parent == b[i].parent,
    ensures
        children_upto(a, parent, n) == children_upto(b, parent, n),
    decreases n,
{
    if n > 0 {
        lemma_children_upto_same(a, b, parent, (n - 1) as nat);
    }
}

impl View for Unit {
    type V = UnitView;

    closed spec fn view(&self) -> UnitView {
        UnitView {
            version: self.version,
            address_size: self.address_size,
            format: self.format,
            entries: Seq::new(
                self.entries@.len(),
                |i: int|
                    EntryView {
                        tag: self.entries@[i].tag,
                        parent: self.entries@[i].parent,
                        attrs: self.entries@[i].attrs@,
                        children: self.entries@[i].children@,
                    },
            ),
        }
    }
}

impl Unit {
    /// The entries form a well-built tree.
    pub open spec fn wf(&self) -> bool {
        tree_wf(self@.entries)
    }

    /// Whether `id` names an entry of this unit.
    pub open spec fn contains_id(&self, id: UnitEntryId) -> bool {
        id.index < self@.entries.len()
    }

    /// A unit that holds a root entry and nothing else.
    pub fn new(version: u16, address_size: u8, format: Format) -> (unit: Unit)
        ensures
            unit.wf(),
            unit@.version == version,
            unit@.address_size == address_size,
            unit@.format == format,
            unit@.entries == seq![
                EntryView {
                    tag: DW_TAG_COMPILE_UNIT,
                    parent: None,
                    attrs: Seq::empty(),
                    children: Seq::empty(),
                },
            ],
    {
        let mut entries: Vec<Entry> = Vec::new();
        entries.push(
            Entry { tag: DW_TAG_COMPILE_UNIT, parent: None, attrs: Vec::new(), children: Vec::new() },
        );
        let unit = Unit { version, address_size, format, entries };
        assert(unit@.entries =~= seq![
            EntryView {
                tag: DW_TAG_COMPILE_UNIT,
                parent: None,
                attrs: Seq::empty(),
                children: Seq::empty(),
            },
        ]);
        assert(children_upto(unit@.entries, 0, 1) =~= Seq::empty()) by {
            assert(children_upto(unit@.entries, 0, 0) =~= Seq::empty());
        }
        unit
    }

    /// The handle of the root entry.
    pub fn root(&self) -> (id: UnitEntryId)
        ensures
            id.index == 0,
    {
        UnitEntryId { index: 0 }
    }

    /// The number of entries.
    pub fn count(&self) -> (n: usize)
        ensures
            n == self@.entries.len(),
    {
        self.entries.len()
    }

    /// Whether `id` names an entry of this unit.
    pub fn has(&self, id: UnitEntryId) -> (known: bool)
        ensures
            known == self.contains_id(id),
    {
        id.index < self.entries.len()
    }

    /// Creates an entry with tag `tag` as the last child of `parent` and
    /// returns its handle.
    pub fn add(&mut self, parent: UnitEntryId, tag: u16) -> (id: UnitEntryId)
        requires
            old(self).wf(),
            old(self).contains_id(parent),
        ensures
            final(self).wf(),
            id.index == old(self)@.entries.len(),
            final(self)@.entries == with_entry(old(self)@.entries, parent, tag),
            final(self)@.version == old(self)@.version,
            final(self)@.address_size == old(self)@.address_size,
            final(self)@.format == old(self)@.format,
    {
        let ghost before = self@.entries;
        let id = UnitEntryId { index: self.entries.len() };
        self.entries[parent.index].children.push(id);
        self.entries.push(
            Entry { tag, parent: Some(parent), attrs: Vec::new(), children: Vec::new() },
        );
        proof {
            let after = self@.entries;
            assert(after =~= with_entry(before, parent, tag));
            assert(after.len() == self.entries.len());
            let n = before.len();
            assert forall|i: int| 0 <= i < after.len() implies (#[trigger] after[i]).children
                == children_upto(after, i, after.len()) by {
                lemma_children_upto_same(before, after, i, n);
                if i < n {
                    assert(before[i].children == children_upto(before, i, n));
                } else {
                    lemma_no_children_yet(before, i, n);
                }
            }
            assert forall|i: int| 0 <= i < after.len() implies names_distinct(
                (#[trigger] after[i]).attrs,
            ) by {
                if i < n {
                    assert(names_distinct(before[i].attrs));
                }
            }
            assert forall|i: int| 0 < i < after.len() implies ((#[trigger] after[i]).parent matches Some(
                p,
            ) && p.index < i) by {
                if i < n {
                    assert(before[i].parent matches Some(p) && p.index < i);
                }
            }
        }
        id
    }

    /// Sets attribute `name` of `entry` to `value`, in place of an earlier
    /// value of that kind.
    pub fn set(&mut self, entry: UnitEntryId, name: u16, value: AttributeValue)
        requires
            old(self).wf(),
            old(self).contains_id(entry),
        ensures
            final(self).wf(),
            final(self)@.entries == with_attribute(old(self)@.entries, entry, name, value),
            final(self)@.version == old(self)@.version,
            final(self)@.address_size == old(self)@.address_size,
            final(self)@.format == old(self)@.format,
    {
        let ghost before = self@.entries;
        let ghost attrs = before[entry.index as int].attrs;
        let mut i: usize = 0;
        let n = self.entries[entry.index].attrs.len();
        while i < n && self.entries[entry.index].attrs[i].name != name
            invariant
                i <= n,
                n == attrs.len(),
                entry.index < self.entries@.len(),
                self@.entries == before,
                attrs == before[entry.index as int].attrs,
                forall|k: int| 0 <= k < i ==> attrs[k].name != name,
            decreases n - i,
        {
            i = i + 1;
        }
        proof {
            lemma_attr_position_is(attrs, name, i as int);
            lemma_set_overwrites(attrs, name, value, value);
        }
        if i < n {
            self.entries[entry.index].attrs[i].value = value;
        } else {
            self.entries[entry.index].attrs.push(Attribute { name, value });
        }
        proof {
            let after = self@.entries;
            assert(after[entry.index as int].attrs =~= attrs_with(attrs, name, value));
            assert(after =~= with_attribute(before, entry, name, value));
            assert forall|i: int| 0 <= i < after.len() implies (#[trigger] after[i]).children
                == children_upto(after, i, after.len()) by {
                lemma_children_upto_same(before, after, i, before.len());
                assert(before[i].children == children_upto(before, i, before.len()));
            }
            assert forall|i: int| 0 <= i < after.len() implies names_distinct(
                (#[trigger] after[i]).attrs,
            ) by {
                assert(names_distinct(before[i].attrs));
            }
            assert forall|i: int| 0 < i < after.len() implies ((#[trigger] after[i]).parent matches Some(
                p,
            ) && p.index < i) by {
                assert(before[i].parent matches Some(p) && p.index < i);
            }
        }
    }

    /// The value of attribute `name` of `entry`, if the entry has one.
    pub fn get(&self, entry: UnitEntryId, name: u16) -> (value: Option<AttributeValue>)
        requires
            self.contains_id(entry),
        ensures
            value == attr_value(self@.entries[entry.index as int].attrs, name),
    {
        let ghost attrs = self@.entries[entry.index as int].attrs;
        let n = self.entries[entry.index].attrs.len();
        let mut i: usize = 0;
        while i < n
            invariant
                i <= n,
                n == attrs.len(),
                entry.index < self.entries@.len(),
                attrs == self@.entries[entry.index as int].attrs,
                forall|k: int| 0 <= k < i ==> attrs[k].name != name,
            decreases n - i,
        {
            if self.entries[entry.index].attrs[i].name == name {
                proof {
                    lemma_attr_position_is(attrs, name, i as int);
                }
                return Some(self.entries[entry.index].attrs[i].value);
            }
            i = i + 1;
        }
        proof {
            lemma_attr_position_is(attrs, name, n as int);
        }
        None
    }

    /// The DWARF version of the unit.
    pub fn version(&self) -> (version: u16)
        ensures
            version == self@.version,
    {
        self.version
    }

    /// The size of an address of the unit, in bytes.
    pub fn address_size(&self) -> (size: u8)
        ensures
            size == self@.address_size,
    {
        self.address_size
    }

    /// The width of the offsets of the unit.
    pub fn format(&self) -> (format: Format)
        ensures
            format == self@.format,
    {
        self.format
    }

    /// The tag of `entry`.
    pub fn tag(&self, entry: UnitEntryId) -> (tag: u16)
        requires
            self.contains_id(entry),
        ensures
            tag == self@.entries[entry.index as int].tag,
    {
        self.entries[entry.index].tag
    }

    /// The parent of `entry`; the root has none.
    pub fn parent(&self, entry: UnitEntryId) -> (parent: Option<UnitEntryId>)
        requires
            self.contains_id(entry),
        ensures
            parent == self@.entries[entry.index as int].parent,
    {
        self.entries[entry.index].parent
    }

    /// The children of `entry`, in the order of their creation.
    pub fn children(&self, entry: UnitEntryId) -> (children: &Vec<UnitEntryId>)
        requires
            self.contains_id(entry),
        ensures
            children@ == self@.entries[entry.index as int].children,
    {
        &self.entries[entry.index].children
    }

    /// The attributes of `entry`, in the order in which their kinds were
    /// first set.
    pub fn attrs(&self, entry: UnitEntryId) -> (attrs: &Vec<Attribute>)
        requires
            self.contains_id(entry),
        ensures
            attrs@ == self@.entries[entry.index as int].attrs,
    {
        &self.entries[entry.index].attrs
    }

    /// The entries in document order: every entry before its children, the
    /// children of an entry in the order of their creation.
    pub fn document_order(&self) -> (order: Vec<UnitEntryId>)
        requires
            self.wf(),
        ensures
            order@ == document_order(self@.entries),
    {
        let mut order: Vec<UnitEntryId> = Vec::new();
        self.walk_into(UnitEntryId { index: 0 }, &mut order);
        order
    }

    /// Appends the subtree of `entry` in document order.
    fn walk_into(&self, entry: UnitEntryId, order: &mut Vec<UnitEntryId>)
        requires
            self.wf(),
            self.contains_id(entry),
        ensures
            final(order)@ == old(order)@ + subtree(self@.entries, entry.index as int),
        decreases self@.entries.len() - entry.index,
    {
        let ghost before = order@;
        let ghost entries = self@.entries;
        let ghost id = entry.index as int;
        order.push(entry);
        let n = self.entries[entry.index].children.len();
        let mut k: usize = 0;
        proof {
            lemma_children(entries, id);
            assert(order@ =~= before + walk(entries, id, 0));
        }
        while k < n
            invariant
                k <= n,
                self.wf(),
                self.contains_id(entry),
                entries == self@.entries,
                id == entry.index,
                n == entries[id].children.len(),
                order@ == before + walk(entries, id, k as nat),
            decreases n - k,
        {
            let child = self.entries[entry.index].children[k];
            proof {
                lemma_children(entries, id);
                assert(child == entries[id].children[k as int]);
            }
            self.walk_into(child, order);
            proof {
                assert(order@ =~= before + walk(entries, id, (k + 1) as nat));
            }
            k = k + 1;
        }
    }

    /// Whether every attribute refers to what exists: a string among the
    /// first `strings` of the string table, an entry of this unit, a code
    /// symbol among the first `symbols`.
    pub fn check_references(&self, strings: usize, symbols: usize) -> (resolved: bool)
        ensures
            resolved == entries_resolve(self@.entries, strings as nat, symbols as nat),
    {
        let count = self.entries.len();
        let mut e: usize = 0;
        while e < count
            invariant
                e <= count,
                count == self@.entries.len(),
                forall|k: int|
                    0 <= k < e ==> attrs_resolve(
                        (#[trigger] self@.entries[k]).attrs,
                        strings as nat,
                        count as nat,
                        symbols as nat,
                    ),
            decreases count - e,
        {
            let ghost attrs = self@.entries[e as int].attrs;
            let n = self.entries[e].attrs.len();
            let mut a: usize = 0;
            while a < n
                invariant
                    a <= n,
                    e < count,
                    count == self@.entries.len(),
                    attrs == self@.entries[e as int].attrs,
                    n == attrs.len(),
                    forall|k: int|
                        0 <= k < a ==> value_resolves(
                            (#[trigger] attrs[k]).value,
                            strings as nat,
                            count as nat,
                            symbols as nat,
                        ),
                decreases n - a,
            {
                let resolved = match self.entries[e].attrs[a].value {
                    AttributeValue::StringRef(id) => id.index < strings,
                    AttributeValue::ThisUnitEntryRef(id) => id.index < count,
                    AttributeValue::Address(Address::Relative { symbol, addend }) => symbol
                        < symbols,
                    _ => true,
                };
                if !resolved {
                    assert(!value_resolves(
                        attrs[a as int].value,
                        strings as nat,
                        count as nat,
                        symbols as nat,
                    ));
                    assert(!attrs_resolve(
                        self@.entries[e as int].attrs,
                        strings as nat,
                        count as nat,
                        symbols as nat,
                    ));
                    return false;
                }
                a = a + 1;
            }
            e = e + 1;
        }
        true
    }
}

/// Before entry `n` exists, no entry among the first `n` has it as parent.
proof fn lemma_no_children_yet(entries: Seq<EntryView>, parent: int, n: nat)
    requires
        tree_wf(entries),
        n <= entries.len(),
        parent >= n,
    ensures
        children_upto(entries, parent, n) == Seq::<UnitEntryId>::empty(),
    decreases n,
{
    if n > 0 {
        lemma_no_children_yet(entries, parent, (n - 1) as nat);
        if n - 1 > 0 {
            assert(entries[n - 1].parent matches Some(p) && p.index < n - 1);
        }
    }
}

} // verus!
