//! Document order: the order in which the entries of a unit are written,
//! every entry before its children and the children of an entry in the
//! order of their creation.

use crate::unit::{children_upto, tree_wf, EntryView, UnitEntryId};
use vstd::prelude::*;

verus! {

/// Entry `id` is entry `ancestor` or lies below it in the tree.
pub open spec fn descends_from(entries: Seq<EntryView>, id: int, ancestor: int) -> bool
    decreases id,
{
    if id < 0 || id >= entries.len() {
        false
    } else if id == ancestor {
        true
    } else {
        match entries[id].parent {
            Some(p) => p.index < id && descends_from(entries, p.index as int, ancestor),
            None => false,
        }
    }
}

/// Entry `id`, followed by the subtrees of its first `k` children in
/// document order.
pub open spec fn walk(entries: Seq<EntryView>, id: int, k: nat) -> Seq<UnitEntryId>
    decreases entries.len() - id, k,
{
    if id < 0 || id >= entries.len() {
        Seq::empty()
    } else if k == 0 || k > entries[id].children.len() {
        seq![UnitEntryId { index: id as usize }]
    } else {
        let child = entries[id].children[k - 1].index as int;
        let before = walk(entries, id, (k - 1) as nat);
        if id < child < entries.len() {
            before + walk(entries, child, entries[child].children.len())
        } else {
            before
        }
    }
}

/// The subtree of entry `id` in document order.
pub open spec fn subtree(entries: Seq<EntryView>, id: int) -> Seq<UnitEntryId> {
    if 0 <= id < entries.len() {
        walk(entries, id, entries[id].children.len())
    } else {
        Seq::empty()
    }
}

/// The entries of a unit in document order.
pub open spec fn document_order(entries: Seq<EntryView>) -> Seq<UnitEntryId> {
    subtree(entries, 0)
}

/// Entry `x` lies in the subtree of one of the first `k` children of entry
/// `id`.
pub open spec fn below_child(entries: Seq<EntryView>, id: int, k: nat, x: int) -> bool
    decreases k,
{
    if k == 0 || k > entries[id].children.len() {
        false
    } else {
        descends_from(entries, x, entries[id].children[k - 1].index as int) || below_child(
            entries,
            id,
            (k - 1) as nat,
            x,
        )
    }
}

/// The child of `id` on the way down to `x`.
pub open spec fn child_towards(entries: Seq<EntryView>, x: int, id: int) -> int
    decreases x,
{
    if x <= 0 || x >= entries.len() {
        x
    } else {
        match entries[x].parent {
            Some(p) => if p.index == id || p.index >= x {
                x
            } else {
                child_towards(entries, p.index as int, id)
            },
            None => x,
        }
    }
}

/// The children among the first `n` entries: each has the parent in
/// question and lies before `n`, they stand in the order of their creation,
/// and none is missing.
proof fn lemma_children_upto(entries: Seq<EntryView>, parent: int, n: nat)
    requires
        n <= entries.len() <= usize::MAX,
    ensures
        forall|k: int|
            0 <= k < children_upto(entries, parent, n).len() ==> {
                let c = #[trigger] children_upto(entries, parent, n)[k];
                &&& c.index < n
                &&& entries[c.index as int].parent matches Some(p) && p.index == parent
            },
        forall|a: int, b: int|
            0 <= a < b < children_upto(entries, parent, n).len() ==> children_upto(
                entries,
                parent,
                n,
            )[a].index < children_upto(entries, parent, n)[b].index,
        forall|j: int|
            0 <= j < n && ((#[trigger] entries[j]).parent matches Some(p) && p.index == parent)
                ==> children_upto(entries, parent, n).contains(UnitEntryId { index: j as usize }),
    decreases n,
{
    if n > 0 {
        lemma_children_upto(entries, parent, (n - 1) as nat);
        let rest = children_upto(entries, parent, (n - 1) as nat);
        let all = children_upto(entries, parent, n);
        assert forall|j: int|
            0 <= j < n && ((#[trigger] entries[j]).parent matches Some(p) && p.index
                == parent) implies all.contains(
            UnitEntryId { index: j as usize },
        ) by {
            if j < n - 1 {
                assert(rest.contains(UnitEntryId { index: j as usize }));
                let k = choose|k: int|
                    0 <= k < rest.len() && rest[k] == UnitEntryId { index: j as usize };
                assert(all[k] == rest[k]);
            } else {
                assert(all[all.len() - 1] == UnitEntryId { index: j as usize });
            }
        }
    }
}

/// The children of an entry: each lies behind the entry and has it as
/// parent, they stand in the order of their creation, and every entry with
/// this parent is among them.
pub proof fn lemma_children(entries: Seq<EntryView>, id: int)
    requires
        tree_wf(entries),
        0 <= id < entries.len(),
    ensures
        forall|k: int|
            0 <= k < entries[id].children.len() ==> {
                let c = #[trigger] entries[id].children[k];
                &&& id < c.index < entries.len()
                &&& entries[c.index as int].parent == Some(UnitEntryId { index: id as usize })
            },
        forall|a: int, b: int|
            0 <= a < b < entries[id].children.len() ==> entries[id].children[a].index
                < entries[id].children[b].index,
        forall|j: int|
            0 <= j < entries.len() && (#[trigger] entries[j]).parent == Some(
                UnitEntryId { index: id as usize },
            ) ==> entries[id].children.contains(UnitEntryId { index: j as usize }),
{
    lemma_children_upto(entries, id, entries.len());
    assert(entries[id].children == children_upto(entries, id, entries.len()));
    assert forall|k: int| 0 <= k < entries[id].children.len() implies {
        let c = #[trigger] entries[id].children[k];
        &&& id < c.index < entries.len()
        &&& entries[c.index as int].parent == Some(UnitEntryId { index: id as usize })
    } by {
        let c = entries[id].children[k];
        assert(entries[c.index as int].parent matches Some(p) && p.index == id);
        if c.index > 0 {
            assert(entries[c.index as int].parent matches Some(p) && p.index < c.index);
        }
    }
}

/// What descends from an entry lies at or behind it.
pub proof fn lemma_descendant_is_later(entries: Seq<EntryView>, x: int, ancestor: int)
    requires
        descends_from(entries, x, ancestor),
    ensures
        ancestor <= x < entries.len(),
        0 <= x,
    decreases x,
{
    if x != ancestor {
        lemma_descendant_is_later(entries, entries[x].parent->0.index as int, ancestor);
    }
}

/// What descends from a descendant of an entry descends from the entry.
pub proof fn lemma_descends_transitive(entries: Seq<EntryView>, x: int, a: int, b: int)
    requires
        descends_from(entries, x, a),
        descends_from(entries, a, b),
    ensures
        descends_from(entries, x, b),
    decreases x,
{
    if x != a {
        lemma_descendant_is_later(entries, a, b);
        lemma_descendant_is_later(entries, x, a);
        lemma_descends_transitive(entries, entries[x].parent->0.index as int, a, b);
    }
}

/// Of two entries above one entry, the later one descends from the
/// earlier one.
proof fn lemma_ancestors_in_line(entries: Seq<EntryView>, x: int, a: int, b: int)
    requires
        descends_from(entries, x, a),
        descends_from(entries, x, b),
        a <= b,
    ensures
        descends_from(entries, b, a),
    decreases x,
{
    if x != b {
        lemma_descendant_is_later(entries, x, b);
        lemma_ancestors_in_line(entries, entries[x].parent->0.index as int, a, b);
    }
}

/// No entry lies below two children of one entry.
proof fn lemma_siblings_apart(entries: Seq<EntryView>, x: int, id: int, c1: int, c2: int)
    requires
        tree_wf(entries),
        0 <= id < c1 < c2 < entries.len(),
        entries[c1].parent == Some(UnitEntryId { index: id as usize }),
        entries[c2].parent == Some(UnitEntryId { index: id as usize }),
        descends_from(entries, x, c1),
    ensures
        !descends_from(entries, x, c2),
{
    if descends_from(entries, x, c2) {
        lemma_ancestors_in_line(entries, x, c1, c2);
        assert(descends_from(entries, id, c1));
        lemma_descendant_is_later(entries, id, c1);
    }
}

/// Every entry descends from the root.
pub proof fn lemma_root_above_all(entries: Seq<EntryView>, x: int)
    requires
        tree_wf(entries),
        0 <= x < entries.len(),
    ensures
        descends_from(entries, x, 0),
    decreases x,
{
    if x != 0 {
        assert(entries[x].parent matches Some(p) && p.index < x);
        lemma_root_above_all(entries, entries[x].parent->0.index as int);
    }
}

/// An entry below entry `id` lies in the subtree of a child of `id`.
proof fn lemma_child_towards(entries: Seq<EntryView>, x: int, id: int)
    requires
        tree_wf(entries),
        descends_from(entries, x, id),
        x != id,
        0 <= id,
    ensures
        ({
            let c = child_towards(entries, x, id);
            &&& id < c < entries.len()
            &&& entries[c].parent == Some(UnitEntryId { index: id as usize })
            &&& descends_from(entries, x, c)
        }),
    decreases x,
{
    lemma_descendant_is_later(entries, x, id);
    let p = entries[x].parent->0;
    if p.index != id {
        lemma_child_towards(entries, p.index as int, id);
    }
}

/// An entry that lies below the child at position `m` lies below one of
/// the first `k` children, for every `k` beyond `m`.
proof fn lemma_below_child(entries: Seq<EntryView>, id: int, k: nat, m: int, x: int)
    requires
        0 <= m < k <= entries[id].children.len(),
        descends_from(entries, x, entries[id].children[m].index as int),
    ensures
        below_child(entries, id, k, x),
    decreases k,
{
    if m < k - 1 {
        lemma_below_child(entries, id, (k - 1) as nat, m, x);
    }
}

/// An entry below the child at position `k` lies below none of the first
/// `j` children, for every `j` up to `k`.
proof fn lemma_not_below_earlier(entries: Seq<EntryView>, id: int, j: nat, k: nat, x: int)
    requires
        tree_wf(entries),
        0 <= id < entries.len(),
        j <= k < entries[id].children.len(),
        descends_from(entries, x, entries[id].children[k as int].index as int),
    ensures
        !below_child(entries, id, j, x),
    decreases j,
{
    if j > 0 {
        lemma_children(entries, id);
        let later = entries[id].children[k as int].index as int;
        let earlier = entries[id].children[j - 1].index as int;
        if descends_from(entries, x, earlier) {
            lemma_siblings_apart(entries, x, id, earlier, later);
        }
        lemma_not_below_earlier(entries, id, (j - 1) as nat, k, x);
    }
}

/// What a walk holds: the entry itself first, then exactly the entries
/// below its first `k` children, each once. A walk over all the children
/// holds exactly what descends from the entry.
pub proof fn lemma_walk(entries: Seq<EntryView>, id: int, k: nat)
    requires
        tree_wf(entries),
        0 <= id < entries.len(),
        k <= entries[id].children.len(),
    ensures
        walk(entries, id, k).len() >= 1,
        walk(entries, id, k)[0] == (UnitEntryId { index: id as usize }),
        walk(entries, id, k).no_duplicates(),
        forall|x: UnitEntryId|
            walk(entries, id, k).contains(x) <==> (x.index == id || below_child(
                entries,
                id,
                k,
                x.index as int,
            )),
        k == entries[id].children.len() ==> forall|x: UnitEntryId|
            walk(entries, id, k).contains(x) <==> descends_from(entries, x.index as int, id),
    decreases entries.len() - id, k,
{
    let here = UnitEntryId { index: id as usize };
    let w = walk(entries, id, k);
    lemma_children(entries, id);
    if k == 0 {
        assert(w[0] == here);
        assert forall|x: UnitEntryId| w.contains(x) <==> (x.index == id || below_child(
            entries,
            id,
            k,
            x.index as int,
        )) by {
            if x.index == id {
                assert(w[0] == x);
            }
        }
    } else {
        let c = entries[id].children[k - 1];
        let child = c.index as int;
        let before = walk(entries, id, (k - 1) as nat);
        let sub = walk(entries, child, entries[child].children.len());
        lemma_walk(entries, id, (k - 1) as nat);
        lemma_walk(entries, child, entries[child].children.len());
        assert(w == before + sub);
        assert forall|i: int, j: int| 0 <= i < before.len() && 0 <= j < sub.len() implies before[i]
            != sub[j] by {
            let x = sub[j];
            assert(sub.contains(x));
            assert(descends_from(entries, x.index as int, child));
            lemma_descendant_is_later(entries, x.index as int, child);
            lemma_not_below_earlier(entries, id, (k - 1) as nat, (k - 1) as nat, x.index as int);
            if before[i] == x {
                assert(before.contains(x));
            }
        }
        vstd::seq_lib::lemma_no_dup_in_concat(before, sub);
        assert forall|x: UnitEntryId| w.contains(x) <==> (x.index == id || below_child(
            entries,
            id,
            k,
            x.index as int,
        )) by {
            if w.contains(x) {
                let i = choose|i: int| 0 <= i < w.len() && w[i] == x;
                if i < before.len() {
                    assert(before[i] == x);
                    assert(before.contains(x));
                } else {
                    assert(sub[i - before.len()] == x);
                    assert(sub.contains(x));
                }
            }
            if x.index == id || below_child(entries, id, (k - 1) as nat, x.index as int) {
                assert(before.contains(x));
                let i = choose|i: int| 0 <= i < before.len() && before[i] == x;
                assert(w[i] == x);
            }
            if descends_from(entries, x.index as int, child) {
                assert(sub.contains(x));
                let j = choose|j: int| 0 <= j < sub.len() && sub[j] == x;
                assert(w[before.len() + j] == x);
            }
        }
    }
    if k == entries[id].children.len() {
        assert forall|x: UnitEntryId| w.contains(x) <==> descends_from(
            entries,
            x.index as int,
            id,
        ) by {
            let xi = x.index as int;
            if below_child(entries, id, k, xi) {
                lemma_below_descends(entries, id, k, xi);
            }
            if descends_from(entries, xi, id) && xi != id {
                lemma_child_towards(entries, xi, id);
                let c = child_towards(entries, xi, id);
                let cid = UnitEntryId { index: c as usize };
                assert(entries[id].children.contains(cid));
                let m = choose|m: int|
                    0 <= m < entries[id].children.len() && entries[id].children[m] == cid;
                lemma_below_child(entries, id, k, m, xi);
            }
        }
    }
}

/// What lies below a child of an entry descends from the entry.
proof fn lemma_below_descends(entries: Seq<EntryView>, id: int, k: nat, x: int)
    requires
        tree_wf(entries),
        0 <= id < entries.len(),
        k <= entries[id].children.len(),
        below_child(entries, id, k, x),
    ensures
        descends_from(entries, x, id),
    decreases k,
{
    lemma_children(entries, id);
    let c = entries[id].children[k - 1];
    let child = c.index as int;
    if descends_from(entries, x, child) {
        assert(entries[child].parent == Some(UnitEntryId { index: id as usize }));
        assert(descends_from(entries, id, id));
        assert(descends_from(entries, child, id));
        lemma_descends_transitive(entries, x, child, id);
    } else {
        lemma_below_descends(entries, id, (k - 1) as nat, x);
    }
}

/// Document order puts every entry before its children and the children of
/// an entry in the order of their creation: the subtree of an entry is the
/// entry itself, followed by the subtrees of its children one after the
/// other.
pub proof fn lemma_subtree_unfolds(entries: Seq<EntryView>, id: int)
    requires
        tree_wf(entries),
        0 <= id < entries.len(),
    ensures
        walk(entries, id, 0) == seq![UnitEntryId { index: id as usize }],
        forall|k: nat|
            k < entries[id].children.len() ==> #[trigger] walk(entries, id, k + 1) == walk(
                entries,
                id,
                k,
            ) + subtree(entries, entries[id].children[k as int].index as int),
        subtree(entries, id) == walk(entries, id, entries[id].children.len()),
{
    lemma_children(entries, id);
}

/// Document order holds every entry of the unit, each once, and begins
/// with the root.
pub proof fn lemma_document_order(entries: Seq<EntryView>)
    requires
        tree_wf(entries),
    ensures
        document_order(entries).len() == entries.len(),
        document_order(entries).no_duplicates(),
        document_order(entries)[0] == (UnitEntryId { index: 0 }),
        forall|x: UnitEntryId| document_order(entries).contains(x) <==> x.index < entries.len(),
{
    let order = document_order(entries);
    lemma_walk(entries, 0, entries[0].children.len());
    assert forall|x: UnitEntryId| order.contains(x) <==> x.index < entries.len() by {
        if x.index < entries.len() {
            lemma_root_above_all(entries, x.index as int);
        }
        if descends_from(entries, x.index as int, 0) {
            lemma_descendant_is_later(entries, x.index as int, 0);
        }
    }
    let handle = |i: int| UnitEntryId { index: i as usize };
    let indices = vstd::set_lib::set_int_range(0, entries.len() as int);
    vstd::set_lib::lemma_int_range(0, entries.len() as int);
    assert(indices.map(handle) =~= order.to_set()) by {
        assert forall|x: UnitEntryId| indices.map(handle).contains(x) <==> order.to_set().contains(
            x,
        ) by {
            if order.contains(x) {
                assert(indices.contains(x.index as int));
                assert(handle(x.index as int) == x);
            }
        }
    }
    assert(vstd::relations::injective_on(handle, indices));
    vstd::set_lib::lemma_map_size(indices, order.to_set(), handle);
    order.unique_seq_to_set();
}

} // verus!
