//! Walking the children of a value in a fixed order: the items of an
//! array as they stand, the values of an object by ascending name.

use crate::parse::value::{entries_view, items_view, ClxTree, ClxValue};
use vstd::prelude::*;
use vstd::string::StrSliceExecFns;

verus! {

/// Whether `a` comes before `b` when names are compared code point by
/// code point, a proper prefix coming first.
pub open spec fn name_before(a: Seq<char>, b: Seq<char>) -> bool
    decreases a.len(),
{
    if b.len() == 0 {
        false
    } else if a.len() == 0 {
        true
    } else if a[0] != b[0] {
        (a[0] as u32) < (b[0] as u32)
    } else {
        name_before(a.skip(1), b.skip(1))
    }
}

/// Compares two names code point by code point.
pub fn is_name_before(a: &str, b: &str) -> (before: bool)
    ensures
        before == name_before(a@, b@),
{
    let la = a.unicode_len();
    let lb = b.unicode_len();
    let mut i: usize = 0;
    assert(a@.skip(0) =~= a@ && b@.skip(0) =~= b@);
    while i < la && i < lb
        invariant
            la == a@.len(),
            lb == b@.len(),
            i <= la,
            i <= lb,
            name_before(a@, b@) == name_before(a@.skip(i as int), b@.skip(i as int)),
        decreases la - i,
    {
        let ca = a.get_char(i);
        let cb = b.get_char(i);
        proof {
            assert(a@.skip(i as int)[0] == ca);
            assert(b@.skip(i as int)[0] == cb);
            assert(a@.skip(i as int).skip(1) =~= a@.skip(i + 1));
            assert(b@.skip(i as int).skip(1) =~= b@.skip(i + 1));
        }
        if ca != cb {
            return (ca as u32) < (cb as u32);
        }
        i += 1;
    }
    i < lb
}

/// The names of a list of entries.
pub open spec fn names_of(entries: Seq<(Seq<char>, ClxTree)>) -> Seq<Seq<char>> {
    entries.map_values(|e: (Seq<char>, ClxTree)| e.0)
}

/// `order`, which is sorted by name, with `idx` put in after the last
/// position whose name does not come after that of `idx`.
pub open spec fn insert_by_name(order: Seq<int>, names: Seq<Seq<char>>, idx: int) -> Seq<int>
    decreases order.len(),
{
    if order.len() == 0 {
        seq![idx]
    } else if name_before(names[idx], names[order.last()]) {
        insert_by_name(order.drop_last(), names, idx).push(order.last())
    } else {
        order.push(idx)
    }
}

/// The first `n` positions of `names`, in ascending order of their
/// names; positions of equal names keep their order.
pub open spec fn order_by_name(names: Seq<Seq<char>>, n: nat) -> Seq<int>
    decreases n,
{
    if n == 0 {
        Seq::empty()
    } else {
        insert_by_name(order_by_name(names, (n - 1) as nat), names, n - 1)
    }
}

/// Whether every position in `order` is below `bound`.
pub open spec fn positions_below(order: Seq<int>, bound: int) -> bool {
    forall|j: int| 0 <= j < order.len() ==> 0 <= #[trigger] order[j] < bound
}

/// Inserting keeps positions in range and adds one.
pub proof fn lemma_insert_by_name(order: Seq<int>, names: Seq<Seq<char>>, idx: int, bound: int)
    requires
        positions_below(order, bound),
        0 <= idx < bound,
    ensures
        positions_below(insert_by_name(order, names, idx), bound),
        insert_by_name(order, names, idx).len() == order.len() + 1,
    decreases order.len(),
{
    if order.len() > 0 && name_before(names[idx], names[order.last()]) {
        assert(0 <= order[order.len() - 1] < bound);
        lemma_insert_by_name(order.drop_last(), names, idx, bound);
    }
}

/// `order_by_name` lists `n` positions, all below `n`.
pub proof fn lemma_order_by_name(names: Seq<Seq<char>>, n: nat)
    ensures
        order_by_name(names, n).len() == n,
        positions_below(order_by_name(names, n), n as int),
    decreases n,
{
    if n > 0 {
        lemma_order_by_name(names, (n - 1) as nat);
        lemma_insert_by_name(order_by_name(names, (n - 1) as nat), names, n - 1, n as int);
    }
}

/// No name comes before itself.
pub proof fn lemma_name_before_irreflexive(a: Seq<char>)
    ensures
        !name_before(a, a),
    decreases a.len(),
{
    if a.len() > 0 {
        lemma_name_before_irreflexive(a.skip(1));
    }
}

/// Of two different names one comes before the other.
pub proof fn lemma_name_before_total(a: Seq<char>, b: Seq<char>)
    ensures
        name_before(a, b) || name_before(b, a) || a == b,
        !(name_before(a, b) && name_before(b, a)),
    decreases a.len(),
{
    if a.len() > 0 && b.len() > 0 {
        if a[0] == b[0] {
            lemma_name_before_total(a.skip(1), b.skip(1));
            if a.skip(1) == b.skip(1) {
                assert(a =~= seq![a[0]] + a.skip(1));
                assert(b =~= seq![b[0]] + b.skip(1));
            }
        } else {
            vstd::utf8::char_u32_cast(a[0], a[0] as u32);
            vstd::utf8::char_u32_cast(b[0], b[0] as u32);
        }
    } else if a.len() == 0 && b.len() == 0 {
        assert(a =~= b);
    }
}

/// The order of names is transitive.
pub proof fn lemma_name_before_transitive(a: Seq<char>, b: Seq<char>, c: Seq<char>)
    requires
        name_before(a, b),
        name_before(b, c),
    ensures
        name_before(a, c),
    decreases a.len(),
{
    if a.len() > 0 {
        if a[0] == b[0] && b[0] == c[0] {
            lemma_name_before_transitive(a.skip(1), b.skip(1), c.skip(1));
        }
    }
}

/// Where `a` does not come after `b` and `b` does not come after `c`,
/// `a` does not come after `c`.
pub proof fn lemma_name_not_after_transitive(a: Seq<char>, b: Seq<char>, c: Seq<char>)
    requires
        !name_before(b, a),
        !name_before(c, b),
    ensures
        !name_before(c, a),
{
    lemma_name_before_total(a, b);
    lemma_name_before_total(b, c);
    lemma_name_before_total(a, c);
    if name_before(c, a) {
        if a == b {
        } else if b == c {
        } else {
            lemma_name_before_transitive(c, a, b);
        }
    }
}

/// Whether the names at the positions of `order` ascend: none comes
/// before the one at an earlier position.
pub open spec fn ascends(order: Seq<int>, names: Seq<Seq<char>>) -> bool {
    forall|a: int, b: int|
        0 <= a < b < order.len() ==> !name_before(
            names[#[trigger] order[b]],
            names[#[trigger] order[a]],
        )
}

/// Inserting a position adds it and keeps what is there.
pub proof fn lemma_insert_holds(order: Seq<int>, names: Seq<Seq<char>>, idx: int)
    ensures
        forall|x: int| #[trigger]
            insert_by_name(order, names, idx).contains(x) <==> x == idx || order.contains(x),
        order.no_duplicates() && !order.contains(idx) ==> insert_by_name(
            order,
            names,
            idx,
        ).no_duplicates(),
    decreases order.len(),
{
    let next = insert_by_name(order, names, idx);
    if order.len() == 0 {
        assert(next[0] == idx);
    } else if name_before(names[idx], names[order.last()]) {
        let front = order.drop_last();
        let inner = insert_by_name(front, names, idx);
        lemma_insert_holds(front, names, idx);
        assert forall|x: int| #[trigger] next.contains(x) <==> x == idx || order.contains(x) by {
            if next.contains(x) {
                let i = choose|i: int| 0 <= i < next.len() && next[i] == x;
                if i < inner.len() {
                    assert(inner[i] == x);
                    assert(inner.contains(x));
                    if x != idx {
                        let j = choose|j: int| 0 <= j < front.len() && front[j] == x;
                        assert(order[j] == x);
                    }
                } else {
                    assert(order[order.len() - 1] == x);
                }
            }
            if x == idx {
                assert(inner.contains(idx));
                let i = choose|i: int| 0 <= i < inner.len() && inner[i] == idx;
                assert(next[i] == idx);
            }
            if order.contains(x) {
                let j = choose|j: int| 0 <= j < order.len() && order[j] == x;
                if j < front.len() {
                    assert(front[j] == x);
                    assert(front.contains(x));
                    assert(inner.contains(x));
                    let i = choose|i: int| 0 <= i < inner.len() && inner[i] == x;
                    assert(next[i] == x);
                } else {
                    assert(next[inner.len() as int] == x);
                }
            }
        }
        if order.no_duplicates() && !order.contains(idx) {
            assert(front.no_duplicates());
            assert(!front.contains(idx)) by {
                if front.contains(idx) {
                    let j = choose|j: int| 0 <= j < front.len() && front[j] == idx;
                    assert(order[j] == idx);
                }
            }
            assert(!inner.contains(order.last())) by {
                if inner.contains(order.last()) {
                    assert(order[order.len() - 1] == order.last());
                    assert(front.contains(order.last()));
                    let j = choose|j: int| 0 <= j < front.len() && front[j] == order.last();
                    assert(order[j] == order[order.len() - 1]);
                }
            }
            assert forall|i: int, j: int| 0 <= i < next.len() && 0 <= j < next.len() && i != j implies next[i]
                != next[j] by {
                if i < inner.len() && j < inner.len() {
                    assert(inner[i] != inner[j]);
                } else if i < inner.len() {
                    assert(inner.contains(inner[i]));
                } else {
                    assert(inner.contains(inner[j]));
                }
            }
        }
    } else {
        assert(next[order.len() as int] == idx);
        assert forall|x: int| #[trigger] next.contains(x) <==> x == idx || order.contains(x) by {
            if next.contains(x) {
                let i = choose|i: int| 0 <= i < next.len() && next[i] == x;
                if i < order.len() {
                    assert(order[i] == x);
                }
            }
            if order.contains(x) {
                let j = choose|j: int| 0 <= j < order.len() && order[j] == x;
                assert(next[j] == x);
            }
        }
        if order.no_duplicates() && !order.contains(idx) {
            assert forall|i: int, j: int| 0 <= i < next.len() && 0 <= j < next.len() && i != j implies next[i]
                != next[j] by {
                if i < order.len() {
                    assert(order.contains(order[i]));
                }
                if j < order.len() {
                    assert(order.contains(order[j]));
                }
            }
        }
    }
}

/// Inserting a position into an ascending order leaves it ascending.
pub proof fn lemma_insert_ascends(order: Seq<int>, names: Seq<Seq<char>>, idx: int)
    requires
        ascends(order, names),
    ensures
        ascends(insert_by_name(order, names, idx), names),
    decreases order.len(),
{
    let next = insert_by_name(order, names, idx);
    if order.len() == 0 {
    } else if name_before(names[idx], names[order.last()]) {
        let front = order.drop_last();
        let last = order.last();
        let inner = insert_by_name(front, names, idx);
        assert(ascends(front, names)) by {
            assert forall|a: int, b: int| 0 <= a < b < front.len() implies !name_before(
                names[#[trigger] front[b]],
                names[#[trigger] front[a]],
            ) by {
                assert(front[a] == order[a] && front[b] == order[b]);
            }
        }
        lemma_insert_ascends(front, names, idx);
        lemma_insert_holds(front, names, idx);
        lemma_insert_by_name_len(front, names, idx);
        assert forall|a: int, b: int| 0 <= a < b < next.len() implies !name_before(
            names[#[trigger] next[b]],
            names[#[trigger] next[a]],
        ) by {
            if b < inner.len() {
                assert(next[a] == inner[a] && next[b] == inner[b]);
            } else {
                assert(next[b] == last);
                assert(next[a] == inner[a]);
                assert(inner.contains(inner[a]));
                if inner[a] == idx {
                    lemma_name_before_total(names[idx], names[last]);
                } else {
                    let j = choose|j: int| 0 <= j < front.len() && front[j] == inner[a];
                    assert(order[j] == inner[a]);
                    assert(order[order.len() - 1] == last);
                    assert(!name_before(names[order[order.len() - 1]], names[order[j]]));
                }
            }
        }
    } else {
        let last = order.last();
        assert forall|a: int, b: int| 0 <= a < b < next.len() implies !name_before(
            names[#[trigger] next[b]],
            names[#[trigger] next[a]],
        ) by {
            if b < order.len() {
                assert(next[a] == order[a] && next[b] == order[b]);
            } else {
                assert(next[b] == idx);
                assert(next[a] == order[a]);
                if a < order.len() - 1 {
                    assert(order[order.len() - 1] == last);
                    assert(!name_before(names[order[order.len() - 1]], names[order[a]]));
                    lemma_name_not_after_transitive(names[order[a]], names[last], names[idx]);
                }
            }
        }
    }
}

/// Inserting a position makes the order longer by one.
pub proof fn lemma_insert_by_name_len(order: Seq<int>, names: Seq<Seq<char>>, idx: int)
    ensures
        insert_by_name(order, names, idx).len() == order.len() + 1,
    decreases order.len(),
{
    if order.len() > 0 && name_before(names[idx], names[order.last()]) {
        lemma_insert_by_name_len(order.drop_last(), names, idx);
    }
}

/// `order_by_name` is what its name says: it lists each of the first `n`
/// positions once, and the names at the positions it lists ascend.
pub proof fn lemma_order_by_name_sorts(names: Seq<Seq<char>>, n: nat)
    ensures
        order_by_name(names, n).len() == n,
        order_by_name(names, n).no_duplicates(),
        forall|x: int| #[trigger] order_by_name(names, n).contains(x) <==> 0 <= x < n,
        ascends(order_by_name(names, n), names),
    decreases n,
{
    if n > 0 {
        let before = order_by_name(names, (n - 1) as nat);
        lemma_order_by_name_sorts(names, (n - 1) as nat);
        lemma_insert_holds(before, names, n - 1);
        lemma_insert_ascends(before, names, n - 1);
        lemma_insert_by_name_len(before, names, n - 1);
        assert(!before.contains(n - 1));
    }
}

/// The values of the entries, by ascending name.
pub open spec fn values_by_name(entries: Seq<(Seq<char>, ClxTree)>) -> Seq<ClxTree> {
    let order = order_by_name(names_of(entries), entries.len());
    Seq::new(order.len(), |j: int| entries[order[j]].1)
}

/// The children of a list-like value: the items of an array, or the
/// values of an object by ascending name. Other values have none.
pub open spec fn children(t: ClxTree) -> Option<Seq<ClxTree>> {
    match t {
        ClxTree::Array(items) => Some(items),
        ClxTree::Object(entries) => Some(values_by_name(entries)),
        _ => None,
    }
}

/// Every child that `children` lists is smaller than its parent.
pub proof fn lemma_children_decrease(t: ClxTree)
    ensures
        children(t) matches Some(items) ==> forall|j: int|
            0 <= j < items.len() ==> decreases_to!(t => #[trigger] items[j]),
{
    match t {
        ClxTree::Object(entries) => {
            lemma_order_by_name(names_of(entries), entries.len());
            let order = order_by_name(names_of(entries), entries.len());
            let items = values_by_name(entries);
            assert forall|j: int| 0 <= j < items.len() implies decreases_to!(t => #[trigger] items[j]) by {
                assert(0 <= order[j] < entries.len());
                assert(items[j] == entries[order[j]].1);
            }
        },
        _ => {},
    }
}

/// What a list of borrowed values says, in order.
pub open spec fn refs_view(items: Seq<&ClxValue>) -> Seq<ClxTree> {
    Seq::new(items.len(), |j: int| items[j]@)
}

fn insert_position(
    order: &mut Vec<usize>,
    entries: &Vec<(String, ClxValue)>,
    idx: usize,
    Ghost(names): Ghost<Seq<Seq<char>>>,
)
    requires
        names == names_of(entries_view(entries@)),
        idx < entries@.len(),
        forall|j: int| 0 <= j < old(order)@.len() ==> (#[trigger] old(order)@[j]) < entries@.len(),
    ensures
        final(order)@.map_values(|p: usize| p as int) == insert_by_name(
            old(order)@.map_values(|p: usize| p as int),
            names,
            idx as int,
        ),
        forall|j: int| 0 <= j < final(order)@.len() ==> (#[trigger] final(order)@[j]) < entries@.len(),
    decreases old(order)@.len(),
{
    let ghost before = order@.map_values(|p: usize| p as int);
    let n = order.len();
    if n == 0 {
        order.push(idx);
        assert(order@.map_values(|p: usize| p as int) =~= seq![idx as int]);
    } else {
        let last = order[n - 1];
        assert(before.last() == last as int);
        assert(names[idx as int] == entries@[idx as int].0@);
        assert(names[last as int] == entries@[last as int].0@);
        if is_name_before(entries[idx].0.as_str(), entries[last].0.as_str()) {
            order.pop();
            assert(order@.map_values(|p: usize| p as int) =~= before.drop_last());
            insert_position(order, entries, idx, Ghost(names));
            let ghost mid = order@.map_values(|p: usize| p as int);
            order.push(last);
            assert(order@.map_values(|p: usize| p as int) =~= mid.push(last as int));
        } else {
            order.push(idx);
            assert(order@.map_values(|p: usize| p as int) =~= before.push(idx as int));
        }
    }
}

/// The positions of the entries of an object, by ascending name.
pub fn positions_by_name(entries: &Vec<(String, ClxValue)>) -> (order: Vec<usize>)
    ensures
        order@.map_values(|p: usize| p as int) == order_by_name(
            names_of(entries_view(entries@)),
            entries@.len(),
        ),
        order@.len() == entries@.len(),
        forall|j: int| 0 <= j < order@.len() ==> (#[trigger] order@[j]) < entries@.len(),
{
    let ghost names = names_of(entries_view(entries@));
    let mut order: Vec<usize> = Vec::new();
    let mut i: usize = 0;
    assert(order@.map_values(|p: usize| p as int) =~= order_by_name(names, 0));
    while i < entries.len()
        invariant
            i <= entries@.len(),
            names == names_of(entries_view(entries@)),
            order@.map_values(|p: usize| p as int) == order_by_name(names, i as nat),
            forall|j: int| 0 <= j < order@.len() ==> (#[trigger] order@[j]) < entries@.len(),
        decreases entries@.len() - i,
    {
        insert_position(&mut order, entries, i, Ghost(names));
        i += 1;
    }
    proof {
        lemma_order_by_name(names, entries@.len());
        assert(order@.map_values(|p: usize| p as int).len() == order@.len());
    }
    order
}

/// Lists the children of a list-like value: the items of an array as
/// they stand, the values of an object by ascending name.
pub fn list_children(value: &ClxValue) -> (listed: Option<Vec<&ClxValue>>)
    ensures
        match listed {
            Some(items) => {
                &&& children(value@) == Some(refs_view(items@))
                &&& forall|j: int|
                    0 <= j < items@.len() ==> decreases_to!(value => #[trigger] items@[j])
            },
            None => children(value@) is None,
        },
{
    match value {
        ClxValue::Array(items) => {
            let mut out: Vec<&ClxValue> = Vec::new();
            let mut i: usize = 0;
            while i < items.len()
                invariant
                    i <= items@.len(),
                    out@.len() == i,
                    forall|j: int| 0 <= j < i ==> *(#[trigger] out@[j]) == items@[j],
                decreases items@.len() - i,
            {
                out.push(&items[i]);
                i += 1;
            }
            assert(refs_view(out@) =~= items_view(items@));
            Some(out)
        },
        ClxValue::Object(entries) => {
            let order = positions_by_name(entries);
            let ghost spec_order = order_by_name(
                names_of(entries_view(entries@)),
                entries@.len(),
            );
            let mut out: Vec<&ClxValue> = Vec::new();
            let mut i: usize = 0;
            while i < order.len()
                invariant
                    i <= order@.len(),
                    out@.len() == i,
                    forall|j: int| 0 <= j < order@.len() ==> (#[trigger] order@[j]) < entries@.len(),
                    forall|j: int| 0 <= j < i ==> *(#[trigger] out@[j]) == entries@[order@[j] as int].1,
                decreases order@.len() - i,
            {
                out.push(&entries[order[i]].1);
                i += 1;
            }
            proof {
                assert forall|j: int| 0 <= j < order@.len() implies spec_order[j] == order@[j] as int by {
                    assert(order@.map_values(|p: usize| p as int)[j] == order@[j] as int);
                }
                assert(refs_view(out@) =~= values_by_name(entries_view(entries@)));
            }
            Some(out)
        },
        _ => None,
    }
}

} // verus!
