//! The cells of a sheet in order, row by row.

use vstd::prelude::*;
use vstd::std_specs::cmp::OrdSpec;

use crate::model::{Coord, Sheet};

verus! {

/// Whether a cell comes before another, row by row.
pub open spec fn precedes(a: Coord, b: Coord) -> bool {
    a.0 < b.0 || (a.0 == b.0 && a.1 < b.1)
}

/// Whether `keys` are the cells of `dom`, row by row.
pub open spec fn lists(keys: Seq<Coord>, dom: Set<Coord>) -> bool {
    &&& forall|i: int, j: int|
        0 <= i < j < keys.len() ==> precedes(#[trigger] keys[i], #[trigger] keys[j])
    &&& forall|c: Coord| dom.contains(c) <==> #[trigger] keys.contains(c)
}

/// The cells of a set, row by row.
pub open spec fn in_order(dom: Set<Coord>) -> Seq<Coord> {
    choose|keys: Seq<Coord>| lists(keys, dom)
}

/// A set of cells is listed in one way only.
pub proof fn listed_once(a: Seq<Coord>, b: Seq<Coord>, dom: Set<Coord>)
    requires
        lists(a, dom),
        lists(b, dom),
    ensures
        a == b,
    decreases a.len(),
{
    if a.len() == 0 {
        assert(b.len() == 0) by {
            if b.len() > 0 {
                assert(b.contains(b[0]));
                assert(a.contains(b[0]));
            }
        }
    } else {
        let x = a.last();
        assert(a.contains(x));
        assert(b.contains(x));
        let y = b.last();
        assert(b.contains(y));
        assert(a.contains(y));
        let i = choose|i: int| 0 <= i < a.len() && a[i] == y;
        let j = choose|j: int| 0 <= j < b.len() && b[j] == x;
        assert(i == a.len() - 1 || precedes(a[i], a[a.len() - 1]));
        assert(j == b.len() - 1 || precedes(b[j], b[b.len() - 1]));
        assert(x == y);
        list_without_last(a, dom);
        list_without_last(b, dom);
        listed_once(a.drop_last(), b.drop_last(), dom.remove(x));
        assert(a =~= a.drop_last().push(x));
        assert(b =~= b.drop_last().push(y));
    }
}

/// Without its last cell, a list lists the set without that cell.
proof fn list_without_last(keys: Seq<Coord>, dom: Set<Coord>)
    requires
        lists(keys, dom),
        keys.len() > 0,
    ensures
        lists(keys.drop_last(), dom.remove(keys.last())),
{
    let init = keys.drop_last();
    let last = keys.last();
    assert forall|c: Coord| dom.remove(last).contains(c) <==> #[trigger] init.contains(c) by {
        if dom.remove(last).contains(c) {
            assert(keys.contains(c));
            let i = choose|i: int| 0 <= i < keys.len() && keys[i] == c;
            assert(init[i] == c);
        }
        if init.contains(c) {
            let i = choose|i: int| 0 <= i < init.len() && init[i] == c;
            assert(keys[i] == c);
            assert(precedes(keys[i], keys[keys.len() - 1]));
            assert(keys.contains(c));
        }
    }
}

/// The last cell of a set.
proof fn last_cell(dom: Set<Coord>) -> (last: Coord)
    requires
        dom.finite(),
        dom.len() > 0,
    ensures
        dom.contains(last),
        forall|c: Coord| #[trigger] dom.contains(c) && c != last ==> precedes(c, last),
    decreases dom.len(),
{
    let c = dom.choose();
    let rest = dom.remove(c);
    if rest.len() == 0 {
        assert forall|d: Coord| #[trigger] dom.contains(d) && d != c implies precedes(d, c) by {
            assert(rest.contains(d));
        }
        c
    } else {
        let last = last_cell(rest);
        assert forall|d: Coord| #[trigger] dom.contains(d) && d != c && d != last implies precedes(
            d,
            last,
        ) by {
            assert(rest.contains(d));
        }
        if precedes(last, c) {
            c
        } else {
            last
        }
    }
}

/// A finite set of cells can be listed.
pub proof fn listed(dom: Set<Coord>)
    requires
        dom.finite(),
    ensures
        lists(in_order(dom), dom),
    decreases dom.len(),
{
    let keys = if dom.len() == 0 {
        let keys = Seq::<Coord>::empty();
        assert(lists(keys, dom));
        keys
    } else {
        let last = last_cell(dom);
        let rest = dom.remove(last);
        listed(rest);
        let init = in_order(rest);
        let keys = init.push(last);
        assert forall|i: int, j: int| 0 <= i < j < keys.len() implies precedes(
            #[trigger] keys[i],
            #[trigger] keys[j],
        ) by {
            if j == init.len() {
                assert(init.contains(init[i]));
                assert(rest.contains(init[i]));
                assert(dom.contains(init[i]));
            }
        }
        assert forall|c: Coord| dom.contains(c) <==> #[trigger] keys.contains(c) by {
            if dom.contains(c) {
                if c == last {
                    assert(keys[init.len() as int] == c);
                } else {
                    assert(rest.contains(c));
                    assert(init.contains(c));
                    let i = choose|i: int| 0 <= i < init.len() && init[i] == c;
                    assert(keys[i] == c);
                }
            }
            if keys.contains(c) {
                let i = choose|i: int| 0 <= i < keys.len() && keys[i] == c;
                if i < init.len() {
                    assert(init[i] == c);
                    assert(init.contains(c));
                }
            }
        }
        keys
    };
    assert(lists(keys, dom));
}

/// Whether keys follow each other row by row.
spec fn row_by_row(keys: Seq<&Coord>) -> bool {
    forall|i: int, j: int|
        0 <= i < j < keys.len() ==> precedes(*#[trigger] keys[i], *#[trigger] keys[j])
}

/// Keys in increasing order follow each other row by row.
proof fn increasing_keys(keys: Seq<&Coord>)
    requires
        vstd::std_specs::btree::increasing_seq(keys),
    ensures
        row_by_row(keys),
{
    broadcast use vstd::laws_eq::group_laws_eq;
    broadcast use vstd::laws_cmp::group_laws_cmp;

    reveal(vstd::laws_eq::obeys_eq_spec_properties);
    reveal(vstd::laws_cmp::obeys_partial_cmp_spec_properties);
    reveal(vstd::laws_cmp::obeys_cmp_partial_ord);
    reveal(vstd::laws_cmp::obeys_cmp_ord);
    assert(vstd::laws_cmp::obeys_cmp::<Coord>());
    assert(vstd::laws_cmp::obeys_cmp::<&Coord>());
    assert forall|i: int, j: int| 0 <= i < j < keys.len() implies precedes(
        *#[trigger] keys[i],
        *#[trigger] keys[j],
    ) by {
        assert(OrdSpec::cmp_spec(&keys[i], &keys[j]) is Less);
    }
}

/// Whether `keys` are the first of the keys that `from` refers to.
spec fn copied(keys: Seq<Coord>, from: Seq<&Coord>) -> bool {
    &&& keys.len() <= from.len()
    &&& forall|i: int| 0 <= i < keys.len() ==> keys[i] == *from[i]
}

/// Copies of all the keys of a set, in increasing order, list the set.
proof fn copied_keys_list(keys: Seq<Coord>, from: Seq<&Coord>)
    requires
        copied(keys, from),
        keys.len() == from.len(),
        row_by_row(from),
    ensures
        lists(keys, from.unref().to_set()),
{
    assert(keys =~= from.unref());
}

/// The stored cells of a sheet, row by row.
pub fn coords(sheet: &Sheet) -> (keys: Vec<(u32, u32)>)
    ensures
        lists(keys@, sheet@.cells.dom()),
        keys@ == in_order(sheet@.cells.dom()),
{
    let mut keys: Vec<(u32, u32)> = Vec::new();
    assert forall|from: Seq<&Coord>| #[trigger]
        vstd::std_specs::btree::increasing_seq(from) implies row_by_row(from) by {
        increasing_keys(from);
    }
    for k in it: sheet.cells.keys()
        invariant
            keys@.len() == it.index(),
            copied(keys@, it.seq()),
            it.seq().unref().to_set() == sheet.cells@.dom(),
            row_by_row(it.seq()),
    {
        keys.push(*k);
    }
    assert forall|from: Seq<&Coord>|
        #![trigger copied(keys@, from)]
        copied(keys@, from) && keys@.len() == from.len() && row_by_row(from) implies lists(
        keys@,
        from.unref().to_set(),
    ) by {
        copied_keys_list(keys@, from);
    }
    assert(sheet@.cells.dom() =~= sheet.cells@.dom());
    proof {
        listed_once(keys@, in_order(sheet@.cells.dom()), sheet@.cells.dom());
    }
    keys
}

} // verus!
