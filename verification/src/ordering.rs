//! Stable ordering of a selection of indices by a numeric key, as a stable
//! sort by key leaves them.

use vstd::prelude::*;

verus! {

/// Index `a` goes before index `b`: smaller key first, and among equal keys
/// the smaller index first (the order a stable sort keeps).
pub open spec fn goes_before(keys: Seq<u128>, a: int, b: int) -> bool {
    keys[a] < keys[b] || (keys[a] == keys[b] && a < b)
}

/// `order` lists indices in strictly increasing `goes_before` order.
pub open spec fn ordered_by_key(keys: Seq<u128>, order: Seq<usize>) -> bool {
    forall|p: int, q: int| 0 <= p < q < order.len() ==> goes_before(keys, #[trigger] order[p] as int, #[trigger] order[q] as int)
}

/// `order` holds exactly the indices `i < keys.len()` with `selected[i]`.
pub open spec fn holds_exactly_selected(keys: Seq<u128>, selected: Seq<bool>, order: Seq<usize>) -> bool {
    &&& forall|p: int| 0 <= p < order.len() ==> (#[trigger] order[p]) < keys.len() && selected[order[p] as int]
    &&& forall|i: int| 0 <= i < keys.len() && selected[i] ==> order.contains(i as usize)
}

/// Lists the selected indices, smallest key first and, among equal keys, in
/// index order; this is the one sequence that `ordered_by_key` and
/// `holds_exactly_selected` allow (see `lemma_order_is_unique`).
pub fn order_by_key(keys: &Vec<u128>, selected: &Vec<bool>) -> (order: Vec<usize>)
    requires
        selected@.len() == keys@.len(),
    ensures
        ordered_by_key(keys@, order@),
        holds_exactly_selected(keys@, selected@, order@),
{
    let n = keys.len();
    let mut order: Vec<usize> = Vec::new();
    let mut i: usize = 0;
    while i < n
        invariant
            n == keys@.len(),
            selected@.len() == n,
            i <= n,
            ordered_by_key(keys@, order@),
            forall|p: int| 0 <= p < order@.len() ==> (#[trigger] order@[p]) < i && selected@[order@[p] as int],
            forall|j: int| 0 <= j < i && selected@[j] ==> order@.contains(j as usize),
        decreases n - i,
    {
        if selected[i] {
            // the first position whose index goes after `i`
            let mut pos: usize = 0;
            while pos < order.len() && keys[order[pos]] <= keys[i]
                invariant
                    n == keys@.len(),
                    i < n,
                    pos <= order@.len(),
                    forall|p: int| 0 <= p < order@.len() ==> (#[trigger] order@[p]) < i,
                    forall|p: int| 0 <= p < pos ==> keys@[#[trigger] order@[p] as int] <= keys@[i as int],
                decreases order@.len() - pos,
            {
                pos = pos + 1;
            }
            let ghost before = order@;
            proof {
                assert forall|p: int| pos <= p < before.len() implies keys@[i as int] < keys@[#[trigger] before[p] as int] by {
                    assert(goes_before(keys@, before[pos as int] as int, before[p] as int) || p == pos);
                }
            }
            order.insert(pos, i);
            proof {
                let o = order@;
                assert forall|p: int, q: int| 0 <= p < q < o.len() implies goes_before(keys@, #[trigger] o[p] as int, #[trigger] o[q] as int) by {
                    if q < pos {
                        assert(o[p] == before[p] && o[q] == before[q]);
                    } else if q == pos {
                        assert(o[p] == before[p]);
                    } else if p < pos {
                        assert(o[p] == before[p] && o[q] == before[q - 1]);
                        assert(goes_before(keys@, before[p] as int, before[q - 1] as int));
                    } else if p == pos {
                        assert(o[q] == before[q - 1]);
                    } else {
                        assert(o[p] == before[p - 1] && o[q] == before[q - 1]);
                    }
                }
                assert forall|j: int| 0 <= j < i + 1 && selected@[j] implies o.contains(j as usize) by {
                    if j == i {
                        assert(o[pos as int] == i);
                    } else {
                        let p = choose|p: int| 0 <= p < before.len() && before[p] == j as usize;
                        if p < pos {
                            assert(o[p] == before[p]);
                        } else {
                            assert(o[p + 1] == before[p]);
                        }
                    }
                }
                assert forall|p: int| 0 <= p < o.len() implies (#[trigger] o[p]) < i + 1 && selected@[o[p] as int] by {
                    if p < pos {
                        assert(o[p] == before[p]);
                    } else if p > pos {
                        assert(o[p] == before[p - 1]);
                    }
                }
            }
        }
        i = i + 1;
    }
    order
}

/// Two orderings that both list exactly the selected indices by
/// `goes_before` are the same sequence.
pub proof fn lemma_order_is_unique(keys: Seq<u128>, selected: Seq<bool>, a: Seq<usize>, b: Seq<usize>)
    requires
        selected.len() == keys.len(),
        keys.len() <= usize::MAX,
        ordered_by_key(keys, a),
        holds_exactly_selected(keys, selected, a),
        ordered_by_key(keys, b),
        holds_exactly_selected(keys, selected, b),
    ensures
        a == b,
    decreases a.len() + b.len(),
{
    if a.len() == 0 || b.len() == 0 {
        if a.len() > 0 {
            assert(b.contains(a[0]));
        }
        if b.len() > 0 {
            assert(a.contains(b[0]));
        }
        assert(a =~= b);
    } else {
        // the first elements agree: each is the least selected index
        assert(b.contains(a[0]));
        assert(a.contains(b[0]));
        let pa = choose|p: int| 0 <= p < a.len() && a[p] == b[0];
        let pb = choose|p: int| 0 <= p < b.len() && b[p] == a[0];
        if a[0] != b[0] {
            assert(pa > 0 && pb > 0);
            assert(goes_before(keys, a[0] as int, a[pa] as int));
            assert(goes_before(keys, b[0] as int, b[pb] as int));
            assert(false);
        }
        // drop it and recurse on a smaller selection
        let sel2 = selected.update(a[0] as int, false);
        let a2 = a.drop_first();
        let b2 = b.drop_first();
        assert(a[0] < keys.len());
        assert(sel2[a[0] as int] == false);
        assert forall|i: int| 0 <= i < keys.len() && sel2[i] implies selected[i] && i != a[0] as int by {
            if i == a[0] as int {
                assert(sel2[i] == false);
            }
        }
        assert forall|p: int| 0 <= p < a2.len() implies (#[trigger] a2[p]) < keys.len() && sel2[a2[p] as int] by {
            assert(a2[p] == a[p + 1]);
            assert(goes_before(keys, a[0] as int, a[p + 1] as int));
            assert(a2[p] != a[0]);
        }
        assert forall|p: int| 0 <= p < b2.len() implies (#[trigger] b2[p]) < keys.len() && sel2[b2[p] as int] by {
            assert(b2[p] == b[p + 1]);
            assert(goes_before(keys, b[0] as int, b[p + 1] as int));
            assert(b2[p] != b[0]);
        }
        assert forall|i: int| 0 <= i < keys.len() && sel2[i] implies a2.contains(i as usize) by {
            assert(i != a[0] as int);
            assert(a.contains(i as usize));
            let p = choose|p: int| 0 <= p < a.len() && a[p] == i as usize;
            assert(p != 0);
            assert(a2[p - 1] == a[p]);
        }
        assert forall|i: int| 0 <= i < keys.len() && sel2[i] implies b2.contains(i as usize) by {
            assert(i != b[0] as int);
            assert(b.contains(i as usize));
            let p = choose|p: int| 0 <= p < b.len() && b[p] == i as usize;
            assert(p != 0);
            assert(b2[p - 1] == b[p]);
        }
        assert forall|p: int, q: int| 0 <= p < q < a2.len() implies goes_before(keys, #[trigger] a2[p] as int, #[trigger] a2[q] as int) by {
            assert(a2[p] == a[p + 1] && a2[q] == a[q + 1]);
        }
        assert forall|p: int, q: int| 0 <= p < q < b2.len() implies goes_before(keys, #[trigger] b2[p] as int, #[trigger] b2[q] as int) by {
            assert(b2[p] == b[p + 1] && b2[q] == b[q + 1]);
        }
        lemma_order_is_unique(keys, sel2, a2, b2);
        assert(a.len() == b.len());
        assert forall|k: int| 0 <= k < a.len() implies a[k] == b[k] by {
            if k > 0 {
                assert(a[k] == a2[k - 1] && b[k] == b2[k - 1]);
            }
        }
        assert(a =~= b);
    }
}

} // verus!
