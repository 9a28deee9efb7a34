//! Planning a batch of render requests that a worker has drained from its
//! queue: a request for the same page (session, page number and width) as a
//! later one in the batch is superseded, and the others run by priority
//! (lower value first), ties in arrival order.

use vstd::prelude::*;
use crate::ordering::{order_by_key, ordered_by_key, holds_exactly_selected, goes_before};

verus! {

/// The parts of a pending render request that planning looks at.
pub struct PendingRender {
    pub session_id: String,
    pub page_number: u16,
    pub target_width: u16,
    pub render_priority: u16,
}

/// Two requests ask for the same rendered page.
pub open spec fn same_page(a: PendingRender, b: PendingRender) -> bool {
    &&& a.session_id@ == b.session_id@
    &&& a.page_number == b.page_number
    &&& a.target_width == b.target_width
}

/// Request `i` is superseded: a later request of the batch asks for the same
/// page.
pub open spec fn is_superseded(requests: Seq<PendingRender>, i: int) -> bool {
    exists|j: int| i < j < requests.len() && same_page(requests[i], #[trigger] requests[j])
}

/// The render priorities of a batch, as sort keys.
pub open spec fn priority_keys(requests: Seq<PendingRender>) -> Seq<u128> {
    Seq::new(requests.len(), |i: int| requests[i].render_priority as u128)
}

/// Which requests of a batch still run.
pub open spec fn runs(superseded: Seq<bool>) -> Seq<bool> {
    Seq::new(superseded.len(), |i: int| !superseded[i])
}

/// Marks every request of the batch that a later request supersedes.
pub fn superseded_requests(requests: &Vec<PendingRender>) -> (r: Vec<bool>)
    ensures
        r@.len() == requests@.len(),
        forall|i: int| 0 <= i < requests@.len() ==> #[trigger] r@[i] == is_superseded(requests@, i),
{
    let n = requests.len();
    let mut r: Vec<bool> = Vec::new();
    let mut i: usize = 0;
    while i < n
        invariant
            n == requests@.len(),
            i <= n,
            r@.len() == i,
            forall|k: int| 0 <= k < i ==> #[trigger] r@[k] == is_superseded(requests@, k),
        decreases n - i,
    {
        let mut found = false;
        let mut j: usize = i + 1;
        while j < n
            invariant
                n == requests@.len(),
                i < n,
                i + 1 <= j <= n,
                found == exists|k: int| i < k < j && same_page(requests@[i as int], #[trigger] requests@[k]),
            decreases n - j,
        {
            let a = &requests[i];
            let b = &requests[j];
            if a.session_id == b.session_id && a.page_number == b.page_number && a.target_width == b.target_width {
                found = true;
            }
            proof {
                if same_page(requests@[i as int], requests@[j as int]) {
                    assert(i < j && same_page(requests@[i as int], requests@[j as int]));
                }
            }
            j = j + 1;
        }
        r.push(found);
        i = i + 1;
    }
    r
}

/// The order in which the requests that are not superseded run: lowest
/// priority value first, ties in arrival order.
pub fn render_execution_order(requests: &Vec<PendingRender>, superseded: &Vec<bool>) -> (order: Vec<usize>)
    requires
        superseded@.len() == requests@.len(),
    ensures
        ordered_by_key(priority_keys(requests@), order@),
        holds_exactly_selected(priority_keys(requests@), runs(superseded@), order@),
        forall|p: int, q: int| 0 <= p < q < order@.len() ==> {
            let a = #[trigger] order@[p] as int;
            let b = #[trigger] order@[q] as int;
            requests@[a].render_priority < requests@[b].render_priority
                || (requests@[a].render_priority == requests@[b].render_priority && a < b)
        },
        forall|p: int| 0 <= p < order@.len() ==> (#[trigger] order@[p]) < requests@.len() && !superseded@[order@[p] as int],
        forall|i: int| 0 <= i < requests@.len() && !superseded@[i] ==> order@.contains(i as usize),
{
    let n = requests.len();
    let mut keys: Vec<u128> = Vec::new();
    let mut selected: Vec<bool> = Vec::new();
    let mut i: usize = 0;
    while i < n
        invariant
            n == requests@.len(),
            superseded@.len() == n,
            i <= n,
            keys@.len() == i,
            selected@.len() == i,
            forall|k: int| 0 <= k < i ==> #[trigger] keys@[k] == requests@[k].render_priority as u128,
            forall|k: int| 0 <= k < i ==> #[trigger] selected@[k] == !superseded@[k],
        decreases n - i,
    {
        keys.push(requests[i].render_priority as u128);
        selected.push(!superseded[i]);
        i = i + 1;
    }
    assert(keys@ =~= priority_keys(requests@));
    assert(selected@ =~= runs(superseded@));
    let order = order_by_key(&keys, &selected);
    proof {
        lemma_execution_order_by_priority(requests@, superseded@, order@);
    }
    order
}

/// What to do with a drained batch of render requests.
pub struct RenderBatchPlan {
    /// `superseded[i]`: request `i` is answered as superseded, not rendered.
    pub superseded: Vec<bool>,
    /// The indices of the requests to render, in the order to render them.
    pub execution_order: Vec<usize>,
}

/// Plans a batch: which requests are superseded, and in which order the
/// others run.
pub fn plan_render_batch(requests: &Vec<PendingRender>) -> (plan: RenderBatchPlan)
    ensures
        plan.superseded@.len() == requests@.len(),
        forall|i: int| 0 <= i < requests@.len() ==> #[trigger] plan.superseded@[i] == is_superseded(requests@, i),
        ordered_by_key(priority_keys(requests@), plan.execution_order@),
        holds_exactly_selected(priority_keys(requests@), runs(plan.superseded@), plan.execution_order@),
        forall|i: int, j: int| 0 <= i < j < requests@.len()
            && (#[trigger] requests@[i]).session_id@ == (#[trigger] requests@[j]).session_id@
            && requests@[i].page_number == requests@[j].page_number
            && requests@[i].target_width == requests@[j].target_width ==> plan.superseded@[i],
        forall|i: int| 0 <= i < requests@.len() && #[trigger] plan.superseded@[i] ==> exists|j: int| i < j < requests@.len()
            && requests@[i].session_id@ == (#[trigger] requests@[j]).session_id@
            && requests@[i].page_number == requests@[j].page_number
            && requests@[i].target_width == requests@[j].target_width,
        forall|p: int, q: int| 0 <= p < q < plan.execution_order@.len() ==> {
            let a = #[trigger] plan.execution_order@[p] as int;
            let b = #[trigger] plan.execution_order@[q] as int;
            requests@[a].render_priority < requests@[b].render_priority
                || (requests@[a].render_priority == requests@[b].render_priority && a < b)
        },
        forall|p: int| 0 <= p < plan.execution_order@.len() ==> (#[trigger] plan.execution_order@[p]) < requests@.len() && !plan.superseded@[plan.execution_order@[p] as int],
        forall|i: int| 0 <= i < requests@.len() && !plan.superseded@[i] ==> plan.execution_order@.contains(i as usize),
{
    let superseded = superseded_requests(requests);
    let execution_order = render_execution_order(requests, &superseded);
    proof {
        assert forall|i: int, j: int| 0 <= i < j < requests@.len()
            && (#[trigger] requests@[i]).session_id@ == (#[trigger] requests@[j]).session_id@
            && requests@[i].page_number == requests@[j].page_number
            && requests@[i].target_width == requests@[j].target_width implies superseded@[i] by {
            assert(same_page(requests@[i], requests@[j]));
            assert(is_superseded(requests@, i));
        }
    }
    RenderBatchPlan { superseded, execution_order }
}

/// The execution order runs requests by their raw priority, lower value
/// first, and among equal priorities in arrival order; it holds exactly the
/// requests that are not superseded.
pub proof fn lemma_execution_order_by_priority(requests: Seq<PendingRender>, superseded: Seq<bool>, order: Seq<usize>)
    requires
        superseded.len() == requests.len(),
        ordered_by_key(priority_keys(requests), order),
        holds_exactly_selected(priority_keys(requests), runs(superseded), order),
    ensures
        forall|p: int, q: int| 0 <= p < q < order.len() ==> {
            let a = #[trigger] order[p] as int;
            let b = #[trigger] order[q] as int;
            requests[a].render_priority < requests[b].render_priority
                || (requests[a].render_priority == requests[b].render_priority && a < b)
        },
        forall|p: int| 0 <= p < order.len() ==> (#[trigger] order[p]) < requests.len() && !superseded[order[p] as int],
        forall|i: int| 0 <= i < requests.len() && !superseded[i] ==> order.contains(i as usize),
{
    let keys = priority_keys(requests);
    assert forall|p: int, q: int| 0 <= p < q < order.len() implies {
        let a = #[trigger] order[p] as int;
        let b = #[trigger] order[q] as int;
        requests[a].render_priority < requests[b].render_priority
            || (requests[a].render_priority == requests[b].render_priority && a < b)
    } by {
        assert(goes_before(keys, order[p] as int, order[q] as int));
        assert(order[p] < keys.len() && order[q] < keys.len());
    }
    assert forall|p: int| 0 <= p < order.len() implies (#[trigger] order[p]) < requests.len() && !superseded[order[p] as int] by {
        assert(runs(superseded)[order[p] as int]);
    }
    assert forall|i: int| 0 <= i < requests.len() && !superseded[i] implies order.contains(i as usize) by {
        assert(runs(superseded)[i]);
    }
}

/// Every request of a planned batch gets exactly one answer: it is either
/// superseded, or it appears once in the execution order.
pub proof fn lemma_every_request_answered_once(requests: Seq<PendingRender>, superseded: Seq<bool>, order: Seq<usize>)
    requires
        superseded.len() == requests.len(),
        requests.len() <= usize::MAX,
        ordered_by_key(priority_keys(requests), order),
        holds_exactly_selected(priority_keys(requests), runs(superseded), order),
    ensures
        forall|i: int| 0 <= i < requests.len() ==> (#[trigger] superseded[i] <==> !order.contains(i as usize)),
        forall|p: int, q: int| 0 <= p < order.len() && 0 <= q < order.len() && p != q ==> #[trigger] order[p] != #[trigger] order[q],
{
    let keys = priority_keys(requests);
    assert forall|i: int| 0 <= i < requests.len() implies (#[trigger] superseded[i] <==> !order.contains(i as usize)) by {
        if order.contains(i as usize) {
            let p = choose|p: int| 0 <= p < order.len() && order[p] == i as usize;
            assert(runs(superseded)[order[p] as int]);
        } else {
            if !superseded[i] {
                assert(runs(superseded)[i]);
            }
        }
    }
    assert forall|p: int, q: int| 0 <= p < order.len() && 0 <= q < order.len() && p != q implies #[trigger] order[p] != #[trigger] order[q] by {
        if p < q {
            assert(goes_before(keys, order[p] as int, order[q] as int));
        } else {
            assert(goes_before(keys, order[q] as int, order[p] as int));
        }
    }
}

/// No two requests that run in one batch ask for the same page.
pub proof fn lemma_one_render_per_page(requests: Seq<PendingRender>, superseded: Seq<bool>, i: int, j: int)
    requires
        superseded.len() == requests.len(),
        forall|k: int| 0 <= k < requests.len() ==> #[trigger] superseded[k] == is_superseded(requests, k),
        0 <= i < j < requests.len(),
        !superseded[i],
        !superseded[j],
    ensures
        !same_page(requests[i], requests[j]),
{
    if same_page(requests[i], requests[j]) {
        assert(is_superseded(requests, i));
    }
}

/// The latest request for each page in a batch is the one that runs: for
/// every request, a request for the same page at the same place or later is
/// not superseded.
pub proof fn lemma_latest_request_runs(requests: Seq<PendingRender>, i: int)
    requires
        0 <= i < requests.len(),
    ensures
        exists|j: int| i <= j < requests.len() && same_page(requests[i], requests[j]) && !is_superseded(requests, j),
    decreases requests.len() - i,
{
    if is_superseded(requests, i) {
        let k = choose|k: int| i < k < requests.len() && same_page(requests[i], #[trigger] requests[k]);
        lemma_latest_request_runs(requests, k);
        let j = choose|j: int| k <= j < requests.len() && same_page(requests[k], requests[j]) && !is_superseded(requests, j);
        assert(i <= j < requests.len() && same_page(requests[i], requests[j]) && !is_superseded(requests, j));
    } else {
        assert(same_page(requests[i], requests[i]));
    }
}

} // verus!
