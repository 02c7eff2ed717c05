//! Parent chains through a closed set.
//!
//! Both engines reconstruct paths by following parent links through their
//! closed set, removing each visited entry as they go.  `chain_ok` states
//! that such a walk is safe: starting from a parent link, every ancestor
//! is present, and the links terminate without revisiting an entry.

use vstd::prelude::*;

use crate::grid::GridNodePosition;

verus! {

/// The walk from `from` through the parent map `pm` reaches a root
/// (a `None` link) while finding every ancestor present, never visiting
/// an entry twice (each step removes the entry it passed through, exactly
/// as path reconstruction does).
pub open spec fn chain_ok(
    pm: Map<GridNodePosition, Option<GridNodePosition>>,
    from: Option<GridNodePosition>,
) -> bool
    decreases pm.dom().len(),
{
    match from {
        Option::None => true,
        Option::Some(q) => {
            &&& pm.dom().finite()
            &&& pm.dom().contains(q)
            &&& chain_ok(pm.remove(q), pm[q])
        },
    }
}

/// The number of steps the walk takes before reaching a root: the length
/// of the ancestor chain.  Meaningful when `chain_ok` holds of the same
/// walk.
pub open spec fn chain_len(
    pm: Map<GridNodePosition, Option<GridNodePosition>>,
    from: Option<GridNodePosition>,
) -> nat
    decreases pm.dom().len(),
{
    match from {
        Option::None => 0,
        Option::Some(q) => {
            if pm.dom().finite() && pm.dom().contains(q) {
                1 + chain_len(pm.remove(q), pm[q])
            } else {
                0
            }
        },
    }
}

/// Adding an entry an intact chain does not pass through changes neither
/// the chain's soundness nor its length.
pub proof fn lemma_chain_len_insert(
    pm: Map<GridNodePosition, Option<GridNodePosition>>,
    from: Option<GridNodePosition>,
    k: GridNodePosition,
    v: Option<GridNodePosition>,
)
    requires
        chain_ok(pm, from),
        !pm.dom().contains(k),
        pm.dom().finite(),
    ensures
        chain_len(pm.insert(k, v), from) == chain_len(pm, from),
    decreases pm.dom().len(),
{
    match from {
        Option::None => {},
        Option::Some(q) => {
            assert(q != k);
            assert(pm.insert(k, v)[q] == pm[q]);
            assert(pm.insert(k, v).remove(q) =~= pm.remove(q).insert(k, v));
            lemma_chain_len_insert(pm.remove(q), pm[q], k, v);
        },
    }
}

/// Adding an entry the chain does not pass through keeps the chain intact.
pub proof fn lemma_chain_ok_insert(
    pm: Map<GridNodePosition, Option<GridNodePosition>>,
    from: Option<GridNodePosition>,
    k: GridNodePosition,
    v: Option<GridNodePosition>,
)
    requires
        chain_ok(pm, from),
        !pm.dom().contains(k),
        pm.dom().finite(),
    ensures
        chain_ok(pm.insert(k, v), from),
    decreases pm.dom().len(),
{
    match from {
        Option::None => {},
        Option::Some(q) => {
            assert(q != k);
            assert(pm.insert(k, v)[q] == pm[q]);
            assert(pm.insert(k, v).remove(q) =~= pm.remove(q).insert(k, v));
            lemma_chain_ok_insert(pm.remove(q), pm[q], k, v);
        },
    }
}

/// A chain is unaffected by entries it does not pass through: it only
/// depends on the submap it visits.  In particular, restoring an entry
/// that was removed before the walk started leaves the walk intact.
pub proof fn lemma_chain_ok_still_ok_after_reinsert(
    pm: Map<GridNodePosition, Option<GridNodePosition>>,
    from: Option<GridNodePosition>,
    k: GridNodePosition,
)
    requires
        chain_ok(pm.remove(k), from),
        pm.dom().finite(),
        pm.dom().contains(k),
    ensures
        chain_ok(pm, from),
{
    lemma_chain_ok_insert(pm.remove(k), from, k, pm[k]);
    assert(pm.remove(k).insert(k, pm[k]) =~= pm);
}

} // verus!
