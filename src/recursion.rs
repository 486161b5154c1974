//! The budget of secondary rays. A reflected or refracted ray is cast only
//! while the budget lasts, and each one is cast with a budget one smaller, so
//! the recursion of shading always ends.

use vstd::prelude::*;

verus! {

/// The budget to cast a secondary ray with, given the budget of the current
/// one and whether the material lets that ray contribute at all (it reflects,
/// or it is transparent). `None` means no ray is cast and the contribution
/// is black.
pub fn bounce_depth(depth: u8, contributes: bool) -> (r: Option<u8>)
    ensures
        r == bounce_spec(depth, contributes),
        depth == 0 ==> r is None,
        r matches Some(d) ==> d < depth,
{
    if depth == 0 || !contributes {
        None
    } else {
        Some(depth - 1)
    }
}

/// Recursion ends: in a chain of rays where each secondary ray is cast with
/// the budget that `bounce_depth` handed out for the ray before it, the
/// budgets fall by one at each step, so a chain that starts from budget
/// `depth` holds at most `depth + 1` rays.
pub proof fn lemma_chain_ends(chain: Seq<u8>, depth: u8)
    requires
        chain.len() > 0,
        chain[0] == depth,
        forall|i: int|
            0 <= i < chain.len() - 1 ==> #[trigger] bounce_spec(chain[i], true) == Some(
                chain[i + 1],
            ),
    ensures
        chain.len() <= depth + 1,
        forall|i: int| 0 <= i < chain.len() ==> chain[i] as int == depth - i,
{
    assert forall|i: int| 0 <= i < chain.len() implies chain[i] as int == depth - i by {
        lemma_chain_step(chain, depth, i);
    }
    assert(chain[chain.len() - 1] as int == depth - (chain.len() - 1));
}

proof fn lemma_chain_step(chain: Seq<u8>, depth: u8, i: int)
    requires
        0 <= i < chain.len(),
        chain[0] == depth,
        forall|i: int|
            0 <= i < chain.len() - 1 ==> #[trigger] bounce_spec(chain[i], true) == Some(
                chain[i + 1],
            ),
    ensures
        chain[i] as int == depth - i,
    decreases i,
{
    if i > 0 {
        lemma_chain_step(chain, depth, i - 1);
        assert(bounce_spec(chain[i - 1], true) == Some(chain[i]));
    }
}

/// What `bounce_depth` returns.
pub open spec fn bounce_spec(depth: u8, contributes: bool) -> Option<u8> {
    if depth == 0 || !contributes {
        None
    } else {
        Some((depth - 1) as u8)
    }
}

} // verus!
