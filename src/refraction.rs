//! The stack of transparent shapes that a ray is inside of.
//!
//! Walking the intersections of a ray in ascending order, a shape met for the
//! first time is entered and pushed; a shape met again is left and removed.
//! The media on the two sides of an intersection are the shapes on top of the
//! stack just before and just after it. Shapes are told apart by an identity
//! token; the stack holds positions into the intersection list.

use vstd::prelude::*;

verus! {

/// Whether some entry of `stack` points at an intersection with shape `id`.
pub open spec fn entered(ids: Seq<usize>, stack: Seq<usize>, id: usize) -> bool {
    exists|k: int| 0 <= k < stack.len() && ids[stack[k] as int] == id
}

/// The stack after handling intersection `i`.
pub open spec fn next_stack(ids: Seq<usize>, stack: Seq<usize>, i: int) -> Seq<usize> {
    if entered(ids, stack, ids[i]) {
        let k = choose|k: int| 0 <= k < stack.len() && ids[stack[k] as int] == ids[i];
        stack.remove(k)
    } else {
        stack.push(i as usize)
    }
}

/// The stack before intersection `n`, that is, after the first `n` ones.
pub open spec fn stack_before(ids: Seq<usize>, n: nat) -> Seq<usize>
    decreases n,
{
    if n == 0 {
        Seq::empty()
    } else {
        next_stack(ids, stack_before(ids, (n - 1) as nat), n - 1)
    }
}

/// The top of a stack, if any.
pub open spec fn top(stack: Seq<usize>) -> Option<usize> {
    if stack.len() == 0 {
        None
    } else {
        Some(stack.last())
    }
}

/// How often shape `id` occurs among the first `n` intersections.
pub open spec fn occurrences(ids: Seq<usize>, id: usize, n: nat) -> nat
    decreases n,
{
    if n == 0 {
        0
    } else {
        occurrences(ids, id, (n - 1) as nat) + if ids[n - 1] == id {
            1nat
        } else {
            0nat
        }
    }
}

/// No shape is twice on the stack, and every entry points before `n`.
pub open spec fn stack_wf(ids: Seq<usize>, stack: Seq<usize>, n: nat) -> bool {
    &&& forall|k: int| 0 <= k < stack.len() ==> stack[k] < n
    &&& forall|a: int, b: int|
        0 <= a < b < stack.len() ==> ids[stack[a] as int] != ids[stack[b] as int]
}

/// The media on the two sides of intersection `hit`: the positions of the
/// intersections whose shapes are on top of the stack before and after it.
pub open spec fn sides(ids: Seq<usize>, hit: nat) -> (Option<usize>, Option<usize>) {
    if hit < ids.len() {
        (top(stack_before(ids, hit)), top(stack_before(ids, hit + 1)))
    } else {
        (None, None)
    }
}

proof fn lemma_remove_keeps_wf(ids: Seq<usize>, stack: Seq<usize>, n: nat, k: int)
    requires
        stack_wf(ids, stack, n),
        0 <= k < stack.len(),
    ensures
        stack_wf(ids, stack.remove(k), n + 1),
{
    let r = stack.remove(k);
    assert forall|a: int, b: int| 0 <= a < b < r.len() implies ids[r[a] as int] != ids[r[b] as int] by {
        let a0 = if a < k { a } else { a + 1 };
        let b0 = if b < k { b } else { b + 1 };
        assert(r[a] == stack[a0] && r[b] == stack[b0]);
    }
}

/// Every stack that the walk produces is well formed.
pub proof fn lemma_stack_wf(ids: Seq<usize>, n: nat)
    requires
        n <= ids.len() <= usize::MAX,
    ensures
        stack_wf(ids, stack_before(ids, n), n),
    decreases n,
{
    if n > 0 {
        let m = (n - 1) as nat;
        lemma_stack_wf(ids, m);
        let s = stack_before(ids, m);
        if entered(ids, s, ids[m as int]) {
            let k = choose|k: int| 0 <= k < s.len() && ids[s[k] as int] == ids[m as int];
            lemma_remove_keeps_wf(ids, s, m, k);
        } else {
            let t = s.push(m as usize);
            assert forall|a: int, b: int| 0 <= a < b < t.len() implies ids[t[a] as int]
                != ids[t[b] as int] by {
                assert(t[a] == s[a]);
                if b == s.len() {
                    assert(t[b] as int == m);
                    assert(!entered(ids, s, ids[m as int]));
                    assert(ids[s[a] as int] != ids[m as int]);
                } else {
                    assert(t[b] == s[b]);
                }
            }
        }
    }
}

/// A shape is on the stack exactly when the ray has met it an odd number of
/// times so far: entering and leaving alternate.
pub proof fn lemma_inside_iff_odd(ids: Seq<usize>, id: usize, n: nat)
    requires
        n <= ids.len() <= usize::MAX,
    ensures
        entered(ids, stack_before(ids, n), id) <==> occurrences(ids, id, n) % 2 == 1,
    decreases n,
{
    if n > 0 {
        let m = (n - 1) as nat;
        lemma_inside_iff_odd(ids, id, m);
        lemma_stack_wf(ids, m);
        let s = stack_before(ids, m);
        let cur = ids[m as int];
        if entered(ids, s, cur) {
            let k = choose|k: int| 0 <= k < s.len() && ids[s[k] as int] == cur;
            let r = s.remove(k);
            if cur == id {
                assert(!entered(ids, r, id)) by {
                    if entered(ids, r, id) {
                        let j = choose|j: int| 0 <= j < r.len() && ids[r[j] as int] == id;
                        let j0 = if j < k { j } else { j + 1 };
                        assert(r[j] == s[j0]);
                    }
                }
            } else {
                assert(entered(ids, r, id) <==> entered(ids, s, id)) by {
                    if entered(ids, s, id) {
                        let j = choose|j: int| 0 <= j < s.len() && ids[s[j] as int] == id;
                        let j1 = if j < k { j } else { j - 1 };
                        assert(r[j1] == s[j]);
                    }
                    if entered(ids, r, id) {
                        let j = choose|j: int| 0 <= j < r.len() && ids[r[j] as int] == id;
                        let j0 = if j < k { j } else { j + 1 };
                        assert(r[j] == s[j0]);
                    }
                }
            }
        } else {
            let t = s.push(m as usize);
            assert(t[s.len() as int] as int == m);
            if cur == id {
                assert(ids[t[s.len() as int] as int] == id);
                assert(entered(ids, t, id));
            } else {
                assert(entered(ids, t, id) <==> entered(ids, s, id)) by {
                    if entered(ids, s, id) {
                        let j = choose|j: int| 0 <= j < s.len() && ids[s[j] as int] == id;
                        assert(t[j] == s[j]);
                    }
                    if entered(ids, t, id) {
                        let j = choose|j: int| 0 <= j < t.len() && ids[t[j] as int] == id;
                        if j < s.len() {
                            assert(t[j] == s[j]);
                        }
                    }
                }
            }
        }
    }
}

/// The intersections whose shapes bound the medium on either side of
/// intersection `hit`, given the identity token of each intersection's shape
/// in ascending order of `t`: the first on the side the ray comes from, the
/// second on the side it goes to. `None` stands for empty space. A `hit`
/// past the end of the list has empty space on both sides.
pub fn refraction_sides(ids: &Vec<usize>, hit: usize) -> (r: (Option<usize>, Option<usize>))
    ensures
        r == sides(ids@, hit as nat),
{
    if hit >= ids.len() {
        return (None, None);
    }
    let mut stack: Vec<usize> = Vec::new();
    let mut i: usize = 0;
    while i < hit
        invariant
            i <= hit < ids.len(),
            stack@ == stack_before(ids@, i as nat),
            stack_wf(ids@, stack@, i as nat),
        decreases hit - i,
    {
        step(ids, &mut stack, i);
        proof {
            lemma_stack_wf(ids@, (i + 1) as nat);
        }
        i = i + 1;
    }
    let before = if stack.len() == 0 {
        None
    } else {
        Some(stack[stack.len() - 1])
    };
    step(ids, &mut stack, hit);
    let after = if stack.len() == 0 {
        None
    } else {
        Some(stack[stack.len() - 1])
    };
    (before, after)
}

/// Handles intersection `i`: leaves its shape if on the stack, else enters it.
fn step(ids: &Vec<usize>, stack: &mut Vec<usize>, i: usize)
    requires
        i < ids.len(),
        stack_wf(ids@, old(stack)@, i as nat),
    ensures
        final(stack)@ == next_stack(ids@, old(stack)@, i as int),
{
    let id = ids[i];
    let mut k: usize = 0;
    while k < stack.len() && ids[stack[k]] != id
        invariant
            k <= stack.len(),
            i < ids.len(),
            stack_wf(ids@, stack@, i as nat),
            forall|j: int| 0 <= j < k ==> ids@[stack@[j] as int] != id,
        decreases stack.len() - k,
    {
        k = k + 1;
    }
    if k < stack.len() {
        proof {
            let s = stack@;
            assert(entered(ids@, s, id));
            let c = choose|c: int| 0 <= c < s.len() && ids@[s[c] as int] == id;
            assert(c == k as int) by {
                if c < k {
                } else if c > k {
                }
            }
        }
        stack.remove(k);
    } else {
        stack.push(i);
    }
}

} // verus!
