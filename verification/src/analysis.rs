//! Which spans bear on which structure.
//!
//! A structure is loaded by the span behind it (where it is the span's end) and the
//! span ahead of it (where it is the span's start); a line terminal has only one of
//! the two. The loads themselves are floating-point and computed by the
//! application; this module decides which spans each structure sees.
use vstd::prelude::*;

verus! {

/// The span behind structure `i`: span `i - 1`, if there is one and it was solved.
pub open spec fn back_span<G>(spans: Seq<Option<G>>, i: int) -> Option<G> {
    if 0 < i && i - 1 < spans.len() {
        spans[i - 1]
    } else {
        None
    }
}

/// The span ahead of structure `i`: span `i`, if there is one and it was solved.
pub open spec fn ahead_span<G>(spans: Seq<Option<G>>, i: int) -> Option<G> {
    if 0 <= i < spans.len() {
        spans[i]
    } else {
        None
    }
}

/// For the first `k` structures, in order, each structure that sees at least one
/// span: its index with its back and ahead span.
pub open spec fn supports_upto<G>(spans: Seq<Option<G>>, k: nat) -> Seq<(usize, Option<G>, Option<G>)>
    decreases k,
{
    if k == 0 {
        Seq::empty()
    } else {
        let i = k - 1;
        let prev = supports_upto(spans, (k - 1) as nat);
        if back_span(spans, i) is None && ahead_span(spans, i) is None {
            prev
        } else {
            prev.push((i as usize, back_span(spans, i), ahead_span(spans, i)))
        }
    }
}

/// Whether structure `j` has a solved span behind or ahead of it.
pub open spec fn has_solved_neighbour<G>(spans: Seq<Option<G>>, j: int) -> bool {
    (0 < j && j - 1 < spans.len() && spans[j - 1] is Some) || (0 <= j < spans.len() && spans[j] is Some)
}

/// Each entry `(j, back, ahead)` names structure `j < n` and lists the span that ends
/// at it (`spans[j − 1]`) and the span that starts at it (`spans[j]`), `None` past
/// either end; the entries come in structure order, one per structure that has a
/// solved span on some side, and no other structure appears.
pub proof fn law_supports_name_their_structure<G>(spans: Seq<Option<G>>, n: nat)
    requires
        n <= usize::MAX,
    ensures
        forall|k: int|
            0 <= k < supports_upto(spans, n).len() ==> {
                let e = #[trigger] supports_upto(spans, n)[k];
                &&& e.0 < n
                &&& e.1 == (if 0 < e.0 && e.0 - 1 < spans.len() { spans[e.0 - 1] } else { None })
                &&& e.2 == (if e.0 < spans.len() { spans[e.0 as int] } else { None })
                &&& has_solved_neighbour(spans, e.0 as int)
            },
        forall|k1: int, k2: int|
            0 <= k1 < k2 < supports_upto(spans, n).len() ==> (#[trigger] supports_upto(spans, n)[k1]).0
                < (#[trigger] supports_upto(spans, n)[k2]).0,
        forall|j: int|
            0 <= j < n && #[trigger] has_solved_neighbour(spans, j) ==> exists|k: int|
                0 <= k < supports_upto(spans, n).len() && (#[trigger] supports_upto(spans, n)[k]).0 == j,
    decreases n,
{
    if n > 0 {
        let n1 = (n - 1) as nat;
        law_supports_name_their_structure(spans, n1);
        let prev = supports_upto(spans, n1);
        let out = supports_upto(spans, n);
        let i = n - 1;
        if back_span(spans, i) is None && ahead_span(spans, i) is None {
            assert(out == prev);
            assert(!has_solved_neighbour(spans, i));
        } else {
            let e = (i as usize, back_span(spans, i), ahead_span(spans, i));
            assert(out == prev.push(e));
            assert(e.0 == i);
            assert forall|k: int| 0 <= k < out.len() implies {
                let e = #[trigger] out[k];
                &&& e.0 < n
                &&& e.1 == (if 0 < e.0 && e.0 - 1 < spans.len() { spans[e.0 - 1] } else { None })
                &&& e.2 == (if e.0 < spans.len() { spans[e.0 as int] } else { None })
                &&& has_solved_neighbour(spans, e.0 as int)
            } by {
                if k < prev.len() {
                    assert(out[k] == prev[k]);
                }
            }
            assert forall|k1: int, k2: int| 0 <= k1 < k2 < out.len() implies (#[trigger] out[k1]).0 < (#[trigger] out[k2]).0 by {
                assert(out[k1] == prev[k1]);
                if k2 < prev.len() {
                    assert(out[k2] == prev[k2]);
                }
            }
            assert forall|j: int| 0 <= j < n && #[trigger] has_solved_neighbour(spans, j) implies exists|k: int|
                0 <= k < out.len() && (#[trigger] out[k]).0 == j by {
                if j < i {
                    let k = choose|k: int| 0 <= k < prev.len() && (#[trigger] prev[k]).0 == j;
                    assert(out[k] == prev[k]);
                } else {
                    assert(out[prev.len() as int] == e);
                }
            }
        }
    }
}

/// Pairs every structure with the spans adjacent to it. `spans[i]` is the solved
/// span from structure `i` to structure `i + 1` (`None` when it could not be
/// solved); a structure with no solved span on either side is left out.
pub fn support_spans<G: Copy>(spans: &Vec<Option<G>>, n_structures: usize) -> (r: Vec<(usize, Option<G>, Option<G>)>)
    ensures
        r@ == supports_upto(spans@, n_structures as nat),
        forall|k: int|
            0 <= k < r@.len() ==> {
                let e = #[trigger] r@[k];
                &&& e.0 < n_structures
                &&& e.1 == (if 0 < e.0 && e.0 - 1 < spans@.len() { spans@[e.0 - 1] } else { None })
                &&& e.2 == (if e.0 < spans@.len() { spans@[e.0 as int] } else { None })
                &&& has_solved_neighbour(spans@, e.0 as int)
            },
        forall|k1: int, k2: int| 0 <= k1 < k2 < r@.len() ==> (#[trigger] r@[k1]).0 < (#[trigger] r@[k2]).0,
        forall|j: int|
            0 <= j < n_structures && #[trigger] has_solved_neighbour(spans@, j) ==> exists|k: int|
                0 <= k < r@.len() && (#[trigger] r@[k]).0 == j,
{
    let mut out: Vec<(usize, Option<G>, Option<G>)> = Vec::new();
    let mut i: usize = 0;
    while i < n_structures
        invariant
            i <= n_structures,
            out@ == supports_upto(spans@, i as nat),
        decreases n_structures - i,
    {
        let back = if i > 0 && i - 1 < spans.len() {
            spans[i - 1]
        } else {
            None
        };
        let ahead = if i < spans.len() {
            spans[i]
        } else {
            None
        };
        if back.is_some() || ahead.is_some() {
            out.push((i, back, ahead));
        }
        i = i + 1;
    }
    proof {
        law_supports_name_their_structure(spans@, n_structures as nat);
    }
    out
}

} // verus!
