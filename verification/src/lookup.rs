//! Whether a name can be run.

use vstd::prelude::*;

verus! {

/// Whether some probe found a file.
pub open spec fn any_hit(probes: Seq<bool>) -> bool {
    exists|i: int| 0 <= i < probes.len() && #[trigger] probes[i]
}

/// 1 if a name can be run and 0 if not: `on_path` says for each directory of the search path, if
/// there is one, whether the name is a file there; `direct` says whether the name itself is one.
pub fn executable(on_path: Option<Vec<bool>>, direct: bool) -> (found: i32)
    ensures
        found == (if (on_path matches Some(probes) && any_hit(probes@)) || direct {
            1i32
        } else {
            0i32
        }),
        forall|i: int|
            on_path is Some && 0 <= i < on_path->0@.len() && #[trigger] on_path->0@[i] ==> found == 1,
        direct ==> found == 1,
        !direct && (on_path is Some ==> forall|i: int|
            0 <= i < on_path->0@.len() ==> !(#[trigger] on_path->0@[i])) ==> found == 0,
{
    if let Some(probes) = on_path {
        let mut i: usize = 0;
        while i < probes.len()
            invariant
                i <= probes@.len(),
                on_path == Some(probes),
                forall|j: int| 0 <= j < i ==> !(#[trigger] probes@[j]),
            decreases probes@.len() - i,
        {
            if probes[i] {
                assert(any_hit(probes@));
                assert(on_path->0@[i as int]);
                return 1;
            }
            i = i + 1;
        }
    }
    if direct {
        1
    } else {
        0
    }
}

/// A hit counts wherever it stands: at the front, at the end, or in either of two parts.
pub proof fn law_every_probe_counts(hit: bool, a: Seq<bool>, b: Seq<bool>)
    ensures
        !any_hit(Seq::empty()),
        any_hit(seq![hit] + a) == (hit || any_hit(a)),
        any_hit(a.push(hit)) == (any_hit(a) || hit),
        any_hit(a + b) == (any_hit(a) || any_hit(b)),
{
    lemma_hit_in_parts(seq![hit], a);
    lemma_hit_in_parts(a, seq![hit]);
    lemma_hit_in_parts(a, b);
    assert(a.push(hit) =~= a + seq![hit]);
    assert(any_hit(seq![hit]) == hit) by {
        if hit {
            assert(seq![hit][0]);
        }
    }
}

proof fn lemma_hit_in_parts(a: Seq<bool>, b: Seq<bool>)
    ensures
        any_hit(a + b) == (any_hit(a) || any_hit(b)),
{
    if any_hit(a) {
        let i = choose|i: int| 0 <= i < a.len() && #[trigger] a[i];
        assert((a + b)[i]);
    }
    if any_hit(b) {
        let i = choose|i: int| 0 <= i < b.len() && #[trigger] b[i];
        assert((a + b)[a.len() + i]);
    }
    if any_hit(a + b) {
        let i = choose|i: int| 0 <= i < (a + b).len() && #[trigger] (a + b)[i];
        if i < a.len() {
            assert(a[i]);
        } else {
            assert(b[i - a.len()]);
        }
    }
}

} // verus!
