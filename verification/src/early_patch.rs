//! Locating the AppUser check in the game image.
use vstd::prelude::*;

use crate::memory::{aob_find, is_first_match, spec_first_match, window_matches};

verus! {

/// `cmp dword [esp+4], 0` followed by the opcode of a short `jne`.
pub open spec fn appuser_pattern() -> Seq<u8> {
    seq![0x83u8, 0x7Cu8, 0x24u8, 0x04u8, 0x00u8, 0x75u8]
}

/// The offset of the `jne` inside the pattern.
pub const APPUSER_BRANCH_OFFSET: usize = 5;

/// The pattern occurs in `image` at `at`.
pub open spec fn occurs_at(image: Seq<u8>, pattern: Seq<u8>, at: int) -> bool {
    0 <= at && at + pattern.len() <= image.len() && image.subrange(at, at + pattern.len()) == pattern
}

/// `at` is the first occurrence of the pattern in `image`.
pub open spec fn first_occurrence(image: Seq<u8>, pattern: Seq<u8>, at: int) -> bool {
    occurs_at(image, pattern, at) && forall|k: int| 0 <= k < at ==> !occurs_at(image, pattern, k)
}

proof fn lemma_exact_mask(image: Seq<u8>, pattern: Seq<u8>, mask: Seq<u8>, at: int)
    requires
        mask.len() == pattern.len(),
        forall|j: int| 0 <= j < mask.len() ==> mask[j] == 120u8,
    ensures
        window_matches(image, pattern, mask, at) == occurs_at(image, pattern, at),
{
    if window_matches(image, pattern, mask, at) {
        assert(image.subrange(at, at + pattern.len()) =~= pattern);
    }
    if occurs_at(image, pattern, at) {
        assert forall|j: int| 0 <= j < mask.len() && mask[j] == 120u8 implies image[at + j] == pattern[j] by {
            assert(image.subrange(at, at + pattern.len())[j] == pattern[j]);
        }
    }
}

/// The offset of the conditional branch in the first AppUser check of `image`.
pub fn find_appuser_branch(image: &[u8]) -> (r: Option<usize>)
    ensures
        match r {
            Some(o) => exists|at: int| first_occurrence(image@, appuser_pattern(), at) && o == at + 5,
            None => forall|at: int| !occurs_at(image@, appuser_pattern(), at),
        },
{
    let pattern: [u8; 6] = [0x83, 0x7C, 0x24, 0x04, 0x00, 0x75];
    let mask: [u8; 6] = [120, 120, 120, 120, 120, 120];
    let ps = pattern.as_slice();
    let ms = mask.as_slice();
    assert(ps@ =~= appuser_pattern());
    let ghost p = ps@;
    let ghost m = ms@;
    assert forall|j: int| 0 <= j < m.len() implies m[j] == 120u8 by {}
    match aob_find(image, ps, ms) {
        Some(at) => {
            proof {
                let c = choose|a: int| is_first_match(image@, p, m, a);
                assert(c == at as int);
                lemma_exact_mask(image@, p, m, at as int);
                assert forall|k: int| 0 <= k < at implies !occurs_at(image@, p, k) by {
                    lemma_exact_mask(image@, p, m, k);
                }
                assert(first_occurrence(image@, appuser_pattern(), at as int));
                assert(at + 6 <= image@.len());
                assert(image@.len() == image.len());
            }
            Some(at + APPUSER_BRANCH_OFFSET)
        },
        None => {
            proof {
                assert forall|a: int| !occurs_at(image@, p, a) by {
                    if occurs_at(image@, p, a) {
                        lemma_exact_mask(image@, p, m, a);
                        lemma_some_first_match(image@, p, m, a);
                    }
                }
            }
            None
        },
    }
}

proof fn lemma_some_first_match(image: Seq<u8>, pattern: Seq<u8>, mask: Seq<u8>, a: int)
    requires
        window_matches(image, pattern, mask, a),
    ensures
        exists|b: int| is_first_match(image, pattern, mask, b),
    decreases a,
{
    if exists|k: int| 0 <= k < a && window_matches(image, pattern, mask, k) {
        let k = choose|k: int| 0 <= k < a && window_matches(image, pattern, mask, k);
        lemma_some_first_match(image, pattern, mask, k);
    } else {
        assert(is_first_match(image, pattern, mask, a));
    }
}

} // verus!
