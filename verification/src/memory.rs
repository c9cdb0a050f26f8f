//! Byte-pattern ("AOB") search over a block of memory.
use vstd::prelude::*;

verus! {

/// The window of `memory` at `at` agrees with `pattern` wherever `mask` holds 'x';
/// other mask bytes are wildcards.
pub open spec fn window_matches(memory: Seq<u8>, pattern: Seq<u8>, mask: Seq<u8>, at: int) -> bool {
    &&& 0 <= at
    &&& at + mask.len() <= memory.len()
    &&& forall|j: int| 0 <= j < mask.len() && mask[j] == 120u8 ==> memory[at + j] == pattern[j]
}

/// `at` is the first window of `memory` that matches.
pub open spec fn is_first_match(memory: Seq<u8>, pattern: Seq<u8>, mask: Seq<u8>, at: int) -> bool {
    &&& window_matches(memory, pattern, mask, at)
    &&& forall|k: int| 0 <= k < at ==> !window_matches(memory, pattern, mask, k)
}

/// The offset of the first matching window, if there is one.
pub open spec fn spec_first_match(memory: Seq<u8>, pattern: Seq<u8>, mask: Seq<u8>) -> Option<int> {
    if exists|at: int| is_first_match(memory, pattern, mask, at) {
        Some(choose|at: int| is_first_match(memory, pattern, mask, at))
    } else {
        None
    }
}

pub proof fn lemma_first_match_unique(memory: Seq<u8>, pattern: Seq<u8>, mask: Seq<u8>, a: int, b: int)
    requires
        is_first_match(memory, pattern, mask, a),
        is_first_match(memory, pattern, mask, b),
    ensures
        a == b,
{
    if a < b {
        assert(!window_matches(memory, pattern, mask, a));
    } else if b < a {
        assert(!window_matches(memory, pattern, mask, b));
    }
}

/// Whether the window at `at` matches.
fn window_matches_at(memory: &[u8], pattern: &[u8], mask: &[u8], at: usize) -> (r: bool)
    requires
        mask@.len() <= pattern@.len(),
        at + mask@.len() <= memory@.len(),
    ensures
        r == window_matches(memory@, pattern@, mask@, at as int),
{
    let mut j: usize = 0;
    while j < mask.len()
        invariant
            mask@.len() <= pattern@.len(),
            at + mask.len() <= memory.len(),
            j <= mask@.len(),
            forall|k: int| 0 <= k < j && mask@[k] == 120u8 ==> memory@[at + k] == pattern@[k],
        decreases mask.len() - j,
    {
        if mask[j] == 120u8 && memory[at + j] != pattern[j] {
            return false;
        }
        j = j + 1;
    }
    true
}

/// The offset of the first window of `memory` that matches `pattern` under `mask`
/// ('x' compares a byte, anything else is a wildcard).
pub fn aob_find(memory: &[u8], pattern: &[u8], mask: &[u8]) -> (r: Option<usize>)
    requires
        mask@.len() <= pattern@.len(),
    ensures
        match r {
            Some(at) => spec_first_match(memory@, pattern@, mask@) == Some(at as int),
            None => spec_first_match(memory@, pattern@, mask@) is None,
        },
{
    let ghost m = memory@;
    let ghost p = pattern@;
    let ghost k = mask@;
    if memory.len() < mask.len() {
        assert(!exists|at: int| is_first_match(m, p, k, at));
        return None;
    }
    let last = memory.len() - mask.len();
    let mut i: usize = 0;
    loop
        invariant
            m == memory@,
            p == pattern@,
            k == mask@,
            mask@.len() <= pattern@.len(),
            last + mask.len() == memory.len(),
            i <= last,
            forall|q: int| 0 <= q < i ==> !window_matches(m, p, k, q),
        decreases last - i,
    {
        if window_matches_at(memory, pattern, mask, i) {
            assert(is_first_match(m, p, k, i as int));
            proof {
                let c = choose|at: int| is_first_match(m, p, k, at);
                lemma_first_match_unique(m, p, k, c, i as int);
            }
            return Some(i);
        }
        if i == last {
            assert forall|at: int| !is_first_match(m, p, k, at) by {
                if is_first_match(m, p, k, at) {
                    assert(at <= i);
                }
            }
            return None;
        }
        i = i + 1;
    }
}

/// `aob_scan`: the address of the first match in the `memory.len()` bytes at
/// `start`, or 0 when the mask is longer than the block or nothing matches.
pub fn api_aob_scan(start: usize, memory: &[u8], pattern: &[u8], mask: &[u8]) -> (r: usize)
    requires
        mask@.len() <= pattern@.len(),
        start + memory@.len() <= usize::MAX + 1,
    ensures
        r == match spec_first_match(memory@, pattern@, mask@) {
            Some(at) => start + at,
            None => 0,
        },
{
    match aob_find(memory, pattern, mask) {
        Some(at) => {
            proof {
                let m = memory@;
                let p = pattern@;
                let k = mask@;
                assert(is_first_match(m, p, k, at as int));
                if at > 0 && k.len() == 0 {
                    assert(window_matches(m, p, k, 0));
                }
            }
            start + at
        },
        None => 0,
    }
}

} // verus!
