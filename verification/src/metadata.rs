//! A mod's metadata exports and the loader-version gate.
use vstd::prelude::*;
use crate::text::{chars_of, split_chars, split_on, trim, trim_bounds};

verus! {

/// The loader's own version.
pub const LOADER_VERSION: &'static str = "1.0.0";

/// What a mod says of itself through its metadata exports.
pub struct ModMetadata {
    pub version: Option<String>,
    pub min_loader_version: Option<String>,
}

impl Default for ModMetadata {
    fn default() -> (r: ModMetadata)
        ensures
            r.version is None,
            r.min_loader_version is None,
    {
        ModMetadata { version: None, min_loader_version: None }
    }
}

pub open spec fn is_digit(c: char) -> bool {
    '0' <= c && c <= '9'
}

/// The first `k` characters of `s` are digits and the next one, if any, is not.
pub open spec fn digit_run(s: Seq<char>, k: int) -> bool {
    &&& 0 <= k <= s.len()
    &&& forall|j: int| 0 <= j < k ==> is_digit(#[trigger] s[j])
    &&& k < s.len() ==> !is_digit(s[k])
}

/// The value of the decimal digits `d`.
pub open spec fn digits_value(d: Seq<char>) -> nat
    decreases d.len(),
{
    if d.len() == 0 {
        0
    } else {
        digits_value(d.drop_last()) * 10 + ((d.last() as int) - 48) as nat
    }
}

/// The number a version component stands for: its leading digits read as a `u32`,
/// 0 when there are none or they do not fit.
pub open spec fn component_value(part: Seq<char>) -> u32 {
    let k = choose|k: int| digit_run(part, k);
    let v = digits_value(part.subrange(0, k));
    if v > u32::MAX {
        0
    } else {
        v as u32
    }
}

/// The first three dot-separated components of `version`, each read by
/// `component_value`; missing ones are 0.
pub open spec fn spec_parse_semver(version: Seq<char>) -> Seq<u32> {
    let parts = split_on(version, '.');
    Seq::new(3, |i: int| if i < parts.len() { component_value(parts[i]) } else { 0 })
}

/// `a >= b`, comparing the components in order.
pub open spec fn semver_ge(a: Seq<u32>, b: Seq<u32>) -> bool {
    ||| a[0] > b[0]
    ||| (a[0] == b[0] && a[1] > b[1])
    ||| (a[0] == b[0] && a[1] == b[1] && a[2] >= b[2])
}

proof fn lemma_digit_run_unique(s: Seq<char>, k: int)
    requires
        digit_run(s, k),
    ensures
        (choose|j: int| digit_run(s, j)) == k,
{
    let j = choose|j: int| digit_run(s, j);
    assert(digit_run(s, j));
    if j < k {
        assert(is_digit(s[j]));
    } else if k < j {
        assert(is_digit(s[k]));
    }
}

/// A run of digits that starts with `s[0..i]` ends somewhere at or after `i`.
proof fn lemma_digit_run_from(s: Seq<char>, i: int) -> (k: int)
    requires
        0 <= i <= s.len(),
        forall|j: int| 0 <= j < i ==> is_digit(#[trigger] s[j]),
    ensures
        i <= k,
        digit_run(s, k),
    decreases s.len() - i,
{
    if i < s.len() && is_digit(s[i]) {
        lemma_digit_run_from(s, i + 1)
    } else {
        i
    }
}

/// More digits never make a smaller number.
proof fn lemma_digits_value_grows(d: Seq<char>, i: int)
    requires
        0 <= i <= d.len(),
        forall|j: int| 0 <= j < d.len() ==> is_digit(#[trigger] d[j]),
    ensures
        digits_value(d.subrange(0, i)) <= digits_value(d),
    decreases d.len() - i,
{
    if i < d.len() {
        lemma_digits_value_grows(d, i + 1);
        assert(d.subrange(0, i + 1).drop_last() =~= d.subrange(0, i));
    } else {
        assert(d.subrange(0, i) =~= d);
    }
}

/// The value of the leading digits of `part`, as a `u32`, 0 when it does not fit.
fn component(part: &Vec<char>) -> (r: u32)
    ensures
        r == component_value(part@),
{
    let ghost s = part@;
    let mut value: u64 = 0;
    let mut i: usize = 0;
    while i < part.len() && '0' <= part[i] && part[i] <= '9'
        invariant
            s == part@,
            i <= s.len(),
            forall|j: int| 0 <= j < i ==> is_digit(#[trigger] s[j]),
            value == digits_value(s.subrange(0, i as int)),
            value <= u32::MAX,
        decreases s.len() - i,
    {
        let d = (part[i] as u32 - 48) as u64;
        assert(s.subrange(0, i + 1).drop_last() =~= s.subrange(0, i as int));
        if value * 10 + d > u32::MAX as u64 {
            proof {
                let k = lemma_digit_run_from(s, i + 1);
                lemma_digit_run_unique(s, k);
                let run = s.subrange(0, k);
                assert(run.subrange(0, i + 1) =~= s.subrange(0, i + 1));
                lemma_digits_value_grows(run, i + 1);
            }
            return 0;
        }
        value = value * 10 + d;
        i = i + 1;
    }
    proof {
        assert(digit_run(s, i as int));
        lemma_digit_run_unique(s, i as int);
    }
    value as u32
}

/// `parse_semver`: the first three dot-separated components of `version`, each
/// its leading digits read as a `u32` (0 when there are none or they overflow);
/// missing components are 0.
pub fn parse_semver(version: &str) -> (r: [u32; 3])
    ensures
        r@ == spec_parse_semver(version@),
{
    let chars = chars_of(version);
    let parts = split_chars(&chars, '.');
    let ghost ps = split_on(version@, '.');
    assert(parts@.len() == ps.len());
    let mut out: [u32; 3] = [0, 0, 0];
    let mut k: usize = 0;
    while k < 3
        invariant
            ps == split_on(version@, '.'),
            parts@.map_values(|p: Vec<char>| p@) == ps,
            k <= 3,
            forall|j: int|
                0 <= j < 3 ==> #[trigger] out@[j] == (if j < k && j < ps.len() {
                    component_value(ps[j])
                } else {
                    0
                }),
        decreases 3 - k,
    {
        if k < parts.len() {
            assert(parts@[k as int]@ == ps[k as int]);
            let v = component(&parts[k]);
            out[k] = v;
        }
        k = k + 1;
    }
    assert(out@ =~= spec_parse_semver(version@));
    out
}

/// Whether this loader is at least `min_loader_version`.
pub open spec fn spec_loader_version_satisfied(min_loader_version: Seq<char>) -> bool {
    semver_ge(spec_parse_semver(LOADER_VERSION@), spec_parse_semver(min_loader_version))
}

/// `is_loader_version_satisfied`: whether this loader's version is at least
/// `min_loader_version`, comparing the three components in order.
pub fn is_loader_version_satisfied(min_loader_version: &str) -> (r: bool)
    ensures
        r == spec_loader_version_satisfied(min_loader_version@),
{
    let have = parse_semver(LOADER_VERSION);
    let need = parse_semver(min_loader_version);
    have[0] > need[0] || (have[0] == need[0] && have[1] > need[1]) || (have[0] == need[0]
        && have[1] == need[1] && have[2] >= need[2])
}

/// Whether a mod with this metadata may be loaded: it may unless it names a
/// minimum loader version that this loader does not reach.
pub open spec fn spec_should_load(min_loader_version: Option<Seq<char>>) -> bool {
    match min_loader_version {
        Some(v) => spec_loader_version_satisfied(v),
        None => true,
    }
}

/// `should_load_metadata`: whether the mod `mod_name` with `metadata` may be
/// loaded.
pub fn should_load_metadata(mod_name: &str, metadata: &ModMetadata) -> (r: bool)
    ensures
        r == spec_should_load(
            match metadata.min_loader_version {
                Some(v) => Some(v@),
                None => None,
            },
        ),
{
    match &metadata.min_loader_version {
        Some(v) => is_loader_version_satisfied(v.as_str()),
        None => true,
    }
}

/// What the minimum-loader-version export gives, once blank values are dropped.
pub fn min_version_from_export(raw: Option<String>) -> (r: Option<String>)
    ensures
        match raw {
            Some(v) => if trim(v@).len() == 0 {
                r is None
            } else {
                r == Some(v)
            },
            None => r is None,
        },
{
    match raw {
        Some(v) => {
            let chars = chars_of(v.as_str());
            let (start, end) = trim_bounds(&chars);
            if start == end {
                None
            } else {
                Some(v)
            }
        },
        None => None,
    }
}

} // verus!
