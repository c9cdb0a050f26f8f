//! The per-mod INI configuration: which file the config calls act on, and how
//! their values are read and written as text; and the `[mods]` switches of
//! `mods.ini`.
use vstd::prelude::*;
use crate::fmt::{i32_string, signed_decimal};

verus! {

/// The configuration file that the config calls act on; empty when none is set.
pub struct ConfigIni {
    pub path: String,
}

impl ConfigIni {
    /// No configuration file set.
    pub fn new() -> (r: ConfigIni)
        ensures
            r.path@ == Seq::<char>::empty(),
    {
        ConfigIni { path: String::new() }
    }
}

/// `set_current_config`: the config calls act on `path` from now on.
pub fn set_current_config(cfg: &mut ConfigIni, path: &str)
    ensures
        final(cfg).path@ == path@,
{
    cfg.path = path.to_owned();
}

/// `with_config_path`: the file the config calls act on, or `None` when none is
/// set (the getters then answer the caller's default).
pub fn with_config_path(cfg: &ConfigIni) -> (r: Option<&str>)
    ensures
        match r {
            Some(p) => cfg.path@.len() > 0 && p@ == cfg.path@,
            None => cfg.path@.len() == 0,
        },
{
    let p = cfg.path.as_str();
    if crate::text::chars_of(p).len() == 0 {
        None
    } else {
        Some(p)
    }
}

/// The value a boolean setting's text stands for: 1 for `true`, `1`, `yes`; 0 for
/// `false`, `0`, `no`; `default` otherwise.
pub open spec fn spec_config_bool(text: Seq<char>, default: i32) -> i32 {
    if text == seq!['t', 'r', 'u', 'e'] || text == seq!['1'] || text == seq!['y', 'e', 's'] {
        1
    } else if text == seq!['f', 'a', 'l', 's', 'e'] || text == seq!['0'] || text == seq![
        'n',
        'o',
    ] {
        0
    } else {
        default
    }
}

fn chars_equal(a: &Vec<char>, lit: &Vec<char>) -> (r: bool)
    ensures
        r == (a@ == lit@),
{
    if a.len() != lit.len() {
        return false;
    }
    let mut i: usize = 0;
    while i < a.len()
        invariant
            a@.len() == lit@.len(),
            i <= a@.len(),
            forall|j: int| 0 <= j < i ==> a@[j] == lit@[j],
        decreases a.len() - i,
    {
        if a[i] != lit[i] {
            return false;
        }
        i = i + 1;
    }
    assert(a@ =~= lit@);
    true
}

/// How `api_config_get_bool` reads the text of a boolean setting.
pub fn parse_config_bool(text: &str, default: i32) -> (r: i32)
    ensures
        r == spec_config_bool(text@, default),
{
    let t = crate::text::chars_of(text);
    let yes1 = vec!['t', 'r', 'u', 'e'];
    let yes2 = vec!['1'];
    let yes3 = vec!['y', 'e', 's'];
    let no1 = vec!['f', 'a', 'l', 's', 'e'];
    let no2 = vec!['0'];
    let no3 = vec!['n', 'o'];
    assert(yes1@ =~= seq!['t', 'r', 'u', 'e']);
    assert(yes2@ =~= seq!['1']);
    assert(yes3@ =~= seq!['y', 'e', 's']);
    assert(no1@ =~= seq!['f', 'a', 'l', 's', 'e']);
    assert(no2@ =~= seq!['0']);
    assert(no3@ =~= seq!['n', 'o']);
    if chars_equal(&t, &yes1) || chars_equal(&t, &yes2)
        || chars_equal(&t, &yes3) {
        1
    } else if chars_equal(&t, &no1) || chars_equal(&t, &no2) || chars_equal(&t, &no3) {
        0
    } else {
        default
    }
}

/// What `api_config_get_bool` returns once the setting was read: `default` when the
/// read gave no characters (`len` is what the read returned), else the value of
/// `text`.
pub fn config_bool_result(len: u32, text: &str, default: i32) -> (r: i32)
    ensures
        r == if len == 0 {
            default
        } else {
            spec_config_bool(text@, default)
        },
{
    if len == 0 {
        default
    } else {
        parse_config_bool(text, default)
    }
}

/// The text a boolean setting is written as.
pub open spec fn spec_bool_text(value: i32) -> Seq<char> {
    if value != 0 {
        seq!['t', 'r', 'u', 'e']
    } else {
        seq!['f', 'a', 'l', 's', 'e']
    }
}

/// `true` for a nonzero `value`, `false` for 0: how booleans are written, and the
/// default text given to a read.
pub fn bool_text(value: i32) -> (r: String)
    ensures
        r@ == spec_bool_text(value),
{
    let chars = if value != 0 {
        vec!['t', 'r', 'u', 'e']
    } else {
        vec!['f', 'a', 'l', 's', 'e']
    };
    let r = crate::text::string_from_chars(&chars);
    assert(r@ =~= spec_bool_text(value));
    r
}

/// A boolean written by the config calls reads back as 1 when it was nonzero and
/// as 0 when it was 0, whatever default the read gives.
pub proof fn law_bool_round_trip(value: i32, default: i32)
    ensures
        spec_config_bool(spec_bool_text(value), default) == if value != 0 {
            1i32
        } else {
            0i32
        },
{
    let t = spec_bool_text(value);
    if value != 0 {
        assert(t =~= seq!['t', 'r', 'u', 'e']);
    } else {
        assert(t != seq!['t', 'r', 'u', 'e']);
        assert(t != seq!['1']);
        assert(t != seq!['y', 'e', 's']) by {
            assert(t[0] != seq!['y', 'e', 's'][0]);
        }
    }
}

/// How an integer setting is written: in decimal.
pub fn int_text(value: i32) -> (r: String)
    ensures
        r@ == signed_decimal(value as int),
{
    i32_string(value)
}

/// The text of a `mods.ini` switch turns the mod off: a sign (optional) and one or
/// more zeros, which is what reads as the integer 0.
pub open spec fn is_zero_text(v: Seq<u8>) -> bool {
    unsigned_part(v).len() > 0 && forall|i: int|
        0 <= i < unsigned_part(v).len() ==> #[trigger] unsigned_part(v)[i] == 48
}

/// `v` without its leading sign, if it has one.
pub open spec fn unsigned_part(v: Seq<u8>) -> Seq<u8> {
    if v.len() > 0 && (v[0] == 43 || v[0] == 45) {
        v.drop_first()
    } else {
        v
    }
}

/// `is_mod_enabled`: whether the mod whose switch in `mods.ini` reads `value` (the
/// bytes before the terminating NUL; empty when the switch is absent) is enabled.
/// It is, unless the value reads as the integer 0.
pub fn is_mod_enabled(value: &[u8]) -> (r: bool)
    ensures
        r == !is_zero_text(value@),
{
    if value.len() == 0 {
        return true;
    }
    let start: usize = if value[0] == 43 || value[0] == 45 {
        1
    } else {
        0
    };
    let ghost digits = unsigned_part(value@);
    if start == value.len() {
        return true;
    }
    let mut i = start;
    while i < value.len()
        invariant
            start <= i <= value@.len(),
            digits == value@.subrange(start as int, value@.len() as int),
            digits == unsigned_part(value@),
            forall|j: int| start <= j < i ==> value@[j] == 48,
        decreases value.len() - i,
    {
        if value[i] != 48 {
            assert(digits[i - start] != 48);
            return true;
        }
        i = i + 1;
    }
    assert forall|k: int| 0 <= k < digits.len() implies #[trigger] digits[k] == 48 by {
        assert(digits[k] == value@[start + k]);
    }
    false
}

/// The manifest path handed to the mod being initialised, if any.
pub struct ManifestPath {
    pub path: Option<String>,
}

/// `set_current_manifest_path`: the mods being initialised from now on are told
/// `path`; a path holding a NUL cannot be handed over and counts as none.
pub fn set_current_manifest_path(current: &mut ManifestPath, path: Option<&str>)
    ensures
        match path {
            Some(p) => if p@.contains('\0') {
                final(current).path is None
            } else {
                final(current).path is Some && final(current).path->0@ == p@
            },
            None => final(current).path is None,
        },
{
    match path {
        Some(p) => {
            let chars = crate::text::chars_of(p);
            let mut i: usize = 0;
            while i < chars.len() && chars[i] != '\0'
                invariant
                    i <= chars@.len(),
                    chars@ == p@,
                    forall|j: int| 0 <= j < i ==> chars@[j] != '\0',
                decreases chars.len() - i,
            {
                i = i + 1;
            }
            if i < chars.len() {
                assert(p@[i as int] == '\0');
                current.path = None;
            } else {
                assert(!p@.contains('\0'));
                current.path = Some(p.to_owned());
            }
        },
        None => {
            current.path = None;
        },
    }
}

} // verus!
