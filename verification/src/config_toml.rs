//! Per-mod TOML configuration: a parsed document and the typed lookups on it.
use vstd::prelude::*;

use crate::text::{chars_of, split_chars, split_on, str_equals, str_equals_range};

verus! {

/// A parsed TOML value. A float is kept as the bits of its `f64`; a date-time
/// carries nothing the loader reads.
pub enum TomlValue {
    Str(String),
    Integer(i64),
    Float(u64),
    Boolean(bool),
    Datetime,
    Array(Vec<TomlValue>),
    Table(Vec<(String, TomlValue)>),
}

/// A number found under a key: a float (as the bits of its `f64`) or an integer.
pub enum TomlNumber {
    Float(u64),
    Integer(i64),
}

#[verifier::external_type_specification]
#[verifier::external_body]
pub struct ExTomlValue(toml::Value);

/// What `toml` parses `text` into, as a document (a table at the top level), or
/// `None` where `text` is not valid TOML.
pub uninterp spec fn toml_document(text: Seq<char>) -> Option<TomlValue>;

/// The value under `key` in the entries of a table: the first entry with that key.
pub open spec fn entries_get(entries: Seq<(String, TomlValue)>, key: Seq<char>) -> Option<TomlValue>
    decreases entries.len(),
{
    if entries.len() == 0 {
        None
    } else if entries[0].0@ == key {
        Some(entries[0].1)
    } else {
        entries_get(entries.drop_first(), key)
    }
}

/// `toml::Value::get` with a string key: the value under `key` when `v` is a table.
pub open spec fn spec_get(v: TomlValue, key: Seq<char>) -> Option<TomlValue> {
    match v {
        TomlValue::Table(entries) => entries_get(entries@, key),
        _ => None,
    }
}

/// The value reached from `root` by following `parts` one key after the other.
pub open spec fn walk(root: TomlValue, parts: Seq<Seq<char>>) -> Option<TomlValue>
    decreases parts.len(),
{
    if parts.len() == 0 {
        Some(root)
    } else {
        match walk(root, parts.drop_last()) {
            Some(c) => spec_get(c, parts.last()),
            None => None,
        }
    }
}

/// The table named by a dotted `section` path ("a.b" is table `b` inside table `a`).
pub open spec fn spec_find_section(root: TomlValue, section: Seq<char>) -> Option<TomlValue> {
    match walk(root, split_on(section, '.')) {
        Some(c) => if c is Table {
            Some(c)
        } else {
            None
        },
        None => None,
    }
}

/// The value under `key` in the table named by `section`.
pub open spec fn spec_find_key(root: TomlValue, section: Seq<char>, key: Seq<char>) -> Option<
    TomlValue,
> {
    match spec_find_section(root, section) {
        Some(t) => spec_get(t, key),
        None => None,
    }
}

/// Parses a TOML document with `toml` (`str::parse::<toml::Table>`).
#[verifier::external_body]
pub fn parse_toml_document(text: &str) -> (r: Option<TomlValue>)
    ensures
        r == toml_document(text@),
        r matches Some(v) ==> v is Table,
{
    match text.parse::<toml::Table>() {
        Ok(table) => Some(value_from_toml(&toml::Value::Table(table))),
        Err(_) => None,
    }
}

/// Carries a `toml::Value` over into a `TomlValue`, variant by variant.
#[verifier::external_body]
fn value_from_toml(v: &toml::Value) -> TomlValue {
    match v {
        toml::Value::String(s) => TomlValue::Str(s.clone()),
        toml::Value::Integer(i) => TomlValue::Integer(*i),
        toml::Value::Float(x) => TomlValue::Float(x.to_bits()),
        toml::Value::Boolean(b) => TomlValue::Boolean(*b),
        toml::Value::Datetime(_) => TomlValue::Datetime,
        toml::Value::Array(items) => TomlValue::Array(items.iter().map(value_from_toml).collect()),
        toml::Value::Table(t) => TomlValue::Table(
            t.iter().map(|(k, x)| (k.clone(), value_from_toml(x))).collect(),
        ),
    }
}

/// The value under `key` in `v` when `v` is a table.
pub fn toml_get<'a>(v: &'a TomlValue, key: &Vec<char>, from: usize, to: usize) -> (r: Option<
    &'a TomlValue,
>)
    requires
        from <= to <= key@.len(),
    ensures
        r matches Some(x) ==> spec_get(*v, key@.subrange(from as int, to as int)) == Some(*x),
        r is None ==> spec_get(*v, key@.subrange(from as int, to as int)) is None,
{
    match v {
        TomlValue::Table(entries) => {
            let ghost k = key@.subrange(from as int, to as int);
            let mut i: usize = 0;
            assert(entries@.skip(0) == entries@);
            assert(spec_get(*v, k) == entries_get(entries@, k));
            while i < entries.len()
                invariant
                    spec_get(*v, k) == entries_get(entries@, k),
                    from <= to <= key@.len(),
                    k == key@.subrange(from as int, to as int),
                    i <= entries@.len(),
                    entries_get(entries@, k) == entries_get(entries@.skip(i as int), k),
                decreases entries.len() - i,
            {
                assert(entries@.skip(i as int).drop_first() == entries@.skip(i + 1));
                assert(entries@.skip(i as int)[0] == entries@[i as int]);
                if str_equals_range(entries[i].0.as_str(), key, from, to) {
                    assert(entries@.skip(i as int)[0].0@ == k);
                    assert(entries_get(entries@.skip(i as int), k) == Some(entries@[i as int].1));

                    return Some(&entries[i].1);
                }
                i = i + 1;
            }
            None
        },
        _ => None,
    }
}

proof fn lemma_walk_none_extends(root: TomlValue, parts: Seq<Seq<char>>, j: int, m: int)
    requires
        0 <= j <= m <= parts.len(),
        walk(root, parts.take(j)) is None,
    ensures
        walk(root, parts.take(m)) is None,
    decreases m - j,
{
    if m > j {
        lemma_walk_none_extends(root, parts, j, m - 1);
        assert(parts.take(m).drop_last() == parts.take(m - 1));
    }
}

/// The table named by the dotted path `section`, if there is one.
pub fn find_section<'a>(root: &'a TomlValue, section: &str) -> (r: Option<&'a TomlValue>)
    ensures
        r matches Some(x) ==> spec_find_section(*root, section@) == Some(*x),
        r is None ==> spec_find_section(*root, section@) is None,
{
    let chars = chars_of(section);
    let parts = split_chars(&chars, '.');
    let ghost ps = parts@.map_values(|p: Vec<char>| p@);
    let mut current: &TomlValue = root;
    let mut j: usize = 0;
    assert(ps.take(0) == Seq::<Seq<char>>::empty());
    while j < parts.len()
        invariant
            ps == parts@.map_values(|p: Vec<char>| p@),
            ps == split_on(section@, '.'),
            j <= parts@.len(),
            walk(*root, ps.take(j as int)) == Some(*current),
        decreases parts.len() - j,
    {
        let part = &parts[j];
        assert(part@.subrange(0, part@.len() as int) == part@);
        assert(ps.take(j + 1).drop_last() == ps.take(j as int));
        assert(ps.take(j + 1).last() == part@);
        match toml_get(current, part, 0, part.len()) {
            Some(next) => {
                current = next;
            },
            None => {
                proof {
                    lemma_walk_none_extends(*root, ps, j + 1, ps.len() as int);
                    assert(ps.take(ps.len() as int) == ps);
                }
                return None;
            },
        }
        j = j + 1;
    }
    assert(ps.take(ps.len() as int) == ps);
    match current {
        TomlValue::Table(_) => Some(current),
        _ => None,
    }
}

/// The value under `key` in the table named by `section`.
pub fn find_key<'a>(root: &'a TomlValue, section: &str, key: &str) -> (r: Option<&'a TomlValue>)
    ensures
        r matches Some(x) ==> spec_find_key(*root, section@, key@) == Some(*x),
        r is None ==> spec_find_key(*root, section@, key@) is None,
{
    match find_section(root, section) {
        Some(t) => {
            let kc = chars_of(key);
            assert(kc@.subrange(0, kc@.len() as int) == kc@);
            toml_get(t, &kc, 0, kc.len())
        },
        None => None,
    }
}

/// 1 when the current configuration has the table `section`, else 0.
pub open spec fn spec_section_exists(config: Option<TomlValue>, section: Option<Seq<char>>) -> i32 {
    match (config, section) {
        (Some(root), Some(s)) => if spec_find_section(root, s) is Some {
            1
        } else {
            0
        },
        _ => 0,
    }
}

/// `toml_section_exists`: whether the table `section` is in the current configuration.
pub fn api_toml_section_exists(config: &Option<TomlValue>, section: Option<&str>) -> (r: i32)
    ensures
        r == spec_section_exists(
            *config,
            match section {
                Some(s) => Some(s@),
                None => None,
            },
        ),
{
    match (config, section) {
        (Some(root), Some(s)) => match find_section(root, s) {
            Some(_) => 1,
            None => 0,
        },
        _ => 0,
    }
}

/// The value under `section`/`key` in the current configuration, when all are there.
pub open spec fn spec_lookup(config: Option<TomlValue>, section: Option<Seq<char>>, key: Option<
    Seq<char>,
>) -> Option<TomlValue> {
    match (config, section, key) {
        (Some(root), Some(s), Some(k)) => spec_find_key(root, s, k),
        _ => None,
    }
}

pub open spec fn opt_view(s: Option<&str>) -> Option<Seq<char>> {
    match s {
        Some(x) => Some(x@),
        None => None,
    }
}

fn lookup<'a>(config: &'a Option<TomlValue>, section: Option<&str>, key: Option<&str>) -> (r: Option<
    &'a TomlValue,
>)
    ensures
        r matches Some(x) ==> spec_lookup(*config, opt_view(section), opt_view(key)) == Some(*x),
        r is None ==> spec_lookup(*config, opt_view(section), opt_view(key)) is None,
{
    match (config, section, key) {
        (Some(root), Some(s), Some(k)) => find_key(root, s, k),
        _ => None,
    }
}

/// The boolean under `section`/`key` as 0 or 1, or `default` where there is none.
pub open spec fn spec_toml_bool(config: Option<TomlValue>, section: Option<Seq<char>>, key: Option<
    Seq<char>,
>, default: i32) -> i32 {
    match spec_lookup(config, section, key) {
        Some(TomlValue::Boolean(b)) => if b {
            1
        } else {
            0
        },
        _ => default,
    }
}

/// The getters read what the document holds under `section`/`key`: a boolean `b`
/// reads as 1 when `b` and 0 when not, whatever the default; an integer that fits an
/// `i32` reads as itself; a string reads as itself; and when nothing is there, the
/// getters answer the caller's default.
pub proof fn law_toml_getters_read_the_value(
    doc: TomlValue,
    section: Seq<char>,
    key: Seq<char>,
    default: i32,
    default_text: Option<Seq<char>>,
)
    ensures
        spec_find_key(doc, section, key) matches Some(TomlValue::Boolean(b)) ==> spec_toml_bool(
            Some(doc),
            Some(section),
            Some(key),
            default,
        ) == if b {
            1i32
        } else {
            0i32
        },
        spec_find_key(doc, section, key) matches Some(TomlValue::Integer(i)) ==> (i32::MIN <= i
            <= i32::MAX ==> spec_toml_int(Some(doc), Some(section), Some(key), default) == i),
        spec_find_key(doc, section, key) matches Some(TomlValue::Str(t)) ==> spec_toml_string(
            Some(doc),
            Some(section),
            Some(key),
            default_text,
        ) == t@,
        spec_find_key(doc, section, key) is None ==> spec_toml_bool(
            Some(doc),
            Some(section),
            Some(key),
            default,
        ) == default && spec_toml_int(Some(doc), Some(section), Some(key), default) == default,
{
}

/// `toml_get_bool`.
pub fn api_toml_get_bool(
    config: &Option<TomlValue>,
    section: Option<&str>,
    key: Option<&str>,
    default: i32,
) -> (r: i32)
    ensures
        r == spec_toml_bool(*config, opt_view(section), opt_view(key), default),
{
    match lookup(config, section, key) {
        Some(TomlValue::Boolean(b)) => if *b {
            1
        } else {
            0
        },
        _ => default,
    }
}

/// The integer under `section`/`key` when it fits in an `i32`, else `default`.
pub open spec fn spec_toml_int(config: Option<TomlValue>, section: Option<Seq<char>>, key: Option<
    Seq<char>,
>, default: i32) -> i32 {
    match spec_lookup(config, section, key) {
        Some(TomlValue::Integer(i)) => if i32::MIN <= i <= i32::MAX {
            i as i32
        } else {
            default
        },
        _ => default,
    }
}

/// `toml_get_int`.
pub fn api_toml_get_int(
    config: &Option<TomlValue>,
    section: Option<&str>,
    key: Option<&str>,
    default: i32,
) -> (r: i32)
    ensures
        r == spec_toml_int(*config, opt_view(section), opt_view(key), default),
{
    match lookup(config, section, key) {
        Some(TomlValue::Integer(i)) => if i32::MIN as i64 <= *i && *i <= i32::MAX as i64 {
            *i as i32
        } else {
            default
        },
        _ => default,
    }
}

/// The number under `section`/`key` that `toml_get_float` reads: a float, else an
/// integer.
pub open spec fn spec_toml_number(config: Option<TomlValue>, section: Option<Seq<char>>, key: Option<
    Seq<char>,
>) -> Option<TomlNumber> {
    match spec_lookup(config, section, key) {
        Some(TomlValue::Float(bits)) => Some(TomlNumber::Float(bits)),
        Some(TomlValue::Integer(i)) => Some(TomlNumber::Integer(i)),
        _ => None,
    }
}

/// The number behind `toml_get_float`; the caller turns it into an `f32`.
pub fn api_toml_get_number(config: &Option<TomlValue>, section: Option<&str>, key: Option<&str>) -> (r:
    Option<TomlNumber>)
    ensures
        r == spec_toml_number(*config, opt_view(section), opt_view(key)),
{
    match lookup(config, section, key) {
        Some(TomlValue::Float(bits)) => Some(TomlNumber::Float(*bits)),
        Some(TomlValue::Integer(i)) => Some(TomlNumber::Integer(*i)),
        _ => None,
    }
}

/// The text `toml_get_string` hands out: the string under `section`/`key`, or the
/// default (empty when there is none).
pub open spec fn spec_toml_string(config: Option<TomlValue>, section: Option<Seq<char>>, key: Option<
    Seq<char>,
>, default: Option<Seq<char>>) -> Seq<char> {
    match spec_lookup(config, section, key) {
        Some(TomlValue::Str(s)) => s@,
        _ => match default {
            Some(d) => d,
            None => Seq::empty(),
        },
    }
}

/// `toml_get_string` without the copy into the caller's buffer: the bytes to copy,
/// at most `buf_size - 1` of them, or `None` (the call answers -1) when `buf_size`
/// is 0 or `section` or `key` is missing.
pub fn api_toml_get_string(
    config: &Option<TomlValue>,
    section: Option<&str>,
    key: Option<&str>,
    buf_size: u32,
    default: Option<&str>,
) -> (r: Option<Vec<u8>>)
    ensures
        buf_size == 0 || section is None || key is None ==> r is None,
        buf_size != 0 && section is Some && key is Some ==> (r matches Some(bytes) && {
            let all = vstd::utf8::encode_utf8(
                spec_toml_string(*config, opt_view(section), opt_view(key), opt_view(default)),
            );
            bytes@ == all.take(
                if all.len() < buf_size - 1 {
                    all.len() as int
                } else {
                    buf_size - 1
                },
            )
        }),
{
    if buf_size == 0 || section.is_none() || key.is_none() {
        return None;
    }
    let value: &str = match lookup(config, section, key) {
        Some(TomlValue::Str(s)) => s.as_str(),
        _ => match default {
            Some(d) => d,
            None => "",
        },
    };
    proof {
        reveal_strlit("");
    }
    let bytes = value.as_bytes();
    let limit = (buf_size - 1) as usize;
    let copy_len = if bytes.len() < limit {
        bytes.len()
    } else {
        limit
    };
    let mut out: Vec<u8> = Vec::new();
    let mut i: usize = 0;
    while i < copy_len
        invariant
            copy_len <= bytes@.len(),
            i <= copy_len,
            out@ == bytes@.take(i as int),
        decreases copy_len - i,
    {
        out.push(bytes[i]);
        assert(bytes@.take(i + 1) == bytes@.take(i as int).push(bytes@[i as int]));
        i = i + 1;
    }
    Some(out)
}

/// The key that the early patch is configured under.
pub open spec fn bypass_section() -> Seq<char> {
    seq!['B', 'y', 'p', 'a', 's', 's', 'A', 'p', 'p', 'U', 's', 'e', 'r']
}

pub open spec fn disabled_key() -> Seq<char> {
    seq!['D', 'i', 's', 'a', 'b', 'l', 'e', 'd']
}

/// The AppUser bypass is on when the document has a `[BypassAppUser]` table whose
/// `Disabled` is not `true`.
pub open spec fn spec_appuser_bypass_enabled(doc: TomlValue) -> bool {
    match spec_get(doc, bypass_section()) {
        Some(section) => section is Table && spec_get(section, disabled_key()) != Some(
            TomlValue::Boolean(true),
        ),
        None => false,
    }
}

/// Whether a parsed `AppleChu.toml` turns the AppUser bypass on.
pub fn appuser_bypass_enabled(doc: &TomlValue) -> (r: bool)
    ensures
        r == spec_appuser_bypass_enabled(*doc),
{
    let section_name = vec!['B', 'y', 'p', 'a', 's', 's', 'A', 'p', 'p', 'U', 's', 'e', 'r'];
    let disabled = vec!['D', 'i', 's', 'a', 'b', 'l', 'e', 'd'];
    assert(section_name@ =~= bypass_section());
    assert(disabled@ =~= disabled_key());
    assert(section_name@.subrange(0, 13) == section_name@);
    assert(disabled@.subrange(0, 8) == disabled@);
    match toml_get(doc, &section_name, 0, 13) {
        Some(section) => match section {
            TomlValue::Table(_) => match toml_get(section, &disabled, 0, 8) {
                Some(TomlValue::Boolean(b)) => !*b,
                _ => true,
            },
            _ => false,
        },
        None => false,
    }
}

/// Whether the text of `AppleChu.toml` turns the AppUser bypass on; text that is not
/// TOML turns it off.
pub fn appuser_bypass_enabled_in(text: &str) -> (r: bool)
    ensures
        r == match toml_document(text@) {
            Some(doc) => spec_appuser_bypass_enabled(doc),
            None => false,
        },
{
    match parse_toml_document(text) {
        Some(doc) => appuser_bypass_enabled(&doc),
        None => false,
    }
}

} // verus!
