//! Hot reload: finding the mod a reload names, the reload and monitor flags, and
//! the per-mod paths that a (re)load sets up.
use vstd::prelude::*;
use vstd::string::StringExecFns;
use crate::text::{
    ascii_lower, chars_of, dll_lower, dll_lower_chars, dll_upper, dll_upper_chars,
    lower_string_from_range, range_ends_with, str_equals, string_from_range, strip_suffix,
    strip_suffix_all, trim, trim_bounds,
};

verus! {

/// `name` trimmed, with every trailing ".dll" and then every trailing ".DLL"
/// removed, in ASCII lower case.
pub open spec fn spec_normalize_name(name: Seq<char>) -> Seq<char> {
    ascii_lower(strip_suffix_all(strip_suffix_all(trim(name), dll_lower()), dll_upper()))
}

/// The end of `chars[from..to]` once every trailing copy of `suffix` is removed.
fn strip_all_end(chars: &Vec<char>, from: usize, to: usize, suffix: &Vec<char>) -> (r: usize)
    requires
        from <= to <= chars@.len(),
        suffix@.len() > 0,
    ensures
        from <= r <= to,
        chars@.subrange(from as int, r as int) == strip_suffix_all(
            chars@.subrange(from as int, to as int),
            suffix@,
        ),
{
    let mut end = to;
    while range_ends_with(chars, from, end, suffix)
        invariant
            from <= end <= to <= chars@.len(),
            suffix@.len() > 0,
            strip_suffix_all(chars@.subrange(from as int, to as int), suffix@) == strip_suffix_all(
                chars@.subrange(from as int, end as int),
                suffix@,
            ),
        decreases end - from,
    {
        let ghost s = chars@.subrange(from as int, end as int);
        assert(s.subrange(0, s.len() - suffix@.len()) == chars@.subrange(
            from as int,
            end - suffix@.len(),
        ));
        end = end - suffix.len();
    }
    end
}

/// `normalize_name`: how a reload request and the loaded mods' names are compared:
/// trimmed, every trailing ".dll" then every trailing ".DLL" removed, lower case.
pub fn normalize_name(name: &str) -> (r: String)
    ensures
        r@ == spec_normalize_name(name@),
{
    let chars = chars_of(name);
    let (start, end) = trim_bounds(&chars);
    let lower = dll_lower_chars();
    let upper = dll_upper_chars();
    let e1 = strip_all_end(&chars, start, end, &lower);
    let e2 = strip_all_end(&chars, start, e1, &upper);
    lower_string_from_range(&chars, start, e2)
}

/// `file_name` without one ".dll" (or else ".DLL") suffix.
pub open spec fn spec_file_stem(file_name: Seq<char>) -> Seq<char> {
    match strip_suffix(file_name, dll_lower()) {
        Some(s) => s,
        None => match strip_suffix(file_name, dll_upper()) {
            Some(s) => s,
            None => file_name,
        },
    }
}

/// `file_stem`: the file name without its ".dll" or ".DLL" extension.
pub fn file_stem(file_name: &str) -> (r: String)
    ensures
        r@ == spec_file_stem(file_name@),
{
    let chars = chars_of(file_name);
    let n = chars.len();
    let lower = dll_lower_chars();
    let upper = dll_upper_chars();
    assert(chars@.subrange(0, n as int) == chars@);
    let stop = if range_ends_with(&chars, 0, n, &lower) {
        n - 4
    } else if range_ends_with(&chars, 0, n, &upper) {
        n - 4
    } else {
        n
    };
    string_from_range(&chars, 0, stop)
}

/// What a loaded mod is known by: the name it gave, its file name and full path.
pub struct ModRecord {
    pub name: String,
    pub file_name: String,
    pub full_path: String,
}

/// A reload request for `wanted` (already normalised) names the mod whose name,
/// file name or file stem normalises to it.
pub open spec fn spec_mod_matches(name: Seq<char>, file_name: Seq<char>, wanted: Seq<char>) -> bool {
    ||| spec_normalize_name(name) == wanted
    ||| spec_normalize_name(file_name) == wanted
    ||| spec_normalize_name(spec_file_stem(file_name)) == wanted
}

/// `mod_matches`: whether the loaded mod `m` is the one `wanted` names.
pub fn mod_matches(m: &ModRecord, wanted: &str) -> (r: bool)
    ensures
        r == spec_mod_matches(m.name@, m.file_name@, wanted@),
{
    let a = normalize_name(m.name.as_str());
    if str_equals(a.as_str(), wanted) {
        return true;
    }
    let b = normalize_name(m.file_name.as_str());
    if str_equals(b.as_str(), wanted) {
        return true;
    }
    let stem = file_stem(m.file_name.as_str());
    let c = normalize_name(stem.as_str());
    str_equals(c.as_str(), wanted)
}

/// The first loaded mod that a reload of `name` names.
pub open spec fn is_reload_target(mods: Seq<(Seq<char>, Seq<char>)>, name: Seq<char>, i: int) -> bool {
    &&& 0 <= i < mods.len()
    &&& spec_mod_matches(mods[i].0, mods[i].1, spec_normalize_name(name))
    &&& forall|j: int|
        0 <= j < i ==> !spec_mod_matches(
            #[trigger] mods[j].0,
            mods[j].1,
            spec_normalize_name(name),
        )
}

pub open spec fn record_names(m: ModRecord) -> (Seq<char>, Seq<char>) {
    (m.name@, m.file_name@)
}

/// The position of the mod that a reload of `name` acts on: the first loaded mod
/// that it names; `None` when it names none.
pub fn find_reload_target(mods: &Vec<ModRecord>, name: &str) -> (r: Option<usize>)
    ensures
        match r {
            Some(i) => is_reload_target(mods@.map_values(|m: ModRecord| record_names(m)), name@, i as int),
            None => forall|i: int|
                0 <= i < mods@.len() ==> !spec_mod_matches(
                    #[trigger] mods@[i].name@,
                    mods@[i].file_name@,
                    spec_normalize_name(name@),
                ),
        },
{
    let wanted = normalize_name(name);
    let ghost view = mods@.map_values(|m: ModRecord| record_names(m));
    let mut i: usize = 0;
    while i < mods.len()
        invariant
            wanted@ == spec_normalize_name(name@),
            view == mods@.map_values(|m: ModRecord| record_names(m)),
            i <= mods@.len(),
            forall|j: int|
                0 <= j < i ==> !spec_mod_matches(
                    #[trigger] mods@[j].name@,
                    mods@[j].file_name@,
                    spec_normalize_name(name@),
                ),
        decreases mods.len() - i,
    {
        if mod_matches(&mods[i], wanted.as_str()) {
            proof {
                assert forall|j: int| 0 <= j < i implies !spec_mod_matches(
                    #[trigger] view[j].0,
                    view[j].1,
                    spec_normalize_name(name@),
                ) by {
                    assert(view[j] == record_names(mods@[j]));
                }
                assert(view[i as int] == record_names(mods@[i as int]));
            }
            return Some(i);
        }
        i = i + 1;
    }
    None
}

/// Where a replacement goes back in the list of `len` mods: where the old one was,
/// or at the end if the list got shorter.
pub fn reinsert_position(index: usize, len: usize) -> (r: usize)
    ensures
        r == if index < len {
            index
        } else {
            len
        },
{
    if index < len {
        index
    } else {
        len
    }
}

/// `reload_all_mods`: 0 when every reload answered 0, else -1.
pub fn reload_all_result(results: &Vec<i32>) -> (r: i32)
    ensures
        r == if forall|i: int| 0 <= i < results@.len() ==> #[trigger] results@[i] == 0 {
            0i32
        } else {
            -1i32
        },
{
    let mut i: usize = 0;
    while i < results.len()
        invariant
            i <= results@.len(),
            forall|j: int| 0 <= j < i ==> #[trigger] results@[j] == 0,
        decreases results.len() - i,
    {
        if results[i] != 0 {
            return -1;
        }
        i = i + 1;
    }
    0
}

/// Whether a reload is under way; a second one is refused meanwhile.
pub struct ReloadFlag {
    pub in_progress: bool,
}

/// `is_reloading`: whether a reload is under way.
pub fn is_reloading(flag: &ReloadFlag) -> (r: bool)
    ensures
        r == flag.in_progress,
{
    flag.in_progress
}

/// The start of `reload_mod_by_name`: marks a reload as under way and answers true,
/// or answers false, changing nothing, when one already is.
pub fn begin_reload(flag: &mut ReloadFlag) -> (r: bool)
    ensures
        r == !old(flag).in_progress,
        final(flag).in_progress,
{
    if flag.in_progress {
        false
    } else {
        flag.in_progress = true;
        true
    }
}

/// The end of `reload_mod_by_name`.
pub fn end_reload(flag: &mut ReloadFlag)
    ensures
        !final(flag).in_progress,
{
    flag.in_progress = false;
}

/// A background thread's flags: whether it was started and whether it should keep
/// running.
pub struct ThreadFlags {
    pub started: bool,
    pub running: bool,
}

/// `start_monitor` / `start_if_needed`: answers whether a thread is to be created
/// now (it is not when one was already started); when it is, it is marked started
/// and running.
pub fn begin_start(flags: &mut ThreadFlags) -> (r: bool)
    ensures
        r == !old(flags).started,
        final(flags).started,
        final(flags).running == if r {
            true
        } else {
            old(flags).running
        },
{
    if flags.started {
        false
    } else {
        flags.started = true;
        flags.running = true;
        true
    }
}

/// `stop_monitor` (and `stop` for the frame thread): the thread stops at its next
/// turn and may be started again.
pub fn stop_monitor(flags: &mut ThreadFlags)
    ensures
        !final(flags).started,
        !final(flags).running,
{
    flags.running = false;
    flags.started = false;
}

/// `stop`: stops the frame thread (see `stop_monitor`).
pub fn stop(flags: &mut ThreadFlags)
    ensures
        !final(flags).started,
        !final(flags).running,
{
    stop_monitor(flags)
}

/// The directory of the mods' config files under `base`.
pub open spec fn spec_config_dir(base: Seq<char>) -> Seq<char> {
    base + "\\mods\\config"@
}

/// The directory of the mods' log files under `base`.
pub open spec fn spec_log_dir(base: Seq<char>) -> Seq<char> {
    base + "\\mods\\log"@
}

/// The paths a mod's load sets up: its config and log directories, its log file,
/// its TOML and INI configs and its manifest.
pub struct ModPaths {
    pub config_dir: String,
    pub log_dir: String,
    pub log_path: String,
    pub toml_path: String,
    pub ini_path: String,
    pub manifest_path: String,
}

/// The paths for the mod file `file_name` under the loader's directory `base`.
pub open spec fn spec_mod_paths_ok(p: ModPaths, base: Seq<char>, file_name: Seq<char>) -> bool {
    let stem = spec_file_stem(file_name);
    &&& p.config_dir@ == spec_config_dir(base)
    &&& p.log_dir@ == spec_log_dir(base)
    &&& p.log_path@ == spec_log_dir(base) + "\\"@ + stem + ".log"@
    &&& p.toml_path@ == spec_config_dir(base) + "\\"@ + stem + ".toml"@
    &&& p.ini_path@ == spec_config_dir(base) + "\\"@ + stem + ".ini"@
    &&& p.manifest_path@ == base + "\\mods\\manifest\\"@ + stem + ".toml"@
}

fn concat2(a: &str, b: &str) -> (r: String)
    ensures
        r@ == a@ + b@,
{
    let mut out = String::from_str(a);
    out.append(b);
    out
}

/// The paths that loading (or reloading) the mod file `file_name` sets up under
/// the loader's directory `base`.
pub fn mod_paths(base: &str, file_name: &str) -> (r: ModPaths)
    ensures
        spec_mod_paths_ok(r, base@, file_name@),
{
    let stem = file_stem(file_name);
    let config_dir = concat2(base, "\\mods\\config");
    let log_dir = concat2(base, "\\mods\\log");
    let mut log_path = concat2(log_dir.as_str(), "\\");
    log_path.append(stem.as_str());
    log_path.append(".log");
    let mut toml_path = concat2(config_dir.as_str(), "\\");
    toml_path.append(stem.as_str());
    toml_path.append(".toml");
    let mut ini_path = concat2(config_dir.as_str(), "\\");
    ini_path.append(stem.as_str());
    ini_path.append(".ini");
    let mut manifest_path = concat2(base, "\\mods\\manifest\\");
    manifest_path.append(stem.as_str());
    manifest_path.append(".toml");
    ModPaths { config_dir, log_dir, log_path, toml_path, ini_path, manifest_path }
}

/// The config file that the config calls act on during a mod's init: its TOML
/// config when that file exists, else its INI config.
pub fn chosen_config(paths: &ModPaths, toml_exists: bool) -> (r: &String)
    ensures
        r@ == if toml_exists {
            paths.toml_path@
        } else {
            paths.ini_path@
        },
{
    if toml_exists {
        &paths.toml_path
    } else {
        &paths.ini_path
    }
}

} // verus!
