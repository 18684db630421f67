//! Settings, read from `sd:/totk/config.ini`.
//!
//! Every setting has a default, so the file is optional. The mod manager
//! homebrew edits the same file (see `ini::set_value`).

use vstd::prelude::*;

use crate::ini::{
    self, parse_bool_spec, parse_spec, SpecEntry,
};
use crate::options::{
    strings_view, OptionMap, insert_group, SpecGroup, sorted_groups,
};
use crate::paths::{
    join, join_spec,
};
use crate::text::{
    chars_eq, chars_of, copy_string, eq_ignore_case, is_alpha, is_ignore_case, is_lit, lower_chars,
    lower_seq, parse_u64_max, parse_unsigned, slice_of, split, split_chars, starts_with, string_of,
    trim, trim_chars, trim_str,
};

verus! {

pub const TITLE_ID: &'static str = "0100F2C0115B6000";

pub const CONFIG_PATH: &'static str = "sd:/totk/config.ini";

/// The message archive locale the game last opened (e.g. "EUfr"), written by
/// the plugin: TotK reads one language only, which spares merging the others.
pub const LOCALE_PATH: &'static str = "sd:/totk/locale.txt";

/// A string literal as an owned string.
pub fn owned(s: &str) -> (r: String)
    ensures
        r@ == s@,
{
    let v = chars_of(s);
    string_of(v.as_slice())
}

pub struct Config {
    /// Where mods live: one folder per mod, holding `romfs`/`exefs` or a `.tkcl`.
    pub mods_dir: String,
    /// Mod lists: `<name>.ini` files.
    pub profiles_dir: String,
    /// The profile to merge; empty (or missing) merges every mod in `mods_dir`.
    pub profile: String,
    /// Where merges are kept.
    pub merged_dir: String,
    /// How many merges to keep, most recently used first.
    pub merge_cache_size: usize,
    /// Changelogs worked out for folder mods, kept between boots.
    pub cache_dir: String,
    /// Log file, or empty to only log through Skyline.
    pub log_path: String,
    /// Merge again even if the cache looks current.
    pub force_merge: bool,
    /// When the mods changed since the last merge: merge while the game boots
    /// (true), or keep serving the last merge until the manager applies the
    /// changes (false).
    pub merge_at_boot: bool,
    /// Master switch.
    pub enabled: bool,
    /// Log the first few files the game reads from the merged output.
    pub log_redirects: bool,
    /// Log details of the merge.
    pub verbose: bool,
    /// Also use what TKMM exported for RomFSlite, as the lowest priority mod.
    pub use_romfslite: bool,
    pub romfslite_dir: String,
    /// Message archive locales to merge: "auto" (the one the game was last
    /// seen reading, see [`LOCALE_PATH`]), "all", or a list ("USen,EUfr").
    pub locales: String,
    /// Apply code patches (.ips/.pchtxt from mods and TKMM's defaults).
    pub apply_patches: bool,
    /// Load the Skyline plugins mods ship.
    pub mod_plugins: bool,
    /// TKMM raises the shop parameter limit to this on every merge (0: off).
    pub shop_param_limit: u32,
    /// How long to wait for a plugin that took control of the mod list.
    pub control_timeout_ms: u32,
}

/// The settings as values.
pub struct ConfigView {
    pub mods_dir: Seq<char>,
    pub profiles_dir: Seq<char>,
    pub profile: Seq<char>,
    pub merged_dir: Seq<char>,
    pub merge_cache_size: usize,
    pub cache_dir: Seq<char>,
    pub log_path: Seq<char>,
    pub force_merge: bool,
    pub merge_at_boot: bool,
    pub enabled: bool,
    pub log_redirects: bool,
    pub verbose: bool,
    pub use_romfslite: bool,
    pub romfslite_dir: Seq<char>,
    pub locales: Seq<char>,
    pub apply_patches: bool,
    pub mod_plugins: bool,
    pub shop_param_limit: u32,
    pub control_timeout_ms: u32,
}

impl View for Config {
    type V = ConfigView;

    open spec fn view(&self) -> ConfigView {
        ConfigView {
            mods_dir: self.mods_dir@,
            profiles_dir: self.profiles_dir@,
            profile: self.profile@,
            merged_dir: self.merged_dir@,
            merge_cache_size: self.merge_cache_size,
            cache_dir: self.cache_dir@,
            log_path: self.log_path@,
            force_merge: self.force_merge,
            merge_at_boot: self.merge_at_boot,
            enabled: self.enabled,
            log_redirects: self.log_redirects,
            verbose: self.verbose,
            use_romfslite: self.use_romfslite,
            romfslite_dir: self.romfslite_dir@,
            locales: self.locales@,
            apply_patches: self.apply_patches,
            mod_plugins: self.mod_plugins,
            shop_param_limit: self.shop_param_limit,
            control_timeout_ms: self.control_timeout_ms,
        }
    }
}

/// The settings used where the file says nothing.
pub open spec fn default_view() -> ConfigView {
    ConfigView {
        mods_dir: "sd:/totk/mods"@,
        profiles_dir: "sd:/totk/profiles"@,
        profile: Seq::empty(),
        merged_dir: "sd:/totk/merged"@,
        merge_cache_size: 10,
        cache_dir: "sd:/totk/cache"@,
        log_path: "sd:/totk/merger.log"@,
        force_merge: false,
        merge_at_boot: true,
        enabled: true,
        log_redirects: false,
        verbose: false,
        use_romfslite: true,
        romfslite_dir: "sd:/atmosphere/contents/0100F2C0115B6000/romfslite"@,
        locales: "auto"@,
        apply_patches: true,
        mod_plugins: true,
        shop_param_limit: 512,
        control_timeout_ms: 60_000,
    }
}

impl Default for Config {
    fn default() -> (c: Config)
        ensures
            c@ == default_view(),
    {
        Config {
            mods_dir: owned("sd:/totk/mods"),
            profiles_dir: owned("sd:/totk/profiles"),
            profile: String::new(),
            merged_dir: owned("sd:/totk/merged"),
            merge_cache_size: 10,
            cache_dir: owned("sd:/totk/cache"),
            log_path: owned("sd:/totk/merger.log"),
            force_merge: false,
            merge_at_boot: true,
            enabled: true,
            log_redirects: false,
            verbose: false,
            use_romfslite: true,
            romfslite_dir: owned("sd:/atmosphere/contents/0100F2C0115B6000/romfslite"),
            locales: owned("auto"),
            apply_patches: true,
            mod_plugins: true,
            shop_param_limit: 512,
            control_timeout_ms: 60_000,
        }
    }
}

/// `n` kept within 1..=100.
pub open spec fn clamp_cache_size(n: int) -> int {
    if n < 1 {
        1
    } else if n > 100 {
        100
    } else {
        n
    }
}

/// The settings `config.ini` knows, by (lower case) name.
pub open spec fn setting_index(k: Seq<char>) -> int {
    if k == "mods_dir"@ {
        0
    } else if k == "profiles_dir"@ {
        1
    } else if k == "profile"@ {
        2
    } else if k == "merged_dir"@ {
        3
    } else if k == "merge_cache_size"@ {
        4
    } else if k == "cache_dir"@ {
        5
    } else if k == "log_path"@ {
        6
    } else if k == "force_merge"@ {
        7
    } else if k == "merge_at_boot"@ {
        8
    } else if k == "enabled"@ {
        9
    } else if k == "log_redirects"@ {
        10
    } else if k == "verbose"@ {
        11
    } else if k == "use_romfslite"@ {
        12
    } else if k == "romfslite_dir"@ {
        13
    } else if k == "locales"@ {
        14
    } else if k == "apply_patches"@ {
        15
    } else if k == "mod_plugins"@ {
        16
    } else if k == "shop_param_limit"@ {
        17
    } else if k == "control_timeout_ms"@ {
        18
    } else {
        -1
    }
}

/// Setting number `index` set from `value`.
pub open spec fn set_setting(c: ConfigView, index: int, value: Seq<char>) -> ConfigView {
    if index == 0 {
        ConfigView { mods_dir: value, ..c }
    } else if index == 1 {
        ConfigView { profiles_dir: value, ..c }
    } else if index == 2 {
        ConfigView { profile: value, ..c }
    } else if index == 3 {
        ConfigView { merged_dir: value, ..c }
    } else if index == 4 {
        match parse_unsigned(value, usize::MAX as int) {
            Some(n) => ConfigView { merge_cache_size: clamp_cache_size(n) as usize, ..c },
            None => c,
        }
    } else if index == 5 {
        ConfigView { cache_dir: value, ..c }
    } else if index == 6 {
        ConfigView { log_path: value, ..c }
    } else if index == 7 {
        ConfigView { force_merge: parse_bool_spec(value, c.force_merge), ..c }
    } else if index == 8 {
        ConfigView { merge_at_boot: parse_bool_spec(value, c.merge_at_boot), ..c }
    } else if index == 9 {
        ConfigView { enabled: parse_bool_spec(value, c.enabled), ..c }
    } else if index == 10 {
        ConfigView { log_redirects: parse_bool_spec(value, c.log_redirects), ..c }
    } else if index == 11 {
        ConfigView { verbose: parse_bool_spec(value, c.verbose), ..c }
    } else if index == 12 {
        ConfigView { use_romfslite: parse_bool_spec(value, c.use_romfslite), ..c }
    } else if index == 13 {
        ConfigView { romfslite_dir: value, ..c }
    } else if index == 14 {
        ConfigView { locales: value, ..c }
    } else if index == 15 {
        ConfigView { apply_patches: parse_bool_spec(value, c.apply_patches), ..c }
    } else if index == 16 {
        ConfigView { mod_plugins: parse_bool_spec(value, c.mod_plugins), ..c }
    } else if index == 17 {
        match parse_unsigned(value, u32::MAX as int) {
            Some(n) => ConfigView { shop_param_limit: n as u32, ..c },
            None => c,
        }
    } else if index == 18 {
        match parse_unsigned(value, u32::MAX as int) {
            Some(n) => ConfigView { control_timeout_ms: n as u32, ..c },
            None => c,
        }
    } else {
        c
    }
}

/// One `key = value` line of `config.ini` applied to `c` (keys compared
/// without case; unknown ones ignored).
pub open spec fn apply_setting(c: ConfigView, key: Seq<char>, value: Seq<char>) -> ConfigView {
    set_setting(c, setting_index(lower_seq(key)), value)
}

pub open spec fn apply_settings(c: ConfigView, entries: Seq<SpecEntry>) -> ConfigView
    decreases entries.len(),
{
    if entries.len() == 0 {
        c
    } else {
        apply_setting(apply_settings(c, entries.drop_last()), entries.last().0, entries.last().1)
    }
}

/// The settings a `config.ini` holds, defaults filling the rest.
pub open spec fn config_of(contents: Seq<char>) -> ConfigView {
    apply_settings(default_view(), parse_spec(contents)[0].1)
}

/// Which message archives a merge needs.
#[derive(Debug, Clone, PartialEq, Eq)]
pub enum Locales {
    All,
    Only(Vec<String>),
}

pub enum SpecLocales {
    All,
    Only(Seq<Seq<char>>),
}

impl View for Locales {
    type V = SpecLocales;

    open spec fn view(&self) -> SpecLocales {
        match self {
            Locales::All => SpecLocales::All,
            Locales::Only(list) => SpecLocales::Only(strings_view(list@)),
        }
    }
}

/// The number of the setting named `k` (lower case), or -1.
pub fn setting_number(k: &[char]) -> (r: i32)
    ensures
        r as int == setting_index(k@),
{
    if is_lit(k, "mods_dir") {
        0
    } else if is_lit(k, "profiles_dir") {
        1
    } else if is_lit(k, "profile") {
        2
    } else if is_lit(k, "merged_dir") {
        3
    } else if is_lit(k, "merge_cache_size") {
        4
    } else if is_lit(k, "cache_dir") {
        5
    } else if is_lit(k, "log_path") {
        6
    } else if is_lit(k, "force_merge") {
        7
    } else if is_lit(k, "merge_at_boot") {
        8
    } else if is_lit(k, "enabled") {
        9
    } else if is_lit(k, "log_redirects") {
        10
    } else if is_lit(k, "verbose") {
        11
    } else if is_lit(k, "use_romfslite") {
        12
    } else if is_lit(k, "romfslite_dir") {
        13
    } else if is_lit(k, "locales") {
        14
    } else if is_lit(k, "apply_patches") {
        15
    } else if is_lit(k, "mod_plugins") {
        16
    } else if is_lit(k, "shop_param_limit") {
        17
    } else if is_lit(k, "control_timeout_ms") {
        18
    } else {
        -1
    }
}

/// The pieces of a comma-separated list, trimmed, empty ones left out.
pub open spec fn list_items(pieces: Seq<Seq<char>>) -> Seq<Seq<char>>
    decreases pieces.len(),
{
    if pieces.len() == 0 {
        Seq::empty()
    } else {
        let rest = list_items(pieces.drop_last());
        let t = trim(pieces.last());
        if t.len() == 0 {
            rest
        } else {
            rest.push(t)
        }
    }
}

/// A `sep`-separated list.
pub open spec fn list_of(text: Seq<char>, sep: char) -> Seq<Seq<char>> {
    list_items(split(text, sep))
}

/// The locales setting, with "auto" resolved to `detected`.
pub open spec fn locales_spec(setting: Seq<char>, detected: Option<Seq<char>>) -> SpecLocales {
    let s = trim(setting);
    if eq_ignore_case(s, "auto"@) {
        match detected {
            Some(l) => SpecLocales::Only(seq![l]),
            None => SpecLocales::All,
        }
    } else if s.len() == 0 || eq_ignore_case(s, "all"@) {
        SpecLocales::All
    } else if list_of(s, ',').len() == 0 {
        SpecLocales::All
    } else {
        SpecLocales::Only(list_of(s, ','))
    }
}

/// The members of `list` that `available` holds, in order.
pub open spec fn known_of(list: Seq<Seq<char>>, available: Seq<Seq<char>>) -> Seq<Seq<char>>
    decreases list.len(),
{
    if list.len() == 0 {
        Seq::empty()
    } else if available.contains(list.last()) {
        known_of(list.drop_last(), available).push(list.last())
    } else {
        known_of(list.drop_last(), available)
    }
}

pub open spec fn locale_list_spec(
    setting: Seq<char>,
    detected: Option<Seq<char>>,
    available: Seq<Seq<char>>,
) -> Seq<Seq<char>> {
    match locales_spec(setting, detected) {
        SpecLocales::All => available,
        SpecLocales::Only(list) => if known_of(list, available).len() == 0 {
            available
        } else {
            known_of(list, available)
        },
    }
}

/// The trimmed, non-empty pieces of `text` split at `sep`.
pub fn list_chars(text: &[char], sep: char) -> (r: Vec<String>)
    ensures
        strings_view(r@) == list_of(text@, sep),
{
    let pieces = split_chars(text, sep);
    let ghost ps = split(text@, sep);
    let mut r: Vec<String> = Vec::new();
    let mut i: usize = 0;
    while i < pieces.len()
        invariant
            i <= pieces.len(),
            pieces@.map_values(|v: Vec<char>| v@) == ps,
            strings_view(r@) == list_items(ps.take(i as int)),
        decreases pieces.len() - i,
    {
        assert(ps.take(i + 1).drop_last() =~= ps.take(i as int));
        assert(ps.take(i + 1).last() == pieces@[i as int]@);
        let t = trim_chars(pieces[i].as_slice());
        if t.len() > 0 {
            r.push(string_of(t.as_slice()));
        }
        i = i + 1;
        assert(strings_view(r@) =~= list_items(ps.take(i as int)));
    }
    assert(ps.take(pieces.len() as int) =~= ps);
    r
}

pub fn copy_list(v: &Vec<String>) -> (r: Vec<String>)
    ensures
        strings_view(r@) == strings_view(v@),
{
    crate::options::copy_strings(v)
}

/// Whether `list` holds `item`.
pub fn holds(list: &Vec<String>, item: &String) -> (r: bool)
    ensures
        r == strings_view(list@).contains(item@),
{
    let x = chars_of(item.as_str());
    let mut i: usize = 0;
    while i < list.len()
        invariant
            i <= list.len(),
            x@ == item@,
            forall|k: int| 0 <= k < i ==> list@[k]@ != item@,
        decreases list.len() - i,
    {
        let y = chars_of(list[i].as_str());
        if chars_eq(y.as_slice(), x.as_slice()) {
            assert(strings_view(list@)[i as int] == item@);
            return true;
        }
        i = i + 1;
    }
    assert forall|k: int| 0 <= k < strings_view(list@).len() implies strings_view(list@)[k]
        != item@ by {
        assert(strings_view(list@)[k] == list@[k]@);
    }
    false
}

impl Config {
    /// The settings a `config.ini` holds, defaults filling the rest.
    pub fn parse(contents: &str) -> (c: Config)
        ensures
            c@ == config_of(contents@),
    {
        let mut config = Config::default();
        let sections = ini::parse(contents);
        proof {
            ini::lemma_parse_lines_len(crate::text::lines(contents@));
        }
        assert(sections@.len() >= 1);
        let entries = &sections[0].entries;
        let ghost es = ini::entries_view(entries@);
        assert(es == parse_spec(contents@)[0].1);
        let mut i: usize = 0;
        while i < entries.len()
            invariant
                i <= entries.len(),
                es == ini::entries_view(entries@),
                config@ == apply_settings(default_view(), es.take(i as int)),
            decreases entries.len() - i,
        {
            assert(es.take(i + 1).drop_last() =~= es.take(i as int));
            assert(es[i as int] == (entries@[i as int].0@, entries@[i as int].1@));
            config.apply(entries[i].0.as_str(), &entries[i].1);
            i = i + 1;
        }
        assert(es.take(entries.len() as int) =~= es);
        config
    }

    /// Applies one `key = value` line.
    pub fn apply(&mut self, key: &str, value: &String)
        ensures
            final(self)@ == apply_setting(old(self)@, key@, value@),
    {
        let lk = lower_chars(chars_of(key).as_slice());
        let index = setting_number(lk.as_slice());
        self.set(index, value);
    }

    /// Sets setting number `index` from `value`.
    #[verifier::rlimit(40)]
    pub fn set(&mut self, index: i32, value: &String)
        ensures
            final(self)@ == set_setting(old(self)@, index as int, value@),
    {
        let v = chars_of(value.as_str());
        match index {
            0 => self.mods_dir = copy_string(value),
            1 => self.profiles_dir = copy_string(value),
            2 => self.profile = copy_string(value),
            3 => self.merged_dir = copy_string(value),
            4 => {
                if let Some(n) = parse_u64_max(v.as_slice(), usize::MAX as u64) {
                    self.merge_cache_size = if n < 1 {
                        1
                    } else if n > 100 {
                        100
                    } else {
                        n as usize
                    };
                }
            },
            5 => self.cache_dir = copy_string(value),
            6 => self.log_path = copy_string(value),
            7 => self.force_merge = ini::parse_bool(value.as_str(), self.force_merge),
            8 => self.merge_at_boot = ini::parse_bool(value.as_str(), self.merge_at_boot),
            9 => self.enabled = ini::parse_bool(value.as_str(), self.enabled),
            10 => self.log_redirects = ini::parse_bool(value.as_str(), self.log_redirects),
            11 => self.verbose = ini::parse_bool(value.as_str(), self.verbose),
            12 => self.use_romfslite = ini::parse_bool(value.as_str(), self.use_romfslite),
            13 => self.romfslite_dir = copy_string(value),
            14 => self.locales = copy_string(value),
            15 => self.apply_patches = ini::parse_bool(value.as_str(), self.apply_patches),
            16 => self.mod_plugins = ini::parse_bool(value.as_str(), self.mod_plugins),
            17 => {
                if let Some(n) = parse_u64_max(v.as_slice(), u32::MAX as u64) {
                    self.shop_param_limit = n as u32;
                }
            },
            18 => {
                if let Some(n) = parse_u64_max(v.as_slice(), u32::MAX as u64) {
                    self.control_timeout_ms = n as u32;
                }
            },
            _ => {},
        }
    }

    /// The locales setting, with "auto" resolved to `detected` (the locale
    /// the game was last seen reading; every locale until then).
    pub fn locales(&self, detected: Option<&str>) -> (r: Locales)
        ensures
            r@ == locales_spec(
                self.locales@,
                match detected {
                    Some(d) => Some(d@),
                    None => None,
                },
            ),
    {
        let setting = trim_str(self.locales.as_str());
        let s = setting.as_slice();
        if is_ignore_case(s, "auto") {
            return match detected {
                Some(locale) => {
                    let mut list: Vec<String> = Vec::new();
                    list.push(owned(locale));
                    assert(strings_view(list@) =~= seq![locale@]);
                    Locales::Only(list)
                },
                None => Locales::All,
            };
        }
        if setting.len() == 0 || is_ignore_case(s, "all") {
            return Locales::All;
        }
        let list = list_chars(s, ',');
        if list.len() == 0 {
            Locales::All
        } else {
            Locales::Only(list)
        }
    }

    /// The locales setting resolved against what the game ships.
    pub fn locale_list(&self, available: &Vec<String>, detected: Option<&str>) -> (r: Vec<String>)
        ensures
            strings_view(r@) == locale_list_spec(
                self.locales@,
                match detected {
                    Some(d) => Some(d@),
                    None => None,
                },
                strings_view(available@),
            ),
    {
        match self.locales(detected) {
            Locales::All => copy_list(available),
            Locales::Only(list) => {
                let ghost av = strings_view(available@);
                let ghost ls = strings_view(list@);
                let mut known: Vec<String> = Vec::new();
                let mut i: usize = 0;
                while i < list.len()
                    invariant
                        i <= list.len(),
                        ls == strings_view(list@),
                        av == strings_view(available@),
                        strings_view(known@) == known_of(ls.take(i as int), av),
                    decreases list.len() - i,
                {
                    assert(ls.take(i + 1).drop_last() =~= ls.take(i as int));
                    assert(ls.take(i + 1).last() == list@[i as int]@);
                    if holds(available, &list[i]) {
                        known.push(copy_string(&list[i]));
                    }
                    i = i + 1;
                    assert(strings_view(known@) =~= known_of(ls.take(i as int), av));
                }
                assert(ls.take(list.len() as int) =~= ls);
                // A locale this game does not ship (a typo, another version)
                // must not leave every text unmerged.
                if known.len() == 0 {
                    copy_list(available)
                } else {
                    known
                }
            },
        }
    }

    /// `sd:/totk/mods/<folder>`.
    pub fn mod_path(&self, folder: &str) -> (r: String)
        ensures
            r@ == join_spec(self.mods_dir@, folder@),
    {
        join(self.mods_dir.as_str(), folder)
    }
}

/// What `detected_locale` accepts: four ASCII letters, spaces around them
/// allowed.
pub open spec fn locale_text(text: Seq<char>) -> Option<Seq<char>> {
    let t = trim(text);
    if t.len() == 4 && (forall|i: int| 0 <= i < 4 ==> is_alpha(#[trigger] t[i])) {
        Some(t)
    } else {
        None
    }
}

/// The locale recorded in the locale file (whose contents are `text`), when
/// it looks like one.
pub fn detected_locale(text: &str) -> (r: Option<String>)
    ensures
        match locale_text(text@) {
            Some(l) => r matches Some(s) && s@ == l,
            None => r is None,
        },
{
    let t = trim_str(text);
    if t.len() != 4 {
        return None;
    }
    let mut i: usize = 0;
    while i < 4
        invariant
            i <= 4,
            t@.len() == 4,
            t@ == trim(text@),
            forall|j: int| 0 <= j < i ==> is_alpha(#[trigger] t@[j]),
        decreases 4 - i,
    {
        let c = t[i];
        if !(('a' <= c && c <= 'z') || ('A' <= c && c <= 'Z')) {
            assert(!is_alpha(t@[i as int]));
            return None;
        }
        i = i + 1;
    }
    Some(string_of(t.as_slice()))
}

/// Index of the first occurrence of `p` in `s`, or -1.
pub open spec fn find_text(s: Seq<char>, p: Seq<char>) -> int
    decreases s.len(),
{
    if starts_with(s, p) {
        0
    } else if s.len() == 0 {
        -1
    } else {
        let r = find_text(s.skip(1), p);
        if r < 0 {
            -1
        } else {
            r + 1
        }
    }
}

proof fn lemma_find_text(s: Seq<char>, p: Seq<char>)
    ensures
        -1 <= find_text(s, p) <= s.len(),
        find_text(s, p) >= 0 ==> starts_with(s.skip(find_text(s, p)), p),
    decreases s.len(),
{
    if !starts_with(s, p) && s.len() > 0 {
        lemma_find_text(s.skip(1), p);
        let r = find_text(s.skip(1), p);
        if r >= 0 {
            assert(s.skip(1).skip(r) =~= s.skip(r + 1));
        }
    } else if starts_with(s, p) {
        assert(s.skip(0) =~= s);
    }
}

fn find_text_exec(s: &[char], p: &[char]) -> (r: Option<usize>)
    ensures
        match r {
            Some(i) => i as int == find_text(s@, p@) && i <= s.len(),
            None => find_text(s@, p@) == -1,
        },
{
    let mut i: usize = 0;
    assert(s@.skip(0) =~= s@);
    while i < s.len()
        invariant
            i <= s.len(),
            find_text(s@, p@) == if find_text(s@.skip(i as int), p@) < 0 {
                -1
            } else {
                find_text(s@.skip(i as int), p@) + i
            },
        decreases s.len() - i,
    {
        let rest = slice_of(s, i, s.len());
        if crate::text::has_prefix(rest.as_slice(), p) {
            return Some(i);
        }
        assert(s@.skip(i as int).skip(1) =~= s@.skip(i + 1));
        i = i + 1;
    }
    let rest = slice_of(s, i, s.len());
    if crate::text::has_prefix(rest.as_slice(), p) {
        return Some(i);
    }
    assert(s@.skip(i as int).len() == 0);
    None
}

/// The locale of a message archive path: "EUfr" from
/// "content:/Mals/EUfr.Product.121.sarc.zs".
pub open spec fn message_archive_locale(path: Seq<char>) -> Option<Seq<char>> {
    let at = find_text(path, "Mals/"@);
    if at < 0 {
        None
    } else {
        let name = path.skip(at + 5);
        if name.len() >= 12 && name.subrange(4, 12) == ".Product"@ && crate::text::ends_with(
            name,
            ".sarc.zs"@,
        ) && (forall|i: int| 0 <= i < 4 ==> is_alpha(#[trigger] name[i])) {
            Some(name.take(4))
        } else {
            None
        }
    }
}

/// "EUfr" from a romfs path such as "content:/Mals/EUfr.Product.121.sarc.zs".
pub fn locale_of_message_archive(path: &str) -> (r: Option<String>)
    ensures
        match message_archive_locale(path@) {
            Some(l) => r matches Some(s) && s@ == l,
            None => r is None,
        },
{
    let s = chars_of(path);
    let pat = chars_of("Mals/");
    proof {
        reveal_strlit("Mals/");
        lemma_find_text(s@, pat@);
    }
    let at = match find_text_exec(s.as_slice(), pat.as_slice()) {
        Some(at) => at,
        None => return None,
    };
    let name = slice_of(s.as_slice(), at + 5, s.len());
    assert(name@ == s@.skip(at + 5));
    if name.len() < 12 {
        return None;
    }
    let product = slice_of(name.as_slice(), 4, 12);
    if !is_lit(product.as_slice(), ".Product") {
        return None;
    }
    if !crate::text::has_suffix_lit(name.as_slice(), ".sarc.zs") {
        return None;
    }
    let ghost result = message_archive_locale(path@);
    assert(result == if (forall|j: int| 0 <= j < 4 ==> is_alpha(#[trigger] name@[j])) {
        Some(name@.take(4))
    } else {
        None
    });
    let mut i: usize = 0;
    while i < 4
        invariant
            i <= 4,
            name@.len() >= 12,
            result == message_archive_locale(path@),
            result == if (forall|j: int| 0 <= j < 4 ==> is_alpha(#[trigger] name@[j])) {
                Some(name@.take(4))
            } else {
                None
            },
            forall|j: int| 0 <= j < i ==> is_alpha(#[trigger] name@[j]),
        decreases 4 - i,
    {
        let c = name[i];
        if !(('a' <= c && c <= 'z') || ('A' <= c && c <= 'Z')) {
            assert(!is_alpha(name@[i as int]));
            return None;
        }
        i = i + 1;
    }
    let locale = slice_of(name.as_slice(), 0, 4);
    Some(string_of(locale.as_slice()))
}

/// `text` starts with `prefix`, ignoring ASCII case.
pub open spec fn has_prefix_ignore_case(text: Seq<char>, prefix: Seq<char>) -> bool {
    prefix.len() <= text.len() && eq_ignore_case(text.take(prefix.len() as int), prefix)
}

/// The option selections of `entries` (keys `<prefix><group>`, values
/// `a; b`), in order.
pub open spec fn options_of(entries: Seq<SpecEntry>, prefix: Seq<char>) -> Seq<SpecGroup>
    decreases entries.len(),
{
    if entries.len() == 0 {
        Seq::empty()
    } else {
        let acc = options_of(entries.drop_last(), prefix);
        let (key, value) = entries.last();
        if has_prefix_ignore_case(key, prefix) {
            insert_group(acc, trim(key.skip(prefix.len() as int)), list_of(value, ';'))
        } else {
            acc
        }
    }
}

pub proof fn lemma_options_sorted(entries: Seq<SpecEntry>, prefix: Seq<char>)
    ensures
        sorted_groups(options_of(entries, prefix)),
    decreases entries.len(),
{
    if entries.len() > 0 {
        lemma_options_sorted(entries.drop_last(), prefix);
        let (key, value) = entries.last();
        if has_prefix_ignore_case(key, prefix) {
            crate::options::lemma_insert_sorted(
                options_of(entries.drop_last(), prefix),
                trim(key.skip(prefix.len() as int)),
                list_of(value, ';'),
            );
        }
    }
}

// --- reading back what was written --------------------------------------------------------

/// A choice an option line keeps: not empty, no white space around it, no
/// `;` (which separates choices) and no line break.
pub open spec fn writable_choice(c: Seq<char>) -> bool {
    c.len() > 0 && crate::text::trimmed(c) && crate::text::lacks(c, ';') && crate::text::lacks(c, '\n')
}

/// Choices joined by "; " read back as the choices.
pub proof fn lemma_list_of_choices(choices: Seq<Seq<char>>)
    requires
        forall|i: int| 0 <= i < choices.len() ==> writable_choice(#[trigger] choices[i]),
    ensures
        list_of(crate::text::join(choices, "; "@), ';') == choices,
{
    reveal_strlit("; ");
    if choices.len() == 0 {
        let one = seq![Seq::<char>::empty()];
        assert(split(Seq::<char>::empty(), ';') == one);
        assert(one.drop_last() =~= Seq::<Seq<char>>::empty());
        assert(one.last() == Seq::<char>::empty());
        assert(trim(one.last()) =~= Seq::<char>::empty());
        assert(list_items(one.drop_last()) == Seq::<Seq<char>>::empty());
        assert(list_items(one) =~= Seq::<Seq<char>>::empty());
        assert(crate::text::join(choices, "; "@) == Seq::<char>::empty());
    } else {
        assert("; "@ =~= seq![';'] + seq![' ']);
        crate::text::lemma_join_spaced(choices, ';', seq![' ']);
        let sp = crate::text::spaced(choices, seq![' ']);
        assert forall|i: int| 0 <= i < sp.len() implies crate::text::lacks(#[trigger] sp[i], ';') by {
            assert(writable_choice(choices[i]));
            if i > 0 {
                assert forall|j: int| 0 <= j < sp[i].len() implies sp[i][j] != ';' by {
                    if j > 0 {
                        assert(sp[i][j] == choices[i][j - 1]);
                    }
                }
            }
        }
        crate::text::lemma_split_join(sp, ';');
        lemma_list_items_spaced(choices, choices.len() as int);
        assert(sp.take(choices.len() as int) =~= sp);
        assert(choices.take(choices.len() as int) =~= choices);
        assert(crate::text::join(choices, "; "@) == crate::text::join(sp, seq![';']));
    }
}

proof fn lemma_list_items_spaced(choices: Seq<Seq<char>>, n: int)
    requires
        0 <= n <= choices.len(),
        forall|i: int| 0 <= i < choices.len() ==> writable_choice(#[trigger] choices[i]),
    ensures
        list_items(crate::text::spaced(choices, seq![' ']).take(n)) == choices.take(n),
    decreases n,
{
    let sp = crate::text::spaced(choices, seq![' ']);
    if n > 0 {
        lemma_list_items_spaced(choices, n - 1);
        assert(sp.take(n).drop_last() =~= sp.take(n - 1));
        assert(writable_choice(choices[n - 1]));
        if n - 1 == 0 {
            crate::text::lemma_trim_trimmed(choices[0]);
            assert(sp.take(n).last() == choices[0]);
        } else {
            crate::text::lemma_trim_space_before(choices[n - 1]);
            assert(sp.take(n).last() == seq![' '] + choices[n - 1]);
        }
        assert(choices.take(n - 1).push(choices[n - 1]) =~= choices.take(n));
    } else {
        assert(choices.take(0) =~= Seq::<Seq<char>>::empty());
        assert(sp.take(0) =~= Seq::<Seq<char>>::empty());
    }
    if n == choices.len() {
        assert(choices.take(n) =~= choices);
        assert(sp.take(n) =~= sp);
    }
}

/// The entries of option lines: `<prefix><group>` and the choices joined.
pub open spec fn option_entries(prefix: Seq<char>, groups: Seq<SpecGroup>) -> Seq<SpecEntry> {
    groups.map_values(|g: SpecGroup| (prefix + g.0, crate::text::join(g.1, "; "@)))
}

/// The entries of `option.<group>` lines.
pub open spec fn options_of_entries(groups: Seq<SpecGroup>) -> Seq<SpecEntry> {
    option_entries("option."@, groups)
}

/// A group an option line keeps: its name without white space around it,
/// its choices writable.
pub open spec fn writable_group(g: SpecGroup) -> bool {
    crate::text::trimmed(g.0) && forall|i: int| 0 <= i < g.1.len() ==> writable_choice(#[trigger] g.1[i])
}

/// Writable choices joined by "; " make a value an entry line keeps.
pub proof fn lemma_choices_value(choices: Seq<Seq<char>>)
    requires
        forall|i: int| 0 <= i < choices.len() ==> writable_choice(#[trigger] choices[i]),
    ensures
        crate::ini::entry_value(crate::text::join(choices, "; "@)),
{
    reveal_strlit("; ");
    let j = crate::text::join(choices, "; "@);
    assert forall|i: int| 0 <= i < choices.len() implies crate::text::lacks(#[trigger] choices[i], '\n') by {
        assert(writable_choice(choices[i]));
    }
    crate::text::lemma_join_lacks(choices, "; "@, '\n');
    if choices.len() > 0 {
        assert forall|i: int| 0 <= i < choices.len() implies (#[trigger] choices[i]).len() > 0 by {
            assert(writable_choice(choices[i]));
        }
        crate::text::lemma_join_ends(choices, "; "@);
        assert(writable_choice(choices[0]));
        assert(writable_choice(choices.last()));
    } else {
        assert(j =~= Seq::<char>::empty());
    }
}

/// Option lines read back as the groups written, after entries that are
/// not options.
pub proof fn lemma_options_written(entries: Seq<SpecEntry>, prefix: Seq<char>, groups: Seq<SpecGroup>)
    requires
        options_of(entries, prefix) == Seq::<SpecGroup>::empty(),
        sorted_groups(groups),
        forall|i: int| 0 <= i < groups.len() ==> writable_group(#[trigger] groups[i]),
    ensures
        options_of(entries + option_entries(prefix, groups), prefix) == groups,
    decreases groups.len(),
{
    if groups.len() == 0 {
        assert(entries + option_entries(prefix, groups) =~= entries);
    } else {
        let front = groups.drop_last();
        assert(sorted_groups(front)) by {
            assert forall|i: int, j: int| 0 <= i < j < front.len() implies crate::options::text_lt(
                #[trigger] front[i].0,
                #[trigger] front[j].0,
            ) by {
                assert(front[i] == groups[i]);
                assert(front[j] == groups[j]);
            }
        }
        assert forall|i: int| 0 <= i < front.len() implies writable_group(#[trigger] front[i]) by {
            assert(front[i] == groups[i]);
        }
        lemma_options_written(entries, prefix, front);
        let g = groups.last();
        let all = entries + option_entries(prefix, groups);
        assert(all.drop_last() =~= entries + option_entries(prefix, front));
        assert(all.last() == (prefix + g.0, crate::text::join(g.1, "; "@)));
        let key = prefix + g.0;
        assert(key.take(prefix.len() as int) =~= prefix);
        crate::text::lemma_eq_ignore_case_refl(prefix);
        assert(key.skip(prefix.len() as int) =~= g.0);
        assert(writable_group(g));
        crate::text::lemma_trim_trimmed(g.0);
        lemma_list_of_choices(g.1);
        assert forall|i: int| 0 <= i < front.len() implies crate::options::text_lt(#[trigger] front[i].0, g.0) by {
            assert(front[i] == groups[i]);
        }
        crate::options::lemma_insert_group_last(front, g.0, g.1);
        assert(front.push(g) =~= groups);
    }
}

/// Parses `Group = A; B` option selections.
pub fn parse_options(entries: &Vec<(String, String)>, prefix: &str) -> (r: OptionMap)
    ensures
        r@ == options_of(ini::entries_view(entries@), prefix@),
        r.wf(),
{
    let ghost es = ini::entries_view(entries@);
    let p = chars_of(prefix);
    let mut options = OptionMap::new();
    let mut i: usize = 0;
    while i < entries.len()
        invariant
            i <= entries.len(),
            es == ini::entries_view(entries@),
            p@ == prefix@,
            options@ == options_of(es.take(i as int), prefix@),
            options.wf(),
        decreases entries.len() - i,
    {
        assert(es.take(i + 1).drop_last() =~= es.take(i as int));
        assert(es[i as int] == (entries@[i as int].0@, entries@[i as int].1@));
        let key = chars_of(entries[i].0.as_str());
        if p.len() <= key.len() {
            let head = slice_of(key.as_slice(), 0, p.len());
            if crate::text::chars_eq_ignore_case(head.as_slice(), p.as_slice()) {
                let group = slice_of(key.as_slice(), p.len(), key.len());
                let g = trim_chars(group.as_slice());
                let value = chars_of(entries[i].1.as_str());
                let selected = list_chars(value.as_slice(), ';');
                options.insert(string_of(g.as_slice()), selected);
            }
        }
        i = i + 1;
    }
    assert(es.take(entries.len() as int) =~= es);
    options
}

proof fn lemma_keys_differ(a: Seq<char>, b: Seq<char>, i: int)
    requires
        0 <= i < a.len(),
        i < b.len(),
        a[i] != b[i],
    ensures
        a != b,
{
}

proof fn lemma_setting_mods_dir(c: ConfigView, key: Seq<char>, value: Seq<char>)
    requires
        lower_seq(key) == "mods_dir"@,
    ensures
        apply_setting(c, key, value) == (ConfigView { mods_dir: value, ..c }),
{
    reveal_strlit("mods_dir");
    assert(setting_index("mods_dir"@) == 0);
}

proof fn lemma_setting_profiles_dir(c: ConfigView, key: Seq<char>, value: Seq<char>)
    requires
        lower_seq(key) == "profiles_dir"@,
    ensures
        apply_setting(c, key, value) == (ConfigView { profiles_dir: value, ..c }),
{
    reveal_strlit("profiles_dir");
    reveal_strlit("mods_dir");
    assert("profiles_dir"@.len() == 12 && "mods_dir"@.len() == 8);
    assert(setting_index("profiles_dir"@) == 1);
}

proof fn lemma_setting_profile(c: ConfigView, key: Seq<char>, value: Seq<char>)
    requires
        lower_seq(key) == "profile"@,
    ensures
        apply_setting(c, key, value) == (ConfigView { profile: value, ..c }),
{
    reveal_strlit("profile");
    reveal_strlit("mods_dir");
    assert("profile"@.len() == 7 && "mods_dir"@.len() == 8);
    reveal_strlit("profiles_dir");
    assert("profile"@.len() == 7 && "profiles_dir"@.len() == 12);
    assert(setting_index("profile"@) == 2);
}

proof fn lemma_setting_merged_dir(c: ConfigView, key: Seq<char>, value: Seq<char>)
    requires
        lower_seq(key) == "merged_dir"@,
    ensures
        apply_setting(c, key, value) == (ConfigView { merged_dir: value, ..c }),
{
    reveal_strlit("merged_dir");
    reveal_strlit("mods_dir");
    assert("merged_dir"@.len() == 10 && "mods_dir"@.len() == 8);
    reveal_strlit("profiles_dir");
    assert("merged_dir"@.len() == 10 && "profiles_dir"@.len() == 12);
    reveal_strlit("profile");
    assert("merged_dir"@.len() == 10 && "profile"@.len() == 7);
    assert(setting_index("merged_dir"@) == 3);
}

proof fn lemma_setting_merge_cache_size(c: ConfigView, key: Seq<char>, value: Seq<char>)
    requires
        lower_seq(key) == "merge_cache_size"@,
    ensures
        apply_setting(c, key, value) == match crate::text::parse_unsigned(value, usize::MAX as int) {
            Some(n) => (ConfigView {
                merge_cache_size: (if n < 1 {
                    1
                } else if n > 100 {
                    100
                } else {
                    n
                }) as usize,
                ..c
            }),
            None => c,
        },
{
    reveal_strlit("merge_cache_size");
    reveal_strlit("mods_dir");
    assert("merge_cache_size"@.len() == 16 && "mods_dir"@.len() == 8);
    reveal_strlit("profiles_dir");
    assert("merge_cache_size"@.len() == 16 && "profiles_dir"@.len() == 12);
    reveal_strlit("profile");
    assert("merge_cache_size"@.len() == 16 && "profile"@.len() == 7);
    reveal_strlit("merged_dir");
    assert("merge_cache_size"@.len() == 16 && "merged_dir"@.len() == 10);
    assert(setting_index("merge_cache_size"@) == 4);
}

proof fn lemma_setting_cache_dir(c: ConfigView, key: Seq<char>, value: Seq<char>)
    requires
        lower_seq(key) == "cache_dir"@,
    ensures
        apply_setting(c, key, value) == (ConfigView { cache_dir: value, ..c }),
{
    reveal_strlit("cache_dir");
    reveal_strlit("mods_dir");
    assert("cache_dir"@.len() == 9 && "mods_dir"@.len() == 8);
    reveal_strlit("profiles_dir");
    assert("cache_dir"@.len() == 9 && "profiles_dir"@.len() == 12);
    reveal_strlit("profile");
    assert("cache_dir"@.len() == 9 && "profile"@.len() == 7);
    reveal_strlit("merged_dir");
    assert("cache_dir"@.len() == 9 && "merged_dir"@.len() == 10);
    reveal_strlit("merge_cache_size");
    assert("cache_dir"@.len() == 9 && "merge_cache_size"@.len() == 16);
    assert(setting_index("cache_dir"@) == 5);
}

proof fn lemma_setting_log_path(c: ConfigView, key: Seq<char>, value: Seq<char>)
    requires
        lower_seq(key) == "log_path"@,
    ensures
        apply_setting(c, key, value) == (ConfigView { log_path: value, ..c }),
{
    reveal_strlit("log_path");
    reveal_strlit("mods_dir");
    assert("log_path"@[0] == 'l' && "mods_dir"@[0] == 'm');
    lemma_keys_differ("log_path"@, "mods_dir"@, 0);
    reveal_strlit("profiles_dir");
    assert("log_path"@.len() == 8 && "profiles_dir"@.len() == 12);
    reveal_strlit("profile");
    assert("log_path"@.len() == 8 && "profile"@.len() == 7);
    reveal_strlit("merged_dir");
    assert("log_path"@.len() == 8 && "merged_dir"@.len() == 10);
    reveal_strlit("merge_cache_size");
    assert("log_path"@.len() == 8 && "merge_cache_size"@.len() == 16);
    reveal_strlit("cache_dir");
    assert("log_path"@.len() == 8 && "cache_dir"@.len() == 9);
    assert(setting_index("log_path"@) == 6);
}

proof fn lemma_setting_force_merge(c: ConfigView, key: Seq<char>, value: Seq<char>)
    requires
        lower_seq(key) == "force_merge"@,
    ensures
        apply_setting(c, key, value) == (ConfigView { force_merge: crate::ini::parse_bool_spec(value, c.force_merge), ..c }),
{
    reveal_strlit("force_merge");
    reveal_strlit("mods_dir");
    assert("force_merge"@.len() == 11 && "mods_dir"@.len() == 8);
    reveal_strlit("profiles_dir");
    assert("force_merge"@.len() == 11 && "profiles_dir"@.len() == 12);
    reveal_strlit("profile");
    assert("force_merge"@.len() == 11 && "profile"@.len() == 7);
    reveal_strlit("merged_dir");
    assert("force_merge"@.len() == 11 && "merged_dir"@.len() == 10);
    reveal_strlit("merge_cache_size");
    assert("force_merge"@.len() == 11 && "merge_cache_size"@.len() == 16);
    reveal_strlit("cache_dir");
    assert("force_merge"@.len() == 11 && "cache_dir"@.len() == 9);
    reveal_strlit("log_path");
    assert("force_merge"@.len() == 11 && "log_path"@.len() == 8);
    assert(setting_index("force_merge"@) == 7);
}

proof fn lemma_setting_merge_at_boot(c: ConfigView, key: Seq<char>, value: Seq<char>)
    requires
        lower_seq(key) == "merge_at_boot"@,
    ensures
        apply_setting(c, key, value) == (ConfigView { merge_at_boot: crate::ini::parse_bool_spec(value, c.merge_at_boot), ..c }),
{
    reveal_strlit("merge_at_boot");
    reveal_strlit("mods_dir");
    assert("merge_at_boot"@.len() == 13 && "mods_dir"@.len() == 8);
    reveal_strlit("profiles_dir");
    assert("merge_at_boot"@.len() == 13 && "profiles_dir"@.len() == 12);
    reveal_strlit("profile");
    assert("merge_at_boot"@.len() == 13 && "profile"@.len() == 7);
    reveal_strlit("merged_dir");
    assert("merge_at_boot"@.len() == 13 && "merged_dir"@.len() == 10);
    reveal_strlit("merge_cache_size");
    assert("merge_at_boot"@.len() == 13 && "merge_cache_size"@.len() == 16);
    reveal_strlit("cache_dir");
    assert("merge_at_boot"@.len() == 13 && "cache_dir"@.len() == 9);
    reveal_strlit("log_path");
    assert("merge_at_boot"@.len() == 13 && "log_path"@.len() == 8);
    reveal_strlit("force_merge");
    assert("merge_at_boot"@.len() == 13 && "force_merge"@.len() == 11);
    assert(setting_index("merge_at_boot"@) == 8);
}

proof fn lemma_setting_enabled(c: ConfigView, key: Seq<char>, value: Seq<char>)
    requires
        lower_seq(key) == "enabled"@,
    ensures
        apply_setting(c, key, value) == (ConfigView { enabled: crate::ini::parse_bool_spec(value, c.enabled), ..c }),
{
    reveal_strlit("enabled");
    reveal_strlit("mods_dir");
    assert("enabled"@.len() == 7 && "mods_dir"@.len() == 8);
    reveal_strlit("profiles_dir");
    assert("enabled"@.len() == 7 && "profiles_dir"@.len() == 12);
    reveal_strlit("profile");
    assert("enabled"@[0] == 'e' && "profile"@[0] == 'p');
    lemma_keys_differ("enabled"@, "profile"@, 0);
    reveal_strlit("merged_dir");
    assert("enabled"@.len() == 7 && "merged_dir"@.len() == 10);
    reveal_strlit("merge_cache_size");
    assert("enabled"@.len() == 7 && "merge_cache_size"@.len() == 16);
    reveal_strlit("cache_dir");
    assert("enabled"@.len() == 7 && "cache_dir"@.len() == 9);
    reveal_strlit("log_path");
    assert("enabled"@.len() == 7 && "log_path"@.len() == 8);
    reveal_strlit("force_merge");
    assert("enabled"@.len() == 7 && "force_merge"@.len() == 11);
    reveal_strlit("merge_at_boot");
    assert("enabled"@.len() == 7 && "merge_at_boot"@.len() == 13);
    assert(setting_index("enabled"@) == 9);
}

proof fn lemma_setting_log_redirects(c: ConfigView, key: Seq<char>, value: Seq<char>)
    requires
        lower_seq(key) == "log_redirects"@,
    ensures
        apply_setting(c, key, value) == (ConfigView { log_redirects: crate::ini::parse_bool_spec(value, c.log_redirects), ..c }),
{
    reveal_strlit("log_redirects");
    reveal_strlit("mods_dir");
    assert("log_redirects"@.len() == 13 && "mods_dir"@.len() == 8);
    reveal_strlit("profiles_dir");
    assert("log_redirects"@.len() == 13 && "profiles_dir"@.len() == 12);
    reveal_strlit("profile");
    assert("log_redirects"@.len() == 13 && "profile"@.len() == 7);
    reveal_strlit("merged_dir");
    assert("log_redirects"@.len() == 13 && "merged_dir"@.len() == 10);
    reveal_strlit("merge_cache_size");
    assert("log_redirects"@.len() == 13 && "merge_cache_size"@.len() == 16);
    reveal_strlit("cache_dir");
    assert("log_redirects"@.len() == 13 && "cache_dir"@.len() == 9);
    reveal_strlit("log_path");
    assert("log_redirects"@.len() == 13 && "log_path"@.len() == 8);
    reveal_strlit("force_merge");
    assert("log_redirects"@.len() == 13 && "force_merge"@.len() == 11);
    reveal_strlit("merge_at_boot");
    assert("log_redirects"@[0] == 'l' && "merge_at_boot"@[0] == 'm');
    lemma_keys_differ("log_redirects"@, "merge_at_boot"@, 0);
    reveal_strlit("enabled");
    assert("log_redirects"@.len() == 13 && "enabled"@.len() == 7);
    assert(setting_index("log_redirects"@) == 10);
}

proof fn lemma_setting_verbose(c: ConfigView, key: Seq<char>, value: Seq<char>)
    requires
        lower_seq(key) == "verbose"@,
    ensures
        apply_setting(c, key, value) == (ConfigView { verbose: crate::ini::parse_bool_spec(value, c.verbose), ..c }),
{
    reveal_strlit("verbose");
    reveal_strlit("mods_dir");
    assert("verbose"@.len() == 7 && "mods_dir"@.len() == 8);
    reveal_strlit("profiles_dir");
    assert("verbose"@.len() == 7 && "profiles_dir"@.len() == 12);
    reveal_strlit("profile");
    assert("verbose"@[0] == 'v' && "profile"@[0] == 'p');
    lemma_keys_differ("verbose"@, "profile"@, 0);
    reveal_strlit("merged_dir");
    assert("verbose"@.len() == 7 && "merged_dir"@.len() == 10);
    reveal_strlit("merge_cache_size");
    assert("verbose"@.len() == 7 && "merge_cache_size"@.len() == 16);
    reveal_strlit("cache_dir");
    assert("verbose"@.len() == 7 && "cache_dir"@.len() == 9);
    reveal_strlit("log_path");
    assert("verbose"@.len() == 7 && "log_path"@.len() == 8);
    reveal_strlit("force_merge");
    assert("verbose"@.len() == 7 && "force_merge"@.len() == 11);
    reveal_strlit("merge_at_boot");
    assert("verbose"@.len() == 7 && "merge_at_boot"@.len() == 13);
    reveal_strlit("enabled");
    assert("verbose"@[0] == 'v' && "enabled"@[0] == 'e');
    lemma_keys_differ("verbose"@, "enabled"@, 0);
    reveal_strlit("log_redirects");
    assert("verbose"@.len() == 7 && "log_redirects"@.len() == 13);
    assert(setting_index("verbose"@) == 11);
}

proof fn lemma_setting_use_romfslite(c: ConfigView, key: Seq<char>, value: Seq<char>)
    requires
        lower_seq(key) == "use_romfslite"@,
    ensures
        apply_setting(c, key, value) == (ConfigView { use_romfslite: crate::ini::parse_bool_spec(value, c.use_romfslite), ..c }),
{
    reveal_strlit("use_romfslite");
    reveal_strlit("mods_dir");
    assert("use_romfslite"@.len() == 13 && "mods_dir"@.len() == 8);
    reveal_strlit("profiles_dir");
    assert("use_romfslite"@.len() == 13 && "profiles_dir"@.len() == 12);
    reveal_strlit("profile");
    assert("use_romfslite"@.len() == 13 && "profile"@.len() == 7);
    reveal_strlit("merged_dir");
    assert("use_romfslite"@.len() == 13 && "merged_dir"@.len() == 10);
    reveal_strlit("merge_cache_size");
    assert("use_romfslite"@.len() == 13 && "merge_cache_size"@.len() == 16);
    reveal_strlit("cache_dir");
    assert("use_romfslite"@.len() == 13 && "cache_dir"@.len() == 9);
    reveal_strlit("log_path");
    assert("use_romfslite"@.len() == 13 && "log_path"@.len() == 8);
    reveal_strlit("force_merge");
    assert("use_romfslite"@.len() == 13 && "force_merge"@.len() == 11);
    reveal_strlit("merge_at_boot");
    assert("use_romfslite"@[0] == 'u' && "merge_at_boot"@[0] == 'm');
    lemma_keys_differ("use_romfslite"@, "merge_at_boot"@, 0);
    reveal_strlit("enabled");
    assert("use_romfslite"@.len() == 13 && "enabled"@.len() == 7);
    reveal_strlit("log_redirects");
    assert("use_romfslite"@[0] == 'u' && "log_redirects"@[0] == 'l');
    lemma_keys_differ("use_romfslite"@, "log_redirects"@, 0);
    reveal_strlit("verbose");
    assert("use_romfslite"@.len() == 13 && "verbose"@.len() == 7);
    assert(setting_index("use_romfslite"@) == 12);
}

proof fn lemma_setting_romfslite_dir(c: ConfigView, key: Seq<char>, value: Seq<char>)
    requires
        lower_seq(key) == "romfslite_dir"@,
    ensures
        apply_setting(c, key, value) == (ConfigView { romfslite_dir: value, ..c }),
{
    reveal_strlit("romfslite_dir");
    reveal_strlit("mods_dir");
    assert("romfslite_dir"@.len() == 13 && "mods_dir"@.len() == 8);
    reveal_strlit("profiles_dir");
    assert("romfslite_dir"@.len() == 13 && "profiles_dir"@.len() == 12);
    reveal_strlit("profile");
    assert("romfslite_dir"@.len() == 13 && "profile"@.len() == 7);
    reveal_strlit("merged_dir");
    assert("romfslite_dir"@.len() == 13 && "merged_dir"@.len() == 10);
    reveal_strlit("merge_cache_size");
    assert("romfslite_dir"@.len() == 13 && "merge_cache_size"@.len() == 16);
    reveal_strlit("cache_dir");
    assert("romfslite_dir"@.len() == 13 && "cache_dir"@.len() == 9);
    reveal_strlit("log_path");
    assert("romfslite_dir"@.len() == 13 && "log_path"@.len() == 8);
    reveal_strlit("force_merge");
    assert("romfslite_dir"@.len() == 13 && "force_merge"@.len() == 11);
    reveal_strlit("merge_at_boot");
    assert("romfslite_dir"@[0] == 'r' && "merge_at_boot"@[0] == 'm');
    lemma_keys_differ("romfslite_dir"@, "merge_at_boot"@, 0);
    reveal_strlit("enabled");
    assert("romfslite_dir"@.len() == 13 && "enabled"@.len() == 7);
    reveal_strlit("log_redirects");
    assert("romfslite_dir"@[0] == 'r' && "log_redirects"@[0] == 'l');
    lemma_keys_differ("romfslite_dir"@, "log_redirects"@, 0);
    reveal_strlit("verbose");
    assert("romfslite_dir"@.len() == 13 && "verbose"@.len() == 7);
    reveal_strlit("use_romfslite");
    assert("romfslite_dir"@[0] == 'r' && "use_romfslite"@[0] == 'u');
    lemma_keys_differ("romfslite_dir"@, "use_romfslite"@, 0);
    assert(setting_index("romfslite_dir"@) == 13);
}

proof fn lemma_setting_locales(c: ConfigView, key: Seq<char>, value: Seq<char>)
    requires
        lower_seq(key) == "locales"@,
    ensures
        apply_setting(c, key, value) == (ConfigView { locales: value, ..c }),
{
    reveal_strlit("locales");
    reveal_strlit("mods_dir");
    assert("locales"@.len() == 7 && "mods_dir"@.len() == 8);
    reveal_strlit("profiles_dir");
    assert("locales"@.len() == 7 && "profiles_dir"@.len() == 12);
    reveal_strlit("profile");
    assert("locales"@[0] == 'l' && "profile"@[0] == 'p');
    lemma_keys_differ("locales"@, "profile"@, 0);
    reveal_strlit("merged_dir");
    assert("locales"@.len() == 7 && "merged_dir"@.len() == 10);
    reveal_strlit("merge_cache_size");
    assert("locales"@.len() == 7 && "merge_cache_size"@.len() == 16);
    reveal_strlit("cache_dir");
    assert("locales"@.len() == 7 && "cache_dir"@.len() == 9);
    reveal_strlit("log_path");
    assert("locales"@.len() == 7 && "log_path"@.len() == 8);
    reveal_strlit("force_merge");
    assert("locales"@.len() == 7 && "force_merge"@.len() == 11);
    reveal_strlit("merge_at_boot");
    assert("locales"@.len() == 7 && "merge_at_boot"@.len() == 13);
    reveal_strlit("enabled");
    assert("locales"@[0] == 'l' && "enabled"@[0] == 'e');
    lemma_keys_differ("locales"@, "enabled"@, 0);
    reveal_strlit("log_redirects");
    assert("locales"@.len() == 7 && "log_redirects"@.len() == 13);
    reveal_strlit("verbose");
    assert("locales"@[0] == 'l' && "verbose"@[0] == 'v');
    lemma_keys_differ("locales"@, "verbose"@, 0);
    reveal_strlit("use_romfslite");
    assert("locales"@.len() == 7 && "use_romfslite"@.len() == 13);
    reveal_strlit("romfslite_dir");
    assert("locales"@.len() == 7 && "romfslite_dir"@.len() == 13);
    assert(setting_index("locales"@) == 14);
}

proof fn lemma_setting_apply_patches(c: ConfigView, key: Seq<char>, value: Seq<char>)
    requires
        lower_seq(key) == "apply_patches"@,
    ensures
        apply_setting(c, key, value) == (ConfigView { apply_patches: crate::ini::parse_bool_spec(value, c.apply_patches), ..c }),
{
    reveal_strlit("apply_patches");
    reveal_strlit("mods_dir");
    assert("apply_patches"@.len() == 13 && "mods_dir"@.len() == 8);
    reveal_strlit("profiles_dir");
    assert("apply_patches"@.len() == 13 && "profiles_dir"@.len() == 12);
    reveal_strlit("profile");
    assert("apply_patches"@.len() == 13 && "profile"@.len() == 7);
    reveal_strlit("merged_dir");
    assert("apply_patches"@.len() == 13 && "merged_dir"@.len() == 10);
    reveal_strlit("merge_cache_size");
    assert("apply_patches"@.len() == 13 && "merge_cache_size"@.len() == 16);
    reveal_strlit("cache_dir");
    assert("apply_patches"@.len() == 13 && "cache_dir"@.len() == 9);
    reveal_strlit("log_path");
    assert("apply_patches"@.len() == 13 && "log_path"@.len() == 8);
    reveal_strlit("force_merge");
    assert("apply_patches"@.len() == 13 && "force_merge"@.len() == 11);
    reveal_strlit("merge_at_boot");
    assert("apply_patches"@[0] == 'a' && "merge_at_boot"@[0] == 'm');
    lemma_keys_differ("apply_patches"@, "merge_at_boot"@, 0);
    reveal_strlit("enabled");
    assert("apply_patches"@.len() == 13 && "enabled"@.len() == 7);
    reveal_strlit("log_redirects");
    assert("apply_patches"@[0] == 'a' && "log_redirects"@[0] == 'l');
    lemma_keys_differ("apply_patches"@, "log_redirects"@, 0);
    reveal_strlit("verbose");
    assert("apply_patches"@.len() == 13 && "verbose"@.len() == 7);
    reveal_strlit("use_romfslite");
    assert("apply_patches"@[0] == 'a' && "use_romfslite"@[0] == 'u');
    lemma_keys_differ("apply_patches"@, "use_romfslite"@, 0);
    reveal_strlit("romfslite_dir");
    assert("apply_patches"@[0] == 'a' && "romfslite_dir"@[0] == 'r');
    lemma_keys_differ("apply_patches"@, "romfslite_dir"@, 0);
    reveal_strlit("locales");
    assert("apply_patches"@.len() == 13 && "locales"@.len() == 7);
    assert(setting_index("apply_patches"@) == 15);
}

proof fn lemma_setting_mod_plugins(c: ConfigView, key: Seq<char>, value: Seq<char>)
    requires
        lower_seq(key) == "mod_plugins"@,
    ensures
        apply_setting(c, key, value) == (ConfigView { mod_plugins: crate::ini::parse_bool_spec(value, c.mod_plugins), ..c }),
{
    reveal_strlit("mod_plugins");
    reveal_strlit("mods_dir");
    assert("mod_plugins"@.len() == 11 && "mods_dir"@.len() == 8);
    reveal_strlit("profiles_dir");
    assert("mod_plugins"@.len() == 11 && "profiles_dir"@.len() == 12);
    reveal_strlit("profile");
    assert("mod_plugins"@.len() == 11 && "profile"@.len() == 7);
    reveal_strlit("merged_dir");
    assert("mod_plugins"@.len() == 11 && "merged_dir"@.len() == 10);
    reveal_strlit("merge_cache_size");
    assert("mod_plugins"@.len() == 11 && "merge_cache_size"@.len() == 16);
    reveal_strlit("cache_dir");
    assert("mod_plugins"@.len() == 11 && "cache_dir"@.len() == 9);
    reveal_strlit("log_path");
    assert("mod_plugins"@.len() == 11 && "log_path"@.len() == 8);
    reveal_strlit("force_merge");
    assert("mod_plugins"@[0] == 'm' && "force_merge"@[0] == 'f');
    lemma_keys_differ("mod_plugins"@, "force_merge"@, 0);
    reveal_strlit("merge_at_boot");
    assert("mod_plugins"@.len() == 11 && "merge_at_boot"@.len() == 13);
    reveal_strlit("enabled");
    assert("mod_plugins"@.len() == 11 && "enabled"@.len() == 7);
    reveal_strlit("log_redirects");
    assert("mod_plugins"@.len() == 11 && "log_redirects"@.len() == 13);
    reveal_strlit("verbose");
    assert("mod_plugins"@.len() == 11 && "verbose"@.len() == 7);
    reveal_strlit("use_romfslite");
    assert("mod_plugins"@.len() == 11 && "use_romfslite"@.len() == 13);
    reveal_strlit("romfslite_dir");
    assert("mod_plugins"@.len() == 11 && "romfslite_dir"@.len() == 13);
    reveal_strlit("locales");
    assert("mod_plugins"@.len() == 11 && "locales"@.len() == 7);
    reveal_strlit("apply_patches");
    assert("mod_plugins"@.len() == 11 && "apply_patches"@.len() == 13);
    assert(setting_index("mod_plugins"@) == 16);
}

proof fn lemma_setting_shop_param_limit(c: ConfigView, key: Seq<char>, value: Seq<char>)
    requires
        lower_seq(key) == "shop_param_limit"@,
    ensures
        apply_setting(c, key, value) == match crate::text::parse_unsigned(value, u32::MAX as int) {
            Some(n) => (ConfigView { shop_param_limit: n as u32, ..c }),
            None => c,
        },
{
    reveal_strlit("shop_param_limit");
    reveal_strlit("mods_dir");
    assert("shop_param_limit"@.len() == 16 && "mods_dir"@.len() == 8);
    reveal_strlit("profiles_dir");
    assert("shop_param_limit"@.len() == 16 && "profiles_dir"@.len() == 12);
    reveal_strlit("profile");
    assert("shop_param_limit"@.len() == 16 && "profile"@.len() == 7);
    reveal_strlit("merged_dir");
    assert("shop_param_limit"@.len() == 16 && "merged_dir"@.len() == 10);
    reveal_strlit("merge_cache_size");
    assert("shop_param_limit"@[0] == 's' && "merge_cache_size"@[0] == 'm');
    lemma_keys_differ("shop_param_limit"@, "merge_cache_size"@, 0);
    reveal_strlit("cache_dir");
    assert("shop_param_limit"@.len() == 16 && "cache_dir"@.len() == 9);
    reveal_strlit("log_path");
    assert("shop_param_limit"@.len() == 16 && "log_path"@.len() == 8);
    reveal_strlit("force_merge");
    assert("shop_param_limit"@.len() == 16 && "force_merge"@.len() == 11);
    reveal_strlit("merge_at_boot");
    assert("shop_param_limit"@.len() == 16 && "merge_at_boot"@.len() == 13);
    reveal_strlit("enabled");
    assert("shop_param_limit"@.len() == 16 && "enabled"@.len() == 7);
    reveal_strlit("log_redirects");
    assert("shop_param_limit"@.len() == 16 && "log_redirects"@.len() == 13);
    reveal_strlit("verbose");
    assert("shop_param_limit"@.len() == 16 && "verbose"@.len() == 7);
    reveal_strlit("use_romfslite");
    assert("shop_param_limit"@.len() == 16 && "use_romfslite"@.len() == 13);
    reveal_strlit("romfslite_dir");
    assert("shop_param_limit"@.len() == 16 && "romfslite_dir"@.len() == 13);
    reveal_strlit("locales");
    assert("shop_param_limit"@.len() == 16 && "locales"@.len() == 7);
    reveal_strlit("apply_patches");
    assert("shop_param_limit"@.len() == 16 && "apply_patches"@.len() == 13);
    reveal_strlit("mod_plugins");
    assert("shop_param_limit"@.len() == 16 && "mod_plugins"@.len() == 11);
    assert(setting_index("shop_param_limit"@) == 17);
}

proof fn lemma_setting_control_timeout_ms(c: ConfigView, key: Seq<char>, value: Seq<char>)
    requires
        lower_seq(key) == "control_timeout_ms"@,
    ensures
        apply_setting(c, key, value) == match crate::text::parse_unsigned(value, u32::MAX as int) {
            Some(n) => (ConfigView { control_timeout_ms: n as u32, ..c }),
            None => c,
        },
{
    reveal_strlit("control_timeout_ms");
    reveal_strlit("mods_dir");
    assert("control_timeout_ms"@.len() == 18 && "mods_dir"@.len() == 8);
    reveal_strlit("profiles_dir");
    assert("control_timeout_ms"@.len() == 18 && "profiles_dir"@.len() == 12);
    reveal_strlit("profile");
    assert("control_timeout_ms"@.len() == 18 && "profile"@.len() == 7);
    reveal_strlit("merged_dir");
    assert("control_timeout_ms"@.len() == 18 && "merged_dir"@.len() == 10);
    reveal_strlit("merge_cache_size");
    assert("control_timeout_ms"@.len() == 18 && "merge_cache_size"@.len() == 16);
    reveal_strlit("cache_dir");
    assert("control_timeout_ms"@.len() == 18 && "cache_dir"@.len() == 9);
    reveal_strlit("log_path");
    assert("control_timeout_ms"@.len() == 18 && "log_path"@.len() == 8);
    reveal_strlit("force_merge");
    assert("control_timeout_ms"@.len() == 18 && "force_merge"@.len() == 11);
    reveal_strlit("merge_at_boot");
    assert("control_timeout_ms"@.len() == 18 && "merge_at_boot"@.len() == 13);
    reveal_strlit("enabled");
    assert("control_timeout_ms"@.len() == 18 && "enabled"@.len() == 7);
    reveal_strlit("log_redirects");
    assert("control_timeout_ms"@.len() == 18 && "log_redirects"@.len() == 13);
    reveal_strlit("verbose");
    assert("control_timeout_ms"@.len() == 18 && "verbose"@.len() == 7);
    reveal_strlit("use_romfslite");
    assert("control_timeout_ms"@.len() == 18 && "use_romfslite"@.len() == 13);
    reveal_strlit("romfslite_dir");
    assert("control_timeout_ms"@.len() == 18 && "romfslite_dir"@.len() == 13);
    reveal_strlit("locales");
    assert("control_timeout_ms"@.len() == 18 && "locales"@.len() == 7);
    reveal_strlit("apply_patches");
    assert("control_timeout_ms"@.len() == 18 && "apply_patches"@.len() == 13);
    reveal_strlit("mod_plugins");
    assert("control_timeout_ms"@.len() == 18 && "mod_plugins"@.len() == 11);
    reveal_strlit("shop_param_limit");
    assert("control_timeout_ms"@.len() == 18 && "shop_param_limit"@.len() == 16);
    assert(setting_index("control_timeout_ms"@) == 18);
}

/// What a `key = value` line of `config.ini` does: the setting named by the
/// key (any case) takes the value (a path or name as written; a flag as
/// `parse_bool` reads it, else unchanged; the merge cache size a number
/// kept within 1..=100, the shop limit and the control timeout a 32-bit
/// number, each unchanged when the value is no such number), and nothing
/// else changes; an unknown key changes nothing.
pub proof fn lemma_settings(c: ConfigView, key: Seq<char>, value: Seq<char>)
    ensures
        lower_seq(key) == "mods_dir"@ ==> apply_setting(c, key, value) == (ConfigView { mods_dir: value, ..c }),
        lower_seq(key) == "profiles_dir"@ ==> apply_setting(c, key, value) == (ConfigView { profiles_dir: value, ..c }),
        lower_seq(key) == "profile"@ ==> apply_setting(c, key, value) == (ConfigView { profile: value, ..c }),
        lower_seq(key) == "merged_dir"@ ==> apply_setting(c, key, value) == (ConfigView { merged_dir: value, ..c }),
        lower_seq(key) == "merge_cache_size"@ ==> apply_setting(c, key, value) == match crate::text::parse_unsigned(value, usize::MAX as int) {
            Some(n) => (ConfigView {
                merge_cache_size: (if n < 1 {
                    1
                } else if n > 100 {
                    100
                } else {
                    n
                }) as usize,
                ..c
            }),
            None => c,
        },
        lower_seq(key) == "cache_dir"@ ==> apply_setting(c, key, value) == (ConfigView { cache_dir: value, ..c }),
        lower_seq(key) == "log_path"@ ==> apply_setting(c, key, value) == (ConfigView { log_path: value, ..c }),
        lower_seq(key) == "force_merge"@ ==> apply_setting(c, key, value) == (ConfigView { force_merge: crate::ini::parse_bool_spec(value, c.force_merge), ..c }),
        lower_seq(key) == "merge_at_boot"@ ==> apply_setting(c, key, value) == (ConfigView { merge_at_boot: crate::ini::parse_bool_spec(value, c.merge_at_boot), ..c }),
        lower_seq(key) == "enabled"@ ==> apply_setting(c, key, value) == (ConfigView { enabled: crate::ini::parse_bool_spec(value, c.enabled), ..c }),
        lower_seq(key) == "log_redirects"@ ==> apply_setting(c, key, value) == (ConfigView { log_redirects: crate::ini::parse_bool_spec(value, c.log_redirects), ..c }),
        lower_seq(key) == "verbose"@ ==> apply_setting(c, key, value) == (ConfigView { verbose: crate::ini::parse_bool_spec(value, c.verbose), ..c }),
        lower_seq(key) == "use_romfslite"@ ==> apply_setting(c, key, value) == (ConfigView { use_romfslite: crate::ini::parse_bool_spec(value, c.use_romfslite), ..c }),
        lower_seq(key) == "romfslite_dir"@ ==> apply_setting(c, key, value) == (ConfigView { romfslite_dir: value, ..c }),
        lower_seq(key) == "locales"@ ==> apply_setting(c, key, value) == (ConfigView { locales: value, ..c }),
        lower_seq(key) == "apply_patches"@ ==> apply_setting(c, key, value) == (ConfigView { apply_patches: crate::ini::parse_bool_spec(value, c.apply_patches), ..c }),
        lower_seq(key) == "mod_plugins"@ ==> apply_setting(c, key, value) == (ConfigView { mod_plugins: crate::ini::parse_bool_spec(value, c.mod_plugins), ..c }),
        lower_seq(key) == "shop_param_limit"@ ==> apply_setting(c, key, value) == match crate::text::parse_unsigned(value, u32::MAX as int) {
            Some(n) => (ConfigView { shop_param_limit: n as u32, ..c }),
            None => c,
        },
        lower_seq(key) == "control_timeout_ms"@ ==> apply_setting(c, key, value) == match crate::text::parse_unsigned(value, u32::MAX as int) {
            Some(n) => (ConfigView { control_timeout_ms: n as u32, ..c }),
            None => c,
        },
        lower_seq(key) != "mods_dir"@ && lower_seq(key) != "profiles_dir"@ && lower_seq(key) != "profile"@ && lower_seq(key) != "merged_dir"@ && lower_seq(key) != "merge_cache_size"@ && lower_seq(key) != "cache_dir"@ && lower_seq(key) != "log_path"@ && lower_seq(key) != "force_merge"@ && lower_seq(key) != "merge_at_boot"@ && lower_seq(key) != "enabled"@ && lower_seq(key) != "log_redirects"@ && lower_seq(key) != "verbose"@ && lower_seq(key) != "use_romfslite"@ && lower_seq(key) != "romfslite_dir"@ && lower_seq(key) != "locales"@ && lower_seq(key) != "apply_patches"@ && lower_seq(key) != "mod_plugins"@ && lower_seq(key) != "shop_param_limit"@ && lower_seq(key) != "control_timeout_ms"@ ==> apply_setting(c, key, value) == c,
{
    if lower_seq(key) == "mods_dir"@ {
        lemma_setting_mods_dir(c, key, value);
    }
    if lower_seq(key) == "profiles_dir"@ {
        lemma_setting_profiles_dir(c, key, value);
    }
    if lower_seq(key) == "profile"@ {
        lemma_setting_profile(c, key, value);
    }
    if lower_seq(key) == "merged_dir"@ {
        lemma_setting_merged_dir(c, key, value);
    }
    if lower_seq(key) == "merge_cache_size"@ {
        lemma_setting_merge_cache_size(c, key, value);
    }
    if lower_seq(key) == "cache_dir"@ {
        lemma_setting_cache_dir(c, key, value);
    }
    if lower_seq(key) == "log_path"@ {
        lemma_setting_log_path(c, key, value);
    }
    if lower_seq(key) == "force_merge"@ {
        lemma_setting_force_merge(c, key, value);
    }
    if lower_seq(key) == "merge_at_boot"@ {
        lemma_setting_merge_at_boot(c, key, value);
    }
    if lower_seq(key) == "enabled"@ {
        lemma_setting_enabled(c, key, value);
    }
    if lower_seq(key) == "log_redirects"@ {
        lemma_setting_log_redirects(c, key, value);
    }
    if lower_seq(key) == "verbose"@ {
        lemma_setting_verbose(c, key, value);
    }
    if lower_seq(key) == "use_romfslite"@ {
        lemma_setting_use_romfslite(c, key, value);
    }
    if lower_seq(key) == "romfslite_dir"@ {
        lemma_setting_romfslite_dir(c, key, value);
    }
    if lower_seq(key) == "locales"@ {
        lemma_setting_locales(c, key, value);
    }
    if lower_seq(key) == "apply_patches"@ {
        lemma_setting_apply_patches(c, key, value);
    }
    if lower_seq(key) == "mod_plugins"@ {
        lemma_setting_mod_plugins(c, key, value);
    }
    if lower_seq(key) == "shop_param_limit"@ {
        lemma_setting_shop_param_limit(c, key, value);
    }
    if lower_seq(key) == "control_timeout_ms"@ {
        lemma_setting_control_timeout_ms(c, key, value);
    }
}

/// The locales kept of a list are those the game has, each as often as
/// the list names it and in its order: a locale is among them exactly
/// when the list names it and the game has it.
pub proof fn lemma_known_of(list: Seq<Seq<char>>, available: Seq<Seq<char>>, x: Seq<char>)
    ensures
        known_of(list, available).contains(x) <==> list.contains(x) && available.contains(x),
        known_of(list, available).len() <= list.len(),
    decreases list.len(),
{
    if list.len() > 0 {
        let front = list.drop_last();
        lemma_known_of(front, available, x);
        let k = known_of(list, available);
        let kf = known_of(front, available);
        assert(list.contains(x) <==> front.contains(x) || list.last() == x) by {
            if list.contains(x) {
                let j = choose|j: int| 0 <= j < list.len() && list[j] == x;
                if j < list.len() - 1 {
                    assert(front[j] == x);
                }
            }
            if front.contains(x) {
                let j = choose|j: int| 0 <= j < front.len() && front[j] == x;
                assert(list[j] == x);
            }
            if list.last() == x {
                assert(list[list.len() - 1] == x);
            }
        }
        if available.contains(list.last()) {
            assert(k == kf.push(list.last()));
            assert(k.contains(x) <==> kf.contains(x) || list.last() == x) by {
                if k.contains(x) {
                    let j = choose|j: int| 0 <= j < k.len() && k[j] == x;
                    if j < kf.len() {
                        assert(kf[j] == x);
                    }
                }
                if kf.contains(x) {
                    let j = choose|j: int| 0 <= j < kf.len() && kf[j] == x;
                    assert(k[j] == x);
                }
                if list.last() == x {
                    assert(k[kf.len() as int] == x);
                }
            }
        }
    }
}

/// The message archives a merge makes: those of the setting that the game
/// has, when it has any of them; else all the game has. Either way only
/// locales the game has.
pub proof fn lemma_locale_list(setting: Seq<char>, detected: Option<Seq<char>>, available: Seq<Seq<char>>, x: Seq<char>)
    ensures
        locale_list_spec(setting, detected, available).contains(x) ==> available.contains(x),
        locales_spec(setting, detected) is All ==> locale_list_spec(setting, detected, available) == available,
        locales_spec(setting, detected) matches SpecLocales::Only(list) ==> (
            if exists|y: Seq<char>| #[trigger] list.contains(y) && available.contains(y) {
                locale_list_spec(setting, detected, available).contains(x) <==> list.contains(x) && available.contains(x)
            } else {
                locale_list_spec(setting, detected, available) == available
            }
        ),
{
    match locales_spec(setting, detected) {
        SpecLocales::All => {},
        SpecLocales::Only(list) => {
            lemma_known_of(list, available, x);
            let k = known_of(list, available);
            if exists|y: Seq<char>| #[trigger] list.contains(y) && available.contains(y) {
                let y = choose|y: Seq<char>| #[trigger] list.contains(y) && available.contains(y);
                lemma_known_of(list, available, y);
                assert(k.contains(y));
            } else {
                if k.len() > 0 {
                    lemma_known_of(list, available, k[0]);
                    assert(k.contains(k[0]));
                }
            }
        },
    }
}

} // verus!
