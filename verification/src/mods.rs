//! Finding mods to merge.
//!
//! Every mod has its own folder in the mods directory:
//!
//! ```text
//! sd:/totk/mods/<mod>/mod.ini          name, version, author... (optional)
//! sd:/totk/mods/<mod>/romfs/, exefs/   a folder mod, as TKMM exports them
//! sd:/totk/mods/<mod>/<name>.tkcl      or a TKMM package
//! sd:/totk/mods/<mod>/plugin.nro       code of its own
//! ```
//!
//! Which mods are merged, in which order and with which options comes from the
//! active profile; without one, every mod is merged, ordered by the `priority`
//! in its `mod.ini`.

use vstd::prelude::*;
use vstd::utf8::encode_utf8;

use crate::config::{
    options_of, parse_options, Config,
};
use crate::ini::{
    self, entries_view, escape, escape_spec, parse_bool, parse_bool_spec, parse_lines, parse_spec,
    Section, SpecEntry,
};
use crate::options::{
    OptionMap, SpecGroup, strings_view,
};
use crate::profile::{
    option_lines, push_option_lines, Profile, ProfileMod, SpecProfileMod, mods_view,
};
use crate::options::{
    insert_group, text_lt, text_less,
};
use crate::text::{
    chars_of, copy_string, ends_with_ignore_case, has_suffix_ignore_case, is_lit, lower_chars,
    lower_seq, parse_i32, parse_i32_spec, push_signed, push_str, signed_text, trim, trim_chars,
};

verus! {

#[derive(Debug, Clone, Copy, PartialEq, Eq, Structural)]
pub enum ModKind {
    /// A folder holding `romfs` (and maybe `exefs`), as TKMM exports them.
    Folder,
    /// A TKMM package.
    Package,
    /// A folder that is a romfs root (RomFSlite exports, bare dumps).
    Romfs,
}

pub open spec fn kind_text(kind: ModKind) -> Seq<char> {
    match kind {
        ModKind::Folder => "folder"@,
        ModKind::Package => "package"@,
        ModKind::Romfs => "romfs"@,
    }
}

impl ModKind {
    pub fn as_str(self) -> (r: &'static str)
        ensures
            r@ == kind_text(self),
    {
        match self {
            ModKind::Folder => "folder",
            ModKind::Package => "package",
            ModKind::Romfs => "romfs",
        }
    }
}

/// A mod to merge.
#[derive(Debug, Clone)]
pub struct ModSpec {
    pub name: String,
    pub kind: ModKind,
    /// The folder to merge, or the `.tkcl` file of a package.
    pub path: String,
    pub priority: i32,
    /// Option group -> selected options (packages only).
    pub options: OptionMap,
    /// Skyline plugins (`.nro`) the mod ships, in load order.
    pub plugins: Vec<String>,
}

impl Default for ModSpec {
    fn default() -> (s: ModSpec)
        ensures
            s.name@ == Seq::<char>::empty(),
            s.kind == ModKind::Folder,
            s.path@ == Seq::<char>::empty(),
            s.priority == 0,
            s.options@ == Seq::<SpecGroup>::empty(),
            s.plugins@.len() == 0,
    {
        ModSpec {
            name: String::new(),
            kind: ModKind::Folder,
            path: String::new(),
            priority: 0,
            options: OptionMap::new(),
            plugins: Vec::new(),
        }
    }
}

/// What to merge, and where.
pub struct Plan {
    /// Lowest priority first.
    pub mods: Vec<ModSpec>,
    pub merged_dir: String,
    /// The profile, or who chose the mods through the API.
    pub profile: String,
}

pub const MOD_INI: &'static str = "mod.ini";

/// The folder a mod keeps extra plugins in, next to `romfs`.
pub const PLUGINS_DIR: &'static str = "plugins";

/// A mod's `mod.ini`.
#[derive(Debug, Clone)]
pub struct ModInfo {
    pub name: Option<String>,
    pub version: String,
    pub author: String,
    pub description: String,
    /// Where it came from (a GameBanana page...).
    pub url: String,
    /// An image file in the mod folder.
    pub thumbnail: String,
    /// Without a profile: whether it is merged, and in which order (lower
    /// first, so higher wins conflicts).
    pub enabled: bool,
    pub priority: i32,
    /// Whether the plugins the mod ships are loaded.
    pub load_plugins: bool,
    /// Without a profile, or for groups a profile does not mention: the
    /// options to use instead of the package's defaults.
    pub options: OptionMap,
    /// Everything else in the file, kept when it is written back.
    pub extra: Vec<(String, String)>,
}

pub struct ModInfoView {
    pub name: Option<Seq<char>>,
    pub version: Seq<char>,
    pub author: Seq<char>,
    pub description: Seq<char>,
    pub url: Seq<char>,
    pub thumbnail: Seq<char>,
    pub enabled: bool,
    pub priority: i32,
    pub load_plugins: bool,
    pub options: Seq<SpecGroup>,
    pub extra: Seq<SpecEntry>,
}

impl View for ModInfo {
    type V = ModInfoView;

    open spec fn view(&self) -> ModInfoView {
        ModInfoView {
            name: match self.name {
                Some(n) => Some(n@),
                None => None,
            },
            version: self.version@,
            author: self.author@,
            description: self.description@,
            url: self.url@,
            thumbnail: self.thumbnail@,
            enabled: self.enabled,
            priority: self.priority,
            load_plugins: self.load_plugins,
            options: self.options@,
            extra: entries_view(self.extra@),
        }
    }
}

pub open spec fn default_info() -> ModInfoView {
    ModInfoView {
        name: None,
        version: Seq::empty(),
        author: Seq::empty(),
        description: Seq::empty(),
        url: Seq::empty(),
        thumbnail: Seq::empty(),
        enabled: true,
        priority: 100,
        load_plugins: true,
        options: Seq::empty(),
        extra: Seq::empty(),
    }
}

impl Default for ModInfo {
    fn default() -> (i: ModInfo)
        ensures
            i@ == default_info(),
            i.options.wf(),
    {
        let i = ModInfo {
            name: None,
            version: String::new(),
            author: String::new(),
            description: String::new(),
            url: String::new(),
            thumbnail: String::new(),
            enabled: true,
            priority: 100,
            load_plugins: true,
            options: OptionMap::new(),
            extra: Vec::new(),
        };
        assert(entries_view(i.extra@) =~= Seq::<SpecEntry>::empty());
        i
    }
}

/// Which `mod.ini` key a lowercased key is: 0 name, 1 version, 2 author,
/// 3 description, 4 url, 5 thumbnail, 6 enabled, 7 priority, 8 plugins, -1 any other.
pub open spec fn info_key(k: Seq<char>) -> int {
    if k == "name"@ {
        0
    } else if k == "version"@ {
        1
    } else if k == "author"@ {
        2
    } else if k == "description"@ {
        3
    } else if k == "url"@ {
        4
    } else if k == "thumbnail"@ {
        5
    } else if k == "enabled"@ {
        6
    } else if k == "priority"@ {
        7
    } else if k == "plugins"@ {
        8
    } else {
        -1
    }
}

/// One `key = value` line of the top section.
pub open spec fn apply_info(i: ModInfoView, key: Seq<char>, value: Seq<char>) -> ModInfoView {
    let k = info_key(lower_seq(key));
    if k == 0 {
        if value.len() > 0 {
            ModInfoView { name: Some(value), ..i }
        } else {
            i
        }
    } else if k == 1 {
        ModInfoView { version: value, ..i }
    } else if k == 2 {
        ModInfoView { author: value, ..i }
    } else if k == 3 {
        ModInfoView { description: value, ..i }
    } else if k == 4 {
        ModInfoView { url: value, ..i }
    } else if k == 5 {
        ModInfoView { thumbnail: value, ..i }
    } else if k == 6 {
        ModInfoView { enabled: parse_bool_spec(value, i.enabled), ..i }
    } else if k == 7 {
        ModInfoView {
            priority: match parse_i32_spec(trim(value)) {
                Some(p) => p as i32,
                None => i.priority,
            },
            ..i
        }
    } else if k == 8 {
        ModInfoView { load_plugins: parse_bool_spec(value, i.load_plugins), ..i }
    } else {
        ModInfoView { extra: i.extra.push((key, value)), ..i }
    }
}

pub open spec fn apply_info_entries(i: ModInfoView, entries: Seq<SpecEntry>) -> ModInfoView
    decreases entries.len(),
{
    if entries.len() == 0 {
        i
    } else {
        let e = entries.last();
        apply_info(apply_info_entries(i, entries.drop_last()), e.0, e.1)
    }
}

/// One section of a `mod.ini`: the top one holds the description, `[options]`
/// the option selection; others are ignored.
pub open spec fn apply_info_section(i: ModInfoView, section: (Seq<char>, Seq<SpecEntry>)) -> ModInfoView {
    if section.0 == Seq::<char>::empty() {
        apply_info_entries(i, section.1)
    } else if section.0 == "options"@ {
        ModInfoView { options: options_of(section.1, Seq::empty()), ..i }
    } else {
        i
    }
}

pub open spec fn apply_info_sections(i: ModInfoView, sections: Seq<(Seq<char>, Seq<SpecEntry>)>) -> ModInfoView
    decreases sections.len(),
{
    if sections.len() == 0 {
        i
    } else {
        apply_info_section(apply_info_sections(i, sections.drop_last()), sections.last())
    }
}

/// What a `mod.ini` holds.
pub open spec fn info_of(contents: Seq<char>) -> ModInfoView {
    apply_info_sections(default_info(), parse_spec(contents))
}

pub fn info_key_number(k: &[char]) -> (r: i32)
    ensures
        r as int == info_key(k@),
{
    if is_lit(k, "name") {
        0
    } else if is_lit(k, "version") {
        1
    } else if is_lit(k, "author") {
        2
    } else if is_lit(k, "description") {
        3
    } else if is_lit(k, "url") {
        4
    } else if is_lit(k, "thumbnail") {
        5
    } else if is_lit(k, "enabled") {
        6
    } else if is_lit(k, "priority") {
        7
    } else if is_lit(k, "plugins") {
        8
    } else {
        -1
    }
}

impl ModInfo {
    /// Applies one `key = value` line of the top section.
    #[verifier::rlimit(40)]
    pub fn apply(&mut self, key: &String, value: &String)
        ensures
            final(self)@ == apply_info(old(self)@, key@, value@),
            old(self).options.wf() ==> final(self).options.wf(),
    {
        let lk = lower_chars(chars_of(key.as_str()).as_slice());
        let k = info_key_number(lk.as_slice());
        let v = chars_of(value.as_str());
        if k == 0 {
            if v.len() > 0 {
                self.name = Some(copy_string(value));
            }
        } else if k == 1 {
            self.version = copy_string(value);
        } else if k == 2 {
            self.author = copy_string(value);
        } else if k == 3 {
            self.description = copy_string(value);
        } else if k == 4 {
            self.url = copy_string(value);
        } else if k == 5 {
            self.thumbnail = copy_string(value);
        } else if k == 6 {
            self.enabled = parse_bool(value.as_str(), self.enabled);
        } else if k == 7 {
            let t = trim_chars(v.as_slice());
            if let Some(p) = parse_i32(t.as_slice()) {
                self.priority = p;
            }
        } else if k == 8 {
            self.load_plugins = parse_bool(value.as_str(), self.load_plugins);
        } else {
            self.extra.push((copy_string(key), copy_string(value)));
            assert(entries_view(self.extra@) =~= entries_view(old(self).extra@).push((key@, value@)));
        }
    }

    /// Reads a `mod.ini`.
    pub fn parse(contents: &str) -> (info: ModInfo)
        ensures
            info@ == info_of(contents@),
            info.options.wf(),
    {
        let mut info = ModInfo::default();
        let sections = ini::parse(contents);
        let ghost ss = parse_spec(contents@);
        let mut i: usize = 0;
        while i < sections.len()
            invariant
                i <= sections.len(),
                sections@.map_values(|s: Section| s@) == ss,
                info@ == apply_info_sections(default_info(), ss.take(i as int)),
                info.options.wf(),
            decreases sections.len() - i,
        {
            let section = &sections[i];
            let ghost before = info@;
            assert(ss[i as int] == section@);
            let name = chars_of(section.name.as_str());
            if name.len() == 0 {
                assert(section.name@ =~= Seq::<char>::empty());
                let mut j: usize = 0;
                while j < section.entries.len()
                    invariant
                        j <= section.entries.len(),
                        section.name@ == Seq::<char>::empty(),
                        info@ == apply_info_entries(before, entries_view(section.entries@).take(j as int)),
                        info.options.wf(),
                    decreases section.entries.len() - j,
                {
                    let (key, value) = &section.entries[j];
                    info.apply(key, value);
                    proof {
                        let es = entries_view(section.entries@);
                        assert(es.take(j + 1).drop_last() =~= es.take(j as int));
                    }
                    j = j + 1;
                }
                assert(entries_view(section.entries@).take(section.entries.len() as int) =~= entries_view(
                    section.entries@,
                ));
            } else if is_lit(name.as_slice(), "options") {
                info.options = parse_options(&section.entries, "");
                proof {
                    reveal_strlit("");
                    assert(""@ =~= Seq::<char>::empty());
                }
            }
            proof {
                assert(ss.take(i + 1).drop_last() =~= ss.take(i as int));
            }
            i = i + 1;
        }
        assert(ss.take(sections.len() as int) =~= ss);
        info
    }
}

/// `key = value` with the value escaped.
pub open spec fn ini_line(key: Seq<char>, value: Seq<char>) -> Seq<char> {
    key + " = "@ + escape_spec(value) + "\n"@
}

/// The line of a field that is left out when empty.
pub open spec fn field_line(key: Seq<char>, value: Seq<char>) -> Seq<char> {
    if value.len() > 0 {
        ini_line(key, value)
    } else {
        Seq::empty()
    }
}

pub open spec fn extra_lines(extra: Seq<SpecEntry>) -> Seq<char>
    decreases extra.len(),
{
    if extra.len() == 0 {
        Seq::empty()
    } else {
        extra_lines(extra.drop_last()) + ini_line(extra.last().0, extra.last().1)
    }
}

/// The `mod.ini` text of `i`: what differs from the defaults, and what was
/// kept from the file it was read from.
pub open spec fn info_text(i: ModInfoView) -> Seq<char> {
    ini_line(
        "name"@,
        match i.name {
            Some(n) => n,
            None => Seq::empty(),
        },
    ) + field_line("version"@, i.version) + field_line("author"@, i.author) + field_line(
        "description"@,
        i.description,
    ) + field_line("url"@, i.url) + field_line("thumbnail"@, i.thumbnail) + extra_lines(i.extra) + (
    if !i.enabled {
        ini_line("enabled"@, "0"@)
    } else {
        Seq::empty()
    }) + (if i.priority != 100 {
        ini_line("priority"@, signed_text(i.priority as int))
    } else {
        Seq::empty()
    }) + (if !i.load_plugins {
        ini_line("plugins"@, "0"@)
    } else {
        Seq::empty()
    }) + (if i.options.len() > 0 {
        "\n[options]\n"@ + option_lines(Seq::empty(), i.options)
    } else {
        Seq::empty()
    })
}

fn push_line(out: &mut String, key: &str, value: &str)
    ensures
        final(out)@ == old(out)@ + ini_line(key@, value@),
{
    let escaped = escape(value);
    push_str(out, key);
    push_str(out, " = ");
    push_str(out, escaped.as_str());
    push_str(out, "\n");
    assert(out@ =~= old(out)@ + ini_line(key@, value@));
}

fn push_field(out: &mut String, key: &str, value: &String)
    ensures
        final(out)@ == old(out)@ + field_line(key@, value@),
{
    if chars_of(value.as_str()).len() > 0 {
        push_line(out, key, value.as_str());
    } else {
        assert(old(out)@ + field_line(key@, value@) =~= old(out)@);
    }
}

impl ModInfo {
    /// The `mod.ini` text of this description.
    pub fn to_ini(&self) -> (r: String)
        ensures
            r@ == info_text(self@),
    {
        let mut out = String::new();
        let empty = String::new();
        let name = match &self.name {
            Some(n) => n,
            None => &empty,
        };
        push_line(&mut out, "name", name.as_str());
        push_field(&mut out, "version", &self.version);
        push_field(&mut out, "author", &self.author);
        push_field(&mut out, "description", &self.description);
        push_field(&mut out, "url", &self.url);
        push_field(&mut out, "thumbnail", &self.thumbnail);
        let ghost fields = out@;
        let ghost es = entries_view(self.extra@);
        let mut i: usize = 0;
        while i < self.extra.len()
            invariant
                i <= self.extra.len(),
                es == entries_view(self.extra@),
                out@ == fields + extra_lines(es.take(i as int)),
            decreases self.extra.len() - i,
        {
            let (key, value) = &self.extra[i];
            push_line(&mut out, key.as_str(), value.as_str());
            proof {
                assert(es.take(i + 1).drop_last() =~= es.take(i as int));
            }
            i = i + 1;
        }
        assert(es.take(self.extra.len() as int) =~= es);
        let ghost lines = out@;
        if !self.enabled {
            push_line(&mut out, "enabled", "0");
        }
        let ghost enabled = out@;
        if self.priority != 100 {
            let mut number = String::new();
            push_signed(&mut number, self.priority as i64);
            push_line(&mut out, "priority", number.as_str());
        }
        let ghost priority = out@;
        if !self.load_plugins {
            push_line(&mut out, "plugins", "0");
        }
        let ghost plugins = out@;
        if !self.options.is_empty() {
            push_str(&mut out, "\n[options]\n");
            push_option_lines(&mut out, "", &self.options);
            proof {
                reveal_strlit("");
                assert(""@ =~= Seq::<char>::empty());
            }
        }
        proof {
            reveal_strlit("0");
        }
        assert(out@ =~= info_text(self@));
        out
    }
}

/// A mod folder in the mods directory.
#[derive(Debug, Clone)]
pub struct InstalledMod {
    /// The folder name, which identifies the mod in profiles.
    pub folder: String,
    pub path: String,
    pub kind: ModKind,
    /// What gets merged: the folder itself, or its `.tkcl`.
    pub content: String,
    /// The Skyline plugins it ships, whether or not `mod.ini` allows them.
    pub plugins: Vec<String>,
    pub info: ModInfo,
}

impl InstalledMod {
    /// The name shown: `mod.ini`'s, else the folder's.
    pub fn name(&self) -> (r: &str)
        ensures
            r@ == match self.info.name {
                Some(n) => n@,
                None => self.folder@,
            },
    {
        match &self.info.name {
            Some(n) => n.as_str(),
            None => self.folder.as_str(),
        }
    }
}

/// `name` ends with `extension` (compared ignoring ASCII case) and is longer
/// than it, in bytes.
pub open spec fn has_extension_spec(name: Seq<char>, extension: Seq<char>) -> bool {
    encode_utf8(name).len() > encode_utf8(extension).len() && ends_with_ignore_case(name, extension)
}

pub fn has_extension(name: &str, extension: &str) -> (r: bool)
    ensures
        r == has_extension_spec(name@, extension@),
{
    if name.as_bytes().len() <= extension.as_bytes().len() {
        return false;
    }
    let n = chars_of(name);
    let e = chars_of(extension);
    has_suffix_ignore_case(n.as_slice(), e.as_slice())
}

// --- fingerprints ----------------------------------------------------------------------

pub const FNV_OFFSET: u64 = 0xcbf2_9ce4_8422_2325;

pub const FNV_PRIME: u64 = 0x100_0000_01b3;

pub open spec fn fnv_step(h: u64, b: u64) -> u64 {
    (h ^ b).wrapping_mul(FNV_PRIME)
}

/// FNV-1a over `bytes`, from `h`.
pub open spec fn fnv(h: u64, bytes: Seq<u8>) -> u64
    decreases bytes.len(),
{
    if bytes.len() == 0 {
        h
    } else {
        fnv_step(fnv(h, bytes.drop_last()), bytes.last() as u64)
    }
}

/// One `mix`: the bytes, then a separator, so ("ab", "c") and ("a", "bc") differ.
pub open spec fn mixed(h: u64, bytes: Seq<u8>) -> u64 {
    fnv_step(fnv(h, bytes), 0xFF)
}

/// FNV-1a, for cache fingerprints.
pub struct Fingerprint(u64);

impl View for Fingerprint {
    type V = u64;

    closed spec fn view(&self) -> u64 {
        self.0
    }
}

impl Default for Fingerprint {
    fn default() -> (f: Fingerprint)
        ensures
            f@ == FNV_OFFSET,
    {
        Fingerprint(FNV_OFFSET)
    }
}

impl Fingerprint {
    pub fn mix(&mut self, bytes: &[u8])
        ensures
            final(self)@ == mixed(old(self)@, bytes@),
    {
        let mut i: usize = 0;
        while i < bytes.len()
            invariant
                i <= bytes.len(),
                self@ == fnv(old(self)@, bytes@.take(i as int)),
            decreases bytes.len() - i,
        {
            self.0 = (self.0 ^ bytes[i] as u64).wrapping_mul(FNV_PRIME);
            proof {
                assert(bytes@.take(i + 1).drop_last() =~= bytes@.take(i as int));
            }
            i = i + 1;
        }
        assert(bytes@.take(bytes.len() as int) =~= bytes@);
        self.0 = (self.0 ^ 0xFF).wrapping_mul(FNV_PRIME);
    }

    pub fn mix_str(&mut self, text: &str)
        ensures
            final(self)@ == mixed(old(self)@, encode_utf8(text@)),
    {
        self.mix(text.as_bytes());
    }

    pub fn value(&self) -> (v: u64)
        ensures
            v == self@,
    {
        self.0
    }

    /// The value as 16 lower-case hexadecimal digits.
    pub fn finish(&self) -> (s: String)
        ensures
            s@ == crate::text::hex_text(self@ as nat, 16),
    {
        let mut s = String::new();
        crate::text::push_hex(&mut s, self.0, 16);
        s
    }
}

/// The eight little-endian bytes of `n`.
pub open spec fn le_bytes(n: u64) -> Seq<u8> {
    Seq::new(8, |i: int| ((n as nat / vstd::arithmetic::power::pow(256, i as nat) as nat) % 256) as u8)
}

pub fn le_bytes_of(n: u64) -> (r: Vec<u8>)
    ensures
        r@ == le_bytes(n),
{
    let mut r: Vec<u8> = Vec::new();
    let mut rest = n;
    let mut i: usize = 0;
    proof {
        vstd::arithmetic::power::lemma_pow0(256);
        assert((n as nat) / 1nat == n as nat) by (nonlinear_arith);
    }
    while i < 8
        invariant
            i <= 8,
            r@.len() == i,
            rest as nat == n as nat / vstd::arithmetic::power::pow(256, i as nat) as nat,
            forall|k: int| 0 <= k < i ==> #[trigger] r@[k] == le_bytes(n)[k],
        decreases 8 - i,
    {
        r.push((rest % 256) as u8);
        proof {
            vstd::arithmetic::power::lemma_pow_positive(256, i as nat);
            vstd::arithmetic::div_mod::lemma_div_denominator(
                n as int,
                vstd::arithmetic::power::pow(256, i as nat),
                256,
            );
            vstd::arithmetic::power::lemma_pow_adds(256, i as nat, 1);
            vstd::arithmetic::power::lemma_pow1(256);
        }
        rest = rest / 256;
        i = i + 1;
    }
    assert(r@ =~= le_bytes(n));
    r
}

// --- which mods, in which order ------------------------------------------------------------

pub struct ModSpecView {
    pub name: Seq<char>,
    pub kind: ModKind,
    pub path: Seq<char>,
    pub priority: i32,
    pub options: Seq<SpecGroup>,
    pub plugins: Seq<Seq<char>>,
}

impl View for ModSpec {
    type V = ModSpecView;

    open spec fn view(&self) -> ModSpecView {
        ModSpecView {
            name: self.name@,
            kind: self.kind,
            path: self.path@,
            priority: self.priority,
            options: self.options@,
            plugins: strings_view(self.plugins@),
        }
    }
}

pub open spec fn specs_view(v: Seq<ModSpec>) -> Seq<ModSpecView> {
    v.map_values(|s: ModSpec| s@)
}

pub open spec fn installed_name(m: InstalledMod) -> Seq<char> {
    match m.info.name {
        Some(n) => n@,
        None => m.folder@,
    }
}

/// How an installed mod is merged, at `priority` with `options`.
pub open spec fn spec_of(m: InstalledMod, priority: i32, options: Seq<SpecGroup>) -> ModSpecView {
    ModSpecView {
        name: installed_name(m),
        kind: m.kind,
        path: m.content@,
        priority,
        options,
        plugins: if m.info.load_plugins {
            strings_view(m.plugins@)
        } else {
            Seq::empty()
        },
    }
}

/// `base` with each group of `chosen` set over it.
pub open spec fn with_choices(base: Seq<SpecGroup>, chosen: Seq<SpecGroup>) -> Seq<SpecGroup>
    decreases chosen.len(),
{
    if chosen.len() == 0 {
        base
    } else {
        let c = chosen.last();
        insert_group(with_choices(base, chosen.drop_last()), c.0, c.1)
    }
}

fn spec_for(installed: &InstalledMod, priority: i32, options: OptionMap) -> (r: ModSpec)
    ensures
        r@ == spec_of(*installed, priority, options@),
        r.options == options,
{
    let plugins = if installed.info.load_plugins {
        crate::options::copy_strings(&installed.plugins)
    } else {
        Vec::new()
    };
    let r = ModSpec {
        name: copy_string_of(installed.name()),
        kind: installed.kind,
        path: copy_string(&installed.content),
        priority,
        options,
        plugins,
    };
    assert(r@.plugins =~= spec_of(*installed, priority, options@).plugins);
    r
}

fn copy_string_of(s: &str) -> (r: String)
    ensures
        r@ == s@,
{
    crate::text::string_of(chars_of(s).as_slice())
}

/// Options for a mod: the profile's choice per group, over `mod.ini`'s.
fn merged_options(installed: &InstalledMod, chosen: &OptionMap) -> (r: OptionMap)
    ensures
        r@ == with_choices(installed.info.options@, chosen@),
{
    let mut options = installed.info.options.copy();
    let mut i: usize = 0;
    while i < chosen.len()
        invariant
            i <= chosen@.len(),
            options@ == with_choices(installed.info.options@, chosen@.take(i as int)),
        decreases chosen@.len() - i,
    {
        let (group, selected) = chosen.entry(i);
        options.insert(copy_string(group), crate::options::copy_strings(selected));
        proof {
            assert(chosen@.take(i + 1).drop_last() =~= chosen@.take(i as int));
        }
        i = i + 1;
    }
    assert(chosen@.take(chosen@.len() as int) =~= chosen@);
    options
}

/// The first installed mod whose folder is `folder` (ignoring ASCII case).
pub open spec fn find_installed(installed: Seq<InstalledMod>, folder: Seq<char>) -> Option<int>
    decreases installed.len(),
{
    if installed.len() == 0 {
        None
    } else {
        match find_installed(installed.drop_last(), folder) {
            Some(i) => Some(i),
            None => if crate::text::eq_ignore_case(installed.last().folder@, folder) {
                Some(installed.len() - 1)
            } else {
                None
            },
        }
    }
}

/// Whether the profile lists the folder of entry `index` before it.
pub open spec fn listed_before(mods: Seq<SpecProfileMod>, index: int) -> bool {
    exists|j: int| 0 <= j < index && crate::text::eq_ignore_case(#[trigger] mods[j].0, mods[index].0)
}

/// The mods a profile merges, in the profile's order (winner first): each
/// enabled entry that is installed and not listed earlier, at priority
/// `count - index`.
pub open spec fn profile_choice(installed: Seq<InstalledMod>, mods: Seq<SpecProfileMod>, count: int) -> Seq<ModSpecView>
    decreases mods.len(),
{
    if mods.len() == 0 {
        Seq::empty()
    } else {
        let index = mods.len() - 1;
        let earlier = profile_choice(installed, mods.drop_last(), count);
        let entry = mods[index];
        if listed_before(mods, index) || !entry.1 {
            earlier
        } else {
            match find_installed(installed, entry.0) {
                Some(m) => earlier.push(
                    spec_of(
                        installed[m],
                        (count - index) as i32,
                        with_choices(installed[m].info.options@, entry.2),
                    ),
                ),
                None => earlier,
            }
        }
    }
}

proof fn lemma_find_installed_stays(installed: Seq<InstalledMod>, folder: Seq<char>, k: int, n: int)
    requires
        0 <= k <= n <= installed.len(),
        find_installed(installed.take(k), folder) is Some,
    ensures
        find_installed(installed.take(n), folder) == find_installed(installed.take(k), folder),
    decreases n - k,
{
    if k < n {
        lemma_find_installed_stays(installed, folder, k, n - 1);
        assert(installed.take(n).drop_last() =~= installed.take(n - 1));
    }
}

fn find_installed_exec(installed: &Vec<InstalledMod>, folder: &[char]) -> (r: Option<usize>)
    ensures
        match r {
            Some(i) => find_installed(installed@, folder@) == Some(i as int) && i < installed@.len(),
            None => find_installed(installed@, folder@) is None,
        },
{
    let mut i: usize = 0;
    while i < installed.len()
        invariant
            i <= installed.len(),
            find_installed(installed@.take(i as int), folder@) is None,
        decreases installed.len() - i,
    {
        let f = chars_of(installed[i].folder.as_str());
        proof {
            assert(installed@.take(i + 1).drop_last() =~= installed@.take(i as int));
        }
        if crate::text::chars_eq_ignore_case(f.as_slice(), folder) {
            proof {
                lemma_find_installed_stays(installed@, folder@, i + 1, installed@.len() as int);
                assert(installed@.take(installed@.len() as int) =~= installed@);
            }
            return Some(i);
        }
        i = i + 1;
    }
    assert(installed@.take(installed@.len() as int) =~= installed@);
    None
}

fn is_listed_before(mods: &Vec<ProfileMod>, index: usize) -> (r: bool)
    requires
        index < mods@.len(),
    ensures
        r == listed_before(mods_view(mods@), index as int),
{
    let ghost v = mods_view(mods@);
    let folder = chars_of(mods[index].folder.as_str());
    let mut j: usize = 0;
    while j < index
        invariant
            j <= index < mods@.len(),
            v == mods_view(mods@),
            folder@ == v[index as int].0,
            forall|l: int| 0 <= l < j ==> !crate::text::eq_ignore_case(#[trigger] v[l].0, v[index as int].0),
        decreases index - j,
    {
        let f = chars_of(mods[j].folder.as_str());
        if crate::text::chars_eq_ignore_case(f.as_slice(), folder.as_slice()) {
            assert(crate::text::eq_ignore_case(v[j as int].0, v[index as int].0));
            return true;
        }
        j = j + 1;
    }
    false
}

/// The enabled mods without a profile, in folder order, at their own priority.
pub open spec fn enabled_specs(installed: Seq<InstalledMod>) -> Seq<ModSpecView>
    decreases installed.len(),
{
    if installed.len() == 0 {
        Seq::empty()
    } else {
        let earlier = enabled_specs(installed.drop_last());
        let m = installed.last();
        if m.info.enabled {
            earlier.push(spec_of(m, m.info.priority, m.info.options@))
        } else {
            earlier
        }
    }
}

/// `a` sorts after `b`: by priority, then by name.
pub open spec fn merges_after(a: ModSpecView, b: ModSpecView) -> bool {
    a.priority > b.priority || (a.priority == b.priority && text_lt(b.name, a.name))
}

/// Where `x` goes in `sorted`: before the first that sorts after it.
pub open spec fn spec_slot(sorted: Seq<ModSpecView>, x: ModSpecView) -> int
    decreases sorted.len(),
{
    if sorted.len() == 0 {
        0
    } else if merges_after(sorted[0], x) {
        0
    } else {
        1 + spec_slot(sorted.skip(1), x)
    }
}

/// A stable sort by priority, then name.
pub open spec fn sort_specs(s: Seq<ModSpecView>) -> Seq<ModSpecView>
    decreases s.len(),
{
    if s.len() == 0 {
        Seq::empty()
    } else {
        let sorted = sort_specs(s.drop_last());
        sorted.insert(spec_slot(sorted, s.last()), s.last())
    }
}

proof fn lemma_spec_slot(sorted: Seq<ModSpecView>, x: ModSpecView, j: int)
    requires
        0 <= j <= sorted.len(),
        forall|l: int| 0 <= l < j ==> !merges_after(#[trigger] sorted[l], x),
        j == sorted.len() || merges_after(sorted[j], x),
    ensures
        spec_slot(sorted, x) == j,
    decreases j,
{
    if j > 0 {
        let t = sorted.skip(1);
        assert forall|l: int| 0 <= l < j - 1 implies !merges_after(#[trigger] t[l], x) by {
            assert(t[l] == sorted[l + 1]);
        }
        if j < sorted.len() {
            assert(t[j - 1] == sorted[j]);
        }
        lemma_spec_slot(t, x, j - 1);
        assert(!merges_after(sorted[0], x));
    }
}

fn sorts_after(a: &ModSpec, b: &ModSpec) -> (r: bool)
    ensures
        r == merges_after(a@, b@),
{
    if a.priority != b.priority {
        a.priority > b.priority
    } else {
        let an = chars_of(a.name.as_str());
        let bn = chars_of(b.name.as_str());
        text_less(bn.as_slice(), an.as_slice())
    }
}

fn sort_mod_specs(specs: Vec<ModSpec>) -> (r: Vec<ModSpec>)
    ensures
        specs_view(r@) == sort_specs(specs_view(specs@)),
{
    let ghost all = specs_view(specs@);
    let n = specs.len();
    let mut rest = specs;
    let mut sorted: Vec<ModSpec> = Vec::new();
    let mut k: usize = 0;
    while rest.len() > 0
        invariant
            k <= n,
            rest@.len() + k == n,
            all.len() == n,
            specs_view(rest@) == all.skip(k as int),
            specs_view(sorted@) == sort_specs(all.take(k as int)),
        decreases rest.len(),
    {
        let ghost before = rest@;
        let x = rest.remove(0);
        proof {
            assert(specs_view(before)[0] == x@);
            assert(all.skip(k as int)[0] == all[k as int]);
            assert(rest@ =~= before.skip(1));
            assert(specs_view(rest@) =~= specs_view(before).skip(1));
            assert(all.skip(k as int).skip(1) =~= all.skip(k + 1));
        }
        let ghost sv = specs_view(sorted@);
        let mut j: usize = 0;
        while j < sorted.len() && !sorts_after(&sorted[j], &x)
            invariant
                j <= sorted@.len(),
                sv == specs_view(sorted@),
                forall|l: int| 0 <= l < j ==> !merges_after(#[trigger] sv[l], x@),
            decreases sorted.len() - j,
        {
            j = j + 1;
        }
        proof {
            lemma_spec_slot(sv, x@, j as int);
            assert(all.take(k + 1).drop_last() =~= all.take(k as int));
            assert(all.take(k + 1).last() == x@);
        }
        sorted.insert(j, x);
        assert(specs_view(sorted@) =~= sv.insert(j as int, x@));
        k = k + 1;
    }
    assert(all.take(n as int) =~= all);
    sorted
}

/// Moves `src` onto the end of `dst`, last first.
fn append_reversed(dst: &mut Vec<ModSpec>, src: Vec<ModSpec>)
    ensures
        specs_view(final(dst)@) == specs_view(old(dst)@) + specs_view(src@).reverse(),
{
    let ghost orig = specs_view(src@);
    let ghost start = specs_view(dst@);
    let mut src = src;
    while src.len() > 0
        invariant
            specs_view(src@) == orig.take(src@.len() as int),
            src@.len() <= orig.len(),
            specs_view(dst@) == start + orig.skip(src@.len() as int).reverse(),
        decreases src.len(),
    {
        let ghost n = src@.len();
        let ghost before = specs_view(dst@);
        let x = src.pop().unwrap();
        proof {
            assert(orig.take(n as int)[n - 1] == orig[n - 1]);
            assert(specs_view(src@) =~= orig.take(n - 1));
        }
        dst.push(x);
        proof {
            assert(orig.skip(n - 1).reverse() =~= orig.skip(n as int).reverse().push(orig[n - 1]));
            assert(specs_view(dst@) =~= before.push(x@));
        }
    }
    assert(orig.skip(0) =~= orig);
}

/// The RomFSlite export, when there is one, merged under every other mod.
pub open spec fn romfslite_specs(romfslite: Option<(ModKind, Seq<char>)>) -> Seq<ModSpecView> {
    match romfslite {
        Some((kind, path)) => if kind != ModKind::Package {
            seq![
                ModSpecView {
                    name: "RomFSlite"@,
                    kind,
                    path,
                    priority: i32::MIN,
                    options: Seq::empty(),
                    plugins: Seq::empty(),
                },
            ]
        } else {
            Seq::empty()
        },
        None => Seq::empty(),
    }
}

/// The mods to merge, lowest priority first.
pub open spec fn chosen_mods(
    romfslite: Option<(ModKind, Seq<char>)>,
    installed: Seq<InstalledMod>,
    profile: Option<Seq<SpecProfileMod>>,
) -> Seq<ModSpecView> {
    romfslite_specs(romfslite) + match profile {
        Some(mods) => profile_choice(installed, mods, mods.len() as int).reverse(),
        None => sort_specs(enabled_specs(installed)),
    }
}

/// Chooses what to merge: the RomFSlite export found (if any), then the mods
/// of the profile (winner last), or without a profile every enabled mod by
/// priority and name.
pub fn select_mods(
    romfslite: Option<(ModKind, String)>,
    installed: &Vec<InstalledMod>,
    profile: Option<&Profile>,
) -> (r: Vec<ModSpec>)
    requires
        profile matches Some(p) ==> p.mods@.len() <= i32::MAX,
    ensures
        specs_view(r@) == chosen_mods(
            match romfslite {
                Some((k, p)) => Some((k, p@)),
                None => None,
            },
            installed@,
            match profile {
                Some(p) => Some(mods_view(p.mods@)),
                None => None,
            },
        ),
{
    let mut specs: Vec<ModSpec> = Vec::new();
    match romfslite {
        Some((kind, path)) => {
            if kind != ModKind::Package {
                let mut spec = ModSpec::default();
                spec.name = copy_string_of("RomFSlite");
                spec.kind = kind;
                spec.path = path;
                spec.priority = i32::MIN;
                specs.push(spec);
                assert(strings_view(spec.plugins@) =~= Seq::<Seq<char>>::empty());
            }
        },
        None => {},
    }
    let ghost head = specs_view(specs@);
    assert(head =~= romfslite_specs(
        match romfslite {
            Some((k, p)) => Some((k, p@)),
            None => None,
        },
    ));
    match profile {
        Some(profile) => {
            let ghost mv = mods_view(profile.mods@);
            let count = profile.mods.len() as i32;
            let mut chosen: Vec<ModSpec> = Vec::new();
            let mut index: usize = 0;
            while index < profile.mods.len()
                invariant
                    index <= profile.mods@.len() <= i32::MAX,
                    count == profile.mods@.len(),
                    mv == mods_view(profile.mods@),
                    specs_view(chosen@) == profile_choice(installed@, mv.take(index as int), count as int),
                decreases profile.mods.len() - index,
            {
                let entry = &profile.mods[index];
                let listed = is_listed_before(&profile.mods, index);
                proof {
                    let t = mv.take(index + 1);
                    assert(t.drop_last() =~= mv.take(index as int));
                    assert(t[index as int] == mv[index as int]);
                    assert(listed_before(t, index as int) == listed_before(mv, index as int)) by {
                        if listed_before(mv, index as int) {
                            let j = choose|j: int| 0 <= j < index && crate::text::eq_ignore_case(#[trigger] mv[j].0, mv[index as int].0);
                            assert(t[j] == mv[j]);
                        }
                        if listed_before(t, index as int) {
                            let j = choose|j: int| 0 <= j < index && crate::text::eq_ignore_case(#[trigger] t[j].0, t[index as int].0);
                            assert(t[j] == mv[j]);
                        }
                    }
                }
                if !listed && entry.enabled {
                    let folder = chars_of(entry.folder.as_str());
                    match find_installed_exec(installed, folder.as_slice()) {
                        Some(m) => {
                            let options = merged_options(&installed[m], &entry.options);
                            let spec = spec_for(&installed[m], count - index as i32, options);
                            let ghost before = specs_view(chosen@);
                            chosen.push(spec);
                            assert(specs_view(chosen@) =~= before.push(spec@));
                        },
                        None => {},
                    }
                }
                index = index + 1;
            }
            assert(mv.take(profile.mods@.len() as int) =~= mv);
            append_reversed(&mut specs, chosen);
        },
        None => {
            let mut found: Vec<ModSpec> = Vec::new();
            let mut i: usize = 0;
            while i < installed.len()
                invariant
                    i <= installed@.len(),
                    specs_view(found@) == enabled_specs(installed@.take(i as int)),
                decreases installed.len() - i,
            {
                let m = &installed[i];
                proof {
                    assert(installed@.take(i + 1).drop_last() =~= installed@.take(i as int));
                }
                if m.info.enabled {
                    let spec = spec_for(m, m.info.priority, m.info.options.copy());
                    let ghost before = specs_view(found@);
                    found.push(spec);
                    assert(specs_view(found@) =~= before.push(spec@));
                }
                i = i + 1;
            }
            assert(installed@.take(installed@.len() as int) =~= installed@);
            let mut sorted = sort_mod_specs(found);
            let ghost sv = specs_view(sorted@);
            specs.append(&mut sorted);
            assert(specs_view(specs@) =~= head + sv);
        },
    }
    specs
}

// --- what a folder holds -------------------------------------------------------------------

/// A directory entry, as the file system lists it.
#[derive(Debug, Clone)]
pub struct DirEntry {
    pub name: String,
    pub is_dir: bool,
    pub len: u64,
}

pub open spec fn romfs_folder_names() -> Seq<Seq<char>> {
    seq!["Pack"@, "RSDB"@, "GameData"@, "Mals"@, "Banc"@, "Component"@, "UI"@, "Model"@]
}

pub open spec fn is_romfs_folder(e: DirEntry) -> bool {
    e.is_dir && exists|k: int|
        0 <= k < 8 && crate::text::eq_ignore_case(e.name@, #[trigger] romfs_folder_names()[k])
}

/// A romfs root has the game's top-level folders.
pub open spec fn looks_like_romfs_spec(entries: Seq<DirEntry>) -> bool {
    exists|i: int| 0 <= i < entries.len() && is_romfs_folder(#[trigger] entries[i])
}

fn is_romfs_folder_exec(e: &DirEntry) -> (r: bool)
    ensures
        r == is_romfs_folder(*e),
{
    if !e.is_dir {
        return false;
    }
    let name = chars_of(e.name.as_str());
    let names: [&str; 8] = ["Pack", "RSDB", "GameData", "Mals", "Banc", "Component", "UI", "Model"];
    let mut k: usize = 0;
    while k < 8
        invariant
            k <= 8,
            name@ == e.name@,
            e.is_dir,
            forall|m: int| 0 <= m < 8 ==> (#[trigger] names@[m])@ == romfs_folder_names()[m],
            forall|m: int| 0 <= m < k ==> !crate::text::eq_ignore_case(e.name@, #[trigger] romfs_folder_names()[m]),
        decreases 8 - k,
    {
        let f = chars_of(names[k]);
        if crate::text::chars_eq_ignore_case(name.as_slice(), f.as_slice()) {
            return true;
        }
        k = k + 1;
    }
    false
}

pub fn looks_like_romfs(entries: &Vec<DirEntry>) -> (r: bool)
    ensures
        r == looks_like_romfs_spec(entries@),
{
    let mut i: usize = 0;
    while i < entries.len()
        invariant
            i <= entries@.len(),
            forall|m: int| 0 <= m < i ==> !is_romfs_folder(#[trigger] entries@[m]),
        decreases entries.len() - i,
    {
        if is_romfs_folder_exec(&entries[i]) {
            return true;
        }
        i = i + 1;
    }
    false
}

pub open spec fn is_package_file(e: DirEntry) -> bool {
    !e.is_dir && has_extension_spec(e.name@, ".tkcl"@)
}

/// The first package file by name among `entries`, if any.
pub open spec fn first_package(entries: Seq<DirEntry>) -> Option<Seq<char>>
    decreases entries.len(),
{
    if entries.len() == 0 {
        None
    } else {
        let earlier = first_package(entries.drop_last());
        let e = entries.last();
        if is_package_file(e) {
            match earlier {
                Some(best) => if text_lt(e.name@, best) {
                    Some(e.name@)
                } else {
                    Some(best)
                },
                None => Some(e.name@),
            }
        } else {
            earlier
        }
    }
}

pub open spec fn is_mod_root(e: DirEntry) -> bool {
    e.is_dir && (crate::text::eq_ignore_case(e.name@, "romfs"@) || crate::text::eq_ignore_case(
        e.name@,
        "exefs"@,
    ))
}

/// What a folder with these entries holds: a package (the first `.tkcl` by
/// name), a folder mod (`romfs` or `exefs` inside), a romfs root, or only
/// plugins; `None` when it is none of these.
pub open spec fn inspect_spec(dir: Seq<char>, entries: Seq<DirEntry>, has_plugins: bool) -> Option<(ModKind, Seq<char>)> {
    match first_package(entries) {
        Some(name) => Some((ModKind::Package, crate::paths::join_spec(dir, name))),
        None => if exists|i: int| 0 <= i < entries.len() && is_mod_root(#[trigger] entries[i]) {
            Some((ModKind::Folder, dir))
        } else if looks_like_romfs_spec(entries) {
            Some((ModKind::Romfs, dir))
        } else if has_plugins {
            Some((ModKind::Folder, dir))
        } else {
            None
        },
    }
}

/// What a mod folder holds, from its entries; `has_plugins` tells whether it
/// ships plugin files.
pub fn inspect_entries(dir: &str, entries: &Vec<DirEntry>, has_plugins: bool) -> (r: Option<(ModKind, String)>)
    ensures
        match r {
            Some((kind, path)) => inspect_spec(dir@, entries@, has_plugins) == Some((kind, path@)),
            None => inspect_spec(dir@, entries@, has_plugins) is None,
        },
{
    let mut best: Option<usize> = None;
    let mut i: usize = 0;
    proof {
        reveal_strlit(".tkcl");
    }
    while i < entries.len()
        invariant
            i <= entries@.len(),
            match best {
                Some(b) => b < i && first_package(entries@.take(i as int)) == Some(entries@[b as int].name@),
                None => first_package(entries@.take(i as int)) is None,
            },
        decreases entries.len() - i,
    {
        let e = &entries[i];
        proof {
            assert(entries@.take(i + 1).drop_last() =~= entries@.take(i as int));
            assert(entries@.take(i + 1).last() == *e);
        }
        if !e.is_dir && has_extension(e.name.as_str(), ".tkcl") {
            match best {
                Some(b) => {
                    let en = chars_of(e.name.as_str());
                    let bn = chars_of(entries[b].name.as_str());
                    if text_less(en.as_slice(), bn.as_slice()) {
                        best = Some(i);
                    }
                },
                None => {
                    best = Some(i);
                },
            }
        }
        i = i + 1;
    }
    assert(entries@.take(entries@.len() as int) =~= entries@);
    if let Some(b) = best {
        return Some((ModKind::Package, crate::paths::join(dir, entries[b].name.as_str())));
    }
    let mut j: usize = 0;
    proof {
        reveal_strlit("romfs");
        reveal_strlit("exefs");
    }
    while j < entries.len()
        invariant
            j <= entries@.len(),
            first_package(entries@) is None,
            forall|m: int| 0 <= m < j ==> !is_mod_root(#[trigger] entries@[m]),
        decreases entries.len() - j,
    {
        let e = &entries[j];
        if e.is_dir {
            let n = chars_of(e.name.as_str());
            let romfs = chars_of("romfs");
            let exefs = chars_of("exefs");
            if crate::text::chars_eq_ignore_case(n.as_slice(), romfs.as_slice())
                || crate::text::chars_eq_ignore_case(n.as_slice(), exefs.as_slice()) {
                assert(is_mod_root(entries@[j as int]));
                return Some((ModKind::Folder, copy_string_of(dir)));
            }
        }
        j = j + 1;
    }
    if looks_like_romfs(entries) {
        return Some((ModKind::Romfs, copy_string_of(dir)));
    }
    if has_plugins {
        Some((ModKind::Folder, copy_string_of(dir)))
    } else {
        None
    }
}

// --- content fingerprints -------------------------------------------------------------------

/// The first path segment of `file`.
pub open spec fn top_segment(file: Seq<char>) -> Seq<char> {
    if crate::text::contains_char(file, '/') {
        file.take(crate::text::index_of(file, '/'))
    } else {
        file
    }
}

/// Whether a file of a mod is part of what gets merged: `mod.ini`,
/// thumbnails and read-mes are not, so editing them calls for no new merge.
pub open spec fn is_merged_file(kind: ModKind, file: Seq<char>) -> bool {
    match kind {
        ModKind::Folder => crate::text::contains_char(file, '/') && (crate::text::eq_ignore_case(
            top_segment(file),
            "romfs"@,
        ) || crate::text::eq_ignore_case(top_segment(file), "exefs"@)),
        _ => !crate::text::eq_ignore_case(file, "mod.ini"@),
    }
}

pub open spec fn files_fingerprint(h: u64, kind: ModKind, files: Seq<(Seq<char>, u64)>) -> u64
    decreases files.len(),
{
    if files.len() == 0 {
        h
    } else {
        let earlier = files_fingerprint(h, kind, files.drop_last());
        let (file, size) = files.last();
        if is_merged_file(kind, file) {
            mixed(mixed(earlier, encode_utf8(file)), le_bytes(size))
        } else {
            earlier
        }
    }
}

/// The fingerprint of a mod's contents: its path, then the size of a
/// package, or the names and sizes of a folder's merged files.
pub open spec fn content_fingerprint_spec(
    path: Seq<char>,
    kind: ModKind,
    files: Seq<(Seq<char>, u64)>,
    package_size: u64,
) -> u64 {
    let h = mixed(FNV_OFFSET, encode_utf8(path));
    match kind {
        ModKind::Package => mixed(h, le_bytes(package_size)),
        _ => files_fingerprint(h, kind, files),
    }
}

pub open spec fn files_view(files: Seq<(String, u64)>) -> Seq<(Seq<char>, u64)> {
    files.map_values(|f: (String, u64)| (f.0@, f.1))
}

fn is_merged_file_exec(kind: ModKind, file: &str) -> (r: bool)
    ensures
        r == is_merged_file(kind, file@),
{
    let f = chars_of(file);
    proof {
        reveal_strlit("romfs");
        reveal_strlit("exefs");
        reveal_strlit("mod.ini");
    }
    match kind {
        ModKind::Folder => match crate::text::find_char(f.as_slice(), '/') {
            Some(i) => {
                proof {
                    crate::text::lemma_index_of(f@, '/');
                }
                let top = crate::text::slice_of(f.as_slice(), 0, i);
                let romfs = chars_of("romfs");
                let exefs = chars_of("exefs");
                crate::text::chars_eq_ignore_case(top.as_slice(), romfs.as_slice())
                    || crate::text::chars_eq_ignore_case(top.as_slice(), exefs.as_slice())
            },
            None => {
                proof {
                    crate::text::lemma_index_of(f@, '/');
                }
                false
            },
        },
        _ => {
            let m = chars_of("mod.ini");
            !crate::text::chars_eq_ignore_case(f.as_slice(), m.as_slice())
        },
    }
}

/// The fingerprint of a mod's contents, from what the file system says of
/// it: `files` (relative paths and sizes, sorted) for a folder, the file's
/// size for a package.
pub fn fingerprint_contents(spec: &ModSpec, files: &Vec<(String, u64)>, package_size: u64) -> (r: String)
    ensures
        r@ == crate::text::hex_text(
            content_fingerprint_spec(spec.path@, spec.kind, files_view(files@), package_size) as nat,
            16,
        ),
{
    let mut fingerprint = Fingerprint::default();
    fingerprint.mix_str(spec.path.as_str());
    match spec.kind {
        ModKind::Package => {
            let bytes = le_bytes_of(package_size);
            fingerprint.mix(bytes.as_slice());
        },
        _ => {
            let ghost h = fingerprint@;
            let ghost fv = files_view(files@);
            let mut i: usize = 0;
            while i < files.len()
                invariant
                    i <= files@.len(),
                    spec.kind != ModKind::Package,
                    fv == files_view(files@),
                    fingerprint@ == files_fingerprint(h, spec.kind, fv.take(i as int)),
                decreases files.len() - i,
            {
                let (file, size) = &files[i];
                proof {
                    assert(fv.take(i + 1).drop_last() =~= fv.take(i as int));
                    assert(fv.take(i + 1).last() == (file@, *size));
                }
                if is_merged_file_exec(spec.kind, file.as_str()) {
                    fingerprint.mix_str(file.as_str());
                    let bytes = le_bytes_of(*size);
                    fingerprint.mix(bytes.as_slice());
                }
                i = i + 1;
            }
            assert(fv.take(files@.len() as int) =~= fv);
        },
    }
    fingerprint.finish()
}

// --- the mods folder -------------------------------------------------------------------------

/// The one folder among `entries`, when there is exactly one: a mod unpacked
/// one folder further down is looked for in it.
pub open spec fn single_folder_spec(entries: Seq<DirEntry>) -> Option<Seq<char>> {
    let folders = entries.filter(|e: DirEntry| e.is_dir);
    if folders.len() == 1 {
        Some(folders[0].name@)
    } else {
        None
    }
}

pub fn single_folder(entries: &Vec<DirEntry>) -> (r: Option<String>)
    ensures
        match r {
            Some(n) => single_folder_spec(entries@) == Some(n@),
            None => single_folder_spec(entries@) is None,
        },
{
    let ghost p = |e: DirEntry| e.is_dir;
    let mut count: usize = 0;
    let mut first: Option<usize> = None;
    let mut i: usize = 0;
    while i < entries.len()
        invariant
            i <= entries.len(),
            p == (|e: DirEntry| e.is_dir),
            count == entries@.take(i as int).filter(p).len(),
            count <= i,
            count == 0 <==> first is None,
            first matches Some(k) ==> k < i && entries@.take(i as int).filter(p)[0] == entries@[k as int],
        decreases entries.len() - i,
    {
        proof {
            entries@.take(i as int).lemma_filter_push(entries@[i as int], p);
            assert(entries@.take(i + 1) =~= entries@.take(i as int).push(entries@[i as int]));
        }
        if entries[i].is_dir {
            if count == 0 {
                first = Some(i);
            }
            count = count + 1;
        }
        i = i + 1;
    }
    assert(entries@.take(entries.len() as int) =~= entries@);
    if count == 1 {
        match first {
            Some(k) => Some(crate::text::copy_string(&entries[k].name)),
            None => None,
        }
    } else {
        None
    }
}

/// What a path given as a mod is, when it is a file: a package when it is a
/// `.tkcl`, nothing otherwise.
pub fn classify_file(target: &str) -> (r: Option<(ModKind, String)>)
    ensures
        match r {
            Some((kind, path)) => has_extension_spec(target@, ".tkcl"@) && kind == ModKind::Package
                && path@ == target@,
            None => !has_extension_spec(target@, ".tkcl"@),
        },
{
    if has_extension(target, ".tkcl") {
        Some((ModKind::Package, crate::config::owned(target)))
    } else {
        None
    }
}

/// What the scan says of a `.tkcl` left loose in the mods folder.
pub open spec fn loose_package_message(name: Seq<char>, mods_dir: Seq<char>) -> Seq<char> {
    "'"@ + name + "' ignored: every mod needs its own folder ("@ + mods_dir + "/<mod>/"@ + name + ")"@
}

pub fn loose_package_problem(name: &str, mods_dir: &str) -> (r: String)
    ensures
        r@ == loose_package_message(name@, mods_dir@),
{
    let mut r = crate::config::owned("'");
    push_str(&mut r, name);
    push_str(&mut r, "' ignored: every mod needs its own folder (");
    push_str(&mut r, mods_dir);
    push_str(&mut r, "/<mod>/");
    push_str(&mut r, name);
    push_str(&mut r, ")");
    r
}

/// What the scan says of a folder holding no mod.
pub open spec fn empty_folder_message(name: Seq<char>) -> Seq<char> {
    "'"@ + name + "' ignored: no romfs or exefs folder, and no .tkcl file"@
}

pub fn empty_folder_problem(name: &str) -> (r: String)
    ensures
        r@ == empty_folder_message(name@),
{
    let mut r = crate::config::owned("'");
    push_str(&mut r, name);
    push_str(&mut r, "' ignored: no romfs or exefs folder, and no .tkcl file");
    r
}

/// The plugins of a mod: those next to its folder's own files, then, for a
/// mod unpacked one folder further down (not a package), those next to its
/// `romfs`.
pub fn mod_plugins(dir: &str, content: &str, kind: ModKind, in_dir: Vec<String>, in_content: Vec<String>) -> (r: Vec<String>)
    ensures
        strings_view(r@) == if content@ != dir@ && kind != ModKind::Package {
            strings_view(in_dir@) + strings_view(in_content@)
        } else {
            strings_view(in_dir@)
        },
{
    let mut plugins = in_dir;
    if !crate::text::str_eq(content, dir) && kind != ModKind::Package {
        let ghost a = strings_view(plugins@);
        let ghost b = strings_view(in_content@);
        let mut more = in_content;
        plugins.append(&mut more);
        assert(strings_view(plugins@) =~= a + b);
    }
    plugins
}

/// The profile a local merge is made for: the active one, "local" without.
pub open spec fn local_profile(profile: Seq<char>) -> Seq<char> {
    if trim(profile).len() == 0 {
        "local"@
    } else {
        profile
    }
}

/// The mods on the SD card, as the plugin merges them when no other plugin
/// takes control: `mods`, the enabled ones lowest priority first.
pub fn local_plan(config: &Config, mods: Vec<ModSpec>) -> (r: Plan)
    ensures
        r.mods@ == mods@,
        r.merged_dir@ == config.merged_dir@,
        r.profile@ == local_profile(config.profile@),
{
    let t = trim_chars(chars_of(config.profile.as_str()).as_slice());
    let profile = if t.len() == 0 {
        crate::config::owned("local")
    } else {
        crate::text::copy_string(&config.profile)
    };
    Plan { mods, merged_dir: crate::text::copy_string(&config.merged_dir), profile }
}


// --- reading back a written mod.ini ----------------------------------------------------

/// The entry of a field that is left out when empty.
pub open spec fn field_entry(key: Seq<char>, value: Seq<char>) -> Seq<SpecEntry> {
    if value.len() > 0 {
        seq![(key, value)]
    } else {
        Seq::empty()
    }
}

/// The name a `mod.ini` text gives (empty when there is none).
pub open spec fn name_value(i: ModInfoView) -> Seq<char> {
    match i.name {
        Some(n) => n,
        None => Seq::empty(),
    }
}

/// The entries written after the extra ones: settings other than the defaults.
pub open spec fn flag_entries(i: ModInfoView) -> Seq<SpecEntry> {
    (if !i.enabled {
        seq![("enabled"@, "0"@)]
    } else {
        Seq::empty()
    }) + (if i.priority != 100 {
        seq![("priority"@, signed_text(i.priority as int))]
    } else {
        Seq::empty()
    }) + (if !i.load_plugins {
        seq![("plugins"@, "0"@)]
    } else {
        Seq::empty()
    })
}

/// The entries of the top section of the `mod.ini` text of `i`, in order.
pub open spec fn info_entries(i: ModInfoView) -> Seq<SpecEntry> {
    seq![("name"@, name_value(i))] + field_entry("version"@, i.version) + field_entry(
        "author"@,
        i.author,
    ) + field_entry("description"@, i.description) + field_entry("url"@, i.url) + field_entry(
        "thumbnail"@,
        i.thumbnail,
    ) + i.extra + flag_entries(i)
}

/// The `[options]` section of the `mod.ini` text of `i`, after a blank line.
pub open spec fn options_section_lines(i: ModInfoView) -> Seq<Seq<char>> {
    if i.options.len() > 0 {
        seq![Seq::<char>::empty(), "[options]"@] + crate::ini::entry_lines(
            crate::config::option_entries(Seq::empty(), i.options),
        )
    } else {
        Seq::empty()
    }
}

/// The lines of the `mod.ini` text of `i`.
pub open spec fn info_lines(i: ModInfoView) -> Seq<Seq<char>> {
    crate::ini::entry_lines(info_entries(i)) + options_section_lines(i)
}

proof fn lemma_entries_text(a: Seq<SpecEntry>, b: Seq<SpecEntry>)
    ensures
        crate::text::terminated(crate::ini::entry_lines(a + b)) == crate::text::terminated(
            crate::ini::entry_lines(a),
        ) + crate::text::terminated(crate::ini::entry_lines(b)),
{
    crate::ini::lemma_entry_lines_concat(a, b);
    crate::text::lemma_terminated_concat(crate::ini::entry_lines(a), crate::ini::entry_lines(b));
}

proof fn lemma_one_entry_text(key: Seq<char>, value: Seq<char>)
    ensures
        crate::text::terminated(crate::ini::entry_lines(seq![(key, value)])) == ini_line(key, value),
        crate::text::terminated(crate::ini::entry_lines(Seq::<SpecEntry>::empty())) == Seq::<char>::empty(),
{
    reveal_strlit("\n");
    reveal_strlit(" = ");
    let ls = crate::ini::entry_lines(seq![(key, value)]);
    assert(ls =~= seq![crate::ini::entry_line(key, value)]);
    assert(ls.drop_last() =~= Seq::<Seq<char>>::empty());
    assert(crate::ini::entry_lines(Seq::<SpecEntry>::empty()) =~= Seq::<Seq<char>>::empty());
    assert(crate::text::terminated(Seq::<Seq<char>>::empty()) == Seq::<char>::empty());
    assert("\n"@ =~= seq!['\n']);
    assert(crate::text::terminated(ls) =~= ini_line(key, value));
}

proof fn lemma_extra_text(extra: Seq<SpecEntry>)
    ensures
        extra_lines(extra) == crate::text::terminated(crate::ini::entry_lines(extra)),
    decreases extra.len(),
{
    lemma_one_entry_text(Seq::empty(), Seq::empty());
    if extra.len() > 0 {
        let front = extra.drop_last();
        let e = extra.last();
        lemma_extra_text(front);
        lemma_one_entry_text(e.0, e.1);
        lemma_entries_text(front, seq![e]);
        assert(front + seq![e] =~= extra);
    }
}

proof fn lemma_options_section_text(i: ModInfoView)
    ensures
        (if i.options.len() > 0 {
            "\n[options]\n"@ + option_lines(Seq::empty(), i.options)
        } else {
            Seq::<char>::empty()
        }) == crate::text::terminated(options_section_lines(i)),
{
    if i.options.len() > 0 {
        reveal_strlit("\n[options]\n");
        reveal_strlit("[options]");
        let head = seq![Seq::<char>::empty(), "[options]"@];
        let es = crate::config::option_entries(Seq::empty(), i.options);
        crate::profile::lemma_option_lines_text(Seq::empty(), i.options);
        assert(crate::profile::group_lines(Seq::empty(), i.options) =~= crate::ini::entry_lines(es));
        crate::text::lemma_terminated_concat(head, crate::ini::entry_lines(es));
        assert(head.drop_last() =~= seq![Seq::<char>::empty()]);
        assert(head.drop_last().drop_last() =~= Seq::<Seq<char>>::empty());
        assert(crate::text::terminated(Seq::<Seq<char>>::empty()) == Seq::<char>::empty());
        assert(crate::text::terminated(head.drop_last()) =~= seq!['\n']);
        assert(head.last() == "[options]"@);
        assert(crate::text::terminated(head) =~= "\n[options]\n"@);
    } else {
        assert(options_section_lines(i) =~= Seq::<Seq<char>>::empty());
    }
}

/// The `mod.ini` text of `i`, line by line.
#[verifier::rlimit(40)]
proof fn lemma_info_text(i: ModInfoView)
    ensures
        info_text(i) == crate::text::terminated(info_lines(i)),
{
    reveal_strlit("0");
    let t = |es: Seq<SpecEntry>| crate::text::terminated(crate::ini::entry_lines(es));
    lemma_one_entry_text("name"@, name_value(i));
    lemma_one_entry_text("version"@, i.version);
    lemma_one_entry_text("author"@, i.author);
    lemma_one_entry_text("description"@, i.description);
    lemma_one_entry_text("url"@, i.url);
    lemma_one_entry_text("thumbnail"@, i.thumbnail);
    lemma_one_entry_text("enabled"@, "0"@);
    lemma_one_entry_text("priority"@, signed_text(i.priority as int));
    lemma_one_entry_text("plugins"@, "0"@);
    lemma_extra_text(i.extra);
    let p1 = seq![("name"@, name_value(i))];
    let p2 = field_entry("version"@, i.version);
    let p3 = field_entry("author"@, i.author);
    let p4 = field_entry("description"@, i.description);
    let p5 = field_entry("url"@, i.url);
    let p6 = field_entry("thumbnail"@, i.thumbnail);
    let f1 = if !i.enabled { seq![("enabled"@, "0"@)] } else { Seq::<SpecEntry>::empty() };
    let f2 = if i.priority != 100 {
        seq![("priority"@, signed_text(i.priority as int))]
    } else {
        Seq::<SpecEntry>::empty()
    };
    let f3 = if !i.load_plugins { seq![("plugins"@, "0"@)] } else { Seq::<SpecEntry>::empty() };
    lemma_entries_text(f1, f2);
    lemma_entries_text(f1 + f2, f3);
    lemma_entries_text(p1, p2);
    lemma_entries_text(p1 + p2, p3);
    lemma_entries_text(p1 + p2 + p3, p4);
    lemma_entries_text(p1 + p2 + p3 + p4, p5);
    lemma_entries_text(p1 + p2 + p3 + p4 + p5, p6);
    lemma_entries_text(p1 + p2 + p3 + p4 + p5 + p6, i.extra);
    lemma_entries_text(p1 + p2 + p3 + p4 + p5 + p6 + i.extra, f1 + f2 + f3);
    assert(t(p2) == field_line("version"@, i.version));
    assert(t(p3) == field_line("author"@, i.author));
    assert(t(p4) == field_line("description"@, i.description));
    assert(t(p5) == field_line("url"@, i.url));
    assert(t(p6) == field_line("thumbnail"@, i.thumbnail));
    assert(info_entries(i) == p1 + p2 + p3 + p4 + p5 + p6 + i.extra + (f1 + f2 + f3)) by {
        assert(flag_entries(i) == f1 + f2 + f3);
    }
    lemma_options_section_text(i);
    crate::text::lemma_terminated_concat(crate::ini::entry_lines(info_entries(i)), options_section_lines(i));
    assert(info_text(i) =~= crate::text::terminated(info_lines(i)));
}


/// An extra entry reads back as one: its key names no field.
pub open spec fn extra_entry(e: SpecEntry) -> bool {
    info_key(lower_seq(e.0)) == -1
}

/// A description its `mod.ini` text keeps whole: a name that is not empty
/// (or none at all), every value on one
/// line without white space around it, extra entries that read back as
/// extra entries, option groups sorted and each named by a key a line keeps.
pub open spec fn writable_info(i: ModInfoView) -> bool {
    &&& i.name is Some ==> name_value(i).len() > 0
    &&& crate::ini::entry_value(name_value(i))
    &&& crate::ini::entry_value(i.version)
    &&& crate::ini::entry_value(i.author)
    &&& crate::ini::entry_value(i.description)
    &&& crate::ini::entry_value(i.url)
    &&& crate::ini::entry_value(i.thumbnail)
    &&& crate::ini::writable_entries(i.extra)
    &&& forall|k: int| 0 <= k < i.extra.len() ==> extra_entry(#[trigger] i.extra[k])
    &&& crate::options::sorted_groups(i.options)
    &&& forall|k: int|
        0 <= k < i.options.len() ==> crate::config::writable_group(#[trigger] i.options[k])
            && crate::ini::entry_key(i.options[k].0)
}

/// The keys the `mod.ini` text is written with.
proof fn lemma_info_keys()
    ensures
        crate::ini::entry_key("name"@),
        crate::ini::entry_key("version"@),
        crate::ini::entry_key("author"@),
        crate::ini::entry_key("description"@),
        crate::ini::entry_key("url"@),
        crate::ini::entry_key("thumbnail"@),
        crate::ini::entry_key("enabled"@),
        crate::ini::entry_key("priority"@),
        crate::ini::entry_key("plugins"@),
        crate::ini::entry_value("0"@),
        info_key(lower_seq("name"@)) == 0,
        info_key(lower_seq("version"@)) == 1,
        info_key(lower_seq("author"@)) == 2,
        info_key(lower_seq("description"@)) == 3,
        info_key(lower_seq("url"@)) == 4,
        info_key(lower_seq("thumbnail"@)) == 5,
        info_key(lower_seq("enabled"@)) == 6,
        info_key(lower_seq("priority"@)) == 7,
        info_key(lower_seq("plugins"@)) == 8,
{
    reveal_strlit("name");
    reveal_strlit("version");
    reveal_strlit("author");
    reveal_strlit("description");
    reveal_strlit("url");
    reveal_strlit("thumbnail");
    reveal_strlit("enabled");
    reveal_strlit("priority");
    reveal_strlit("plugins");
    reveal_strlit("0");
    assert(lower_seq("name"@) =~= "name"@);
    assert(lower_seq("version"@) =~= "version"@);
    assert(lower_seq("author"@) =~= "author"@);
    assert(lower_seq("description"@) =~= "description"@);
    assert(lower_seq("url"@) =~= "url"@);
    assert(lower_seq("thumbnail"@) =~= "thumbnail"@);
    assert(lower_seq("enabled"@) =~= "enabled"@);
    assert(lower_seq("priority"@) =~= "priority"@);
    assert(lower_seq("plugins"@) =~= "plugins"@);
    assert("enabled"@[0] != "version"@[0]);
    assert("plugins"@[0] != "version"@[0]);
    assert("plugins"@[0] != "enabled"@[0]);
    assert("0"@.len() == 1);
}

/// A number written in decimal is a value a line keeps, and reads back.
proof fn lemma_signed_value(n: i32)
    ensures
        crate::ini::entry_value(signed_text(n as int)),
        parse_i32_spec(trim(signed_text(n as int))) == Some(n as int),
{
    let t = signed_text(n as int);
    if n < 0 {
        let d = crate::text::decimal_text((-n) as nat);
        crate::text::lemma_decimal_text((-n) as nat);
        assert(t == seq!['-'] + d);
        assert forall|k: int| 1 <= k < t.len() implies crate::text::is_digit(#[trigger] t[k]) by {
            assert(t[k] == d[k - 1]);
        }
        assert(t.skip(1) =~= d);
    } else {
        crate::text::lemma_decimal_text(n as nat);
        crate::text::lemma_parse_decimal_text(n as nat, 0x7fff_ffff);
        assert(crate::text::is_digit(t[0]));
    }
    assert(crate::text::is_digit(t.last()));
    assert(crate::text::trimmed(t));
    crate::text::lemma_trim_trimmed(t);
}


/// The sections the `mod.ini` text of `i` is read as.
pub open spec fn info_sections(i: ModInfoView) -> Seq<(Seq<char>, Seq<SpecEntry>)> {
    seq![(Seq::<char>::empty(), info_entries(i))] + (if i.options.len() > 0 {
        seq![("options"@, crate::config::option_entries(Seq::empty(), i.options))]
    } else {
        Seq::empty()
    })
}

proof fn lemma_writable_concat(a: Seq<SpecEntry>, b: Seq<SpecEntry>)
    requires
        crate::ini::writable_entries(a),
        crate::ini::writable_entries(b),
    ensures
        crate::ini::writable_entries(a + b),
{
    assert forall|k: int| 0 <= k < (a + b).len() implies crate::ini::entry_key(#[trigger] (a + b)[k].0)
        && crate::ini::entry_value((a + b)[k].1) by {
        if k < a.len() {
            assert((a + b)[k] == a[k]);
        } else {
            assert((a + b)[k] == b[k - a.len()]);
        }
    }
}

proof fn lemma_writable_one(key: Seq<char>, value: Seq<char>)
    requires
        crate::ini::entry_key(key),
        crate::ini::entry_value(value),
    ensures
        crate::ini::writable_entries(seq![(key, value)]),
        crate::ini::writable_entries(Seq::<SpecEntry>::empty()),
{
}

proof fn lemma_info_entries_writable(i: ModInfoView)
    requires
        writable_info(i),
    ensures
        crate::ini::writable_entries(info_entries(i)),
{
    lemma_info_keys();
    lemma_signed_value(i.priority);
    lemma_writable_one("name"@, name_value(i));
    lemma_writable_one("version"@, i.version);
    lemma_writable_one("author"@, i.author);
    lemma_writable_one("description"@, i.description);
    lemma_writable_one("url"@, i.url);
    lemma_writable_one("thumbnail"@, i.thumbnail);
    lemma_writable_one("enabled"@, "0"@);
    lemma_writable_one("priority"@, signed_text(i.priority as int));
    lemma_writable_one("plugins"@, "0"@);
    let p1 = seq![("name"@, name_value(i))];
    let p2 = field_entry("version"@, i.version);
    let p3 = field_entry("author"@, i.author);
    let p4 = field_entry("description"@, i.description);
    let p5 = field_entry("url"@, i.url);
    let p6 = field_entry("thumbnail"@, i.thumbnail);
    let f1 = if !i.enabled { seq![("enabled"@, "0"@)] } else { Seq::<SpecEntry>::empty() };
    let f2 = if i.priority != 100 {
        seq![("priority"@, signed_text(i.priority as int))]
    } else {
        Seq::<SpecEntry>::empty()
    };
    let f3 = if !i.load_plugins { seq![("plugins"@, "0"@)] } else { Seq::<SpecEntry>::empty() };
    lemma_writable_concat(f1, f2);
    lemma_writable_concat(f1 + f2, f3);
    lemma_writable_concat(p1, p2);
    lemma_writable_concat(p1 + p2, p3);
    lemma_writable_concat(p1 + p2 + p3, p4);
    lemma_writable_concat(p1 + p2 + p3 + p4, p5);
    lemma_writable_concat(p1 + p2 + p3 + p4 + p5, p6);
    lemma_writable_concat(p1 + p2 + p3 + p4 + p5 + p6, i.extra);
    lemma_writable_concat(p1 + p2 + p3 + p4 + p5 + p6 + i.extra, f1 + f2 + f3);
    assert(flag_entries(i) == f1 + f2 + f3);
}

/// The `mod.ini` text of a writable description, read: its top section
/// holds the entries written, then come its option selections.
proof fn lemma_parse_info(i: ModInfoView)
    requires
        writable_info(i),
    ensures
        parse_lines(info_lines(i)) == info_sections(i),
        forall|k: int| 0 <= k < info_lines(i).len() ==> crate::text::plain_line(#[trigger] info_lines(i)[k]),
{
    let es = info_entries(i);
    lemma_info_entries_writable(i);
    let empty = Seq::<Seq<char>>::empty();
    crate::ini::lemma_parse_entries(empty, es);
    let top = crate::ini::entry_lines(es);
    assert(empty + top =~= top);
    let start = seq![(Seq::<char>::empty(), Seq::<SpecEntry>::empty())];
    assert(parse_lines(empty) == start);
    assert(Seq::<SpecEntry>::empty() + es =~= es);
    assert(crate::ini::with_entries(start, es) =~= seq![(Seq::<char>::empty(), es)]);
    if i.options.len() > 0 {
        reveal_strlit("[options]");
        reveal_strlit("options");
        let oe = crate::config::option_entries(Seq::empty(), i.options);
        assert(crate::ini::writable_entries(oe)) by {
            assert forall|k: int| 0 <= k < oe.len() implies crate::ini::entry_key(#[trigger] oe[k].0)
                && crate::ini::entry_value(oe[k].1) by {
                let g = i.options[k];
                assert(crate::config::writable_group(g) && crate::ini::entry_key(g.0));
                assert(oe[k].0 =~= g.0);
                crate::config::lemma_choices_value(g.1);
            }
        }
        crate::ini::lemma_skipped_line(top, Seq::<char>::empty());
        let a = top.push(Seq::<char>::empty());
        assert("[options]"@ =~= seq!['['] + "options"@ + seq![']']);
        assert(lower_seq("options"@) =~= "options"@);
        crate::ini::lemma_header_line(a, "options"@);
        let b = a.push("[options]"@);
        crate::ini::lemma_parse_entries(b, oe);
        assert(info_lines(i) =~= b + crate::ini::entry_lines(oe));
        let after_header = seq![(Seq::<char>::empty(), es), ("options"@, Seq::<SpecEntry>::empty())];
        assert(parse_lines(b) =~= after_header);
        assert(Seq::<SpecEntry>::empty() + oe =~= oe);
        assert(crate::ini::with_entries(after_header, oe) =~= info_sections(i));
        let ls = info_lines(i);
        assert forall|k: int| 0 <= k < ls.len() implies crate::text::plain_line(#[trigger] ls[k]) by {
            if k < top.len() {
                assert(ls[k] == top[k]);
            } else if k == top.len() {
                assert(ls[k] =~= Seq::<char>::empty());
            } else if k == top.len() + 1 {
                assert(ls[k] == seq!['['] + "options"@ + seq![']']);
            } else {
                assert(ls[k] == crate::ini::entry_lines(oe)[k - top.len() - 2]);
            }
        }
    } else {
        assert(info_lines(i) =~= top);
        assert(info_sections(i) =~= seq![(Seq::<char>::empty(), es)]);
    }
}


proof fn lemma_apply_concat(s: ModInfoView, a: Seq<SpecEntry>, b: Seq<SpecEntry>)
    ensures
        apply_info_entries(s, a + b) == apply_info_entries(apply_info_entries(s, a), b),
    decreases b.len(),
{
    if b.len() == 0 {
        assert(a + b =~= a);
    } else {
        lemma_apply_concat(s, a, b.drop_last());
        assert((a + b).drop_last() =~= a + b.drop_last());
        assert((a + b).last() == b.last());
    }
}

proof fn lemma_apply_extras(s: ModInfoView, x: Seq<SpecEntry>)
    requires
        forall|k: int| 0 <= k < x.len() ==> extra_entry(#[trigger] x[k]),
    ensures
        apply_info_entries(s, x) == (ModInfoView { extra: s.extra + x, ..s }),
    decreases x.len(),
{
    if x.len() == 0 {
        assert(s.extra + x =~= s.extra);
    } else {
        let front = x.drop_last();
        assert forall|k: int| 0 <= k < front.len() implies extra_entry(#[trigger] front[k]) by {
            assert(front[k] == x[k]);
        }
        lemma_apply_extras(s, front);
        assert(extra_entry(x[x.len() - 1]));
        assert((s.extra + front).push(x.last()) =~= s.extra + x);
    }
}

/// "0" reads as false.
proof fn lemma_zero_false(fallback: bool)
    ensures
        parse_bool_spec("0"@, fallback) == false,
{
    reveal_strlit("0");
    reveal_strlit("1");
    reveal_strlit("true");
    reveal_strlit("yes");
    reveal_strlit("on");
    let t = "0"@;
    assert(crate::text::trimmed(t));
    crate::text::lemma_trim_trimmed(t);
    assert(lower_seq(t) =~= t);
    assert(t != "1"@) by {
        assert(t[0] != "1"@[0]);
    }
    assert(t != "true"@);
    assert(t != "yes"@);
    assert(t != "on"@);
}

/// A field left out when empty, read over a description that holds it
/// empty: the description with the field's value.
proof fn lemma_apply_fields(i: ModInfoView)
    requires
        writable_info(i),
    ensures
        apply_info_entries(
            default_info(),
            seq![("name"@, name_value(i))] + field_entry("version"@, i.version) + field_entry(
                "author"@,
                i.author,
            ) + field_entry("description"@, i.description) + field_entry("url"@, i.url)
                + field_entry("thumbnail"@, i.thumbnail),
        ) == (ModInfoView {
            name: i.name,
            version: i.version,
            author: i.author,
            description: i.description,
            url: i.url,
            thumbnail: i.thumbnail,
            ..default_info()
        }),
{
    lemma_info_keys();
    let p1 = seq![("name"@, name_value(i))];
    let p2 = field_entry("version"@, i.version);
    let p3 = field_entry("author"@, i.author);
    let p4 = field_entry("description"@, i.description);
    let p5 = field_entry("url"@, i.url);
    let p6 = field_entry("thumbnail"@, i.thumbnail);
    let d = default_info();
    assert(p1.drop_last() =~= Seq::<SpecEntry>::empty());
    let s1 = ModInfoView { name: i.name, ..d };
    assert(apply_info_entries(d, Seq::<SpecEntry>::empty()) == d);
    assert(p1.last() == ("name"@, name_value(i)));
    if i.name is Some {
        assert(i.name == Some(name_value(i)));
    } else {
        assert(name_value(i).len() == 0);
    }
    assert(apply_info(d, "name"@, name_value(i)) == s1);
    assert(apply_info_entries(d, p1) == s1);
    lemma_apply_concat(d, p1, p2);
    let s2 = ModInfoView { version: i.version, ..s1 };
    assert(apply_info_entries(s1, p2) == s2) by {
        if i.version.len() > 0 {
            assert(p2.drop_last() =~= Seq::<SpecEntry>::empty());
            assert(apply_info_entries(s1, Seq::<SpecEntry>::empty()) == s1);
            assert(apply_info(s1, "version"@, i.version) == s2);
        } else {
            assert(p2 =~= Seq::<SpecEntry>::empty());
            assert(i.version =~= Seq::<char>::empty());
        }
    }
    lemma_apply_concat(d, p1 + p2, p3);
    let s3 = ModInfoView { author: i.author, ..s2 };
    assert(apply_info_entries(s2, p3) == s3) by {
        if i.author.len() > 0 {
            assert(p3.drop_last() =~= Seq::<SpecEntry>::empty());
            assert(apply_info_entries(s2, Seq::<SpecEntry>::empty()) == s2);
            assert(apply_info(s2, "author"@, i.author) == s3);
        } else {
            assert(p3 =~= Seq::<SpecEntry>::empty());
            assert(i.author =~= Seq::<char>::empty());
        }
    }
    lemma_apply_concat(d, p1 + p2 + p3, p4);
    let s4 = ModInfoView { description: i.description, ..s3 };
    assert(apply_info_entries(s3, p4) == s4) by {
        if i.description.len() > 0 {
            assert(p4.drop_last() =~= Seq::<SpecEntry>::empty());
            assert(apply_info_entries(s3, Seq::<SpecEntry>::empty()) == s3);
            assert(apply_info(s3, "description"@, i.description) == s4);
        } else {
            assert(p4 =~= Seq::<SpecEntry>::empty());
            assert(i.description =~= Seq::<char>::empty());
        }
    }
    lemma_apply_concat(d, p1 + p2 + p3 + p4, p5);
    let s5 = ModInfoView { url: i.url, ..s4 };
    assert(apply_info_entries(s4, p5) == s5) by {
        if i.url.len() > 0 {
            assert(p5.drop_last() =~= Seq::<SpecEntry>::empty());
            assert(apply_info_entries(s4, Seq::<SpecEntry>::empty()) == s4);
            assert(apply_info(s4, "url"@, i.url) == s5);
        } else {
            assert(p5 =~= Seq::<SpecEntry>::empty());
            assert(i.url =~= Seq::<char>::empty());
        }
    }
    lemma_apply_concat(d, p1 + p2 + p3 + p4 + p5, p6);
    let s6 = ModInfoView { thumbnail: i.thumbnail, ..s5 };
    assert(apply_info_entries(s5, p6) == s6) by {
        if i.thumbnail.len() > 0 {
            assert(p6.drop_last() =~= Seq::<SpecEntry>::empty());
            assert(apply_info_entries(s5, Seq::<SpecEntry>::empty()) == s5);
            assert(apply_info(s5, "thumbnail"@, i.thumbnail) == s6);
        } else {
            assert(p6 =~= Seq::<SpecEntry>::empty());
            assert(i.thumbnail =~= Seq::<char>::empty());
        }
    }
}

/// The settings written after the extra entries, read.
proof fn lemma_apply_flags(s: ModInfoView, i: ModInfoView)
    requires
        s.enabled,
        s.priority == 100,
        s.load_plugins,
    ensures
        apply_info_entries(s, flag_entries(i)) == (ModInfoView {
            enabled: i.enabled,
            priority: i.priority,
            load_plugins: i.load_plugins,
            ..s
        }),
{
    lemma_info_keys();
    lemma_signed_value(i.priority);
    lemma_zero_false(true);
    let f1 = if !i.enabled { seq![("enabled"@, "0"@)] } else { Seq::<SpecEntry>::empty() };
    let f2 = if i.priority != 100 {
        seq![("priority"@, signed_text(i.priority as int))]
    } else {
        Seq::<SpecEntry>::empty()
    };
    let f3 = if !i.load_plugins { seq![("plugins"@, "0"@)] } else { Seq::<SpecEntry>::empty() };
    assert(flag_entries(i) == f1 + f2 + f3);
    lemma_apply_concat(s, f1 + f2, f3);
    lemma_apply_concat(s, f1, f2);
    let t1 = ModInfoView { enabled: i.enabled, ..s };
    assert(apply_info_entries(s, f1) == t1) by {
        if !i.enabled {
            assert(f1.drop_last() =~= Seq::<SpecEntry>::empty());
            assert(apply_info_entries(s, Seq::<SpecEntry>::empty()) == s);
            assert(apply_info(s, "enabled"@, "0"@) == t1);
        } else {
            assert(f1 =~= Seq::<SpecEntry>::empty());
        }
    }
    let t2 = ModInfoView { priority: i.priority, ..t1 };
    assert(apply_info_entries(t1, f2) == t2) by {
        if i.priority != 100 {
            assert(f2.drop_last() =~= Seq::<SpecEntry>::empty());
            assert(apply_info_entries(t1, Seq::<SpecEntry>::empty()) == t1);
            assert((i.priority as int) as i32 == i.priority);
            assert(apply_info(t1, "priority"@, signed_text(i.priority as int)) == t2);
        } else {
            assert(f2 =~= Seq::<SpecEntry>::empty());
        }
    }
    let t3 = ModInfoView { load_plugins: i.load_plugins, ..t2 };
    assert(apply_info_entries(t2, f3) == t3) by {
        if !i.load_plugins {
            assert(f3.drop_last() =~= Seq::<SpecEntry>::empty());
            assert(apply_info_entries(t2, Seq::<SpecEntry>::empty()) == t2);
            assert(apply_info(t2, "plugins"@, "0"@) == t3);
        } else {
            assert(f3 =~= Seq::<SpecEntry>::empty());
        }
    }
}


/// The top section of a written description, read over the defaults: the
/// description but for its option selections.
proof fn lemma_apply_info(i: ModInfoView)
    requires
        writable_info(i),
    ensures
        apply_info_entries(default_info(), info_entries(i)) == (ModInfoView {
            options: Seq::empty(),
            ..i
        }),
{
    let d = default_info();
    let fields = seq![("name"@, name_value(i))] + field_entry("version"@, i.version) + field_entry(
        "author"@,
        i.author,
    ) + field_entry("description"@, i.description) + field_entry("url"@, i.url) + field_entry(
        "thumbnail"@,
        i.thumbnail,
    );
    assert(info_entries(i) == fields + i.extra + flag_entries(i));
    lemma_apply_concat(d, fields + i.extra, flag_entries(i));
    lemma_apply_concat(d, fields, i.extra);
    lemma_apply_fields(i);
    let sf = ModInfoView {
        name: i.name,
        version: i.version,
        author: i.author,
        description: i.description,
        url: i.url,
        thumbnail: i.thumbnail,
        ..d
    };
    lemma_apply_extras(sf, i.extra);
    assert(sf.extra + i.extra =~= i.extra);
    let sx = ModInfoView { extra: i.extra, ..sf };
    lemma_apply_flags(sx, i);
}

/// A mod's description written by `to_ini` and read back by `parse` is the
/// description written, for every description whose name (if any) is not
/// empty, whose values each stay on their line without white space around
/// them, whose extra entries name no field, and whose option groups are
/// sorted and named by keys a line keeps.
pub proof fn lemma_info_round_trip(i: ModInfoView)
    requires
        writable_info(i),
    ensures
        info_of(info_text(i)) == i,
{
    reveal_strlit("options");
    lemma_info_text(i);
    lemma_parse_info(i);
    crate::text::lemma_lines_terminated(info_lines(i));
    lemma_apply_info(i);
    let d = default_info();
    let ss = info_sections(i);
    let t = ModInfoView { options: Seq::empty(), ..i };
    assert(apply_info_sections(d, Seq::<(Seq<char>, Seq<SpecEntry>)>::empty()) == d);
    let first = seq![(Seq::<char>::empty(), info_entries(i))];
    assert(first.drop_last() =~= Seq::<(Seq<char>, Seq<SpecEntry>)>::empty());
    assert(apply_info_sections(d, first) == t);
    if i.options.len() > 0 {
        let oe = crate::config::option_entries(Seq::empty(), i.options);
        assert(ss =~= first.push(("options"@, oe)));
        assert(ss.drop_last() =~= first);
        assert("options"@ != Seq::<char>::empty()) by {
            assert("options"@.len() == 7);
        }
        assert forall|k: int| 0 <= k < i.options.len() implies crate::config::writable_group(
            #[trigger] i.options[k],
        ) by {}
        assert(options_of(Seq::<SpecEntry>::empty(), Seq::empty()) == Seq::<SpecGroup>::empty());
        crate::config::lemma_options_written(Seq::empty(), Seq::empty(), i.options);
        assert(Seq::<SpecEntry>::empty() + oe =~= oe);
        assert(apply_info_sections(d, ss) == ModInfoView { options: i.options, ..t });
    } else {
        assert(ss =~= first);
        assert(i.options =~= Seq::<SpecGroup>::empty());
    }
}

proof fn lemma_info_keys_differ(a: Seq<char>, b: Seq<char>, i: int)
    requires
        0 <= i < a.len(),
        i < b.len(),
        a[i] != b[i],
    ensures
        a != b,
{
}

proof fn lemma_info_line_name(i: ModInfoView, key: Seq<char>, value: Seq<char>)
    requires
        lower_seq(key) == "name"@,
    ensures
        apply_info(i, key, value) == (if value.len() > 0 {
            ModInfoView { name: Some(value), ..i }
        } else {
            i
        }),
{
    reveal_strlit("name");
    assert(info_key("name"@) == 0);
}

proof fn lemma_info_line_version(i: ModInfoView, key: Seq<char>, value: Seq<char>)
    requires
        lower_seq(key) == "version"@,
    ensures
        apply_info(i, key, value) == (ModInfoView { version: value, ..i }),
{
    reveal_strlit("version");
    reveal_strlit("name");
    assert("version"@.len() == 7 && "name"@.len() == 4);
    assert(info_key("version"@) == 1);
}

proof fn lemma_info_line_author(i: ModInfoView, key: Seq<char>, value: Seq<char>)
    requires
        lower_seq(key) == "author"@,
    ensures
        apply_info(i, key, value) == (ModInfoView { author: value, ..i }),
{
    reveal_strlit("author");
    reveal_strlit("name");
    assert("author"@.len() == 6 && "name"@.len() == 4);
    reveal_strlit("version");
    assert("author"@.len() == 6 && "version"@.len() == 7);
    assert(info_key("author"@) == 2);
}

proof fn lemma_info_line_description(i: ModInfoView, key: Seq<char>, value: Seq<char>)
    requires
        lower_seq(key) == "description"@,
    ensures
        apply_info(i, key, value) == (ModInfoView { description: value, ..i }),
{
    reveal_strlit("description");
    reveal_strlit("name");
    assert("description"@.len() == 11 && "name"@.len() == 4);
    reveal_strlit("version");
    assert("description"@.len() == 11 && "version"@.len() == 7);
    reveal_strlit("author");
    assert("description"@.len() == 11 && "author"@.len() == 6);
    assert(info_key("description"@) == 3);
}

proof fn lemma_info_line_url(i: ModInfoView, key: Seq<char>, value: Seq<char>)
    requires
        lower_seq(key) == "url"@,
    ensures
        apply_info(i, key, value) == (ModInfoView { url: value, ..i }),
{
    reveal_strlit("url");
    reveal_strlit("name");
    assert("url"@.len() == 3 && "name"@.len() == 4);
    reveal_strlit("version");
    assert("url"@.len() == 3 && "version"@.len() == 7);
    reveal_strlit("author");
    assert("url"@.len() == 3 && "author"@.len() == 6);
    reveal_strlit("description");
    assert("url"@.len() == 3 && "description"@.len() == 11);
    assert(info_key("url"@) == 4);
}

proof fn lemma_info_line_thumbnail(i: ModInfoView, key: Seq<char>, value: Seq<char>)
    requires
        lower_seq(key) == "thumbnail"@,
    ensures
        apply_info(i, key, value) == (ModInfoView { thumbnail: value, ..i }),
{
    reveal_strlit("thumbnail");
    reveal_strlit("name");
    assert("thumbnail"@.len() == 9 && "name"@.len() == 4);
    reveal_strlit("version");
    assert("thumbnail"@.len() == 9 && "version"@.len() == 7);
    reveal_strlit("author");
    assert("thumbnail"@.len() == 9 && "author"@.len() == 6);
    reveal_strlit("description");
    assert("thumbnail"@.len() == 9 && "description"@.len() == 11);
    reveal_strlit("url");
    assert("thumbnail"@.len() == 9 && "url"@.len() == 3);
    assert(info_key("thumbnail"@) == 5);
}

proof fn lemma_info_line_enabled(i: ModInfoView, key: Seq<char>, value: Seq<char>)
    requires
        lower_seq(key) == "enabled"@,
    ensures
        apply_info(i, key, value) == (ModInfoView { enabled: parse_bool_spec(value, i.enabled), ..i }),
{
    reveal_strlit("enabled");
    reveal_strlit("name");
    assert("enabled"@.len() == 7 && "name"@.len() == 4);
    reveal_strlit("version");
    assert("enabled"@[0] == 'e' && "version"@[0] == 'v');
    lemma_info_keys_differ("enabled"@, "version"@, 0);
    reveal_strlit("author");
    assert("enabled"@.len() == 7 && "author"@.len() == 6);
    reveal_strlit("description");
    assert("enabled"@.len() == 7 && "description"@.len() == 11);
    reveal_strlit("url");
    assert("enabled"@.len() == 7 && "url"@.len() == 3);
    reveal_strlit("thumbnail");
    assert("enabled"@.len() == 7 && "thumbnail"@.len() == 9);
    assert(info_key("enabled"@) == 6);
}

proof fn lemma_info_line_priority(i: ModInfoView, key: Seq<char>, value: Seq<char>)
    requires
        lower_seq(key) == "priority"@,
    ensures
        apply_info(i, key, value) == (ModInfoView {
            priority: match parse_i32_spec(trim(value)) {
                Some(p) => p as i32,
                None => i.priority,
            },
            ..i
        }),
{
    reveal_strlit("priority");
    reveal_strlit("name");
    assert("priority"@.len() == 8 && "name"@.len() == 4);
    reveal_strlit("version");
    assert("priority"@.len() == 8 && "version"@.len() == 7);
    reveal_strlit("author");
    assert("priority"@.len() == 8 && "author"@.len() == 6);
    reveal_strlit("description");
    assert("priority"@.len() == 8 && "description"@.len() == 11);
    reveal_strlit("url");
    assert("priority"@.len() == 8 && "url"@.len() == 3);
    reveal_strlit("thumbnail");
    assert("priority"@.len() == 8 && "thumbnail"@.len() == 9);
    reveal_strlit("enabled");
    assert("priority"@.len() == 8 && "enabled"@.len() == 7);
    assert(info_key("priority"@) == 7);
}

proof fn lemma_info_line_plugins(i: ModInfoView, key: Seq<char>, value: Seq<char>)
    requires
        lower_seq(key) == "plugins"@,
    ensures
        apply_info(i, key, value) == (ModInfoView { load_plugins: parse_bool_spec(value, i.load_plugins), ..i }),
{
    reveal_strlit("plugins");
    reveal_strlit("name");
    assert("plugins"@.len() == 7 && "name"@.len() == 4);
    reveal_strlit("version");
    assert("plugins"@[0] == 'p' && "version"@[0] == 'v');
    lemma_info_keys_differ("plugins"@, "version"@, 0);
    reveal_strlit("author");
    assert("plugins"@.len() == 7 && "author"@.len() == 6);
    reveal_strlit("description");
    assert("plugins"@.len() == 7 && "description"@.len() == 11);
    reveal_strlit("url");
    assert("plugins"@.len() == 7 && "url"@.len() == 3);
    reveal_strlit("thumbnail");
    assert("plugins"@.len() == 7 && "thumbnail"@.len() == 9);
    reveal_strlit("enabled");
    assert("plugins"@[0] == 'p' && "enabled"@[0] == 'e');
    lemma_info_keys_differ("plugins"@, "enabled"@, 0);
    reveal_strlit("priority");
    assert("plugins"@.len() == 7 && "priority"@.len() == 8);
    assert(info_key("plugins"@) == 8);
}

/// What a `key = value` line of a `mod.ini` sets (keys in any case): the
/// name when the value is not empty; the version, author, description,
/// link and thumbnail as written; whether the mod is enabled and whether
/// its plugins load as `parse_bool` reads the value, else unchanged; the
/// priority when the value is a 32-bit number, else unchanged; any other
/// key is kept, in order, with its value. Nothing else changes.
pub proof fn lemma_info_lines(i: ModInfoView, key: Seq<char>, value: Seq<char>)
    ensures
        lower_seq(key) == "name"@ ==> apply_info(i, key, value) == (if value.len() > 0 {
            ModInfoView { name: Some(value), ..i }
        } else {
            i
        }),
        lower_seq(key) == "version"@ ==> apply_info(i, key, value) == (ModInfoView { version: value, ..i }),
        lower_seq(key) == "author"@ ==> apply_info(i, key, value) == (ModInfoView { author: value, ..i }),
        lower_seq(key) == "description"@ ==> apply_info(i, key, value) == (ModInfoView { description: value, ..i }),
        lower_seq(key) == "url"@ ==> apply_info(i, key, value) == (ModInfoView { url: value, ..i }),
        lower_seq(key) == "thumbnail"@ ==> apply_info(i, key, value) == (ModInfoView { thumbnail: value, ..i }),
        lower_seq(key) == "enabled"@ ==> apply_info(i, key, value) == (ModInfoView { enabled: parse_bool_spec(value, i.enabled), ..i }),
        lower_seq(key) == "priority"@ ==> apply_info(i, key, value) == (ModInfoView {
            priority: match parse_i32_spec(trim(value)) {
                Some(p) => p as i32,
                None => i.priority,
            },
            ..i
        }),
        lower_seq(key) == "plugins"@ ==> apply_info(i, key, value) == (ModInfoView { load_plugins: parse_bool_spec(value, i.load_plugins), ..i }),
        lower_seq(key) != "name"@ && lower_seq(key) != "version"@ && lower_seq(key) != "author"@ && lower_seq(key) != "description"@ && lower_seq(key) != "url"@ && lower_seq(key) != "thumbnail"@ && lower_seq(key) != "enabled"@ && lower_seq(key) != "priority"@ && lower_seq(key) != "plugins"@ ==> apply_info(i, key, value) == (ModInfoView { extra: i.extra.push((key, value)), ..i }),
{
    if lower_seq(key) == "name"@ {
        lemma_info_line_name(i, key, value);
    }
    if lower_seq(key) == "version"@ {
        lemma_info_line_version(i, key, value);
    }
    if lower_seq(key) == "author"@ {
        lemma_info_line_author(i, key, value);
    }
    if lower_seq(key) == "description"@ {
        lemma_info_line_description(i, key, value);
    }
    if lower_seq(key) == "url"@ {
        lemma_info_line_url(i, key, value);
    }
    if lower_seq(key) == "thumbnail"@ {
        lemma_info_line_thumbnail(i, key, value);
    }
    if lower_seq(key) == "enabled"@ {
        lemma_info_line_enabled(i, key, value);
    }
    if lower_seq(key) == "priority"@ {
        lemma_info_line_priority(i, key, value);
    }
    if lower_seq(key) == "plugins"@ {
        lemma_info_line_plugins(i, key, value);
    }
}

} // verus!
