//! Merge orchestration, what it decides: the fingerprint of a plan, which
//! merge of the cache can be served, how a merge is named, in which language
//! texts are compared. Reading the game's files, merging and writing are the
//! caller's.

use vstd::prelude::*;
use vstd::utf8::encode_utf8;

use crate::cache::BUILDER_VERSION;
use crate::config::{
    Config, Locales, SpecLocales,
};
use crate::merge_cache::{
    locales_cover, locales_cover_spec, CachedMerge, Redirects, Served,
};
use crate::mods::{
    mixed, specs_view, Fingerprint, ModKind, ModSpec, ModSpecView, Plan, FNV_OFFSET,
};
use crate::options::{
    strings_view, OptionMap, SpecGroup,
};
use crate::text::{
    chars_of, decimal_text, ends_with, hex_text, join, join_strings, push_char, push_str,
    push_unsigned, signed_text, starts_with, string_of,
};

verus! {

/// What a merge ended with.
#[derive(Debug)]
pub struct Outcome {
    /// romfs-relative path and the SD path served instead, by romfs path.
    pub redirects: Redirects,
    /// (offset from the start of the main module, instruction bytes as a
    /// big endian value).
    pub patches: Vec<(u32, u32)>,
    pub failed: bool,
    /// Files merged this time (0 when a previous merge was reused).
    pub merged_files: usize,
    pub warnings: usize,
    /// A merge from the cache was served as it was.
    pub reused: bool,
    /// ... and it was not the last one made or used: it came back from the
    /// cache.
    pub from_cache: bool,
    /// Conflicts found between the mods.
    pub conflicts: usize,
    /// Cancelled by whoever was asked about the conflicts: the previous merge
    /// is left as it was.
    pub cancelled: bool,
    /// Why nothing is served, for whoever shows it to a user.
    pub error: Option<String>,
}

/// Nothing served, nothing failed.
pub open spec fn is_empty_outcome(o: Outcome) -> bool {
    &&& o.redirects@.len() == 0
    &&& o.patches@.len() == 0
    &&& !o.failed
    &&& o.merged_files == 0
    &&& o.warnings == 0
    &&& !o.reused
    &&& !o.from_cache
    &&& o.conflicts == 0
    &&& !o.cancelled
    &&& o.error is None
}

impl Default for Outcome {
    fn default() -> (o: Outcome)
        ensures
            is_empty_outcome(o),
    {
        Outcome {
            redirects: Redirects::new(),
            patches: Vec::new(),
            failed: false,
            merged_files: 0,
            warnings: 0,
            reused: false,
            from_cache: false,
            conflicts: 0,
            cancelled: false,
            error: None,
        }
    }
}

impl Outcome {
    /// Nothing served, because of `error`.
    pub fn failure(error: String) -> (o: Outcome)
        ensures
            o.failed,
            o.error == Some(error),
            o.redirects@.len() == 0,
            o.patches@.len() == 0,
            o.merged_files == 0 && o.warnings == 0 && o.conflicts == 0,
            !o.reused && !o.from_cache && !o.cancelled,
    {
        let mut o = Outcome::default();
        o.failed = true;
        o.error = Some(error);
        o
    }

    /// The merge cancelled over `conflicts` conflicts.
    pub fn cancelled(conflicts: usize) -> (o: Outcome)
        ensures
            o.cancelled,
            o.conflicts == conflicts,
            o.error matches Some(e) && e@ == "cancelled"@,
            !o.failed && !o.reused && !o.from_cache,
            o.redirects@.len() == 0,
            o.patches@.len() == 0,
            o.merged_files == 0 && o.warnings == 0,
    {
        let mut o = Outcome::default();
        o.cancelled = true;
        o.conflicts = conflicts;
        o.error = Some(crate::config::owned("cancelled"));
        o
    }

    /// A merge of the cache, served as it was.
    pub fn served(served: Served, from_cache: bool) -> (o: Outcome)
        ensures
            o.redirects@ == served.redirects@,
            o.patches@ == served.patches@,
            o.reused,
            o.from_cache == from_cache,
            !o.failed && !o.cancelled,
            o.merged_files == 0 && o.warnings == 0 && o.conflicts == 0,
            o.error is None,
    {
        let mut o = Outcome::default();
        o.redirects = served.redirects;
        o.patches = served.patches;
        o.reused = true;
        o.from_cache = from_cache;
        o
    }
}

// --- the fingerprint of a plan -------------------------------------------------------------

/// What `format!("{:?}", s)` gives for a string: `s` quoted, with quotes,
/// backslashes and unprintable characters escaped.
pub uninterp spec fn debug_text(s: Seq<char>) -> Seq<char>;

/// `<str as Debug>::fmt`, through `format!("{:?}", s)`.
#[verifier::external_body]
fn debug_string(s: &str) -> (r: String)
    ensures
        r@ == debug_text(s@),
{
    format!("{:?}", s)
}

/// The `Debug` text of a list of strings: `["a", "b"]`.
pub open spec fn list_debug(items: Seq<Seq<char>>) -> Seq<char> {
    "["@ + join(items.map_values(|s: Seq<char>| debug_text(s)), ", "@) + "]"@
}

/// The `Debug` text of option selections, as a map by group name:
/// `{"Group": ["a", "b"]}`.
pub open spec fn options_debug(groups: Seq<SpecGroup>) -> Seq<char> {
    "{"@ + join(
        groups.map_values(|g: SpecGroup| debug_text(g.0) + ": "@ + list_debug(g.1)),
        ", "@,
    ) + "}"@
}

/// The `Debug` text of a mod kind: its variant's name.
pub open spec fn kind_debug(kind: ModKind) -> Seq<char> {
    match kind {
        ModKind::Folder => "Folder"@,
        ModKind::Package => "Package"@,
        ModKind::Romfs => "Romfs"@,
    }
}

fn push_list_debug(out: &mut String, items: &Vec<String>)
    ensures
        final(out)@ == old(out)@ + list_debug(strings_view(items@)),
{
    let ghost v = strings_view(items@);
    let ghost start = out@;
    let mut pieces: Vec<String> = Vec::new();
    let mut i: usize = 0;
    while i < items.len()
        invariant
            i <= items.len(),
            v == strings_view(items@),
            strings_view(pieces@) == v.take(i as int).map_values(|s: Seq<char>| debug_text(s)),
        decreases items.len() - i,
    {
        let d = debug_string(items[i].as_str());
        let ghost before = strings_view(pieces@);
        pieces.push(d);
        proof {
            assert(v[i as int] == items@[i as int]@);
            assert(strings_view(pieces@) =~= before.push(debug_text(v[i as int])));
            assert(v.take(i + 1).map_values(|s: Seq<char>| debug_text(s)) =~= v.take(
                i as int,
            ).map_values(|s: Seq<char>| debug_text(s)).push(debug_text(v[i as int])));
        }
        i = i + 1;
    }
    assert(v.take(items.len() as int) =~= v);
    proof {
        reveal_strlit("[");
        reveal_strlit("]");
        reveal_strlit(", ");
    }
    let joined = join_strings(&pieces, ", ");
    assert(pieces@.map_values(|s: String| s@) =~= strings_view(pieces@));
    push_str(out, "[");
    push_str(out, joined.as_str());
    push_str(out, "]");
    assert(out@ =~= start + list_debug(v));
}

fn options_debug_text(options: &OptionMap) -> (r: String)
    ensures
        r@ == options_debug(options@),
{
    let ghost g = options@;
    let mut pieces: Vec<String> = Vec::new();
    let mut i: usize = 0;
    while i < options.len()
        invariant
            i <= options@.len(),
            g == options@,
            strings_view(pieces@) == g.take(i as int).map_values(
                |x: SpecGroup| debug_text(x.0) + ": "@ + list_debug(x.1),
            ),
        decreases options@.len() - i,
    {
        let (name, selected) = options.entry(i);
        let mut piece = debug_string(name.as_str());
        push_str(&mut piece, ": ");
        push_list_debug(&mut piece, selected);
        let ghost before = strings_view(pieces@);
        pieces.push(piece);
        proof {
            assert(strings_view(pieces@) =~= before.push(piece@));
            assert(g.take(i + 1).map_values(|x: SpecGroup| debug_text(x.0) + ": "@ + list_debug(x.1))
                =~= g.take(i as int).map_values(
                |x: SpecGroup| debug_text(x.0) + ": "@ + list_debug(x.1),
            ).push(debug_text(g[i as int].0) + ": "@ + list_debug(g[i as int].1)));
        }
        i = i + 1;
    }
    assert(g.take(options@.len() as int) =~= g);
    let joined = join_strings(&pieces, ", ");
    assert(pieces@.map_values(|s: String| s@) =~= strings_view(pieces@));
    let mut r = crate::config::owned("{");
    push_str(&mut r, joined.as_str());
    push_str(&mut r, "}");
    r
}

/// The four little-endian bytes of `n`.
pub open spec fn le4(n: u32) -> Seq<u8> {
    seq![(n & 0xff) as u8, ((n >> 8u32) & 0xff) as u8, ((n >> 16u32) & 0xff) as u8, (n >> 24u32) as u8]
}

fn le4_of(n: u32) -> (r: Vec<u8>)
    ensures
        r@ == le4(n),
{
    let mut r: Vec<u8> = Vec::new();
    r.push((n & 0xff) as u8);
    r.push(((n >> 8u32) & 0xff) as u8);
    r.push(((n >> 16u32) & 0xff) as u8);
    r.push((n >> 24u32) as u8);
    assert(r@ =~= le4(n));
    r
}

/// The text a mod's kind and options add to the fingerprint.
pub open spec fn spec_text(m: ModSpecView) -> Seq<char> {
    kind_debug(m.kind) + " "@ + options_debug(m.options)
}

/// The fingerprint after the mods `mods`, whose content fingerprints are
/// `contents`, from `h`.
pub open spec fn mods_fingerprint(h: u64, mods: Seq<ModSpecView>, contents: Seq<Seq<char>>) -> u64
    decreases mods.len(),
{
    if mods.len() == 0 {
        h
    } else {
        let before = mods_fingerprint(h, mods.drop_last(), contents.drop_last());
        let m = mods.last();
        mixed(
            mixed(
                mixed(mixed(before, encode_utf8(m.name)), le4(m.priority as u32)),
                encode_utf8(spec_text(m)),
            ),
            encode_utf8(contents.last()),
        )
    }
}

/// The part of a merge's fingerprint that comes from the mods and settings:
/// 16 hexadecimal digits, `-`, the number of mods.
pub open spec fn plan_fingerprint_spec(
    shop_param_limit: u32,
    mods: Seq<ModSpecView>,
    contents: Seq<Seq<char>>,
) -> Seq<char> {
    let start = mixed(
        mixed(FNV_OFFSET, encode_utf8("builder "@ + decimal_text(BUILDER_VERSION as nat))),
        le4(shop_param_limit),
    );
    hex_text(mods_fingerprint(start, mods, contents) as nat, 16) + "-"@ + decimal_text(mods.len())
}

/// The part of a merge's fingerprint that comes from the mods and settings.
/// `contents[i]` is the content fingerprint of `plan.mods[i]`. Languages are
/// not part of it: see `locales_cover`.
pub fn plan_fingerprint(config: &Config, plan: &Plan, contents: &Vec<String>) -> (r: String)
    requires
        contents@.len() == plan.mods@.len(),
    ensures
        r@ == plan_fingerprint_spec(
            config.shop_param_limit,
            specs_view(plan.mods@),
            strings_view(contents@),
        ),
{
    let ghost mods = specs_view(plan.mods@);
    let ghost cs = strings_view(contents@);
    let mut fingerprint = Fingerprint::default();
    let mut head = crate::config::owned("builder ");
    push_unsigned(&mut head, BUILDER_VERSION as u64);
    fingerprint.mix_str(head.as_str());
    let limit = le4_of(config.shop_param_limit);
    fingerprint.mix(limit.as_slice());
    let ghost start = fingerprint@;
    let mut i: usize = 0;
    while i < plan.mods.len()
        invariant
            i <= plan.mods@.len(),
            contents@.len() == plan.mods@.len(),
            mods == specs_view(plan.mods@),
            cs == strings_view(contents@),
            fingerprint@ == mods_fingerprint(start, mods.take(i as int), cs.take(i as int)),
        decreases plan.mods.len() - i,
    {
        mix_mod(&mut fingerprint, &plan.mods[i], contents[i].as_str());
        proof {
            assert(mods.take(i + 1).drop_last() =~= mods.take(i as int));
            assert(cs.take(i + 1).drop_last() =~= cs.take(i as int));
            assert(mods[i as int] == plan.mods@[i as int]@);
            assert(cs[i as int] == contents@[i as int]@);
        }
        i = i + 1;
    }
    assert(mods.take(plan.mods.len() as int) =~= mods);
    assert(cs.take(plan.mods.len() as int) =~= cs);
    let mut r = fingerprint.finish();
    proof {
        reveal_strlit("-");
    }
    push_char(&mut r, '-');
    push_unsigned(&mut r, plan.mods.len() as u64);
    r
}

/// One mod's part of the fingerprint.
fn mix_mod(fingerprint: &mut Fingerprint, spec: &ModSpec, content: &str)
    ensures
        final(fingerprint)@ == mixed(
            mixed(
                mixed(mixed(old(fingerprint)@, encode_utf8(spec@.name)), le4(spec@.priority as u32)),
                encode_utf8(spec_text(spec@)),
            ),
            encode_utf8(content@),
        ),
{
    fingerprint.mix_str(spec.name.as_str());
    let priority = le4_of(spec.priority as u32);
    fingerprint.mix(priority.as_slice());
    let mut text = string_of(chars_of(kind_name(spec.kind)).as_slice());
    proof {
        reveal_strlit(" ");
    }
    push_char(&mut text, ' ');
    let options = options_debug_text(&spec.options);
    push_str(&mut text, options.as_str());
    assert(text@ =~= spec_text(spec@));
    fingerprint.mix_str(text.as_str());
    fingerprint.mix_str(content);
}

fn kind_name(kind: ModKind) -> (r: &'static str)
    ensures
        r@ == kind_debug(kind),
{
    match kind {
        ModKind::Folder => "Folder",
        ModKind::Package => "Package",
        ModKind::Romfs => "Romfs",
    }
}

/// Whether the merge cache holds a merge of these mods and settings, which the
/// game would be served without merging: one of `entries` made from the same
/// plan with every language wanted. `contents[i]` is the content fingerprint
/// of `plan.mods[i]`; `detected` the language the console uses, if known.
pub open spec fn plan_merged_spec(
    config: Config,
    plan: Plan,
    contents: Seq<Seq<char>>,
    detected: Option<Seq<char>>,
    entries: Seq<CachedMerge>,
) -> bool {
    let stamp = plan_fingerprint_spec(config.shop_param_limit, specs_view(plan.mods@), contents);
    let wanted = crate::config::locales_spec(config.locales@, detected);
    plan.mods@.len() == 0 || exists|i: int|
        0 <= i < entries.len() && (#[trigger] entries[i]).plan@ == stamp && locales_cover_spec(
            entries[i].locales@,
            wanted,
        )
}

pub fn is_plan_merged(
    config: &Config,
    plan: &Plan,
    contents: &Vec<String>,
    detected: Option<&str>,
    entries: &Vec<CachedMerge>,
) -> (r: bool)
    requires
        contents@.len() == plan.mods@.len(),
    ensures
        r == plan_merged_spec(
            *config,
            *plan,
            strings_view(contents@),
            match detected {
                Some(d) => Some(d@),
                None => None,
            },
            entries@,
        ),
{
    if plan.mods.len() == 0 {
        return true;
    }
    let stamp = plan_fingerprint(config, plan, contents);
    let wanted = config.locales(detected);
    any_merged(entries, stamp.as_str(), &wanted)
}

fn any_merged(entries: &Vec<CachedMerge>, stamp: &str, wanted: &Locales) -> (r: bool)
    ensures
        r == exists|i: int|
            0 <= i < entries@.len() && (#[trigger] entries@[i]).plan@ == stamp@ && locales_cover_spec(
                entries@[i].locales@,
                wanted@,
            ),
{
    let mut i: usize = 0;
    while i < entries.len()
        invariant
            i <= entries@.len(),
            forall|j: int|
                0 <= j < i ==> !((#[trigger] entries@[j]).plan@ == stamp@ && locales_cover_spec(
                    entries@[j].locales@,
                    wanted@,
                )),
        decreases entries.len() - i,
    {
        if crate::text::str_eq(entries[i].plan.as_str(), stamp) && locales_cover(
            entries[i].locales.as_str(),
            wanted,
        ) {
            return true;
        }
        i = i + 1;
    }
    false
}

// --- serving what was merged before --------------------------------------------------------

/// What `locales.txt` records: "all" when every language was asked for or
/// every one the game has is merged, else the merged ones joined by commas.
pub open spec fn locales_record_spec(wanted: SpecLocales, locales: Seq<Seq<char>>, available: nat) -> Seq<
    char,
> {
    if wanted is All || locales.len() == available {
        "all"@
    } else {
        join(locales, ","@)
    }
}

pub fn locales_record(wanted: &Locales, locales: &Vec<String>, available: usize) -> (r: String)
    ensures
        r@ == locales_record_spec(wanted@, strings_view(locales@), available as nat),
{
    let all = match wanted {
        Locales::All => true,
        Locales::Only(_) => false,
    };
    if all || locales.len() == available {
        return crate::config::owned("all");
    }
    let r = join_strings(locales, ",");
    assert(locales@.map_values(|s: String| s@) =~= strings_view(locales@));
    r
}

/// What ends the stamp of every merge made for this version of the game.
pub open spec fn game_suffix_spec(game_version: i32, nso_id: Seq<char>) -> Seq<char> {
    "-"@ + signed_text(game_version as int) + "-"@ + nso_id
}

pub fn game_suffix(game_version: i32, nso_id: &str) -> (r: String)
    ensures
        r@ == game_suffix_spec(game_version, nso_id@),
{
    let mut r = crate::config::owned("-");
    crate::text::push_signed(&mut r, game_version as i64);
    push_str(&mut r, "-");
    push_str(&mut r, nso_id);
    r
}

/// The stamp of a merge: `<plan>-<game version>-<code build id>`.
pub fn merge_stamp(plan_stamp: &str, game_version: i32, nso_id: &str) -> (r: String)
    ensures
        r@ == plan_stamp@ + game_suffix_spec(game_version, nso_id@),
{
    let mut r = crate::config::owned(plan_stamp);
    let suffix = game_suffix(game_version, nso_id);
    push_str(&mut r, suffix.as_str());
    r
}

/// A merge of the cache that can be served for `stamp` with `locales`.
pub open spec fn serves_exactly(m: CachedMerge, stamp: Seq<char>, locales: Seq<Seq<char>>) -> bool {
    m.stamp@ == stamp && locales_cover_spec(m.locales@, SpecLocales::Only(locales))
}

/// A merge made for this version of the game, whatever the mods.
pub open spec fn same_game(m: CachedMerge, suffix: Seq<char>) -> bool {
    ends_with(m.stamp@, suffix)
}

/// The first of `merges` that `p` accepts, if any.
pub open spec fn is_first(merges: Seq<CachedMerge>, r: Option<usize>, p: spec_fn(CachedMerge) -> bool) -> bool {
    match r {
        Some(i) => i < merges.len() && p(merges[i as int]) && forall|j: int|
            0 <= j < i ==> !p(#[trigger] merges[j]),
        None => forall|j: int| 0 <= j < merges.len() ==> !p(#[trigger] merges[j]),
    }
}

fn first_exact(merges: &Vec<CachedMerge>, stamp: &str, locales: &Vec<String>) -> (r: Option<usize>)
    ensures
        is_first(merges@, r, |m: CachedMerge| serves_exactly(m, stamp@, strings_view(locales@))),
{
    let needed = Locales::Only(crate::options::copy_strings(locales));
    let ghost p = |m: CachedMerge| serves_exactly(m, stamp@, strings_view(locales@));
    let mut i: usize = 0;
    while i < merges.len()
        invariant
            i <= merges@.len(),
            needed@ == SpecLocales::Only(strings_view(locales@)),
            p == (|m: CachedMerge| serves_exactly(m, stamp@, strings_view(locales@))),
            forall|j: int| 0 <= j < i ==> !p(#[trigger] merges@[j]),
        decreases merges.len() - i,
    {
        if crate::text::str_eq(merges[i].stamp.as_str(), stamp) && locales_cover(
            merges[i].locales.as_str(),
            &needed,
        ) {
            return Some(i);
        }
        i = i + 1;
    }
    None
}

fn first_of_game(merges: &Vec<CachedMerge>, suffix: &str) -> (r: Option<usize>)
    ensures
        is_first(merges@, r, |m: CachedMerge| same_game(m, suffix@)),
{
    let sc = chars_of(suffix);
    let ghost p = |m: CachedMerge| same_game(m, suffix@);
    let mut i: usize = 0;
    while i < merges.len()
        invariant
            i <= merges@.len(),
            sc@ == suffix@,
            p == (|m: CachedMerge| same_game(m, suffix@)),
            forall|j: int| 0 <= j < i ==> !p(#[trigger] merges@[j]),
        decreases merges.len() - i,
    {
        let st = chars_of(merges[i].stamp.as_str());
        if crate::text::has_suffix(st.as_slice(), sc.as_slice()) {
            return Some(i);
        }
        i = i + 1;
    }
    None
}

/// The merges of the cache to try serving, in turn, before merging: the first
/// made with this `stamp` holding every language of `locales`, then (when
/// `merge_at_boot` is off) the last one made for this game, `suffix` ending
/// its stamp. Neither with `force_merge`. `merges`: most recently used first.
pub fn cache_choices(config: &Config, merges: &Vec<CachedMerge>, stamp: &str, locales: &Vec<String>, suffix: &str) -> (r: (
    Option<usize>,
    Option<usize>,
))
    ensures
        config.force_merge ==> r.0 is None && r.1 is None,
        !config.force_merge ==> is_first(
            merges@,
            r.0,
            |m: CachedMerge| serves_exactly(m, stamp@, strings_view(locales@)),
        ),
        !config.force_merge && config.merge_at_boot ==> r.1 is None,
        !config.force_merge && !config.merge_at_boot ==> is_first(
            merges@,
            r.1,
            |m: CachedMerge| same_game(m, suffix@),
        ),
{
    if config.force_merge {
        return (None, None);
    }
    let exact = first_exact(merges, stamp, locales);
    if config.merge_at_boot {
        return (exact, None);
    }
    (exact, first_of_game(merges, suffix))
}

/// The language texts are compared in: the console's when it is merged, else
/// the first merged.
pub open spec fn text_locale_spec(detected: Option<Seq<char>>, locales: Seq<Seq<char>>) -> Option<Seq<char>> {
    let first = if locales.len() > 0 {
        Some(locales[0])
    } else {
        None
    };
    match detected {
        Some(d) => if locales.contains(d) {
            Some(d)
        } else {
            first
        },
        None => first,
    }
}

pub fn text_locale(detected: Option<&str>, locales: &Vec<String>) -> (r: Option<String>)
    ensures
        r matches Some(t) ==> text_locale_spec(
            match detected {
                Some(d) => Some(d@),
                None => None,
            },
            strings_view(locales@),
        ) == Some(t@),
        r is None ==> text_locale_spec(
            match detected {
                Some(d) => Some(d@),
                None => None,
            },
            strings_view(locales@),
        ) is None,
{
    let ghost v = strings_view(locales@);
    if let Some(d) = detected {
        let mut i: usize = 0;
        while i < locales.len()
            invariant
                i <= locales@.len(),
                v == strings_view(locales@),
                detected == Some(d),
                forall|j: int| 0 <= j < i ==> v[j] != d@,
            decreases locales.len() - i,
        {
            if crate::text::str_eq(locales[i].as_str(), d) {
                assert(v[i as int] == d@);
                assert(v.contains(d@));
                return Some(crate::config::owned(d));
            }
            i = i + 1;
        }
    }
    if locales.len() > 0 {
        assert(v[0] == locales@[0]@);
        Some(crate::text::copy_string(&locales[0]))
    } else {
        None
    }
}

// --- the engine ----------------------------------------------------------------------------

/// Merges for the settings of `config`, reading the game's files under
/// `rom_prefix`.
pub struct Engine<'a> {
    config: &'a Config,
    rom_prefix: String,
}

impl<'a> View for Engine<'a> {
    type V = (Config, Seq<char>);

    closed spec fn view(&self) -> (Config, Seq<char>) {
        (*self.config, self.rom_prefix@)
    }
}

/// `str::trim_end_matches('/')`.
pub open spec fn trim_end_slashes(s: Seq<char>) -> Seq<char>
    decreases s.len(),
{
    if s.len() > 0 && s.last() == '/' {
        trim_end_slashes(s.drop_last())
    } else {
        s
    }
}

/// The folder a mod lives in under `mods_dir`: the first folder of its path
/// below it; its name for mods from elsewhere (RomFSlite, a PC).
pub open spec fn folder_of_spec(mods_dir: Seq<char>, path: Seq<char>, name: Seq<char>) -> Seq<char> {
    let root = trim_end_slashes(mods_dir) + "/"@;
    if starts_with(path, root) {
        let rest = path.skip(root.len() as int);
        let slash = crate::text::index_of(rest, '/');
        if slash < 0 {
            rest
        } else {
            rest.take(slash)
        }
    } else {
        name
    }
}

impl<'a> Engine<'a> {
    pub fn new(config: &'a Config, rom_prefix: &str) -> (e: Engine<'a>)
        ensures
            e@ == (*config, rom_prefix@),
    {
        Engine { config, rom_prefix: crate::config::owned(rom_prefix) }
    }

    pub fn config(&self) -> (r: &'a Config)
        ensures
            *r == self@.0,
    {
        self.config
    }

    pub fn rom_prefix(&self) -> (r: &str)
        ensures
            r@ == self@.1,
    {
        self.rom_prefix.as_str()
    }

    /// The folder `spec` lives in under `mods_dir`, or its name for mods from
    /// elsewhere.
    pub fn folder_of(&self, spec: &ModSpec) -> (r: String)
        ensures
            r@ == folder_of_spec(self@.0.mods_dir@, spec.path@, spec.name@),
    {
        let dir = chars_of(self.config.mods_dir.as_str());
        let mut end: usize = dir.len();
        assert(dir@.take(end as int) =~= dir@);
        while end > 0 && dir[end - 1] == '/'
            invariant
                end <= dir.len(),
                trim_end_slashes(dir@) == trim_end_slashes(dir@.take(end as int)),
            decreases end,
        {
            assert(dir@.take(end as int).drop_last() =~= dir@.take(end - 1));
            end = end - 1;
        }
        let mut root = crate::text::slice_of(dir.as_slice(), 0, end);
        root.push('/');
        proof {
            reveal_strlit("/");
            assert(root@ =~= trim_end_slashes(self@.0.mods_dir@) + "/"@);
        }
        let path = chars_of(spec.path.as_str());
        if !crate::text::has_prefix(path.as_slice(), root.as_slice()) {
            return crate::text::copy_string(&spec.name);
        }
        let rest = crate::text::slice_of(path.as_slice(), root.len(), path.len());
        assert(rest@ =~= path@.skip(root@.len() as int));
        match crate::text::find_char(rest.as_slice(), '/') {
            Some(slash) => {
                let first = crate::text::slice_of(rest.as_slice(), 0, slash);
                assert(first@ =~= rest@.take(slash as int));
                string_of(first.as_slice())
            },
            None => string_of(rest.as_slice()),
        }
    }
}


// --- the steps of a merge run ------------------------------------------------------------

/// Where a merge run stands.
#[derive(Debug, Clone, Copy, PartialEq, Eq, Structural)]
pub enum RunState {
    /// Not started.
    Idle,
    /// The game's files are being opened.
    OpeningRom,
    /// The merges of the cache are being compared with the plan.
    Choosing,
    /// The merge made for exactly this plan is being served; `fallback` is
    /// the one to serve if it cannot be.
    ServingExact { fallback: Option<usize> },
    /// The last merge is being served though the mods changed.
    ServingFallback,
    /// The mods are being read.
    Loading,
    /// The mods are being compared for conflicts.
    Checking,
    /// The merge folder is being made; `conflicts` were found.
    Beginning { conflicts: usize },
    /// The mods are being merged.
    Merging { conflicts: usize },
    /// The run is over.
    Done,
}

/// What the outside work of a step gave.
pub enum RunEvent {
    /// A run was asked for, of a plan of `mods` mods.
    Start { mods: usize },
    /// The game's files were opened, or could not be (`error`).
    RomOpened { error: Option<String> },
    /// The merge of the cache made for exactly this plan, and the one to fall
    /// back to, if any.
    Chosen { exact: Option<usize>, fallback: Option<usize> },
    /// Whether the merge asked for could be served.
    Served { ok: bool },
    /// The mods were read.
    Loaded,
    /// `count` conflicts were found, and whether whoever was asked lets the
    /// merge go ahead.
    ConflictsFound { count: usize, go_ahead: bool },
    /// The merge folder was made, or could not be (`error`).
    Begun { error: Option<String> },
    /// The mods were merged.
    Merged,
}

/// How a run ends.
pub enum RunEnd {
    /// No mod to merge: nothing is served.
    NothingToMerge,
    /// Nothing is served, because of this error.
    Failed(String),
    /// The merge made for this plan is served as it is.
    ServedExact,
    /// The last merge is served until the changes are applied: it counts as
    /// the last one made.
    ServedFallback,
    /// Whoever was asked about these many conflicts cancelled the merge.
    Cancelled(usize),
    /// The new merge is served; these many conflicts were found.
    Merged(usize),
}

/// What to do next.
pub enum RunAction {
    OpenRom,
    ChooseFromCache,
    /// Serve the `position`th merge of the cache; `moved` when it is not the
    /// last one made or used.
    Serve { position: usize, moved: bool },
    LoadMods,
    FindConflicts,
    BeginMerge,
    Merge,
    Finish(RunEnd),
    /// The event does not belong to this step: nothing to do.
    Wait,
}

pub enum RunEventView {
    Start { mods: usize },
    RomOpened { error: Option<Seq<char>> },
    Chosen { exact: Option<usize>, fallback: Option<usize> },
    Served { ok: bool },
    Loaded,
    ConflictsFound { count: usize, go_ahead: bool },
    Begun { error: Option<Seq<char>> },
    Merged,
}

pub enum RunEndView {
    NothingToMerge,
    Failed(Seq<char>),
    ServedExact,
    ServedFallback,
    Cancelled(usize),
    Merged(usize),
}

pub enum RunActionView {
    OpenRom,
    ChooseFromCache,
    Serve { position: usize, moved: bool },
    LoadMods,
    FindConflicts,
    BeginMerge,
    Merge,
    Finish(RunEndView),
    Wait,
}

pub open spec fn text_view(o: Option<String>) -> Option<Seq<char>> {
    match o {
        Some(s) => Some(s@),
        None => None,
    }
}

impl View for RunEvent {
    type V = RunEventView;

    open spec fn view(&self) -> RunEventView {
        match self {
            RunEvent::Start { mods } => RunEventView::Start { mods: *mods },
            RunEvent::RomOpened { error } => RunEventView::RomOpened { error: text_view(*error) },
            RunEvent::Chosen { exact, fallback } => RunEventView::Chosen { exact: *exact, fallback: *fallback },
            RunEvent::Served { ok } => RunEventView::Served { ok: *ok },
            RunEvent::Loaded => RunEventView::Loaded,
            RunEvent::ConflictsFound { count, go_ahead } => RunEventView::ConflictsFound {
                count: *count,
                go_ahead: *go_ahead,
            },
            RunEvent::Begun { error } => RunEventView::Begun { error: text_view(*error) },
            RunEvent::Merged => RunEventView::Merged,
        }
    }
}

impl View for RunEnd {
    type V = RunEndView;

    open spec fn view(&self) -> RunEndView {
        match self {
            RunEnd::NothingToMerge => RunEndView::NothingToMerge,
            RunEnd::Failed(e) => RunEndView::Failed(e@),
            RunEnd::ServedExact => RunEndView::ServedExact,
            RunEnd::ServedFallback => RunEndView::ServedFallback,
            RunEnd::Cancelled(n) => RunEndView::Cancelled(*n),
            RunEnd::Merged(n) => RunEndView::Merged(*n),
        }
    }
}

impl View for RunAction {
    type V = RunActionView;

    open spec fn view(&self) -> RunActionView {
        match self {
            RunAction::OpenRom => RunActionView::OpenRom,
            RunAction::ChooseFromCache => RunActionView::ChooseFromCache,
            RunAction::Serve { position, moved } => RunActionView::Serve { position: *position, moved: *moved },
            RunAction::LoadMods => RunActionView::LoadMods,
            RunAction::FindConflicts => RunActionView::FindConflicts,
            RunAction::BeginMerge => RunActionView::BeginMerge,
            RunAction::Merge => RunActionView::Merge,
            RunAction::Finish(e) => RunActionView::Finish(e@),
            RunAction::Wait => RunActionView::Wait,
        }
    }
}

/// One step of a merge run: from where it stands and what the last outside
/// work gave, where it goes and what to do next. A plan without mods serves
/// nothing; the merge made for exactly this plan is served if it can be,
/// else the one to fall back to (counted as the last one made), else the
/// mods are read, compared for conflicts (a cancel ends the run), and merged
/// into a new folder of the cache. An event that does not belong to the
/// step changes nothing.
pub open spec fn run_step_spec(state: RunState, event: RunEventView) -> (RunState, RunActionView) {
    match (state, event) {
        (RunState::Idle, RunEventView::Start { mods }) => if mods == 0 {
            (RunState::Done, RunActionView::Finish(RunEndView::NothingToMerge))
        } else {
            (RunState::OpeningRom, RunActionView::OpenRom)
        },
        (RunState::OpeningRom, RunEventView::RomOpened { error }) => match error {
            Some(e) => (
                RunState::Done,
                RunActionView::Finish(RunEndView::Failed("could not read the game's files: "@ + e)),
            ),
            None => (RunState::Choosing, RunActionView::ChooseFromCache),
        },
        (RunState::Choosing, RunEventView::Chosen { exact, fallback }) => match exact {
            Some(p) => (
                RunState::ServingExact { fallback },
                RunActionView::Serve { position: p, moved: p > 0 },
            ),
            None => fallback_step(fallback),
        },
        (RunState::ServingExact { fallback }, RunEventView::Served { ok }) => if ok {
            (RunState::Done, RunActionView::Finish(RunEndView::ServedExact))
        } else {
            fallback_step(fallback)
        },
        (RunState::ServingFallback, RunEventView::Served { ok }) => if ok {
            (RunState::Done, RunActionView::Finish(RunEndView::ServedFallback))
        } else {
            (RunState::Loading, RunActionView::LoadMods)
        },
        (RunState::Loading, RunEventView::Loaded) => (RunState::Checking, RunActionView::FindConflicts),
        (RunState::Checking, RunEventView::ConflictsFound { count, go_ahead }) => if go_ahead {
            (RunState::Beginning { conflicts: count }, RunActionView::BeginMerge)
        } else {
            (RunState::Done, RunActionView::Finish(RunEndView::Cancelled(count)))
        },
        (RunState::Beginning { conflicts }, RunEventView::Begun { error }) => match error {
            Some(e) => (
                RunState::Done,
                RunActionView::Finish(RunEndView::Failed("could not create the merge folder: "@ + e)),
            ),
            None => (RunState::Merging { conflicts }, RunActionView::Merge),
        },
        (RunState::Merging { conflicts }, RunEventView::Merged) => (
            RunState::Done,
            RunActionView::Finish(RunEndView::Merged(conflicts)),
        ),
        _ => (state, RunActionView::Wait),
    }
}

/// Serving the merge to fall back to, or merging when there is none.
pub open spec fn fallback_step(fallback: Option<usize>) -> (RunState, RunActionView) {
    match fallback {
        Some(q) => (RunState::ServingFallback, RunActionView::Serve { position: q, moved: false }),
        None => (RunState::Loading, RunActionView::LoadMods),
    }
}

fn fallback_of(fallback: Option<usize>) -> (r: (RunState, RunAction))
    ensures
        (r.0, r.1@) == fallback_step(fallback),
{
    match fallback {
        Some(q) => (RunState::ServingFallback, RunAction::Serve { position: q, moved: false }),
        None => (RunState::Loading, RunAction::LoadMods),
    }
}

fn prefixed(prefix: &str, error: String) -> (r: String)
    ensures
        r@ == prefix@ + error@,
{
    let mut r = crate::config::owned(prefix);
    push_str(&mut r, error.as_str());
    r
}

/// One step of a merge run (see `run_step_spec`).
pub fn run_step(state: RunState, event: RunEvent) -> (r: (RunState, RunAction))
    ensures
        (r.0, r.1@) == run_step_spec(state, event@),
{
    match (state, event) {
        (RunState::Idle, RunEvent::Start { mods }) => if mods == 0 {
            (RunState::Done, RunAction::Finish(RunEnd::NothingToMerge))
        } else {
            (RunState::OpeningRom, RunAction::OpenRom)
        },
        (RunState::OpeningRom, RunEvent::RomOpened { error }) => match error {
            Some(e) => (
                RunState::Done,
                RunAction::Finish(RunEnd::Failed(prefixed("could not read the game's files: ", e))),
            ),
            None => (RunState::Choosing, RunAction::ChooseFromCache),
        },
        (RunState::Choosing, RunEvent::Chosen { exact, fallback }) => match exact {
            Some(p) => (RunState::ServingExact { fallback }, RunAction::Serve { position: p, moved: p > 0 }),
            None => fallback_of(fallback),
        },
        (RunState::ServingExact { fallback }, RunEvent::Served { ok }) => if ok {
            (RunState::Done, RunAction::Finish(RunEnd::ServedExact))
        } else {
            fallback_of(fallback)
        },
        (RunState::ServingFallback, RunEvent::Served { ok }) => if ok {
            (RunState::Done, RunAction::Finish(RunEnd::ServedFallback))
        } else {
            (RunState::Loading, RunAction::LoadMods)
        },
        (RunState::Loading, RunEvent::Loaded) => (RunState::Checking, RunAction::FindConflicts),
        (RunState::Checking, RunEvent::ConflictsFound { count, go_ahead }) => if go_ahead {
            (RunState::Beginning { conflicts: count }, RunAction::BeginMerge)
        } else {
            (RunState::Done, RunAction::Finish(RunEnd::Cancelled(count)))
        },
        (RunState::Beginning { conflicts }, RunEvent::Begun { error }) => match error {
            Some(e) => (
                RunState::Done,
                RunAction::Finish(RunEnd::Failed(prefixed("could not create the merge folder: ", e))),
            ),
            None => (RunState::Merging { conflicts }, RunAction::Merge),
        },
        (RunState::Merging { conflicts }, RunEvent::Merged) => (
            RunState::Done,
            RunAction::Finish(RunEnd::Merged(conflicts)),
        ),
        (state, _) => (state, RunAction::Wait),
    }
}

/// Names that a locales record can list: none empty, none holding a
/// comma, none starting or ending with white space.
pub open spec fn listable(locales: Seq<Seq<char>>) -> bool {
    forall|i: int|
        0 <= i < locales.len() ==> (#[trigger] locales[i]).len() > 0 && crate::text::lacks(locales[i], ',')
            && crate::text::trimmed(locales[i])
}

/// A merge is recorded with its stamp and the record of its locales; such a
/// record serves exactly that stamp and those locales.
pub proof fn lemma_recorded_merge_serves(
    m: CachedMerge,
    stamp: Seq<char>,
    wanted: SpecLocales,
    locales: Seq<Seq<char>>,
    available: nat,
)
    requires
        m.stamp@ == stamp,
        m.locales@ == locales_record_spec(wanted, locales, available),
        listable(locales),
    ensures
        serves_exactly(m, stamp, locales),
{
    let rec = m.locales@;
    if wanted is All || locales.len() == available {
        assert(rec == "all"@);
        reveal_strlit("all");
        assert(crate::text::trimmed(rec));
        crate::text::lemma_trim_trimmed(rec);
    } else if locales.len() == 0 {
        assert(crate::merge_cache::all_in(crate::text::split(crate::text::trim(rec), ','), locales));
    } else {
        reveal_strlit(",");
        assert(","@ =~= seq![',']);
        assert(rec == join(locales, seq![',']));
        crate::text::lemma_join_ends(locales, seq![',']);
        assert(crate::text::trimmed(locales[0]));
        assert(crate::text::trimmed(locales.last())) by {
            assert(crate::text::trimmed(locales[locales.len() - 1]));
        }
        assert(crate::text::trimmed(rec));
        crate::text::lemma_trim_trimmed(rec);
        crate::text::lemma_split_join(locales, ',');
        assert forall|i: int| 0 <= i < locales.len() implies locales.contains(#[trigger] locales[i]) by {}
    }
}

/// A later run of a plan whose merge the cache still holds serves a merge
/// made for exactly that plan, one at or before it in the cache's order,
/// without merging: the game's files are opened, the cache is read, and
/// the merge is served, moved to the front unless it is there already.
pub proof fn lemma_later_run_serves(
    merges: Seq<CachedMerge>,
    i: int,
    stamp: Seq<char>,
    locales: Seq<Seq<char>>,
    mods: usize,
    exact: Option<usize>,
    fallback: Option<usize>,
)
    requires
        mods > 0,
        0 <= i < merges.len(),
        serves_exactly(merges[i], stamp, locales),
        is_first(merges, exact, |m: CachedMerge| serves_exactly(m, stamp, locales)),
    ensures
        exact matches Some(p) && p <= i && {
            let s1 = run_step_spec(RunState::Idle, RunEventView::Start { mods });
            let s2 = run_step_spec(s1.0, RunEventView::RomOpened { error: None });
            let s3 = run_step_spec(s2.0, RunEventView::Chosen { exact, fallback });
            let s4 = run_step_spec(s3.0, RunEventView::Served { ok: true });
            &&& s1.1 == RunActionView::OpenRom
            &&& s2.1 == RunActionView::ChooseFromCache
            &&& s3.1 == RunActionView::Serve { position: p, moved: p > 0 }
            &&& s4 == (RunState::Done, RunActionView::Finish(RunEndView::ServedExact))
        },
{
    let pred = |m: CachedMerge| serves_exactly(m, stamp, locales);
    assert(pred(merges[i]));
    match exact {
        Some(p) => {
            if p > i {
                assert(!pred(merges[i]));
            }
        },
        None => {
            assert(!pred(merges[i]));
        },
    }
}

} // verus!
