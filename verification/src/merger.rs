//! Merging changelogs: which merger a file takes, which version of a
//! changelog file to read, which message archive stands for a language.

use vstd::prelude::*;
use vstd::utf8::{encode_utf8, is_char_boundary};

use crate::builder::GAMEDATA_CANONICAL;
use crate::canonical::{extension, extension_spec};
use crate::rsdb::{row_key, row_key_spec, TAG_TABLE};
use crate::tkcl::EntryType;
use crate::text::{chars_of, ends_with, eq_ignore_case, has_suffix_lit, is_lit, lower_chars, lower_seq, str_eq};

verus! {

/// Where merged files go.
pub trait Output {
    /// Stores a file for the romfs path `relative`.
    fn write(&mut self, relative: &str, data: &[u8]) -> Result<(), String>;

    /// Serves an existing file for `relative` without copying it.
    fn link(&mut self, relative: &str, path: &str) -> Result<(), String>;
}

#[derive(Debug, Clone, Copy, PartialEq, Eq)]
pub enum MergerKind {
    GameData,
    RsdbTag,
    RsdbRow(&'static str),
    Pack,
    Sarc,
    Byml,
    Msbt,
    /// __Combined.bntx: only whole files are handled.
    Bntx,
}

pub enum MergerKindView {
    GameData,
    RsdbTag,
    RsdbRow(Seq<char>),
    Pack,
    Sarc,
    Byml,
    Msbt,
    Bntx,
}

impl View for MergerKind {
    type V = MergerKindView;

    open spec fn view(&self) -> MergerKindView {
        match self {
            MergerKind::GameData => MergerKindView::GameData,
            MergerKind::RsdbTag => MergerKindView::RsdbTag,
            MergerKind::RsdbRow(k) => MergerKindView::RsdbRow(k@),
            MergerKind::Pack => MergerKindView::Pack,
            MergerKind::Sarc => MergerKindView::Sarc,
            MergerKind::Byml => MergerKindView::Byml,
            MergerKind::Msbt => MergerKindView::Msbt,
            MergerKind::Bntx => MergerKindView::Bntx,
        }
    }
}

/// The merger TKMM uses for a game file. Model codec files (.bfres.mc) are
/// whole files.
pub open spec fn merger_spec(c: Seq<char>) -> Option<MergerKindView> {
    let ext = extension_spec(c);
    if c == GAMEDATA_CANONICAL@ {
        Some(MergerKindView::GameData)
    } else if c == TAG_TABLE@ {
        Some(MergerKindView::RsdbTag)
    } else if row_key_spec(c) is Some {
        Some(MergerKindView::RsdbRow(row_key_spec(c)->0))
    } else if ext == ".pack"@ {
        Some(MergerKindView::Pack)
    } else if ext == ".bfarc"@ || ext == ".bkres"@ || ext == ".blarc"@ || ext == ".genvb"@ || ext
        == ".sarc"@ || ext == ".ta"@ {
        Some(MergerKindView::Sarc)
    } else if ext == ".bntx"@ && ends_with(c, "__Combined.bntx"@) {
        Some(MergerKindView::Bntx)
    } else if ext == ".byml"@ || ext == ".bgyml"@ {
        Some(MergerKindView::Byml)
    } else if ext == ".msbt"@ {
        Some(MergerKindView::Msbt)
    } else {
        None
    }
}

pub open spec fn merger_view(m: Option<MergerKind>) -> Option<MergerKindView> {
    match m {
        Some(k) => Some(k@),
        None => None,
    }
}

pub fn merger_for(canonical: &str) -> (r: Option<MergerKind>)
    ensures
        merger_view(r) == merger_spec(canonical@),
{
    if str_eq(canonical, GAMEDATA_CANONICAL) {
        return Some(MergerKind::GameData);
    }
    if str_eq(canonical, TAG_TABLE) {
        return Some(MergerKind::RsdbTag);
    }
    if let Some(key) = row_key(canonical) {
        return Some(MergerKind::RsdbRow(key));
    }
    let ext = extension(canonical);
    let e = chars_of(ext.as_str());
    let c = chars_of(canonical);
    let e = e.as_slice();
    if is_lit(e, ".pack") {
        return Some(MergerKind::Pack);
    }
    if is_lit(e, ".bfarc") || is_lit(e, ".bkres") || is_lit(e, ".blarc") || is_lit(e, ".genvb")
        || is_lit(e, ".sarc") || is_lit(e, ".ta") {
        return Some(MergerKind::Sarc);
    }
    if is_lit(e, ".bntx") && has_suffix_lit(c.as_slice(), "__Combined.bntx") {
        return Some(MergerKind::Bntx);
    }
    if is_lit(e, ".byml") || is_lit(e, ".bgyml") {
        return Some(MergerKind::Byml);
    }
    if is_lit(e, ".msbt") {
        return Some(MergerKind::Msbt);
    }
    None
}

/// The resource size table mods may ship.
pub const SIZE_OVERRIDE_CANONICAL: &'static str = "System/Resource/ResourceSizeTable.Product.rsizetable";

/// How a merge is run.
pub struct MergeOptions {
    /// Message archive locales to merge, e.g. "USen".
    pub locales: Vec<String>,
    /// The shop parameter limit is raised to this; 0 leaves it alone.
    pub shop_param_limit: u32,
}

/// The NSO offset of the shop parameter limit in each game build.
pub open spec fn shop_param_address(id: Seq<char>) -> Option<u32> {
    let l = lower_seq(id);
    if l == "d5ad6ac71ef53e3e52417c1b81dbc9b4142aa3b3"@ {
        Some(0x01ada148)
    } else if l == "168dd518d925c7a327677286e72feda833314919"@ {
        Some(0x01ad7938)
    } else if l == "9a10ed9435c06733da597d8094d9000ab5d3ee60"@ {
        Some(0x01ace2b8)
    } else if l == "6f32c68dd3bc7d77aa714b80e92a096a737cda77"@ {
        Some(0x01ac0128)
    } else if l == "9b4e43650501a4d4489b4bbfdb740f26af3cf850"@ {
        Some(0x01acb308)
    } else if l == "6265f94d606242ce730ef721a8037dda8e4bfc63"@ {
        Some(0x0212e60c)
    } else if l == "965eab9ceb8eb867f747da772022c95065c9b927"@ {
        Some(0x0211e2b8)
    } else if l == "5cb42b1cf25469fb0635fd046453d843c18bc8ab"@ {
        Some(0x0211de70)
    } else if l == "277178b7dba1b6d4949a84778d4abc58b31b34f5"@ {
        Some(0x021238fc)
    } else {
        None
    }
}

pub fn shop_param_patch_address(nso_binary_id: &str) -> (r: Option<u32>)
    ensures
        r == shop_param_address(nso_binary_id@),
{
    let l = lower_chars(chars_of(nso_binary_id).as_slice());
    let l = l.as_slice();
    if is_lit(l, "d5ad6ac71ef53e3e52417c1b81dbc9b4142aa3b3") {
        Some(0x01ada148)
    } else if is_lit(l, "168dd518d925c7a327677286e72feda833314919") {
        Some(0x01ad7938)
    } else if is_lit(l, "9a10ed9435c06733da597d8094d9000ab5d3ee60") {
        Some(0x01ace2b8)
    } else if is_lit(l, "6f32c68dd3bc7d77aa714b80e92a096a737cda77") {
        Some(0x01ac0128)
    } else if is_lit(l, "9b4e43650501a4d4489b4bbfdb740f26af3cf850") {
        Some(0x01acb308)
    } else if is_lit(l, "6265f94d606242ce730ef721a8037dda8e4bfc63") {
        Some(0x0212e60c)
    } else if is_lit(l, "965eab9ceb8eb867f747da772022c95065c9b927") {
        Some(0x0211e2b8)
    } else if is_lit(l, "5cb42b1cf25469fb0635fd046453d843c18bc8ab") {
        Some(0x0211de70)
    } else if is_lit(l, "277178b7dba1b6d4949a84778d4abc58b31b34f5") {
        Some(0x021238fc)
    } else {
        None
    }
}

/// The last provided version the game version reaches, else the first.
pub open spec fn best_version_spec(target: i32, provided: Seq<i32>) -> i32
    decreases provided.len(),
{
    if provided.len() == 0 {
        0
    } else if provided.len() == 1 {
        provided[0]
    } else if target >= provided.last() {
        provided.last()
    } else {
        best_version_spec(target, provided.drop_last())
    }
}

/// The last provided version the game version reaches, else the first.
pub fn best_version(target: i32, provided: &[i32]) -> (r: i32)
    requires
        provided@.len() > 0,
    ensures
        r == best_version_spec(target, provided@),
{
    let mut i = provided.len();
    assert(provided@.take(i as int) =~= provided@);
    while i > 1
        invariant
            1 <= i <= provided@.len(),
            best_version_spec(target, provided@) == best_version_spec(target, provided@.take(i as int)),
        decreases i,
    {
        assert(provided@.take(i as int).last() == provided@[i - 1]);
        if target >= provided[i - 1] {
            return provided[i - 1];
        }
        assert(provided@.take(i as int).drop_last() =~= provided@.take(i - 1));
        i = i - 1;
    }
    assert(provided@.take(1) =~= seq![provided@[0]]);
    provided[0]
}

// --- message archives ----------------------------------------------------------------------------

/// The four bytes after "Mals/" of a message archive name, when they are whole characters.
pub open spec fn mals_code(t: Seq<u8>) -> Option<Seq<u8>> {
    if t.len() >= 9 && is_char_boundary(t, 5) && is_char_boundary(t, 9) {
        Some(t.subrange(5, 9))
    } else {
        None
    }
}

/// After looking at the first `n` archives: the first that matches the
/// locale exactly, the best so far, and how good it is (2: same language;
/// 1: English or nothing yet).
pub open spec fn mals_scan(ts: Seq<Seq<u8>>, l: Seq<u8>, n: int) -> (Option<int>, Option<int>, int)
    decreases n,
{
    if n <= 0 {
        (None, None, 1)
    } else {
        let (found, best, level) = mals_scan(ts, l, n - 1);
        if found is Some {
            (found, best, level)
        } else {
            match mals_code(ts[n - 1]) {
                None => (found, best, level),
                Some(code) => if code.subrange(2, 4) == l.subrange(2, 4) && code.subrange(0, 2)
                    == l.subrange(0, 2) {
                    (Some(n - 1), best, level)
                } else if code.subrange(2, 4) == l.subrange(2, 4) {
                    (found, Some(n - 1), 2)
                } else if level < 2 && code.subrange(2, 4) == seq![0x65u8, 0x6eu8] {
                    (found, Some(n - 1), level)
                } else {
                    (found, best, level)
                },
            }
        }
    }
}

/// Which of the archives stands for `l`: the same
/// region and language, else the same language, else English, else the first.
pub open spec fn best_mals_index(ts: Seq<Seq<u8>>, l: Seq<u8>) -> int {
    if ts.len() == 1 || l.len() != 4 {
        0
    } else {
        let (found, best, _) = mals_scan(ts, l, ts.len() as int);
        match found {
            Some(i) => i,
            None => match best {
                Some(i) => i,
                None => 0,
            },
        }
    }
}

pub open spec fn mals_bytes(targets: Seq<String>) -> Seq<Seq<u8>> {
    targets.map_values(|t: String| encode_utf8(t@))
}

/// Where a locale or an archive name is read as two halves, the halves are
/// whole characters.
pub open spec fn mals_splittable(targets: Seq<String>, locale: Seq<char>) -> bool {
    targets.len() != 1 && encode_utf8(locale).len() == 4 ==> {
        &&& is_char_boundary(encode_utf8(locale), 2)
        &&& forall|i: int|
            0 <= i < targets.len() && #[trigger] mals_code(encode_utf8(targets[i]@)) is Some
                ==> is_char_boundary(encode_utf8(targets[i]@), 7)
    }
}

fn bytes_eq(a: &[u8], from_a: usize, b: &[u8], from_b: usize, n: usize) -> (r: bool)
    requires
        from_a + n <= a@.len(),
        from_b + n <= b@.len(),
    ensures
        r == (a@.subrange(from_a as int, from_a + n) == b@.subrange(from_b as int, from_b + n)),
{
    let mut i: usize = 0;
    while i < n
        invariant
            i <= n,
            from_a + n <= a@.len(),
            from_b + n <= b@.len(),
            a@.len() == a.len(),
            b@.len() == b.len(),
            a@.subrange(from_a as int, from_a + i) == b@.subrange(from_b as int, from_b + i),
        decreases n - i,
    {
        if a[from_a + i] != b[from_b + i] {
            assert(a@.subrange(from_a as int, from_a + n)[i as int] != b@.subrange(
                from_b as int,
                from_b + n,
            )[i as int]);
            return false;
        }
        assert(a@.subrange(from_a as int, from_a + i + 1) =~= a@.subrange(from_a as int, from_a + i).push(
            a@[from_a + i],
        ));
        assert(b@.subrange(from_b as int, from_b + i + 1) =~= b@.subrange(from_b as int, from_b + i).push(
            b@[from_b + i],
        ));
        i = i + 1;
    }
    true
}

/// The message archive closest to `locale`.
pub fn best_mals<'b>(targets: &'b [String], locale: &str) -> (r: &'b str)
    requires
        targets@.len() > 0,
        mals_splittable(targets@, locale@),
    ensures
        r@ == targets@[best_mals_index(mals_bytes(targets@), encode_utf8(locale@))]@,
{
    let ghost ts = mals_bytes(targets@);
    let l = locale.as_bytes();
    if targets.len() == 1 || l.len() != 4 {
        return targets[0].as_str();
    }
    let mut found: Option<usize> = None;
    let mut best: Option<usize> = None;
    let mut level: u8 = 1;
    let mut i: usize = 0;
    while i < targets.len()
        invariant
            i <= targets@.len(),
            ts == mals_bytes(targets@),
            l@ == encode_utf8(locale@),
            l@.len() == 4,
            found is None,
            mals_scan(ts, l@, i as int) == (
                None::<int>,
                match best {
                    Some(b) => Some(b as int),
                    None => None,
                },
                level as int,
            ),
            best matches Some(b) ==> b < targets@.len(),
        decreases targets.len() - i,
    {
        let t = targets[i].as_str();
        let tb = t.as_bytes();
        proof {
            assert(ts[i as int] == encode_utf8(targets@[i as int]@));
        }
        if tb.len() >= 9 && t.is_char_boundary(5) && t.is_char_boundary(9) {
            let same_language = bytes_eq(tb, 7, l, 2, 2);
            let same_region = bytes_eq(tb, 5, l, 0, 2);
            proof {
                let code = tb@.subrange(5, 9);
                assert(code.subrange(2, 4) =~= tb@.subrange(7, 9));
                assert(code.subrange(0, 2) =~= tb@.subrange(5, 7));
            }
            if same_language && same_region {
                proof {
                    assert(mals_scan(ts, l@, i + 1).0 == Some(i as int));
                    let ghost n = targets@.len() as int;
                    assert forall|k: int| i + 1 <= k <= n implies mals_scan(ts, l@, k).0 == Some(
                        i as int,
                    ) by {
                        lemma_mals_found(ts, l@, i + 1, k, i as int);
                    }
                }
                return t;
            }
            let en: [u8; 2] = [0x65, 0x6e];
            let english = bytes_eq(tb, 7, &en, 0, 2);
            proof {
                assert(en@.subrange(0, 2) =~= seq![0x65u8, 0x6eu8]);
            }
            if same_language {
                best = Some(i);
                level = 2;
            } else if level < 2 && english {
                best = Some(i);
            }
        }
        i = i + 1;
    }
    match best {
        Some(b) => targets[b].as_str(),
        None => targets[0].as_str(),
    }
}

proof fn lemma_mals_found(ts: Seq<Seq<u8>>, l: Seq<u8>, from: int, k: int, i: int)
    requires
        0 <= from <= k,
        mals_scan(ts, l, from).0 == Some(i),
    ensures
        mals_scan(ts, l, k).0 == Some(i),
    decreases k - from,
{
    if k > from {
        lemma_mals_found(ts, l, from, k - 1, i);
    }
}


// --- which version of a changelog file to read --------------------------------------

/// A file name without its directory and last extension.
pub open spec fn file_stem(canonical: Seq<char>) -> Seq<char> {
    let name = canonical.skip(crate::text::last_index_of(canonical, '/') + 1);
    let dot = crate::text::last_index_of(name, '.');
    if dot < 0 {
        name
    } else {
        name.take(dot)
    }
}

/// The number the last three bytes of a table's text spell, if they are
/// whole characters and a number.
pub open spec fn last_three(value: Seq<char>) -> Option<int> {
    let b = encode_utf8(value);
    let start = if b.len() >= 3 {
        b.len() - 3
    } else {
        0
    };
    if is_char_boundary(b, start) {
        crate::text::parse_i32_spec(crate::rom::byte_slice(value, start, b.len() as int))
    } else {
        None
    }
}

/// The version a game table gives for the file `canonical`: `None` when no
/// table covers it, `Some(None)` when its table says nothing usable.
pub open spec fn table_version(rom: crate::rom::RomView, canonical: Seq<char>) -> Option<Option<int>> {
    let len = encode_utf8(canonical).len();
    let stem = file_stem(canonical);
    if len > 15 && crate::text::starts_with(canonical, "Event/EventFlow"@) {
        Some(
            match crate::rom::table_get(rom.event_flow_versions, stem) {
                Some(v) => crate::text::parse_i32_spec(v),
                None => None,
            },
        )
    } else if len > 8 && crate::text::starts_with(canonical, "Sequence"@) {
        Some(
            match crate::rom::table_get(rom.sequence_versions, stem) {
                Some(v) => last_three(v),
                None => None,
            },
        )
    } else if len > 6 && crate::text::starts_with(canonical, "Effect"@) {
        Some(
            match crate::rom::table_get(rom.effect_versions, stem) {
                Some(v) => last_three(v),
                None => None,
            },
        )
    } else if len > 5 && crate::text::starts_with(canonical, "Logic"@) {
        Some(
            match crate::rom::table_get(rom.logic_versions, stem) {
                Some(v) => last_three(v),
                None => None,
            },
        )
    } else if len > 2 && crate::text::starts_with(canonical, "AI"@) {
        Some(
            match crate::rom::table_get(rom.ai_versions, stem) {
                Some(v) => last_three(v),
                None => None,
            },
        )
    } else {
        None
    }
}

/// Where an entry's file is inside its changelog: `romfs/` and its
/// canonical name, followed by the version closest to the game when the
/// changelog has several.
pub open spec fn changelog_path(rom: crate::rom::RomView, entry: crate::tkcl::wire::EntryView) -> Seq<char> {
    if entry.versions.len() == 0 {
        "romfs/"@ + entry.canonical
    } else {
        let version = match table_version(rom, entry.canonical) {
            Some(Some(target)) => best_version_spec(target as i32, entry.versions),
            Some(None) => entry.versions[0],
            None => best_version_spec(rom.game_version, entry.versions),
        };
        "romfs/"@ + entry.canonical + crate::text::signed_text(version as int)
    }
}

fn last_three_of(value: &str) -> (r: Option<i32>)
    ensures
        match r {
            Some(v) => last_three(value@) == Some(v as int),
            None => last_three(value@) is None,
        },
{
    let b = value.as_bytes();
    let len = b.len();
    let start = if len >= 3 {
        len - 3
    } else {
        0
    };
    if !value.is_char_boundary(start) {
        return None;
    }
    proof {
        vstd::utf8::encode_utf8_valid_utf8(value@);
        vstd::utf8::is_char_boundary_start_end_of_seq(b@);
    }
    let tail = crate::rom::bytes_text(b, start, len);
    crate::text::parse_i32(chars_of(tail.as_str()).as_slice())
}

fn stem_of(canonical: &str) -> (r: Vec<char>)
    ensures
        r@ == file_stem(canonical@),
{
    let c = chars_of(canonical);
    proof {
        crate::text::lemma_last_index_of(c@, '/');
    }
    let from = match crate::text::rfind_char(c.as_slice(), '/') {
        Some(i) => {
            assert(i < c.len());
            i + 1
        },
        None => 0,
    };
    let name = crate::text::slice_of(c.as_slice(), from, c.len());
    proof {
        crate::text::lemma_last_index_of(name@, '.');
    }
    match crate::text::rfind_char(name.as_slice(), '.') {
        Some(d) => crate::text::slice_of(name.as_slice(), 0, d),
        None => name,
    }
}

fn table_version_of(rom: &crate::rom::TkRom, canonical: &str, stem: &str) -> (r: Option<Option<i32>>)
    requires
        stem@ == file_stem(canonical@),
    ensures
        match r {
            Some(Some(t)) => table_version(rom@, canonical@) == Some(Some(t as int)),
            Some(None) => table_version(rom@, canonical@) == Some(None::<int>),
            None => table_version(rom@, canonical@) is None,
        },
{
    let c = chars_of(canonical);
    let len = canonical.as_bytes().len();
    if len > 15 && crate::text::has_prefix_lit(c.as_slice(), "Event/EventFlow") {
        Some(
            match rom.event_flow_version(stem) {
                Some(v) => crate::text::parse_i32(chars_of(v).as_slice()),
                None => None,
            },
        )
    } else if len > 8 && crate::text::has_prefix_lit(c.as_slice(), "Sequence") {
        Some(
            match rom.versioned_name(crate::rom::VersionTable::Sequence, stem) {
                Some(v) => last_three_of(v),
                None => None,
            },
        )
    } else if len > 6 && crate::text::has_prefix_lit(c.as_slice(), "Effect") {
        Some(
            match rom.versioned_name(crate::rom::VersionTable::Effect, stem) {
                Some(v) => last_three_of(v),
                None => None,
            },
        )
    } else if len > 5 && crate::text::has_prefix_lit(c.as_slice(), "Logic") {
        Some(
            match rom.versioned_name(crate::rom::VersionTable::Logic, stem) {
                Some(v) => last_three_of(v),
                None => None,
            },
        )
    } else if len > 2 && crate::text::has_prefix_lit(c.as_slice(), "AI") {
        Some(
            match rom.versioned_name(crate::rom::VersionTable::Ai, stem) {
                Some(v) => last_three_of(v),
                None => None,
            },
        )
    } else {
        None
    }
}

/// Where an entry's file is inside its
/// changelog, picking the version closest to the running game.
pub fn changelog_file_path(rom: &crate::rom::TkRom, entry: &crate::tkcl::ChangelogEntry) -> (r: String)
    ensures
        r@ == changelog_path(rom@, entry@),
{
    let mut out = crate::config::owned("romfs/");
    crate::text::push_str(&mut out, entry.canonical.as_str());
    if entry.versions.len() == 0 {
        return out;
    }
    let canonical = entry.canonical.as_str();
    let stem_chars = stem_of(canonical);
    let stem = crate::text::string_of(stem_chars.as_slice());
    let table = table_version_of(rom, canonical, stem.as_str());
    let ghost tv = table_version(rom@, entry@.canonical);
    assert(match table {
        Some(Some(t)) => tv == Some(Some(t as int)),
        Some(None) => tv == Some(None::<int>),
        None => tv is None,
    });
    let version = match table {
        Some(Some(target)) => best_version(target, entry.versions.as_slice()),
        Some(None) => entry.versions[0],
        None => best_version(rom.game_version(), entry.versions.as_slice()),
    };
    crate::text::push_signed(&mut out, version as i64);
    out
}


// --- grouping changelog entries into targets -------------------------------------------

/// The entries of changelogs, each with where it is (changelog, entry).
pub open spec fn positions_in(c: int, entries: Seq<crate::tkcl::wire::EntryView>) -> Seq<((int, int), Seq<char>)> {
    Seq::new(entries.len(), |e: int| ((c, e), entries[e].canonical))
}

pub open spec fn entry_positions(cls: Seq<crate::tkcl::wire::ChangelogView>) -> Seq<((int, int), Seq<char>)>
    decreases cls.len(),
{
    if cls.len() == 0 {
        Seq::empty()
    } else {
        entry_positions(cls.drop_last()) + positions_in(cls.len() - 1, cls.last().entries)
    }
}

/// The first group named `name`, or -1.
pub open spec fn group_index(groups: Seq<(Seq<char>, Seq<(int, int)>)>, name: Seq<char>) -> int
    decreases groups.len(),
{
    if groups.len() == 0 {
        -1
    } else {
        let i = group_index(groups.drop_last(), name);
        if i >= 0 {
            i
        } else if groups.last().0 == name {
            groups.len() - 1
        } else {
            -1
        }
    }
}

/// Entries grouped by canonical name, groups in the
/// order their names first appear, each holding its entries in order; the
/// resource size table a mod ships is no target.
pub open spec fn targets_of(items: Seq<((int, int), Seq<char>)>) -> Seq<(Seq<char>, Seq<(int, int)>)>
    decreases items.len(),
{
    if items.len() == 0 {
        Seq::empty()
    } else {
        let acc = targets_of(items.drop_last());
        let (at, name) = items.last();
        if name == SIZE_OVERRIDE_CANONICAL@ {
            acc
        } else {
            let i = group_index(acc, name);
            if i >= 0 {
                acc.update(i, (name, acc[i].1.push(at)))
            } else {
                acc.push((name, seq![at]))
            }
        }
    }
}

/// The changelog entries one merged file is made from, as (changelog,
/// entry) positions; the first names the file.
pub struct Target {
    pub key: (usize, usize),
    pub members: Vec<(usize, usize)>,
}

pub open spec fn pair_view(p: (usize, usize)) -> (int, int) {
    (p.0 as int, p.1 as int)
}

pub open spec fn changelogs_view<S>(cls: Seq<&crate::tkcl::Changelog<S>>) -> Seq<crate::tkcl::wire::ChangelogView> {
    cls.map_values(|c: &crate::tkcl::Changelog<S>| c@)
}

/// Targets as names and entry positions, names read from the changelogs.
pub open spec fn targets_view(ts: Seq<Target>, cls: Seq<crate::tkcl::wire::ChangelogView>) -> Seq<
    (Seq<char>, Seq<(int, int)>),
> {
    ts.map_values(
        |t: Target|
            (
                cls[t.key.0 as int].entries[t.key.1 as int].canonical,
                t.members@.map_values(|p: (usize, usize)| pair_view(p)),
            ),
    )
}


/// Whether every target's first entry is one of the changelogs'.
pub open spec fn keys_valid(ts: Seq<Target>, cls: Seq<crate::tkcl::wire::ChangelogView>) -> bool {
    forall|t: int|
        0 <= t < ts.len() ==> (#[trigger] ts[t]).key.0 < cls.len() && ts[t].key.1 < cls[ts[t].key.0 as int].entries.len()
}

proof fn lemma_group_index_extends(g: Seq<(Seq<char>, Seq<(int, int)>)>, k: int, name: Seq<char>)
    requires
        0 <= k <= g.len(),
        group_index(g.take(k), name) >= 0,
    ensures
        group_index(g, name) == group_index(g.take(k), name),
    decreases g.len() - k,
{
    if k < g.len() {
        assert(g.take(k + 1).drop_last() =~= g.take(k));
        lemma_group_index_extends(g, k + 1, name);
    } else {
        assert(g.take(k) =~= g);
    }
}

proof fn lemma_group_index_found(g: Seq<(Seq<char>, Seq<(int, int)>)>, name: Seq<char>)
    ensures
        -1 <= group_index(g, name) < g.len(),
        group_index(g, name) >= 0 ==> g[group_index(g, name)].0 == name,
    decreases g.len(),
{
    if g.len() > 0 {
        lemma_group_index_found(g.drop_last(), name);
    }
}

fn find_target<S>(changelogs: &[&crate::tkcl::Changelog<S>], targets: &Vec<Target>, name: &str) -> (r: Option<usize>)
    requires
        keys_valid(targets@, changelogs_view(changelogs@)),
    ensures
        match r {
            Some(t) => t < targets.len() && t == group_index(
                targets_view(targets@, changelogs_view(changelogs@)),
                name@,
            ),
            None => group_index(targets_view(targets@, changelogs_view(changelogs@)), name@) == -1,
        },
{
    let ghost cv = changelogs_view(changelogs@);
    let ghost g = targets_view(targets@, cv);
    let mut t: usize = 0;
    assert(g.take(0) =~= Seq::<(Seq<char>, Seq<(int, int)>)>::empty());
    while t < targets.len()
        invariant
            t <= targets.len(),
            cv == changelogs_view(changelogs@),
            g == targets_view(targets@, cv),
            keys_valid(targets@, cv),
            group_index(g.take(t as int), name@) == -1,
        decreases targets.len() - t,
    {
        let (c, e) = targets[t].key;
        assert(targets@[t as int].key.0 < cv.len());
        let key = &changelogs[c].entries[e];
        assert(cv[c as int] == changelogs@[c as int]@);
        assert(g[t as int].0 == key.canonical@);
        assert(g.take(t + 1).drop_last() =~= g.take(t as int));
        assert(g.take(t + 1).last() == g[t as int]);
        if crate::text::str_eq(key.canonical.as_str(), name) {
            proof {
                lemma_group_index_extends(g, t + 1, name@);
            }
            return Some(t);
        }
        t = t + 1;
    }
    assert(g.take(t as int) =~= g);
    None
}

/// Every changelog entry grouped by canonical name, in
/// the order the names first appear.
pub fn group_targets<S>(changelogs: &[&crate::tkcl::Changelog<S>]) -> (r: Vec<Target>)
    ensures
        keys_valid(r@, changelogs_view(changelogs@)),
        targets_view(r@, changelogs_view(changelogs@)) == targets_of(entry_positions(changelogs_view(changelogs@))),
{
    let ghost cv = changelogs_view(changelogs@);
    let mut targets: Vec<Target> = Vec::new();
    let mut c: usize = 0;
    assert(cv.take(0) =~= Seq::<crate::tkcl::wire::ChangelogView>::empty());
    assert(targets_view(targets@, cv) =~= Seq::<(Seq<char>, Seq<(int, int)>)>::empty());
    while c < changelogs.len()
        invariant
            c <= changelogs.len(),
            cv == changelogs_view(changelogs@),
            keys_valid(targets@, cv),
            targets_view(targets@, cv) == targets_of(entry_positions(cv.take(c as int))),
        decreases changelogs.len() - c,
    {
        let cl = changelogs[c];
        let ghost es = cv[c as int].entries;
        assert(cv[c as int] == cl@);
        let ghost before = entry_positions(cv.take(c as int));
        assert(positions_in(c as int, es.take(0)) =~= Seq::<((int, int), Seq<char>)>::empty());
        assert(before + positions_in(c as int, es.take(0)) =~= before);
        let mut e: usize = 0;
        while e < cl.entries.len()
            invariant
                c < changelogs.len(),
                cl == changelogs@[c as int],
                e <= cl.entries.len(),
                cv == changelogs_view(changelogs@),
                es == cv[c as int].entries,
                es == crate::tkcl::entries_view(cl.entries@),
                before == entry_positions(cv.take(c as int)),
                keys_valid(targets@, cv),
                targets_view(targets@, cv) == targets_of(before + positions_in(c as int, es.take(e as int))),
            decreases cl.entries.len() - e,
        {
            let entry = &cl.entries[e];
            let ghost items = before + positions_in(c as int, es.take(e as int));
            let ghost next = before + positions_in(c as int, es.take(e + 1));
            assert(next =~= items.push(((c as int, e as int), entry.canonical@)));
            assert(next.drop_last() =~= items);
            let ghost acc = targets_of(items);
            if !crate::text::str_eq(entry.canonical.as_str(), SIZE_OVERRIDE_CANONICAL) {
                match find_target(changelogs, &targets, entry.canonical.as_str()) {
                    Some(t) => {
                        let ghost old_targets = targets@;
                        targets[t].members.push((c, e));
                        proof {
                            lemma_group_index_found(acc, entry.canonical@);
                            assert(acc[t as int].0 == entry.canonical@);
                            assert(targets@ =~= old_targets.update(
                                t as int,
                                Target { key: old_targets[t as int].key, members: targets@[t as int].members },
                            ));
                            assert(targets@[t as int].members@ =~= old_targets[t as int].members@.push((c, e)));
                            assert(targets_view(old_targets, cv) == acc);
                            assert(targets@[t as int].members@.map_values(|p: (usize, usize)| pair_view(p))
                                =~= old_targets[t as int].members@.map_values(|p: (usize, usize)| pair_view(p)).push(
                                (c as int, e as int),
                            ));
                            assert(targets@[t as int].key == old_targets[t as int].key);
                            assert(targets_view(targets@, cv)[t as int] == (
                                entry.canonical@,
                                acc[t as int].1.push((c as int, e as int)),
                            ));
                            assert(targets_view(targets@, cv) =~= acc.update(
                                t as int,
                                (entry.canonical@, acc[t as int].1.push((c as int, e as int))),
                            ));
                        }
                    },
                    None => {
                        let mut members: Vec<(usize, usize)> = Vec::new();
                        members.push((c, e));
                        let ghost old_targets = targets@;
                        targets.push(Target { key: (c, e), members });
                        proof {
                            assert(es[e as int] == entry@);
                            assert(cv[c as int].entries[e as int].canonical == entry.canonical@);
                            assert(targets@ =~= old_targets.push(Target { key: (c, e), members: targets@.last().members }));
                            assert(targets@.last().members@.map_values(|p: (usize, usize)| pair_view(p)) =~= seq![(c as int, e as int)]);
                            assert(targets_view(targets@, cv) =~= acc.push(
                                (entry.canonical@, seq![(c as int, e as int)]),
                            ));
                        }
                    },
                }
            }
            e = e + 1;
        }
        proof {
            assert(es.take(e as int) =~= es);
            assert(cv.take(c + 1).drop_last() =~= cv.take(c as int));
            assert(cv.take(c + 1).last() == cv[c as int]);
        }
        c = c + 1;
    }
    assert(cv.take(c as int) =~= cv);
    targets
}


// --- code patches ---------------------------------------------------------------------

/// `u32::swap_bytes`: the four bytes in reverse order.
pub open spec fn swap_bytes_spec(x: u32) -> u32 {
    ((x & 0xff) << 24u32) | (((x >> 8u32) & 0xff) << 16u32) | (((x >> 16u32) & 0xff) << 8u32) | (x >> 24u32)
}

fn swap_bytes(x: u32) -> (r: u32)
    ensures
        r == swap_bytes_spec(x),
{
    ((x & 0xff) << 24u32) | (((x >> 8u32) & 0xff) << 16u32) | (((x >> 16u32) & 0xff) << 8u32) | (x >> 24u32)
}

/// The instruction that raises the shop parameter limit to `limit`
/// (`mov w8, #limit`, stored little endian).
pub open spec fn shop_instruction(limit: u32) -> u32 {
    swap_bytes_spec(0x5280_0008u32 | (limit << 5u32))
}

/// Offsets and instructions, later ones replacing earlier ones at the same offset.
pub open spec fn insert_all(m: Map<u32, u32>, es: Seq<(u32, u32)>) -> Map<u32, u32>
    decreases es.len(),
{
    if es.len() == 0 {
        m
    } else {
        insert_all(m, es.drop_last()).insert(es.last().0, es.last().1)
    }
}

/// The patches for the game build `id` applied over `m`, in order.
pub open spec fn apply_patches(m: Map<u32, u32>, id: Seq<char>, ps: Seq<crate::tkcl::wire::PatchView>) -> Map<u32, u32>
    decreases ps.len(),
{
    if ps.len() == 0 {
        m
    } else {
        let acc = apply_patches(m, id, ps.drop_last());
        if eq_ignore_case(ps.last().nso_binary_id, id) {
            insert_all(acc, ps.last().entries)
        } else {
            acc
        }
    }
}

pub open spec fn apply_changelog_patches(
    m: Map<u32, u32>,
    id: Seq<char>,
    cls: Seq<crate::tkcl::wire::ChangelogView>,
) -> Map<u32, u32>
    decreases cls.len(),
{
    if cls.len() == 0 {
        m
    } else {
        apply_patches(apply_changelog_patches(m, id, cls.drop_last()), id, cls.last().patches)
    }
}

/// The code patches of a merge: the shop parameter limit (when it is raised
/// and the build is known), then every patch for the running build, lowest
/// priority first, a later instruction replacing an earlier one.
pub open spec fn merged_patches(id: Seq<char>, limit: u32, cls: Seq<crate::tkcl::wire::ChangelogView>) -> Map<
    u32,
    u32,
> {
    let start = if limit != 0 && shop_param_address(id) is Some {
        Map::empty().insert(shop_param_address(id)->0, shop_instruction(limit))
    } else {
        Map::empty()
    };
    apply_changelog_patches(start, lower_seq(id), cls)
}

/// The code patches a merge applies, by increasing offset.
pub fn merge_patches<S>(nso_binary_id: &str, shop_param_limit: u32, changelogs: &[&crate::tkcl::Changelog<S>]) -> (r: Vec<
    (u32, u32),
>)
    ensures
        crate::builder::lists_map(r@, merged_patches(nso_binary_id@, shop_param_limit, changelogs_view(changelogs@))),
{
    let ghost cv = changelogs_view(changelogs@);
    let id = crate::text::string_of(lower_chars(chars_of(nso_binary_id).as_slice()).as_slice());
    let mut entries: Vec<(u32, u32)> = Vec::new();
    let ghost mut m = Map::<u32, u32>::empty();
    if shop_param_limit != 0 {
        if let Some(address) = shop_param_patch_address(nso_binary_id) {
            let instruction = swap_bytes(0x5280_0008u32 | (shop_param_limit << 5u32));
            crate::builder::put_entry(&mut entries, address, instruction, Ghost(m));
            proof {
                m = m.insert(address, instruction);
            }
        }
    }
    assert(m == (if shop_param_limit != 0 && shop_param_address(nso_binary_id@) is Some {
        Map::empty().insert(shop_param_address(nso_binary_id@)->0, shop_instruction(shop_param_limit))
    } else {
        Map::empty()
    }));
    let ghost start = m;
    let mut c: usize = 0;
    assert(cv.take(0) =~= Seq::<crate::tkcl::wire::ChangelogView>::empty());
    while c < changelogs.len()
        invariant
            c <= changelogs.len(),
            cv == changelogs_view(changelogs@),
            id@ == lower_seq(nso_binary_id@),
            crate::builder::lists_map(entries@, m),
            m == apply_changelog_patches(start, id@, cv.take(c as int)),
        decreases changelogs.len() - c,
    {
        let cl = changelogs[c];
        let ghost ps = cv[c as int].patches;
        assert(cv[c as int] == cl@);
        let ghost before = m;
        let mut p: usize = 0;
        assert(ps.take(0) =~= Seq::<crate::tkcl::wire::PatchView>::empty());
        while p < cl.patches.len()
            invariant
                p <= cl.patches.len(),
                ps == crate::tkcl::patches_view(cl.patches@),
                id@ == lower_seq(nso_binary_id@),
                crate::builder::lists_map(entries@, m),
                m == apply_patches(before, id@, ps.take(p as int)),
            decreases cl.patches.len() - p,
        {
            let patch = &cl.patches[p];
            assert(ps.take(p + 1).drop_last() =~= ps.take(p as int));
            assert(ps.take(p + 1).last() == patch@);
            if crate::text::str_eq_ignore_case(patch.nso_binary_id.as_str(), id.as_str()) {
                let ghost acc = m;
                let mut k: usize = 0;
                assert(patch@.entries.take(0) =~= Seq::<(u32, u32)>::empty());
                while k < patch.entries.len()
                    invariant
                        k <= patch.entries.len(),
                        crate::builder::lists_map(entries@, m),
                        m == insert_all(acc, patch@.entries.take(k as int)),
                    decreases patch.entries.len() - k,
                {
                    let (offset, value) = patch.entries[k];
                    assert(patch@.entries.take(k + 1).drop_last() =~= patch@.entries.take(k as int));
                    assert(patch@.entries.take(k + 1).last() == (offset, value));
                    crate::builder::put_entry(&mut entries, offset, value, Ghost(m));
                    proof {
                        m = m.insert(offset, value);
                    }
                    k = k + 1;
                }
                assert(patch@.entries.take(k as int) =~= patch@.entries);
            }
            p = p + 1;
        }
        assert(ps.take(p as int) =~= ps);
        assert(cv.take(c + 1).drop_last() =~= cv.take(c as int));
        c = c + 1;
    }
    assert(cv.take(c as int) =~= cv);
    entries
}


// --- what to do with one target --------------------------------------------------------

/// The positions of the entries that carry a file (placeholders only name
/// the packs a vanilla file belongs in), in order.
pub open spec fn real_members(kinds: Seq<EntryType>) -> Seq<int>
    decreases kinds.len(),
{
    if kinds.len() == 0 {
        Seq::empty()
    } else {
        let front = real_members(kinds.drop_last());
        if kinds.last() != EntryType::Placeholder {
            front.push(kinds.len() - 1)
        } else {
            front
        }
    }
}

/// The members of `used` whose entry is of kind `k` (or not, `keep` false).
pub open spec fn members_where(kinds: Seq<EntryType>, used: Seq<int>, k: EntryType, keep: bool) -> Seq<int>
    decreases used.len(),
{
    if used.len() == 0 {
        Seq::empty()
    } else {
        let front = members_where(kinds, used.drop_last(), k, keep);
        if (kinds[used.last()] == k) == keep {
            front.push(used.last())
        } else {
            front
        }
    }
}

/// What a merge does with one target before it reads the game's file.
#[derive(Debug, PartialEq, Eq)]
pub enum TargetPlan {
    /// Serve this member's file as it is.
    Copy(usize),
    /// Only place the vanilla file in the target's packs.
    Placeholder,
    /// Merge these members, in order, with this merger.
    Merge(MergerKind, Vec<usize>),
}

pub enum TargetPlanView {
    Copy(int),
    Placeholder,
    Merge(MergerKindView, Seq<int>),
}

impl View for TargetPlan {
    type V = TargetPlanView;

    open spec fn view(&self) -> TargetPlanView {
        match self {
            TargetPlan::Copy(i) => TargetPlanView::Copy(*i as int),
            TargetPlan::Placeholder => TargetPlanView::Placeholder,
            TargetPlan::Merge(k, v) => TargetPlanView::Merge(k@, v@.map_values(|i: usize| i as int)),
        }
    }
}

/// Texture changelogs cannot be applied: of a combined texture archive only
/// whole files are used.
pub open spec fn skipped_textures(canonical: Seq<char>, kinds: Seq<EntryType>) -> int {
    if merger_spec(canonical) == Some(MergerKindView::Bntx) {
        members_where(kinds, real_members(kinds), EntryType::Changelog, true).len() as int
    } else {
        0
    }
}

/// What a merge does with a target before reading the game's file: files no merger
/// handles (and combined textures) come from the highest priority member,
/// a target without files only places the vanilla file in its packs, the
/// others are merged.
pub open spec fn target_plan(canonical: Seq<char>, kinds: Seq<EntryType>) -> TargetPlanView {
    let kind = merger_spec(canonical);
    let used = real_members(kinds);
    if kind == Some(MergerKindView::Bntx) {
        let whole = members_where(kinds, used, EntryType::Changelog, false);
        if whole.len() > 0 {
            TargetPlanView::Copy(whole.last())
        } else {
            TargetPlanView::Placeholder
        }
    } else {
        match kind {
            None => if used.len() > 0 {
                TargetPlanView::Copy(used.last())
            } else {
                TargetPlanView::Placeholder
            },
            Some(k) => if used.len() == 0 {
                TargetPlanView::Placeholder
            } else {
                TargetPlanView::Merge(k, used)
            },
        }
    }
}

fn real_members_of(kinds: &[EntryType]) -> (r: Vec<usize>)
    ensures
        r@.map_values(|i: usize| i as int) == real_members(kinds@),
        forall|j: int| 0 <= j < r@.len() ==> r@[j] < kinds@.len(),
{
    let mut r: Vec<usize> = Vec::new();
    let mut i: usize = 0;
    assert(kinds@.take(0) =~= Seq::<EntryType>::empty());
    while i < kinds.len()
        invariant
            i <= kinds.len(),
            r@.map_values(|x: usize| x as int) == real_members(kinds@.take(i as int)),
            forall|j: int| 0 <= j < r@.len() ==> r@[j] < i,
        decreases kinds.len() - i,
    {
        assert(kinds@.take(i + 1).drop_last() =~= kinds@.take(i as int));
        if kinds[i] != EntryType::Placeholder {
            r.push(i);
            assert(r@.map_values(|x: usize| x as int) =~= real_members(kinds@.take(i as int)).push(i as int));
        }
        i = i + 1;
    }
    assert(kinds@.take(i as int) =~= kinds@);
    r
}

fn members_where_of(kinds: &[EntryType], used: &Vec<usize>, k: EntryType, keep: bool) -> (r: Vec<usize>)
    requires
        forall|j: int| 0 <= j < used@.len() ==> used@[j] < kinds@.len(),
    ensures
        r@.map_values(|i: usize| i as int) == members_where(
            kinds@,
            used@.map_values(|i: usize| i as int),
            k,
            keep,
        ),
        forall|j: int| 0 <= j < r@.len() ==> r@[j] < kinds@.len(),
{
    let ghost u = used@.map_values(|i: usize| i as int);
    let mut r: Vec<usize> = Vec::new();
    let mut i: usize = 0;
    assert(u.take(0) =~= Seq::<int>::empty());
    while i < used.len()
        invariant
            i <= used.len(),
            u == used@.map_values(|x: usize| x as int),
            forall|j: int| 0 <= j < used@.len() ==> used@[j] < kinds@.len(),
            r@.map_values(|x: usize| x as int) == members_where(kinds@, u.take(i as int), k, keep),
            forall|j: int| 0 <= j < r@.len() ==> r@[j] < kinds@.len(),
        decreases used.len() - i,
    {
        assert(u.take(i + 1).drop_last() =~= u.take(i as int));
        assert(u.take(i + 1).last() == used@[i as int] as int);
        let m = used[i];
        if (kinds[m] == k) == keep {
            r.push(m);
            assert(r@.map_values(|x: usize| x as int) =~= members_where(kinds@, u.take(i as int), k, keep).push(
                m as int,
            ));
        }
        i = i + 1;
    }
    assert(u.take(i as int) =~= u);
    r
}

/// What to do with a
/// target whose members' entries are of the kinds `kinds` (lowest priority
/// first), and how many texture changelogs had to be skipped.
pub fn plan_target(canonical: &str, kinds: &[EntryType]) -> (r: (TargetPlan, usize))
    ensures
        r.0@ == target_plan(canonical@, kinds@),
        r.1 == skipped_textures(canonical@, kinds@),
{
    let kind = merger_for(canonical);
    let used = real_members_of(kinds);
    match kind {
        Some(MergerKind::Bntx) => {
            let changelogs = members_where_of(kinds, &used, EntryType::Changelog, true);
            let whole = members_where_of(kinds, &used, EntryType::Changelog, false);
            let plan = if whole.len() > 0 {
                TargetPlan::Copy(whole[whole.len() - 1])
            } else {
                TargetPlan::Placeholder
            };
            (plan, changelogs.len())
        },
        None => {
            let plan = if used.len() > 0 {
                TargetPlan::Copy(used[used.len() - 1])
            } else {
                TargetPlan::Placeholder
            };
            (plan, 0)
        },
        Some(k) => {
            let plan = if used.len() == 0 {
                TargetPlan::Placeholder
            } else {
                TargetPlan::Merge(k, used)
            };
            (plan, 0)
        },
    }
}

/// What a merge does with a target to merge once it knows the game's file.
#[derive(Debug, Clone, Copy, PartialEq, Eq, Structural)]
pub enum VanillaPlan {
    /// Changelogs of a file the game should have but could not be read:
    /// nothing can be merged.
    Missing,
    /// A new file one mod ships: served as it is.
    Copy(usize),
    /// New files several mods ship: merged with the first as the base.
    MergeCustom,
    /// Merged over the game's file.
    MergeVanilla,
}

/// What a merge does once the game's file was looked for: `has_vanilla`
/// when it was read, `found_missing` when the game should have it but it
/// could not be read, `key_kind` the kind of the target's first entry, and
/// `used` the members to merge.
pub open spec fn vanilla_plan(
    has_vanilla: bool,
    found_missing: bool,
    key_kind: EntryType,
    kinds: Seq<EntryType>,
    used: Seq<int>,
) -> VanillaPlan {
    if has_vanilla {
        VanillaPlan::MergeVanilla
    } else if used.len() == 1 {
        if found_missing && key_kind == EntryType::Changelog {
            VanillaPlan::Missing
        } else {
            VanillaPlan::Copy(used[0] as usize)
        }
    } else if found_missing && members_where(kinds, used, EntryType::Changelog, true).len() > 0 {
        VanillaPlan::Missing
    } else {
        VanillaPlan::MergeCustom
    }
}

pub fn plan_vanilla(
    has_vanilla: bool,
    found_missing: bool,
    key_kind: EntryType,
    kinds: &[EntryType],
    used: &Vec<usize>,
) -> (r: VanillaPlan)
    requires
        used@.len() > 0,
        forall|j: int| 0 <= j < used@.len() ==> used@[j] < kinds@.len(),
    ensures
        r == vanilla_plan(has_vanilla, found_missing, key_kind, kinds@, used@.map_values(|i: usize| i as int)),
{
    if has_vanilla {
        VanillaPlan::MergeVanilla
    } else if used.len() == 1 {
        if found_missing && key_kind == EntryType::Changelog {
            VanillaPlan::Missing
        } else {
            VanillaPlan::Copy(used[0])
        }
    } else {
        let changelogs = members_where_of(kinds, used, EntryType::Changelog, true);
        if found_missing && changelogs.len() > 0 {
            VanillaPlan::Missing
        } else {
            VanillaPlan::MergeCustom
        }
    }
}

/// The member a failed merge falls back to: the highest priority whole file.
pub fn fallback_member(kinds: &[EntryType], used: &Vec<usize>) -> (r: Option<usize>)
    requires
        forall|j: int| 0 <= j < used@.len() ==> used@[j] < kinds@.len(),
    ensures
        ({
            let copies = members_where(kinds@, used@.map_values(|i: usize| i as int), EntryType::Copy, true);
            match r {
                Some(m) => copies.len() > 0 && m == copies.last(),
                None => copies.len() == 0,
            }
        }),
{
    let copies = members_where_of(kinds, used, EntryType::Copy, true);
    if copies.len() > 0 {
        Some(copies[copies.len() - 1])
    } else {
        None
    }
}


/// Of new files several mods ship, the first is
/// the base; the changelogs among the others are merged as they are and the
/// whole files are first turned into changelogs against the base, unless the
/// base is itself a changelog or no other member is one, when all of them
/// are turned into changelogs.
pub open spec fn custom_inputs(kinds: Seq<EntryType>, used: Seq<int>) -> (Seq<int>, Seq<int>) {
    let rest = used.skip(1);
    let changelogs = members_where(kinds, rest, EntryType::Changelog, true);
    if kinds[used[0]] != EntryType::Copy || changelogs.len() == 0 {
        (Seq::empty(), rest)
    } else {
        (changelogs, members_where(kinds, rest, EntryType::Changelog, false))
    }
}

/// The members merged as they are, and those turned into changelogs against
/// the first, when new files several mods ship are merged.
pub fn custom_merge_inputs(kinds: &[EntryType], used: &Vec<usize>) -> (r: (Vec<usize>, Vec<usize>))
    requires
        used@.len() > 0,
        forall|j: int| 0 <= j < used@.len() ==> used@[j] < kinds@.len(),
    ensures
        (r.0@.map_values(|i: usize| i as int), r.1@.map_values(|i: usize| i as int)) == custom_inputs(
            kinds@,
            used@.map_values(|i: usize| i as int),
        ),
{
    let ghost u = used@.map_values(|i: usize| i as int);
    let mut rest: Vec<usize> = Vec::new();
    let mut i: usize = 1;
    while i < used.len()
        invariant
            1 <= i <= used.len(),
            u == used@.map_values(|x: usize| x as int),
            forall|j: int| 0 <= j < used@.len() ==> used@[j] < kinds@.len(),
            rest@.map_values(|x: usize| x as int) == u.subrange(1, i as int),
            forall|j: int| 0 <= j < rest@.len() ==> rest@[j] < kinds@.len(),
        decreases used.len() - i,
    {
        let ghost before = rest@;
        rest.push(used[i]);
        assert(u[i as int] == used@[i as int] as int);
        assert(u.subrange(1, i + 1) =~= u.subrange(1, i as int).push(u[i as int]));
        assert(rest@ =~= before.push(used@[i as int]));
        assert(rest@.map_values(|x: usize| x as int) =~= before.map_values(|x: usize| x as int).push(
            used@[i as int] as int,
        ));
        assert(rest@.map_values(|x: usize| x as int) =~= u.subrange(1, i + 1));
        i = i + 1;
    }
    assert(u.subrange(1, u.len() as int) =~= u.skip(1));
    let changelogs = members_where_of(kinds, &rest, EntryType::Changelog, true);
    if kinds[used[0]] != EntryType::Copy || changelogs.len() == 0 {
        let none: Vec<usize> = Vec::new();
        assert(none@.map_values(|x: usize| x as int) =~= Seq::<int>::empty());
        (none, rest)
    } else {
        let copies = members_where_of(kinds, &rest, EntryType::Changelog, false);
        (changelogs, copies)
    }
}


// --- archives --------------------------------------------------------------------------

/// The groups of equal names, in the order the names first appear, each
/// with the positions of its names in order.
pub open spec fn name_groups(names: Seq<Seq<char>>) -> Seq<(Seq<char>, Seq<int>)>
    decreases names.len(),
{
    if names.len() == 0 {
        Seq::empty()
    } else {
        let acc = name_groups(names.drop_last());
        let name = names.last();
        let i = name_group_index(acc, name);
        if i >= 0 {
            acc.update(i, (name, acc[i].1.push(names.len() - 1)))
        } else {
            acc.push((name, seq![names.len() - 1]))
        }
    }
}

/// The first group named `name`, or -1.
pub open spec fn name_group_index(groups: Seq<(Seq<char>, Seq<int>)>, name: Seq<char>) -> int
    decreases groups.len(),
{
    if groups.len() == 0 {
        -1
    } else {
        let i = name_group_index(groups.drop_last(), name);
        if i >= 0 {
            i
        } else if groups.last().0 == name {
            groups.len() - 1
        } else {
            -1
        }
    }
}

proof fn lemma_name_group_index(g: Seq<(Seq<char>, Seq<int>)>, name: Seq<char>)
    ensures
        -1 <= name_group_index(g, name) < g.len(),
        name_group_index(g, name) >= 0 ==> g[name_group_index(g, name)].0 == name,
        name_group_index(g, name) == -1 ==> forall|j: int| 0 <= j < g.len() ==> g[j].0 != name,
        forall|j: int| 0 <= j < g.len() && #[trigger] g[j].0 == name ==> 0 <= name_group_index(g, name) <= j,
    decreases g.len(),
{
    if g.len() > 0 {
        lemma_name_group_index(g.drop_last(), name);
        let i = name_group_index(g.drop_last(), name);
        if i == -1 {
            assert forall|j: int| 0 <= j < g.len() - 1 implies g[j].0 != name by {
                assert(g.drop_last()[j] == g[j]);
            }
        } else {
            assert(g.drop_last()[i] == g[i]);
        }
        assert forall|j: int| 0 <= j < g.len() && #[trigger] g[j].0 == name implies 0 <= name_group_index(
            g,
            name,
        ) <= j by {
            if j < g.len() - 1 {
                assert(g.drop_last()[j] == g[j]);
            }
        }
    }
}

/// Groups as positions, names read from `names`.
pub open spec fn groups_view(gs: Seq<Vec<usize>>, names: Seq<Seq<char>>) -> Seq<(Seq<char>, Seq<int>)> {
    gs.map_values(|g: Vec<usize>| (names[g@[0] as int], g@.map_values(|i: usize| i as int)))
}

/// Positions of equal names grouped, in the order the names first appear.
pub fn group_names(names: &[String]) -> (r: Vec<Vec<usize>>)
    ensures
        groups_view(r@, crate::tkcl::codec::strs(names@)) == name_groups(crate::tkcl::codec::strs(names@)),
        forall|g: int| 0 <= g < r@.len() ==> (#[trigger] r@[g])@.len() > 0 && forall|j: int|
            0 <= j < r@[g]@.len() ==> r@[g]@[j] < names@.len(),
{
    let ghost ns = crate::tkcl::codec::strs(names@);
    let mut groups: Vec<Vec<usize>> = Vec::new();
    let mut i: usize = 0;
    assert(ns.take(0) =~= Seq::<Seq<char>>::empty());
    assert(groups_view(groups@, ns) =~= Seq::<(Seq<char>, Seq<int>)>::empty());
    while i < names.len()
        invariant
            i <= names.len(),
            ns == crate::tkcl::codec::strs(names@),
            groups_view(groups@, ns) == name_groups(ns.take(i as int)),
            forall|g: int| 0 <= g < groups@.len() ==> (#[trigger] groups@[g])@.len() > 0 && forall|j: int|
                0 <= j < groups@[g]@.len() ==> groups@[g]@[j] < i,
        decreases names.len() - i,
    {
        let ghost acc = groups_view(groups@, ns);
        assert(ns.take(i + 1).drop_last() =~= ns.take(i as int));
        assert(ns.take(i + 1).last() == names@[i as int]@);
        proof {
            lemma_name_group_index(acc, names@[i as int]@);
        }
        let mut g: usize = 0;
        let mut found = false;
        while g < groups.len()
            invariant_except_break
                !found,
            invariant
                g <= groups.len(),
                i < names.len(),
                ns == crate::tkcl::codec::strs(names@),
                acc == groups_view(groups@, ns),
                forall|k: int| 0 <= k < groups@.len() ==> (#[trigger] groups@[k])@.len() > 0 && forall|j: int|
                    0 <= j < groups@[k]@.len() ==> groups@[k]@[j] < i,
                forall|k: int| 0 <= k < g ==> acc[k].0 != names@[i as int]@,
            ensures
                found ==> g < groups.len() && acc[g as int].0 == names@[i as int]@,
                !found ==> g >= groups.len(),
            decreases groups.len() - g,
        {
            let first = groups[g][0];
            assert(acc[g as int].0 == names@[first as int]@);
            if crate::text::str_eq(names[first].as_str(), names[i].as_str()) {
                found = true;
                break;
            }
            g = g + 1;
        }
        let ghost old_groups = groups@;
        if found {
            assert(acc[g as int].0 == names@[i as int]@);
            assert(name_group_index(acc, names@[i as int]@) == g) by {
                let idx = name_group_index(acc, names@[i as int]@);
                assert(0 <= idx <= g);
                if idx < g {
                    assert(acc[idx].0 != names@[i as int]@);
                }
            }
            groups[g].push(i);
            proof {
                assert(groups@[g as int]@.map_values(|x: usize| x as int) =~= old_groups[g as int]@.map_values(
                    |x: usize| x as int,
                ).push(i as int));
                assert(groups_view(groups@, ns)[g as int] == (
                    names@[i as int]@,
                    acc[g as int].1.push(i as int),
                ));
                assert(groups@[g as int]@ =~= old_groups[g as int]@.push(i));
                assert(groups@ =~= old_groups.update(g as int, groups@[g as int]));
                assert(groups@[g as int]@[0] == old_groups[g as int]@[0]);
                assert(groups_view(groups@, ns) =~= acc.update(
                    g as int,
                    (names@[i as int]@, acc[g as int].1.push(i as int)),
                ));
            }
        } else {
            assert(acc.len() == groups@.len());
            assert(name_group_index(acc, names@[i as int]@) == -1) by {
                if name_group_index(acc, names@[i as int]@) >= 0 {
                    assert(acc[name_group_index(acc, names@[i as int]@)].0 == names@[i as int]@);
                }
            }
            let mut one: Vec<usize> = Vec::new();
            one.push(i);
            groups.push(one);
            proof {
                assert(groups@ =~= old_groups.push(groups@.last()));
                assert(groups@.last()@ =~= seq![i]);
                assert(ns[i as int] == names@[i as int]@);
                assert(groups@.last()@.map_values(|x: usize| x as int) =~= seq![i as int]);
                assert(groups_view(groups@, ns) =~= acc.push((names@[i as int]@, seq![i as int])));
            }
        }
        i = i + 1;
    }
    assert(ns.take(i as int) =~= ns);
    groups
}

/// Whether a file is the mark TKMM leaves for a deleted one.
pub open spec fn is_deleted_mark(data: Seq<u8>) -> bool {
    data == seq![0x54u8, 0x4Bu8, 0x53u8, 0x43u8, 0x52u8, 0x4Du8, 0x56u8, 0x44u8]
}

pub fn deleted_mark(data: &[u8]) -> (r: bool)
    ensures
        r == is_deleted_mark(data@),
{
    let mark: [u8; 8] = crate::builder::DELETED_MARK;
    if data.len() != 8 {
        return false;
    }
    let mut i: usize = 0;
    while i < 8
        invariant
            data@.len() == 8,
            mark@ == seq![0x54u8, 0x4Bu8, 0x53u8, 0x43u8, 0x52u8, 0x4Du8, 0x56u8, 0x44u8],
            i <= 8,
            forall|j: int| 0 <= j < i ==> data@[j] == mark@[j],
        decreases 8 - i,
    {
        if data[i] != mark[i] {
            return false;
        }
        i = i + 1;
    }
    assert(data@ =~= mark@);
    true
}

proof fn lemma_lits_differ(a: Seq<char>, b: Seq<char>, i: int)
    requires
        0 <= i < a.len(),
        i < b.len(),
        a[i] != b[i],
    ensures
        a != b,
{
}

/// Paths of no table of their own: neither the save data list nor an
/// RSDB table.
pub open spec fn plain_path(c: Seq<char>) -> bool {
    c != "GameData/GameDataList.Product.byml"@ && c != "RSDB/Tag.Product.rstbl.byml"@ && row_key_spec(c) is None
}

proof fn lemma_merger_pack(c: Seq<char>)
    requires
        plain_path(c),
        extension_spec(c) == ".pack"@,
    ensures
        merger_spec(c) == Some(MergerKindView::Pack),
{
    reveal_strlit(".pack");
    reveal_strlit(".bfarc");
    reveal_strlit(".bkres");
    reveal_strlit(".blarc");
    reveal_strlit(".genvb");
    reveal_strlit(".sarc");
    reveal_strlit(".ta");
    reveal_strlit(".bntx");
    reveal_strlit(".byml");
    reveal_strlit(".bgyml");
    reveal_strlit(".msbt");
}

proof fn lemma_merger_bfarc(c: Seq<char>)
    requires
        plain_path(c),
        extension_spec(c) == ".bfarc"@,
    ensures
        merger_spec(c) == Some(MergerKindView::Sarc),
{
    reveal_strlit(".pack");
    reveal_strlit(".bfarc");
    reveal_strlit(".bkres");
    reveal_strlit(".blarc");
    reveal_strlit(".genvb");
    reveal_strlit(".sarc");
    reveal_strlit(".ta");
    reveal_strlit(".bntx");
    reveal_strlit(".byml");
    reveal_strlit(".bgyml");
    reveal_strlit(".msbt");
    assert(GAMEDATA_CANONICAL@ == "GameData/GameDataList.Product.byml"@);
    assert(TAG_TABLE@ == "RSDB/Tag.Product.rstbl.byml"@);
    assert(".bfarc"@.len() == 6 && ".pack"@.len() == 5);
    assert(merger_spec(c) == (if extension_spec(c) == ".pack"@ {
        Some(MergerKindView::Pack)
    } else {
        Some(MergerKindView::Sarc)
    }));
}

proof fn lemma_merger_bkres(c: Seq<char>)
    requires
        plain_path(c),
        extension_spec(c) == ".bkres"@,
    ensures
        merger_spec(c) == Some(MergerKindView::Sarc),
{
    reveal_strlit(".pack");
    reveal_strlit(".bfarc");
    reveal_strlit(".bkres");
    reveal_strlit(".blarc");
    reveal_strlit(".genvb");
    reveal_strlit(".sarc");
    reveal_strlit(".ta");
    reveal_strlit(".bntx");
    reveal_strlit(".byml");
    reveal_strlit(".bgyml");
    reveal_strlit(".msbt");
    assert(".bkres"@[2] == 'k' && ".bfarc"@[2] == 'f');
    lemma_lits_differ(".bkres"@, ".bfarc"@, 2);
}

proof fn lemma_merger_blarc(c: Seq<char>)
    requires
        plain_path(c),
        extension_spec(c) == ".blarc"@,
    ensures
        merger_spec(c) == Some(MergerKindView::Sarc),
{
    reveal_strlit(".pack");
    reveal_strlit(".bfarc");
    reveal_strlit(".bkres");
    reveal_strlit(".blarc");
    reveal_strlit(".genvb");
    reveal_strlit(".sarc");
    reveal_strlit(".ta");
    reveal_strlit(".bntx");
    reveal_strlit(".byml");
    reveal_strlit(".bgyml");
    reveal_strlit(".msbt");
    assert(".blarc"@[2] == 'l' && ".bfarc"@[2] == 'f');
    lemma_lits_differ(".blarc"@, ".bfarc"@, 2);
    assert(".blarc"@[2] == 'l' && ".bkres"@[2] == 'k');
    lemma_lits_differ(".blarc"@, ".bkres"@, 2);
}

proof fn lemma_merger_genvb(c: Seq<char>)
    requires
        plain_path(c),
        extension_spec(c) == ".genvb"@,
    ensures
        merger_spec(c) == Some(MergerKindView::Sarc),
{
    reveal_strlit(".pack");
    reveal_strlit(".bfarc");
    reveal_strlit(".bkres");
    reveal_strlit(".blarc");
    reveal_strlit(".genvb");
    reveal_strlit(".sarc");
    reveal_strlit(".ta");
    reveal_strlit(".bntx");
    reveal_strlit(".byml");
    reveal_strlit(".bgyml");
    reveal_strlit(".msbt");
    assert(".genvb"@[1] == 'g' && ".bfarc"@[1] == 'b');
    lemma_lits_differ(".genvb"@, ".bfarc"@, 1);
    assert(".genvb"@[1] == 'g' && ".bkres"@[1] == 'b');
    lemma_lits_differ(".genvb"@, ".bkres"@, 1);
    assert(".genvb"@[1] == 'g' && ".blarc"@[1] == 'b');
    lemma_lits_differ(".genvb"@, ".blarc"@, 1);
}

proof fn lemma_merger_sarc(c: Seq<char>)
    requires
        plain_path(c),
        extension_spec(c) == ".sarc"@,
    ensures
        merger_spec(c) == Some(MergerKindView::Sarc),
{
    reveal_strlit(".pack");
    reveal_strlit(".bfarc");
    reveal_strlit(".bkres");
    reveal_strlit(".blarc");
    reveal_strlit(".genvb");
    reveal_strlit(".sarc");
    reveal_strlit(".ta");
    reveal_strlit(".bntx");
    reveal_strlit(".byml");
    reveal_strlit(".bgyml");
    reveal_strlit(".msbt");
    assert(".sarc"@[1] == 's' && ".pack"@[1] == 'p');
    lemma_lits_differ(".sarc"@, ".pack"@, 1);
}

proof fn lemma_merger_ta(c: Seq<char>)
    requires
        plain_path(c),
        extension_spec(c) == ".ta"@,
    ensures
        merger_spec(c) == Some(MergerKindView::Sarc),
{
    reveal_strlit(".pack");
    reveal_strlit(".bfarc");
    reveal_strlit(".bkres");
    reveal_strlit(".blarc");
    reveal_strlit(".genvb");
    reveal_strlit(".sarc");
    reveal_strlit(".ta");
    reveal_strlit(".bntx");
    reveal_strlit(".byml");
    reveal_strlit(".bgyml");
    reveal_strlit(".msbt");
    assert(GAMEDATA_CANONICAL@ == "GameData/GameDataList.Product.byml"@);
    assert(TAG_TABLE@ == "RSDB/Tag.Product.rstbl.byml"@);
    assert(".ta"@.len() == 3 && ".pack"@.len() == 5);
    assert(merger_spec(c) == (if extension_spec(c) == ".pack"@ {
        Some(MergerKindView::Pack)
    } else {
        Some(MergerKindView::Sarc)
    }));
}

proof fn lemma_merger_byml(c: Seq<char>)
    requires
        plain_path(c),
        extension_spec(c) == ".byml"@,
    ensures
        merger_spec(c) == Some(MergerKindView::Byml),
{
    reveal_strlit(".pack");
    reveal_strlit(".bfarc");
    reveal_strlit(".bkres");
    reveal_strlit(".blarc");
    reveal_strlit(".genvb");
    reveal_strlit(".sarc");
    reveal_strlit(".ta");
    reveal_strlit(".bntx");
    reveal_strlit(".byml");
    reveal_strlit(".bgyml");
    reveal_strlit(".msbt");
    assert(".byml"@[1] == 'b' && ".pack"@[1] == 'p');
    lemma_lits_differ(".byml"@, ".pack"@, 1);
    assert(".byml"@[1] == 'b' && ".sarc"@[1] == 's');
    lemma_lits_differ(".byml"@, ".sarc"@, 1);
    assert(".byml"@[2] == 'y' && ".bntx"@[2] == 'n');
    lemma_lits_differ(".byml"@, ".bntx"@, 2);
}

proof fn lemma_merger_bgyml(c: Seq<char>)
    requires
        plain_path(c),
        extension_spec(c) == ".bgyml"@,
    ensures
        merger_spec(c) == Some(MergerKindView::Byml),
{
    reveal_strlit(".pack");
    reveal_strlit(".bfarc");
    reveal_strlit(".bkres");
    reveal_strlit(".blarc");
    reveal_strlit(".genvb");
    reveal_strlit(".sarc");
    reveal_strlit(".ta");
    reveal_strlit(".bntx");
    reveal_strlit(".byml");
    reveal_strlit(".bgyml");
    reveal_strlit(".msbt");
    assert(".bgyml"@[2] == 'g' && ".bfarc"@[2] == 'f');
    lemma_lits_differ(".bgyml"@, ".bfarc"@, 2);
    assert(".bgyml"@[2] == 'g' && ".bkres"@[2] == 'k');
    lemma_lits_differ(".bgyml"@, ".bkres"@, 2);
    assert(".bgyml"@[2] == 'g' && ".blarc"@[2] == 'l');
    lemma_lits_differ(".bgyml"@, ".blarc"@, 2);
    assert(".bgyml"@[1] == 'b' && ".genvb"@[1] == 'g');
    lemma_lits_differ(".bgyml"@, ".genvb"@, 1);
}

proof fn lemma_merger_msbt(c: Seq<char>)
    requires
        plain_path(c),
        extension_spec(c) == ".msbt"@,
    ensures
        merger_spec(c) == Some(MergerKindView::Msbt),
{
    reveal_strlit(".pack");
    reveal_strlit(".bfarc");
    reveal_strlit(".bkres");
    reveal_strlit(".blarc");
    reveal_strlit(".genvb");
    reveal_strlit(".sarc");
    reveal_strlit(".ta");
    reveal_strlit(".bntx");
    reveal_strlit(".byml");
    reveal_strlit(".bgyml");
    reveal_strlit(".msbt");
    assert(".msbt"@[1] == 'm' && ".pack"@[1] == 'p');
    lemma_lits_differ(".msbt"@, ".pack"@, 1);
    assert(".msbt"@[1] == 'm' && ".sarc"@[1] == 's');
    lemma_lits_differ(".msbt"@, ".sarc"@, 1);
    assert(".msbt"@[1] == 'm' && ".bntx"@[1] == 'b');
    lemma_lits_differ(".msbt"@, ".bntx"@, 1);
    assert(".msbt"@[1] == 'm' && ".byml"@[1] == 'b');
    lemma_lits_differ(".msbt"@, ".byml"@, 1);
}

proof fn lemma_merger_none(c: Seq<char>)
    requires
        plain_path(c),
        !(extension_spec(c) == ".bntx"@ && ends_with(c, "__Combined.bntx"@)),
        extension_spec(c) != ".pack"@,
        extension_spec(c) != ".bfarc"@,
        extension_spec(c) != ".bkres"@,
        extension_spec(c) != ".blarc"@,
        extension_spec(c) != ".genvb"@,
        extension_spec(c) != ".sarc"@,
        extension_spec(c) != ".ta"@,
        extension_spec(c) != ".byml"@,
        extension_spec(c) != ".bgyml"@,
        extension_spec(c) != ".msbt"@,
    ensures
        merger_spec(c) is None,
{
    reveal_strlit(".pack");
    reveal_strlit(".bfarc");
    reveal_strlit(".bkres");
    reveal_strlit(".blarc");
    reveal_strlit(".genvb");
    reveal_strlit(".sarc");
    reveal_strlit(".ta");
    reveal_strlit(".bntx");
    reveal_strlit(".byml");
    reveal_strlit(".bgyml");
    reveal_strlit(".msbt");
}

proof fn lemma_merger_bntx(c: Seq<char>)
    requires
        plain_path(c),
        extension_spec(c) == ".bntx"@,
        ends_with(c, "__Combined.bntx"@),
    ensures
        merger_spec(c) == Some(MergerKindView::Bntx),
{
    reveal_strlit(".pack");
    reveal_strlit(".bfarc");
    reveal_strlit(".bkres");
    reveal_strlit(".blarc");
    reveal_strlit(".genvb");
    reveal_strlit(".sarc");
    reveal_strlit(".ta");
    reveal_strlit(".bntx");
    reveal_strlit(".byml");
    reveal_strlit(".bgyml");
    reveal_strlit(".msbt");
    assert(".bntx"@[1] == 'b' && ".pack"@[1] == 'p');
    lemma_lits_differ(".bntx"@, ".pack"@, 1);
    assert(".bntx"@[1] == 'b' && ".sarc"@[1] == 's');
    lemma_lits_differ(".bntx"@, ".sarc"@, 1);
    assert(".bntx"@.len() == 5 && ".bfarc"@.len() == 6 && ".bkres"@.len() == 6 && ".blarc"@.len() == 6
        && ".genvb"@.len() == 6 && ".ta"@.len() == 3);
    assert(GAMEDATA_CANONICAL@ == "GameData/GameDataList.Product.byml"@);
    assert(TAG_TABLE@ == "RSDB/Tag.Product.rstbl.byml"@);
}

/// The merger of a game file: the save data list and the RSDB tables have
/// their own; otherwise by extension: packs as packs; .bfarc, .bkres,
/// .blarc, .genvb, .sarc and .ta archives as archives; combined textures
/// (`__Combined.bntx`) whole; .byml and .bgyml as BYML; .msbt message files
/// text by text; nothing else has one.
pub proof fn lemma_mergers(c: Seq<char>)
    ensures
        c == "GameData/GameDataList.Product.byml"@ ==> merger_spec(c) == Some(MergerKindView::GameData),
        c == "RSDB/Tag.Product.rstbl.byml"@ ==> merger_spec(c) == Some(MergerKindView::RsdbTag),
        c != "GameData/GameDataList.Product.byml"@ && c != "RSDB/Tag.Product.rstbl.byml"@ && row_key_spec(c)
            is Some ==> merger_spec(c) == Some(MergerKindView::RsdbRow(row_key_spec(c)->0)),
        plain_path(c) && extension_spec(c) == ".pack"@ ==> merger_spec(c) == Some(MergerKindView::Pack),
        plain_path(c) && extension_spec(c) == ".bfarc"@ ==> merger_spec(c) == Some(MergerKindView::Sarc),
        plain_path(c) && extension_spec(c) == ".bkres"@ ==> merger_spec(c) == Some(MergerKindView::Sarc),
        plain_path(c) && extension_spec(c) == ".blarc"@ ==> merger_spec(c) == Some(MergerKindView::Sarc),
        plain_path(c) && extension_spec(c) == ".genvb"@ ==> merger_spec(c) == Some(MergerKindView::Sarc),
        plain_path(c) && extension_spec(c) == ".sarc"@ ==> merger_spec(c) == Some(MergerKindView::Sarc),
        plain_path(c) && extension_spec(c) == ".ta"@ ==> merger_spec(c) == Some(MergerKindView::Sarc),
        plain_path(c) && extension_spec(c) == ".byml"@ ==> merger_spec(c) == Some(MergerKindView::Byml),
        plain_path(c) && extension_spec(c) == ".bgyml"@ ==> merger_spec(c) == Some(MergerKindView::Byml),
        plain_path(c) && extension_spec(c) == ".msbt"@ ==> merger_spec(c) == Some(MergerKindView::Msbt),
        plain_path(c) && extension_spec(c) == ".bntx"@ && ends_with(c, "__Combined.bntx"@) ==> merger_spec(c) == Some(
            MergerKindView::Bntx,
        ),
        plain_path(c) && !(extension_spec(c) == ".bntx"@ && ends_with(c, "__Combined.bntx"@)) && extension_spec(c) != ".pack"@ && extension_spec(c) != ".bfarc"@ && extension_spec(c) != ".bkres"@ && extension_spec(c) != ".blarc"@ && extension_spec(c) != ".genvb"@ && extension_spec(c) != ".sarc"@ && extension_spec(c) != ".ta"@ && extension_spec(c) != ".byml"@ && extension_spec(c) != ".bgyml"@ && extension_spec(c) != ".msbt"@ ==> merger_spec(c) is None,
{
    reveal_strlit("GameData/GameDataList.Product.byml");
    reveal_strlit("RSDB/Tag.Product.rstbl.byml");
    if c == "GameData/GameDataList.Product.byml"@ {
        assert(c == GAMEDATA_CANONICAL@);
    }
    if c == "RSDB/Tag.Product.rstbl.byml"@ {
        assert(c == TAG_TABLE@);
        assert(c != GAMEDATA_CANONICAL@);
    }
    if plain_path(c) && extension_spec(c) == ".pack"@ {
        lemma_merger_pack(c);
    }
    if plain_path(c) && extension_spec(c) == ".bfarc"@ {
        lemma_merger_bfarc(c);
    }
    if plain_path(c) && extension_spec(c) == ".bkres"@ {
        lemma_merger_bkres(c);
    }
    if plain_path(c) && extension_spec(c) == ".blarc"@ {
        lemma_merger_blarc(c);
    }
    if plain_path(c) && extension_spec(c) == ".genvb"@ {
        lemma_merger_genvb(c);
    }
    if plain_path(c) && extension_spec(c) == ".sarc"@ {
        lemma_merger_sarc(c);
    }
    if plain_path(c) && extension_spec(c) == ".ta"@ {
        lemma_merger_ta(c);
    }
    if plain_path(c) && extension_spec(c) == ".byml"@ {
        lemma_merger_byml(c);
    }
    if plain_path(c) && extension_spec(c) == ".bgyml"@ {
        lemma_merger_bgyml(c);
    }
    if plain_path(c) && extension_spec(c) == ".msbt"@ {
        lemma_merger_msbt(c);
    }
    if plain_path(c) && extension_spec(c) == ".bntx"@ && ends_with(c, "__Combined.bntx"@) {
        lemma_merger_bntx(c);
    }
    if plain_path(c) && !(extension_spec(c) == ".bntx"@ && ends_with(c, "__Combined.bntx"@)) && extension_spec(c) != ".pack"@ && extension_spec(c) != ".bfarc"@ && extension_spec(c) != ".bkres"@ && extension_spec(c) != ".blarc"@ && extension_spec(c) != ".genvb"@ && extension_spec(c) != ".sarc"@ && extension_spec(c) != ".ta"@ && extension_spec(c) != ".byml"@ && extension_spec(c) != ".bgyml"@ && extension_spec(c) != ".msbt"@ {
        lemma_merger_none(c);
    }
}

} // verus!
