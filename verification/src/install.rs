//! Installing a downloaded mod: what an extracted archive holds, the way
//! TKMM's archive reader sees it, and what moving it into a mod folder of its
//! own changes. Listing folders and moving files is the caller's; these
//! functions decide.

use vstd::prelude::*;
use vstd::utf8::encode_utf8;

use crate::mods::{
    has_extension, has_extension_spec, looks_like_romfs_spec, DirEntry, ModInfo, ModInfoView,
    ModKind, PLUGINS_DIR,
};
use crate::options::{text_less, text_lt, OptionMap, SpecGroup};
use crate::paths::{join, join_spec};
use crate::profile::{lists_folder, mods_view, Profile, ProfileMod, SpecProfileMod};
use crate::text::{
    chars_eq_ignore_case, chars_of, eq_ignore_case, is_control, is_control_char, is_ignore_case,
    is_whitespace, lower_chars, lower_seq, rfind_char, last_index_of, slice_of, string_of, trim,
    trim_chars, trim_end, trim_start,
};

verus! {

/// Something in an extracted archive that can become a mod.
#[derive(Debug, Clone, PartialEq, Eq)]
pub struct Candidate {
    pub kind: ModKind,
    /// The `.tkcl`, the folder holding `romfs`/`exefs`, or the romfs root.
    pub path: String,
    /// Where it sits in the archive ("" for the top), to tell options apart.
    pub label: String,
    /// Executables TotK mods cannot use through the merger (subsdk, main.npdm).
    pub has_code: bool,
    pub size: u64,
}

/// A candidate as values: kind, path, label, has code, size.
pub type CandidateView = (ModKind, Seq<char>, Seq<char>, bool, u64);

impl View for Candidate {
    type V = CandidateView;

    open spec fn view(&self) -> CandidateView {
        (self.kind, self.path@, self.label@, self.has_code, self.size)
    }
}

pub open spec fn candidates_view(s: Seq<Candidate>) -> Seq<CandidateView> {
    s.map_values(|c: Candidate| c@)
}

/// A mod to move into `<mods>/<folder>`.
pub struct InstallRequest<'a> {
    pub source: &'a str,
    pub kind: ModKind,
    pub folder: &'a str,
    pub info: ModInfo,
    /// An image to move next to the mod (e.g. a GameBanana screenshot).
    pub thumbnail: Option<&'a str>,
}

// --- folder names --------------------------------------------------------------------------

/// Characters FAT32 refuses in a name.
pub open spec fn is_reserved(c: char) -> bool {
    is_control(c) || c == '\\' || c == '/' || c == ':' || c == '*' || c == '?' || c == '"'
        || c == '<' || c == '>' || c == '|'
}

pub open spec fn fat32_char(c: char) -> char {
    if is_reserved(c) {
        '_'
    } else {
        c
    }
}

/// `str::trim_end_matches('.')`.
pub open spec fn trim_end_dots(s: Seq<char>) -> Seq<char>
    decreases s.len(),
{
    if s.len() > 0 && s.last() == '.' {
        trim_end_dots(s.drop_last())
    } else {
        s
    }
}

/// Trailing white space and dots dropped.
pub open spec fn strip_end(s: Seq<char>) -> Seq<char>
    decreases s.len(),
{
    if s.len() > 0 && (crate::text::is_ws(s.last()) || s.last() == '.') {
        strip_end(s.drop_last())
    } else {
        s
    }
}

/// The folder name made from a display name: reserved characters become
/// `_`, then white space and trailing dots go, then at most 64 characters
/// stay and white space and dots that end up at their end go too; "mod"
/// when nothing is left.
pub open spec fn folder_name_spec(name: Seq<char>) -> Seq<char> {
    let t = trim(trim_end_dots(trim(name.map_values(|c: char| fat32_char(c)))));
    let c = if t.len() > 64 {
        t.take(64)
    } else {
        t
    };
    let r = strip_end(c);
    if r.len() == 0 {
        "mod"@
    } else {
        r
    }
}

/// A name FAT32 accepts and that is trimmed: not empty, at most 64
/// characters, no reserved character, no white space at either end, no dot
/// at its end.
pub open spec fn fat32_name(r: Seq<char>) -> bool {
    &&& 0 < r.len() <= 64
    &&& forall|i: int| 0 <= i < r.len() ==> !is_reserved(#[trigger] r[i])
    &&& !crate::text::is_ws(r[0])
    &&& !crate::text::is_ws(r.last())
    &&& r.last() != '.'
}

proof fn lemma_strip_end(s: Seq<char>)
    ensures
        strip_end(s).len() <= s.len(),
        strip_end(s) == s.take(strip_end(s).len() as int),
        strip_end(s).len() > 0 ==> !crate::text::is_ws(strip_end(s).last()) && strip_end(s).last() != '.',
    decreases s.len(),
{
    if s.len() > 0 && (crate::text::is_ws(s.last()) || s.last() == '.') {
        lemma_strip_end(s.drop_last());
        assert(s.drop_last().take(strip_end(s).len() as int) =~= s.take(strip_end(s).len() as int));
    } else {
        assert(s.take(s.len() as int) =~= s);
    }
}

proof fn lemma_trim_start_suffix(s: Seq<char>)
    ensures
        trim_start(s).len() <= s.len(),
        trim_start(s) == s.skip(s.len() - trim_start(s).len()),
        trim_start(s).len() > 0 ==> !crate::text::is_ws(trim_start(s)[0]),
    decreases s.len(),
{
    if s.len() > 0 && crate::text::is_ws(s[0]) {
        lemma_trim_start_suffix(s.skip(1));
        assert(s.skip(1).skip(s.len() - 1 - trim_start(s).len()) =~= s.skip(s.len() - trim_start(s).len()));
    } else {
        assert(s.skip(0) =~= s);
    }
}

proof fn lemma_trim_end_prefix(s: Seq<char>)
    ensures
        trim_end(s).len() <= s.len(),
        trim_end(s) == s.take(trim_end(s).len() as int),
    decreases s.len(),
{
    if s.len() > 0 && crate::text::is_ws(s.last()) {
        lemma_trim_end_prefix(s.drop_last());
        assert(s.drop_last().take(trim_end(s).len() as int) =~= s.take(trim_end(s).len() as int));
    } else {
        assert(s.take(s.len() as int) =~= s);
    }
}

proof fn lemma_trim_end_dots_prefix(s: Seq<char>)
    ensures
        trim_end_dots(s).len() <= s.len(),
        trim_end_dots(s) == s.take(trim_end_dots(s).len() as int),
    decreases s.len(),
{
    if s.len() > 0 && s.last() == '.' {
        lemma_trim_end_dots_prefix(s.drop_last());
        assert(s.drop_last().take(trim_end_dots(s).len() as int) =~= s.take(trim_end_dots(s).len() as int));
    } else {
        assert(s.take(s.len() as int) =~= s);
    }
}

/// Trimming keeps a run of the characters it was given, the first one not
/// white space.
proof fn lemma_trim_run(s: Seq<char>)
    ensures
        exists|a: int, b: int| 0 <= a <= b <= s.len() && trim(s) == s.subrange(a, b),
        trim(s).len() > 0 ==> !crate::text::is_ws(trim(s)[0]),
{
    lemma_trim_start_suffix(s);
    let u = trim_start(s);
    lemma_trim_end_prefix(u);
    let a = s.len() - u.len();
    let b = a + trim_end(u).len();
    assert(trim(s) =~= s.subrange(a, b));
    if trim(s).len() > 0 {
        assert(trim(s)[0] == u[0]);
    }
}

fn fat32(c: char) -> (r: char)
    ensures
        r == fat32_char(c),
{
    if is_control_char(c) || c == '\\' || c == '/' || c == ':' || c == '*' || c == '?' || c == '"'
        || c == '<' || c == '>' || c == '|' {
        '_'
    } else {
        c
    }
}

/// A mod folder name made from a display name: what FAT32 accepts, trimmed.
pub fn folder_name(name: &str) -> (r: String)
    ensures
        r@ == folder_name_spec(name@),
        fat32_name(r@),
{
    let chars = chars_of(name);
    let mut cleaned: Vec<char> = Vec::new();
    let mut i: usize = 0;
    while i < chars.len()
        invariant
            i <= chars.len(),
            chars@ == name@,
            cleaned@ == chars@.take(i as int).map_values(|c: char| fat32_char(c)),
        decreases chars.len() - i,
    {
        cleaned.push(fat32(chars[i]));
        i = i + 1;
        assert(cleaned@ =~= chars@.take(i as int).map_values(|c: char| fat32_char(c)));
    }
    assert(chars@.take(chars.len() as int) =~= chars@);
    let t1 = trim_chars(cleaned.as_slice());
    let mut end: usize = t1.len();
    assert(t1@.take(end as int) =~= t1@);
    while end > 0 && t1[end - 1] == '.'
        invariant
            end <= t1.len(),
            trim_end_dots(t1@) == trim_end_dots(t1@.take(end as int)),
        decreases end,
    {
        assert(t1@.take(end as int).drop_last() =~= t1@.take(end - 1));
        end = end - 1;
    }
    let t2 = slice_of(t1.as_slice(), 0, end);
    assert(t2@ =~= t1@.take(end as int));
    let t3 = trim_chars(t2.as_slice());
    let n: usize = if t3.len() > 64 {
        64
    } else {
        t3.len()
    };
    let c = slice_of(t3.as_slice(), 0, n);
    proof {
        if t3.len() <= 64 {
            assert(c@ =~= t3@);
        } else {
            assert(c@ =~= t3@.take(64));
        }
    }
    let mut k: usize = c.len();
    assert(c@.take(k as int) =~= c@);
    while k > 0 && (is_whitespace(c[k - 1]) || c[k - 1] == '.')
        invariant
            k <= c.len(),
            strip_end(c@) == strip_end(c@.take(k as int)),
        decreases k,
    {
        assert(c@.take(k as int).drop_last() =~= c@.take(k - 1));
        k = k - 1;
    }
    let r = slice_of(c.as_slice(), 0, k);
    assert(r@ =~= c@.take(k as int));
    proof {
        reveal_strlit("mod");
        lemma_folder_name(name@);
    }
    if r.len() == 0 {
        let m = chars_of("mod");
        return string_of(m.as_slice());
    }
    string_of(r.as_slice())
}

/// What `folder_name` makes is a name FAT32 accepts, trimmed.
proof fn lemma_folder_name(name: Seq<char>)
    ensures
        fat32_name(folder_name_spec(name)),
{
    reveal_strlit("mod");
    let cleaned = name.map_values(|c: char| fat32_char(c));
    assert forall|i: int| 0 <= i < cleaned.len() implies !is_reserved(#[trigger] cleaned[i]) by {}
    let t0 = trim(cleaned);
    lemma_trim_run(cleaned);
    let (a0, b0) = choose|a: int, b: int| 0 <= a <= b <= cleaned.len() && t0 == cleaned.subrange(a, b);
    let d = trim_end_dots(t0);
    lemma_trim_end_dots_prefix(t0);
    let t = trim(d);
    lemma_trim_run(d);
    let (a1, b1) = choose|a: int, b: int| 0 <= a <= b <= d.len() && t == d.subrange(a, b);
    assert forall|i: int| 0 <= i < t.len() implies !is_reserved(#[trigger] t[i]) by {
        assert(t[i] == d[a1 + i]);
        assert(d[a1 + i] == t0[a1 + i]);
        assert(t0[a1 + i] == cleaned[a0 + a1 + i]);
    }
    let c = if t.len() > 64 {
        t.take(64)
    } else {
        t
    };
    let r = strip_end(c);
    lemma_strip_end(c);
    if r.len() > 0 {
        assert forall|i: int| 0 <= i < r.len() implies !is_reserved(#[trigger] r[i]) by {
            assert(r[i] == c[i]);
            assert(c[i] == t[i]);
        }
        assert(r[0] == t[0]);
    } else {
        let m = "mod"@;
        assert(m.len() == 3);
        assert forall|i: int| 0 <= i < m.len() implies !is_reserved(#[trigger] m[i]) by {}
    }
}

// --- what an archive holds -----------------------------------------------------------------

/// A file a merger cannot use: in `exefs`, anything but a patch.
pub open spec fn is_code_file(file: Seq<char>) -> bool {
    &&& !has_extension_spec(file, ".ips"@)
    &&& !has_extension_spec(file, ".pchtxt"@)
    &&& !(file.len() > 0 && file[0] == '.')
}

/// Whether the files of an `exefs` folder (paths relative to it) hold code.
pub fn has_code_files(files: &Vec<(String, u64)>) -> (r: bool)
    ensures
        r == exists|i: int| 0 <= i < files@.len() && is_code_file(#[trigger] files@[i].0@),
{
    let mut i: usize = 0;
    while i < files.len()
        invariant
            i <= files.len(),
            forall|j: int| 0 <= j < i ==> !is_code_file(#[trigger] files@[j].0@),
        decreases files.len() - i,
    {
        let f = files[i].0.as_str();
        let c = chars_of(f);
        if !has_extension(f, ".ips") && !has_extension(f, ".pchtxt") && !(c.len() > 0 && c[0]
            == '.') {
            assert(is_code_file(files@[i as int].0@));
            return true;
        }
        i = i + 1;
    }
    false
}

/// What a folder of an archive is, from its entries.
#[derive(Debug, Clone, PartialEq, Eq)]
pub enum Finding {
    /// It holds `romfs` or `exefs`: a mod folder; the name of its `exefs`.
    Folder { exefs: Option<String> },
    /// It holds romfs folders (`Pack`, `RSDB`...): a romfs root.
    Romfs,
    /// Nothing of that, but Skyline plugins: a mod that is only code.
    Plugins,
    /// None of these: the folders to look into.
    Descend(Vec<String>),
}

pub enum FindingView {
    Folder { exefs: Option<Seq<char>> },
    Romfs,
    Plugins,
    Descend(Seq<Seq<char>>),
}

impl View for Finding {
    type V = FindingView;

    open spec fn view(&self) -> FindingView {
        match self {
            Finding::Folder { exefs } => FindingView::Folder {
                exefs: match exefs {
                    Some(e) => Some(e@),
                    None => None,
                },
            },
            Finding::Romfs => FindingView::Romfs,
            Finding::Plugins => FindingView::Plugins,
            Finding::Descend(dirs) => FindingView::Descend(crate::options::strings_view(dirs@)),
        }
    }
}

/// The name of the first folder among `entries` called `name`, ignoring case.
pub open spec fn child(entries: Seq<DirEntry>, name: Seq<char>) -> Option<Seq<char>>
    decreases entries.len(),
{
    if entries.len() == 0 {
        None
    } else if entries[0].is_dir && eq_ignore_case(entries[0].name@, name) {
        Some(entries[0].name@)
    } else {
        child(entries.skip(1), name)
    }
}

/// The `.tkcl` files among `entries`, in their order.
pub open spec fn package_names(entries: Seq<DirEntry>) -> Seq<Seq<char>>
    decreases entries.len(),
{
    if entries.len() == 0 {
        Seq::empty()
    } else {
        let rest = package_names(entries.drop_last());
        let e = entries.last();
        if !e.is_dir && has_extension_spec(e.name@, ".tkcl"@) {
            rest.push(e.name@)
        } else {
            rest
        }
    }
}

/// The folders among `entries`, in their order.
pub open spec fn folder_names(entries: Seq<DirEntry>) -> Seq<Seq<char>>
    decreases entries.len(),
{
    if entries.len() == 0 {
        Seq::empty()
    } else {
        let rest = folder_names(entries.drop_last());
        if entries.last().is_dir {
            rest.push(entries.last().name@)
        } else {
            rest
        }
    }
}

pub open spec fn finding_of(entries: Seq<DirEntry>, has_plugins: bool) -> FindingView {
    let romfs = child(entries, "romfs"@);
    let exefs = child(entries, "exefs"@);
    if romfs is Some || exefs is Some {
        FindingView::Folder { exefs }
    } else if looks_like_romfs_spec(entries) {
        FindingView::Romfs
    } else if has_plugins {
        FindingView::Plugins
    } else {
        FindingView::Descend(folder_names(entries))
    }
}

fn find_child(entries: &Vec<DirEntry>, name: &str) -> (r: Option<String>)
    ensures
        match r {
            Some(n) => child(entries@, name@) == Some(n@),
            None => child(entries@, name@) is None,
        },
{
    let want = chars_of(name);
    let mut i: usize = 0;
    assert(entries@.skip(0) =~= entries@);
    while i < entries.len()
        invariant
            i <= entries.len(),
            want@ == name@,
            child(entries@, name@) == child(entries@.skip(i as int), name@),
        decreases entries.len() - i,
    {
        assert(entries@.skip(i as int)[0] == entries@[i as int]);
        assert(entries@.skip(i as int).skip(1) =~= entries@.skip(i + 1));
        if entries[i].is_dir {
            let n = chars_of(entries[i].name.as_str());
            if chars_eq_ignore_case(n.as_slice(), want.as_slice()) {
                return Some(string_of(n.as_slice()));
            }
        }
        i = i + 1;
    }
    None
}

/// The `.tkcl` files of a folder, and what the folder is. `has_plugins`:
/// whether it holds Skyline plugins.
pub fn scan_entries(entries: &Vec<DirEntry>, has_plugins: bool) -> (r: (Vec<String>, Finding))
    ensures
        crate::options::strings_view(r.0@) == package_names(entries@),
        r.1@ == finding_of(entries@, has_plugins),
{
    let mut packages: Vec<String> = Vec::new();
    let mut dirs: Vec<String> = Vec::new();
    let mut i: usize = 0;
    while i < entries.len()
        invariant
            i <= entries.len(),
            crate::options::strings_view(packages@) == package_names(entries@.take(i as int)),
            crate::options::strings_view(dirs@) == folder_names(entries@.take(i as int)),
        decreases entries.len() - i,
    {
        assert(entries@.take(i + 1).drop_last() =~= entries@.take(i as int));
        let e = &entries[i];
        if !e.is_dir && has_extension(e.name.as_str(), ".tkcl") {
            let ghost before = crate::options::strings_view(packages@);
            packages.push(crate::text::copy_string(&e.name));
            assert(crate::options::strings_view(packages@) =~= before.push(e.name@));
        }
        if e.is_dir {
            let ghost before = crate::options::strings_view(dirs@);
            dirs.push(crate::text::copy_string(&e.name));
            assert(crate::options::strings_view(dirs@) =~= before.push(e.name@));
        }
        i = i + 1;
    }
    assert(entries@.take(entries.len() as int) =~= entries@);
    let romfs = find_child(entries, "romfs");
    let exefs = find_child(entries, "exefs");
    if romfs.is_some() || exefs.is_some() {
        return (packages, Finding::Folder { exefs });
    }
    if crate::mods::looks_like_romfs(entries) {
        return (packages, Finding::Romfs);
    }
    if has_plugins {
        return (packages, Finding::Plugins);
    }
    (packages, Finding::Descend(dirs))
}

/// The package candidates among the entries of folder `dir`, labelled under
/// `label`.
pub open spec fn package_candidates(dir: Seq<char>, label: Seq<char>, entries: Seq<DirEntry>) -> Seq<
    CandidateView,
>
    decreases entries.len(),
{
    if entries.len() == 0 {
        Seq::empty()
    } else {
        let rest = package_candidates(dir, label, entries.drop_last());
        let e = entries.last();
        if !e.is_dir && has_extension_spec(e.name@, ".tkcl"@) {
            rest.push((ModKind::Package, join_spec(dir, e.name@), join_spec(label, e.name@), false, e.len))
        } else {
            rest
        }
    }
}

/// The `.tkcl` files of folder `dir` (labelled `label`) as candidates.
pub fn packages_in(dir: &str, label: &str, entries: &Vec<DirEntry>) -> (r: Vec<Candidate>)
    ensures
        candidates_view(r@) == package_candidates(dir@, label@, entries@),
{
    let mut r: Vec<Candidate> = Vec::new();
    let mut i: usize = 0;
    while i < entries.len()
        invariant
            i <= entries.len(),
            candidates_view(r@) == package_candidates(dir@, label@, entries@.take(i as int)),
        decreases entries.len() - i,
    {
        assert(entries@.take(i + 1).drop_last() =~= entries@.take(i as int));
        let e = &entries[i];
        if !e.is_dir && has_extension(e.name.as_str(), ".tkcl") {
            let c = Candidate {
                kind: ModKind::Package,
                path: join(dir, e.name.as_str()),
                label: join(label, e.name.as_str()),
                has_code: false,
                size: e.len,
            };
            let ghost before = candidates_view(r@);
            r.push(c);
            assert(candidates_view(r@) =~= before.push(c@));
        }
        i = i + 1;
    }
    assert(entries@.take(entries.len() as int) =~= entries@);
    r
}

/// Where `x` goes among candidates sorted by label: before the first with a
/// greater label.
pub open spec fn label_slot(sorted: Seq<CandidateView>, x: CandidateView) -> int
    decreases sorted.len(),
{
    if sorted.len() == 0 {
        0
    } else if text_lt(x.2, sorted[0].2) {
        0
    } else {
        1 + label_slot(sorted.skip(1), x)
    }
}

/// A stable sort by label.
pub open spec fn sort_by_label(s: Seq<CandidateView>) -> Seq<CandidateView>
    decreases s.len(),
{
    if s.len() == 0 {
        Seq::empty()
    } else {
        let sorted = sort_by_label(s.drop_last());
        sorted.insert(label_slot(sorted, s.last()), s.last())
    }
}

proof fn lemma_label_slot(sorted: Seq<CandidateView>, x: CandidateView, j: int)
    requires
        0 <= j <= sorted.len(),
        forall|l: int| 0 <= l < j ==> !text_lt(x.2, #[trigger] sorted[l].2),
        j == sorted.len() || text_lt(x.2, sorted[j].2),
    ensures
        label_slot(sorted, x) == j,
    decreases j,
{
    if j > 0 {
        let t = sorted.skip(1);
        assert forall|l: int| 0 <= l < j - 1 implies !text_lt(x.2, #[trigger] t[l].2) by {
            assert(t[l] == sorted[l + 1]);
        }
        if j < sorted.len() {
            assert(t[j - 1] == sorted[j]);
        }
        lemma_label_slot(t, x, j - 1);
        assert(!text_lt(x.2, sorted[0].2));
    }
}

fn sorted_by_label(items: Vec<Candidate>) -> (r: Vec<Candidate>)
    ensures
        candidates_view(r@) == sort_by_label(candidates_view(items@)),
{
    let ghost all = candidates_view(items@);
    let n = items.len();
    let mut rest = items;
    let mut sorted: Vec<Candidate> = Vec::new();
    let mut k: usize = 0;
    while rest.len() > 0
        invariant
            k <= n,
            rest@.len() + k == n,
            all.len() == n,
            candidates_view(rest@) == all.skip(k as int),
            candidates_view(sorted@) == sort_by_label(all.take(k as int)),
        decreases rest.len(),
    {
        let ghost before = rest@;
        let x = rest.remove(0);
        proof {
            assert(candidates_view(before)[0] == x@);
            assert(all.skip(k as int)[0] == all[k as int]);
            assert(rest@ =~= before.skip(1));
            assert(candidates_view(rest@) =~= candidates_view(before).skip(1));
            assert(all.skip(k as int).skip(1) =~= all.skip(k + 1));
        }
        let ghost sv = candidates_view(sorted@);
        let xl = chars_of(x.label.as_str());
        let mut j: usize = 0;
        while j < sorted.len() && !text_less(
            xl.as_slice(),
            chars_of(sorted[j].label.as_str()).as_slice(),
        )
            invariant
                j <= sorted@.len(),
                sv == candidates_view(sorted@),
                xl@ == x@.2,
                forall|l: int| 0 <= l < j ==> !text_lt(x@.2, #[trigger] sv[l].2),
            decreases sorted.len() - j,
        {
            j = j + 1;
        }
        proof {
            lemma_label_slot(sv, x@, j as int);
            assert(all.take(k + 1).drop_last() =~= all.take(k as int));
            assert(all.take(k + 1).last() == x@);
        }
        sorted.insert(j, x);
        assert(candidates_view(sorted@) =~= sv.insert(j as int, x@));
        k = k + 1;
    }
    assert(all.take(n as int) =~= all);
    sorted
}

/// Every mod an archive holds, in the order offered: packages first (TKMM
/// prefers an embedded `.tkcl` over the loose files next to it), each kind
/// by label.
pub fn order_candidates(packages: Vec<Candidate>, folders: Vec<Candidate>) -> (r: Vec<Candidate>)
    ensures
        candidates_view(r@) == sort_by_label(candidates_view(packages@)) + sort_by_label(
            candidates_view(folders@),
        ),
{
    let mut r = sorted_by_label(packages);
    let mut f = sorted_by_label(folders);
    let ghost a = candidates_view(r@);
    let ghost b = candidates_view(f@);
    r.append(&mut f);
    assert(candidates_view(r@) =~= a + b);
    r
}

// --- moving a mod in -----------------------------------------------------------------------

/// A folder a mod's content lives in: `romfs`, `exefs` or the plugins folder.
pub open spec fn is_content_folder(name: Seq<char>) -> bool {
    eq_ignore_case(name, "romfs"@) || eq_ignore_case(name, "exefs"@) || eq_ignore_case(
        name,
        PLUGINS_DIR@,
    )
}

fn content_folder(name: &str) -> (r: bool)
    ensures
        r == is_content_folder(name@),
{
    let n = chars_of(name);
    is_ignore_case(n.as_slice(), "romfs") || is_ignore_case(n.as_slice(), "exefs")
        || is_ignore_case(n.as_slice(), PLUGINS_DIR)
}

/// What an update removes from a mod folder: its content folders, packages
/// and plugins; its settings stay.
pub open spec fn is_old_content(name: Seq<char>, is_dir: bool) -> bool {
    if is_dir {
        is_content_folder(name)
    } else {
        has_extension_spec(name, ".tkcl"@) || has_extension_spec(name, ".nro"@)
    }
}

pub fn is_old_content_entry(entry: &DirEntry) -> (r: bool)
    ensures
        r == is_old_content(entry.name@, entry.is_dir),
{
    if entry.is_dir {
        content_folder(entry.name.as_str())
    } else {
        has_extension(entry.name.as_str(), ".tkcl") || has_extension(entry.name.as_str(), ".nro")
    }
}

/// The name an entry of an installed folder gets in the mod folder: content
/// folders in lower case, plugins as they are; `None` for what stays behind.
pub open spec fn moved_name_spec(name: Seq<char>, is_dir: bool) -> Option<Seq<char>> {
    if is_dir {
        if is_content_folder(name) {
            Some(lower_seq(name))
        } else {
            None
        }
    } else if has_extension_spec(name, ".nro"@) {
        Some(name)
    } else {
        None
    }
}

pub fn moved_name(entry: &DirEntry) -> (r: Option<String>)
    ensures
        match r {
            Some(n) => moved_name_spec(entry.name@, entry.is_dir) == Some(n@),
            None => moved_name_spec(entry.name@, entry.is_dir) is None,
        },
{
    if entry.is_dir {
        if content_folder(entry.name.as_str()) {
            let n = chars_of(entry.name.as_str());
            let l = lower_chars(n.as_slice());
            Some(string_of(l.as_slice()))
        } else {
            None
        }
    } else if has_extension(entry.name.as_str(), ".nro") {
        Some(crate::text::copy_string(&entry.name))
    } else {
        None
    }
}

/// The error of a folder with nothing to install.
pub open spec fn nothing_to_install(source: Seq<char>) -> Seq<char> {
    source + " holds no romfs or exefs folder"@
}

pub fn nothing_to_install_error(source: &str) -> (r: String)
    ensures
        r@ == nothing_to_install(source@),
{
    let mut r = crate::config::owned(source);
    crate::text::push_str(&mut r, " holds no romfs or exefs folder");
    r
}

/// The name a thumbnail gets in the mod folder: `thumbnail.` and its
/// extension in lower case when that is at most 4 bytes long, else `jpg`.
pub open spec fn thumbnail_name_spec(file_name: Seq<char>) -> Seq<char> {
    let dot = last_index_of(file_name, '.');
    let extension = file_name.skip(dot + 1);
    if dot >= 0 && encode_utf8(extension).len() <= 4 {
        "thumbnail."@ + lower_seq(extension)
    } else {
        "thumbnail.jpg"@
    }
}

/// `file_name`: the thumbnail's file name, without its folder.
pub fn thumbnail_name(file_name: &str) -> (r: String)
    ensures
        r@ == thumbnail_name_spec(file_name@),
{
    let n = chars_of(file_name);
    match rfind_char(n.as_slice(), '.') {
        Some(dot) => {
            assert(dot < n.len());
            let extension = string_of(slice_of(n.as_slice(), dot + 1, n.len()).as_slice());
            assert(extension@ =~= file_name@.skip(dot + 1));
            if extension.as_str().as_bytes().len() <= 4 {
                let lowered = lower_chars(chars_of(extension.as_str()).as_slice());
                let mut r = crate::config::owned("thumbnail.");
                crate::text::push_chars(&mut r, lowered.as_slice());
                return r;
            }
        },
        None => {},
    }
    crate::config::owned("thumbnail.jpg")
}

/// What `mod.ini` holds after an update: the settings of the previous one
/// (enabled, priority, plugins; options and thumbnail when the new one has
/// none), the new metadata otherwise.
pub open spec fn kept_settings(info: ModInfoView, previous: ModInfoView) -> ModInfoView {
    ModInfoView {
        enabled: previous.enabled,
        priority: previous.priority,
        load_plugins: previous.load_plugins,
        options: if info.options.len() == 0 {
            previous.options
        } else {
            info.options
        },
        thumbnail: if info.thumbnail.len() == 0 {
            previous.thumbnail
        } else {
            info.thumbnail
        },
        ..info
    }
}

pub fn keep_settings(info: ModInfo, previous: ModInfo) -> (r: ModInfo)
    ensures
        r@ == kept_settings(info@, previous@),
{
    let mut info = info;
    info.enabled = previous.enabled;
    info.priority = previous.priority;
    info.load_plugins = previous.load_plugins;
    if info.options.is_empty() {
        info.options = previous.options;
    }
    if chars_of(info.thumbnail.as_str()).len() == 0 {
        info.thumbnail = previous.thumbnail;
    }
    info
}

/// Puts a mod just installed at the top of a profile that does not list it
/// yet, enabled with the package's default options. Returns whether the
/// profile changed.
pub fn add_to_profile(profile: &mut Profile, folder: &str) -> (changed: bool)
    ensures
        changed == !lists_folder(old(profile)@.1, folder@),
        final(profile)@.0 == old(profile)@.0,
        final(profile)@.1 == if changed {
            seq![(folder@, true, Seq::<SpecGroup>::empty())] + old(profile)@.1
        } else {
            old(profile)@.1
        },
{
    if profile.has_folder(chars_of(folder).as_slice()) {
        return false;
    }
    let m = ProfileMod { folder: crate::config::owned(folder), enabled: true, options: OptionMap::new() };
    let ghost before = profile.mods@;
    profile.mods.insert(0, m);
    assert(mods_view(profile.mods@) =~= seq![m@] + mods_view(before));
    true
}

/// The listed mods but those in `folder` (compared without case).
pub open spec fn without_folder(mods: Seq<SpecProfileMod>, folder: Seq<char>) -> Seq<SpecProfileMod> {
    mods.filter(|m: SpecProfileMod| !eq_ignore_case(m.0, folder))
}

/// Takes a mod being uninstalled out of a profile. Returns whether the
/// profile changed.
pub fn remove_from_profile(profile: &mut Profile, folder: &str) -> (changed: bool)
    ensures
        final(profile)@.0 == old(profile)@.0,
        final(profile)@.1 == without_folder(old(profile)@.1, folder@),
        changed == (final(profile)@.1.len() != old(profile)@.1.len()),
{
    let ghost orig = profile@.1;
    let f = chars_of(folder);
    let mut kept: Vec<ProfileMod> = Vec::new();
    let n = profile.mods.len();
    let mut rest: Vec<ProfileMod> = Vec::new();
    core::mem::swap(&mut rest, &mut profile.mods);
    assert(mods_view(rest@) == orig);
    let mut k: usize = 0;
    while rest.len() > 0
        invariant
            k <= n,
            rest@.len() + k == n,
            orig.len() == n,
            f@ == folder@,
            mods_view(rest@) == orig.skip(k as int),
            mods_view(kept@) == without_folder(orig.take(k as int), folder@),
        decreases rest.len(),
    {
        let ghost before = rest@;
        let m = rest.remove(0);
        proof {
            assert(mods_view(before)[0] == m@);
            assert(orig.skip(k as int)[0] == orig[k as int]);
            assert(rest@ =~= before.skip(1));
            assert(mods_view(rest@) =~= mods_view(before).skip(1));
            assert(orig.skip(k as int).skip(1) =~= orig.skip(k + 1));
            assert(orig.take(k + 1) =~= orig.take(k as int).push(orig[k as int]));
            orig.take(k as int).lemma_filter_push(
                orig[k as int],
                |m: SpecProfileMod| !eq_ignore_case(m.0, folder@),
            );
        }
        let g = chars_of(m.folder.as_str());
        if !chars_eq_ignore_case(g.as_slice(), f.as_slice()) {
            let ghost kb = mods_view(kept@);
            kept.push(m);
            assert(mods_view(kept@) =~= kb.push(orig[k as int]));
        }
        k = k + 1;
    }
    assert(orig.take(n as int) =~= orig);
    let changed = kept.len() != n;
    profile.mods = kept;
    changed
}

/// The folder a package left in the old layout (`mods/X.tkcl`) moves to:
/// the folder name made from `X`.
pub open spec fn loose_package_folder_spec(entry: DirEntry) -> Option<Seq<char>> {
    if !entry.is_dir && has_extension_spec(entry.name@, ".tkcl"@) {
        Some(folder_name_spec(entry.name@.take(entry.name@.len() - 5)))
    } else {
        None
    }
}

pub fn loose_package_folder(entry: &DirEntry) -> (r: Option<String>)
    ensures
        match r {
            Some(f) => loose_package_folder_spec(*entry) == Some(f@),
            None => loose_package_folder_spec(*entry) is None,
        },
{
    if entry.is_dir || !has_extension(entry.name.as_str(), ".tkcl") {
        return None;
    }
    let n = chars_of(entry.name.as_str());
    proof {
        reveal_strlit(".tkcl");
    }
    let stem = string_of(slice_of(n.as_slice(), 0, n.len() - 5).as_slice());
    Some(folder_name(stem.as_str()))
}

/// An update keeps the user's settings: whether the mod is enabled, its
/// priority and whether its plugins load come from the previous `mod.ini`;
/// its option selection and thumbnail too when the new `mod.ini` has none,
/// else the new ones; its name, version, author, description, link and
/// other keys are the new `mod.ini`'s.
pub proof fn lemma_update_keeps_settings(info: ModInfoView, previous: ModInfoView)
    ensures
        ({
            let r = kept_settings(info, previous);
            &&& r.enabled == previous.enabled
            &&& r.priority == previous.priority
            &&& r.load_plugins == previous.load_plugins
            &&& info.options.len() == 0 ==> r.options == previous.options
            &&& info.options.len() > 0 ==> r.options == info.options
            &&& info.thumbnail.len() == 0 ==> r.thumbnail == previous.thumbnail
            &&& info.thumbnail.len() > 0 ==> r.thumbnail == info.thumbnail
            &&& r.name == info.name
            &&& r.version == info.version
            &&& r.author == info.author
            &&& r.description == info.description
            &&& r.url == info.url
            &&& r.extra == info.extra
        }),
{
}

} // verus!
