//! What a changelog build of a plain mod folder does with each file: which
//! are code patches, which executables are served as they are, which romfs
//! files are copied whole and which go to a builder, and how the entries
//! of the changelog are recorded.

use vstd::prelude::*;

use crate::builder::{builder_for, builder_spec, BuilderKind, BuilderKindView};
use crate::canonical::{
    canonical_ok, canonical_spec, extension, extension_spec, from_mod_path, mod_path_parts, split_mod_path,
    try_canonical, CanonicalPath, Root,
};
use crate::builder::{BuiltChangelog, ChangelogSink, Payload};
use crate::text::{
    chars_of, has_prefix_lit, is_lit, last_index_of, rfind_char, slice_of, starts_with, str_eq, string_of,
};
use crate::tkcl::codec::strs;
use crate::tkcl::wire::EntryView;
use crate::tkcl::{ChangelogEntry, EntryType};

verus! {

/// A character a file name may not hold.
pub open spec fn bad_name_char(c: char) -> bool {
    c == '<' || c == '>' || c == '|' || c == ':' || c == '*' || c == '?' || c == '"' || c == '\\' || (c as u32) < 32
}

/// The file name of a canonical path: what follows its last slash.
pub open spec fn file_name(canonical: Seq<char>) -> Seq<char> {
    canonical.skip(last_index_of(canonical, '/') + 1)
}

/// Whether the file name of `canonical` holds a character no file name may.
pub open spec fn invalid_file_name(canonical: Seq<char>) -> bool {
    exists|i: int| 0 <= i < file_name(canonical).len() && #[trigger] bad_name_char(file_name(canonical)[i])
}

/// Whether the file name of `canonical` holds a character no file name may.
pub fn has_invalid_file_name(canonical: &str) -> (r: bool)
    ensures
        r == invalid_file_name(canonical@),
{
    let c = chars_of(canonical);
    let n = c.len();
    let from = match rfind_char(c.as_slice(), '/') {
        Some(i) => {
            assert(i < n);
            i + 1
        },
        None => 0,
    };
    proof {
        crate::text::lemma_last_index_of(c@, '/');
    }
    let name = slice_of(c.as_slice(), from, c.len());
    assert(name@ =~= file_name(canonical@));
    let mut i: usize = 0;
    while i < name.len()
        invariant
            i <= name.len(),
            name@ == file_name(canonical@),
            forall|j: int| 0 <= j < i ==> !bad_name_char(#[trigger] name@[j]),
        decreases name.len() - i,
    {
        let ch = name[i];
        if ch == '<' || ch == '>' || ch == '|' || ch == ':' || ch == '*' || ch == '?' || ch == '"' || ch == '\\'
            || (ch as u32) < 32 {
            assert(bad_name_char(name@[i as int]));
            return true;
        }
        i = i + 1;
    }
    false
}

/// What a folder build does with one file.
pub enum FileAction {
    /// Nothing: outside the four roots, an extra, a size table or
    /// `desktop.ini`.
    Skip,
    /// An IPS patch of the executable with this build id.
    Ips(String),
    /// A pchtxt patch.
    Pchtxt,
    /// An exefs file served as it is: whether it is a subsdk, and its name.
    Exefs(bool, String),
    /// A cheat, counted and left out.
    Cheat,
    /// A romfs file served whole.
    Copy(CanonicalPath),
    /// A romfs file whose changes a builder works out.
    Build(BuilderKind, CanonicalPath),
}

pub enum FileActionView {
    Skip,
    Ips(Seq<char>),
    Pchtxt,
    Exefs(bool, Seq<char>),
    Cheat,
    Copy((Seq<char>, int, u32)),
    Build(BuilderKindView, (Seq<char>, int, u32)),
}

pub open spec fn path_view(p: CanonicalPath) -> (Seq<char>, int, u32) {
    (p.canonical@, p.file_version as int, p.attributes)
}

impl View for FileAction {
    type V = FileActionView;

    open spec fn view(&self) -> FileActionView {
        match self {
            FileAction::Skip => FileActionView::Skip,
            FileAction::Ips(id) => FileActionView::Ips(id@),
            FileAction::Pchtxt => FileActionView::Pchtxt,
            FileAction::Exefs(sub, name) => FileActionView::Exefs(*sub, name@),
            FileAction::Cheat => FileActionView::Cheat,
            FileAction::Copy(p) => FileActionView::Copy(path_view(*p)),
            FileAction::Build(k, p) => FileActionView::Build(k@, path_view(*p)),
        }
    }
}

/// The path a file is known by: under `romfs/` when the folder is a romfs
/// root.
pub open spec fn rooted(relative: Seq<char>, romfs_only: bool) -> Seq<char> {
    if romfs_only {
        "romfs/"@ + relative
    } else {
        relative
    }
}

/// Whether a folder build can name the file at `relative`.
pub open spec fn nameable(relative: Seq<char>, romfs_only: bool) -> bool {
    mod_path_parts(rooted(relative, romfs_only)) matches Some((_, rest)) ==> canonical_ok(rest)
}

fn rooted_path(relative: &str, romfs_only: bool) -> (r: String)
    ensures
        r@ == rooted(relative@, romfs_only),
{
    let mut rel = crate::config::owned(if romfs_only {
        "romfs/"
    } else {
        ""
    });
    crate::text::push_str(&mut rel, relative);
    proof {
        reveal_strlit("romfs/");
        reveal_strlit("");
        assert(rel@ =~= rooted(relative@, romfs_only));
    }
    rel
}

/// Whether a folder build can name the file at `relative`: TKMM cannot read
/// a name whose product version would be read before its start.
pub fn is_nameable(relative: &str, romfs_only: bool) -> (r: bool)
    ensures
        r == nameable(relative@, romfs_only),
{
    let rel = rooted_path(relative, romfs_only);
    match split_mod_path(rel.as_str()) {
        None => true,
        Some((_, rest)) => try_canonical(rest.as_str()).is_some(),
    }
}

/// What a folder build does with the file at `relative` (from the folder's
/// root).
pub open spec fn file_action_spec(relative: Seq<char>, romfs_only: bool) -> FileActionView {
    match mod_path_parts(rooted(relative, romfs_only)) {
        None => FileActionView::Skip,
        Some((root, rest)) => {
            let p = canonical_spec(rest);
            let c = p.0;
            let ext = extension_spec(c);
            match root {
                Root::Exefs => if ext == ".ips"@ {
                    FileActionView::Ips(c.take(c.len() - 4))
                } else if ext == ".pchtxt"@ {
                    FileActionView::Pchtxt
                } else {
                    FileActionView::Exefs(c.len() == 7 && starts_with(c, "subsdk"@), c)
                },
                Root::Extras => FileActionView::Skip,
                Root::Cheats => FileActionView::Cheat,
                Root::Romfs => if ext == ".rsizetable"@ || c == "desktop.ini"@ {
                    FileActionView::Skip
                } else {
                    match builder_spec(c) {
                        None => FileActionView::Copy(p),
                        Some(BuilderKindView::Bntx) => FileActionView::Copy(p),
                        Some(k) => FileActionView::Build(k, p),
                    }
                },
            }
        },
    }
}

proof fn lemma_extension_len(c: Seq<char>)
    ensures
        extension_spec(c).len() <= c.len(),
{
    crate::text::lemma_last_index_of(c, '/');
    let name = c.skip(last_index_of(c, '/') + 1);
    crate::text::lemma_last_index_of(name, '.');
}

/// What a folder build does with the file at `relative`.
pub fn file_action(relative: &str, romfs_only: bool) -> (r: FileAction)
    requires
        nameable(relative@, romfs_only),
    ensures
        r@ == file_action_spec(relative@, romfs_only),
{
    let rel = rooted_path(relative, romfs_only);
    let (root, path) = match from_mod_path(rel.as_str()) {
        None => return FileAction::Skip,
        Some(parts) => parts,
    };
    let ext = extension(path.canonical.as_str());
    let e = chars_of(ext.as_str());
    let c = chars_of(path.canonical.as_str());
    match root {
        Root::Exefs => {
            if is_lit(e.as_slice(), ".ips") {
                proof {
                    reveal_strlit(".ips");
                    lemma_extension_len(c@);
                }
                let id = slice_of(c.as_slice(), 0, c.len() - 4);
                assert(id@ =~= c@.take(c@.len() - 4));
                FileAction::Ips(string_of(id.as_slice()))
            } else if is_lit(e.as_slice(), ".pchtxt") {
                FileAction::Pchtxt
            } else {
                let sub = c.len() == 7 && has_prefix_lit(c.as_slice(), "subsdk");
                FileAction::Exefs(sub, path.canonical)
            }
        },
        Root::Extras => FileAction::Skip,
        Root::Cheats => FileAction::Cheat,
        Root::Romfs => {
            if is_lit(e.as_slice(), ".rsizetable") || is_lit(c.as_slice(), "desktop.ini") {
                FileAction::Skip
            } else {
                match builder_for(path.canonical.as_str()) {
                    None => FileAction::Copy(path),
                    Some(BuilderKind::Bntx) => FileAction::Copy(path),
                    Some(k) => FileAction::Build(k, path),
                }
            }
        },
    }
}

// --- the entries of a folder's changelog ----------------------------------------------------

/// A message archive, kept apart from the other entries.
pub open spec fn is_mals(c: Seq<char>) -> bool {
    c.len() > 4 && starts_with(c, "Mals"@)
}

pub open spec fn entries_view(es: Seq<ChangelogEntry>) -> Seq<EntryView> {
    es.map_values(|e: ChangelogEntry| e@)
}

/// Where the first entry for `c` stands, or -1.
pub open spec fn first_entry(es: Seq<EntryView>, c: Seq<char>) -> int
    decreases es.len(),
{
    if es.len() == 0 {
        -1
    } else if es[0].canonical == c {
        0
    } else {
        let r = first_entry(es.skip(1), c);
        if r < 0 {
            -1
        } else {
            r + 1
        }
    }
}

proof fn lemma_first_entry(es: Seq<EntryView>, c: Seq<char>, j: int)
    requires
        0 <= j <= es.len(),
        forall|k: int| 0 <= k < j ==> #[trigger] es[k].canonical != c,
        j < es.len() ==> es[j].canonical == c,
    ensures
        first_entry(es, c) == (if j < es.len() {
            j
        } else {
            -1
        }),
    decreases j,
{
    if j > 0 {
        assert forall|k: int| 0 <= k < j - 1 implies #[trigger] es.skip(1)[k].canonical != c by {
            assert(es.skip(1)[k] == es[k + 1]);
        }
        if j < es.len() {
            assert(es.skip(1)[j - 1] == es[j]);
        }
        lemma_first_entry(es.skip(1), c, j - 1);
    }
}

proof fn lemma_first_entry_facts(es: Seq<EntryView>, c: Seq<char>)
    ensures
        -1 <= first_entry(es, c) < es.len(),
        first_entry(es, c) < 0 ==> forall|i: int| 0 <= i < es.len() ==> #[trigger] es[i].canonical != c,
        first_entry(es, c) >= 0 ==> es[first_entry(es, c)].canonical == c,
    decreases es.len(),
{
    if es.len() > 0 {
        lemma_first_entry_facts(es.skip(1), c);
        if first_entry(es, c) < 0 {
            assert forall|i: int| 0 <= i < es.len() implies #[trigger] es[i].canonical != c by {
                if i > 0 {
                    assert(es[i] == es.skip(1)[i - 1]);
                }
            }
        } else if es[0].canonical != c {
            assert(es[first_entry(es, c)] == es.skip(1)[first_entry(es, c) - 1]);
        }
    }
}

/// No two entries name one file.
pub open spec fn canonicals_unique(es: Seq<EntryView>) -> bool {
    forall|i: int, j: int| 0 <= i < j < es.len() ==> #[trigger] es[i].canonical != #[trigger] es[j].canonical
}

/// An entry after one more file of it was recorded.
pub open spec fn recorded(e: EntryView, kind: EntryType, version: int, archive: Option<Seq<char>>) -> EntryView {
    EntryView {
        kind,
        versions: if version != -1 {
            e.versions.push(version as i32)
        } else {
            e.versions
        },
        archive_canonicals: match archive {
            Some(a) => e.archive_canonicals.push(a),
            None => e.archive_canonicals,
        },
        ..e
    }
}

/// The entries after a file for `c` was recorded: the first entry for `c`
/// takes it, or a new one at the end with the path's attributes and
/// dictionary.
pub open spec fn with_metadata(
    es: Seq<EntryView>,
    c: Seq<char>,
    kind: EntryType,
    version: int,
    archive: Option<Seq<char>>,
    attributes: u32,
    zs_dictionary_id: i32,
) -> Seq<EntryView> {
    let p = first_entry(es, c);
    if p < 0 {
        let fresh = EntryView {
            canonical: c,
            kind,
            attributes,
            zs_dictionary_id,
            versions: Seq::empty(),
            archive_canonicals: Seq::empty(),
        };
        es.push(recorded(fresh, kind, version, archive))
    } else {
        es.update(p, recorded(es[p], kind, version, archive))
    }
}

/// The name a recorded file's content is stored under: its canonical name,
/// followed by its version when it has one.
pub open spec fn stored_name(c: Seq<char>, version: int) -> Seq<char> {
    if version != -1 {
        c + crate::text::signed_text(version)
    } else {
        c
    }
}

pub open spec fn opt_str(a: Option<&str>) -> Option<Seq<char>> {
    match a {
        Some(s) => Some(s@),
        None => None,
    }
}

impl BuiltChangelog {
    /// Records a file of the changelog and gives the name its content is
    /// stored under. Message archives are listed apart, under their
    /// canonical name.
    pub fn add_metadata(
        &mut self,
        canonical: &str,
        kind: EntryType,
        file_version: i32,
        archive: Option<&str>,
        attributes: u32,
        zs_dictionary_id: i32,
    ) -> (r: String)
        ensures
            is_mals(canonical@) ==> {
                &&& r@ == canonical@
                &&& final(self).entries@ == old(self).entries@
                &&& strs(final(self).mals_files@) == strs(old(self).mals_files@).push(canonical@)
            },
            !is_mals(canonical@) ==> {
                &&& r@ == stored_name(canonical@, file_version as int)
                &&& entries_view(final(self).entries@) == with_metadata(
                    entries_view(old(self).entries@),
                    canonical@,
                    kind,
                    file_version as int,
                    opt_str(archive),
                    attributes,
                    zs_dictionary_id,
                )
                &&& final(self).mals_files@ == old(self).mals_files@
            },
            final(self).patches@ == old(self).patches@,
            final(self).subsdk_files@ == old(self).subsdk_files@,
            final(self).exe_files@ == old(self).exe_files@,
            final(self).files@ == old(self).files@,
            final(self).links@ == old(self).links@,
            final(self).skipped_cheats == old(self).skipped_cheats,
    {
        let c = chars_of(canonical);
        proof {
            reveal_strlit("Mals");
        }
        if c.len() > 4 && has_prefix_lit(c.as_slice(), "Mals") {
            let ghost before = strs(self.mals_files@);
            self.mals_files.push(crate::config::owned(canonical));
            assert(strs(self.mals_files@) =~= before.push(canonical@));
            return crate::config::owned(canonical);
        }
        let ghost ev = entries_view(self.entries@);
        let mut p: usize = 0;
        while p < self.entries.len() && !str_eq(self.entries[p].canonical.as_str(), canonical)
            invariant
                p <= self.entries.len(),
                self.entries@ == old(self).entries@,
                self.mals_files@ == old(self).mals_files@,
                self.patches@ == old(self).patches@,
                self.subsdk_files@ == old(self).subsdk_files@,
                self.exe_files@ == old(self).exe_files@,
                self.files@ == old(self).files@,
                self.links@ == old(self).links@,
                self.skipped_cheats == old(self).skipped_cheats,
                ev == entries_view(self.entries@),
                forall|k: int| 0 <= k < p ==> #[trigger] ev[k].canonical != canonical@,
            decreases self.entries.len() - p,
        {
            p = p + 1;
        }
        proof {
            lemma_first_entry(ev, canonical@, p as int);
        }
        if p == self.entries.len() {
            self.entries.push(
                ChangelogEntry {
                    canonical: crate::config::owned(canonical),
                    kind,
                    attributes,
                    zs_dictionary_id,
                    versions: Vec::new(),
                    archive_canonicals: Vec::new(),
                },
            );
        }
        let ghost base = entries_view(self.entries@);
        let ghost full = self.entries@;
        let ghost fresh = EntryView {
            canonical: canonical@,
            kind,
            attributes,
            zs_dictionary_id,
            versions: Seq::empty(),
            archive_canonicals: Seq::empty(),
        };
        proof {
            if p < ev.len() {
                assert(base =~= ev);
            } else {
                assert(strs(full[p as int].archive_canonicals@) =~= Seq::<Seq<char>>::empty());
                assert(full[p as int].versions@ =~= Seq::<i32>::empty());
                assert(base[p as int] == fresh);
                assert(base =~= ev.push(fresh));
            }
        }
        let mut e = self.entries.remove(p);
        let ghost e0 = e@;
        assert(e0 == base[p as int]);
        if file_version != -1 {
            e.versions.push(file_version);
        }
        match archive {
            Some(a) => {
                let ghost arch = strs(e.archive_canonicals@);
                e.archive_canonicals.push(crate::config::owned(a));
                assert(strs(e.archive_canonicals@) =~= arch.push(a@));
            },
            None => {},
        }
        e.kind = kind;
        assert(e@ == recorded(e0, kind, file_version as int, opt_str(archive)));
        self.entries.insert(p, e);
        assert(self.entries@ =~= full.update(p as int, e));
        assert(entries_view(self.entries@) =~= base.update(p as int, e@));
        assert(entries_view(self.entries@) =~= with_metadata(
            ev,
            canonical@,
            kind,
            file_version as int,
            opt_str(archive),
            attributes,
            zs_dictionary_id,
        ));
        let mut stored = crate::config::owned(canonical);
        if file_version != -1 {
            crate::text::push_signed(&mut stored, file_version as i64);
        }
        stored
    }
}

/// Pairs keyed by name, as names and the values' views.
pub open spec fn pairs_view<V: View>(s: Seq<(String, V)>) -> Seq<(Seq<char>, V::V)> {
    s.map_values(|p: (String, V)| (p.0@, p.1@))
}

/// Where the first pair with key `k` stands, or -1.
pub open spec fn first_key<W>(s: Seq<(Seq<char>, W)>, k: Seq<char>) -> int
    decreases s.len(),
{
    if s.len() == 0 {
        -1
    } else if s[0].0 == k {
        0
    } else {
        let r = first_key(s.skip(1), k);
        if r < 0 {
            -1
        } else {
            r + 1
        }
    }
}

proof fn lemma_first_key<W>(s: Seq<(Seq<char>, W)>, k: Seq<char>, j: int)
    requires
        0 <= j <= s.len(),
        forall|i: int| 0 <= i < j ==> #[trigger] s[i].0 != k,
        j < s.len() ==> s[j].0 == k,
    ensures
        first_key(s, k) == (if j < s.len() {
            j
        } else {
            -1
        }),
    decreases j,
{
    if j > 0 {
        assert forall|i: int| 0 <= i < j - 1 implies #[trigger] s.skip(1)[i].0 != k by {
            assert(s.skip(1)[i] == s[i + 1]);
        }
        if j < s.len() {
            assert(s.skip(1)[j - 1] == s[j]);
        }
        lemma_first_key(s.skip(1), k, j - 1);
    }
}

/// Pairs keyed by name after `(k, v)` was put in: it replaces the first
/// pair with that key, or comes last.
pub open spec fn put_spec<W>(s: Seq<(Seq<char>, W)>, k: Seq<char>, v: W) -> Seq<(Seq<char>, W)> {
    let p = first_key(s, k);
    if p < 0 {
        s.push((k, v))
    } else {
        s.update(p, (k, v))
    }
}

/// Puts `(key, value)` in pairs keyed by name.
pub fn put<V: View>(pairs: &mut Vec<(String, V)>, key: String, value: V)
    ensures
        pairs_view(final(pairs)@) == put_spec(pairs_view(old(pairs)@), key@, value@),
{
    let ghost pv = pairs_view(pairs@);
    let mut p: usize = 0;
    while p < pairs.len() && !str_eq(pairs[p].0.as_str(), key.as_str())
        invariant
            p <= pairs.len(),
            pairs@ == old(pairs)@,
            pv == pairs_view(pairs@),
            forall|i: int| 0 <= i < p ==> #[trigger] pv[i].0 != key@,
        decreases pairs.len() - p,
    {
        p = p + 1;
    }
    proof {
        lemma_first_key(pv, key@, p as int);
    }
    let ghost kv = key@;
    let ghost vv = value@;
    if p < pairs.len() {
        pairs.set(p, (key, value));
        assert(pairs_view(pairs@) =~= pv.update(p as int, (kv, vv)));
    } else {
        pairs.push((key, value));
        assert(pairs_view(pairs@) =~= pv.push((kv, vv)));
    }
}

fn bytes_of(d: &[u8]) -> (r: Vec<u8>)
    ensures
        r@ == d@,
{
    let mut r: Vec<u8> = Vec::new();
    let mut i: usize = 0;
    while i < d.len()
        invariant
            i <= d.len(),
            r@ == d@.take(i as int),
        decreases d.len() - i,
    {
        r.push(d[i]);
        i = i + 1;
        assert(r@ =~= d@.take(i as int));
    }
    assert(d@.take(i as int) =~= d@);
    r
}

/// Where a folder build puts what its builders produce: the changelog
/// being built, with the attributes and dictionary of the path at hand.
pub struct FolderSink {
    pub built: BuiltChangelog,
    pub path_attributes: u32,
    pub zs_dictionary_id: i32,
}

/// `romfs/` and the name a file is stored under.
pub open spec fn romfs_name(stored: Seq<char>) -> Seq<char> {
    "romfs/"@ + stored
}

fn romfs_path(stored: &String) -> (r: String)
    ensures
        r@ == romfs_name(stored@),
{
    let mut r = crate::config::owned("romfs/");
    crate::text::push_str(&mut r, stored.as_str());
    r
}

impl FolderSink {
    /// Records a file served whole from the mod folder: a `Copy` entry, and
    /// a link from where its content is stored to `file`.
    pub fn link_whole(&mut self, canonical: &str, file_version: i32, file: &str) -> (r: String)
        ensures
            r@ == (if is_mals(canonical@) {
                canonical@
            } else {
                stored_name(canonical@, file_version as int)
            }),
            !is_mals(canonical@) ==> entries_view(final(self).built.entries@) == with_metadata(
                entries_view(old(self).built.entries@),
                canonical@,
                EntryType::Copy,
                file_version as int,
                None,
                old(self).path_attributes,
                old(self).zs_dictionary_id,
            ),
            is_mals(canonical@) ==> final(self).built.entries@ == old(self).built.entries@,
            pairs_view(final(self).built.links@) == put_spec(
                pairs_view(old(self).built.links@),
                romfs_name(r@),
                file@,
            ),
            final(self).built.files@ == old(self).built.files@,
            is_mals(canonical@) ==> strs(final(self).built.mals_files@) == strs(old(self).built.mals_files@).push(
                canonical@,
            ),
            !is_mals(canonical@) ==> final(self).built.mals_files@ == old(self).built.mals_files@,
            final(self).built.patches@ == old(self).built.patches@,
            final(self).built.subsdk_files@ == old(self).built.subsdk_files@,
            final(self).built.exe_files@ == old(self).built.exe_files@,
            final(self).built.skipped_cheats == old(self).built.skipped_cheats,
            final(self).path_attributes == old(self).path_attributes,
            final(self).zs_dictionary_id == old(self).zs_dictionary_id,
    {
        let stored = self.built.add_metadata(
            canonical,
            EntryType::Copy,
            file_version,
            None,
            self.path_attributes,
            self.zs_dictionary_id,
        );
        let key = romfs_path(&stored);
        put(&mut self.built.links, key, crate::config::owned(file));
        stored
    }
}

/// The name a recorded file's content is stored under, message archives
/// included.
pub open spec fn stored_as(c: Seq<char>, version: int) -> Seq<char> {
    if is_mals(c) {
        c
    } else {
        stored_name(c, version)
    }
}

impl FolderSink {
    /// Records what a builder produced for `canonical`: nothing for a file
    /// name no file system takes; otherwise its entry, and its content, if
    /// any, under `romfs/` and the name it is stored under.
    pub fn record(
        &mut self,
        file_version: i32,
        canonical: &str,
        archive: Option<&str>,
        kind: EntryType,
        payload: Payload<'_>,
    )
        ensures
            final(self).path_attributes == old(self).path_attributes,
            final(self).zs_dictionary_id == old(self).zs_dictionary_id,
            final(self).built.links@ == old(self).built.links@,
            final(self).built.patches@ == old(self).built.patches@,
            final(self).built.subsdk_files@ == old(self).built.subsdk_files@,
            final(self).built.exe_files@ == old(self).built.exe_files@,
            final(self).built.skipped_cheats == old(self).built.skipped_cheats,
            !is_mals(canonical@) ==> final(self).built.mals_files@ == old(self).built.mals_files@,
            invalid_file_name(canonical@) ==> final(self).built == old(self).built,
            !invalid_file_name(canonical@) && is_mals(canonical@) ==> {
                &&& final(self).built.entries@ == old(self).built.entries@
                &&& strs(final(self).built.mals_files@) == strs(old(self).built.mals_files@).push(canonical@)
            },
            !invalid_file_name(canonical@) && !is_mals(canonical@) ==> entries_view(final(self).built.entries@)
                == with_metadata(
                entries_view(old(self).built.entries@),
                canonical@,
                kind,
                file_version as int,
                opt_str(archive),
                old(self).path_attributes,
                old(self).zs_dictionary_id,
            ),
            !invalid_file_name(canonical@) ==> match payload {
                Payload::Data(d) => pairs_view(final(self).built.files@) == put_spec(
                    pairs_view(old(self).built.files@),
                    romfs_name(stored_as(canonical@, file_version as int)),
                    d@,
                ),
                Payload::Placeholder => final(self).built.files@ == old(self).built.files@,
            },
    {
        if has_invalid_file_name(canonical) {
            return;
        }
        let stored = self.built.add_metadata(
            canonical,
            kind,
            file_version,
            archive,
            self.path_attributes,
            self.zs_dictionary_id,
        );
        match payload {
            Payload::Data(d) => {
                let key = romfs_path(&stored);
                put(&mut self.built.files, key, bytes_of(d));
            },
            Payload::Placeholder => {},
        }
    }
}

impl ChangelogSink for FolderSink {
    fn write(
        &mut self,
        file_version: i32,
        canonical: &str,
        archive: Option<&str>,
        kind: EntryType,
        payload: Payload<'_>,
    ) -> Result<(), String> {
        self.record(file_version, canonical, archive, kind, payload);
        Ok(())
    }
}

/// However many files a folder build records, each file has one entry: a
/// file recorded again joins the entry it already has.
pub proof fn lemma_one_entry_per_file(
    es: Seq<EntryView>,
    c: Seq<char>,
    kind: EntryType,
    version: int,
    archive: Option<Seq<char>>,
    attributes: u32,
    zs_dictionary_id: i32,
)
    requires
        canonicals_unique(es),
    ensures
        canonicals_unique(with_metadata(es, c, kind, version, archive, attributes, zs_dictionary_id)),
{
    lemma_first_entry_facts(es, c);
    let r = with_metadata(es, c, kind, version, archive, attributes, zs_dictionary_id);
    let p = first_entry(es, c);
    assert forall|i: int, j: int| 0 <= i < j < r.len() implies #[trigger] r[i].canonical != #[trigger] r[j].canonical by {
        if p < 0 {
            if j < es.len() {
                assert(r[i] == es[i] && r[j] == es[j]);
            } else {
                assert(r[i] == es[i]);
            }
        } else {
            if i != p && j != p {
                assert(r[i] == es[i] && r[j] == es[j]);
            } else if i == p {
                assert(r[j] == es[j]);
            } else {
                assert(r[i] == es[i]);
            }
        }
    }
}

/// What a folder build does with a file, by the root it is under and its
/// canonical name `c`: in `exefs`, an `.ips` file is a patch of the
/// executable its name (without `.ips`) gives, a `.pchtxt` file a patch,
/// anything else served as it is (a subsdk when its name is `subsdk` and
/// one character); in `cheats` a cheat; in `extras` or outside the four
/// roots nothing; in `romfs` nothing for a size table or `desktop.ini`,
/// else the file goes to its builder, or is served whole when it has none
/// (or is a combined texture).
pub proof fn lemma_file_actions(relative: Seq<char>, romfs_only: bool)
    ensures
        mod_path_parts(rooted(relative, romfs_only)) is None ==> file_action_spec(relative, romfs_only)
            == FileActionView::Skip,
        mod_path_parts(rooted(relative, romfs_only)) matches Some((root, rest)) ==> ({
            let p = canonical_spec(rest);
            let c = p.0;
            let a = file_action_spec(relative, romfs_only);
            &&& root == Root::Extras ==> a == FileActionView::Skip
            &&& root == Root::Cheats ==> a == FileActionView::Cheat
            &&& root == Root::Exefs && extension_spec(c) == ".ips"@ ==> (a matches FileActionView::Ips(id) && id
                + ".ips"@ == c)
            &&& root == Root::Exefs && extension_spec(c) == ".pchtxt"@ ==> a == FileActionView::Pchtxt
            &&& root == Root::Exefs && extension_spec(c) != ".ips"@ && extension_spec(c) != ".pchtxt"@ ==> (a
                matches FileActionView::Exefs(sub, name) && name == c && (sub <==> (c.len() == 7 && starts_with(
                c,
                "subsdk"@,
            ))))
            &&& root == Root::Romfs && (extension_spec(c) == ".rsizetable"@ || c == "desktop.ini"@) ==> a
                == FileActionView::Skip
            &&& root == Root::Romfs && extension_spec(c) != ".rsizetable"@ && c != "desktop.ini"@ ==> (
            match builder_spec(c) {
                Some(BuilderKindView::Bntx) => a == FileActionView::Copy(p),
                None => a == FileActionView::Copy(p),
                Some(k) => a == FileActionView::Build(k, p),
            })
        }),
{
    reveal_strlit(".ips");
    reveal_strlit(".pchtxt");
    if let Some((root, rest)) = mod_path_parts(rooted(relative, romfs_only)) {
        let c = canonical_spec(rest).0;
        if root == Root::Exefs && extension_spec(c) == ".ips"@ {
            lemma_extension_len(c);
            crate::text::lemma_last_index_of(c, '/');
            let name = c.skip(last_index_of(c, '/') + 1);
            crate::text::lemma_last_index_of(name, '.');
            assert(c.skip(c.len() - 4) == extension_spec(c));
            assert(c.take(c.len() - 4) + ".ips"@ =~= c);
        }
    }
}

} // verus!
