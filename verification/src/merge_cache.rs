//! Merges kept on the SD card: going back to mods merged before (another
//! profile, a mod turned off then on again) serves the earlier result instead
//! of merging again.
//!
//! ```text
//! <merged_dir>/
//! ├── store/<xx>/<hash>-<size>   merged files, named after their content
//! ├── <id>/                      one merge
//! │   ├── index.tsv              romfs path → file served (store or mod folder)
//! │   ├── patches.tsv            code patches
//! │   ├── plan.txt               mods and settings part of the stamp
//! │   ├── locales.txt            message archives merged ("all" or "EUfr,USen")
//! │   ├── profile.txt            the profile it was made for, for people
//! │   ├── conflicts.tsv          conflicts found when it was made
//! │   └── stamp.txt              written last: the merge is complete
//! └── recent.txt                 merge ids, most recently used first
//! ```
//!
//! This module holds what the cache decides; reading and writing its files
//! is left to the caller.

use vstd::prelude::*;
use vstd::utf8::encode_utf8;

use crate::config::{Locales, SpecLocales};
use crate::mods::DirEntry;
use crate::mods::{mixed, Fingerprint, FNV_OFFSET};
use crate::options::{strings_view, text_less, text_lt};
use crate::paths::{join, join_spec};
use crate::text::{
    chars_eq, chars_of, copy_string, hex_text, push_char, push_str, string_of, terminated, is_lit,
    split, split_chars, str_eq, trim, trim_str,
};

verus! {

pub const STORE_DIR: &'static str = "store";

pub const INDEX_FILE: &'static str = "index.tsv";

pub const PATCHES_FILE: &'static str = "patches.tsv";

pub const STAMP_FILE: &'static str = "stamp.txt";

pub const PLAN_FILE: &'static str = "plan.txt";

pub const LOCALES_FILE: &'static str = "locales.txt";

pub const PROFILE_FILE: &'static str = "profile.txt";

pub const CONFLICTS_FILE: &'static str = "conflicts.tsv";

pub const RECENT_FILE: &'static str = "recent.txt";

/// A complete merge in the cache.
#[derive(Debug, Clone, PartialEq, Eq)]
pub struct CachedMerge {
    pub id: String,
    /// `<plan>-<game version>-<code build id>`.
    pub stamp: String,
    pub plan: String,
    pub locales: String,
    pub profile: String,
}

/// romfs-relative path → SD path to serve instead, sorted by romfs path,
/// each path once.
#[derive(Debug, Clone, PartialEq, Eq)]
pub struct Redirects {
    entries: Vec<(String, String)>,
}

pub type SpecRedirect = (Seq<char>, Seq<char>);

pub open spec fn redirects_view(v: Seq<(String, String)>) -> Seq<SpecRedirect> {
    v.map_values(|e: (String, String)| (e.0@, e.1@))
}

impl View for Redirects {
    type V = Seq<SpecRedirect>;

    closed spec fn view(&self) -> Seq<SpecRedirect> {
        redirects_view(self.entries@)
    }
}

/// `s` with `path` served from `target`, in its place.
pub open spec fn insert_redirect(s: Seq<SpecRedirect>, path: Seq<char>, target: Seq<char>) -> Seq<SpecRedirect>
    decreases s.len(),
{
    if s.len() == 0 {
        seq![(path, target)]
    } else if s[0].0 == path {
        seq![(path, target)] + s.skip(1)
    } else if text_lt(path, s[0].0) {
        seq![(path, target)] + s
    } else {
        seq![s[0]] + insert_redirect(s.skip(1), path, target)
    }
}

/// What `path` is served from, if it is redirected.
pub open spec fn redirect_lookup(s: Seq<SpecRedirect>, path: Seq<char>) -> Option<Seq<char>>
    decreases s.len(),
{
    if s.len() == 0 {
        None
    } else if s[0].0 == path {
        Some(s[0].1)
    } else {
        redirect_lookup(s.skip(1), path)
    }
}

/// Inserting keeps the redirects sorted, each path once.
pub proof fn lemma_insert_redirect_sorted(s: Seq<SpecRedirect>, path: Seq<char>, target: Seq<char>)
    requires
        sorted_redirects(s),
    ensures
        sorted_redirects(insert_redirect(s, path, target)),
        forall|i: int|
            0 <= i < insert_redirect(s, path, target).len() ==> (#[trigger] insert_redirect(
                s,
                path,
                target,
            )[i].0 == path || exists|j: int| 0 <= j < s.len() && s[j].0 == insert_redirect(
                s,
                path,
                target,
            )[i].0),
    decreases s.len(),
{
    let r = insert_redirect(s, path, target);
    if s.len() == 0 {
    } else if s[0].0 == path {
        assert forall|i: int, j: int| 0 <= i < j < r.len() implies text_lt(
            #[trigger] r[i].0,
            #[trigger] r[j].0,
        ) by {
            assert(r[j] == s[j]);
            if i > 0 {
                assert(r[i] == s[i]);
            }
        }
        assert forall|i: int| 0 <= i < r.len() implies (#[trigger] r[i].0 == path || exists|
            j: int,
        | 0 <= j < s.len() && s[j].0 == r[i].0) by {
            if i > 0 {
                assert(s[i].0 == r[i].0);
            }
        }
    } else if text_lt(path, s[0].0) {
        assert forall|i: int, j: int| 0 <= i < j < r.len() implies text_lt(
            #[trigger] r[i].0,
            #[trigger] r[j].0,
        ) by {
            assert(r[j] == s[j - 1]);
            if i > 0 {
                assert(r[i] == s[i - 1]);
            } else if j > 1 {
                crate::options::lemma_text_lt_transitive(path, s[0].0, s[j - 1].0);
            }
        }
        assert forall|i: int| 0 <= i < r.len() implies (#[trigger] r[i].0 == path || exists|
            j: int,
        | 0 <= j < s.len() && s[j].0 == r[i].0) by {
            if i > 0 {
                assert(s[i - 1].0 == r[i].0);
            }
        }
    } else {
        let rest = insert_redirect(s.skip(1), path, target);
        assert(sorted_redirects(s.skip(1))) by {
            assert forall|i: int, j: int| 0 <= i < j < s.skip(1).len() implies text_lt(
                #[trigger] s.skip(1)[i].0,
                #[trigger] s.skip(1)[j].0,
            ) by {
                assert(s.skip(1)[i] == s[i + 1]);
                assert(s.skip(1)[j] == s[j + 1]);
            }
        }
        lemma_insert_redirect_sorted(s.skip(1), path, target);
        crate::options::lemma_text_lt_total(path, s[0].0);
        assert forall|i: int, j: int| 0 <= i < j < r.len() implies text_lt(
            #[trigger] r[i].0,
            #[trigger] r[j].0,
        ) by {
            assert(r[j] == rest[j - 1]);
            if i > 0 {
                assert(r[i] == rest[i - 1]);
            } else {
                assert(r[0] == s[0]);
                if rest[j - 1].0 != path {
                    let k = choose|k: int| 0 <= k < s.skip(1).len() && s.skip(1)[k].0 == rest[j - 1].0;
                    assert(s.skip(1)[k] == s[k + 1]);
                }
            }
        }
        assert forall|i: int| 0 <= i < r.len() implies (#[trigger] r[i].0 == path || exists|
            j: int,
        | 0 <= j < s.len() && s[j].0 == r[i].0) by {
            if i > 0 {
                assert(r[i] == rest[i - 1]);
                if rest[i - 1].0 != path {
                    let k = choose|k: int| 0 <= k < s.skip(1).len() && s.skip(1)[k].0 == rest[i - 1].0;
                    assert(s.skip(1)[k] == s[k + 1]);
                }
            } else {
                assert(s[0].0 == r[0].0);
            }
        }
    }
}

/// What a path is served from is what was last set for it.
pub proof fn lemma_insert_redirect_lookup(
    s: Seq<SpecRedirect>,
    path: Seq<char>,
    target: Seq<char>,
    other: Seq<char>,
)
    ensures
        redirect_lookup(insert_redirect(s, path, target), other) == if other == path {
            Some(target)
        } else {
            redirect_lookup(s, other)
        },
    decreases s.len(),
{
    let r = insert_redirect(s, path, target);
    if s.len() == 0 {
        assert(r.skip(1) =~= Seq::<SpecRedirect>::empty());
    } else if s[0].0 == path {
        assert(r.skip(1) =~= s.skip(1));
    } else if text_lt(path, s[0].0) {
        assert(r.skip(1) =~= s);
    } else {
        assert(r.skip(1) =~= insert_redirect(s.skip(1), path, target));
        lemma_insert_redirect_lookup(s.skip(1), path, target, other);
    }
}

impl Redirects {
    /// Sorted by path, each path once.
    pub open spec fn wf(&self) -> bool {
        sorted_redirects(self@)
    }

    pub fn new() -> (r: Redirects)
        ensures
            r@ == Seq::<SpecRedirect>::empty(),
            r.wf(),
    {
        let r = Redirects { entries: Vec::new() };
        assert(r@ =~= Seq::<SpecRedirect>::empty());
        r
    }

    pub fn len(&self) -> (n: usize)
        ensures
            n == self@.len(),
    {
        self.entries.len()
    }

    pub fn is_empty(&self) -> (b: bool)
        ensures
            b == (self@.len() == 0),
    {
        self.entries.len() == 0
    }

    /// The `i`th redirect, in path order.
    pub fn entry(&self, i: usize) -> (r: (&String, &String))
        requires
            i < self@.len(),
        ensures
            r.0@ == self@[i as int].0,
            r.1@ == self@[i as int].1,
    {
        let e = &self.entries[i];
        (&e.0, &e.1)
    }

    /// Serves `path` from `target`, replacing what it was served from.
    pub fn insert(&mut self, path: String, target: String)
        ensures
            final(self)@ == insert_redirect(old(self)@, path@, target@),
            old(self).wf() ==> final(self).wf(),
    {
        proof {
            if old(self).wf() {
                lemma_insert_redirect_sorted(old(self)@, path@, target@);
            }
        }
        let ghost s = self@;
        let p = chars_of(path.as_str());
        let mut i: usize = 0;
        assert(s.skip(0) =~= s);
        while i < self.entries.len()
            invariant
                i <= self.entries.len(),
                s == redirects_view(self.entries@),
                s == old(self)@,
                old(self).wf() ==> sorted_redirects(insert_redirect(s, path@, target@)),
                p@ == path@,
                insert_redirect(s, path@, target@) == s.take(i as int) + insert_redirect(
                    s.skip(i as int),
                    path@,
                    target@,
                ),
            decreases self.entries.len() - i,
        {
            let name = chars_of(self.entries[i].0.as_str());
            assert(s.skip(i as int)[0] == s[i as int]);
            assert(s[i as int].0 == self.entries@[i as int].0@);
            if chars_eq(name.as_slice(), p.as_slice()) {
                self.entries.set(i, (path, target));
                assert(redirects_view(self.entries@) =~= s.take(i as int) + insert_redirect(
                    s.skip(i as int),
                    path@,
                    target@,
                )) by {
                    assert(s.skip(i as int).skip(1) =~= s.skip(i + 1));
                }
                return ;
            }
            if text_less(p.as_slice(), name.as_slice()) {
                self.entries.insert(i, (path, target));
                assert(redirects_view(self.entries@) =~= s.take(i as int) + insert_redirect(
                    s.skip(i as int),
                    path@,
                    target@,
                ));
                return ;
            }
            assert(s.skip(i as int).skip(1) =~= s.skip(i + 1));
            assert(s.take(i + 1) =~= s.take(i as int) + seq![s[i as int]]);
            i = i + 1;
        }
        let n = self.entries.len();
        self.entries.push((path, target));
        assert(s.skip(n as int) =~= Seq::<SpecRedirect>::empty());
        assert(s.take(n as int) =~= s);
        assert(redirects_view(self.entries@) =~= insert_redirect(s, path@, target@));
    }

    /// What `path` is served from.
    pub fn get(&self, path: &str) -> (r: Option<&String>)
        ensures
            match redirect_lookup(self@, path@) {
                Some(t) => r matches Some(x) && x@ == t,
                None => r is None,
            },
    {
        let ghost s = self@;
        let p = chars_of(path);
        let mut i: usize = 0;
        assert(s.skip(0) =~= s);
        while i < self.entries.len()
            invariant
                i <= self.entries.len(),
                s == redirects_view(self.entries@),
                p@ == path@,
                redirect_lookup(s, path@) == redirect_lookup(s.skip(i as int), path@),
            decreases self.entries.len() - i,
        {
            let name = chars_of(self.entries[i].0.as_str());
            assert(s.skip(i as int)[0] == s[i as int]);
            if chars_eq(name.as_slice(), p.as_slice()) {
                return Some(&self.entries[i].1);
            }
            assert(s.skip(i as int).skip(1) =~= s.skip(i + 1));
            i = i + 1;
        }
        None
    }
}

/// What a cached merge serves.
#[derive(Debug)]
pub struct Served {
    pub redirects: Redirects,
    pub patches: Vec<(u32, u32)>,
}

impl Served {
    pub fn new() -> (s: Served)
        ensures
            s.redirects@.len() == 0,
            s.redirects.wf(),
            s.patches@.len() == 0,
    {
        Served { redirects: Redirects::new(), patches: Vec::new() }
    }
}

/// Whether each of `wanted` is among `pieces`.
pub open spec fn all_in(pieces: Seq<Seq<char>>, wanted: Seq<Seq<char>>) -> bool {
    forall|i: int| 0 <= i < wanted.len() ==> pieces.contains(#[trigger] wanted[i])
}

/// Whether merged message archives (`record`: "all" or "EUfr,USen") include
/// every one `wanted`.
pub open spec fn locales_cover_spec(record: Seq<char>, wanted: SpecLocales) -> bool {
    let merged = trim(record);
    if merged == "all"@ {
        true
    } else {
        match wanted {
            SpecLocales::All => false,
            SpecLocales::Only(list) => all_in(split(merged, ','), list),
        }
    }
}

fn has_piece(pieces: &Vec<Vec<char>>, x: &[char]) -> (r: bool)
    ensures
        r == pieces@.map_values(|v: Vec<char>| v@).contains(x@),
{
    let ghost pv = pieces@.map_values(|v: Vec<char>| v@);
    let mut j: usize = 0;
    while j < pieces.len()
        invariant
            j <= pieces.len(),
            pv == pieces@.map_values(|v: Vec<char>| v@),
            forall|l: int| 0 <= l < j ==> pv[l] != x@,
        decreases pieces.len() - j,
    {
        if chars_eq(pieces[j].as_slice(), x) {
            assert(pv[j as int] == x@);
            return true;
        }
        j = j + 1;
    }
    false
}

fn all_listed(pieces: &Vec<Vec<char>>, list: &Vec<String>) -> (r: bool)
    ensures
        r == all_in(pieces@.map_values(|v: Vec<char>| v@), strings_view(list@)),
{
    let ghost pv = pieces@.map_values(|v: Vec<char>| v@);
    let mut i: usize = 0;
    while i < list.len()
        invariant
            i <= list.len(),
            pv == pieces@.map_values(|v: Vec<char>| v@),
            forall|k: int| 0 <= k < i ==> pv.contains(#[trigger] strings_view(list@)[k]),
        decreases list.len() - i,
    {
        let locale = chars_of(list[i].as_str());
        assert(strings_view(list@)[i as int] == locale@);
        if !has_piece(pieces, locale.as_slice()) {
            return false;
        }
        i = i + 1;
    }
    true
}

pub fn locales_cover(record: &str, wanted: &Locales) -> (r: bool)
    ensures
        r == locales_cover_spec(record@, wanted@),
{
    let t = trim_str(record);
    proof {
        reveal_strlit("all");
    }
    if is_lit(t.as_slice(), "all") {
        return true;
    }
    match wanted {
        Locales::All => {
            return false;
        },
        Locales::Only(list) => {
            let merged = split_chars(t.as_slice(), ',');
            let found = all_listed(&merged, list);
            assert(merged@.map_values(|v: Vec<char>| v@) =~= split(t@, ','));
            assert(wanted@ == SpecLocales::Only(strings_view(list@)));
            return found;
        },
    }
}

/// The folder name of a merge: the fingerprint of its stamp and locales.
pub fn merge_id(stamp: &str, locales: &str) -> (r: String)
    ensures
        r@ == hex_text(mixed(mixed(FNV_OFFSET, encode_utf8(stamp@)), encode_utf8(locales@)) as nat, 16),
{
    let mut fingerprint = Fingerprint::default();
    fingerprint.mix_str(stamp);
    fingerprint.mix_str(locales);
    fingerprint.finish()
}

/// The merges kept in a folder.
pub struct MergeCache {
    dir: String,
}

impl View for MergeCache {
    type V = Seq<char>;

    closed spec fn view(&self) -> Seq<char> {
        self.dir@
    }
}

impl MergeCache {
    pub fn new(dir: &str) -> (c: MergeCache)
        ensures
            c@ == dir@,
    {
        MergeCache { dir: crate::text::string_of(chars_of(dir).as_slice()) }
    }

    /// Where merged files are stored.
    pub fn store_dir(&self) -> (r: String)
        ensures
            r@ == join_spec(self@, STORE_DIR@),
    {
        join(self.dir.as_str(), STORE_DIR)
    }

    /// The folder of merge `id`.
    pub fn entry_dir(&self, id: &str) -> (r: String)
        ensures
            r@ == join_spec(self@, id@),
    {
        join(self.dir.as_str(), id)
    }

    /// The folder itself.
    pub fn dir(&self) -> (r: &str)
        ensures
            r@ == self@,
    {
        self.dir.as_str()
    }
}

/// The merge ids of `recent.txt`: one per line, blanks ignored.
pub open spec fn recent_of(lines: Seq<Seq<char>>) -> Seq<Seq<char>>
    decreases lines.len(),
{
    if lines.len() == 0 {
        Seq::empty()
    } else {
        let r = recent_of(lines.drop_last());
        let t = trim(lines.last());
        if t.len() > 0 {
            r.push(t)
        } else {
            r
        }
    }
}

pub fn recent_ids_of(text: &str) -> (r: Vec<String>)
    ensures
        strings_view(r@) == recent_of(crate::text::lines(text@)),
{
    let ls = crate::text::lines_of(chars_of(text).as_slice());
    let ghost lv = ls@.map_values(|l: Vec<char>| l@);
    let mut r: Vec<String> = Vec::new();
    let mut i: usize = 0;
    while i < ls.len()
        invariant
            i <= ls.len(),
            lv == ls@.map_values(|l: Vec<char>| l@),
            lv == crate::text::lines(text@),
            strings_view(r@) == recent_of(lv.take(i as int)),
        decreases ls.len() - i,
    {
        proof {
            assert(lv.take(i + 1).drop_last() =~= lv.take(i as int));
            assert(lv[i as int] == ls@[i as int]@);
        }
        let t = crate::text::trim_chars(ls[i].as_slice());
        if t.len() > 0 {
            let ghost before = strings_view(r@);
            r.push(crate::text::string_of(t.as_slice()));
            assert(strings_view(r@) =~= before.push(t@));
        }
        i = i + 1;
    }
    assert(lv.take(ls.len() as int) =~= lv);
    r
}

/// `recent.txt` for these ids: one per line.
pub open spec fn recent_text(ids: Seq<Seq<char>>) -> Seq<char> {
    crate::text::terminated(ids)
}

/// The text of `recent.txt` for these ids.
pub fn recent_text_of(ids: &Vec<String>) -> (r: String)
    ensures
        r@ == recent_text(strings_view(ids@)),
{
    let ghost v = strings_view(ids@);
    let mut r = String::new();
    let mut i: usize = 0;
    while i < ids.len()
        invariant
            i <= ids.len(),
            v == strings_view(ids@),
            r@ == recent_text(v.take(i as int)),
        decreases ids.len() - i,
    {
        crate::text::push_str(&mut r, ids[i].as_str());
        crate::text::push_char(&mut r, '\n');
        proof {
            assert(v.take(i + 1).drop_last() =~= v.take(i as int));
            assert(v[i as int] == ids@[i as int]@);
        }
        i = i + 1;
    }
    assert(v.take(ids.len() as int) =~= v);
    r
}

/// Whether an id is not `id`.
pub open spec fn other_than(id: Seq<char>) -> spec_fn(Seq<char>) -> bool {
    |other: Seq<char>| other != id
}

/// The ids once `id` is used: first, each id once.
pub open spec fn touched(ids: Seq<Seq<char>>, id: Seq<char>) -> Seq<Seq<char>> {
    if ids.len() > 0 && ids[0] == id {
        ids
    } else {
        seq![id] + ids.filter(other_than(id))
    }
}

pub fn touch_ids(ids: &Vec<String>, id: &str) -> (r: Vec<String>)
    ensures
        strings_view(r@) == touched(strings_view(ids@), id@),
{
    let ghost v = strings_view(ids@);
    let idc = chars_of(id);
    if ids.len() > 0 && str_eq(ids[0].as_str(), id) {
        return crate::options::copy_strings(ids);
    }
    let mut r: Vec<String> = Vec::new();
    r.push(crate::text::string_of(idc.as_slice()));
    let mut i: usize = 0;
    while i < ids.len()
        invariant
            i <= ids.len(),
            v == strings_view(ids@),
            idc@ == id@,
            strings_view(r@) == seq![id@] + v.take(i as int).filter(other_than(id@)),
        decreases ids.len() - i,
    {
        proof {
            assert(v.take(i + 1).drop_last() =~= v.take(i as int));
            assert(v[i as int] == ids@[i as int]@);
            v.take(i as int).lemma_filter_push(v[i as int], other_than(id@));
            assert(v.take(i + 1) =~= v.take(i as int).push(v[i as int]));
        }
        if !str_eq(ids[i].as_str(), id) {
            let ghost before = strings_view(r@);
            r.push(copy_string(&ids[i]));
            assert(strings_view(r@) =~= before.push(ids@[i as int]@));
        }
        i = i + 1;
    }
    assert(v.take(ids.len() as int) =~= v);
    r
}

/// An id `recent.txt` can hold: on one line, not blank, no white space
/// around it.
pub open spec fn listable_id(id: Seq<char>) -> bool {
    crate::text::plain_line(id) && id.len() > 0 && trim(id) == id
}

proof fn lemma_recent_of_listable(ids: Seq<Seq<char>>)
    requires
        forall|i: int| 0 <= i < ids.len() ==> listable_id(#[trigger] ids[i]),
    ensures
        recent_of(ids) == ids,
    decreases ids.len(),
{
    if ids.len() > 0 {
        let front = ids.drop_last();
        assert forall|i: int| 0 <= i < front.len() implies listable_id(#[trigger] front[i]) by {
            assert(front[i] == ids[i]);
        }
        lemma_recent_of_listable(front);
        assert(listable_id(ids.last()));
        assert(front.push(ids.last()) =~= ids);
    }
}

/// Reading `recent.txt` back gives the ids written to it.
pub proof fn lemma_recent_round_trip(ids: Seq<Seq<char>>)
    requires
        forall|i: int| 0 <= i < ids.len() ==> listable_id(#[trigger] ids[i]),
    ensures
        recent_of(crate::text::lines(recent_text(ids))) == ids,
{
    assert forall|i: int| 0 <= i < ids.len() implies crate::text::plain_line(#[trigger] ids[i]) by {
        assert(listable_id(ids[i]));
    }
    crate::text::lemma_lines_terminated(ids);
    lemma_recent_of_listable(ids);
}

/// A merge just used comes first, once, the others keeping their order;
/// using it again changes nothing.
pub proof fn lemma_touch(ids: Seq<Seq<char>>, id: Seq<char>)
    ensures
        touched(ids, id).len() > 0,
        touched(ids, id)[0] == id,
        !touched(ids, id).skip(1).contains(id) || (ids.len() > 0 && ids[0] == id),
        touched(touched(ids, id), id) == touched(ids, id),
{
    let t = touched(ids, id);
    if !(ids.len() > 0 && ids[0] == id) {
        let rest = ids.filter(other_than(id));
        assert(t.skip(1) =~= rest);
        if rest.contains(id) {
            let k = choose|k: int| 0 <= k < rest.len() && rest[k] == id;
            ids.lemma_filter_pred(other_than(id), k);
        }
        assert(t[0] == id);
    }
}

// --- what a merge serves, on the SD card --------------------------------------------------

pub open spec fn redirect_line(r: SpecRedirect) -> Seq<char> {
    r.0 + "\t"@ + r.1
}

pub open spec fn patch_line(p: (u32, u32)) -> Seq<char> {
    hex_text(p.0 as nat, 8) + "\t"@ + hex_text(p.1 as nat, 8)
}

/// `index.tsv`: each redirect on its line, path and target tab separated.
pub open spec fn index_text_spec(rs: Seq<SpecRedirect>) -> Seq<char> {
    terminated(rs.map_values(|r: SpecRedirect| redirect_line(r)))
}

/// `patches.tsv`: each patch on its line, offset and value in 8 hexadecimal
/// digits, tab separated.
pub open spec fn patches_text_spec(ps: Seq<(u32, u32)>) -> Seq<char> {
    terminated(ps.map_values(|p: (u32, u32)| patch_line(p)))
}

proof fn lemma_terminated_push(ls: Seq<Seq<char>>, l: Seq<char>)
    ensures
        terminated(ls.push(l)) == terminated(ls) + l + seq!['\n'],
{
    assert(ls.push(l).drop_last() =~= ls);
}

/// The text of a merge's `index.tsv`.
pub fn index_text(served: &Served) -> (r: String)
    ensures
        r@ == index_text_spec(served.redirects@),
{
    let ghost rs = served.redirects@;
    let mut out = String::new();
    let mut i: usize = 0;
    while i < served.redirects.len()
        invariant
            i <= rs.len(),
            rs == served.redirects@,
            out@ == terminated(rs.take(i as int).map_values(|r: SpecRedirect| redirect_line(r))),
        decreases rs.len() - i,
    {
        let (path, target) = served.redirects.entry(i);
        let ghost before = out@;
        proof {
            reveal_strlit("\t");
            assert(rs.take(i + 1).map_values(|r: SpecRedirect| redirect_line(r)) =~= rs.take(
                i as int,
            ).map_values(|r: SpecRedirect| redirect_line(r)).push(redirect_line(rs[i as int])));
            lemma_terminated_push(
                rs.take(i as int).map_values(|r: SpecRedirect| redirect_line(r)),
                redirect_line(rs[i as int]),
            );
        }
        push_str(&mut out, path.as_str());
        push_char(&mut out, '\t');
        push_str(&mut out, target.as_str());
        push_char(&mut out, '\n');
        assert(out@ =~= before + redirect_line(rs[i as int]) + seq!['\n']);
        i = i + 1;
    }
    assert(rs.take(rs.len() as int) =~= rs);
    out
}

/// The text of a merge's `patches.tsv`.
pub fn patches_text(served: &Served) -> (r: String)
    ensures
        r@ == patches_text_spec(served.patches@),
{
    let ghost ps = served.patches@;
    let mut out = String::new();
    let mut i: usize = 0;
    while i < served.patches.len()
        invariant
            i <= ps.len(),
            ps == served.patches@,
            out@ == terminated(ps.take(i as int).map_values(|p: (u32, u32)| patch_line(p))),
        decreases ps.len() - i,
    {
        let (offset, value) = served.patches[i];
        let ghost before = out@;
        proof {
            reveal_strlit("\t");
            assert(ps.take(i + 1).map_values(|p: (u32, u32)| patch_line(p)) =~= ps.take(
                i as int,
            ).map_values(|p: (u32, u32)| patch_line(p)).push(patch_line(ps[i as int])));
            lemma_terminated_push(
                ps.take(i as int).map_values(|p: (u32, u32)| patch_line(p)),
                patch_line(ps[i as int]),
            );
        }
        crate::text::push_hex(&mut out, offset as u64, 8);
        push_char(&mut out, '\t');
        crate::text::push_hex(&mut out, value as u64, 8);
        push_char(&mut out, '\n');
        assert(out@ =~= before + patch_line(ps[i as int]) + seq!['\n']);
        i = i + 1;
    }
    assert(ps.take(ps.len() as int) =~= ps);
    out
}

/// The redirects `index.tsv` holds: each line with a tab is a path and its
/// target (split at the first tab), a later line for a path winning.
pub open spec fn redirects_of(ls: Seq<Seq<char>>) -> Seq<SpecRedirect>
    decreases ls.len(),
{
    if ls.len() == 0 {
        Seq::empty()
    } else {
        let r = redirects_of(ls.drop_last());
        match crate::text::split_once(ls.last(), '\t') {
            Some((path, target)) => insert_redirect(r, path, target),
            None => r,
        }
    }
}

/// The patches `patches.tsv` holds: each line with a tab whose two sides
/// are hexadecimal `u32`s.
pub open spec fn patches_of(ls: Seq<Seq<char>>) -> Seq<(u32, u32)>
    decreases ls.len(),
{
    if ls.len() == 0 {
        Seq::empty()
    } else {
        let r = patches_of(ls.drop_last());
        match crate::text::split_once(ls.last(), '\t') {
            Some((a, b)) => match (crate::text::parse_hex_spec(a), crate::text::parse_hex_spec(b)) {
                (Some(offset), Some(value)) => r.push((offset as u32, value as u32)),
                _ => r,
            },
            None => r,
        }
    }
}

/// What a merge serves, from the texts of its `index.tsv` and `patches.tsv`
/// (empty when there is none).
pub fn served_of(index: &str, patches: &str) -> (r: Served)
    ensures
        r.redirects@ == redirects_of(crate::text::lines(index@)),
        r.redirects.wf(),
        r.patches@ == patches_of(crate::text::lines(patches@)),
{
    let mut served = Served::new();
    let ls = crate::text::lines_of(chars_of(index).as_slice());
    let ghost lv = ls@.map_values(|l: Vec<char>| l@);
    let mut i: usize = 0;
    while i < ls.len()
        invariant
            i <= ls.len(),
            lv == ls@.map_values(|l: Vec<char>| l@),
            lv == crate::text::lines(index@),
            served.redirects@ == redirects_of(lv.take(i as int)),
            served.redirects.wf(),
            served.patches@.len() == 0,
        decreases ls.len() - i,
    {
        proof {
            assert(lv.take(i + 1).drop_last() =~= lv.take(i as int));
            assert(lv[i as int] == ls@[i as int]@);
        }
        match crate::text::split_once_char(ls[i].as_slice(), '\t') {
            Some((path, target)) => {
                served.redirects.insert(string_of(path.as_slice()), string_of(target.as_slice()));
            },
            None => {},
        }
        i = i + 1;
    }
    assert(lv.take(ls.len() as int) =~= lv);
    let ps = crate::text::lines_of(chars_of(patches).as_slice());
    let ghost pv = ps@.map_values(|l: Vec<char>| l@);
    let mut k: usize = 0;
    while k < ps.len()
        invariant
            k <= ps.len(),
            pv == ps@.map_values(|l: Vec<char>| l@),
            pv == crate::text::lines(patches@),
            served.redirects@ == redirects_of(lv),
            served.redirects.wf(),
            served.patches@ == patches_of(pv.take(k as int)),
        decreases ps.len() - k,
    {
        proof {
            assert(pv.take(k + 1).drop_last() =~= pv.take(k as int));
            assert(pv[k as int] == ps@[k as int]@);
        }
        match crate::text::split_once_char(ps[k].as_slice(), '\t') {
            Some((a, b)) => {
                match (crate::text::parse_hex_u32(a.as_slice()), crate::text::parse_hex_u32(b.as_slice())) {
                    (Some(offset), Some(value)) => {
                        served.patches.push((offset, value));
                    },
                    _ => {},
                }
            },
            None => {},
        }
        k = k + 1;
    }
    assert(pv.take(ps.len() as int) =~= pv);
    served
}

// --- reading back what a merge saved ---------------------------------------------------------

/// Paths strictly increasing: each once, in order.
pub open spec fn sorted_redirects(s: Seq<SpecRedirect>) -> bool {
    forall|i: int, j: int| 0 <= i < j < s.len() ==> text_lt(#[trigger] s[i].0, #[trigger] s[j].0)
}

/// A redirect `index.tsv` keeps: no tab in its path, no line break in
/// either side, its target not ending with a carriage return.
pub open spec fn storable(r: SpecRedirect) -> bool {
    &&& crate::text::lacks(r.0, '\t')
    &&& crate::text::lacks(r.0, '\n')
    &&& crate::text::plain_line(r.1)
}

proof fn lemma_insert_last(s: Seq<SpecRedirect>, path: Seq<char>, target: Seq<char>)
    requires
        forall|i: int| 0 <= i < s.len() ==> text_lt(#[trigger] s[i].0, path),
    ensures
        insert_redirect(s, path, target) == s.push((path, target)),
    decreases s.len(),
{
    if s.len() > 0 {
        assert(text_lt(s[0].0, path));
        crate::options::lemma_text_lt_total(s[0].0, path);
        crate::options::lemma_text_lt_irreflexive(path);
        assert(s[0].0 != path);
        assert forall|i: int| 0 <= i < s.skip(1).len() implies text_lt(#[trigger] s.skip(1)[i].0, path) by {
            assert(s.skip(1)[i] == s[i + 1]);
        }
        lemma_insert_last(s.skip(1), path, target);
        assert(seq![s[0]] + s.skip(1).push((path, target)) =~= s.push((path, target)));
    } else {
        assert(seq![(path, target)] =~= s.push((path, target)));
    }
}

proof fn lemma_redirect_line(r: SpecRedirect)
    requires
        storable(r),
    ensures
        crate::text::plain_line(redirect_line(r)),
        crate::text::split_once(redirect_line(r), '\t') == Some(r),
{
    reveal_strlit("\t");
    let l = redirect_line(r);
    assert(l =~= r.0 + seq!['\t'] + r.1);
    assert forall|i: int| 0 <= i < l.len() implies l[i] != '\n' by {
        if i < r.0.len() {
            assert(l[i] == r.0[i]);
        } else if i > r.0.len() {
            assert(l[i] == r.1[i - r.0.len() - 1]);
        }
    }
    crate::text::lemma_index_of(l, '\t');
    assert(l[r.0.len() as int] == '\t');
    assert forall|j: int| 0 <= j < r.0.len() implies l[j] != '\t' by {
        assert(l[j] == r.0[j]);
    }
    assert(crate::text::index_of(l, '\t') == r.0.len());
    assert(l.take(r.0.len() as int) =~= r.0);
    assert(l.skip(r.0.len() as int + 1) =~= r.1);
}

proof fn lemma_redirects_of(rs: Seq<SpecRedirect>)
    requires
        sorted_redirects(rs),
        forall|i: int| 0 <= i < rs.len() ==> storable(#[trigger] rs[i]),
    ensures
        redirects_of(rs.map_values(|r: SpecRedirect| redirect_line(r))) == rs,
    decreases rs.len(),
{
    let ls = rs.map_values(|r: SpecRedirect| redirect_line(r));
    if rs.len() > 0 {
        let front = rs.drop_last();
        assert forall|i: int, j: int| 0 <= i < j < front.len() implies text_lt(
            #[trigger] front[i].0,
            #[trigger] front[j].0,
        ) by {
            assert(front[i] == rs[i]);
            assert(front[j] == rs[j]);
        }
        assert forall|i: int| 0 <= i < front.len() implies storable(#[trigger] front[i]) by {
            assert(front[i] == rs[i]);
        }
        lemma_redirects_of(front);
        assert(ls.drop_last() =~= front.map_values(|r: SpecRedirect| redirect_line(r)));
        let last = rs.last();
        assert(storable(last));
        lemma_redirect_line(last);
        assert(ls.last() == redirect_line(last));
        assert forall|i: int| 0 <= i < front.len() implies text_lt(#[trigger] front[i].0, last.0) by {
            assert(front[i] == rs[i]);
        }
        lemma_insert_last(front, last.0, last.1);
        assert(front.push(last) =~= rs);
    } else {
        assert(ls =~= Seq::<Seq<char>>::empty());
    }
}

/// 16 to the power `w`.
pub open spec fn pow16(w: nat) -> nat
    decreases w,
{
    if w == 0 {
        1
    } else {
        16 * pow16((w - 1) as nat)
    }
}

proof fn lemma_hex_char(d: int)
    requires
        0 <= d < 16,
    ensures
        crate::text::is_hex(crate::text::hex_char(d)),
        crate::text::hex_value(crate::text::hex_char(d)) == d,
        crate::text::hex_char(d) != '\t' && crate::text::hex_char(d) != '\n',
        crate::text::hex_char(d) != '\r' && crate::text::hex_char(d) != '+',
{
    if d < 10 {
        assert(((d + 48) as u32) as int == d + 48);
    } else {
        assert(((d + 87) as u32) as int == d + 87);
    }
}

proof fn lemma_hex_text(n: nat, w: nat)
    requires
        n < pow16(w),
    ensures
        crate::text::hex_text(n, w).len() == w,
        crate::text::all_hex(crate::text::hex_text(n, w)),
        crate::text::hexadecimal(crate::text::hex_text(n, w)) == n,
        forall|i: int| 0 <= i < w ==> {
            let c = #[trigger] crate::text::hex_text(n, w)[i];
            c != '\t' && c != '\n' && c != '\r' && c != '+'
        },
    decreases w,
{
    let t = crate::text::hex_text(n, w);
    if w == 0 {
        assert(n == 0);
    } else {
        assert(n / 16 < pow16((w - 1) as nat)) by (nonlinear_arith)
            requires
                n < 16 * pow16((w - 1) as nat),
        ;
        lemma_hex_text(n / 16, (w - 1) as nat);
        lemma_hex_char((n % 16) as int);
        let f = crate::text::hex_text(n / 16, (w - 1) as nat);
        let c = crate::text::hex_char((n % 16) as int);
        assert(t == f.push(c));
        assert(t.drop_last() =~= f);
        assert((n / 16) * 16 + n % 16 == n) by (nonlinear_arith);
        assert forall|i: int| 0 <= i < t.len() implies crate::text::is_hex(#[trigger] t[i]) by {
            if i < f.len() {
                assert(t[i] == f[i]);
            }
        }
        assert forall|i: int| 0 <= i < w implies {
            let x = #[trigger] t[i];
            x != '\t' && x != '\n' && x != '\r' && x != '+'
        } by {
            if i < f.len() {
                assert(t[i] == f[i]);
            }
        }
    }
}

proof fn lemma_patch_line(p: (u32, u32))
    ensures
        crate::text::plain_line(patch_line(p)),
        crate::text::split_once(patch_line(p), '\t') == Some(
            (crate::text::hex_text(p.0 as nat, 8), crate::text::hex_text(p.1 as nat, 8)),
        ),
        crate::text::parse_hex_spec(crate::text::hex_text(p.0 as nat, 8)) == Some(p.0 as int),
        crate::text::parse_hex_spec(crate::text::hex_text(p.1 as nat, 8)) == Some(p.1 as int),
{
    reveal_strlit("\t");
    reveal_with_fuel(pow16, 9);
    assert(pow16(8) == 0x1_0000_0000);
    lemma_hex_text(p.0 as nat, 8);
    lemma_hex_text(p.1 as nat, 8);
    let a = crate::text::hex_text(p.0 as nat, 8);
    let b = crate::text::hex_text(p.1 as nat, 8);
    let l = patch_line(p);
    assert(l =~= a + seq!['\t'] + b);
    assert forall|i: int| 0 <= i < l.len() implies l[i] != '\n' by {
        if i < 8 {
            assert(l[i] == a[i]);
        } else if i > 8 {
            assert(l[i] == b[i - 9]);
        }
    }
    assert(l.last() == b[7]);
    crate::text::lemma_index_of(l, '\t');
    assert forall|j: int| 0 <= j < 8 implies l[j] != '\t' by {
        assert(l[j] == a[j]);
    }
    assert(l[8] == '\t');
    assert(l.take(8) =~= a);
    assert(l.skip(9) =~= b);
    assert(a[0] != '+');
    assert(b[0] != '+');
}

proof fn lemma_patches_of(ps: Seq<(u32, u32)>)
    ensures
        patches_of(ps.map_values(|p: (u32, u32)| patch_line(p))) == ps,
    decreases ps.len(),
{
    let ls = ps.map_values(|p: (u32, u32)| patch_line(p));
    if ps.len() > 0 {
        lemma_patches_of(ps.drop_last());
        assert(ls.drop_last() =~= ps.drop_last().map_values(|p: (u32, u32)| patch_line(p)));
        lemma_patch_line(ps.last());
        assert(ls.last() == patch_line(ps.last()));
        assert(ps.drop_last().push(ps.last()) =~= ps);
    } else {
        assert(ls =~= Seq::<Seq<char>>::empty());
    }
}

/// Reading back the files a merge was saved in gives what it serves: its
/// redirects (in path order, each path once, as `Redirects` keeps them) and
/// its patches.
pub proof fn lemma_served_round_trip(rs: Seq<SpecRedirect>, ps: Seq<(u32, u32)>)
    requires
        sorted_redirects(rs),
        forall|i: int| 0 <= i < rs.len() ==> storable(#[trigger] rs[i]),
    ensures
        redirects_of(crate::text::lines(index_text_spec(rs))) == rs,
        patches_of(crate::text::lines(patches_text_spec(ps))) == ps,
{
    let ls = rs.map_values(|r: SpecRedirect| redirect_line(r));
    assert forall|i: int| 0 <= i < ls.len() implies crate::text::plain_line(#[trigger] ls[i]) by {
        lemma_redirect_line(rs[i]);
    }
    crate::text::lemma_lines_terminated(ls);
    lemma_redirects_of(rs);
    let qs = ps.map_values(|p: (u32, u32)| patch_line(p));
    assert forall|i: int| 0 <= i < qs.len() implies crate::text::plain_line(#[trigger] qs[i]) by {
        lemma_patch_line(ps[i]);
    }
    crate::text::lemma_lines_terminated(qs);
    lemma_patches_of(ps);
}

// --- which merges there are -------------------------------------------------------------

/// A folder of the cache holding a merge, complete or not.
pub open spec fn is_merge_folder(e: DirEntry) -> bool {
    e.is_dir && e.name@ != STORE_DIR@ && !crate::text::eq_ignore_case(e.name@, "romfs"@)
}

/// The names of the folders among `entries` holding a merge, in order.
pub open spec fn merge_folders_spec(entries: Seq<DirEntry>) -> Seq<Seq<char>>
    decreases entries.len(),
{
    if entries.len() == 0 {
        Seq::empty()
    } else {
        let r = merge_folders_spec(entries.drop_last());
        if is_merge_folder(entries.last()) {
            r.push(entries.last().name@)
        } else {
            r
        }
    }
}

pub fn merge_folders(entries: &Vec<DirEntry>) -> (r: Vec<String>)
    ensures
        strings_view(r@) == merge_folders_spec(entries@),
{
    let mut r: Vec<String> = Vec::new();
    let mut i: usize = 0;
    while i < entries.len()
        invariant
            i <= entries.len(),
            strings_view(r@) == merge_folders_spec(entries@.take(i as int)),
        decreases entries.len() - i,
    {
        assert(entries@.take(i + 1).drop_last() =~= entries@.take(i as int));
        let e = &entries[i];
        let name = chars_of(e.name.as_str());
        proof {
            reveal_strlit("romfs");
        }
        if e.is_dir && !str_eq(e.name.as_str(), STORE_DIR) && !crate::text::is_ignore_case(
            name.as_slice(),
            "romfs",
        ) {
            let ghost before = strings_view(r@);
            r.push(copy_string(&e.name));
            assert(strings_view(r@) =~= before.push(e.name@));
        }
        i = i + 1;
    }
    assert(entries@.take(entries.len() as int) =~= entries@);
    r
}

/// The ids to look for merges under: the recent list, then the folders it
/// lacks (when it was lost), each once.
pub open spec fn entry_ids_spec(recent: Seq<Seq<char>>, folders: Seq<Seq<char>>) -> Seq<Seq<char>>
    decreases folders.len(),
{
    if folders.len() == 0 {
        recent
    } else {
        let r = entry_ids_spec(recent, folders.drop_last());
        if r.contains(folders.last()) {
            r
        } else {
            r.push(folders.last())
        }
    }
}

fn contains_string(v: &Vec<String>, s: &str) -> (r: bool)
    ensures
        r == strings_view(v@).contains(s@),
{
    let mut i: usize = 0;
    while i < v.len()
        invariant
            i <= v.len(),
            forall|j: int| 0 <= j < i ==> strings_view(v@)[j] != s@,
        decreases v.len() - i,
    {
        if str_eq(v[i].as_str(), s) {
            assert(strings_view(v@)[i as int] == s@);
            return true;
        }
        i = i + 1;
    }
    false
}

pub fn entry_ids(recent: &Vec<String>, folders: &Vec<String>) -> (r: Vec<String>)
    ensures
        strings_view(r@) == entry_ids_spec(strings_view(recent@), strings_view(folders@)),
{
    let ghost fv = strings_view(folders@);
    let mut ids = crate::options::copy_strings(recent);
    let mut i: usize = 0;
    while i < folders.len()
        invariant
            i <= folders.len(),
            fv == strings_view(folders@),
            strings_view(ids@) == entry_ids_spec(strings_view(recent@), fv.take(i as int)),
        decreases folders.len() - i,
    {
        proof {
            assert(fv.take(i + 1).drop_last() =~= fv.take(i as int));
            assert(fv[i as int] == folders@[i as int]@);
        }
        if !contains_string(&ids, folders[i].as_str()) {
            let ghost before = strings_view(ids@);
            ids.push(copy_string(&folders[i]));
            assert(strings_view(ids@) =~= before.push(folders@[i as int]@));
        }
        i = i + 1;
    }
    assert(fv.take(folders.len() as int) =~= fv);
    ids
}

/// How many merges `evict` keeps: the setting, at least one.
pub open spec fn kept_count(keep: usize) -> int {
    if keep < 1 {
        1
    } else {
        keep as int
    }
}

/// The merges `evict` keeps: the `keep` (at least one) most recently used of
/// the complete ones.
pub fn kept_ids(complete: &Vec<String>, keep: usize) -> (r: Vec<String>)
    ensures
        strings_view(r@) == strings_view(complete@).take(
            if kept_count(keep) < complete@.len() {
                kept_count(keep)
            } else {
                complete@.len() as int
            },
        ),
{
    let keep: usize = if keep < 1 {
        1
    } else {
        keep
    };
    let n = if keep < complete.len() {
        keep
    } else {
        complete.len()
    };
    let mut r: Vec<String> = Vec::new();
    let mut i: usize = 0;
    while i < n
        invariant
            i <= n,
            n <= complete.len(),
            strings_view(r@) == strings_view(complete@).take(i as int),
        decreases n - i,
    {
        let ghost before = strings_view(r@);
        r.push(copy_string(&complete[i]));
        assert(strings_view(complete@)[i as int] == complete@[i as int]@);
        assert(strings_view(r@) =~= before.push(complete@[i as int]@));
        assert(strings_view(r@) =~= strings_view(complete@).take(i + 1));
        i = i + 1;
    }
    r
}

/// The merge folders `evict` deletes: those it does not keep, complete or
/// not.
pub fn folders_to_remove(folders: &Vec<String>, kept: &Vec<String>) -> (r: Vec<String>)
    ensures
        strings_view(r@) == strings_view(folders@).filter(
            |f: Seq<char>| !strings_view(kept@).contains(f),
        ),
{
    let ghost fv = strings_view(folders@);
    let ghost keep = |f: Seq<char>| !strings_view(kept@).contains(f);
    let mut r: Vec<String> = Vec::new();
    let mut i: usize = 0;
    while i < folders.len()
        invariant
            i <= folders.len(),
            fv == strings_view(folders@),
            keep == (|f: Seq<char>| !strings_view(kept@).contains(f)),
            strings_view(r@) == fv.take(i as int).filter(keep),
        decreases folders.len() - i,
    {
        proof {
            assert(fv[i as int] == folders@[i as int]@);
            fv.take(i as int).lemma_filter_push(fv[i as int], keep);
            assert(fv.take(i + 1) =~= fv.take(i as int).push(fv[i as int]));
        }
        if !contains_string(kept, folders[i].as_str()) {
            let ghost before = strings_view(r@);
            r.push(copy_string(&folders[i]));
            assert(strings_view(r@) =~= before.push(fv[i as int]));
        }
        i = i + 1;
    }
    assert(fv.take(folders.len() as int) =~= fv);
    r
}

// --- the store -----------------------------------------------------------------------------

/// The name a file gets in the store: the 16 hexadecimal digits of its
/// content's hash, `-`, its size in hexadecimal.
pub open spec fn store_name_spec(hash: u64, size: u64) -> Seq<char> {
    hex_text(hash as nat, 16) + "-"@ + crate::text::hex_digits(size as nat)
}

/// Writes merged files into the store, skipping those already there. The
/// hashing and the writing are the caller's: this keeps what is known of
/// the store's folders and counts.
pub struct StoreWriter {
    store: String,
    /// Store folders known to exist; `true` when this merge created them
    /// (nothing to look for in there).
    folders: Vec<(String, bool)>,
    pub written: usize,
    pub reused: usize,
    pub bytes_written: u64,
}

pub open spec fn folders_view(v: Seq<(String, bool)>) -> Seq<(Seq<char>, bool)> {
    v.map_values(|e: (String, bool)| (e.0@, e.1))
}

/// Whether a store folder is known, and whether this merge created it.
pub open spec fn folder_state(folders: Seq<(Seq<char>, bool)>, folder: Seq<char>) -> Option<bool>
    decreases folders.len(),
{
    if folders.len() == 0 {
        None
    } else if folders[0].0 == folder {
        Some(folders[0].1)
    } else {
        folder_state(folders.skip(1), folder)
    }
}

impl StoreWriter {
    pub closed spec fn store_spec(&self) -> Seq<char> {
        self.store@
    }

    pub closed spec fn folders_spec(&self) -> Seq<(Seq<char>, bool)> {
        folders_view(self.folders@)
    }

    /// Files written, files reused, bytes written.
    pub closed spec fn counts(&self) -> (usize, usize, u64) {
        (self.written, self.reused, self.bytes_written)
    }

    /// A writer for the store folder `store` (a normalized path).
    pub fn new(store: &str) -> (w: StoreWriter)
        ensures
            w.store_spec() == store@,
            w.folders_spec().len() == 0,
            w.counts() == (0usize, 0usize, 0u64),
    {
        let w = StoreWriter {
            store: crate::config::owned(store),
            folders: Vec::new(),
            written: 0,
            reused: 0,
            bytes_written: 0,
        };
        assert(w.folders_spec() =~= Seq::<(Seq<char>, bool)>::empty());
        w
    }

    /// The name in the store of a file with that hash and size.
    pub fn name_for(hash: u64, size: u64) -> (r: String)
        ensures
            r@ == store_name_spec(hash, size),
    {
        let mut r = String::new();
        crate::text::push_hex(&mut r, hash, 16);
        proof {
            reveal_strlit("-");
        }
        push_char(&mut r, '-');
        crate::text::push_hex_digits(&mut r, size);
        r
    }

    /// The store folder a name goes in (its first two characters) and the
    /// file's path.
    pub fn place(&self, name: &str) -> (r: (String, String, String))
        requires
            name@.len() >= 2,
        ensures
            r.0@ == name@.take(2),
            r.1@ == join_spec(self.store_spec(), name@.take(2)),
            r.2@ == join_spec(join_spec(self.store_spec(), name@.take(2)), name@),
    {
        let n = chars_of(name);
        let folder = string_of(crate::text::slice_of(n.as_slice(), 0, 2).as_slice());
        assert(folder@ =~= name@.take(2));
        let dir = join(self.store.as_str(), folder.as_str());
        let file = join(dir.as_str(), name);
        (folder, dir, file)
    }

    /// What is known of a store folder: whether this merge created it.
    pub fn folder(&self, folder: &str) -> (r: Option<bool>)
        ensures
            r == folder_state(self.folders_spec(), folder@),
    {
        let ghost s = self.folders_spec();
        let mut i: usize = 0;
        assert(s.skip(0) =~= s);
        while i < self.folders.len()
            invariant
                i <= self.folders.len(),
                s == folders_view(self.folders@),
                folder_state(s, folder@) == folder_state(s.skip(i as int), folder@),
            decreases self.folders.len() - i,
        {
            assert(s.skip(i as int)[0] == s[i as int]);
            if str_eq(self.folders[i].0.as_str(), folder) {
                return Some(self.folders[i].1);
            }
            assert(s.skip(i as int).skip(1) =~= s.skip(i + 1));
            i = i + 1;
        }
        None
    }

    /// Records a store folder seen, `fresh` when this merge created it.
    pub fn remember(&mut self, folder: String, fresh: bool)
        ensures
            final(self).folders_spec() == old(self).folders_spec().push((folder@, fresh)),
            final(self).store_spec() == old(self).store_spec(),
            final(self).counts() == old(self).counts(),
    {
        let ghost before = self.folders_spec();
        let ghost f = folder@;
        self.folders.push((folder, fresh));
        assert(self.folders_spec() =~= before.push((f, fresh)));
    }

    /// A file already in the store served again.
    pub fn count_reused(&mut self)
        requires
            old(self).counts().1 < usize::MAX,
        ensures
            final(self).counts() == (old(self).counts().0, (old(self).counts().1 + 1) as usize, old(
                self,
            ).counts().2),
            final(self).folders_spec() == old(self).folders_spec(),
            final(self).store_spec() == old(self).store_spec(),
    {
        self.reused = self.reused + 1;
    }

    /// A file of `size` bytes written to the store.
    pub fn count_written(&mut self, size: u64)
        requires
            old(self).counts().0 < usize::MAX,
            old(self).counts().2 + size <= u64::MAX,
        ensures
            final(self).counts() == ((old(self).counts().0 + 1) as usize, old(self).counts().1, (old(
                self,
            ).counts().2 + size) as u64),
            final(self).folders_spec() == old(self).folders_spec(),
            final(self).store_spec() == old(self).store_spec(),
    {
        self.written = self.written + 1;
        self.bytes_written = self.bytes_written + size;
    }
}

/// Whether a file must be written: unless its folder was there before this
/// merge and holds a file of that name and size (a merge made it; an
/// interrupted write would have left it shorter). `existing`: the size of
/// the file found there, if any.
pub open spec fn must_write_spec(fresh: bool, existing: Option<u64>, size: u64) -> bool {
    fresh || existing != Some(size)
}

pub fn must_write(fresh: bool, existing: Option<u64>, size: u64) -> (r: bool)
    ensures
        r == must_write_spec(fresh, existing, size),
{
    if fresh {
        return true;
    }
    match existing {
        Some(len) => len != size,
        None => true,
    }
}

} // verus!
