//! The row tables of the game's database (RSDB).

use vstd::prelude::*;

use crate::text::{chars_of, is_lit};

verus! {

/// The tag table, merged tag by tag.
pub const TAG_TABLE: &'static str = "RSDB/Tag.Product.rstbl.byml";

/// The field rows of a table are keyed by, or `None` if the file is not a row
/// table that is merged row by row.
pub open spec fn row_key_spec(c: Seq<char>) -> Option<Seq<char>> {
    if c == "RSDB/GameSafetySetting.Product.rstbl.byml"@ {
        Some("NameHash"@)
    } else if c == "RSDB/RumbleCall.Product.rstbl.byml"@ {
        Some("Name"@)
    } else if c == "RSDB/UIScreen.Product.rstbl.byml"@ {
        Some("Name"@)
    } else if c == "RSDB/TagDef.Product.rstbl.byml"@ {
        Some("FullTagId"@)
    } else if c == "RSDB/ActorInfo.Product.rstbl.byml"@ {
        Some("__RowId"@)
    } else if c == "RSDB/AttachmentActorInfo.Product.rstbl.byml"@ {
        Some("__RowId"@)
    } else if c == "RSDB/Challenge.Product.rstbl.byml"@ {
        Some("__RowId"@)
    } else if c == "RSDB/EnhancementMaterialInfo.Product.rstbl.byml"@ {
        Some("__RowId"@)
    } else if c == "RSDB/EventPlayEnvSetting.Product.rstbl.byml"@ {
        Some("__RowId"@)
    } else if c == "RSDB/EventSetting.Product.rstbl.byml"@ {
        Some("__RowId"@)
    } else if c == "RSDB/GameActorInfo.Product.rstbl.byml"@ {
        Some("__RowId"@)
    } else if c == "RSDB/GameAnalyzedEventInfo.Product.rstbl.byml"@ {
        Some("__RowId"@)
    } else if c == "RSDB/GameEventBaseSetting.Product.rstbl.byml"@ {
        Some("__RowId"@)
    } else if c == "RSDB/GameEventMetadata.Product.rstbl.byml"@ {
        Some("__RowId"@)
    } else if c == "RSDB/LoadingTips.Product.rstbl.byml"@ {
        Some("__RowId"@)
    } else if c == "RSDB/Location.Product.rstbl.byml"@ {
        Some("__RowId"@)
    } else if c == "RSDB/LocatorData.Product.rstbl.byml"@ {
        Some("__RowId"@)
    } else if c == "RSDB/PouchActorInfo.Product.rstbl.byml"@ {
        Some("__RowId"@)
    } else if c == "RSDB/XLinkPropertyTable.Product.rstbl.byml"@ {
        Some("__RowId"@)
    } else if c == "RSDB/XLinkPropertyTableList.Product.rstbl.byml"@ {
        Some("__RowId"@)
    } else {
        None
    }
}

fn row_key_of(c: &[char]) -> (r: Option<&'static str>)
    ensures
        match r {
            Some(k) => row_key_spec(c@) == Some(k@),
            None => row_key_spec(c@) is None,
        },
{
    if is_lit(c, "RSDB/GameSafetySetting.Product.rstbl.byml") {
        Some("NameHash")
    } else if is_lit(c, "RSDB/RumbleCall.Product.rstbl.byml") {
        Some("Name")
    } else if is_lit(c, "RSDB/UIScreen.Product.rstbl.byml") {
        Some("Name")
    } else if is_lit(c, "RSDB/TagDef.Product.rstbl.byml") {
        Some("FullTagId")
    } else if is_lit(c, "RSDB/ActorInfo.Product.rstbl.byml") {
        Some("__RowId")
    } else if is_lit(c, "RSDB/AttachmentActorInfo.Product.rstbl.byml") {
        Some("__RowId")
    } else if is_lit(c, "RSDB/Challenge.Product.rstbl.byml") {
        Some("__RowId")
    } else if is_lit(c, "RSDB/EnhancementMaterialInfo.Product.rstbl.byml") {
        Some("__RowId")
    } else if is_lit(c, "RSDB/EventPlayEnvSetting.Product.rstbl.byml") {
        Some("__RowId")
    } else if is_lit(c, "RSDB/EventSetting.Product.rstbl.byml") {
        Some("__RowId")
    } else if is_lit(c, "RSDB/GameActorInfo.Product.rstbl.byml") {
        Some("__RowId")
    } else if is_lit(c, "RSDB/GameAnalyzedEventInfo.Product.rstbl.byml") {
        Some("__RowId")
    } else if is_lit(c, "RSDB/GameEventBaseSetting.Product.rstbl.byml") {
        Some("__RowId")
    } else if is_lit(c, "RSDB/GameEventMetadata.Product.rstbl.byml") {
        Some("__RowId")
    } else if is_lit(c, "RSDB/LoadingTips.Product.rstbl.byml") {
        Some("__RowId")
    } else if is_lit(c, "RSDB/Location.Product.rstbl.byml") {
        Some("__RowId")
    } else if is_lit(c, "RSDB/LocatorData.Product.rstbl.byml") {
        Some("__RowId")
    } else if is_lit(c, "RSDB/PouchActorInfo.Product.rstbl.byml") {
        Some("__RowId")
    } else if is_lit(c, "RSDB/XLinkPropertyTable.Product.rstbl.byml") {
        Some("__RowId")
    } else if is_lit(c, "RSDB/XLinkPropertyTableList.Product.rstbl.byml") {
        Some("__RowId")
    } else {
        None
    }
}

pub fn row_key(canonical: &str) -> (r: Option<&'static str>)
    ensures
        match r {
            Some(k) => row_key_spec(canonical@) == Some(k@),
            None => row_key_spec(canonical@) is None,
        },
{
    let c = chars_of(canonical);
    row_key_of(c.as_slice())
}


// --- tag tables -------------------------------------------------------------------------

/// Where a character falls in UTF-16 order: by its code units, which puts
/// U+E000..U+FFFF after the characters beyond U+FFFF.
pub open spec fn utf16_rank(c: char) -> int {
    let v = c as int;
    if v < 0xD800 {
        v
    } else if v >= 0x10000 {
        v - 0x10000 + 0xD800
    } else {
        v + 0x10_0000
    }
}

/// Whether `a` comes before `b` when both are compared as UTF-16 text.
pub open spec fn utf16_lt(a: Seq<char>, b: Seq<char>) -> bool
    decreases a.len(),
{
    if a.len() == 0 {
        b.len() > 0
    } else if b.len() == 0 {
        false
    } else if a[0] == b[0] {
        utf16_lt(a.skip(1), b.skip(1))
    } else {
        utf16_rank(a[0]) < utf16_rank(b[0])
    }
}

fn rank_of(c: char) -> (r: u32)
    ensures
        r as int == utf16_rank(c),
{
    let v = c as u32;
    if v < 0xD800 {
        v
    } else if v >= 0x10000 {
        v - 0x10000 + 0xD800
    } else {
        v + 0x10_0000
    }
}

/// Whether `a` comes before `b` in UTF-16 order.
pub fn utf16_less(a: &str, b: &str) -> (r: bool)
    ensures
        r == utf16_lt(a@, b@),
{
    let x = chars_of(a);
    let y = chars_of(b);
    let mut i: usize = 0;
    assert(x@.skip(0) =~= x@ && y@.skip(0) =~= y@);
    while i < x.len() && i < y.len() && x[i] == y[i]
        invariant
            i <= x.len(),
            i <= y.len(),
            utf16_lt(x@, y@) == utf16_lt(x@.skip(i as int), y@.skip(i as int)),
        decreases x.len() - i,
    {
        assert(x@.skip(i as int).skip(1) =~= x@.skip(i + 1));
        assert(y@.skip(i as int).skip(1) =~= y@.skip(i + 1));
        i = i + 1;
    }
    proof {
        assert(x@ == a@ && y@ == b@);
    }
    if i == x.len() {
        assert(x@.skip(i as int).len() == 0);
        i < y.len()
    } else if i == y.len() {
        false
    } else {
        assert(x@.skip(i as int)[0] == x@[i as int]);
        assert(y@.skip(i as int)[0] == y@[i as int]);
        rank_of(x[i]) < rank_of(y[i])
    }
}

/// Whether bit `bit` of a bit table is set.
pub open spec fn bit_set(bits: Seq<u8>, bit: int) -> bool {
    bit / 8 < bits.len() && (bits[bit / 8] >> ((bit % 8) as u8)) & 1u8 == 1u8
}

/// The tags whose bit is set for the entry `index` of a tag table (each
/// entry has one bit per tag), among the first `n` tags.
pub open spec fn entry_tags_spec(index: int, tags: Seq<Seq<char>>, bits: Seq<u8>, n: int) -> Seq<Seq<char>>
    decreases n,
{
    if n <= 0 {
        Seq::empty()
    } else {
        let front = entry_tags_spec(index, tags, bits, n - 1);
        if bit_set(bits, index * tags.len() + n - 1) {
            front.push(tags[n - 1])
        } else {
            front
        }
    }
}

/// The tags of the entry `index` of a tag table.
pub fn entry_tags(index: usize, tags: &Vec<String>, bits: &[u8]) -> (r: Vec<String>)
    requires
        (index + 1) * tags@.len() <= usize::MAX,
    ensures
        crate::tkcl::codec::strs(r@) == entry_tags_spec(
            index as int,
            crate::tkcl::codec::strs(tags@),
            bits@,
            tags@.len() as int,
        ),
{
    let ghost tv = crate::tkcl::codec::strs(tags@);
    proof {
        assert(index * tags@.len() + tags@.len() == (index + 1) * tags@.len()) by (nonlinear_arith);
    }
    let start = index * tags.len();
    let mut r: Vec<String> = Vec::new();
    let mut t: usize = 0;
    assert(crate::tkcl::codec::strs(r@) =~= Seq::<Seq<char>>::empty());
    while t < tags.len()
        invariant
            t <= tags.len(),
            start == index * tags@.len(),
            start + tags@.len() <= usize::MAX,
            tv == crate::tkcl::codec::strs(tags@),
            crate::tkcl::codec::strs(r@) == entry_tags_spec(index as int, tv, bits@, t as int),
        decreases tags.len() - t,
    {
        let bit = start + t;
        let byte = bit / 8;
        let set = byte < bits.len() && (bits[byte] >> ((bit % 8) as u8)) & 1u8 == 1u8;
        assert(set == bit_set(bits@, index * tags@.len() + t));
        if set {
            let ghost before = r@;
            r.push(crate::text::copy_string(&tags[t]));
            assert(crate::tkcl::codec::strs(r@) =~= crate::tkcl::codec::strs(before).push(tv[t as int]));
        }
        t = t + 1;
    }
    r
}

/// A change of an entry's tags: added (`true`) or removed.
pub type SpecTagChange = (bool, Seq<char>);

/// The changes from sorted tags `v` to sorted tags `m`: both walked in
/// order, a tag only `m` has added, one only `v` has removed.
pub open spec fn tag_diff(v: Seq<Seq<char>>, m: Seq<Seq<char>>) -> Seq<SpecTagChange>
    decreases v.len() + m.len(),
{
    if m.len() == 0 {
        v.map_values(|t: Seq<char>| (false, t))
    } else if v.len() == 0 {
        seq![(true, m[0])] + tag_diff(v, m.skip(1))
    } else if v[0] == m[0] {
        tag_diff(v.skip(1), m.skip(1))
    } else if utf16_lt(v[0], m[0]) {
        seq![(false, v[0])] + tag_diff(v.skip(1), m)
    } else {
        seq![(true, m[0])] + tag_diff(v, m.skip(1))
    }
}

pub open spec fn changes_view(v: Seq<(bool, String)>) -> Seq<SpecTagChange> {
    v.map_values(|c: (bool, String)| (c.0, c.1@))
}

/// The changes from the sorted tags `vanilla` to the sorted tags `modded`.
pub fn tag_changes(vanilla: &Vec<String>, modded: &Vec<String>) -> (r: Vec<(bool, String)>)
    ensures
        changes_view(r@) == tag_diff(crate::tkcl::codec::strs(vanilla@), crate::tkcl::codec::strs(modded@)),
{
    let ghost v = crate::tkcl::codec::strs(vanilla@);
    let ghost m = crate::tkcl::codec::strs(modded@);
    let mut r: Vec<(bool, String)> = Vec::new();
    let mut vi: usize = 0;
    let mut mi: usize = 0;
    assert(changes_view(r@) + tag_diff(v.skip(0), m.skip(0)) =~= tag_diff(v, m)) by {
        assert(v.skip(0) =~= v);
        assert(m.skip(0) =~= m);
        assert(changes_view(r@) =~= Seq::<SpecTagChange>::empty());
    }
    while mi < modded.len()
        invariant
            vi <= vanilla.len(),
            mi <= modded.len(),
            v == crate::tkcl::codec::strs(vanilla@),
            m == crate::tkcl::codec::strs(modded@),
            changes_view(r@) + tag_diff(v.skip(vi as int), m.skip(mi as int)) == tag_diff(v, m),
        decreases vanilla.len() + modded.len() - vi - mi,
    {
        let ghost before = changes_view(r@);
        let ghost vs = v.skip(vi as int);
        let ghost ms = m.skip(mi as int);
        assert(ms[0] == m[mi as int]);
        assert(ms.skip(1) =~= m.skip(mi + 1));
        if vi >= vanilla.len() {
            assert(vs.len() == 0);
            r.push((true, crate::text::copy_string(&modded[mi])));
            assert(changes_view(r@) =~= before.push((true, m[mi as int])));
            assert(before.push((true, m[mi as int])) + tag_diff(vs, m.skip(mi + 1)) =~= before + (seq![(true, ms[0])] + tag_diff(vs, ms.skip(1))));
            mi = mi + 1;
        } else {
            assert(vs[0] == v[vi as int]);
            assert(vs.skip(1) =~= v.skip(vi + 1));
            if crate::text::str_eq(vanilla[vi].as_str(), modded[mi].as_str()) {
                vi = vi + 1;
                mi = mi + 1;
            } else if utf16_less(vanilla[vi].as_str(), modded[mi].as_str()) {
                r.push((false, crate::text::copy_string(&vanilla[vi])));
                assert(changes_view(r@) =~= before.push((false, v[vi as int])));
                assert(before.push((false, v[vi as int])) + tag_diff(v.skip(vi + 1), ms) =~= before + (seq![(false, vs[0])] + tag_diff(vs.skip(1), ms)));
                vi = vi + 1;
            } else {
                r.push((true, crate::text::copy_string(&modded[mi])));
                assert(changes_view(r@) =~= before.push((true, m[mi as int])));
                assert(before.push((true, m[mi as int])) + tag_diff(vs, m.skip(mi + 1)) =~= before + (seq![(true, ms[0])] + tag_diff(vs, ms.skip(1))));
                mi = mi + 1;
            }
        }
    }
    let ghost before = changes_view(r@);
    let ghost rest = v.skip(vi as int);
    assert(m.skip(mi as int).len() == 0);
    let mut k: usize = vi;
    assert(before + rest.take(0).map_values(|t: Seq<char>| (false, t)) =~= before);
    while k < vanilla.len()
        invariant
            vi <= k <= vanilla.len(),
            v == crate::tkcl::codec::strs(vanilla@),
            rest == v.skip(vi as int),
            changes_view(r@) == before + rest.take(k - vi).map_values(|t: Seq<char>| (false, t)),
        decreases vanilla.len() - k,
    {
        let ghost prev = changes_view(r@);
        r.push((false, crate::text::copy_string(&vanilla[k])));
        assert(rest[k - vi] == v[k as int]);
        assert(rest.take(k + 1 - vi).map_values(|t: Seq<char>| (false, t)) =~= rest.take(k - vi).map_values(
            |t: Seq<char>| (false, t),
        ).push((false, v[k as int])));
        assert(changes_view(r@) =~= prev.push((false, v[k as int])));
        k = k + 1;
    }
    assert(rest.take(k - vi) =~= rest);
    r
}


/// `s` without its first `t`.
pub open spec fn remove_first(s: Seq<Seq<char>>, t: Seq<char>) -> Seq<Seq<char>>
    decreases s.len(),
{
    if s.len() == 0 {
        s
    } else if s[0] == t {
        s.skip(1)
    } else {
        seq![s[0]] + remove_first(s.skip(1), t)
    }
}

/// An entry's tags after changes of a changelog: a removed tag loses its
/// first mention, an added one is put at the end.
pub open spec fn apply_tag_changes(tags: Seq<Seq<char>>, changes: Seq<SpecTagChange>) -> Seq<Seq<char>>
    decreases changes.len(),
{
    if changes.len() == 0 {
        tags
    } else {
        let before = apply_tag_changes(tags, changes.drop_last());
        let (added, tag) = changes.last();
        if added {
            before.push(tag)
        } else {
            remove_first(before, tag)
        }
    }
}

proof fn lemma_remove_at(s: Seq<Seq<char>>, t: Seq<char>, i: int)
    requires
        0 <= i < s.len(),
        s[i] == t,
        forall|j: int| 0 <= j < i ==> s[j] != t,
    ensures
        remove_first(s, t) == s.take(i) + s.skip(i + 1),
    decreases i,
{
    if i == 0 {
        assert(s.take(0) + s.skip(1) =~= s.skip(1));
    } else {
        lemma_remove_at(s.skip(1), t, i - 1);
        assert(seq![s[0]] + (s.skip(1).take(i - 1) + s.skip(1).skip(i)) =~= s.take(i) + s.skip(i + 1));
    }
}

proof fn lemma_remove_absent(s: Seq<Seq<char>>, t: Seq<char>)
    requires
        forall|j: int| 0 <= j < s.len() ==> s[j] != t,
    ensures
        remove_first(s, t) == s,
    decreases s.len(),
{
    if s.len() > 0 {
        lemma_remove_absent(s.skip(1), t);
        assert(seq![s[0]] + s.skip(1) =~= s);
    }
}

/// Applies the tag changes of a changelog to an entry's tags.
pub fn apply_changes(tags: &mut Vec<String>, changes: &Vec<(bool, String)>)
    ensures
        crate::tkcl::codec::strs(final(tags)@) == apply_tag_changes(
            crate::tkcl::codec::strs(old(tags)@),
            changes_view(changes@),
        ),
{
    let ghost start = crate::tkcl::codec::strs(tags@);
    let ghost cv = changes_view(changes@);
    let mut c: usize = 0;
    assert(cv.take(0) =~= Seq::<SpecTagChange>::empty());
    while c < changes.len()
        invariant
            c <= changes.len(),
            cv == changes_view(changes@),
            start == crate::tkcl::codec::strs(old(tags)@),
            crate::tkcl::codec::strs(tags@) == apply_tag_changes(start, cv.take(c as int)),
        decreases changes.len() - c,
    {
        assert(cv.take(c + 1).drop_last() =~= cv.take(c as int));
        assert(cv.take(c + 1).last() == (changes@[c as int].0, changes@[c as int].1@));
        let ghost before = crate::tkcl::codec::strs(tags@);
        let tag = changes[c].1.as_str();
        if changes[c].0 {
            tags.push(crate::text::copy_string(&changes[c].1));
            assert(crate::tkcl::codec::strs(tags@) =~= before.push(tag@));
        } else {
            let mut j: usize = 0;
            while j < tags.len() && !crate::text::str_eq(tags[j].as_str(), tag)
                invariant
                    j <= tags.len(),
                    before == crate::tkcl::codec::strs(tags@),
                    forall|k: int| 0 <= k < j ==> before[k] != tag@,
                decreases tags.len() - j,
            {
                j = j + 1;
            }
            if j < tags.len() {
                proof {
                    lemma_remove_at(before, tag@, j as int);
                }
                tags.remove(j);
                assert(crate::tkcl::codec::strs(tags@) =~= before.take(j as int) + before.skip(j + 1));
            } else {
                proof {
                    lemma_remove_absent(before, tag@);
                }
            }
        }
        c = c + 1;
    }
    assert(cv.take(c as int) =~= cv);
}


/// An entry of a tag table: its path in three parts, and its tags.
pub type SpecTagEntry = ((Seq<char>, Seq<char>, Seq<char>), Seq<Seq<char>>);

pub type TagEntry = ((String, String, String), Vec<String>);

pub open spec fn tag_entry_view(e: TagEntry) -> SpecTagEntry {
    (((e.0).0@, (e.0).1@, (e.0).2@), crate::tkcl::codec::strs(e.1@))
}

pub open spec fn tag_entries_view(v: Seq<TagEntry>) -> Seq<SpecTagEntry> {
    v.map_values(|e: TagEntry| tag_entry_view(e))
}

/// Entry paths in UTF-16 order, part by part.
pub open spec fn key_lt(a: (Seq<char>, Seq<char>, Seq<char>), b: (Seq<char>, Seq<char>, Seq<char>)) -> bool {
    utf16_lt(a.0, b.0) || (a.0 == b.0 && (utf16_lt(a.1, b.1) || (a.1 == b.1 && utf16_lt(a.2, b.2))))
}

/// `e` put before the first entry whose path comes after its own.
pub open spec fn insert_entry(s: Seq<SpecTagEntry>, e: SpecTagEntry) -> Seq<SpecTagEntry>
    decreases s.len(),
{
    if s.len() == 0 {
        seq![e]
    } else if key_lt(e.0, s[0].0) {
        seq![e] + s
    } else {
        seq![s[0]] + insert_entry(s.skip(1), e)
    }
}

/// Entries sorted by path.
pub open spec fn sort_entries(es: Seq<SpecTagEntry>) -> Seq<SpecTagEntry>
    decreases es.len(),
{
    if es.len() == 0 {
        Seq::empty()
    } else {
        insert_entry(sort_entries(es.drop_last()), es.last())
    }
}

/// `t` put in its place among tags in UTF-16 order, unless it is there.
pub open spec fn insert_tag(s: Seq<Seq<char>>, t: Seq<char>) -> Seq<Seq<char>>
    decreases s.len(),
{
    if s.len() == 0 {
        seq![t]
    } else if s[0] == t {
        s
    } else if utf16_lt(t, s[0]) {
        seq![t] + s
    } else {
        seq![s[0]] + insert_tag(s.skip(1), t)
    }
}

/// Tags in UTF-16 order, each once.
pub open spec fn sort_tags(ts: Seq<Seq<char>>) -> Seq<Seq<char>>
    decreases ts.len(),
{
    if ts.len() == 0 {
        Seq::empty()
    } else {
        insert_tag(sort_tags(ts.drop_last()), ts.last())
    }
}

proof fn lemma_insert_entry_at(s: Seq<SpecTagEntry>, e: SpecTagEntry, j: int)
    requires
        0 <= j <= s.len(),
        forall|k: int| 0 <= k < j ==> !key_lt(e.0, #[trigger] s[k].0),
        j < s.len() ==> key_lt(e.0, s[j].0),
    ensures
        insert_entry(s, e) == s.take(j).push(e) + s.skip(j),
    decreases j,
{
    if j == 0 {
        assert(s.take(0).push(e) + s.skip(0) =~= seq![e] + s);
    } else {
        assert forall|k: int| 0 <= k < j - 1 implies !key_lt(e.0, #[trigger] s.skip(1)[k].0) by {
            assert(s.skip(1)[k] == s[k + 1]);
        }
        lemma_insert_entry_at(s.skip(1), e, j - 1);
        assert(seq![s[0]] + (s.skip(1).take(j - 1).push(e) + s.skip(1).skip(j - 1)) =~= s.take(j).push(e)
            + s.skip(j));
    }
}

proof fn lemma_insert_tag_at(s: Seq<Seq<char>>, t: Seq<char>, j: int)
    requires
        0 <= j <= s.len(),
        forall|k: int| 0 <= k < j ==> #[trigger] s[k] != t && !utf16_lt(t, s[k]),
    ensures
        j < s.len() && s[j] == t ==> insert_tag(s, t) == s,
        j < s.len() && s[j] != t && utf16_lt(t, s[j]) ==> insert_tag(s, t) == s.take(j).push(t) + s.skip(j),
        j == s.len() ==> insert_tag(s, t) == s.push(t),
    decreases j,
{
    if j == 0 {
        assert(s.take(0).push(t) + s.skip(0) =~= seq![t] + s);
        if s.len() == 0 {
            assert(s.push(t) =~= seq![t]);
        }
    } else {
        assert forall|k: int| 0 <= k < j - 1 implies #[trigger] s.skip(1)[k] != t && !utf16_lt(t, s.skip(1)[k]) by {
            assert(s.skip(1)[k] == s[k + 1]);
        }
        lemma_insert_tag_at(s.skip(1), t, j - 1);
        assert(s[0] != t && !utf16_lt(t, s[0]));
        assert(seq![s[0]] + s.skip(1) =~= s);
        assert(seq![s[0]] + (s.skip(1).take(j - 1).push(t) + s.skip(1).skip(j - 1)) =~= s.take(j).push(t)
            + s.skip(j));
        assert(seq![s[0]] + s.skip(1).push(t) =~= s.push(t));
    }
}

fn key_less(a: &(String, String, String), b: &(String, String, String)) -> (r: bool)
    ensures
        r == key_lt((a.0@, a.1@, a.2@), (b.0@, b.1@, b.2@)),
{
    utf16_less(a.0.as_str(), b.0.as_str()) || (crate::text::str_eq(a.0.as_str(), b.0.as_str()) && (utf16_less(
        a.1.as_str(),
        b.1.as_str(),
    ) || (crate::text::str_eq(a.1.as_str(), b.1.as_str()) && utf16_less(a.2.as_str(), b.2.as_str()))))
}

/// The entries of a tag table sorted by path.
pub fn sorted_entries(entries: Vec<TagEntry>) -> (r: Vec<TagEntry>)
    ensures
        tag_entries_view(r@) == sort_entries(tag_entries_view(entries@)),
{
    let ghost ev = tag_entries_view(entries@);
    let mut out: Vec<TagEntry> = Vec::new();
    let mut rest = entries;
    let ghost mut k: int = 0;
    assert(tag_entries_view(out@) =~= Seq::<SpecTagEntry>::empty());
    assert(ev.take(0) =~= Seq::<SpecTagEntry>::empty());
    assert(ev.skip(0) =~= ev);
    while rest.len() > 0
        invariant
            0 <= k <= ev.len(),
            tag_entries_view(rest@) == ev.skip(k),
            tag_entries_view(out@) == sort_entries(ev.take(k)),
        decreases rest.len(),
    {
        let ghost before = tag_entries_view(out@);
        let ghost old_rest = rest@;
        assert(tag_entries_view(old_rest).len() == old_rest.len());
        assert(ev.skip(k).len() == old_rest.len());
        assert(k < ev.len());
        assert(tag_entries_view(old_rest)[0] == ev.skip(k)[0]);
        assert(ev.skip(k)[0] == ev[k]);
        assert(tag_entries_view(old_rest)[0] == tag_entry_view(old_rest[0]));
        let e = rest.remove(0);
        assert(e == old_rest[0]);
        assert(tag_entry_view(e) == ev[k]);
        assert(rest@ =~= old_rest.skip(1));
        assert(tag_entries_view(rest@) =~= tag_entries_view(old_rest).skip(1));
        assert(tag_entries_view(rest@) =~= ev.skip(k + 1));
        let mut j: usize = 0;
        while j < out.len() && !key_less(&e.0, &out[j].0)
            invariant
                j <= out.len(),
                before == tag_entries_view(out@),
                forall|l: int| 0 <= l < j ==> !key_lt(tag_entry_view(e).0, #[trigger] before[l].0),
            decreases out.len() - j,
        {
            j = j + 1;
        }
        proof {
            lemma_insert_entry_at(before, tag_entry_view(e), j as int);
        }
        out.insert(j, e);
        assert(tag_entries_view(out@) =~= before.take(j as int).push(ev[k]) + before.skip(j as int));
        assert(ev.take(k + 1).drop_last() =~= ev.take(k));
        proof {
            k = k + 1;
        }
    }
    assert(ev.take(k) =~= ev);
    out
}

/// Tags in UTF-16 order, each once.
pub fn sorted_tags(tags: Vec<String>) -> (r: Vec<String>)
    ensures
        crate::tkcl::codec::strs(r@) == sort_tags(crate::tkcl::codec::strs(tags@)),
{
    let ghost tv = crate::tkcl::codec::strs(tags@);
    let mut out: Vec<String> = Vec::new();
    let mut i: usize = 0;
    assert(crate::tkcl::codec::strs(out@) =~= Seq::<Seq<char>>::empty());
    assert(tv.take(0) =~= Seq::<Seq<char>>::empty());
    while i < tags.len()
        invariant
            i <= tags.len(),
            tv == crate::tkcl::codec::strs(tags@),
            crate::tkcl::codec::strs(out@) == sort_tags(tv.take(i as int)),
        decreases tags.len() - i,
    {
        let ghost before = crate::tkcl::codec::strs(out@);
        let t = tags[i].as_str();
        assert(tv.take(i + 1).drop_last() =~= tv.take(i as int));
        assert(tv.take(i + 1).last() == t@);
        let mut j: usize = 0;
        while j < out.len() && !crate::text::str_eq(out[j].as_str(), t) && !utf16_less(t, out[j].as_str())
            invariant
                j <= out.len(),
                before == crate::tkcl::codec::strs(out@),
                forall|l: int| 0 <= l < j ==> #[trigger] before[l] != t@ && !utf16_lt(t@, before[l]),
            decreases out.len() - j,
        {
            j = j + 1;
        }
        proof {
            lemma_insert_tag_at(before, t@, j as int);
        }
        if j == out.len() {
            out.push(crate::text::copy_string(&tags[i]));
            assert(crate::tkcl::codec::strs(out@) =~= before.push(t@));
        } else if !crate::text::str_eq(out[j].as_str(), t) {
            out.insert(j, crate::text::copy_string(&tags[i]));
            assert(crate::tkcl::codec::strs(out@) =~= before.take(j as int).push(t@) + before.skip(j as int));
        }
        i = i + 1;
    }
    assert(tv.take(i as int) =~= tv);
    out
}


/// The first place of `t` among `tags`, or -1.
pub open spec fn tag_index(tags: Seq<Seq<char>>, t: Seq<char>) -> int
    decreases tags.len(),
{
    if tags.len() == 0 {
        -1
    } else {
        let i = tag_index(tags.drop_last(), t);
        if i >= 0 {
            i
        } else if tags.last() == t {
            tags.len() - 1
        } else {
            -1
        }
    }
}

proof fn lemma_tag_index(tags: Seq<Seq<char>>, t: Seq<char>, j: int)
    requires
        0 <= j <= tags.len(),
        forall|k: int| 0 <= k < j ==> #[trigger] tags[k] != t,
    ensures
        j < tags.len() && tags[j] == t ==> tag_index(tags, t) == j,
        j == tags.len() ==> tag_index(tags, t) == -1,
    decreases tags.len(),
{
    if tags.len() > 0 {
        if j < tags.len() {
            if j < tags.len() - 1 {
                assert forall|k: int| 0 <= k < j implies #[trigger] tags.drop_last()[k] != t by {
                    assert(tags.drop_last()[k] == tags[k]);
                }
                lemma_tag_index(tags.drop_last(), t, j);
                assert(tags.drop_last()[j] == tags[j]);
            } else {
                assert forall|k: int| 0 <= k < j implies #[trigger] tags.drop_last()[k] != t by {
                    assert(tags.drop_last()[k] == tags[k]);
                }
                lemma_tag_index(tags.drop_last(), t, j);
            }
        } else {
            assert forall|k: int| 0 <= k < j - 1 implies #[trigger] tags.drop_last()[k] != t by {
                assert(tags.drop_last()[k] == tags[k]);
            }
            lemma_tag_index(tags.drop_last(), t, j - 1);
        }
    }
}

/// The byte table with bit `b` set.
pub open spec fn set_bit(bytes: Seq<u8>, b: int) -> Seq<u8> {
    bytes.update(b / 8, bytes[b / 8] | (1u8 << ((b % 8) as u8)))
}

/// What a tag table compile says of a tag no entry may use.
pub open spec fn missing_tag(t: Seq<char>) -> Seq<char> {
    "tag '"@ + t + "' is used by an entry but missing from the tag list"@
}

/// The bits of the tags `ts` of the entry `e` set in `bytes`, or the error
/// of the first tag `tags` lacks.
pub open spec fn entry_bits(bytes: Seq<u8>, tags: Seq<Seq<char>>, e: int, ts: Seq<Seq<char>>) -> Result<Seq<u8>, Seq<char>>
    decreases ts.len(),
{
    if ts.len() == 0 {
        Ok(bytes)
    } else {
        match entry_bits(bytes, tags, e, ts.drop_last()) {
            Err(m) => Err(m),
            Ok(b) => {
                let t = tag_index(tags, ts.last());
                if t < 0 {
                    Err(missing_tag(ts.last()))
                } else {
                    Ok(set_bit(b, e * tags.len() + t))
                }
            },
        }
    }
}

/// The bits of every entry's tags set in `bytes`, entry by entry.
pub open spec fn table_bits(bytes: Seq<u8>, tags: Seq<Seq<char>>, es: Seq<SpecTagEntry>) -> Result<Seq<u8>, Seq<char>>
    decreases es.len(),
{
    if es.len() == 0 {
        Ok(bytes)
    } else {
        match table_bits(bytes, tags, es.drop_last()) {
            Err(m) => Err(m),
            Ok(b) => entry_bits(b, tags, es.len() - 1, es.last().1),
        }
    }
}

/// The paths of entries, three parts each.
pub open spec fn path_list(es: Seq<SpecTagEntry>) -> Seq<Seq<char>>
    decreases es.len(),
{
    if es.len() == 0 {
        Seq::empty()
    } else {
        path_list(es.drop_last()) + seq![es.last().0.0, es.last().0.1, es.last().0.2]
    }
}

/// A tag table compiled from its entries and tags: the entries sorted by
/// path, the tags sorted and each once, and one bit per entry and tag,
/// set when the entry has the tag; an error when an entry has a tag the
/// list lacks.
pub open spec fn compiled_tags(entries: Seq<SpecTagEntry>, tags: Seq<Seq<char>>) -> Result<
    (Seq<u8>, Seq<Seq<char>>, Seq<Seq<char>>),
    Seq<char>,
> {
    let sorted = sort_entries(entries);
    let ts = sort_tags(tags);
    let n = (ts.len() * sorted.len() + 7) / 8;
    match table_bits(Seq::new(n as nat, |i: int| 0u8), ts, sorted) {
        Ok(bits) => Ok((bits, path_list(sorted), ts)),
        Err(m) => Err(m),
    }
}

proof fn lemma_sort_entries_len(es: Seq<SpecTagEntry>)
    ensures
        sort_entries(es).len() == es.len(),
    decreases es.len(),
{
    if es.len() > 0 {
        lemma_sort_entries_len(es.drop_last());
        lemma_insert_entry_len(sort_entries(es.drop_last()), es.last());
    }
}

proof fn lemma_insert_entry_len(s: Seq<SpecTagEntry>, e: SpecTagEntry)
    ensures
        insert_entry(s, e).len() == s.len() + 1,
    decreases s.len(),
{
    if s.len() > 0 {
        lemma_insert_entry_len(s.skip(1), e);
    }
}

proof fn lemma_sort_tags_len(ts: Seq<Seq<char>>)
    ensures
        sort_tags(ts).len() <= ts.len(),
    decreases ts.len(),
{
    if ts.len() > 0 {
        lemma_sort_tags_len(ts.drop_last());
        lemma_insert_tag_len(sort_tags(ts.drop_last()), ts.last());
    }
}

proof fn lemma_insert_tag_len(s: Seq<Seq<char>>, t: Seq<char>)
    ensures
        insert_tag(s, t).len() <= s.len() + 1,
    decreases s.len(),
{
    if s.len() > 0 {
        lemma_insert_tag_len(s.skip(1), t);
    }
}

fn tag_position(tags: &Vec<String>, t: &str) -> (r: Option<usize>)
    ensures
        match r {
            Some(i) => i < tags@.len() && i as int == tag_index(crate::tkcl::codec::strs(tags@), t@),
            None => tag_index(crate::tkcl::codec::strs(tags@), t@) == -1,
        },
{
    let ghost tv = crate::tkcl::codec::strs(tags@);
    let mut j: usize = 0;
    while j < tags.len()
        invariant
            j <= tags.len(),
            tv == crate::tkcl::codec::strs(tags@),
            forall|k: int| 0 <= k < j ==> #[trigger] tv[k] != t@,
        decreases tags.len() - j,
    {
        if crate::text::str_eq(tags[j].as_str(), t) {
            proof {
                lemma_tag_index(tv, t@, j as int);
            }
            return Some(j);
        }
        j = j + 1;
    }
    proof {
        lemma_tag_index(tv, t@, j as int);
    }
    None
}

/// RSDB tag table compile: entries sorted by path, tags sorted and each
/// once, one bit per entry and tag.
pub fn compile_tags(entries: Vec<TagEntry>, tags: Vec<String>) -> (r: Result<(Vec<u8>, Vec<String>, Vec<String>), String>)
    requires
        tags@.len() * entries@.len() + 7 <= usize::MAX,
    ensures
        match r {
            Ok((bits, paths, ts)) => compiled_tags(tag_entries_view(entries@), crate::tkcl::codec::strs(tags@))
                == Ok::<(Seq<u8>, Seq<Seq<char>>, Seq<Seq<char>>), Seq<char>>(
                (bits@, crate::tkcl::codec::strs(paths@), crate::tkcl::codec::strs(ts@)),
            ),
            Err(m) => compiled_tags(tag_entries_view(entries@), crate::tkcl::codec::strs(tags@))
                == Err::<(Seq<u8>, Seq<Seq<char>>, Seq<Seq<char>>), Seq<char>>(m@),
        },
{
    let ghost ev = tag_entries_view(entries@);
    let ghost tv = crate::tkcl::codec::strs(tags@);
    let tag_count = tags.len();
    let entry_count = entries.len();
    let sorted = sorted_entries(entries);
    let ts = sorted_tags(tags);
    let ghost sv = tag_entries_view(sorted@);
    let ghost tsv = crate::tkcl::codec::strs(ts@);
    proof {
        lemma_sort_entries_len(ev);
        lemma_sort_tags_len(tv);
        assert(tsv.len() * sv.len() <= tag_count * entry_count) by (nonlinear_arith)
            requires
                tsv.len() <= tag_count,
                sv.len() == entry_count,
        ;
    }
    let t_len = ts.len();
    let e_len = sorted.len();
    let n = (t_len * e_len + 7) / 8;
    let mut bits: Vec<u8> = Vec::new();
    while bits.len() < n
        invariant
            bits@.len() <= n,
            forall|i: int| 0 <= i < bits@.len() ==> bits@[i] == 0u8,
        decreases n - bits.len(),
    {
        bits.push(0u8);
    }
    let ghost zero = bits@;
    assert(zero =~= Seq::new(n as nat, |i: int| 0u8));
    assert(tsv.len() == t_len && sv.len() == e_len);
    let mut paths: Vec<String> = Vec::new();
    let mut e: usize = 0;
    assert(sv.take(0) =~= Seq::<SpecTagEntry>::empty());
    assert(crate::tkcl::codec::strs(paths@) =~= Seq::<Seq<char>>::empty());
    while e < sorted.len()
        invariant
            e <= sorted.len(),
            sv == tag_entries_view(sorted@),
            tsv == crate::tkcl::codec::strs(ts@),
            t_len == ts.len(),
            e_len == sorted.len(),
            t_len * e_len + 7 <= usize::MAX,
            n == (t_len * e_len + 7) / 8,
            sv == sort_entries(ev),
            tsv == sort_tags(tv),
            ev == tag_entries_view(entries@),
            tv == crate::tkcl::codec::strs(tags@),
            tsv.len() == t_len,
            sv.len() == e_len,
            zero == Seq::new(n as nat, |i: int| 0u8),
            bits@.len() == n,
            table_bits(zero, tsv, sv.take(e as int)) == Ok::<Seq<u8>, Seq<char>>(bits@),
            crate::tkcl::codec::strs(paths@) == path_list(sv.take(e as int)),
        decreases sorted.len() - e,
    {
        let entry = &sorted[e];
        assert(sv.take(e + 1).drop_last() =~= sv.take(e as int));
        assert(sv.take(e + 1).last() == tag_entry_view(*entry));
        let ghost et = crate::tkcl::codec::strs(entry.1@);
        let ghost start = bits@;
        let mut k: usize = 0;
        assert(et.take(0) =~= Seq::<Seq<char>>::empty());
        while k < entry.1.len()
            invariant
                k <= entry.1.len(),
                e < e_len,
                e_len == sorted.len(),
                sv == tag_entries_view(sorted@),
                entry == &sorted@[e as int],
                table_bits(zero, tsv, sv.take(e as int)) == Ok::<Seq<u8>, Seq<char>>(start),
                sv.take(e + 1).drop_last() == sv.take(e as int),
                sv.take(e + 1).last() == tag_entry_view(*entry),
                et == crate::tkcl::codec::strs(entry.1@),
                tsv == crate::tkcl::codec::strs(ts@),
                t_len == ts.len(),
                t_len * e_len + 7 <= usize::MAX,
                n == (t_len * e_len + 7) / 8,
                sv == sort_entries(ev),
                tsv == sort_tags(tv),
                ev == tag_entries_view(entries@),
                tv == crate::tkcl::codec::strs(tags@),
                tsv.len() == t_len,
                sv.len() == e_len,
                zero == Seq::new(n as nat, |i: int| 0u8),
                bits@.len() == n,
                entry_bits(start, tsv, e as int, et.take(k as int)) == Ok::<Seq<u8>, Seq<char>>(bits@),
            decreases entry.1.len() - k,
        {
            let tag = entry.1[k].as_str();
            assert(et.take(k + 1).drop_last() =~= et.take(k as int));
            assert(et.take(k + 1).last() == tag@);
            match tag_position(&ts, tag) {
                None => {
                    let mut m = crate::config::owned("tag '");
                    crate::text::push_str(&mut m, tag);
                    crate::text::push_str(&mut m, "' is used by an entry but missing from the tag list");
                    proof {
                        assert(entry_bits(start, tsv, e as int, et.take(k + 1)) == Err::<Seq<u8>, Seq<char>>(
                            missing_tag(tag@),
                        ));
                        lemma_entry_bits_err(start, tsv, e as int, et, k as int + 1);
                        assert(tag_entry_view(*entry).1 == et);
                        assert(table_bits(zero, tsv, sv.take(e + 1)) == Err::<Seq<u8>, Seq<char>>(
                            missing_tag(tag@),
                        ));
                        lemma_table_bits_err(zero, tsv, sv, e as int + 1);
                        assert(m@ == missing_tag(tag@));
                        assert(table_bits(zero, tsv, sv) == Err::<Seq<u8>, Seq<char>>(m@));
                        assert((tsv.len() * sv.len() + 7) / 8 == n);
                        assert(compiled_tags(ev, tv) == Err::<(Seq<u8>, Seq<Seq<char>>, Seq<Seq<char>>), Seq<char>>(m@));
                    }
                    return Err(m);
                },
                Some(t) => {
                    proof {
                        assert(e * t_len + t < e_len * t_len) by (nonlinear_arith)
                            requires
                                e < e_len,
                                t < t_len,
                        ;
                        assert((e * t_len + t) / 8 < n) by (nonlinear_arith)
                            requires
                                e * t_len + t < e_len * t_len,
                                n == (t_len * e_len + 7) / 8,
                        ;
                    }
                    let bit = e * t_len + t;
                    let byte = bit / 8;
                    let value = bits[byte] | (1u8 << ((bit % 8) as u8));
                    bits.set(byte, value);
                },
            }
            k = k + 1;
        }
        assert(et.take(k as int) =~= et);
        let ghost before = crate::tkcl::codec::strs(paths@);
        paths.push(crate::text::copy_string(&(entry.0).0));
        paths.push(crate::text::copy_string(&(entry.0).1));
        paths.push(crate::text::copy_string(&(entry.0).2));
        assert(crate::tkcl::codec::strs(paths@) =~= before + seq![
            (entry.0).0@,
            (entry.0).1@,
            (entry.0).2@,
        ]);
        e = e + 1;
    }
    assert(sv.take(e as int) =~= sv);
    Ok((bits, paths, ts))
}

/// Once a tag is missing, the entry's bits are that error.
proof fn lemma_entry_bits_err(bytes: Seq<u8>, tags: Seq<Seq<char>>, e: int, ts: Seq<Seq<char>>, k: int)
    requires
        0 < k <= ts.len(),
        entry_bits(bytes, tags, e, ts.take(k)) is Err,
    ensures
        entry_bits(bytes, tags, e, ts) == entry_bits(bytes, tags, e, ts.take(k)),
    decreases ts.len() - k,
{
    if k < ts.len() {
        assert(ts.take(k + 1).drop_last() =~= ts.take(k));
        lemma_entry_bits_err(bytes, tags, e, ts, k + 1);
    } else {
        assert(ts.take(k) =~= ts);
    }
}

proof fn lemma_table_bits_err(bytes: Seq<u8>, tags: Seq<Seq<char>>, es: Seq<SpecTagEntry>, k: int)
    requires
        0 < k <= es.len(),
        table_bits(bytes, tags, es.take(k)) is Err,
    ensures
        table_bits(bytes, tags, es) == table_bits(bytes, tags, es.take(k)),
    decreases es.len() - k,
{
    if k < es.len() {
        assert(es.take(k + 1).drop_last() =~= es.take(k));
        lemma_table_bits_err(bytes, tags, es, k + 1);
    } else {
        assert(es.take(k) =~= es);
    }
}

// --- merging edits of tag tables -------------------------------------------------------------

pub type EntryKey = (String, String, String);

pub type SpecEntryKey = (Seq<char>, Seq<char>, Seq<char>);

pub open spec fn key_view(k: EntryKey) -> SpecEntryKey {
    (k.0@, k.1@, k.2@)
}

/// Where the entry for `k` stands, or -1.
pub open spec fn entry_at(es: Seq<SpecTagEntry>, k: SpecEntryKey) -> int
    decreases es.len(),
{
    if es.len() == 0 {
        -1
    } else if es[0].0 == k {
        0
    } else {
        let r = entry_at(es.skip(1), k);
        if r < 0 {
            -1
        } else {
            r + 1
        }
    }
}

proof fn lemma_entry_at(es: Seq<SpecTagEntry>, k: SpecEntryKey, j: int)
    requires
        0 <= j <= es.len(),
        forall|i: int| 0 <= i < j ==> #[trigger] es[i].0 != k,
        j < es.len() ==> es[j].0 == k,
    ensures
        entry_at(es, k) == (if j < es.len() {
            j
        } else {
            -1
        }),
    decreases j,
{
    if j > 0 {
        assert forall|i: int| 0 <= i < j - 1 implies #[trigger] es.skip(1)[i].0 != k by {
            assert(es.skip(1)[i] == es[i + 1]);
        }
        if j < es.len() {
            assert(es.skip(1)[j - 1] == es[j]);
        }
        lemma_entry_at(es.skip(1), k, j - 1);
    }
}

/// The tags of the entry for `k`; none when there is no such entry.
pub open spec fn tags_at(es: Seq<SpecTagEntry>, k: SpecEntryKey) -> Seq<Seq<char>> {
    let p = entry_at(es, k);
    if p < 0 {
        Seq::empty()
    } else {
        es[p].1
    }
}

/// The entries with the tags of `k` set to `ts`: in place, or as a new
/// entry at the end.
pub open spec fn put_entry(es: Seq<SpecTagEntry>, k: SpecEntryKey, ts: Seq<Seq<char>>) -> Seq<SpecTagEntry> {
    let p = entry_at(es, k);
    if p < 0 {
        es.push((k, ts))
    } else {
        es.update(p, (k, ts))
    }
}

fn find_entry(entries: &Vec<TagEntry>, key: &EntryKey) -> (r: Option<usize>)
    ensures
        match r {
            Some(i) => i < entries@.len() && i as int == entry_at(tag_entries_view(entries@), key_view(*key)),
            None => entry_at(tag_entries_view(entries@), key_view(*key)) == -1,
        },
{
    let ghost ev = tag_entries_view(entries@);
    let mut i: usize = 0;
    while i < entries.len()
        invariant
            i <= entries.len(),
            ev == tag_entries_view(entries@),
            forall|j: int| 0 <= j < i ==> #[trigger] ev[j].0 != key_view(*key),
        decreases entries.len() - i,
    {
        let k = &entries[i].0;
        if crate::text::str_eq(k.0.as_str(), key.0.as_str()) && crate::text::str_eq(k.1.as_str(), key.1.as_str())
            && crate::text::str_eq(k.2.as_str(), key.2.as_str()) {
            proof {
                lemma_entry_at(ev, key_view(*key), i as int);
            }
            return Some(i);
        }
        i = i + 1;
    }
    proof {
        lemma_entry_at(ev, key_view(*key), i as int);
    }
    None
}

fn copy_key(k: &EntryKey) -> (r: EntryKey)
    ensures
        key_view(r) == key_view(*k),
{
    (crate::text::copy_string(&k.0), crate::text::copy_string(&k.1), crate::text::copy_string(&k.2))
}

fn copy_strings(v: &Vec<String>) -> (r: Vec<String>)
    ensures
        crate::tkcl::codec::strs(r@) == crate::tkcl::codec::strs(v@),
{
    let mut r: Vec<String> = Vec::new();
    let mut i: usize = 0;
    while i < v.len()
        invariant
            i <= v.len(),
            crate::tkcl::codec::strs(r@) == crate::tkcl::codec::strs(v@).take(i as int),
        decreases v.len() - i,
    {
        let ghost before = r@;
        r.push(crate::text::copy_string(&v[i]));
        assert(crate::tkcl::codec::strs(r@) =~= crate::tkcl::codec::strs(before).push(v@[i as int]@));
        i = i + 1;
        assert(crate::tkcl::codec::strs(r@) =~= crate::tkcl::codec::strs(v@).take(i as int));
    }
    assert(crate::tkcl::codec::strs(v@).take(i as int) =~= crate::tkcl::codec::strs(v@));
    r
}

/// Sets the tags of the entry for `key`, adding the entry when there is none.
fn put_tags(entries: &mut Vec<TagEntry>, key: EntryKey, tags: Vec<String>)
    ensures
        tag_entries_view(final(entries)@) == put_entry(
            tag_entries_view(old(entries)@),
            key_view(key),
            crate::tkcl::codec::strs(tags@),
        ),
{
    let ghost ev = tag_entries_view(entries@);
    let ghost item = (key_view(key), crate::tkcl::codec::strs(tags@));
    match find_entry(entries, &key) {
        Some(i) => {
            entries.set(i, (key, tags));
            assert(tag_entries_view(entries@) =~= ev.update(i as int, item));
        },
        None => {
            entries.push((key, tags));
            assert(tag_entries_view(entries@) =~= ev.push(item));
        },
    }
}

pub open spec fn opt_keys_view(keys: Seq<Option<EntryKey>>) -> Seq<Option<SpecEntryKey>> {
    keys.map_values(
        |k: Option<EntryKey>|
            match k {
                Some(k) => Some(key_view(k)),
                None => None,
            },
    )
}

/// The entries of a tag table: the entry of each path (the first `n`),
/// with the tags its bits give; a path met twice keeps the later tags.
pub open spec fn gathered(keys: Seq<Option<SpecEntryKey>>, tags: Seq<Seq<char>>, bits: Seq<u8>, n: int) -> Seq<
    SpecTagEntry,
>
    decreases n,
{
    if n <= 0 {
        Seq::empty()
    } else {
        let g = gathered(keys, tags, bits, n - 1);
        match keys[n - 1] {
            None => g,
            Some(k) => put_entry(g, k, entry_tags_spec(n - 1, tags, bits, tags.len() as int)),
        }
    }
}

/// The entries of a tag table, from the key of each path (`None` for a
/// path that is not three strings), its tags and its bits.
pub fn gather_entries(keys: &Vec<Option<EntryKey>>, tags: &Vec<String>, bits: &[u8]) -> (r: Vec<TagEntry>)
    requires
        keys@.len() * tags@.len() <= usize::MAX,
    ensures
        tag_entries_view(r@) == gathered(
            opt_keys_view(keys@),
            crate::tkcl::codec::strs(tags@),
            bits@,
            keys@.len() as int,
        ),
{
    let ghost kv = opt_keys_view(keys@);
    let mut r: Vec<TagEntry> = Vec::new();
    let mut i: usize = 0;
    assert(tag_entries_view(r@) =~= Seq::<SpecTagEntry>::empty());
    while i < keys.len()
        invariant
            i <= keys.len(),
            keys@.len() * tags@.len() <= usize::MAX,
            kv == opt_keys_view(keys@),
            tag_entries_view(r@) == gathered(kv, crate::tkcl::codec::strs(tags@), bits@, i as int),
        decreases keys.len() - i,
    {
        match &keys[i] {
            None => {},
            Some(k) => {
                proof {
                    assert((i + 1) * tags@.len() <= keys@.len() * tags@.len()) by (nonlinear_arith)
                        requires
                            i + 1 <= keys@.len(),
                    ;
                }
                let ts = entry_tags(i, tags, bits);
                put_tags(&mut r, copy_key(k), ts);
            },
        }
        i = i + 1;
    }
    r
}

/// What a changelog does to the tags of one entry.
pub enum TagEdit {
    /// Tags put at the end.
    Added(Vec<String>),
    /// Tags added and removed, in order.
    Changes(Vec<(bool, String)>),
    /// Nothing, though the entry is made if it was missing.
    Other,
}

pub enum TagEditView {
    Added(Seq<Seq<char>>),
    Changes(Seq<SpecTagChange>),
    Other,
}

impl View for TagEdit {
    type V = TagEditView;

    open spec fn view(&self) -> TagEditView {
        match self {
            TagEdit::Added(v) => TagEditView::Added(crate::tkcl::codec::strs(v@)),
            TagEdit::Changes(c) => TagEditView::Changes(changes_view(c@)),
            TagEdit::Other => TagEditView::Other,
        }
    }
}

/// The entries after an edit of the entry for `k` (made if missing).
pub open spec fn edited(es: Seq<SpecTagEntry>, k: SpecEntryKey, edit: TagEditView) -> Seq<SpecTagEntry> {
    let base = tags_at(es, k);
    put_entry(
        es,
        k,
        match edit {
            TagEditView::Added(list) => base + list,
            TagEditView::Changes(cs) => apply_tag_changes(base, cs),
            TagEditView::Other => base,
        },
    )
}

/// Edits the tags of the entry for `key`, making the entry if it is missing.
pub fn edit_entry(entries: &mut Vec<TagEntry>, key: &EntryKey, edit: &TagEdit)
    ensures
        tag_entries_view(final(entries)@) == edited(tag_entries_view(old(entries)@), key_view(*key), edit@),
{
    let ghost ev = tag_entries_view(entries@);
    let mut base = match find_entry(entries, key) {
        Some(i) => copy_strings(&entries[i].1),
        None => Vec::new(),
    };
    assert(crate::tkcl::codec::strs(base@) =~= tags_at(ev, key_view(*key)));
    match edit {
        TagEdit::Added(list) => {
            let ghost b = crate::tkcl::codec::strs(base@);
            let mut j: usize = 0;
            while j < list.len()
                invariant
                    j <= list.len(),
                    crate::tkcl::codec::strs(base@) == b + crate::tkcl::codec::strs(list@).take(j as int),
                decreases list.len() - j,
            {
                let ghost before = base@;
                base.push(crate::text::copy_string(&list[j]));
                assert(crate::tkcl::codec::strs(base@) =~= crate::tkcl::codec::strs(before).push(list@[j as int]@));
                assert(crate::tkcl::codec::strs(list@).take(j + 1) =~= crate::tkcl::codec::strs(list@).take(j as int).push(list@[j as int]@));
                j = j + 1;
                assert(crate::tkcl::codec::strs(base@) =~= b + crate::tkcl::codec::strs(list@).take(j as int));
            }
            assert(crate::tkcl::codec::strs(list@).take(j as int) =~= crate::tkcl::codec::strs(list@));
        },
        TagEdit::Changes(cs) => {
            apply_changes(&mut base, cs);
        },
        TagEdit::Other => {},
    }
    put_tags(entries, copy_key(key), base);
}

/// The edits of a tag table by one mod: the tags it brings, and its edits
/// of entries.
pub struct TagChangelog {
    pub tags: Vec<String>,
    pub entries: Vec<(EntryKey, TagEdit)>,
}

/// The entries after the edits `eds`, in order.
pub open spec fn all_edited(es: Seq<SpecTagEntry>, eds: Seq<(SpecEntryKey, TagEditView)>) -> Seq<SpecTagEntry>
    decreases eds.len(),
{
    if eds.len() == 0 {
        es
    } else {
        edited(all_edited(es, eds.drop_last()), eds.last().0, eds.last().1)
    }
}

pub open spec fn edits_view(eds: Seq<(EntryKey, TagEdit)>) -> Seq<(SpecEntryKey, TagEditView)> {
    eds.map_values(|e: (EntryKey, TagEdit)| (key_view(e.0), e.1@))
}

/// Applies one mod's edits: its tags join the tag list, its entry edits
/// are made in order.
pub fn apply_tag_changelog(entries: &mut Vec<TagEntry>, tags: &mut Vec<String>, changelog: &TagChangelog)
    ensures
        crate::tkcl::codec::strs(final(tags)@) == crate::tkcl::codec::strs(old(tags)@) + crate::tkcl::codec::strs(
            changelog.tags@,
        ),
        tag_entries_view(final(entries)@) == all_edited(tag_entries_view(old(entries)@), edits_view(changelog.entries@)),
{
    let ghost t0 = crate::tkcl::codec::strs(tags@);
    let mut j: usize = 0;
    while j < changelog.tags.len()
        invariant
            j <= changelog.tags.len(),
            entries@ == old(entries)@,
            t0 == crate::tkcl::codec::strs(old(tags)@),
            crate::tkcl::codec::strs(tags@) == t0 + crate::tkcl::codec::strs(changelog.tags@).take(j as int),
        decreases changelog.tags.len() - j,
    {
        let ghost before = tags@;
        tags.push(crate::text::copy_string(&changelog.tags[j]));
        assert(crate::tkcl::codec::strs(tags@) =~= crate::tkcl::codec::strs(before).push(changelog.tags@[j as int]@));
        assert(crate::tkcl::codec::strs(changelog.tags@).take(j + 1) =~= crate::tkcl::codec::strs(changelog.tags@).take(j as int).push(changelog.tags@[j as int]@));
        j = j + 1;
        assert(crate::tkcl::codec::strs(tags@) =~= t0 + crate::tkcl::codec::strs(changelog.tags@).take(j as int));
    }
    assert(crate::tkcl::codec::strs(changelog.tags@).take(j as int) =~= crate::tkcl::codec::strs(changelog.tags@));
    let ghost e0 = tag_entries_view(entries@);
    let ghost edv = edits_view(changelog.entries@);
    let mut k: usize = 0;
    assert(edv.take(0) =~= Seq::<(SpecEntryKey, TagEditView)>::empty());
    while k < changelog.entries.len()
        invariant
            k <= changelog.entries.len(),
            e0 == tag_entries_view(old(entries)@),
            edv == edits_view(changelog.entries@),
            crate::tkcl::codec::strs(tags@) == crate::tkcl::codec::strs(old(tags)@) + crate::tkcl::codec::strs(
                changelog.tags@,
            ),
            tag_entries_view(entries@) == all_edited(e0, edv.take(k as int)),
        decreases changelog.entries.len() - k,
    {
        assert(edv.take(k + 1).drop_last() =~= edv.take(k as int));
        assert(edv.take(k + 1).last() == (key_view(changelog.entries@[k as int].0), changelog.entries@[k as int].1@));
        edit_entry(entries, &changelog.entries[k].0, &changelog.entries[k].1);
        k = k + 1;
    }
    assert(edv.take(k as int) =~= edv);
}

/// The tags and edits of each mod's changelog.
pub open spec fn changelogs_view(cls: Seq<TagChangelog>) -> Seq<(Seq<Seq<char>>, Seq<(SpecEntryKey, TagEditView)>)> {
    cls.map_values(|c: TagChangelog| (crate::tkcl::codec::strs(c.tags@), edits_view(c.entries@)))
}

/// Entries and tags after the changelogs `cls`, in order.
pub open spec fn with_changelogs(
    es: Seq<SpecTagEntry>,
    tags: Seq<Seq<char>>,
    cls: Seq<(Seq<Seq<char>>, Seq<(SpecEntryKey, TagEditView)>)>,
) -> (Seq<SpecTagEntry>, Seq<Seq<char>>)
    decreases cls.len(),
{
    if cls.len() == 0 {
        (es, tags)
    } else {
        let (e, t) = with_changelogs(es, tags, cls.drop_last());
        (all_edited(e, cls.last().1), t + cls.last().0)
    }
}

/// A tag table merged with the changelogs of several mods: the vanilla
/// entries, each mod's edits in turn, compiled.
pub open spec fn merged_tag_table(
    keys: Seq<Option<SpecEntryKey>>,
    tags: Seq<Seq<char>>,
    bits: Seq<u8>,
    cls: Seq<(Seq<Seq<char>>, Seq<(SpecEntryKey, TagEditView)>)>,
) -> Result<(Seq<u8>, Seq<Seq<char>>, Seq<Seq<char>>), Seq<char>> {
    let (es, ts) = with_changelogs(gathered(keys, tags, bits, keys.len() as int), tags, cls);
    compiled_tags(es, ts)
}

/// How many tags the changelogs bring.
pub open spec fn tags_brought(cls: Seq<TagChangelog>) -> nat
    decreases cls.len(),
{
    if cls.len() == 0 {
        0
    } else {
        tags_brought(cls.drop_last()) + cls.last().tags@.len()
    }
}

/// How many entry edits the changelogs hold.
pub open spec fn edits_held(cls: Seq<TagChangelog>) -> nat
    decreases cls.len(),
{
    if cls.len() == 0 {
        0
    } else {
        edits_held(cls.drop_last()) + cls.last().entries@.len()
    }
}

proof fn lemma_entry_at_range(es: Seq<SpecTagEntry>, k: SpecEntryKey)
    ensures
        -1 <= entry_at(es, k) < es.len(),
    decreases es.len(),
{
    if es.len() > 0 {
        lemma_entry_at_range(es.skip(1), k);
    }
}

proof fn lemma_put_entry_len(es: Seq<SpecTagEntry>, k: SpecEntryKey, ts: Seq<Seq<char>>)
    ensures
        put_entry(es, k, ts).len() <= es.len() + 1,
{
    lemma_entry_at_range(es, k);
}

proof fn lemma_gathered_len(keys: Seq<Option<SpecEntryKey>>, tags: Seq<Seq<char>>, bits: Seq<u8>, n: int)
    ensures
        gathered(keys, tags, bits, n).len() <= if n < 0 {
            0
        } else {
            n
        },
    decreases n,
{
    if n > 0 {
        lemma_gathered_len(keys, tags, bits, n - 1);
        let g = gathered(keys, tags, bits, n - 1);
        match keys[n - 1] {
            None => {},
            Some(k) => lemma_put_entry_len(g, k, entry_tags_spec(n - 1, tags, bits, tags.len() as int)),
        }
    }
}

proof fn lemma_all_edited_len(es: Seq<SpecTagEntry>, eds: Seq<(SpecEntryKey, TagEditView)>)
    ensures
        all_edited(es, eds).len() <= es.len() + eds.len(),
    decreases eds.len(),
{
    if eds.len() > 0 {
        lemma_all_edited_len(es, eds.drop_last());
        let a = all_edited(es, eds.drop_last());
        let k = eds.last().0;
        let base = tags_at(a, k);
        lemma_put_entry_len(
            a,
            k,
            match eds.last().1 {
                TagEditView::Added(list) => base + list,
                TagEditView::Changes(cs) => apply_tag_changes(base, cs),
                TagEditView::Other => base,
            },
        );
    }
}

/// Merges the changelogs of several mods into a tag table given by the key
/// of each path, its tags and its bits.
pub fn merge_tag_table(
    keys: &Vec<Option<EntryKey>>,
    tags: &Vec<String>,
    bits: &[u8],
    changelogs: &Vec<TagChangelog>,
) -> (r: Result<(Vec<u8>, Vec<String>, Vec<String>), String>)
    requires
        (tags@.len() + tags_brought(changelogs@)) * (keys@.len() + edits_held(changelogs@)) + 7 <= usize::MAX,
    ensures
        match r {
            Ok((b, p, t)) => merged_tag_table(
                opt_keys_view(keys@),
                crate::tkcl::codec::strs(tags@),
                bits@,
                changelogs_view(changelogs@),
            ) == Ok::<(Seq<u8>, Seq<Seq<char>>, Seq<Seq<char>>), Seq<char>>(
                (b@, crate::tkcl::codec::strs(p@), crate::tkcl::codec::strs(t@)),
            ),
            Err(m) => merged_tag_table(
                opt_keys_view(keys@),
                crate::tkcl::codec::strs(tags@),
                bits@,
                changelogs_view(changelogs@),
            ) == Err::<(Seq<u8>, Seq<Seq<char>>, Seq<Seq<char>>), Seq<char>>(m@),
        },
{
    let ghost kv = opt_keys_view(keys@);
    let ghost tv = crate::tkcl::codec::strs(tags@);
    let ghost clv = changelogs_view(changelogs@);
    let ghost bound = (tags@.len() + tags_brought(changelogs@)) * (keys@.len() + edits_held(changelogs@));
    proof {
        assert(keys@.len() * tags@.len() <= bound) by (nonlinear_arith)
            requires
                bound == (tags@.len() + tags_brought(changelogs@)) * (keys@.len() + edits_held(changelogs@)),
        ;
        lemma_gathered_len(kv, tv, bits@, keys@.len() as int);
    }
    let mut entries = gather_entries(keys, tags, bits);
    let mut all_tags = copy_strings(tags);
    let ghost g = tag_entries_view(entries@);
    let mut c: usize = 0;
    assert(clv.take(0) =~= Seq::<(Seq<Seq<char>>, Seq<(SpecEntryKey, TagEditView)>)>::empty());
    assert(changelogs@.take(0) =~= Seq::<TagChangelog>::empty());
    while c < changelogs.len()
        invariant
            c <= changelogs.len(),
            clv == changelogs_view(changelogs@),
            g == gathered(kv, tv, bits@, keys@.len() as int),
            g.len() <= keys@.len(),
            (tag_entries_view(entries@), crate::tkcl::codec::strs(all_tags@)) == with_changelogs(
                g,
                tv,
                clv.take(c as int),
            ),
            all_tags@.len() == tags@.len() + tags_brought(changelogs@.take(c as int)),
            entries@.len() <= keys@.len() + edits_held(changelogs@.take(c as int)),
        decreases changelogs.len() - c,
    {
        assert(clv.take(c + 1).drop_last() =~= clv.take(c as int));
        assert(changelogs@.take(c + 1).drop_last() =~= changelogs@.take(c as int));
        assert(changelogs@.take(c + 1).last() == changelogs@[c as int]);
        assert(clv.take(c + 1).last() == clv[c as int]);
        let ghost before = tag_entries_view(entries@);
        let ghost before_tags = all_tags@;
        apply_tag_changelog(&mut entries, &mut all_tags, &changelogs[c]);
        proof {
            assert(crate::tkcl::codec::strs(all_tags@).len() == all_tags@.len());
            assert(crate::tkcl::codec::strs(before_tags).len() == before_tags.len());
            assert(crate::tkcl::codec::strs(changelogs@[c as int].tags@).len() == changelogs@[c as int].tags@.len());
            assert(tags_brought(changelogs@.take(c + 1)) == tags_brought(changelogs@.take(c as int))
                + changelogs@[c as int].tags@.len());
            lemma_all_edited_len(before, edits_view(changelogs@[c as int].entries@));
        }
        c = c + 1;
    }
    assert(clv.take(c as int) =~= clv);
    assert(changelogs@.take(c as int) =~= changelogs@);
    proof {
        assert(all_tags@.len() * entries@.len() <= bound) by (nonlinear_arith)
            requires
                all_tags@.len() == tags@.len() + tags_brought(changelogs@),
                entries@.len() <= keys@.len() + edits_held(changelogs@),
                bound == (tags@.len() + tags_brought(changelogs@)) * (keys@.len() + edits_held(changelogs@)),
        ;
    }
    compile_tags(entries, all_tags)
}

// --- building tag changelogs -----------------------------------------------------------------

/// Where the last path with key `k` stands, or -1: a path met twice is known
/// by its later place.
pub open spec fn last_key_index(keys: Seq<Option<SpecEntryKey>>, k: SpecEntryKey) -> int
    decreases keys.len(),
{
    if keys.len() == 0 {
        -1
    } else if keys.last() == Some(k) {
        keys.len() - 1
    } else {
        last_key_index(keys.drop_last(), k)
    }
}

proof fn lemma_last_key_index(keys: Seq<Option<SpecEntryKey>>, k: SpecEntryKey, j: int)
    requires
        -1 <= j < keys.len(),
        forall|i: int| j < i < keys.len() ==> #[trigger] keys[i] != Some(k),
        j >= 0 ==> keys[j] == Some(k),
    ensures
        last_key_index(keys, k) == j,
    decreases keys.len(),
{
    if keys.len() > 0 && j < keys.len() - 1 {
        assert forall|i: int| j < i < keys.len() - 1 implies #[trigger] keys.drop_last()[i] != Some(k) by {
            assert(keys.drop_last()[i] == keys[i]);
        }
        if j >= 0 {
            assert(keys.drop_last()[j] == keys[j]);
        }
        lemma_last_key_index(keys.drop_last(), k, j);
    }
}

fn last_key_position(keys: &Vec<Option<EntryKey>>, k: &EntryKey) -> (r: Option<usize>)
    ensures
        match r {
            Some(i) => i < keys@.len() && i as int == last_key_index(opt_keys_view(keys@), key_view(*k)),
            None => last_key_index(opt_keys_view(keys@), key_view(*k)) == -1,
        },
{
    let ghost kv = opt_keys_view(keys@);
    let mut i: usize = keys.len();
    while i > 0
        invariant
            i <= keys.len(),
            kv == opt_keys_view(keys@),
            forall|j: int| i <= j < keys@.len() ==> #[trigger] kv[j] != Some(key_view(*k)),
        decreases i,
    {
        match &keys[i - 1] {
            Some(c) => {
                if crate::text::str_eq(c.0.as_str(), k.0.as_str()) && crate::text::str_eq(c.1.as_str(), k.1.as_str())
                    && crate::text::str_eq(c.2.as_str(), k.2.as_str()) {
                    proof {
                        lemma_last_key_index(kv, key_view(*k), i - 1);
                    }
                    return Some(i - 1);
                }
            },
            None => {},
        }
        i = i - 1;
    }
    proof {
        lemma_last_key_index(kv, key_view(*k), -1);
    }
    None
}

/// The edits a modded tag table makes to vanilla, entry by entry (the
/// first `n`): an entry vanilla lacks, or one whose path is not three
/// strings, comes with all its tags; one vanilla has, with the changes
/// from its vanilla tags (sorted, each once), if there are any.
pub open spec fn tag_edits(
    keys: Seq<Option<SpecEntryKey>>,
    tags: Seq<Seq<char>>,
    bits: Seq<u8>,
    vkeys: Seq<Option<SpecEntryKey>>,
    vtags: Seq<Seq<char>>,
    vbits: Seq<u8>,
    n: int,
) -> Seq<(int, TagEditView)>
    decreases n,
{
    if n <= 0 {
        Seq::empty()
    } else {
        let prev = tag_edits(keys, tags, bits, vkeys, vtags, vbits, n - 1);
        let i = n - 1;
        let ts = entry_tags_spec(i, tags, bits, tags.len() as int);
        let vi = match keys[i] {
            None => -1,
            Some(k) => last_key_index(vkeys, k),
        };
        if vi < 0 {
            prev.push((i, TagEditView::Added(ts)))
        } else {
            let cs = tag_diff(sort_tags(entry_tags_spec(vi, vtags, vbits, vtags.len() as int)), ts);
            if cs.len() == 0 {
                prev
            } else {
                prev.push((i, TagEditView::Changes(cs)))
            }
        }
    }
}

pub open spec fn indexed_edits_view(v: Seq<(usize, TagEdit)>) -> Seq<(int, TagEditView)> {
    v.map_values(|e: (usize, TagEdit)| (e.0 as int, e.1@))
}

/// The edits of a modded tag table (`keys`, one per whole path, its tags
/// and bits) to the vanilla one, by the modded entry they are about.
pub fn tag_edits_of(
    keys: &Vec<Option<EntryKey>>,
    tags: &Vec<String>,
    bits: &[u8],
    vanilla_keys: &Vec<Option<EntryKey>>,
    vanilla_tags: &Vec<String>,
    vanilla_bits: &[u8],
) -> (r: Vec<(usize, TagEdit)>)
    requires
        keys@.len() * tags@.len() <= usize::MAX,
        vanilla_keys@.len() * vanilla_tags@.len() <= usize::MAX,
    ensures
        indexed_edits_view(r@) == tag_edits(
            opt_keys_view(keys@),
            crate::tkcl::codec::strs(tags@),
            bits@,
            opt_keys_view(vanilla_keys@),
            crate::tkcl::codec::strs(vanilla_tags@),
            vanilla_bits@,
            keys@.len() as int,
        ),
{
    let ghost kv = opt_keys_view(keys@);
    let ghost tv = crate::tkcl::codec::strs(tags@);
    let ghost vkv = opt_keys_view(vanilla_keys@);
    let ghost vtv = crate::tkcl::codec::strs(vanilla_tags@);
    let mut r: Vec<(usize, TagEdit)> = Vec::new();
    let mut i: usize = 0;
    assert(indexed_edits_view(r@) =~= Seq::<(int, TagEditView)>::empty());
    while i < keys.len()
        invariant
            i <= keys.len(),
            keys@.len() * tags@.len() <= usize::MAX,
            vanilla_keys@.len() * vanilla_tags@.len() <= usize::MAX,
            kv == opt_keys_view(keys@),
            tv == crate::tkcl::codec::strs(tags@),
            vkv == opt_keys_view(vanilla_keys@),
            vtv == crate::tkcl::codec::strs(vanilla_tags@),
            indexed_edits_view(r@) == tag_edits(kv, tv, bits@, vkv, vtv, vanilla_bits@, i as int),
        decreases keys.len() - i,
    {
        proof {
            assert((i + 1) * tags@.len() <= keys@.len() * tags@.len()) by (nonlinear_arith)
                requires
                    i + 1 <= keys@.len(),
            ;
        }
        let ts = entry_tags(i, tags, bits);
        let found = match &keys[i] {
            None => None,
            Some(k) => last_key_position(vanilla_keys, k),
        };
        let ghost before = indexed_edits_view(r@);
        match found {
            None => {
                let ghost tsv = crate::tkcl::codec::strs(ts@);
                r.push((i, TagEdit::Added(ts)));
                assert(indexed_edits_view(r@) =~= before.push((i as int, TagEditView::Added(tsv))));
            },
            Some(vi) => {
                proof {
                    assert((vi + 1) * vanilla_tags@.len() <= vanilla_keys@.len() * vanilla_tags@.len())
                        by (nonlinear_arith)
                        requires
                            vi + 1 <= vanilla_keys@.len(),
                    ;
                }
                let vts = sorted_tags(entry_tags(vi, vanilla_tags, vanilla_bits));
                let cs = tag_changes(&vts, &ts);
                if cs.len() > 0 {
                    let ghost csv = changes_view(cs@);
                    r.push((i, TagEdit::Changes(cs)));
                    assert(indexed_edits_view(r@) =~= before.push((i as int, TagEditView::Changes(csv))));
                }
            },
        }
        i = i + 1;
    }
    r
}

proof fn lemma_tag_index_contains(tags: Seq<Seq<char>>, t: Seq<char>)
    ensures
        (tag_index(tags, t) == -1) == !tags.contains(t),
    decreases tags.len(),
{
    if tags.len() > 0 {
        lemma_tag_index_contains(tags.drop_last(), t);
        if tags.drop_last().contains(t) {
            let j = choose|j: int| 0 <= j < tags.drop_last().len() && tags.drop_last()[j] == t;
            assert(tags[j] == t);
        }
        if tags.contains(t) {
            let j = choose|j: int| 0 <= j < tags.len() && tags[j] == t;
            if j < tags.len() - 1 {
                assert(tags.drop_last()[j] == t);
            }
        }
        if tags.last() == t {
            assert(tags[tags.len() - 1] == t);
        }
    }
}

/// Whether a tag of a modded table is new to vanilla: anything but a
/// string vanilla lists.
pub open spec fn new_tag(node: Option<Seq<char>>, vtags: Seq<Seq<char>>) -> bool {
    match node {
        Some(t) => !vtags.contains(t),
        None => true,
    }
}

/// The positions of the tags new to vanilla, in order.
pub open spec fn new_tag_positions(nodes: Seq<Option<Seq<char>>>, vtags: Seq<Seq<char>>, n: int) -> Seq<int>
    decreases n,
{
    if n <= 0 {
        Seq::empty()
    } else {
        let prev = new_tag_positions(nodes, vtags, n - 1);
        if new_tag(nodes[n - 1], vtags) {
            prev.push(n - 1)
        } else {
            prev
        }
    }
}

pub open spec fn opt_strs(v: Seq<Option<String>>) -> Seq<Option<Seq<char>>> {
    v.map_values(
        |o: Option<String>|
            match o {
                Some(s) => Some(s@),
                None => None,
            },
    )
}

/// The positions of the tags of a modded table (`None` for a node that is
/// no string) that vanilla does not list.
pub fn new_tags(nodes: &Vec<Option<String>>, vanilla_tags: &Vec<String>) -> (r: Vec<usize>)
    ensures
        r@.map_values(|i: usize| i as int) == new_tag_positions(
            opt_strs(nodes@),
            crate::tkcl::codec::strs(vanilla_tags@),
            nodes@.len() as int,
        ),
{
    let ghost nv = opt_strs(nodes@);
    let ghost vtv = crate::tkcl::codec::strs(vanilla_tags@);
    let mut r: Vec<usize> = Vec::new();
    let mut i: usize = 0;
    assert(r@.map_values(|i: usize| i as int) =~= Seq::<int>::empty());
    while i < nodes.len()
        invariant
            i <= nodes.len(),
            nv == opt_strs(nodes@),
            vtv == crate::tkcl::codec::strs(vanilla_tags@),
            r@.map_values(|i: usize| i as int) == new_tag_positions(nv, vtv, i as int),
        decreases nodes.len() - i,
    {
        let fresh = match &nodes[i] {
            None => true,
            Some(t) => match tag_position(vanilla_tags, t.as_str()) {
                None => true,
                Some(_) => false,
            },
        };
        proof {
            match nodes@[i as int] {
                None => {},
                Some(t) => {
                    lemma_tag_index_contains(vtv, t@);
                },
            }
        }
        assert(fresh == new_tag(nv[i as int], vtv));
        let ghost before = r@;
        if fresh {
            r.push(i);
            assert(r@.map_values(|i: usize| i as int) =~= before.map_values(|i: usize| i as int).push(i as int));
        }
        i = i + 1;
    }
    r
}

/// No two entries name one path.
pub open spec fn keys_unique(es: Seq<SpecTagEntry>) -> bool {
    forall|i: int, j: int| 0 <= i < j < es.len() ==> #[trigger] es[i].0 != #[trigger] es[j].0
}

proof fn lemma_entry_at_absent(es: Seq<SpecTagEntry>, k: SpecEntryKey)
    ensures
        entry_at(es, k) < 0 ==> forall|i: int| 0 <= i < es.len() ==> #[trigger] es[i].0 != k,
        entry_at(es, k) >= 0 ==> es[entry_at(es, k)].0 == k,
    decreases es.len(),
{
    lemma_entry_at_range(es, k);
    if es.len() > 0 {
        lemma_entry_at_absent(es.skip(1), k);
        if entry_at(es, k) < 0 {
            assert forall|i: int| 0 <= i < es.len() implies #[trigger] es[i].0 != k by {
                if i > 0 {
                    assert(es[i] == es.skip(1)[i - 1]);
                }
            }
        } else if es[0].0 != k {
            assert(es[entry_at(es, k)] == es.skip(1)[entry_at(es, k) - 1]);
        }
    }
}

proof fn lemma_put_entry_unique(es: Seq<SpecTagEntry>, k: SpecEntryKey, ts: Seq<Seq<char>>)
    requires
        keys_unique(es),
    ensures
        keys_unique(put_entry(es, k, ts)),
{
    lemma_entry_at_absent(es, k);
    let r = put_entry(es, k, ts);
    lemma_entry_at_range(es, k);
    if entry_at(es, k) < 0 {
        assert(r == es.push((k, ts)));
    } else {
        assert(r == es.update(entry_at(es, k), (k, ts)));
    }
    assert forall|i: int, j: int| 0 <= i < j < r.len() implies #[trigger] r[i].0 != #[trigger] r[j].0 by {
        if entry_at(es, k) < 0 {
            if j < es.len() {
                assert(r[i] == es[i] && r[j] == es[j]);
            } else {
                assert(r[i] == es[i]);
            }
        } else {
            let p = entry_at(es, k);
            if i != p && j != p {
                assert(r[i] == es[i] && r[j] == es[j]);
            } else if i == p {
                assert(r[j] == es[j]);
            } else {
                assert(r[i] == es[i]);
            }
        }
    }
}

proof fn lemma_all_edited_unique(es: Seq<SpecTagEntry>, eds: Seq<(SpecEntryKey, TagEditView)>)
    requires
        keys_unique(es),
    ensures
        keys_unique(all_edited(es, eds)),
    decreases eds.len(),
{
    if eds.len() > 0 {
        lemma_all_edited_unique(es, eds.drop_last());
        let a = all_edited(es, eds.drop_last());
        let k = eds.last().0;
        let base = tags_at(a, k);
        lemma_put_entry_unique(
            a,
            k,
            match eds.last().1 {
                TagEditView::Added(list) => base + list,
                TagEditView::Changes(cs) => apply_tag_changes(base, cs),
                TagEditView::Other => base,
            },
        );
    }
}

proof fn lemma_gathered_unique(keys: Seq<Option<SpecEntryKey>>, tags: Seq<Seq<char>>, bits: Seq<u8>, n: int)
    ensures
        keys_unique(gathered(keys, tags, bits, n)),
    decreases n,
{
    if n > 0 {
        lemma_gathered_unique(keys, tags, bits, n - 1);
        match keys[n - 1] {
            None => {},
            Some(k) => lemma_put_entry_unique(
                gathered(keys, tags, bits, n - 1),
                k,
                entry_tags_spec(n - 1, tags, bits, tags.len() as int),
            ),
        }
    }
}

proof fn lemma_with_changelogs_unique(
    es: Seq<SpecTagEntry>,
    tags: Seq<Seq<char>>,
    cls: Seq<(Seq<Seq<char>>, Seq<(SpecEntryKey, TagEditView)>)>,
)
    requires
        keys_unique(es),
    ensures
        keys_unique(with_changelogs(es, tags, cls).0),
    decreases cls.len(),
{
    if cls.len() > 0 {
        lemma_with_changelogs_unique(es, tags, cls.drop_last());
        lemma_all_edited_unique(with_changelogs(es, tags, cls.drop_last()).0, cls.last().1);
    }
}

/// However many changelogs are merged, the entries of a tag table never
/// name one path twice: a path met again, in the table or in an edit,
/// updates its entry.
pub proof fn lemma_merged_entries_unique(
    keys: Seq<Option<SpecEntryKey>>,
    tags: Seq<Seq<char>>,
    bits: Seq<u8>,
    cls: Seq<(Seq<Seq<char>>, Seq<(SpecEntryKey, TagEditView)>)>,
)
    ensures
        keys_unique(with_changelogs(gathered(keys, tags, bits, keys.len() as int), tags, cls).0),
{
    lemma_gathered_unique(keys, tags, bits, keys.len() as int);
    lemma_with_changelogs_unique(gathered(keys, tags, bits, keys.len() as int), tags, cls);
}

/// An entry whose tags match vanilla's makes no edit.
pub proof fn lemma_same_tags_no_changes(v: Seq<Seq<char>>)
    ensures
        tag_diff(v, v).len() == 0,
    decreases v.len(),
{
    if v.len() > 0 {
        lemma_same_tags_no_changes(v.skip(1));
    } else {
        assert(v.map_values(|t: Seq<char>| (false, t)).len() == 0);
    }
}

/// How many times `x` is in `s`.
pub open spec fn count_of(s: Seq<Seq<char>>, x: Seq<char>) -> int
    decreases s.len(),
{
    if s.len() == 0 {
        0
    } else {
        count_of(s.drop_last(), x) + if s.last() == x {
            1int
        } else {
            0int
        }
    }
}

proof fn lemma_count_front(a: Seq<char>, r: Seq<Seq<char>>, x: Seq<char>)
    ensures
        count_of(seq![a] + r, x) == count_of(r, x) + if a == x {
            1int
        } else {
            0int
        },
    decreases r.len(),
{
    let s = seq![a] + r;
    if r.len() == 0 {
        assert(s =~= seq![a]);
        assert(s.drop_last() =~= Seq::<Seq<char>>::empty());
        assert(count_of(s.drop_last(), x) == 0);
        assert(s.last() == a);
        assert(count_of(r, x) == 0);
    } else {
        assert(s.drop_last() =~= seq![a] + r.drop_last());
        assert(s.last() == r.last());
        lemma_count_front(a, r.drop_last(), x);
        assert(count_of(s, x) == count_of(s.drop_last(), x) + if s.last() == x {
            1int
        } else {
            0int
        });
    }
}

proof fn lemma_count_skip(s: Seq<Seq<char>>, x: Seq<char>)
    requires
        s.len() > 0,
    ensures
        count_of(s, x) == count_of(s.skip(1), x) + if s[0] == x {
            1int
        } else {
            0int
        },
{
    assert(s =~= seq![s[0]] + s.skip(1));
    lemma_count_front(s[0], s.skip(1), x);
}

proof fn lemma_count_nonneg(s: Seq<Seq<char>>, x: Seq<char>)
    ensures
        count_of(s, x) >= 0,
    decreases s.len(),
{
    if s.len() > 0 {
        lemma_count_nonneg(s.drop_last(), x);
    }
}

proof fn lemma_remove_first_count(b: Seq<Seq<char>>, t: Seq<char>)
    ensures
        forall|x: Seq<char>|
            #[trigger] count_of(remove_first(b, t), x) == count_of(b, x) - if x == t && count_of(b, t) > 0 {
                1int
            } else {
                0int
            },
    decreases b.len(),
{
    if b.len() > 0 {
        lemma_remove_first_count(b.skip(1), t);
        assert forall|x: Seq<char>|
            #[trigger] count_of(remove_first(b, t), x) == count_of(b, x) - if x == t && count_of(b, t) > 0 {
                1int
            } else {
                0int
            } by {
            lemma_count_skip(b, x);
            lemma_count_skip(b, t);
            lemma_count_nonneg(b.skip(1), t);
            if b[0] != t {
                lemma_count_front(b[0], remove_first(b.skip(1), t), x);
            }
        }
    }
}

proof fn lemma_apply_concat(b: Seq<Seq<char>>, x: Seq<SpecTagChange>, y: Seq<SpecTagChange>)
    ensures
        apply_tag_changes(b, x + y) == apply_tag_changes(apply_tag_changes(b, x), y),
    decreases y.len(),
{
    if y.len() == 0 {
        assert(x + y =~= x);
    } else {
        assert((x + y).drop_last() =~= x + y.drop_last());
        assert((x + y).last() == y.last());
        lemma_apply_concat(b, x, y.drop_last());
    }
}

/// Each of `v` removed, in order.
pub open spec fn removals(v: Seq<Seq<char>>) -> Seq<SpecTagChange> {
    v.map_values(|t: Seq<char>| (false, t))
}

proof fn lemma_apply_removals(b: Seq<Seq<char>>, v: Seq<Seq<char>>)
    requires
        forall|y: Seq<char>| count_of(v, y) <= #[trigger] count_of(b, y),
    ensures
        forall|x: Seq<char>|
            #[trigger] count_of(apply_tag_changes(b, removals(v)), x) == count_of(b, x) - count_of(v, x),
    decreases v.len(),
{
    if v.len() > 0 {
        let vm = removals(v);
        assert forall|y: Seq<char>| count_of(v.drop_last(), y) <= #[trigger] count_of(b, y) by {
            assert(count_of(v, y) >= count_of(v.drop_last(), y));
        }
        lemma_apply_removals(b, v.drop_last());
        assert(vm.drop_last() =~= removals(v.drop_last()));
        assert(vm.last() == (false, v.last()));
        let prev = apply_tag_changes(b, vm.drop_last());
        lemma_remove_first_count(prev, v.last());
        assert(count_of(prev, v.last()) > 0) by {
            assert(count_of(v, v.last()) <= count_of(b, v.last()));
        }
    }
}

proof fn lemma_one_change(b: Seq<Seq<char>>, c: SpecTagChange)
    ensures
        apply_tag_changes(b, seq![c]) == if c.0 {
            b.push(c.1)
        } else {
            remove_first(b, c.1)
        },
{
    let one = seq![c];
    assert(one.drop_last() =~= Seq::<SpecTagChange>::empty());
    assert(apply_tag_changes(b, one.drop_last()) == b);
    assert(one.last() == c);
}

proof fn lemma_diff_counts(b: Seq<Seq<char>>, v: Seq<Seq<char>>, m: Seq<Seq<char>>)
    requires
        forall|y: Seq<char>| count_of(v, y) <= #[trigger] count_of(b, y),
    ensures
        forall|x: Seq<char>|
            #[trigger] count_of(apply_tag_changes(b, tag_diff(v, m)), x) == count_of(b, x) - count_of(v, x) + count_of(
                m,
                x,
            ),
    decreases v.len() + m.len(),
{
    if m.len() == 0 {
        assert(tag_diff(v, m) == removals(v));
        lemma_apply_removals(b, v);
    } else if v.len() == 0 {
        let b2 = b.push(m[0]);
        assert forall|y: Seq<char>| count_of(v, y) <= #[trigger] count_of(b2, y) by {
            assert(b2.drop_last() =~= b);
            lemma_count_nonneg(b, y);
        }
        lemma_diff_counts(b2, v, m.skip(1));
        assert(tag_diff(v, m) == seq![(true, m[0])] + tag_diff(v, m.skip(1)));
        lemma_apply_concat(b, seq![(true, m[0])], tag_diff(v, m.skip(1)));
        lemma_one_change(b, (true, m[0]));
        assert forall|x: Seq<char>|
            #[trigger] count_of(apply_tag_changes(b, tag_diff(v, m)), x) == count_of(b, x) - count_of(v, x)
                + count_of(m, x) by {
            assert(b2.drop_last() =~= b);
            lemma_count_skip(m, x);
        }
    } else if v[0] == m[0] {
        assert forall|y: Seq<char>| count_of(v.skip(1), y) <= #[trigger] count_of(b, y) by {
            lemma_count_skip(v, y);
            assert(count_of(v, y) <= count_of(b, y));
        }
        lemma_diff_counts(b, v.skip(1), m.skip(1));
        assert(tag_diff(v, m) == tag_diff(v.skip(1), m.skip(1)));
        assert forall|x: Seq<char>|
            #[trigger] count_of(apply_tag_changes(b, tag_diff(v, m)), x) == count_of(b, x) - count_of(v, x)
                + count_of(m, x) by {
            lemma_count_skip(v, x);
            lemma_count_skip(m, x);
        }
    } else if utf16_lt(v[0], m[0]) {
        let b2 = remove_first(b, v[0]);
        lemma_remove_first_count(b, v[0]);
        assert(count_of(b, v[0]) > 0) by {
            lemma_count_skip(v, v[0]);
            lemma_count_nonneg(v.skip(1), v[0]);
            assert(count_of(v, v[0]) <= count_of(b, v[0]));
        }
        assert forall|y: Seq<char>| count_of(v.skip(1), y) <= #[trigger] count_of(b2, y) by {
            lemma_count_skip(v, y);
            assert(count_of(v, y) <= count_of(b, y));
        }
        lemma_diff_counts(b2, v.skip(1), m);
        assert(tag_diff(v, m) == seq![(false, v[0])] + tag_diff(v.skip(1), m));
        lemma_apply_concat(b, seq![(false, v[0])], tag_diff(v.skip(1), m));
        lemma_one_change(b, (false, v[0]));
        assert forall|x: Seq<char>|
            #[trigger] count_of(apply_tag_changes(b, tag_diff(v, m)), x) == count_of(b, x) - count_of(v, x)
                + count_of(m, x) by {
            lemma_count_skip(v, x);
        }
    } else {
        let b2 = b.push(m[0]);
        assert forall|y: Seq<char>| count_of(v, y) <= #[trigger] count_of(b2, y) by {
            assert(b2.drop_last() =~= b);
            assert(count_of(v, y) <= count_of(b, y));
        }
        lemma_diff_counts(b2, v, m.skip(1));
        assert(tag_diff(v, m) == seq![(true, m[0])] + tag_diff(v, m.skip(1)));
        lemma_apply_concat(b, seq![(true, m[0])], tag_diff(v, m.skip(1)));
        lemma_one_change(b, (true, m[0]));
        assert forall|x: Seq<char>|
            #[trigger] count_of(apply_tag_changes(b, tag_diff(v, m)), x) == count_of(b, x) - count_of(v, x)
                + count_of(m, x) by {
            assert(b2.drop_last() =~= b);
            lemma_count_skip(m, x);
        }
    }
}

/// Applying the changes from the tags `v` to the tags `m` to `v` gives back
/// the tags of `m`, each as many times: what a mod changes in an entry,
/// merged into vanilla, is what the mod has.
pub proof fn lemma_changes_give_back_tags(v: Seq<Seq<char>>, m: Seq<Seq<char>>)
    ensures
        forall|x: Seq<char>| #[trigger] count_of(apply_tag_changes(v, tag_diff(v, m)), x) == count_of(m, x),
{
    lemma_diff_counts(v, v, m);
}

proof fn lemma_paths_differ(a: Seq<char>, b: Seq<char>, i: int)
    requires
        0 <= i < a.len(),
        i < b.len(),
        a[i] != b[i],
    ensures
        a != b,
{
}

proof fn lemma_row_key_0()
    ensures
        row_key_spec("RSDB/GameSafetySetting.Product.rstbl.byml"@) == Some("NameHash"@),
{
    reveal_strlit("RSDB/GameSafetySetting.Product.rstbl.byml");
}

proof fn lemma_row_key_1()
    ensures
        row_key_spec("RSDB/RumbleCall.Product.rstbl.byml"@) == Some("Name"@),
{
    reveal_strlit("RSDB/RumbleCall.Product.rstbl.byml");
    reveal_strlit("RSDB/GameSafetySetting.Product.rstbl.byml");
    assert("RSDB/RumbleCall.Product.rstbl.byml"@.len() == 34 && "RSDB/GameSafetySetting.Product.rstbl.byml"@.len() == 41);
}

proof fn lemma_row_key_2()
    ensures
        row_key_spec("RSDB/UIScreen.Product.rstbl.byml"@) == Some("Name"@),
{
    reveal_strlit("RSDB/UIScreen.Product.rstbl.byml");
    reveal_strlit("RSDB/GameSafetySetting.Product.rstbl.byml");
    assert("RSDB/UIScreen.Product.rstbl.byml"@.len() == 32 && "RSDB/GameSafetySetting.Product.rstbl.byml"@.len() == 41);
    reveal_strlit("RSDB/RumbleCall.Product.rstbl.byml");
    assert("RSDB/UIScreen.Product.rstbl.byml"@.len() == 32 && "RSDB/RumbleCall.Product.rstbl.byml"@.len() == 34);
}

proof fn lemma_row_key_3()
    ensures
        row_key_spec("RSDB/TagDef.Product.rstbl.byml"@) == Some("FullTagId"@),
{
    reveal_strlit("RSDB/TagDef.Product.rstbl.byml");
    reveal_strlit("RSDB/GameSafetySetting.Product.rstbl.byml");
    assert("RSDB/TagDef.Product.rstbl.byml"@.len() == 30 && "RSDB/GameSafetySetting.Product.rstbl.byml"@.len() == 41);
    reveal_strlit("RSDB/RumbleCall.Product.rstbl.byml");
    assert("RSDB/TagDef.Product.rstbl.byml"@.len() == 30 && "RSDB/RumbleCall.Product.rstbl.byml"@.len() == 34);
    reveal_strlit("RSDB/UIScreen.Product.rstbl.byml");
    assert("RSDB/TagDef.Product.rstbl.byml"@.len() == 30 && "RSDB/UIScreen.Product.rstbl.byml"@.len() == 32);
}

proof fn lemma_row_key_4()
    ensures
        row_key_spec("RSDB/ActorInfo.Product.rstbl.byml"@) == Some("__RowId"@),
{
    reveal_strlit("RSDB/ActorInfo.Product.rstbl.byml");
    reveal_strlit("RSDB/GameSafetySetting.Product.rstbl.byml");
    assert("RSDB/ActorInfo.Product.rstbl.byml"@.len() == 33 && "RSDB/GameSafetySetting.Product.rstbl.byml"@.len() == 41);
    reveal_strlit("RSDB/RumbleCall.Product.rstbl.byml");
    assert("RSDB/ActorInfo.Product.rstbl.byml"@.len() == 33 && "RSDB/RumbleCall.Product.rstbl.byml"@.len() == 34);
    reveal_strlit("RSDB/UIScreen.Product.rstbl.byml");
    assert("RSDB/ActorInfo.Product.rstbl.byml"@.len() == 33 && "RSDB/UIScreen.Product.rstbl.byml"@.len() == 32);
    reveal_strlit("RSDB/TagDef.Product.rstbl.byml");
    assert("RSDB/ActorInfo.Product.rstbl.byml"@.len() == 33 && "RSDB/TagDef.Product.rstbl.byml"@.len() == 30);
}

proof fn lemma_row_key_5()
    ensures
        row_key_spec("RSDB/AttachmentActorInfo.Product.rstbl.byml"@) == Some("__RowId"@),
{
    reveal_strlit("RSDB/AttachmentActorInfo.Product.rstbl.byml");
    reveal_strlit("RSDB/GameSafetySetting.Product.rstbl.byml");
    assert("RSDB/AttachmentActorInfo.Product.rstbl.byml"@.len() == 43 && "RSDB/GameSafetySetting.Product.rstbl.byml"@.len() == 41);
    reveal_strlit("RSDB/RumbleCall.Product.rstbl.byml");
    assert("RSDB/AttachmentActorInfo.Product.rstbl.byml"@.len() == 43 && "RSDB/RumbleCall.Product.rstbl.byml"@.len() == 34);
    reveal_strlit("RSDB/UIScreen.Product.rstbl.byml");
    assert("RSDB/AttachmentActorInfo.Product.rstbl.byml"@.len() == 43 && "RSDB/UIScreen.Product.rstbl.byml"@.len() == 32);
    reveal_strlit("RSDB/TagDef.Product.rstbl.byml");
    assert("RSDB/AttachmentActorInfo.Product.rstbl.byml"@.len() == 43 && "RSDB/TagDef.Product.rstbl.byml"@.len() == 30);
    reveal_strlit("RSDB/ActorInfo.Product.rstbl.byml");
    assert("RSDB/AttachmentActorInfo.Product.rstbl.byml"@.len() == 43 && "RSDB/ActorInfo.Product.rstbl.byml"@.len() == 33);
}

proof fn lemma_row_key_6()
    ensures
        row_key_spec("RSDB/Challenge.Product.rstbl.byml"@) == Some("__RowId"@),
{
    reveal_strlit("RSDB/Challenge.Product.rstbl.byml");
    reveal_strlit("RSDB/GameSafetySetting.Product.rstbl.byml");
    assert("RSDB/Challenge.Product.rstbl.byml"@.len() == 33 && "RSDB/GameSafetySetting.Product.rstbl.byml"@.len() == 41);
    reveal_strlit("RSDB/RumbleCall.Product.rstbl.byml");
    assert("RSDB/Challenge.Product.rstbl.byml"@.len() == 33 && "RSDB/RumbleCall.Product.rstbl.byml"@.len() == 34);
    reveal_strlit("RSDB/UIScreen.Product.rstbl.byml");
    assert("RSDB/Challenge.Product.rstbl.byml"@.len() == 33 && "RSDB/UIScreen.Product.rstbl.byml"@.len() == 32);
    reveal_strlit("RSDB/TagDef.Product.rstbl.byml");
    assert("RSDB/Challenge.Product.rstbl.byml"@.len() == 33 && "RSDB/TagDef.Product.rstbl.byml"@.len() == 30);
    reveal_strlit("RSDB/ActorInfo.Product.rstbl.byml");
    assert("RSDB/Challenge.Product.rstbl.byml"@[5] == 'C' && "RSDB/ActorInfo.Product.rstbl.byml"@[5] == 'A');
    lemma_paths_differ("RSDB/Challenge.Product.rstbl.byml"@, "RSDB/ActorInfo.Product.rstbl.byml"@, 5);
    reveal_strlit("RSDB/AttachmentActorInfo.Product.rstbl.byml");
    assert("RSDB/Challenge.Product.rstbl.byml"@.len() == 33 && "RSDB/AttachmentActorInfo.Product.rstbl.byml"@.len() == 43);
}

proof fn lemma_row_key_7()
    ensures
        row_key_spec("RSDB/EnhancementMaterialInfo.Product.rstbl.byml"@) == Some("__RowId"@),
{
    reveal_strlit("RSDB/EnhancementMaterialInfo.Product.rstbl.byml");
    reveal_strlit("RSDB/GameSafetySetting.Product.rstbl.byml");
    assert("RSDB/EnhancementMaterialInfo.Product.rstbl.byml"@.len() == 47 && "RSDB/GameSafetySetting.Product.rstbl.byml"@.len() == 41);
    reveal_strlit("RSDB/RumbleCall.Product.rstbl.byml");
    assert("RSDB/EnhancementMaterialInfo.Product.rstbl.byml"@.len() == 47 && "RSDB/RumbleCall.Product.rstbl.byml"@.len() == 34);
    reveal_strlit("RSDB/UIScreen.Product.rstbl.byml");
    assert("RSDB/EnhancementMaterialInfo.Product.rstbl.byml"@.len() == 47 && "RSDB/UIScreen.Product.rstbl.byml"@.len() == 32);
    reveal_strlit("RSDB/TagDef.Product.rstbl.byml");
    assert("RSDB/EnhancementMaterialInfo.Product.rstbl.byml"@.len() == 47 && "RSDB/TagDef.Product.rstbl.byml"@.len() == 30);
    reveal_strlit("RSDB/ActorInfo.Product.rstbl.byml");
    assert("RSDB/EnhancementMaterialInfo.Product.rstbl.byml"@.len() == 47 && "RSDB/ActorInfo.Product.rstbl.byml"@.len() == 33);
    reveal_strlit("RSDB/AttachmentActorInfo.Product.rstbl.byml");
    assert("RSDB/EnhancementMaterialInfo.Product.rstbl.byml"@.len() == 47 && "RSDB/AttachmentActorInfo.Product.rstbl.byml"@.len() == 43);
    reveal_strlit("RSDB/Challenge.Product.rstbl.byml");
    assert("RSDB/EnhancementMaterialInfo.Product.rstbl.byml"@.len() == 47 && "RSDB/Challenge.Product.rstbl.byml"@.len() == 33);
}

proof fn lemma_row_key_8()
    ensures
        row_key_spec("RSDB/EventPlayEnvSetting.Product.rstbl.byml"@) == Some("__RowId"@),
{
    reveal_strlit("RSDB/EventPlayEnvSetting.Product.rstbl.byml");
    reveal_strlit("RSDB/GameSafetySetting.Product.rstbl.byml");
    assert("RSDB/EventPlayEnvSetting.Product.rstbl.byml"@.len() == 43 && "RSDB/GameSafetySetting.Product.rstbl.byml"@.len() == 41);
    reveal_strlit("RSDB/RumbleCall.Product.rstbl.byml");
    assert("RSDB/EventPlayEnvSetting.Product.rstbl.byml"@.len() == 43 && "RSDB/RumbleCall.Product.rstbl.byml"@.len() == 34);
    reveal_strlit("RSDB/UIScreen.Product.rstbl.byml");
    assert("RSDB/EventPlayEnvSetting.Product.rstbl.byml"@.len() == 43 && "RSDB/UIScreen.Product.rstbl.byml"@.len() == 32);
    reveal_strlit("RSDB/TagDef.Product.rstbl.byml");
    assert("RSDB/EventPlayEnvSetting.Product.rstbl.byml"@.len() == 43 && "RSDB/TagDef.Product.rstbl.byml"@.len() == 30);
    reveal_strlit("RSDB/ActorInfo.Product.rstbl.byml");
    assert("RSDB/EventPlayEnvSetting.Product.rstbl.byml"@.len() == 43 && "RSDB/ActorInfo.Product.rstbl.byml"@.len() == 33);
    reveal_strlit("RSDB/AttachmentActorInfo.Product.rstbl.byml");
    assert("RSDB/EventPlayEnvSetting.Product.rstbl.byml"@[5] == 'E' && "RSDB/AttachmentActorInfo.Product.rstbl.byml"@[5] == 'A');
    lemma_paths_differ("RSDB/EventPlayEnvSetting.Product.rstbl.byml"@, "RSDB/AttachmentActorInfo.Product.rstbl.byml"@, 5);
    reveal_strlit("RSDB/Challenge.Product.rstbl.byml");
    assert("RSDB/EventPlayEnvSetting.Product.rstbl.byml"@.len() == 43 && "RSDB/Challenge.Product.rstbl.byml"@.len() == 33);
    reveal_strlit("RSDB/EnhancementMaterialInfo.Product.rstbl.byml");
    assert("RSDB/EventPlayEnvSetting.Product.rstbl.byml"@.len() == 43 && "RSDB/EnhancementMaterialInfo.Product.rstbl.byml"@.len() == 47);
}

proof fn lemma_row_key_9()
    ensures
        row_key_spec("RSDB/EventSetting.Product.rstbl.byml"@) == Some("__RowId"@),
{
    reveal_strlit("RSDB/EventSetting.Product.rstbl.byml");
    reveal_strlit("RSDB/GameSafetySetting.Product.rstbl.byml");
    assert("RSDB/EventSetting.Product.rstbl.byml"@.len() == 36 && "RSDB/GameSafetySetting.Product.rstbl.byml"@.len() == 41);
    reveal_strlit("RSDB/RumbleCall.Product.rstbl.byml");
    assert("RSDB/EventSetting.Product.rstbl.byml"@.len() == 36 && "RSDB/RumbleCall.Product.rstbl.byml"@.len() == 34);
    reveal_strlit("RSDB/UIScreen.Product.rstbl.byml");
    assert("RSDB/EventSetting.Product.rstbl.byml"@.len() == 36 && "RSDB/UIScreen.Product.rstbl.byml"@.len() == 32);
    reveal_strlit("RSDB/TagDef.Product.rstbl.byml");
    assert("RSDB/EventSetting.Product.rstbl.byml"@.len() == 36 && "RSDB/TagDef.Product.rstbl.byml"@.len() == 30);
    reveal_strlit("RSDB/ActorInfo.Product.rstbl.byml");
    assert("RSDB/EventSetting.Product.rstbl.byml"@.len() == 36 && "RSDB/ActorInfo.Product.rstbl.byml"@.len() == 33);
    reveal_strlit("RSDB/AttachmentActorInfo.Product.rstbl.byml");
    assert("RSDB/EventSetting.Product.rstbl.byml"@.len() == 36 && "RSDB/AttachmentActorInfo.Product.rstbl.byml"@.len() == 43);
    reveal_strlit("RSDB/Challenge.Product.rstbl.byml");
    assert("RSDB/EventSetting.Product.rstbl.byml"@.len() == 36 && "RSDB/Challenge.Product.rstbl.byml"@.len() == 33);
    reveal_strlit("RSDB/EnhancementMaterialInfo.Product.rstbl.byml");
    assert("RSDB/EventSetting.Product.rstbl.byml"@.len() == 36 && "RSDB/EnhancementMaterialInfo.Product.rstbl.byml"@.len() == 47);
    reveal_strlit("RSDB/EventPlayEnvSetting.Product.rstbl.byml");
    assert("RSDB/EventSetting.Product.rstbl.byml"@.len() == 36 && "RSDB/EventPlayEnvSetting.Product.rstbl.byml"@.len() == 43);
}

proof fn lemma_row_key_10()
    ensures
        row_key_spec("RSDB/GameActorInfo.Product.rstbl.byml"@) == Some("__RowId"@),
{
    reveal_strlit("RSDB/GameActorInfo.Product.rstbl.byml");
    reveal_strlit("RSDB/GameSafetySetting.Product.rstbl.byml");
    assert("RSDB/GameActorInfo.Product.rstbl.byml"@.len() == 37 && "RSDB/GameSafetySetting.Product.rstbl.byml"@.len() == 41);
    reveal_strlit("RSDB/RumbleCall.Product.rstbl.byml");
    assert("RSDB/GameActorInfo.Product.rstbl.byml"@.len() == 37 && "RSDB/RumbleCall.Product.rstbl.byml"@.len() == 34);
    reveal_strlit("RSDB/UIScreen.Product.rstbl.byml");
    assert("RSDB/GameActorInfo.Product.rstbl.byml"@.len() == 37 && "RSDB/UIScreen.Product.rstbl.byml"@.len() == 32);
    reveal_strlit("RSDB/TagDef.Product.rstbl.byml");
    assert("RSDB/GameActorInfo.Product.rstbl.byml"@.len() == 37 && "RSDB/TagDef.Product.rstbl.byml"@.len() == 30);
    reveal_strlit("RSDB/ActorInfo.Product.rstbl.byml");
    assert("RSDB/GameActorInfo.Product.rstbl.byml"@.len() == 37 && "RSDB/ActorInfo.Product.rstbl.byml"@.len() == 33);
    reveal_strlit("RSDB/AttachmentActorInfo.Product.rstbl.byml");
    assert("RSDB/GameActorInfo.Product.rstbl.byml"@.len() == 37 && "RSDB/AttachmentActorInfo.Product.rstbl.byml"@.len() == 43);
    reveal_strlit("RSDB/Challenge.Product.rstbl.byml");
    assert("RSDB/GameActorInfo.Product.rstbl.byml"@.len() == 37 && "RSDB/Challenge.Product.rstbl.byml"@.len() == 33);
    reveal_strlit("RSDB/EnhancementMaterialInfo.Product.rstbl.byml");
    assert("RSDB/GameActorInfo.Product.rstbl.byml"@.len() == 37 && "RSDB/EnhancementMaterialInfo.Product.rstbl.byml"@.len() == 47);
    reveal_strlit("RSDB/EventPlayEnvSetting.Product.rstbl.byml");
    assert("RSDB/GameActorInfo.Product.rstbl.byml"@.len() == 37 && "RSDB/EventPlayEnvSetting.Product.rstbl.byml"@.len() == 43);
    reveal_strlit("RSDB/EventSetting.Product.rstbl.byml");
    assert("RSDB/GameActorInfo.Product.rstbl.byml"@.len() == 37 && "RSDB/EventSetting.Product.rstbl.byml"@.len() == 36);
}

proof fn lemma_row_key_11()
    ensures
        row_key_spec("RSDB/GameAnalyzedEventInfo.Product.rstbl.byml"@) == Some("__RowId"@),
{
    reveal_strlit("RSDB/GameAnalyzedEventInfo.Product.rstbl.byml");
    reveal_strlit("RSDB/GameSafetySetting.Product.rstbl.byml");
    assert("RSDB/GameAnalyzedEventInfo.Product.rstbl.byml"@.len() == 45 && "RSDB/GameSafetySetting.Product.rstbl.byml"@.len() == 41);
    reveal_strlit("RSDB/RumbleCall.Product.rstbl.byml");
    assert("RSDB/GameAnalyzedEventInfo.Product.rstbl.byml"@.len() == 45 && "RSDB/RumbleCall.Product.rstbl.byml"@.len() == 34);
    reveal_strlit("RSDB/UIScreen.Product.rstbl.byml");
    assert("RSDB/GameAnalyzedEventInfo.Product.rstbl.byml"@.len() == 45 && "RSDB/UIScreen.Product.rstbl.byml"@.len() == 32);
    reveal_strlit("RSDB/TagDef.Product.rstbl.byml");
    assert("RSDB/GameAnalyzedEventInfo.Product.rstbl.byml"@.len() == 45 && "RSDB/TagDef.Product.rstbl.byml"@.len() == 30);
    reveal_strlit("RSDB/ActorInfo.Product.rstbl.byml");
    assert("RSDB/GameAnalyzedEventInfo.Product.rstbl.byml"@.len() == 45 && "RSDB/ActorInfo.Product.rstbl.byml"@.len() == 33);
    reveal_strlit("RSDB/AttachmentActorInfo.Product.rstbl.byml");
    assert("RSDB/GameAnalyzedEventInfo.Product.rstbl.byml"@.len() == 45 && "RSDB/AttachmentActorInfo.Product.rstbl.byml"@.len() == 43);
    reveal_strlit("RSDB/Challenge.Product.rstbl.byml");
    assert("RSDB/GameAnalyzedEventInfo.Product.rstbl.byml"@.len() == 45 && "RSDB/Challenge.Product.rstbl.byml"@.len() == 33);
    reveal_strlit("RSDB/EnhancementMaterialInfo.Product.rstbl.byml");
    assert("RSDB/GameAnalyzedEventInfo.Product.rstbl.byml"@.len() == 45 && "RSDB/EnhancementMaterialInfo.Product.rstbl.byml"@.len() == 47);
    reveal_strlit("RSDB/EventPlayEnvSetting.Product.rstbl.byml");
    assert("RSDB/GameAnalyzedEventInfo.Product.rstbl.byml"@.len() == 45 && "RSDB/EventPlayEnvSetting.Product.rstbl.byml"@.len() == 43);
    reveal_strlit("RSDB/EventSetting.Product.rstbl.byml");
    assert("RSDB/GameAnalyzedEventInfo.Product.rstbl.byml"@.len() == 45 && "RSDB/EventSetting.Product.rstbl.byml"@.len() == 36);
    reveal_strlit("RSDB/GameActorInfo.Product.rstbl.byml");
    assert("RSDB/GameAnalyzedEventInfo.Product.rstbl.byml"@.len() == 45 && "RSDB/GameActorInfo.Product.rstbl.byml"@.len() == 37);
}

proof fn lemma_row_key_12()
    ensures
        row_key_spec("RSDB/GameEventBaseSetting.Product.rstbl.byml"@) == Some("__RowId"@),
{
    reveal_strlit("RSDB/GameEventBaseSetting.Product.rstbl.byml");
    reveal_strlit("RSDB/GameSafetySetting.Product.rstbl.byml");
    assert("RSDB/GameEventBaseSetting.Product.rstbl.byml"@.len() == 44 && "RSDB/GameSafetySetting.Product.rstbl.byml"@.len() == 41);
    reveal_strlit("RSDB/RumbleCall.Product.rstbl.byml");
    assert("RSDB/GameEventBaseSetting.Product.rstbl.byml"@.len() == 44 && "RSDB/RumbleCall.Product.rstbl.byml"@.len() == 34);
    reveal_strlit("RSDB/UIScreen.Product.rstbl.byml");
    assert("RSDB/GameEventBaseSetting.Product.rstbl.byml"@.len() == 44 && "RSDB/UIScreen.Product.rstbl.byml"@.len() == 32);
    reveal_strlit("RSDB/TagDef.Product.rstbl.byml");
    assert("RSDB/GameEventBaseSetting.Product.rstbl.byml"@.len() == 44 && "RSDB/TagDef.Product.rstbl.byml"@.len() == 30);
    reveal_strlit("RSDB/ActorInfo.Product.rstbl.byml");
    assert("RSDB/GameEventBaseSetting.Product.rstbl.byml"@.len() == 44 && "RSDB/ActorInfo.Product.rstbl.byml"@.len() == 33);
    reveal_strlit("RSDB/AttachmentActorInfo.Product.rstbl.byml");
    assert("RSDB/GameEventBaseSetting.Product.rstbl.byml"@.len() == 44 && "RSDB/AttachmentActorInfo.Product.rstbl.byml"@.len() == 43);
    reveal_strlit("RSDB/Challenge.Product.rstbl.byml");
    assert("RSDB/GameEventBaseSetting.Product.rstbl.byml"@.len() == 44 && "RSDB/Challenge.Product.rstbl.byml"@.len() == 33);
    reveal_strlit("RSDB/EnhancementMaterialInfo.Product.rstbl.byml");
    assert("RSDB/GameEventBaseSetting.Product.rstbl.byml"@.len() == 44 && "RSDB/EnhancementMaterialInfo.Product.rstbl.byml"@.len() == 47);
    reveal_strlit("RSDB/EventPlayEnvSetting.Product.rstbl.byml");
    assert("RSDB/GameEventBaseSetting.Product.rstbl.byml"@.len() == 44 && "RSDB/EventPlayEnvSetting.Product.rstbl.byml"@.len() == 43);
    reveal_strlit("RSDB/EventSetting.Product.rstbl.byml");
    assert("RSDB/GameEventBaseSetting.Product.rstbl.byml"@.len() == 44 && "RSDB/EventSetting.Product.rstbl.byml"@.len() == 36);
    reveal_strlit("RSDB/GameActorInfo.Product.rstbl.byml");
    assert("RSDB/GameEventBaseSetting.Product.rstbl.byml"@.len() == 44 && "RSDB/GameActorInfo.Product.rstbl.byml"@.len() == 37);
    reveal_strlit("RSDB/GameAnalyzedEventInfo.Product.rstbl.byml");
    assert("RSDB/GameEventBaseSetting.Product.rstbl.byml"@.len() == 44 && "RSDB/GameAnalyzedEventInfo.Product.rstbl.byml"@.len() == 45);
}

proof fn lemma_row_key_13()
    ensures
        row_key_spec("RSDB/GameEventMetadata.Product.rstbl.byml"@) == Some("__RowId"@),
{
    reveal_strlit("RSDB/GameEventMetadata.Product.rstbl.byml");
    reveal_strlit("RSDB/GameSafetySetting.Product.rstbl.byml");
    assert("RSDB/GameEventMetadata.Product.rstbl.byml"@[9] == 'E' && "RSDB/GameSafetySetting.Product.rstbl.byml"@[9] == 'S');
    lemma_paths_differ("RSDB/GameEventMetadata.Product.rstbl.byml"@, "RSDB/GameSafetySetting.Product.rstbl.byml"@, 9);
    reveal_strlit("RSDB/RumbleCall.Product.rstbl.byml");
    assert("RSDB/GameEventMetadata.Product.rstbl.byml"@.len() == 41 && "RSDB/RumbleCall.Product.rstbl.byml"@.len() == 34);
    reveal_strlit("RSDB/UIScreen.Product.rstbl.byml");
    assert("RSDB/GameEventMetadata.Product.rstbl.byml"@.len() == 41 && "RSDB/UIScreen.Product.rstbl.byml"@.len() == 32);
    reveal_strlit("RSDB/TagDef.Product.rstbl.byml");
    assert("RSDB/GameEventMetadata.Product.rstbl.byml"@.len() == 41 && "RSDB/TagDef.Product.rstbl.byml"@.len() == 30);
    reveal_strlit("RSDB/ActorInfo.Product.rstbl.byml");
    assert("RSDB/GameEventMetadata.Product.rstbl.byml"@.len() == 41 && "RSDB/ActorInfo.Product.rstbl.byml"@.len() == 33);
    reveal_strlit("RSDB/AttachmentActorInfo.Product.rstbl.byml");
    assert("RSDB/GameEventMetadata.Product.rstbl.byml"@.len() == 41 && "RSDB/AttachmentActorInfo.Product.rstbl.byml"@.len() == 43);
    reveal_strlit("RSDB/Challenge.Product.rstbl.byml");
    assert("RSDB/GameEventMetadata.Product.rstbl.byml"@.len() == 41 && "RSDB/Challenge.Product.rstbl.byml"@.len() == 33);
    reveal_strlit("RSDB/EnhancementMaterialInfo.Product.rstbl.byml");
    assert("RSDB/GameEventMetadata.Product.rstbl.byml"@.len() == 41 && "RSDB/EnhancementMaterialInfo.Product.rstbl.byml"@.len() == 47);
    reveal_strlit("RSDB/EventPlayEnvSetting.Product.rstbl.byml");
    assert("RSDB/GameEventMetadata.Product.rstbl.byml"@.len() == 41 && "RSDB/EventPlayEnvSetting.Product.rstbl.byml"@.len() == 43);
    reveal_strlit("RSDB/EventSetting.Product.rstbl.byml");
    assert("RSDB/GameEventMetadata.Product.rstbl.byml"@.len() == 41 && "RSDB/EventSetting.Product.rstbl.byml"@.len() == 36);
    reveal_strlit("RSDB/GameActorInfo.Product.rstbl.byml");
    assert("RSDB/GameEventMetadata.Product.rstbl.byml"@.len() == 41 && "RSDB/GameActorInfo.Product.rstbl.byml"@.len() == 37);
    reveal_strlit("RSDB/GameAnalyzedEventInfo.Product.rstbl.byml");
    assert("RSDB/GameEventMetadata.Product.rstbl.byml"@.len() == 41 && "RSDB/GameAnalyzedEventInfo.Product.rstbl.byml"@.len() == 45);
    reveal_strlit("RSDB/GameEventBaseSetting.Product.rstbl.byml");
    assert("RSDB/GameEventMetadata.Product.rstbl.byml"@.len() == 41 && "RSDB/GameEventBaseSetting.Product.rstbl.byml"@.len() == 44);
}

proof fn lemma_row_key_14()
    ensures
        row_key_spec("RSDB/LoadingTips.Product.rstbl.byml"@) == Some("__RowId"@),
{
    reveal_strlit("RSDB/LoadingTips.Product.rstbl.byml");
    reveal_strlit("RSDB/GameSafetySetting.Product.rstbl.byml");
    assert("RSDB/LoadingTips.Product.rstbl.byml"@.len() == 35 && "RSDB/GameSafetySetting.Product.rstbl.byml"@.len() == 41);
    reveal_strlit("RSDB/RumbleCall.Product.rstbl.byml");
    assert("RSDB/LoadingTips.Product.rstbl.byml"@.len() == 35 && "RSDB/RumbleCall.Product.rstbl.byml"@.len() == 34);
    reveal_strlit("RSDB/UIScreen.Product.rstbl.byml");
    assert("RSDB/LoadingTips.Product.rstbl.byml"@.len() == 35 && "RSDB/UIScreen.Product.rstbl.byml"@.len() == 32);
    reveal_strlit("RSDB/TagDef.Product.rstbl.byml");
    assert("RSDB/LoadingTips.Product.rstbl.byml"@.len() == 35 && "RSDB/TagDef.Product.rstbl.byml"@.len() == 30);
    reveal_strlit("RSDB/ActorInfo.Product.rstbl.byml");
    assert("RSDB/LoadingTips.Product.rstbl.byml"@.len() == 35 && "RSDB/ActorInfo.Product.rstbl.byml"@.len() == 33);
    reveal_strlit("RSDB/AttachmentActorInfo.Product.rstbl.byml");
    assert("RSDB/LoadingTips.Product.rstbl.byml"@.len() == 35 && "RSDB/AttachmentActorInfo.Product.rstbl.byml"@.len() == 43);
    reveal_strlit("RSDB/Challenge.Product.rstbl.byml");
    assert("RSDB/LoadingTips.Product.rstbl.byml"@.len() == 35 && "RSDB/Challenge.Product.rstbl.byml"@.len() == 33);
    reveal_strlit("RSDB/EnhancementMaterialInfo.Product.rstbl.byml");
    assert("RSDB/LoadingTips.Product.rstbl.byml"@.len() == 35 && "RSDB/EnhancementMaterialInfo.Product.rstbl.byml"@.len() == 47);
    reveal_strlit("RSDB/EventPlayEnvSetting.Product.rstbl.byml");
    assert("RSDB/LoadingTips.Product.rstbl.byml"@.len() == 35 && "RSDB/EventPlayEnvSetting.Product.rstbl.byml"@.len() == 43);
    reveal_strlit("RSDB/EventSetting.Product.rstbl.byml");
    assert("RSDB/LoadingTips.Product.rstbl.byml"@.len() == 35 && "RSDB/EventSetting.Product.rstbl.byml"@.len() == 36);
    reveal_strlit("RSDB/GameActorInfo.Product.rstbl.byml");
    assert("RSDB/LoadingTips.Product.rstbl.byml"@.len() == 35 && "RSDB/GameActorInfo.Product.rstbl.byml"@.len() == 37);
    reveal_strlit("RSDB/GameAnalyzedEventInfo.Product.rstbl.byml");
    assert("RSDB/LoadingTips.Product.rstbl.byml"@.len() == 35 && "RSDB/GameAnalyzedEventInfo.Product.rstbl.byml"@.len() == 45);
    reveal_strlit("RSDB/GameEventBaseSetting.Product.rstbl.byml");
    assert("RSDB/LoadingTips.Product.rstbl.byml"@.len() == 35 && "RSDB/GameEventBaseSetting.Product.rstbl.byml"@.len() == 44);
    reveal_strlit("RSDB/GameEventMetadata.Product.rstbl.byml");
    assert("RSDB/LoadingTips.Product.rstbl.byml"@.len() == 35 && "RSDB/GameEventMetadata.Product.rstbl.byml"@.len() == 41);
}

proof fn lemma_row_key_15()
    ensures
        row_key_spec("RSDB/Location.Product.rstbl.byml"@) == Some("__RowId"@),
{
    reveal_strlit("RSDB/Location.Product.rstbl.byml");
    reveal_strlit("RSDB/GameSafetySetting.Product.rstbl.byml");
    assert("RSDB/Location.Product.rstbl.byml"@.len() == 32 && "RSDB/GameSafetySetting.Product.rstbl.byml"@.len() == 41);
    reveal_strlit("RSDB/RumbleCall.Product.rstbl.byml");
    assert("RSDB/Location.Product.rstbl.byml"@.len() == 32 && "RSDB/RumbleCall.Product.rstbl.byml"@.len() == 34);
    reveal_strlit("RSDB/UIScreen.Product.rstbl.byml");
    assert("RSDB/Location.Product.rstbl.byml"@[5] == 'L' && "RSDB/UIScreen.Product.rstbl.byml"@[5] == 'U');
    lemma_paths_differ("RSDB/Location.Product.rstbl.byml"@, "RSDB/UIScreen.Product.rstbl.byml"@, 5);
    reveal_strlit("RSDB/TagDef.Product.rstbl.byml");
    assert("RSDB/Location.Product.rstbl.byml"@.len() == 32 && "RSDB/TagDef.Product.rstbl.byml"@.len() == 30);
    reveal_strlit("RSDB/ActorInfo.Product.rstbl.byml");
    assert("RSDB/Location.Product.rstbl.byml"@.len() == 32 && "RSDB/ActorInfo.Product.rstbl.byml"@.len() == 33);
    reveal_strlit("RSDB/AttachmentActorInfo.Product.rstbl.byml");
    assert("RSDB/Location.Product.rstbl.byml"@.len() == 32 && "RSDB/AttachmentActorInfo.Product.rstbl.byml"@.len() == 43);
    reveal_strlit("RSDB/Challenge.Product.rstbl.byml");
    assert("RSDB/Location.Product.rstbl.byml"@.len() == 32 && "RSDB/Challenge.Product.rstbl.byml"@.len() == 33);
    reveal_strlit("RSDB/EnhancementMaterialInfo.Product.rstbl.byml");
    assert("RSDB/Location.Product.rstbl.byml"@.len() == 32 && "RSDB/EnhancementMaterialInfo.Product.rstbl.byml"@.len() == 47);
    reveal_strlit("RSDB/EventPlayEnvSetting.Product.rstbl.byml");
    assert("RSDB/Location.Product.rstbl.byml"@.len() == 32 && "RSDB/EventPlayEnvSetting.Product.rstbl.byml"@.len() == 43);
    reveal_strlit("RSDB/EventSetting.Product.rstbl.byml");
    assert("RSDB/Location.Product.rstbl.byml"@.len() == 32 && "RSDB/EventSetting.Product.rstbl.byml"@.len() == 36);
    reveal_strlit("RSDB/GameActorInfo.Product.rstbl.byml");
    assert("RSDB/Location.Product.rstbl.byml"@.len() == 32 && "RSDB/GameActorInfo.Product.rstbl.byml"@.len() == 37);
    reveal_strlit("RSDB/GameAnalyzedEventInfo.Product.rstbl.byml");
    assert("RSDB/Location.Product.rstbl.byml"@.len() == 32 && "RSDB/GameAnalyzedEventInfo.Product.rstbl.byml"@.len() == 45);
    reveal_strlit("RSDB/GameEventBaseSetting.Product.rstbl.byml");
    assert("RSDB/Location.Product.rstbl.byml"@.len() == 32 && "RSDB/GameEventBaseSetting.Product.rstbl.byml"@.len() == 44);
    reveal_strlit("RSDB/GameEventMetadata.Product.rstbl.byml");
    assert("RSDB/Location.Product.rstbl.byml"@.len() == 32 && "RSDB/GameEventMetadata.Product.rstbl.byml"@.len() == 41);
    reveal_strlit("RSDB/LoadingTips.Product.rstbl.byml");
    assert("RSDB/Location.Product.rstbl.byml"@.len() == 32 && "RSDB/LoadingTips.Product.rstbl.byml"@.len() == 35);
}

proof fn lemma_row_key_16()
    ensures
        row_key_spec("RSDB/LocatorData.Product.rstbl.byml"@) == Some("__RowId"@),
{
    reveal_strlit("RSDB/LocatorData.Product.rstbl.byml");
    reveal_strlit("RSDB/GameSafetySetting.Product.rstbl.byml");
    assert("RSDB/LocatorData.Product.rstbl.byml"@.len() == 35 && "RSDB/GameSafetySetting.Product.rstbl.byml"@.len() == 41);
    reveal_strlit("RSDB/RumbleCall.Product.rstbl.byml");
    assert("RSDB/LocatorData.Product.rstbl.byml"@.len() == 35 && "RSDB/RumbleCall.Product.rstbl.byml"@.len() == 34);
    reveal_strlit("RSDB/UIScreen.Product.rstbl.byml");
    assert("RSDB/LocatorData.Product.rstbl.byml"@.len() == 35 && "RSDB/UIScreen.Product.rstbl.byml"@.len() == 32);
    reveal_strlit("RSDB/TagDef.Product.rstbl.byml");
    assert("RSDB/LocatorData.Product.rstbl.byml"@.len() == 35 && "RSDB/TagDef.Product.rstbl.byml"@.len() == 30);
    reveal_strlit("RSDB/ActorInfo.Product.rstbl.byml");
    assert("RSDB/LocatorData.Product.rstbl.byml"@.len() == 35 && "RSDB/ActorInfo.Product.rstbl.byml"@.len() == 33);
    reveal_strlit("RSDB/AttachmentActorInfo.Product.rstbl.byml");
    assert("RSDB/LocatorData.Product.rstbl.byml"@.len() == 35 && "RSDB/AttachmentActorInfo.Product.rstbl.byml"@.len() == 43);
    reveal_strlit("RSDB/Challenge.Product.rstbl.byml");
    assert("RSDB/LocatorData.Product.rstbl.byml"@.len() == 35 && "RSDB/Challenge.Product.rstbl.byml"@.len() == 33);
    reveal_strlit("RSDB/EnhancementMaterialInfo.Product.rstbl.byml");
    assert("RSDB/LocatorData.Product.rstbl.byml"@.len() == 35 && "RSDB/EnhancementMaterialInfo.Product.rstbl.byml"@.len() == 47);
    reveal_strlit("RSDB/EventPlayEnvSetting.Product.rstbl.byml");
    assert("RSDB/LocatorData.Product.rstbl.byml"@.len() == 35 && "RSDB/EventPlayEnvSetting.Product.rstbl.byml"@.len() == 43);
    reveal_strlit("RSDB/EventSetting.Product.rstbl.byml");
    assert("RSDB/LocatorData.Product.rstbl.byml"@.len() == 35 && "RSDB/EventSetting.Product.rstbl.byml"@.len() == 36);
    reveal_strlit("RSDB/GameActorInfo.Product.rstbl.byml");
    assert("RSDB/LocatorData.Product.rstbl.byml"@.len() == 35 && "RSDB/GameActorInfo.Product.rstbl.byml"@.len() == 37);
    reveal_strlit("RSDB/GameAnalyzedEventInfo.Product.rstbl.byml");
    assert("RSDB/LocatorData.Product.rstbl.byml"@.len() == 35 && "RSDB/GameAnalyzedEventInfo.Product.rstbl.byml"@.len() == 45);
    reveal_strlit("RSDB/GameEventBaseSetting.Product.rstbl.byml");
    assert("RSDB/LocatorData.Product.rstbl.byml"@.len() == 35 && "RSDB/GameEventBaseSetting.Product.rstbl.byml"@.len() == 44);
    reveal_strlit("RSDB/GameEventMetadata.Product.rstbl.byml");
    assert("RSDB/LocatorData.Product.rstbl.byml"@.len() == 35 && "RSDB/GameEventMetadata.Product.rstbl.byml"@.len() == 41);
    reveal_strlit("RSDB/LoadingTips.Product.rstbl.byml");
    assert("RSDB/LocatorData.Product.rstbl.byml"@[7] == 'c' && "RSDB/LoadingTips.Product.rstbl.byml"@[7] == 'a');
    lemma_paths_differ("RSDB/LocatorData.Product.rstbl.byml"@, "RSDB/LoadingTips.Product.rstbl.byml"@, 7);
    reveal_strlit("RSDB/Location.Product.rstbl.byml");
    assert("RSDB/LocatorData.Product.rstbl.byml"@.len() == 35 && "RSDB/Location.Product.rstbl.byml"@.len() == 32);
}

proof fn lemma_row_key_17()
    ensures
        row_key_spec("RSDB/PouchActorInfo.Product.rstbl.byml"@) == Some("__RowId"@),
{
    reveal_strlit("RSDB/PouchActorInfo.Product.rstbl.byml");
    reveal_strlit("RSDB/GameSafetySetting.Product.rstbl.byml");
    assert("RSDB/PouchActorInfo.Product.rstbl.byml"@.len() == 38 && "RSDB/GameSafetySetting.Product.rstbl.byml"@.len() == 41);
    reveal_strlit("RSDB/RumbleCall.Product.rstbl.byml");
    assert("RSDB/PouchActorInfo.Product.rstbl.byml"@.len() == 38 && "RSDB/RumbleCall.Product.rstbl.byml"@.len() == 34);
    reveal_strlit("RSDB/UIScreen.Product.rstbl.byml");
    assert("RSDB/PouchActorInfo.Product.rstbl.byml"@.len() == 38 && "RSDB/UIScreen.Product.rstbl.byml"@.len() == 32);
    reveal_strlit("RSDB/TagDef.Product.rstbl.byml");
    assert("RSDB/PouchActorInfo.Product.rstbl.byml"@.len() == 38 && "RSDB/TagDef.Product.rstbl.byml"@.len() == 30);
    reveal_strlit("RSDB/ActorInfo.Product.rstbl.byml");
    assert("RSDB/PouchActorInfo.Product.rstbl.byml"@.len() == 38 && "RSDB/ActorInfo.Product.rstbl.byml"@.len() == 33);
    reveal_strlit("RSDB/AttachmentActorInfo.Product.rstbl.byml");
    assert("RSDB/PouchActorInfo.Product.rstbl.byml"@.len() == 38 && "RSDB/AttachmentActorInfo.Product.rstbl.byml"@.len() == 43);
    reveal_strlit("RSDB/Challenge.Product.rstbl.byml");
    assert("RSDB/PouchActorInfo.Product.rstbl.byml"@.len() == 38 && "RSDB/Challenge.Product.rstbl.byml"@.len() == 33);
    reveal_strlit("RSDB/EnhancementMaterialInfo.Product.rstbl.byml");
    assert("RSDB/PouchActorInfo.Product.rstbl.byml"@.len() == 38 && "RSDB/EnhancementMaterialInfo.Product.rstbl.byml"@.len() == 47);
    reveal_strlit("RSDB/EventPlayEnvSetting.Product.rstbl.byml");
    assert("RSDB/PouchActorInfo.Product.rstbl.byml"@.len() == 38 && "RSDB/EventPlayEnvSetting.Product.rstbl.byml"@.len() == 43);
    reveal_strlit("RSDB/EventSetting.Product.rstbl.byml");
    assert("RSDB/PouchActorInfo.Product.rstbl.byml"@.len() == 38 && "RSDB/EventSetting.Product.rstbl.byml"@.len() == 36);
    reveal_strlit("RSDB/GameActorInfo.Product.rstbl.byml");
    assert("RSDB/PouchActorInfo.Product.rstbl.byml"@.len() == 38 && "RSDB/GameActorInfo.Product.rstbl.byml"@.len() == 37);
    reveal_strlit("RSDB/GameAnalyzedEventInfo.Product.rstbl.byml");
    assert("RSDB/PouchActorInfo.Product.rstbl.byml"@.len() == 38 && "RSDB/GameAnalyzedEventInfo.Product.rstbl.byml"@.len() == 45);
    reveal_strlit("RSDB/GameEventBaseSetting.Product.rstbl.byml");
    assert("RSDB/PouchActorInfo.Product.rstbl.byml"@.len() == 38 && "RSDB/GameEventBaseSetting.Product.rstbl.byml"@.len() == 44);
    reveal_strlit("RSDB/GameEventMetadata.Product.rstbl.byml");
    assert("RSDB/PouchActorInfo.Product.rstbl.byml"@.len() == 38 && "RSDB/GameEventMetadata.Product.rstbl.byml"@.len() == 41);
    reveal_strlit("RSDB/LoadingTips.Product.rstbl.byml");
    assert("RSDB/PouchActorInfo.Product.rstbl.byml"@.len() == 38 && "RSDB/LoadingTips.Product.rstbl.byml"@.len() == 35);
    reveal_strlit("RSDB/Location.Product.rstbl.byml");
    assert("RSDB/PouchActorInfo.Product.rstbl.byml"@.len() == 38 && "RSDB/Location.Product.rstbl.byml"@.len() == 32);
    reveal_strlit("RSDB/LocatorData.Product.rstbl.byml");
    assert("RSDB/PouchActorInfo.Product.rstbl.byml"@.len() == 38 && "RSDB/LocatorData.Product.rstbl.byml"@.len() == 35);
}

proof fn lemma_row_key_18()
    ensures
        row_key_spec("RSDB/XLinkPropertyTable.Product.rstbl.byml"@) == Some("__RowId"@),
{
    reveal_strlit("RSDB/XLinkPropertyTable.Product.rstbl.byml");
    reveal_strlit("RSDB/GameSafetySetting.Product.rstbl.byml");
    assert("RSDB/XLinkPropertyTable.Product.rstbl.byml"@.len() == 42 && "RSDB/GameSafetySetting.Product.rstbl.byml"@.len() == 41);
    reveal_strlit("RSDB/RumbleCall.Product.rstbl.byml");
    assert("RSDB/XLinkPropertyTable.Product.rstbl.byml"@.len() == 42 && "RSDB/RumbleCall.Product.rstbl.byml"@.len() == 34);
    reveal_strlit("RSDB/UIScreen.Product.rstbl.byml");
    assert("RSDB/XLinkPropertyTable.Product.rstbl.byml"@.len() == 42 && "RSDB/UIScreen.Product.rstbl.byml"@.len() == 32);
    reveal_strlit("RSDB/TagDef.Product.rstbl.byml");
    assert("RSDB/XLinkPropertyTable.Product.rstbl.byml"@.len() == 42 && "RSDB/TagDef.Product.rstbl.byml"@.len() == 30);
    reveal_strlit("RSDB/ActorInfo.Product.rstbl.byml");
    assert("RSDB/XLinkPropertyTable.Product.rstbl.byml"@.len() == 42 && "RSDB/ActorInfo.Product.rstbl.byml"@.len() == 33);
    reveal_strlit("RSDB/AttachmentActorInfo.Product.rstbl.byml");
    assert("RSDB/XLinkPropertyTable.Product.rstbl.byml"@.len() == 42 && "RSDB/AttachmentActorInfo.Product.rstbl.byml"@.len() == 43);
    reveal_strlit("RSDB/Challenge.Product.rstbl.byml");
    assert("RSDB/XLinkPropertyTable.Product.rstbl.byml"@.len() == 42 && "RSDB/Challenge.Product.rstbl.byml"@.len() == 33);
    reveal_strlit("RSDB/EnhancementMaterialInfo.Product.rstbl.byml");
    assert("RSDB/XLinkPropertyTable.Product.rstbl.byml"@.len() == 42 && "RSDB/EnhancementMaterialInfo.Product.rstbl.byml"@.len() == 47);
    reveal_strlit("RSDB/EventPlayEnvSetting.Product.rstbl.byml");
    assert("RSDB/XLinkPropertyTable.Product.rstbl.byml"@.len() == 42 && "RSDB/EventPlayEnvSetting.Product.rstbl.byml"@.len() == 43);
    reveal_strlit("RSDB/EventSetting.Product.rstbl.byml");
    assert("RSDB/XLinkPropertyTable.Product.rstbl.byml"@.len() == 42 && "RSDB/EventSetting.Product.rstbl.byml"@.len() == 36);
    reveal_strlit("RSDB/GameActorInfo.Product.rstbl.byml");
    assert("RSDB/XLinkPropertyTable.Product.rstbl.byml"@.len() == 42 && "RSDB/GameActorInfo.Product.rstbl.byml"@.len() == 37);
    reveal_strlit("RSDB/GameAnalyzedEventInfo.Product.rstbl.byml");
    assert("RSDB/XLinkPropertyTable.Product.rstbl.byml"@.len() == 42 && "RSDB/GameAnalyzedEventInfo.Product.rstbl.byml"@.len() == 45);
    reveal_strlit("RSDB/GameEventBaseSetting.Product.rstbl.byml");
    assert("RSDB/XLinkPropertyTable.Product.rstbl.byml"@.len() == 42 && "RSDB/GameEventBaseSetting.Product.rstbl.byml"@.len() == 44);
    reveal_strlit("RSDB/GameEventMetadata.Product.rstbl.byml");
    assert("RSDB/XLinkPropertyTable.Product.rstbl.byml"@.len() == 42 && "RSDB/GameEventMetadata.Product.rstbl.byml"@.len() == 41);
    reveal_strlit("RSDB/LoadingTips.Product.rstbl.byml");
    assert("RSDB/XLinkPropertyTable.Product.rstbl.byml"@.len() == 42 && "RSDB/LoadingTips.Product.rstbl.byml"@.len() == 35);
    reveal_strlit("RSDB/Location.Product.rstbl.byml");
    assert("RSDB/XLinkPropertyTable.Product.rstbl.byml"@.len() == 42 && "RSDB/Location.Product.rstbl.byml"@.len() == 32);
    reveal_strlit("RSDB/LocatorData.Product.rstbl.byml");
    assert("RSDB/XLinkPropertyTable.Product.rstbl.byml"@.len() == 42 && "RSDB/LocatorData.Product.rstbl.byml"@.len() == 35);
    reveal_strlit("RSDB/PouchActorInfo.Product.rstbl.byml");
    assert("RSDB/XLinkPropertyTable.Product.rstbl.byml"@.len() == 42 && "RSDB/PouchActorInfo.Product.rstbl.byml"@.len() == 38);
}

proof fn lemma_row_key_19()
    ensures
        row_key_spec("RSDB/XLinkPropertyTableList.Product.rstbl.byml"@) == Some("__RowId"@),
{
    reveal_strlit("RSDB/XLinkPropertyTableList.Product.rstbl.byml");
    reveal_strlit("RSDB/GameSafetySetting.Product.rstbl.byml");
    assert("RSDB/XLinkPropertyTableList.Product.rstbl.byml"@.len() == 46 && "RSDB/GameSafetySetting.Product.rstbl.byml"@.len() == 41);
    reveal_strlit("RSDB/RumbleCall.Product.rstbl.byml");
    assert("RSDB/XLinkPropertyTableList.Product.rstbl.byml"@.len() == 46 && "RSDB/RumbleCall.Product.rstbl.byml"@.len() == 34);
    reveal_strlit("RSDB/UIScreen.Product.rstbl.byml");
    assert("RSDB/XLinkPropertyTableList.Product.rstbl.byml"@.len() == 46 && "RSDB/UIScreen.Product.rstbl.byml"@.len() == 32);
    reveal_strlit("RSDB/TagDef.Product.rstbl.byml");
    assert("RSDB/XLinkPropertyTableList.Product.rstbl.byml"@.len() == 46 && "RSDB/TagDef.Product.rstbl.byml"@.len() == 30);
    reveal_strlit("RSDB/ActorInfo.Product.rstbl.byml");
    assert("RSDB/XLinkPropertyTableList.Product.rstbl.byml"@.len() == 46 && "RSDB/ActorInfo.Product.rstbl.byml"@.len() == 33);
    reveal_strlit("RSDB/AttachmentActorInfo.Product.rstbl.byml");
    assert("RSDB/XLinkPropertyTableList.Product.rstbl.byml"@.len() == 46 && "RSDB/AttachmentActorInfo.Product.rstbl.byml"@.len() == 43);
    reveal_strlit("RSDB/Challenge.Product.rstbl.byml");
    assert("RSDB/XLinkPropertyTableList.Product.rstbl.byml"@.len() == 46 && "RSDB/Challenge.Product.rstbl.byml"@.len() == 33);
    reveal_strlit("RSDB/EnhancementMaterialInfo.Product.rstbl.byml");
    assert("RSDB/XLinkPropertyTableList.Product.rstbl.byml"@.len() == 46 && "RSDB/EnhancementMaterialInfo.Product.rstbl.byml"@.len() == 47);
    reveal_strlit("RSDB/EventPlayEnvSetting.Product.rstbl.byml");
    assert("RSDB/XLinkPropertyTableList.Product.rstbl.byml"@.len() == 46 && "RSDB/EventPlayEnvSetting.Product.rstbl.byml"@.len() == 43);
    reveal_strlit("RSDB/EventSetting.Product.rstbl.byml");
    assert("RSDB/XLinkPropertyTableList.Product.rstbl.byml"@.len() == 46 && "RSDB/EventSetting.Product.rstbl.byml"@.len() == 36);
    reveal_strlit("RSDB/GameActorInfo.Product.rstbl.byml");
    assert("RSDB/XLinkPropertyTableList.Product.rstbl.byml"@.len() == 46 && "RSDB/GameActorInfo.Product.rstbl.byml"@.len() == 37);
    reveal_strlit("RSDB/GameAnalyzedEventInfo.Product.rstbl.byml");
    assert("RSDB/XLinkPropertyTableList.Product.rstbl.byml"@.len() == 46 && "RSDB/GameAnalyzedEventInfo.Product.rstbl.byml"@.len() == 45);
    reveal_strlit("RSDB/GameEventBaseSetting.Product.rstbl.byml");
    assert("RSDB/XLinkPropertyTableList.Product.rstbl.byml"@.len() == 46 && "RSDB/GameEventBaseSetting.Product.rstbl.byml"@.len() == 44);
    reveal_strlit("RSDB/GameEventMetadata.Product.rstbl.byml");
    assert("RSDB/XLinkPropertyTableList.Product.rstbl.byml"@.len() == 46 && "RSDB/GameEventMetadata.Product.rstbl.byml"@.len() == 41);
    reveal_strlit("RSDB/LoadingTips.Product.rstbl.byml");
    assert("RSDB/XLinkPropertyTableList.Product.rstbl.byml"@.len() == 46 && "RSDB/LoadingTips.Product.rstbl.byml"@.len() == 35);
    reveal_strlit("RSDB/Location.Product.rstbl.byml");
    assert("RSDB/XLinkPropertyTableList.Product.rstbl.byml"@.len() == 46 && "RSDB/Location.Product.rstbl.byml"@.len() == 32);
    reveal_strlit("RSDB/LocatorData.Product.rstbl.byml");
    assert("RSDB/XLinkPropertyTableList.Product.rstbl.byml"@.len() == 46 && "RSDB/LocatorData.Product.rstbl.byml"@.len() == 35);
    reveal_strlit("RSDB/PouchActorInfo.Product.rstbl.byml");
    assert("RSDB/XLinkPropertyTableList.Product.rstbl.byml"@.len() == 46 && "RSDB/PouchActorInfo.Product.rstbl.byml"@.len() == 38);
    reveal_strlit("RSDB/XLinkPropertyTable.Product.rstbl.byml");
    assert("RSDB/XLinkPropertyTableList.Product.rstbl.byml"@.len() == 46 && "RSDB/XLinkPropertyTable.Product.rstbl.byml"@.len() == 42);
}

/// The RSDB tables merged row by row, each with the field its rows are
/// known by: `NameHash` for the game safety settings, `Name` for rumble
/// calls and UI screens, `FullTagId` for tag definitions, `__RowId` for the
/// other tables named here; every other file has none.
pub proof fn lemma_row_keys(c: Seq<char>)
    ensures
        row_key_spec("RSDB/GameSafetySetting.Product.rstbl.byml"@) == Some("NameHash"@),
        row_key_spec("RSDB/RumbleCall.Product.rstbl.byml"@) == Some("Name"@),
        row_key_spec("RSDB/UIScreen.Product.rstbl.byml"@) == Some("Name"@),
        row_key_spec("RSDB/TagDef.Product.rstbl.byml"@) == Some("FullTagId"@),
        row_key_spec("RSDB/ActorInfo.Product.rstbl.byml"@) == Some("__RowId"@),
        row_key_spec("RSDB/AttachmentActorInfo.Product.rstbl.byml"@) == Some("__RowId"@),
        row_key_spec("RSDB/Challenge.Product.rstbl.byml"@) == Some("__RowId"@),
        row_key_spec("RSDB/EnhancementMaterialInfo.Product.rstbl.byml"@) == Some("__RowId"@),
        row_key_spec("RSDB/EventPlayEnvSetting.Product.rstbl.byml"@) == Some("__RowId"@),
        row_key_spec("RSDB/EventSetting.Product.rstbl.byml"@) == Some("__RowId"@),
        row_key_spec("RSDB/GameActorInfo.Product.rstbl.byml"@) == Some("__RowId"@),
        row_key_spec("RSDB/GameAnalyzedEventInfo.Product.rstbl.byml"@) == Some("__RowId"@),
        row_key_spec("RSDB/GameEventBaseSetting.Product.rstbl.byml"@) == Some("__RowId"@),
        row_key_spec("RSDB/GameEventMetadata.Product.rstbl.byml"@) == Some("__RowId"@),
        row_key_spec("RSDB/LoadingTips.Product.rstbl.byml"@) == Some("__RowId"@),
        row_key_spec("RSDB/Location.Product.rstbl.byml"@) == Some("__RowId"@),
        row_key_spec("RSDB/LocatorData.Product.rstbl.byml"@) == Some("__RowId"@),
        row_key_spec("RSDB/PouchActorInfo.Product.rstbl.byml"@) == Some("__RowId"@),
        row_key_spec("RSDB/XLinkPropertyTable.Product.rstbl.byml"@) == Some("__RowId"@),
        row_key_spec("RSDB/XLinkPropertyTableList.Product.rstbl.byml"@) == Some("__RowId"@),
        c != "RSDB/GameSafetySetting.Product.rstbl.byml"@ && c != "RSDB/RumbleCall.Product.rstbl.byml"@ && c != "RSDB/UIScreen.Product.rstbl.byml"@ && c != "RSDB/TagDef.Product.rstbl.byml"@ && c != "RSDB/ActorInfo.Product.rstbl.byml"@ && c != "RSDB/AttachmentActorInfo.Product.rstbl.byml"@ && c != "RSDB/Challenge.Product.rstbl.byml"@ && c != "RSDB/EnhancementMaterialInfo.Product.rstbl.byml"@ && c != "RSDB/EventPlayEnvSetting.Product.rstbl.byml"@ && c != "RSDB/EventSetting.Product.rstbl.byml"@ && c != "RSDB/GameActorInfo.Product.rstbl.byml"@ && c != "RSDB/GameAnalyzedEventInfo.Product.rstbl.byml"@ && c != "RSDB/GameEventBaseSetting.Product.rstbl.byml"@ && c != "RSDB/GameEventMetadata.Product.rstbl.byml"@ && c != "RSDB/LoadingTips.Product.rstbl.byml"@ && c != "RSDB/Location.Product.rstbl.byml"@ && c != "RSDB/LocatorData.Product.rstbl.byml"@ && c != "RSDB/PouchActorInfo.Product.rstbl.byml"@ && c != "RSDB/XLinkPropertyTable.Product.rstbl.byml"@ && c != "RSDB/XLinkPropertyTableList.Product.rstbl.byml"@ ==> row_key_spec(c) is None,
{
    lemma_row_key_0();
    lemma_row_key_1();
    lemma_row_key_2();
    lemma_row_key_3();
    lemma_row_key_4();
    lemma_row_key_5();
    lemma_row_key_6();
    lemma_row_key_7();
    lemma_row_key_8();
    lemma_row_key_9();
    lemma_row_key_10();
    lemma_row_key_11();
    lemma_row_key_12();
    lemma_row_key_13();
    lemma_row_key_14();
    lemma_row_key_15();
    lemma_row_key_16();
    lemma_row_key_17();
    lemma_row_key_18();
    lemma_row_key_19();
}

} // verus!
