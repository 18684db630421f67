//! TKMM's canonical file names.
//!
//! A canonical name is a romfs path stripped of what varies between game
//! versions and packaging: the compression suffix (".zs", ".mc") and the
//! product version (`Foo.Product.121.byml` → `Foo.Product.byml`,
//! `Bar.100.bfevfl` → `Bar.bfevfl`). Changelogs are keyed by it, so a mod made
//! for one game version still lines up with another.

use vstd::prelude::*;

use crate::tkcl::attributes::{
    HAS_MC_EXTENSION, HAS_ZS_EXTENSION, IS_PRODUCT_FILE,
};
use crate::text::{
    chars_of, ends_with, ends_with_ignore_case, eq_ignore_case, has_suffix_ignore_case,
    has_suffix_lit, is_ignore_case, last_index_of, lemma_last_index_of, lemma_parse_i32_range,
    parse_i32, parse_i32_spec, rfind_char, slice_of, split_once, split_once_char, string_of, trim,
    trim_chars,
};

verus! {


#[derive(Debug, Clone, PartialEq, Eq)]
pub struct CanonicalPath {
    pub canonical: String,
    /// The version found in the name, or -1.
    pub file_version: i32,
    pub attributes: u32,
}

/// What the scan of a name has worked out so far.
pub struct Scan {
    pub chars: Seq<char>,
    pub i: int,
    pub size: int,
    pub skipping: bool,
    pub version: int,
    pub attributes: u32,
    /// False once the name's length would have gone below zero.
    pub ok: bool,
}

/// `Some(start..start + 3)` read as a number, spaces around it allowed.
pub open spec fn version_at(orig: Seq<char>, start: int) -> Option<int> {
    if start + 3 > orig.len() {
        None
    } else {
        parse_i32_spec(trim(orig.subrange(start, start + 3)))
    }
}

/// `text` found at `start` in `s`.
pub open spec fn text_at(s: Seq<char>, start: int, text: Seq<char>) -> bool {
    start + text.len() <= s.len() && s.subrange(start, start + text.len()) == text
}

/// One step of the scan, at `st.i`.
pub open spec fn scan_step(orig: Seq<char>, is_pchtxt: bool, is_txtg: bool, st: Scan) -> Scan {
    let slot = st.i;
    let mut_st = if orig[st.i] == '.' && !is_pchtxt {
        let remaining = st.size - st.i;
        if remaining > 2 && text_at(orig, st.i, ".1"@) && !is_txtg {
            let v = version_at(orig, st.i + 1);
            Scan {
                attributes: st.attributes | IS_PRODUCT_FILE,
                size: st.size - 4,
                ok: st.ok && st.size >= 4,
                version: if v is Some {
                    v->0
                } else {
                    st.version
                },
                skipping: st.skipping || v is Some,
                ..st
            }
        } else if remaining > 8 && text_at(orig, st.i, ".Product"@) {
            let v = version_at(orig, st.i + 9);
            Scan {
                attributes: st.attributes | IS_PRODUCT_FILE,
                size: st.size - 4,
                i: st.i + 8,
                version: if v is Some {
                    v->0
                } else {
                    -1
                },
                skipping: true,
                ..st
            }
        } else {
            st
        }
    } else {
        st
    };
    let value = if mut_st.skipping {
        if mut_st.i + 4 < orig.len() {
            orig[mut_st.i + 4]
        } else {
            '\0'
        }
    } else {
        orig[slot]
    };
    let value = if value == '\\' {
        '/'
    } else {
        value
    };
    Scan { chars: mut_st.chars.update(slot, value), i: mut_st.i + 1, ..mut_st }
}

/// The scan from `st` to its end.
pub open spec fn scan(orig: Seq<char>, is_pchtxt: bool, is_txtg: bool, st: Scan) -> Scan
    decreases orig.len() - st.i,
{
    if st.ok && 0 <= st.i < st.size && st.size <= orig.len() {
        scan(orig, is_pchtxt, is_txtg, scan_step(orig, is_pchtxt, is_txtg, st))
    } else {
        st
    }
}

/// The name without its compression suffix, and the attributes that says.
pub open spec fn strip_compression(path: Seq<char>) -> (Seq<char>, u32) {
    if path.len() >= 3 && path.skip(path.len() - 3) == ".zs"@ {
        (path.take(path.len() - 3), HAS_ZS_EXTENSION)
    } else if path.len() >= 3 && path.skip(path.len() - 3) == ".mc"@ {
        (path.take(path.len() - 3), HAS_MC_EXTENSION)
    } else {
        (path, 0)
    }
}

/// The scan of `path` once done.
pub open spec fn canonical_scan(path: Seq<char>) -> Scan {
    let (orig, attributes) = strip_compression(path);
    let is_pchtxt = ends_with_ignore_case(orig, ".pchtxt"@);
    let is_txtg = ends_with(orig, ".txtg"@);
    scan(
        orig,
        is_pchtxt,
        is_txtg,
        Scan {
            chars: orig,
            i: 0,
            size: orig.len() as int,
            skipping: false,
            version: -1,
            attributes,
            ok: true,
        },
    )
}

/// Names whose product version would be read past their start (a name such
/// as ".1x"): TKMM's reading of them fails.
pub open spec fn canonical_ok(path: Seq<char>) -> bool {
    canonical_scan(path).ok
}

/// `get_canonical(path)`: the name, version and attributes.
pub open spec fn canonical_spec(path: Seq<char>) -> (Seq<char>, int, u32) {
    let st = canonical_scan(path);
    let size = if st.size < st.chars.len() {
        st.size
    } else {
        st.chars.len() as int
    };
    let start = if st.chars.len() > 0 && st.chars[0] == '/' {
        1int
    } else {
        0int
    };
    let from = if start < size {
        start
    } else {
        size
    };
    (st.chars.subrange(from, size), st.version, st.attributes)
}

proof fn lemma_scan_invariant(orig: Seq<char>, p: bool, t: bool, st: Scan)
    requires
        st.chars.len() == orig.len(),
        0 <= st.i,
        -0x8000_0000 <= st.version <= 0x7fff_ffff,
        st.ok ==> st.size <= orig.len(),
        st.ok ==> st.size >= 0,
    ensures
        ({
            let r = scan(orig, p, t, st);
            &&& r.chars.len() == orig.len()
            &&& -0x8000_0000 <= r.version <= 0x7fff_ffff
            &&& r.ok ==> 0 <= r.size <= orig.len()
        }),
    decreases orig.len() - st.i,
{
    if st.ok && 0 <= st.i < st.size && st.size <= orig.len() {
        let n = scan_step(orig, p, t, st);
        lemma_version_range(orig, st.i + 1);
        lemma_version_range(orig, st.i + 9);
        lemma_scan_invariant(orig, p, t, n);
    }
}

proof fn lemma_version_range(orig: Seq<char>, start: int)
    ensures
        version_at(orig, start) matches Some(v) ==> -0x8000_0000 <= v <= 0x7fff_ffff,
{
    if start + 3 <= orig.len() {
        lemma_parse_i32_range(trim(orig.subrange(start, start + 3)));
    }
}

/// The canonical name of a game path, quirks included, so names match what
/// TKMM stores in `.tkcl` files byte for byte.
pub fn get_canonical(path: &str) -> (r: CanonicalPath)
    requires
        canonical_ok(path@),
    ensures
        (r.canonical@, r.file_version as int, r.attributes) == canonical_spec(path@),
{
    match try_canonical(path) {
        Some(p) => p,
        None => {
            assert(false);
            CanonicalPath { canonical: String::new(), file_version: -1, attributes: 0 }
        },
    }
}

/// The canonical name of a game path, or `None` for a name TKMM cannot read
/// (its product version would be read before its start).
pub fn try_canonical(path: &str) -> (r: Option<CanonicalPath>)
    ensures
        r is Some <==> canonical_ok(path@),
        r matches Some(p) ==> (p.canonical@, p.file_version as int, p.attributes) == canonical_spec(path@),
{
    let chars = chars_of(path);
    proof {
        reveal_strlit(".zs");
        reveal_strlit(".mc");
    }
    let mut attributes: u32 = 0;
    let mut size: usize = chars.len();
    if chars.len() >= 3 {
        if has_suffix_lit(chars.as_slice(), ".zs") {
            attributes = HAS_ZS_EXTENSION;
            size = size - 3;
        } else if has_suffix_lit(chars.as_slice(), ".mc") {
            attributes = HAS_MC_EXTENSION;
            size = size - 3;
        }
    }
    let span = size;
    let orig = slice_of(chars.as_slice(), 0, span);
    let ghost o = orig@;
    assert(o == strip_compression(path@).0 && attributes == strip_compression(path@).1) by {
        assert(path@.subrange(0, path@.len() as int) =~= path@);
    }
    let mut canonical = slice_of(chars.as_slice(), 0, span);
    let pch = chars_of(".pchtxt");
    let is_pchtxt = has_suffix_ignore_case(orig.as_slice(), pch.as_slice());
    let is_txtg = has_suffix_lit(orig.as_slice(), ".txtg");
    let mut skipping = false;
    let mut version: i32 = -1;
    let mut i: usize = 0;
    let ghost start = Scan {
        chars: o,
        i: 0,
        size: o.len() as int,
        skipping: false,
        version: -1,
        attributes,
        ok: true,
    };
    assert(canonical_scan(path@) == scan(o, is_pchtxt, is_txtg, start));
    while i < size
        invariant
            orig@ == o,
            o.len() == span,
            canonical@.len() == span,
            size <= span,
            canonical_scan(path@) == scan(o, is_pchtxt, is_txtg, start),
            scan(o, is_pchtxt, is_txtg, start) == scan(
                o,
                is_pchtxt,
                is_txtg,
                Scan {
                    chars: canonical@,
                    i: i as int,
                    size: size as int,
                    skipping,
                    version: version as int,
                    attributes,
                    ok: true,
                },
            ),
        decreases span - i,
    {
        let ghost st = Scan {
            chars: canonical@,
            i: i as int,
            size: size as int,
            skipping,
            version: version as int,
            attributes,
            ok: true,
        };
        let slot = i;
        if orig[i] == '.' && !is_pchtxt {
            let remaining = size - i;
            let at_one = i + 1 < span && orig[i + 1] == '1';
            let at_product = text_at_exec(orig.as_slice(), i, ".Product");
            if remaining > 2 && at_one && !is_txtg {
                assert(text_at(o, i as int, ".1"@)) by {
                    reveal_strlit(".1");
                    assert(o.subrange(i as int, i + 2) =~= ".1"@);
                }
                attributes = attributes | IS_PRODUCT_FILE;
                if size < 4 {
                    proof {
                        lemma_not_ok(o, is_pchtxt, is_txtg, st);
                        assert(!canonical_ok(path@));
                    }
                    return None;
                }
                size = size - 4;
                if let Some(v) = version_at_exec(orig.as_slice(), i + 1) {
                    version = v;
                    skipping = true;
                }
            } else if remaining > 8 && at_product {
                proof {
                    if text_at(o, i as int, ".1"@) {
                        reveal_strlit(".1");
                        assert(o.subrange(i as int, i + 2)[1] == '1');
                    }
                }
                attributes = attributes | IS_PRODUCT_FILE;
                size = size - 4;
                i = i + 8;
                version = match version_at_exec(orig.as_slice(), i + 1) {
                    Some(v) => v,
                    None => -1,
                };
                skipping = true;
            } else {
                proof {
                    if text_at(o, i as int, ".1"@) && remaining > 2 && !is_txtg {
                        reveal_strlit(".1");
                        assert(o.subrange(i as int, i + 2)[1] == '1');
                    }
                }
            }
        }
        let mut value = if skipping {
            if i < span && span - i > 4 {
                orig[i + 4]
            } else {
                '\0'
            }
        } else {
            orig[slot]
        };
        if value == '\\' {
            value = '/';
        }
        canonical.set(slot, value);
        i = i + 1;
        assert(scan(o, is_pchtxt, is_txtg, st) == scan(
            o,
            is_pchtxt,
            is_txtg,
            scan_step(o, is_pchtxt, is_txtg, st),
        ));
        assert(scan_step(o, is_pchtxt, is_txtg, st) == Scan {
            chars: canonical@,
            i: i as int,
            size: size as int,
            skipping,
            version: version as int,
            attributes,
            ok: true,
        });
    }
    proof {
        lemma_scan_invariant(o, is_pchtxt, is_txtg, start);
    }
    let end = if size < canonical.len() {
        size
    } else {
        canonical.len()
    };
    let first: usize = if canonical.len() > 0 && canonical[0] == '/' {
        1
    } else {
        0
    };
    let from = if first < end {
        first
    } else {
        end
    };
    let text = slice_of(canonical.as_slice(), from, end);
    Some(CanonicalPath { canonical: string_of(text.as_slice()), file_version: version, attributes })
}

proof fn lemma_not_ok(o: Seq<char>, p: bool, t: bool, st: Scan)
    requires
        st.ok,
        0 <= st.i < st.size,
        st.size <= o.len(),
        st.size < 4,
        o[st.i] == '.',
        !p,
        !t,
        st.size - st.i > 2,
        text_at(o, st.i, ".1"@),
        st.chars.len() == o.len(),
    ensures
        !scan(o, p, t, st).ok,
{
    let n = scan_step(o, p, t, st);
    assert(!n.ok);
    assert(scan(o, p, t, n) == n);
    assert(scan(o, p, t, st) == scan(o, p, t, n));
}

fn text_at_exec(s: &[char], start: usize, text: &str) -> (r: bool)
    requires
        start <= s.len(),
    ensures
        r == text_at(s@, start as int, text@),
{
    let t = chars_of(text);
    if t.len() > s.len() - start {
        return false;
    }
    let part = slice_of(s, start, start + t.len());
    crate::text::chars_eq(part.as_slice(), t.as_slice())
}

fn version_at_exec(s: &[char], start: usize) -> (r: Option<i32>)
    requires
        start <= s.len(),
    ensures
        match r {
            Some(v) => version_at(s@, start as int) == Some(v as int),
            None => version_at(s@, start as int) is None,
        },
{
    if s.len() - start < 3 {
        return None;
    }
    let digits = slice_of(s, start, start + 3);
    let t = trim_chars(digits.as_slice());
    parse_i32(t.as_slice())
}

/// Which part of a mod a path belongs to.
#[derive(Debug, Clone, Copy, PartialEq, Eq)]
pub enum Root {
    Romfs,
    Exefs,
    Cheats,
    Extras,
}

/// Backslashes turned into slashes.
pub open spec fn forward_slashes(s: Seq<char>) -> Seq<char> {
    s.map_values(|c: char| if c == '\\' { '/' } else { c })
}

/// Every leading slash removed.
pub open spec fn trim_slashes(s: Seq<char>) -> Seq<char>
    decreases s.len(),
{
    if s.len() > 0 && s[0] == '/' {
        trim_slashes(s.skip(1))
    } else {
        s
    }
}

pub open spec fn root_of(name: Seq<char>) -> Option<Root> {
    if eq_ignore_case(name, "romfs"@) {
        Some(Root::Romfs)
    } else if eq_ignore_case(name, "exefs"@) {
        Some(Root::Exefs)
    } else if eq_ignore_case(name, "cheats"@) {
        Some(Root::Cheats)
    } else if eq_ignore_case(name, "extras"@) {
        Some(Root::Extras)
    } else {
        None
    }
}

/// A mod-relative path split into its root and the rest.
pub open spec fn mod_path_parts(relative: Seq<char>) -> Option<(Root, Seq<char>)> {
    match split_once(trim_slashes(forward_slashes(relative)), '/') {
        None => None,
        Some((first, rest)) => match root_of(first) {
            None => None,
            Some(root) => if rest.len() == 0 {
                None
            } else {
                Some((root, rest))
            },
        },
    }
}

/// A mod-relative path split into its root and the rest.
pub fn split_mod_path(relative: &str) -> (r: Option<(Root, String)>)
    ensures
        match mod_path_parts(relative@) {
            None => r is None,
            Some((root, rest)) => r matches Some((rr, p)) && rr == root && p@ == rest,
        },
{
    let chars = chars_of(relative);
    let mut fixed: Vec<char> = Vec::new();
    let mut i: usize = 0;
    while i < chars.len()
        invariant
            i <= chars.len(),
            chars@ == relative@,
            fixed@ == forward_slashes(chars@.take(i as int)),
        decreases chars.len() - i,
    {
        let c = chars[i];
        fixed.push(
            if c == '\\' {
                '/'
            } else {
                c
            },
        );
        i = i + 1;
        assert(fixed@ =~= forward_slashes(chars@.take(i as int)));
    }
    assert(chars@.take(chars.len() as int) =~= chars@);
    let mut start: usize = 0;
    assert(fixed@.skip(0) =~= fixed@);
    while start < fixed.len() && fixed[start] == '/'
        invariant
            start <= fixed.len(),
            trim_slashes(fixed@) == trim_slashes(fixed@.skip(start as int)),
        decreases fixed.len() - start,
    {
        assert(fixed@.skip(start as int).skip(1) =~= fixed@.skip(start + 1));
        start = start + 1;
    }
    let trimmed = slice_of(fixed.as_slice(), start, fixed.len());
    assert(trimmed@ == fixed@.skip(start as int));
    let (first, rest) = match split_once_char(trimmed.as_slice(), '/') {
        Some(parts) => parts,
        None => return None,
    };
    let f = first.as_slice();
    let root = if is_ignore_case(f, "romfs") {
        Root::Romfs
    } else if is_ignore_case(f, "exefs") {
        Root::Exefs
    } else if is_ignore_case(f, "cheats") {
        Root::Cheats
    } else if is_ignore_case(f, "extras") {
        Root::Extras
    } else {
        return None;
    };
    if rest.len() == 0 {
        return None;
    }
    Some((root, string_of(rest.as_slice())))
}

/// Splits "romfs/Pack/Foo.pack.zs" into its root and canonical name;
/// `None` for anything outside the four roots.
pub fn from_mod_path(relative: &str) -> (r: Option<(Root, CanonicalPath)>)
    requires
        mod_path_parts(relative@) matches Some((_, rest)) ==> canonical_ok(rest),
    ensures
        match mod_path_parts(relative@) {
            None => r is None,
            Some((root, rest)) => r matches Some((rr, p)) && rr == root && (
            p.canonical@,
            p.file_version as int,
            p.attributes,
            ) == canonical_spec(rest),
        },
{
    match split_mod_path(relative) {
        None => None,
        Some((root, rest)) => Some((root, get_canonical(rest.as_str()))),
    }
}

/// The extension TKMM switches on: everything from the last dot of the file
/// name.
pub open spec fn extension_spec(canonical: Seq<char>) -> Seq<char> {
    let slash = last_index_of(canonical, '/');
    let name = canonical.skip(slash + 1);
    let dot = last_index_of(name, '.');
    if dot < 0 {
        Seq::empty()
    } else {
        name.skip(dot)
    }
}

pub fn extension_chars(canonical: &[char]) -> (r: Vec<char>)
    ensures
        r@ == extension_spec(canonical@),
{
    proof {
        lemma_last_index_of(canonical@, '/');
    }
    let from = match rfind_char(canonical, '/') {
        Some(i) => {
            assert(i < canonical.len());
            i + 1
        },
        None => 0,
    };
    let name = slice_of(canonical, from, canonical.len());
    assert(name@ == canonical@.skip(last_index_of(canonical@, '/') + 1));
    proof {
        lemma_last_index_of(name@, '.');
    }
    match rfind_char(name.as_slice(), '.') {
        Some(d) => slice_of(name.as_slice(), d, name.len()),
        None => Vec::new(),
    }
}

/// The extension TKMM switches on: everything from the last dot of the file
/// name.
pub fn extension(canonical: &str) -> (r: String)
    ensures
        r@ == extension_spec(canonical@),
{
    let chars = chars_of(canonical);
    let e = extension_chars(chars.as_slice());
    string_of(e.as_slice())
}

} // verus!
