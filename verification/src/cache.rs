//! Changelogs worked out for folder mods, kept on the SD card.
//!
//! Working out what a folder mod changes means reading every file it ships and
//! the vanilla files they replace, which is the slow part of a merge on the
//! console. The result only depends on the mod's files and the game version,
//! so it is stored once: the changelog index in TKMM's binary layout, the
//! changelog files concatenated in one blob, and the whole files the mod
//! ships referenced by path rather than copied. This module writes and reads
//! the index of that store; the files are the caller's.

use vstd::prelude::*;
use vstd::utf8::encode_utf8;

use crate::mods::{
    mixed, DirEntry, Fingerprint, FNV_OFFSET,
};
use crate::text::{
    chars_of, decimal_text, join, hex_text, is_alnum, is_alnum_char, lacks, lines, lines_of,
    parse_u64_max, parse_unsigned, plain_line, push_char, push_str, push_unsigned, signed_text,
    split, split_chars, starts_with, string_of, terminated,
};

verus! {

/// Bumped whenever the changelog builders change what they produce.
pub const BUILDER_VERSION: u32 = 1;

pub const CHANGELOG_FILE: &'static str = "changelog.bin";

pub const DATA_FILE: &'static str = "data.bin";

pub const INDEX_FILE: &'static str = "index.tsv";

// --- names in the index --------------------------------------------------------------------

/// How one character of a name is written in the index.
pub open spec fn escape_char(c: char) -> Seq<char> {
    if c == '\\' {
        seq!['\\', '\\']
    } else if c == '\t' {
        seq!['\\', 't']
    } else if c == '\n' {
        seq!['\\', 'n']
    } else {
        seq![c]
    }
}

/// A name as the index holds it: backslashes doubled, tabs and line breaks
/// written `\t` and `\n`.
pub open spec fn escape_spec(s: Seq<char>) -> Seq<char>
    decreases s.len(),
{
    if s.len() == 0 {
        s
    } else {
        escape_spec(s.drop_last()) + escape_char(s.last())
    }
}

pub open spec fn unescaped(c: char) -> char {
    if c == 't' {
        '\t'
    } else if c == 'n' {
        '\n'
    } else {
        c
    }
}

/// A name read from the index: `\t`, `\n` and a backslash before any other
/// character undone; a backslash ending the text dropped.
pub open spec fn unescape_spec(s: Seq<char>) -> Seq<char>
    decreases s.len(),
{
    if s.len() == 0 {
        s
    } else if s[0] != '\\' {
        seq![s[0]] + unescape_spec(s.skip(1))
    } else if s.len() == 1 {
        Seq::empty()
    } else {
        seq![unescaped(s[1])] + unescape_spec(s.skip(2))
    }
}

pub fn escape(text: &str) -> (r: String)
    ensures
        r@ == escape_spec(text@),
{
    let s = chars_of(text);
    let mut out = String::new();
    let mut i: usize = 0;
    while i < s.len()
        invariant
            i <= s.len(),
            s@ == text@,
            out@ == escape_spec(s@.take(i as int)),
        decreases s.len() - i,
    {
        let c = s[i];
        if c == '\\' {
            push_char(&mut out, '\\');
            push_char(&mut out, '\\');
        } else if c == '\t' {
            push_char(&mut out, '\\');
            push_char(&mut out, 't');
        } else if c == '\n' {
            push_char(&mut out, '\\');
            push_char(&mut out, 'n');
        } else {
            push_char(&mut out, c);
        }
        assert(s@.take(i + 1).drop_last() =~= s@.take(i as int));
        i = i + 1;
        assert(out@ =~= escape_spec(s@.take(i as int)));
    }
    assert(s@.take(s.len() as int) =~= s@);
    out
}

pub fn unescape(text: &str) -> (r: String)
    ensures
        r@ == unescape_spec(text@),
{
    let s = chars_of(text);
    let mut out = String::new();
    let mut i: usize = 0;
    assert(s@.skip(0) =~= s@);
    while i < s.len()
        invariant
            i <= s.len(),
            s@ == text@,
            out@ + unescape_spec(s@.skip(i as int)) == unescape_spec(s@),
        decreases s.len() - i,
    {
        let ghost rest = s@.skip(i as int);
        let ghost before = out@;
        let c = s[i];
        if c != '\\' {
            push_char(&mut out, c);
            assert(rest.skip(1) =~= s@.skip(i + 1));
            assert(out@ + unescape_spec(s@.skip(i + 1)) =~= before + unescape_spec(rest));
            i = i + 1;
        } else if i + 1 == s.len() {
            assert(s@.skip(i + 1) =~= Seq::<char>::empty());
            assert(out@ + unescape_spec(s@.skip(i + 1)) =~= before + unescape_spec(rest));
            i = i + 1;
        } else {
            let d = s[i + 1];
            let u = if d == 't' {
                '\t'
            } else if d == 'n' {
                '\n'
            } else {
                d
            };
            push_char(&mut out, u);
            assert(rest.skip(2) =~= s@.skip(i + 2));
            assert(out@ + unescape_spec(s@.skip(i + 2)) =~= before + unescape_spec(rest));
            i = i + 2;
        }
    }
    assert(unescape_spec(s@.skip(s.len() as int)) =~= Seq::<char>::empty());
    assert(out@ + Seq::<char>::empty() =~= out@);
    out
}

proof fn lemma_escape_front(s: Seq<char>)
    requires
        s.len() > 0,
    ensures
        escape_spec(s) == escape_char(s[0]) + escape_spec(s.skip(1)),
    decreases s.len(),
{
    if s.len() == 1 {
        assert(s.drop_last() =~= Seq::<char>::empty());
        assert(s.skip(1) =~= Seq::<char>::empty());
        assert(escape_spec(s.drop_last()) =~= Seq::<char>::empty());
        assert(s.last() == s[0]);
        assert(escape_spec(s) =~= escape_char(s[0]));
    } else {
        lemma_escape_front(s.drop_last());
        assert(s.drop_last().skip(1) =~= s.skip(1).drop_last());
        assert(s.skip(1).last() == s.last());
        assert(escape_spec(s) =~= escape_char(s[0]) + escape_spec(s.skip(1)));
    }
}

/// A name written to the index reads back as it was, whatever it holds.
pub proof fn lemma_escape_round_trip(s: Seq<char>)
    ensures
        unescape_spec(escape_spec(s)) == s,
    decreases s.len(),
{
    if s.len() > 0 {
        lemma_escape_front(s);
        lemma_escape_round_trip(s.skip(1));
        let e = escape_spec(s);
        let rest = escape_spec(s.skip(1));
        let c = s[0];
        if c == '\\' || c == '\t' || c == '\n' {
            assert(e.skip(2) =~= rest);
        } else {
            assert(e.skip(1) =~= rest);
        }
        assert(seq![c] + s.skip(1) =~= s);
    }
}

/// An escaped name holds no tab and no line break, and ends as the name
/// does unless that is with one of them or a backslash.
proof fn lemma_escape_lacks(s: Seq<char>, c: char)
    requires
        c == '\t' || c == '\n',
    ensures
        lacks(escape_spec(s), c),
        !(s.len() > 0 && s.last() == '\r') ==> !(escape_spec(s).len() > 0 && escape_spec(s).last()
            == '\r'),
    decreases s.len(),
{
    if s.len() > 0 {
        lemma_escape_lacks(s.drop_last(), c);
        let a = escape_spec(s.drop_last());
        let b = escape_char(s.last());
        assert forall|i: int| 0 <= i < (a + b).len() implies (a + b)[i] != c by {
            if i >= a.len() {
                assert((a + b)[i] == b[i - a.len()]);
            }
        }
    }
}

// --- the index -----------------------------------------------------------------------------

/// Where a stored changelog file is: a range of the blob, or a file of the
/// mod.
#[derive(Debug, Clone, PartialEq, Eq)]
pub enum Location {
    Blob { offset: u64, size: u64 },
    File(String),
}

pub enum LocationView {
    Blob { offset: u64, size: u64 },
    File(Seq<char>),
}

impl View for Location {
    type V = LocationView;

    open spec fn view(&self) -> LocationView {
        match self {
            Location::Blob { offset, size } => LocationView::Blob { offset: *offset, size: *size },
            Location::File(f) => LocationView::File(f@),
        }
    }
}

pub open spec fn entries_view(v: Seq<(String, Location)>) -> Seq<(Seq<char>, LocationView)> {
    v.map_values(|e: (String, Location)| (e.0@, e.1@))
}

pub open spec fn names_view(v: Seq<(String, u64)>) -> Seq<(Seq<char>, u64)> {
    v.map_values(|e: (String, u64)| (e.0@, e.1))
}

pub open spec fn links_view(v: Seq<(String, String)>) -> Seq<(Seq<char>, Seq<char>)> {
    v.map_values(|e: (String, String)| (e.0@, e.1@))
}

/// The bytes of the first files, one after the other in the blob.
pub open spec fn total(files: Seq<(Seq<char>, u64)>) -> int
    decreases files.len(),
{
    if files.len() == 0 {
        0
    } else {
        total(files.drop_last()) + files.last().1
    }
}

pub open spec fn blob_line(name: Seq<char>, offset: int, size: u64) -> Seq<char> {
    escape_spec(name) + "\tb\t"@ + decimal_text(offset as nat) + "\t"@ + decimal_text(size as nat)
}

pub open spec fn link_line(name: Seq<char>, file: Seq<char>) -> Seq<char> {
    escape_spec(name) + "\tf\t"@ + escape_spec(file)
}

/// The index lines of files stored in the blob, in order, with their sizes.
pub open spec fn blob_lines(files: Seq<(Seq<char>, u64)>) -> Seq<Seq<char>>
    decreases files.len(),
{
    if files.len() == 0 {
        Seq::empty()
    } else {
        blob_lines(files.drop_last()).push(
            blob_line(files.last().0, total(files.drop_last()), files.last().1),
        )
    }
}

/// The index of a stored folder build: its files (name and size, in blob
/// order), then the whole files it references (name and path).
pub open spec fn index_text_spec(files: Seq<(Seq<char>, u64)>, links: Seq<(Seq<char>, Seq<char>)>) -> Seq<char> {
    terminated(
        blob_lines(files) + links.map_values(|l: (Seq<char>, Seq<char>)| link_line(l.0, l.1)),
    )
}

proof fn lemma_terminated_push(ls: Seq<Seq<char>>, l: Seq<char>)
    ensures
        terminated(ls.push(l)) == terminated(ls) + l + seq!['\n'],
{
    assert(ls.push(l).drop_last() =~= ls);
}

/// The index of a folder build: `files` holds the name and size of each file
/// written to the blob, in the order written; `links` the name and path of
/// each whole file referenced.
#[verifier::spinoff_prover]
#[verifier::rlimit(40)]
pub fn index_text(files: &Vec<(String, u64)>, links: &Vec<(String, String)>) -> (r: String)
    requires
        total(names_view(files@)) <= u64::MAX,
    ensures
        r@ == index_text_spec(names_view(files@), links_view(links@)),
{
    let ghost fv = names_view(files@);
    let ghost lv = links_view(links@);
    let mut out = String::new();
    let mut offset: u64 = 0;
    let mut i: usize = 0;
    while i < files.len()
        invariant
            i <= files.len(),
            fv == names_view(files@),
            total(fv) <= u64::MAX,
            offset == total(fv.take(i as int)),
            out@ == terminated(blob_lines(fv.take(i as int))),
        decreases files.len() - i,
    {
        proof {
            assert(fv.take(i + 1).drop_last() =~= fv.take(i as int));
            assert(fv[i as int] == (files@[i as int].0@, files@[i as int].1));
            lemma_total_prefix(fv, i + 1);
            lemma_terminated_push(
                blob_lines(fv.take(i as int)),
                blob_line(fv[i as int].0, offset as int, fv[i as int].1),
            );
        }
        let ghost before = out@;
        push_blob_line(&mut out, files[i].0.as_str(), offset, files[i].1);
        proof {
            let line = blob_line(fv[i as int].0, offset as int, fv[i as int].1);
            assert(fv.take(i + 1).last() == fv[i as int]);
            assert(blob_lines(fv.take(i + 1)) == blob_lines(fv.take(i as int)).push(line));
        }
        offset = offset + files[i].1;
        i = i + 1;
    }
    assert(fv.take(files.len() as int) =~= fv);
    let ghost head = blob_lines(fv);
    let mut k: usize = 0;
    while k < links.len()
        invariant
            k <= links.len(),
            lv == links_view(links@),
            out@ == terminated(
                head + lv.take(k as int).map_values(
                    |l: (Seq<char>, Seq<char>)| link_line(l.0, l.1),
                ),
            ),
        decreases links.len() - k,
    {
        proof {
            assert(lv[k as int] == (links@[k as int].0@, links@[k as int].1@));
            let before = head + lv.take(k as int).map_values(
                |l: (Seq<char>, Seq<char>)| link_line(l.0, l.1),
            );
            assert(head + lv.take(k + 1).map_values(|l: (Seq<char>, Seq<char>)| link_line(l.0, l.1))
                =~= before.push(link_line(lv[k as int].0, lv[k as int].1)));
            lemma_terminated_push(before, link_line(lv[k as int].0, lv[k as int].1));
        }
        push_link_line(&mut out, links[k].0.as_str(), links[k].1.as_str());
        k = k + 1;
    }
    assert(lv.take(links.len() as int) =~= lv);
    out
}

fn push_blob_line(out: &mut String, name: &str, offset: u64, size: u64)
    ensures
        final(out)@ == old(out)@ + blob_line(name@, offset as int, size) + seq!['\n'],
{
    proof {
        reveal_strlit("\tb\t");
        reveal_strlit("\t");
    }
    let ghost start = out@;
    let escaped = escape(name);
    push_str(out, escaped.as_str());
    push_str(out, "\tb\t");
    push_unsigned(out, offset);
    push_char(out, '\t');
    push_unsigned(out, size);
    push_char(out, '\n');
    assert(out@ =~= start + blob_line(name@, offset as int, size) + seq!['\n']);
}

fn push_link_line(out: &mut String, name: &str, file: &str)
    ensures
        final(out)@ == old(out)@ + link_line(name@, file@) + seq!['\n'],
{
    proof {
        reveal_strlit("\tf\t");
    }
    let ghost start = out@;
    let escaped = escape(name);
    push_str(out, escaped.as_str());
    push_str(out, "\tf\t");
    let target = escape(file);
    push_str(out, target.as_str());
    push_char(out, '\n');
    assert(out@ =~= start + link_line(name@, file@) + seq!['\n']);
}

proof fn lemma_total_prefix(fv: Seq<(Seq<char>, u64)>, n: int)
    requires
        0 <= n <= fv.len(),
        total(fv) <= u64::MAX,
    ensures
        total(fv.take(n)) <= total(fv),
        0 <= total(fv.take(n)),
    decreases fv.len() - n,
{
    lemma_total_nonneg(fv.take(n));
    if n < fv.len() {
        lemma_total_prefix(fv, n + 1);
        assert(fv.take(n + 1).drop_last() =~= fv.take(n));
    } else {
        assert(fv.take(n) =~= fv);
    }
}

proof fn lemma_total_nonneg(fv: Seq<(Seq<char>, u64)>)
    ensures
        total(fv) >= 0,
    decreases fv.len(),
{
    if fv.len() > 0 {
        lemma_total_nonneg(fv.drop_last());
    }
}

// --- reading the index back ----------------------------------------------------------------

/// One line of the index; `None` for a line that is not one.
pub open spec fn index_entry(line: Seq<char>) -> Option<(Seq<char>, LocationView)> {
    let fs = split(line, '\t');
    if fs.len() == 4 && fs[1] == "b"@ {
        match (parse_unsigned(fs[2], u64::MAX as int), parse_unsigned(fs[3], u64::MAX as int)) {
            (Some(offset), Some(size)) => Some(
                (unescape_spec(fs[0]), LocationView::Blob { offset: offset as u64, size: size as u64 }),
            ),
            _ => None,
        }
    } else if fs.len() == 3 && fs[1] == "f"@ {
        Some((unescape_spec(fs[0]), LocationView::File(unescape_spec(fs[2]))))
    } else {
        None
    }
}

/// The entries of an index, in order; `None` when a line is not one.
pub open spec fn index_entries(ls: Seq<Seq<char>>) -> Option<Seq<(Seq<char>, LocationView)>>
    decreases ls.len(),
{
    if ls.len() == 0 {
        Some(Seq::empty())
    } else {
        match (index_entries(ls.drop_last()), index_entry(ls.last())) {
            (Some(r), Some(e)) => Some(r.push(e)),
            _ => None,
        }
    }
}

fn parse_entry(line: &[char]) -> (r: Option<(String, Location)>)
    ensures
        match r {
            Some(e) => index_entry(line@) == Some((e.0@, e.1@)),
            None => index_entry(line@) is None,
        },
{
    let fs = split_chars(line, '\t');
    let ghost fv = fs@.map_values(|p: Vec<char>| p@);
    proof {
        reveal_strlit("b");
        reveal_strlit("f");
    }
    if fs.len() == 4 && crate::text::is_lit(fs[1].as_slice(), "b") {
        assert(fv[1] == fs@[1]@);
        assert(fv[0] == fs@[0]@);
        assert(fv[2] == fs@[2]@);
        assert(fv[3] == fs@[3]@);
        let offset = match parse_u64_max(fs[2].as_slice(), u64::MAX) {
            Some(v) => v,
            None => return None,
        };
        let size = match parse_u64_max(fs[3].as_slice(), u64::MAX) {
            Some(v) => v,
            None => return None,
        };
        let name = unescape(string_of(fs[0].as_slice()).as_str());
        return Some((name, Location::Blob { offset, size }));
    }
    if fs.len() == 3 && crate::text::is_lit(fs[1].as_slice(), "f") {
        assert(fv[1] == fs@[1]@);
        assert(fv[0] == fs@[0]@);
        assert(fv[2] == fs@[2]@);
        let name = unescape(string_of(fs[0].as_slice()).as_str());
        let file = unescape(string_of(fs[2].as_slice()).as_str());
        return Some((name, Location::File(file)));
    }
    if fs.len() == 4 {
        assert(fv[1] == fs@[1]@);
    }
    if fs.len() == 3 {
        assert(fv[1] == fs@[1]@);
    }
    None
}

/// The entries of an index's text; `None` when a line is not one.
pub fn parse_index(text: &str) -> (r: Option<Vec<(String, Location)>>)
    ensures
        match r {
            Some(v) => index_entries(lines(text@)) == Some(entries_view(v@)),
            None => index_entries(lines(text@)) is None,
        },
{
    let ls = lines_of(chars_of(text).as_slice());
    let ghost lv = ls@.map_values(|l: Vec<char>| l@);
    let mut r: Vec<(String, Location)> = Vec::new();
    let mut i: usize = 0;
    while i < ls.len()
        invariant
            i <= ls.len(),
            lv == ls@.map_values(|l: Vec<char>| l@),
            lv == lines(text@),
            index_entries(lv.take(i as int)) == Some(entries_view(r@)),
        decreases ls.len() - i,
    {
        proof {
            assert(lv.take(i + 1).drop_last() =~= lv.take(i as int));
            assert(lv[i as int] == ls@[i as int]@);
        }
        match parse_entry(ls[i].as_slice()) {
            Some(e) => {
                let ghost before = entries_view(r@);
                r.push(e);
                assert(entries_view(r@) =~= before.push((e.0@, e.1@)));
            },
            None => {
                proof {
                    lemma_entries_fail(lv, i as int);
                }
                return None;
            },
        }
        i = i + 1;
    }
    assert(lv.take(ls.len() as int) =~= lv);
    Some(r)
}

proof fn lemma_entries_fail(lv: Seq<Seq<char>>, i: int)
    requires
        0 <= i < lv.len(),
        index_entry(lv[i]) is None,
    ensures
        index_entries(lv) is None,
    decreases lv.len(),
{
    if i < lv.len() - 1 {
        lemma_entries_fail(lv.drop_last(), i);
    }
}

// --- what is read back is what was written -----------------------------------------------

/// The entries a stored build's index holds: its files at their places in
/// the blob, then the whole files it references.
pub open spec fn blob_entries(files: Seq<(Seq<char>, u64)>) -> Seq<(Seq<char>, LocationView)>
    decreases files.len(),
{
    if files.len() == 0 {
        Seq::empty()
    } else {
        blob_entries(files.drop_last()).push(
            (
                files.last().0,
                LocationView::Blob { offset: total(files.drop_last()) as u64, size: files.last().1 },
            ),
        )
    }
}

pub open spec fn stored_entries(files: Seq<(Seq<char>, u64)>, links: Seq<(Seq<char>, Seq<char>)>) -> Seq<
    (Seq<char>, LocationView),
> {
    blob_entries(files) + links.map_values(
        |l: (Seq<char>, Seq<char>)| (l.0, LocationView::File(l.1)),
    )
}

proof fn lemma_join3(a: Seq<char>, b: Seq<char>, c: Seq<char>, t: Seq<char>)
    ensures
        join(seq![a, b, c], t) == a + t + b + t + c,
{
    let p1 = seq![a];
    let p2 = seq![a, b];
    let p3 = seq![a, b, c];
    assert(p3.drop_last() =~= p2);
    assert(p2.drop_last() =~= p1);
    assert(join(p1, t) == a);
    assert(join(p2, t) == a + t + b);
    assert(join(p3, t) == join(p2, t) + t + c);
}

proof fn lemma_join4(a: Seq<char>, b: Seq<char>, c: Seq<char>, d: Seq<char>, t: Seq<char>)
    ensures
        join(seq![a, b, c, d], t) == a + t + b + t + c + t + d,
{
    assert(seq![a, b, c, d].drop_last() =~= seq![a, b, c]);
    lemma_join3(a, b, c, t);
}

proof fn lemma_digits_lack(n: nat, c: char)
    requires
        c == '\t' || c == '\n' || c == '\r',
    ensures
        lacks(decimal_text(n), c),
        decimal_text(n).last() != '\r',
{
    crate::text::lemma_decimal_text(n);
    assert forall|i: int| 0 <= i < decimal_text(n).len() implies decimal_text(n)[i] != c by {
        assert(crate::text::is_digit(decimal_text(n)[i]));
    }
    assert(crate::text::is_digit(decimal_text(n)[decimal_text(n).len() - 1]));
}

proof fn lemma_lacks_concat(a: Seq<char>, b: Seq<char>, c: char)
    requires
        lacks(a, c),
        lacks(b, c),
    ensures
        lacks(a + b, c),
{
    assert forall|i: int| 0 <= i < (a + b).len() implies (a + b)[i] != c by {
        if i >= a.len() {
            assert((a + b)[i] == b[i - a.len()]);
        }
    }
}

proof fn lemma_blob_line(name: Seq<char>, offset: int, size: u64)
    requires
        0 <= offset <= u64::MAX,
    ensures
        plain_line(blob_line(name, offset, size)),
        index_entry(blob_line(name, offset, size)) == Some(
            (name, LocationView::Blob { offset: offset as u64, size }),
        ),
{
    reveal_strlit("\tb\t");
    reveal_strlit("\t");
    reveal_strlit("b");
    let e = escape_spec(name);
    let o = decimal_text(offset as nat);
    let z = decimal_text(size as nat);
    let line = blob_line(name, offset, size);
    lemma_join4(e, "b"@, o, z, seq!['\t']);
    assert(line =~= join(seq![e, "b"@, o, z], seq!['\t']));
    lemma_escape_lacks(name, '\t');
    lemma_escape_lacks(name, '\n');
    lemma_digits_lack(offset as nat, '\t');
    lemma_digits_lack(offset as nat, '\n');
    lemma_digits_lack(size as nat, '\t');
    lemma_digits_lack(size as nat, '\n');
    lemma_digits_lack(size as nat, '\r');
    let parts = seq![e, "b"@, o, z];
    assert forall|i: int| 0 <= i < parts.len() implies lacks(#[trigger] parts[i], '\t') by {}
    crate::text::lemma_split_join(parts, '\t');
    lemma_lacks_concat(e + "\tb\t"@, o, '\n');
    lemma_lacks_concat(e, "\tb\t"@, '\n');
    lemma_lacks_concat(e + "\tb\t"@ + o, "\t"@, '\n');
    lemma_lacks_concat(e + "\tb\t"@ + o + "\t"@, z, '\n');
    assert(line.last() == z.last());
    crate::text::lemma_parse_decimal_text(offset as nat, u64::MAX as int);
    crate::text::lemma_parse_decimal_text(size as nat, u64::MAX as int);
    lemma_escape_round_trip(name);
}

proof fn lemma_link_line(name: Seq<char>, file: Seq<char>)
    requires
        !(file.len() > 0 && file.last() == '\r'),
    ensures
        plain_line(link_line(name, file)),
        index_entry(link_line(name, file)) == Some((name, LocationView::File(file))),
{
    reveal_strlit("\tf\t");
    reveal_strlit("f");
    reveal_strlit("b");
    let e = escape_spec(name);
    let g = escape_spec(file);
    let line = link_line(name, file);
    lemma_join3(e, "f"@, g, seq!['\t']);
    assert(line =~= join(seq![e, "f"@, g], seq!['\t']));
    lemma_escape_lacks(name, '\t');
    lemma_escape_lacks(name, '\n');
    lemma_escape_lacks(file, '\t');
    lemma_escape_lacks(file, '\n');
    let parts = seq![e, "f"@, g];
    assert forall|i: int| 0 <= i < parts.len() implies lacks(#[trigger] parts[i], '\t') by {}
    crate::text::lemma_split_join(parts, '\t');
    lemma_lacks_concat(e, "\tf\t"@, '\n');
    lemma_lacks_concat(e + "\tf\t"@, g, '\n');
    if g.len() > 0 {
        assert(line.last() == g.last());
    } else {
        assert(line.last() == '\t');
    }
    assert("f"@[0] != "b"@[0]);
    assert("f"@ != "b"@);
    lemma_escape_round_trip(name);
    lemma_escape_round_trip(file);
}

proof fn lemma_entries_each(ls: Seq<Seq<char>>, es: Seq<(Seq<char>, LocationView)>)
    requires
        ls.len() == es.len(),
        forall|i: int| 0 <= i < ls.len() ==> index_entry(#[trigger] ls[i]) == Some(es[i]),
    ensures
        index_entries(ls) == Some(es),
    decreases ls.len(),
{
    if ls.len() == 0 {
        assert(es =~= Seq::<(Seq<char>, LocationView)>::empty());
    } else {
        assert forall|i: int| 0 <= i < ls.drop_last().len() implies index_entry(
            #[trigger] ls.drop_last()[i],
        ) == Some(es.drop_last()[i]) by {
            assert(ls.drop_last()[i] == ls[i]);
        }
        lemma_entries_each(ls.drop_last(), es.drop_last());
        assert(index_entry(ls[ls.len() - 1]) == Some(es[es.len() - 1]));
        assert(es.drop_last().push(es.last()) =~= es);
    }
}

proof fn lemma_blob_lines(files: Seq<(Seq<char>, u64)>)
    requires
        total(files) <= u64::MAX,
    ensures
        blob_lines(files).len() == files.len(),
        blob_entries(files).len() == files.len(),
        forall|i: int|
            0 <= i < files.len() ==> plain_line(#[trigger] blob_lines(files)[i]) && index_entry(
                blob_lines(files)[i],
            ) == Some(blob_entries(files)[i]),
    decreases files.len(),
{
    if files.len() > 0 {
        let front = files.drop_last();
        lemma_total_nonneg(front);
        lemma_blob_lines(front);
        lemma_blob_line(files.last().0, total(front), files.last().1);
        assert forall|i: int| 0 <= i < files.len() implies plain_line(#[trigger] blob_lines(files)[i])
            && index_entry(blob_lines(files)[i]) == Some(blob_entries(files)[i]) by {
            if i < front.len() {
                assert(blob_lines(files)[i] == blob_lines(front)[i]);
                assert(blob_entries(files)[i] == blob_entries(front)[i]);
            }
        }
    }
}

/// Reading back the index of a stored build gives where each of its files
/// is: the files written to the blob at their offsets, then the whole files
/// referenced (a path ending with a carriage return would lose it).
pub proof fn lemma_index_round_trip(files: Seq<(Seq<char>, u64)>, links: Seq<(Seq<char>, Seq<char>)>)
    requires
        total(files) <= u64::MAX,
        forall|i: int| 0 <= i < links.len() ==> !((#[trigger] links[i]).1.len() > 0 && links[i].1.last() == '\r'),
    ensures
        index_entries(lines(index_text_spec(files, links))) == Some(stored_entries(files, links)),
{
    lemma_blob_lines(files);
    let linked = links.map_values(|l: (Seq<char>, Seq<char>)| link_line(l.0, l.1));
    let ls = blob_lines(files) + linked;
    let es = stored_entries(files, links);
    assert forall|i: int| 0 <= i < ls.len() implies plain_line(#[trigger] ls[i]) && index_entry(ls[i])
        == Some(es[i]) by {
        if i < files.len() {
            assert(ls[i] == blob_lines(files)[i]);
            assert(es[i] == blob_entries(files)[i]);
        } else {
            let k = i - files.len();
            assert(ls[i] == linked[k]);
            lemma_link_line(links[k].0, links[k].1);
        }
    }
    crate::text::lemma_lines_terminated(ls);
    lemma_entries_each(ls, es);
}

// --- cache entries -------------------------------------------------------------------------

/// The characters a mod's name keeps in an entry's folder name.
pub open spec fn safe_char(c: char) -> char {
    if is_alnum(c) || c == '-' || c == '_' {
        c
    } else {
        '_'
    }
}

/// A mod's name as it starts its entries' folder names: ASCII letters,
/// digits, `-` and `_` kept, anything else `_`, at most 48 characters.
pub open spec fn safe_name(mod_name: Seq<char>) -> Seq<char> {
    let m = mod_name.map_values(|c: char| safe_char(c));
    if m.len() > 48 {
        m.take(48)
    } else {
        m
    }
}

pub open spec fn entry_name_spec(mod_name: Seq<char>, fingerprint: Seq<char>) -> Seq<char> {
    safe_name(mod_name) + "-"@ + fingerprint
}

/// Folder name for a mod's cache entry.
pub fn entry_name(mod_name: &str, fingerprint: &str) -> (r: String)
    ensures
        r@ == entry_name_spec(mod_name@, fingerprint@),
{
    let chars = chars_of(mod_name);
    let mut safe: Vec<char> = Vec::new();
    let mut i: usize = 0;
    while i < chars.len() && i < 48
        invariant
            i <= chars.len(),
            i <= 48,
            chars@ == mod_name@,
            safe@ == chars@.take(i as int).map_values(|c: char| safe_char(c)),
        decreases chars.len() - i,
    {
        let c = chars[i];
        safe.push(if is_alnum_char(c) || c == '-' || c == '_' { c } else { '_' });
        i = i + 1;
        assert(safe@ =~= chars@.take(i as int).map_values(|c: char| safe_char(c)));
    }
    proof {
        let m = mod_name@.map_values(|c: char| safe_char(c));
        if chars.len() > 48 {
            assert(safe@ =~= m.take(48));
        } else {
            assert(chars@.take(i as int) =~= chars@);
            assert(safe@ =~= m);
        }
        reveal_strlit("-");
    }
    let mut r = string_of(safe.as_slice());
    push_char(&mut r, '-');
    push_str(&mut r, fingerprint);
    r
}

/// The fingerprint a folder mod's cache entry is kept under: its content
/// fingerprint, the game version and the builders' version.
pub open spec fn changelog_key_spec(content: Seq<char>, game_version: i32) -> Seq<char> {
    hex_text(
        mixed(
            mixed(FNV_OFFSET, encode_utf8(content)),
            encode_utf8(signed_text(game_version as int) + " "@ + decimal_text(BUILDER_VERSION as nat)),
        ) as nat,
        16,
    )
}

/// The folder name of the cache entry of a folder mod called `mod_name`
/// with content fingerprint `content`, for `game_version`.
pub fn changelog_entry(mod_name: &str, content: &str, game_version: i32) -> (r: String)
    ensures
        r@ == entry_name_spec(mod_name@, changelog_key_spec(content@, game_version)),
{
    let mut fingerprint = Fingerprint::default();
    fingerprint.mix_str(content);
    let mut versions = String::new();
    crate::text::push_signed(&mut versions, game_version as i64);
    push_str(&mut versions, " ");
    push_unsigned(&mut versions, BUILDER_VERSION as u64);
    fingerprint.mix_str(versions.as_str());
    let key = fingerprint.finish();
    entry_name(mod_name, key.as_str())
}

/// An entry `prune` deletes: a folder of the same mod (its name starts the
/// same way and is as long), other than the one kept.
pub open spec fn is_stale(entry: DirEntry, mod_name: Seq<char>, keep: Seq<char>) -> bool {
    &&& entry.is_dir
    &&& starts_with(entry.name@, entry_name_spec(mod_name, Seq::empty()))
    &&& entry.name@ != keep
    &&& encode_utf8(entry.name@).len() == encode_utf8(keep).len()
}

pub fn is_stale_entry(entry: &DirEntry, mod_name: &str, keep: &str) -> (r: bool)
    ensures
        r == is_stale(*entry, mod_name@, keep@),
{
    if !entry.is_dir {
        return false;
    }
    let prefix = entry_name(mod_name, "");
    let name = chars_of(entry.name.as_str());
    let p = chars_of(prefix.as_str());
    proof {
        reveal_strlit("");
    }
    crate::text::has_prefix(name.as_slice(), p.as_slice()) && !crate::text::str_eq(entry.name.as_str(), keep)
        && entry.name.as_str().as_bytes().len() == keep.as_bytes().len()
}

} // verus!
