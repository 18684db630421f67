//! The small INI dialect of the settings files on the SD card.
//!
//! `key = value` lines, `[section]` headers (a section name may repeat: each
//! occurrence is its own section, in file order), `#` and `;` comments. Values
//! are single lines; `\n` and `\\` escapes let a description span lines.

use vstd::prelude::*;

use crate::text::{
    chars_eq_ignore_case, chars_of, eq_ignore_case, is_lit, join, join_strings, lines, lines_of,
    lower_chars, lower_seq, push_char, push_str, slice_of, split_once, split_once_char, string_of,
    trim, trim_chars, trim_start, trim_str,
};

verus! {

/// A `key = value` pair as characters.
pub type SpecEntry = (Seq<char>, Seq<char>);

pub open spec fn entries_view(entries: Seq<(String, String)>) -> Seq<SpecEntry> {
    entries.map_values(|e: (String, String)| (e.0@, e.1@))
}

#[derive(Debug, Clone, PartialEq, Eq)]
pub struct Section {
    /// Lowercased; "" for the lines before the first header.
    pub name: String,
    /// Keys keep their case (option group names are shown to users).
    pub entries: Vec<(String, String)>,
}

impl View for Section {
    type V = (Seq<char>, Seq<SpecEntry>);

    open spec fn view(&self) -> (Seq<char>, Seq<SpecEntry>) {
        (self.name@, entries_view(self.entries@))
    }
}

/// The value of the first entry named `key`, compared without case.
pub open spec fn lookup(entries: Seq<SpecEntry>, key: Seq<char>) -> Option<Seq<char>>
    decreases entries.len(),
{
    if entries.len() == 0 {
        None
    } else if eq_ignore_case(entries[0].0, key) {
        Some(entries[0].1)
    } else {
        lookup(entries.skip(1), key)
    }
}

/// The words `parse_bool` reads as true and as false.
pub open spec fn bool_word(value: Seq<char>) -> Option<bool> {
    let word = lower_seq(trim(value));
    if word == "1"@ || word == "true"@ || word == "yes"@ || word == "on"@ {
        Some(true)
    } else if word == "0"@ || word == "false"@ || word == "no"@ || word == "off"@ {
        Some(false)
    } else {
        None
    }
}

pub open spec fn parse_bool_spec(value: Seq<char>, fallback: bool) -> bool {
    match bool_word(value) {
        Some(b) => b,
        None => fallback,
    }
}

impl Section {
    /// The value of `key`, compared without case.
    pub fn get(&self, key: &str) -> (r: Option<&str>)
        ensures
            match lookup(self@.1, key@) {
                Some(v) => r matches Some(s) && s@ == v,
                None => r is None,
            },
    {
        let k = chars_of(key);
        let ghost es = self@.1;
        let mut i: usize = 0;
        assert(es.skip(0) =~= es);
        while i < self.entries.len()
            invariant
                i <= self.entries.len(),
                es == entries_view(self.entries@),
                k@ == key@,
                lookup(es, key@) == lookup(es.skip(i as int), key@),
            decreases self.entries.len() - i,
        {
            let name = chars_of(self.entries[i].0.as_str());
            assert(es[i as int] == (self.entries@[i as int].0@, self.entries@[i as int].1@));
            assert(es.skip(i as int)[0] == es[i as int]);
            if chars_eq_ignore_case(name.as_slice(), k.as_slice()) {
                return Some(self.entries[i].1.as_str());
            }
            assert(es.skip(i as int).skip(1) =~= es.skip(i + 1));
            i = i + 1;
        }
        None
    }

    pub fn get_bool(&self, key: &str, fallback: bool) -> (r: bool)
        ensures
            r == match lookup(self@.1, key@) {
                Some(v) => parse_bool_spec(v, fallback),
                None => fallback,
            },
    {
        match self.get(key) {
            Some(value) => parse_bool(value, fallback),
            None => fallback,
        }
    }
}

pub fn parse_bool(value: &str, fallback: bool) -> (r: bool)
    ensures
        r == parse_bool_spec(value@, fallback),
{
    let t = trim_str(value);
    let w = lower_chars(t.as_slice());
    let s = w.as_slice();
    if is_lit(s, "1") || is_lit(s, "true") || is_lit(s, "yes") || is_lit(s, "on") {
        true
    } else if is_lit(s, "0") || is_lit(s, "false") || is_lit(s, "no") || is_lit(s, "off") {
        false
    } else {
        fallback
    }
}

// --- escapes ----------------------------------------------------------------------

/// Every "\r\n" turned into "\n".
pub open spec fn crlf_to_lf(s: Seq<char>) -> Seq<char>
    decreases s.len(),
{
    if s.len() == 0 {
        s
    } else if s.len() >= 2 && s[0] == '\r' && s[1] == '\n' {
        crlf_to_lf(s.skip(1))
    } else {
        seq![s[0]] + crlf_to_lf(s.skip(1))
    }
}

/// How one character is written in a value.
pub open spec fn escape_char(c: char) -> Seq<char> {
    if c == '\\' {
        seq!['\\', '\\']
    } else if c == '\n' {
        seq!['\\', 'n']
    } else {
        seq![c]
    }
}

pub open spec fn escape_chars(s: Seq<char>) -> Seq<char>
    decreases s.len(),
{
    if s.len() == 0 {
        s
    } else {
        escape_chars(s.drop_last()) + escape_char(s.last())
    }
}

/// `escape`: backslashes doubled, line breaks (either kind) written `\n`.
pub open spec fn escape_spec(s: Seq<char>) -> Seq<char> {
    escape_chars(crlf_to_lf(s))
}

pub open spec fn unescape_spec(s: Seq<char>) -> Seq<char>
    decreases s.len(),
{
    if s.len() == 0 {
        s
    } else if s[0] != '\\' {
        seq![s[0]] + unescape_spec(s.skip(1))
    } else if s.len() == 1 {
        seq!['\\']
    } else if s[1] == 'n' {
        seq!['\n'] + unescape_spec(s.skip(2))
    } else if s[1] == '\\' {
        seq!['\\'] + unescape_spec(s.skip(2))
    } else {
        seq!['\\', s[1]] + unescape_spec(s.skip(2))
    }
}

fn crlf_chars(s: &[char]) -> (r: Vec<char>)
    ensures
        r@ == crlf_to_lf(s@),
{
    let mut out: Vec<char> = Vec::new();
    let mut i: usize = 0;
    assert(s@.skip(0) =~= s@);
    while i < s.len()
        invariant
            i <= s.len(),
            out@ + crlf_to_lf(s@.skip(i as int)) == crlf_to_lf(s@),
        decreases s.len() - i,
    {
        let ghost rest = s@.skip(i as int);
        assert(rest.skip(1) =~= s@.skip(i + 1));
        if i + 1 < s.len() && s[i] == '\r' && s[i + 1] == '\n' {
            assert(crlf_to_lf(rest) == crlf_to_lf(rest.skip(1)));
        } else {
            assert(crlf_to_lf(rest) == seq![s@[i as int]] + crlf_to_lf(rest.skip(1)));
            let ghost before = out@;
            out.push(s[i]);
            assert(out@ + crlf_to_lf(s@.skip(i + 1)) =~= before + (seq![s@[i as int]] + crlf_to_lf(
                rest.skip(1),
            )));
        }
        i = i + 1;
    }
    assert(crlf_to_lf(s@.skip(s.len() as int)) =~= Seq::<char>::empty());
    assert(out@ + Seq::<char>::empty() =~= out@);
    out
}

/// A value on one line.
pub fn escape(value: &str) -> (r: String)
    ensures
        r@ == escape_spec(value@),
{
    let v = chars_of(value);
    let s = crlf_chars(v.as_slice());
    let mut out = String::new();
    let mut i: usize = 0;
    while i < s.len()
        invariant
            i <= s.len(),
            out@ == escape_chars(s@.take(i as int)),
        decreases s.len() - i,
    {
        let c = s[i];
        if c == '\\' {
            push_char(&mut out, '\\');
            push_char(&mut out, '\\');
        } else if c == '\n' {
            push_char(&mut out, '\\');
            push_char(&mut out, 'n');
        } else {
            push_char(&mut out, c);
        }
        assert(s@.take(i + 1).drop_last() =~= s@.take(i as int));
        i = i + 1;
        assert(out@ =~= escape_chars(s@.take(i as int)));
    }
    assert(s@.take(s.len() as int) =~= s@);
    out
}

pub fn unescape(value: &str) -> (r: String)
    ensures
        r@ == unescape_spec(value@),
{
    let s = chars_of(value);
    let mut out = String::new();
    let mut i: usize = 0;
    assert(s@.skip(0) =~= s@);
    while i < s.len()
        invariant
            i <= s.len(),
            out@ + unescape_spec(s@.skip(i as int)) == unescape_spec(s@),
        decreases s.len() - i,
    {
        let ghost rest = s@.skip(i as int);
        let ghost before = out@;
        let c = s[i];
        if c != '\\' {
            push_char(&mut out, c);
            assert(rest.skip(1) =~= s@.skip(i + 1));
            assert(out@ + unescape_spec(s@.skip(i + 1)) =~= before + unescape_spec(rest));
            i = i + 1;
        } else if i + 1 == s.len() {
            push_char(&mut out, '\\');
            assert(s@.skip(i + 1) =~= Seq::<char>::empty());
            assert(out@ + unescape_spec(s@.skip(i + 1)) =~= before + unescape_spec(rest));
            i = i + 1;
        } else {
            let d = s[i + 1];
            if d == 'n' {
                push_char(&mut out, '\n');
            } else if d == '\\' {
                push_char(&mut out, '\\');
            } else {
                push_char(&mut out, '\\');
                push_char(&mut out, d);
            }
            assert(rest.skip(2) =~= s@.skip(i + 2));
            assert(out@ + unescape_spec(s@.skip(i + 2)) =~= before + unescape_spec(rest));
            i = i + 2;
        }
    }
    assert(unescape_spec(s@.skip(s.len() as int)) =~= Seq::<char>::empty());
    assert(out@ + Seq::<char>::empty() =~= out@);
    out
}

/// `s` holds no "\r\n" (which `escape` writes as a plain line break).
pub open spec fn no_crlf(s: Seq<char>) -> bool {
    forall|i: int| 0 <= i < s.len() - 1 ==> !(s[i] == '\r' && #[trigger] s[i + 1] == '\n')
}

proof fn lemma_crlf_identity(s: Seq<char>)
    requires
        no_crlf(s),
    ensures
        crlf_to_lf(s) == s,
    decreases s.len(),
{
    if s.len() > 0 {
        assert(no_crlf(s.skip(1))) by {
            assert forall|i: int| 0 <= i < s.skip(1).len() - 1 implies !(s.skip(1)[i] == '\r'
                && #[trigger] s.skip(1)[i + 1] == '\n') by {
                assert(s.skip(1)[i] == s[i + 1]);
                assert(s.skip(1)[i + 1] == s[i + 2]);
            }
        }
        lemma_crlf_identity(s.skip(1));
        if s.len() >= 2 {
            assert(!(s[0] == '\r' && s[1] == '\n'));
        }
        assert(seq![s[0]] + s.skip(1) =~= s);
    }
}

proof fn lemma_escape_front(s: Seq<char>)
    requires
        s.len() > 0,
    ensures
        escape_chars(s) == escape_char(s[0]) + escape_chars(s.skip(1)),
    decreases s.len(),
{
    if s.len() == 1 {
        assert(s.drop_last() =~= Seq::<char>::empty());
        assert(s.skip(1) =~= Seq::<char>::empty());
        assert(escape_chars(s) =~= escape_char(s[0]));
    } else {
        lemma_escape_front(s.drop_last());
        assert(s.drop_last().skip(1) =~= s.skip(1).drop_last());
        assert(s.skip(1).last() == s.last());
        assert(escape_chars(s) =~= escape_char(s[0]) + escape_chars(s.skip(1)));
    }
}

proof fn lemma_unescape_escape_chars(s: Seq<char>)
    ensures
        unescape_spec(escape_chars(s)) == s,
    decreases s.len(),
{
    if s.len() > 0 {
        lemma_escape_front(s);
        lemma_unescape_escape_chars(s.skip(1));
        let e = escape_chars(s);
        let rest = escape_chars(s.skip(1));
        let c = s[0];
        if c == '\\' || c == '\n' {
            assert(e.skip(2) =~= rest);
        } else {
            assert(e.skip(1) =~= rest);
        }
        assert(seq![c] + s.skip(1) =~= s);
    }
}

/// Reading back a value written by `escape` gives the value, line breaks
/// included (a "\r\n" comes back as "\n", the one change `escape` makes).
pub proof fn lemma_escape_round_trip(s: Seq<char>)
    ensures
        unescape_spec(escape_spec(s)) == crlf_to_lf(s),
        no_crlf(s) ==> unescape_spec(escape_spec(s)) == s,
{
    if no_crlf(s) {
        lemma_crlf_identity(s);
    }
    lemma_unescape_escape_chars(crlf_to_lf(s));
}

// --- parsing ---------------------------------------------------------------------------

/// Every leading byte order mark removed (`trim_start_matches('\u{feff}')`).
pub open spec fn strip_bom(s: Seq<char>) -> Seq<char>
    decreases s.len(),
{
    if s.len() > 0 && s[0] == '\u{feff}' {
        strip_bom(s.skip(1))
    } else {
        s
    }
}

pub open spec fn is_comment(line: Seq<char>) -> bool {
    line.len() > 0 && (line[0] == '#' || line[0] == ';')
}

pub open spec fn is_header(line: Seq<char>) -> bool {
    line.len() > 0 && line[0] == '[' && line.last() == ']'
}

/// The section name of a header line.
pub open spec fn header_name(line: Seq<char>) -> Seq<char> {
    lower_seq(trim(line.subrange(1, line.len() - 1)))
}

/// Sections after reading `lines` (a file's lines, in order).
pub open spec fn parse_lines(lines: Seq<Seq<char>>) -> Seq<(Seq<char>, Seq<SpecEntry>)>
    decreases lines.len(),
{
    if lines.len() == 0 {
        seq![(Seq::<char>::empty(), Seq::<SpecEntry>::empty())]
    } else {
        let acc = parse_lines(lines.drop_last());
        let line = strip_bom(trim(lines.last()));
        if line.len() == 0 || is_comment(line) {
            acc
        } else if is_header(line) {
            acc.push((header_name(line), Seq::empty()))
        } else {
            match split_once(line, '=') {
                None => acc,
                Some((key, value)) => {
                    let last = acc.last();
                    acc.update(
                        acc.len() - 1,
                        (last.0, last.1.push((trim(key), unescape_spec(trim(value))))),
                    )
                },
            }
        }
    }
}

/// Every section of a file, the unnamed one first (possibly empty).
pub open spec fn parse_spec(contents: Seq<char>) -> Seq<(Seq<char>, Seq<SpecEntry>)> {
    parse_lines(lines(contents))
}

pub proof fn lemma_parse_lines_len(lines: Seq<Seq<char>>)
    ensures
        parse_lines(lines).len() >= 1,
    decreases lines.len(),
{
    if lines.len() > 0 {
        lemma_parse_lines_len(lines.drop_last());
    }
}

fn strip_bom_index(s: &[char]) -> (i: usize)
    ensures
        i <= s.len(),
        strip_bom(s@) == s@.skip(i as int),
{
    let mut i: usize = 0;
    assert(s@.skip(0) =~= s@);
    while i < s.len() && s[i] == '\u{feff}'
        invariant
            i <= s.len(),
            strip_bom(s@) == strip_bom(s@.skip(i as int)),
        decreases s.len() - i,
    {
        assert(s@.skip(i as int).skip(1) =~= s@.skip(i + 1));
        i = i + 1;
    }
    i
}

/// A line with its spaces and byte order marks taken off.
pub fn clean_line(line: &[char]) -> (r: Vec<char>)
    ensures
        r@ == strip_bom(trim(line@)),
{
    let t = trim_chars(line);
    let b = strip_bom_index(t.as_slice());
    slice_of(t.as_slice(), b, t.len())
}

/// Every section, the unnamed one first (possibly empty).
pub fn parse(contents: &str) -> (r: Vec<Section>)
    ensures
        r@.map_values(|s: Section| s@) == parse_spec(contents@),
{
    let text = chars_of(contents);
    let all = lines_of(text.as_slice());
    let ghost ls = lines(contents@);
    let mut sections: Vec<Section> = Vec::new();
    sections.push(Section { name: String::new(), entries: Vec::new() });
    let mut i: usize = 0;
    assert(ls.take(0) =~= Seq::<Seq<char>>::empty());
    assert(sections@[0]@.1 =~= Seq::<SpecEntry>::empty());
    assert(sections@.map_values(|s: Section| s@) =~= parse_lines(ls.take(0)));
    while i < all.len()
        invariant
            i <= all.len(),
            all@.map_values(|v: Vec<char>| v@) == ls,
            sections@.map_values(|s: Section| s@) == parse_lines(ls.take(i as int)),
        decreases all.len() - i,
    {
        proof {
            lemma_parse_lines_len(ls.take(i as int));
        }
        let ghost before = sections@.map_values(|s: Section| s@);
        assert(ls.take(i + 1).drop_last() =~= ls.take(i as int));
        assert(ls.take(i + 1).last() == all@[i as int]@);
        let line = clean_line(all[i].as_slice());
        let ls_ = line.as_slice();
        if line.len() == 0 || line[0] == '#' || line[0] == ';' {
        } else if line[0] == '[' && line[line.len() - 1] == ']' {
            let inner = slice_of(ls_, 1, line.len() - 1);
            let name = lower_chars(trim_chars(inner.as_slice()).as_slice());
            sections.push(Section { name: string_of(name.as_slice()), entries: Vec::new() });
            assert(sections@.last()@.1 =~= Seq::<SpecEntry>::empty());
            assert(inner@ == line@.subrange(1, line@.len() - 1));
            assert(sections@.map_values(|s: Section| s@) =~= before.push(
                (header_name(line@), Seq::empty()),
            ));
        } else {
            match split_once_char(ls_, '=') {
                None => {},
                Some((key, value)) => {
                    let k = trim_chars(key.as_slice());
                    let v = trim_chars(value.as_slice());
                    let vs = string_of(v.as_slice());
                    let entry = (string_of(k.as_slice()), unescape(vs.as_str()));
                    let last = sections.len() - 1;
                    let mut section = sections.remove(last);
                    let ghost old_entries = section.entries@;
                    section.entries.push(entry);
                    assert(entries_view(section.entries@) =~= entries_view(old_entries).push(
                        (k@, unescape_spec(v@)),
                    ));
                    sections.push(section);
                    assert(sections@.map_values(|s: Section| s@) =~= before.update(
                        before.len() - 1,
                        (before.last().0, before.last().1.push((k@, unescape_spec(v@)))),
                    ));
                },
            }
        }
        i = i + 1;
    }
    assert(ls.take(all.len() as int) =~= ls);
    sections
}

// --- setting a value ---------------------------------------------------------------------

/// The line that sets `key`.
pub open spec fn line_for(key: Seq<char>, value: Seq<char>) -> Seq<char> {
    key + " = "@ + escape_spec(value)
}

/// The trimmed key a `key = value` line sets.
pub open spec fn key_of(line: Seq<char>) -> Option<Seq<char>> {
    match split_once(line, '=') {
        Some((k, _)) => Some(trim(k)),
        None => None,
    }
}

/// `set_value` after reading `lines`: the lines written so far, whether the
/// key has been set, whether the lines read are still in the unnamed
/// section.
pub open spec fn set_lines(lines: Seq<Seq<char>>, key: Seq<char>, value: Seq<char>) -> (
    Seq<Seq<char>>,
    bool,
    bool,
)
    decreases lines.len(),
{
    if lines.len() == 0 {
        (Seq::empty(), false, true)
    } else {
        let (out, done, in_unnamed) = set_lines(lines.drop_last(), key, value);
        let line = lines.last();
        let trimmed = trim(line);
        if is_header(trimmed) {
            if in_unnamed && !done {
                (out.push(line_for(key, value)).push(Seq::empty()).push(line), true, false)
            } else {
                (out.push(line), done, false)
            }
        } else if in_unnamed && !done && !is_comment(trimmed) && key_of(trimmed) is Some
            && eq_ignore_case(key_of(trimmed)->0, key) {
            (out.push(line_for(key_of(trimmed)->0, value)), true, in_unnamed)
        } else {
            (out.push(line), done, in_unnamed)
        }
    }
}

/// `contents` with `key` set in the unnamed section.
pub open spec fn set_value_spec(contents: Seq<char>, key: Seq<char>, value: Seq<char>) -> Seq<
    char,
> {
    let (out, done, _) = set_lines(lines(contents), key, value);
    let all = if done {
        out
    } else {
        out.push(line_for(key, value))
    };
    join(all, "\n"@) + "\n"@
}

fn line_for_exec(key: &[char], escaped: &String) -> (r: String)
    ensures
        r@ == key@ + " = "@ + escaped@,
{
    let mut s = string_of(key);
    push_str(&mut s, " = ");
    push_str(&mut s, escaped.as_str());
    s
}

/// `contents` with `key` set in the unnamed section: the existing line is
/// replaced (comments and everything else are kept), or a line is added before
/// the first section.
pub fn set_value(contents: &str, key: &str, value: &str) -> (r: String)
    ensures
        r@ == set_value_spec(contents@, key@, value@),
{
    let escaped = escape(value);
    let key_chars = chars_of(key);
    let text = chars_of(contents);
    let all = lines_of(text.as_slice());
    let ghost ls = lines(contents@);
    let mut out: Vec<String> = Vec::new();
    let mut done = false;
    let mut in_unnamed = true;
    let mut i: usize = 0;
    while i < all.len()
        invariant
            i <= all.len(),
            all@.map_values(|v: Vec<char>| v@) == ls,
            escaped@ == escape_spec(value@),
            key_chars@ == key@,
            (out@.map_values(|s: String| s@), done, in_unnamed) == set_lines(
                ls.take(i as int),
                key@,
                value@,
            ),
        decreases all.len() - i,
    {
        let ghost before = out@.map_values(|s: String| s@);
        assert(ls.take(i + 1).drop_last() =~= ls.take(i as int));
        assert(ls.take(i + 1).last() == all@[i as int]@);
        let line = all[i].as_slice();
        let trimmed = trim_chars(line);
        let tr = trimmed.as_slice();
        if trimmed.len() > 0 && tr[0] == '[' && tr[trimmed.len() - 1] == ']' {
            if in_unnamed && !done {
                out.push(line_for_exec(key_chars.as_slice(), &escaped));
                out.push(String::new());
                done = true;
            }
            in_unnamed = false;
            out.push(string_of(line));
        } else {
            let mut replaced = false;
            if in_unnamed && !done && !(trimmed.len() > 0 && (tr[0] == '#' || tr[0] == ';')) {
                match split_once_char(tr, '=') {
                    Some((name, _)) => {
                        let n = trim_chars(name.as_slice());
                        if chars_eq_ignore_case(n.as_slice(), key_chars.as_slice()) {
                            out.push(line_for_exec(n.as_slice(), &escaped));
                            done = true;
                            replaced = true;
                        }
                    },
                    None => {},
                }
            }
            if !replaced {
                out.push(string_of(line));
            }
        }
        assert(out@.map_values(|s: String| s@) =~= set_lines(ls.take(i + 1), key@, value@).0);
        i = i + 1;
    }
    assert(ls.take(all.len() as int) =~= ls);
    let ghost before_end = out@.map_values(|s: String| s@);
    if !done {
        out.push(line_for_exec(key_chars.as_slice(), &escaped));
        assert(out@.map_values(|s: String| s@) =~= before_end.push(line_for(key@, value@)));
    }
    let ghost all_lines = out@.map_values(|s: String| s@);
    let mut text_out = join_strings(&out, "\n");
    push_char(&mut text_out, '\n');
    proof {
        reveal_strlit("\n");
        assert(text_out@ =~= join(all_lines, "\n"@) + "\n"@);
    }
    text_out
}

// --- reading back what was written --------------------------------------------------------

/// A line `key = value`, the value escaped.
pub open spec fn entry_line(key: Seq<char>, value: Seq<char>) -> Seq<char> {
    key + " = "@ + escape_spec(value)
}

/// A key an entry line keeps: on its line, without `=`, no white space
/// around it, and not starting a comment, a header or a byte order mark.
pub open spec fn entry_key(key: Seq<char>) -> bool {
    &&& key.len() > 0
    &&& crate::text::trimmed(key)
    &&& crate::text::lacks(key, '=')
    &&& crate::text::lacks(key, '\n')
    &&& key[0] != '#' && key[0] != ';' && key[0] != '[' && key[0] != '\u{feff}'
}

/// A value an entry line keeps: no "\r\n" in it (which reads back as "\n"),
/// no white space around it.
pub open spec fn entry_value(value: Seq<char>) -> bool {
    no_crlf(value) && crate::text::trimmed(value)
}

/// The sections after one more entry in the last of them.
pub open spec fn with_entry(acc: Seq<(Seq<char>, Seq<SpecEntry>)>, key: Seq<char>, value: Seq<char>) -> Seq<
    (Seq<char>, Seq<SpecEntry>),
> {
    acc.update(acc.len() - 1, (acc.last().0, acc.last().1.push((key, value))))
}

proof fn lemma_escape_chars_lacks_newline(s: Seq<char>)
    ensures
        crate::text::lacks(escape_chars(s), '\n'),
    decreases s.len(),
{
    if s.len() > 0 {
        lemma_escape_chars_lacks_newline(s.drop_last());
        let a = escape_chars(s.drop_last());
        let b = escape_char(s.last());
        assert forall|i: int| 0 <= i < (a + b).len() implies (a + b)[i] != '\n' by {
            if i >= a.len() {
                assert((a + b)[i] == b[i - a.len()]);
            }
        }
    }
}

/// An escaped value is on one line, and starts and ends as the value does
/// but for backslashes and escaped line breaks.
proof fn lemma_escaped(value: Seq<char>)
    requires
        entry_value(value),
    ensures
        crate::text::lacks(escape_spec(value), '\n'),
        crate::text::trimmed(escape_spec(value)),
        escape_spec(value).len() == 0 <==> value.len() == 0,
        unescape_spec(escape_spec(value)) == value,
{
    lemma_crlf_identity(value);
    lemma_escape_chars_lacks_newline(value);
    lemma_escape_round_trip(value);
    let e = escape_spec(value);
    if value.len() > 0 {
        lemma_escape_front(value);
        assert(e[0] == escape_char(value[0])[0]);
        assert(e == escape_chars(value.drop_last()) + escape_char(value.last()));
        let b = escape_char(value.last());
        assert(e.last() == b.last());
        assert(!crate::text::is_ws(value[0]));
        assert(!crate::text::is_ws(value.last()));
    } else {
        assert(e =~= Seq::<char>::empty());
    }
}

/// An entry line, read: an entry added to the last section.
pub proof fn lemma_entry_line(ls: Seq<Seq<char>>, key: Seq<char>, value: Seq<char>)
    requires
        entry_key(key),
        entry_value(value),
    ensures
        crate::text::plain_line(entry_line(key, value)),
        parse_lines(ls.push(entry_line(key, value))) == with_entry(parse_lines(ls), key, value),
{
    reveal_strlit(" = ");
    let e = escape_spec(value);
    lemma_escaped(value);
    let line = entry_line(key, value);
    assert(line =~= key + seq![' ', '=', ' '] + e);
    assert forall|i: int| 0 <= i < line.len() implies line[i] != '\n' by {
        if i < key.len() {
            assert(line[i] == key[i]);
        } else if i >= key.len() + 3 {
            assert(line[i] == e[i - key.len() - 3]);
        }
    }
    let cleaned = if e.len() == 0 {
        key + seq![' ', '=']
    } else {
        line
    };
    if e.len() == 0 {
        assert(line =~= cleaned + seq![' ']);
        assert(crate::text::trimmed(cleaned));
        crate::text::lemma_trim_space_after(cleaned);
    } else {
        assert(line.last() == e.last());
        crate::text::lemma_trim_trimmed(line);
    }
    assert(trim(line) == cleaned);
    assert(cleaned[0] == key[0]);
    assert(strip_bom(cleaned) == cleaned);
    assert(!is_comment(cleaned));
    assert(!is_header(cleaned));
    crate::text::lemma_index_of(cleaned, '=');
    assert(cleaned[key.len() as int + 1] == '=');
    assert forall|j: int| 0 <= j < key.len() + 1 implies cleaned[j] != '=' by {
        if j < key.len() {
            assert(cleaned[j] == key[j]);
        }
    }
    assert(crate::text::index_of(cleaned, '=') == key.len() + 1);
    assert(cleaned.take(key.len() as int + 1) =~= key + seq![' ']);
    crate::text::lemma_trim_space_after(key);
    if e.len() == 0 {
        assert(cleaned.skip(key.len() as int + 2) =~= Seq::<char>::empty());
        assert(trim(Seq::<char>::empty()) =~= Seq::<char>::empty());
    } else {
        assert(cleaned.skip(key.len() as int + 2) =~= seq![' '] + e);
        crate::text::lemma_trim_space_before(e);
    }
    let rest = cleaned.skip(key.len() as int + 2);
    assert(split_once(cleaned, '=') == Some((key + seq![' '], rest)));
    assert(trim(key + seq![' ']) == key);
    assert(unescape_spec(trim(rest)) == value);
    assert(ls.push(line).drop_last() =~= ls);
    assert(ls.push(line).last() == line);
    assert(strip_bom(trim(line)) == cleaned);
    lemma_parse_lines_len(ls);
}

/// The sections after more entries in the last of them.
pub open spec fn with_entries(acc: Seq<(Seq<char>, Seq<SpecEntry>)>, es: Seq<SpecEntry>) -> Seq<
    (Seq<char>, Seq<SpecEntry>),
> {
    acc.update(acc.len() - 1, (acc.last().0, acc.last().1 + es))
}

/// The `key = value` lines of entries, in order.
pub open spec fn entry_lines(es: Seq<SpecEntry>) -> Seq<Seq<char>> {
    es.map_values(|e: SpecEntry| entry_line(e.0, e.1))
}

/// Whether each of `es` is kept whole by its line.
pub open spec fn writable_entries(es: Seq<SpecEntry>) -> bool {
    forall|i: int| 0 <= i < es.len() ==> entry_key(#[trigger] es[i].0) && entry_value(es[i].1)
}

/// Entry lines, read: the entries added to the last section, in order.
pub proof fn lemma_parse_entries(ls: Seq<Seq<char>>, es: Seq<SpecEntry>)
    requires
        writable_entries(es),
    ensures
        parse_lines(ls + entry_lines(es)) == with_entries(parse_lines(ls), es),
        forall|i: int| 0 <= i < es.len() ==> crate::text::plain_line(#[trigger] entry_lines(es)[i]),
        entry_lines(es).len() == es.len(),
    decreases es.len(),
{
    lemma_parse_lines_len(ls);
    if es.len() == 0 {
        assert(ls + entry_lines(es) =~= ls);
        let acc = parse_lines(ls);
        assert(acc.last().1 + es =~= acc.last().1);
        assert(with_entries(acc, es) =~= acc);
    } else {
        let front = es.drop_last();
        let e = es.last();
        assert(writable_entries(front)) by {
            assert forall|i: int| 0 <= i < front.len() implies entry_key(#[trigger] front[i].0)
                && entry_value(front[i].1) by {
                assert(front[i] == es[i]);
            }
        }
        lemma_parse_entries(ls, front);
        assert(entry_key(es[es.len() - 1].0));
        let before = ls + entry_lines(front);
        lemma_entry_line(before, e.0, e.1);
        assert(ls + entry_lines(es) =~= before.push(entry_line(e.0, e.1)));
        let acc = parse_lines(ls);
        let mid = with_entries(acc, front);
        assert(es =~= front.push(e));
        assert((acc.last().1 + front).push((e.0, e.1)) =~= acc.last().1 + es);
        assert(mid.len() == acc.len());
        assert(mid.last() == (acc.last().0, acc.last().1 + front));
        assert(with_entry(mid, e.0, e.1) =~= with_entries(acc, es));
        assert forall|i: int| 0 <= i < es.len() implies crate::text::plain_line(
            #[trigger] entry_lines(es)[i],
        ) by {
            if i < front.len() {
                assert(entry_lines(es)[i] == entry_lines(front)[i]);
            }
        }
    }
}

/// Entry lines of two runs of entries: those of the first, then of the second.
pub proof fn lemma_entry_lines_concat(a: Seq<SpecEntry>, b: Seq<SpecEntry>)
    ensures
        entry_lines(a + b) == entry_lines(a) + entry_lines(b),
{
    assert(entry_lines(a + b) =~= entry_lines(a) + entry_lines(b));
}

/// A blank or comment line, read: nothing.
pub proof fn lemma_skipped_line(ls: Seq<Seq<char>>, line: Seq<char>)
    requires
        line.len() == 0 || line[0] == '#',
    ensures
        parse_lines(ls.push(line)) == parse_lines(ls),
{
    assert(ls.push(line).drop_last() =~= ls);
    if line.len() > 0 {
        assert(trim_start(line) == line);
        crate::text::lemma_trim_end_keeps_first(line);
        assert(trim(line)[0] == '#');
    } else {
        assert(trim(line) =~= Seq::<char>::empty());
    }
}

/// The header line of a section called `name` (lower case, no white space
/// or `]` around it), read: a new section.
pub proof fn lemma_header_line(ls: Seq<Seq<char>>, name: Seq<char>)
    requires
        name.len() > 0,
        crate::text::trimmed(name),
        crate::text::lacks(name, '\n'),
        lower_seq(name) == name,
    ensures
        crate::text::plain_line(seq!['['] + name + seq![']']),
        parse_lines(ls.push(seq!['['] + name + seq![']'])) == parse_lines(ls).push(
            (name, Seq::<SpecEntry>::empty()),
        ),
{
    let line = seq!['['] + name + seq![']'];
    assert forall|i: int| 0 <= i < line.len() implies line[i] != '\n' by {
        if 0 < i < line.len() - 1 {
            assert(line[i] == name[i - 1]);
        }
    }
    crate::text::lemma_trim_trimmed(line);
    assert(line.subrange(1, line.len() - 1) =~= name);
    crate::text::lemma_trim_trimmed(name);
    assert(ls.push(line).drop_last() =~= ls);
}

proof fn lemma_words_differ(a: Seq<char>, b: Seq<char>, i: int)
    requires
        0 <= i < a.len(),
        i < b.len(),
        a[i] != b[i],
    ensures
        a != b,
{
}

proof fn lemma_false_word_zero(value: Seq<char>, fallback: bool)
    requires
        lower_seq(trim(value)) == "0"@,
    ensures
        !parse_bool_spec(value, fallback),
{
    reveal_strlit("1");
    reveal_strlit("true");
    reveal_strlit("yes");
    reveal_strlit("on");
    reveal_strlit("0");
    reveal_strlit("false");
    reveal_strlit("no");
    reveal_strlit("off");
    assert("0"@[0] == '0' && "1"@[0] == '1');
    lemma_words_differ("0"@, "1"@, 0);
    assert("0"@.len() == 1 && "true"@.len() == 4);
    assert("0"@.len() == 1 && "yes"@.len() == 3);
    assert("0"@.len() == 1 && "on"@.len() == 2);
}

proof fn lemma_false_word_false(value: Seq<char>, fallback: bool)
    requires
        lower_seq(trim(value)) == "false"@,
    ensures
        !parse_bool_spec(value, fallback),
{
    reveal_strlit("1");
    reveal_strlit("true");
    reveal_strlit("yes");
    reveal_strlit("on");
    reveal_strlit("0");
    reveal_strlit("false");
    reveal_strlit("no");
    reveal_strlit("off");
    assert("false"@.len() == 5 && "1"@.len() == 1);
    assert("false"@.len() == 5 && "true"@.len() == 4);
    assert("false"@.len() == 5 && "yes"@.len() == 3);
    assert("false"@.len() == 5 && "on"@.len() == 2);
}

proof fn lemma_false_word_no(value: Seq<char>, fallback: bool)
    requires
        lower_seq(trim(value)) == "no"@,
    ensures
        !parse_bool_spec(value, fallback),
{
    reveal_strlit("1");
    reveal_strlit("true");
    reveal_strlit("yes");
    reveal_strlit("on");
    reveal_strlit("0");
    reveal_strlit("false");
    reveal_strlit("no");
    reveal_strlit("off");
    assert("no"@.len() == 2 && "1"@.len() == 1);
    assert("no"@.len() == 2 && "true"@.len() == 4);
    assert("no"@.len() == 2 && "yes"@.len() == 3);
    assert("no"@[0] == 'n' && "on"@[0] == 'o');
    lemma_words_differ("no"@, "on"@, 0);
}

proof fn lemma_false_word_off(value: Seq<char>, fallback: bool)
    requires
        lower_seq(trim(value)) == "off"@,
    ensures
        !parse_bool_spec(value, fallback),
{
    reveal_strlit("1");
    reveal_strlit("true");
    reveal_strlit("yes");
    reveal_strlit("on");
    reveal_strlit("0");
    reveal_strlit("false");
    reveal_strlit("no");
    reveal_strlit("off");
    assert("off"@.len() == 3 && "1"@.len() == 1);
    assert("off"@.len() == 3 && "true"@.len() == 4);
    assert("off"@[0] == 'o' && "yes"@[0] == 'y');
    lemma_words_differ("off"@, "yes"@, 0);
    assert("off"@.len() == 3 && "on"@.len() == 2);
}

/// A flag reads as true from `1`, `true`, `yes` or `on`, as false from `0`,
/// `false`, `no` or `off` (any case, white space around ignored), and
/// keeps its previous value otherwise.
pub proof fn lemma_flag_words(value: Seq<char>, fallback: bool)
    ensures
        lower_seq(trim(value)) == "1"@ || lower_seq(trim(value)) == "true"@ || lower_seq(trim(value)) == "yes"@ || lower_seq(trim(value)) == "on"@ ==> parse_bool_spec(value, fallback),
        lower_seq(trim(value)) == "0"@ || lower_seq(trim(value)) == "false"@ || lower_seq(trim(value)) == "no"@ || lower_seq(trim(value)) == "off"@ ==> !parse_bool_spec(value, fallback),
        lower_seq(trim(value)) != "1"@ && lower_seq(trim(value)) != "true"@ && lower_seq(trim(value)) != "yes"@ && lower_seq(trim(value)) != "on"@ && lower_seq(trim(value)) != "0"@ && lower_seq(trim(value)) != "false"@ && lower_seq(trim(value)) != "no"@ && lower_seq(trim(value)) != "off"@ ==> parse_bool_spec(value, fallback) == fallback,
{
    if lower_seq(trim(value)) == "0"@ {
        lemma_false_word_zero(value, fallback);
    }
    if lower_seq(trim(value)) == "false"@ {
        lemma_false_word_false(value, fallback);
    }
    if lower_seq(trim(value)) == "no"@ {
        lemma_false_word_no(value, fallback);
    }
    if lower_seq(trim(value)) == "off"@ {
        lemma_false_word_off(value, fallback);
    }
}

} // verus!
