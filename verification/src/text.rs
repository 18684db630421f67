//! Text as sequences of characters: the operations the settings files, paths
//! and tables of this crate are read and written with.

use vstd::prelude::*;

verus! {

// --- characters ------------------------------------------------------------------

/// `c` in ASCII lower case (other characters unchanged).
pub open spec fn lower(c: char) -> char {
    if 'A' <= c && c <= 'Z' {
        ((c as u32) + 32) as char
    } else {
        c
    }
}

pub open spec fn lower_seq(s: Seq<char>) -> Seq<char> {
    s.map_values(|c: char| lower(c))
}

/// `str::eq_ignore_ascii_case`.
pub open spec fn eq_ignore_case(a: Seq<char>, b: Seq<char>) -> bool {
    lower_seq(a) == lower_seq(b)
}

/// Unicode `White_Space`, as `char::is_whitespace` tests it.
pub open spec fn is_ws(c: char) -> bool {
    ||| '\t' <= c && c <= '\r'
    ||| c == ' '
    ||| c == '\u{85}'
    ||| c == '\u{a0}'
    ||| c == '\u{1680}'
    ||| '\u{2000}' <= c && c <= '\u{200a}'
    ||| c == '\u{2028}'
    ||| c == '\u{2029}'
    ||| c == '\u{202f}'
    ||| c == '\u{205f}'
    ||| c == '\u{3000}'
}

pub open spec fn is_digit(c: char) -> bool {
    '0' <= c && c <= '9'
}

pub open spec fn is_alpha(c: char) -> bool {
    ('a' <= c && c <= 'z') || ('A' <= c && c <= 'Z')
}

pub open spec fn is_alnum(c: char) -> bool {
    is_alpha(c) || is_digit(c)
}

pub open spec fn is_hex(c: char) -> bool {
    is_digit(c) || ('a' <= c && c <= 'f') || ('A' <= c && c <= 'F')
}

/// `char::is_control`: the Unicode `Cc` category.
pub open spec fn is_control(c: char) -> bool {
    c <= '\u{1f}' || ('\u{7f}' <= c && c <= '\u{9f}')
}

pub fn to_lower(c: char) -> (r: char)
    ensures
        r == lower(c),
{
    if 'A' <= c && c <= 'Z' {
        ((c as u8) + 32) as char
    } else {
        c
    }
}

pub fn is_hex_char(c: char) -> (r: bool)
    ensures
        r == is_hex(c),
{
    ('0' <= c && c <= '9') || ('a' <= c && c <= 'f') || ('A' <= c && c <= 'F')
}

pub fn is_digit_char(c: char) -> (r: bool)
    ensures
        r == is_digit(c),
{
    '0' <= c && c <= '9'
}

pub fn is_whitespace(c: char) -> (r: bool)
    ensures
        r == is_ws(c),
{
    ('\t' <= c && c <= '\r') || c == ' ' || c == '\u{85}' || c == '\u{a0}' || c == '\u{1680}' || (
    '\u{2000}' <= c && c <= '\u{200a}') || c == '\u{2028}' || c == '\u{2029}' || c == '\u{202f}'
        || c == '\u{205f}' || c == '\u{3000}'
}

pub fn is_control_char(c: char) -> (r: bool)
    ensures
        r == is_control(c),
{
    c <= '\u{1f}' || ('\u{7f}' <= c && c <= '\u{9f}')
}

pub fn is_alnum_char(c: char) -> (r: bool)
    ensures
        r == is_alnum(c),
{
    ('a' <= c && c <= 'z') || ('A' <= c && c <= 'Z') || ('0' <= c && c <= '9')
}

// --- conversions -------------------------------------------------------------------

/// The characters of `s`.
pub fn chars_of(s: &str) -> (v: Vec<char>)
    ensures
        v@ == s@,
{
    let mut v: Vec<char> = Vec::new();
    for c in it: s.chars()
        invariant
            v@ == it.seq().take(it.index() as int),
    {
        v.push(c);
    }
    v
}

/// Appends one character: `String::push`.
#[verifier::external_body]
pub fn push_char(s: &mut String, c: char)
    ensures
        final(s)@ == old(s)@.push(c),
{
    s.push(c);
}

/// Appends characters to a string.
pub fn push_chars(s: &mut String, v: &[char])
    ensures
        final(s)@ == old(s)@ + v@,
{
    let ghost start = s@;
    let mut i: usize = 0;
    while i < v.len()
        invariant
            i <= v.len(),
            s@ == start + v@.take(i as int),
        decreases v.len() - i,
    {
        push_char(s, v[i]);
        i = i + 1;
        assert(v@.take(i as int) == v@.take(i - 1).push(v@[i - 1]));
    }
    assert(v@.take(v.len() as int) == v@);
}

/// A string holding `v`.
pub fn string_of(v: &[char]) -> (s: String)
    ensures
        s@ == v@,
{
    let mut s = String::new();
    push_chars(&mut s, v);
    s
}

/// Appends a string slice.
pub fn push_str(s: &mut String, t: &str)
    ensures
        final(s)@ == old(s)@ + t@,
{
    let v = chars_of(t);
    push_chars(s, v.as_slice());
}

/// A copy of a string.
pub fn copy_string(s: &String) -> (r: String)
    ensures
        r@ == s@,
{
    s.clone()
}

// --- case ---------------------------------------------------------------------------

pub fn lower_chars(s: &[char]) -> (r: Vec<char>)
    ensures
        r@ == lower_seq(s@),
{
    let mut r: Vec<char> = Vec::new();
    let mut i: usize = 0;
    while i < s.len()
        invariant
            i <= s.len(),
            r@ == lower_seq(s@.take(i as int)),
        decreases s.len() - i,
    {
        r.push(to_lower(s[i]));
        i = i + 1;
        assert(lower_seq(s@.take(i as int)) =~= lower_seq(s@.take(i - 1)).push(lower(s@[i - 1])));
    }
    assert(s@.take(s.len() as int) == s@);
    r
}

pub fn chars_eq(a: &[char], b: &[char]) -> (r: bool)
    ensures
        r == (a@ == b@),
{
    if a.len() != b.len() {
        return false;
    }
    let mut i: usize = 0;
    while i < a.len()
        invariant
            i <= a.len(),
            a.len() == b.len(),
            forall|j: int| 0 <= j < i ==> a@[j] == b@[j],
        decreases a.len() - i,
    {
        if a[i] != b[i] {
            return false;
        }
        i = i + 1;
    }
    assert(a@ =~= b@);
    true
}

pub fn chars_eq_ignore_case(a: &[char], b: &[char]) -> (r: bool)
    ensures
        r == eq_ignore_case(a@, b@),
{
    if a.len() != b.len() {
        assert(lower_seq(a@).len() != lower_seq(b@).len());
        return false;
    }
    let mut i: usize = 0;
    while i < a.len()
        invariant
            i <= a.len(),
            a.len() == b.len(),
            forall|j: int| 0 <= j < i ==> lower(a@[j]) == lower(b@[j]),
        decreases a.len() - i,
    {
        if to_lower(a[i]) != to_lower(b[i]) {
            assert(lower_seq(a@)[i as int] != lower_seq(b@)[i as int]);
            return false;
        }
        i = i + 1;
    }
    assert(lower_seq(a@) =~= lower_seq(b@));
    true
}

/// Whether `a` is `lit`, ignoring ASCII case.
pub fn is_ignore_case(a: &[char], lit: &str) -> (r: bool)
    ensures
        r == eq_ignore_case(a@, lit@),
{
    let l = chars_of(lit);
    chars_eq_ignore_case(a, l.as_slice())
}

/// Whether `a` is `lit`.
pub fn is_lit(a: &[char], lit: &str) -> (r: bool)
    ensures
        r == (a@ == lit@),
{
    let l = chars_of(lit);
    chars_eq(a, l.as_slice())
}

/// Whether two strings are equal.
pub fn str_eq(a: &str, b: &str) -> (r: bool)
    ensures
        r == (a@ == b@),
{
    let x = chars_of(a);
    let y = chars_of(b);
    chars_eq(x.as_slice(), y.as_slice())
}

/// Whether two strings are equal ignoring ASCII case.
pub fn str_eq_ignore_case(a: &str, b: &str) -> (r: bool)
    ensures
        r == eq_ignore_case(a@, b@),
{
    let x = chars_of(a);
    let y = chars_of(b);
    chars_eq_ignore_case(x.as_slice(), y.as_slice())
}

// --- prefixes, suffixes, searching -------------------------------------------------

pub open spec fn starts_with(s: Seq<char>, p: Seq<char>) -> bool {
    p.len() <= s.len() && s.take(p.len() as int) == p
}

pub open spec fn ends_with(s: Seq<char>, p: Seq<char>) -> bool {
    p.len() <= s.len() && s.skip(s.len() - p.len()) == p
}

pub open spec fn ends_with_ignore_case(s: Seq<char>, p: Seq<char>) -> bool {
    p.len() <= s.len() && eq_ignore_case(s.skip(s.len() - p.len()), p)
}

pub fn slice_of(s: &[char], from: usize, to: usize) -> (r: Vec<char>)
    requires
        from <= to <= s.len(),
    ensures
        r@ == s@.subrange(from as int, to as int),
{
    let mut r: Vec<char> = Vec::new();
    let mut i = from;
    while i < to
        invariant
            from <= i <= to,
            to <= s.len(),
            r@ == s@.subrange(from as int, i as int),
        decreases to - i,
    {
        r.push(s[i]);
        i = i + 1;
        assert(r@ =~= s@.subrange(from as int, i as int));
    }
    r
}

pub fn has_prefix(s: &[char], p: &[char]) -> (r: bool)
    ensures
        r == starts_with(s@, p@),
{
    if p.len() > s.len() {
        return false;
    }
    let head = slice_of(s, 0, p.len());
    assert(head@ == s@.take(p.len() as int));
    chars_eq(head.as_slice(), p)
}

pub fn has_suffix(s: &[char], p: &[char]) -> (r: bool)
    ensures
        r == ends_with(s@, p@),
{
    if p.len() > s.len() {
        return false;
    }
    let tail = slice_of(s, s.len() - p.len(), s.len());
    assert(tail@ == s@.skip(s.len() - p.len()));
    chars_eq(tail.as_slice(), p)
}

pub fn has_suffix_ignore_case(s: &[char], p: &[char]) -> (r: bool)
    ensures
        r == ends_with_ignore_case(s@, p@),
{
    if p.len() > s.len() {
        return false;
    }
    let tail = slice_of(s, s.len() - p.len(), s.len());
    assert(tail@ == s@.skip(s.len() - p.len()));
    chars_eq_ignore_case(tail.as_slice(), p)
}

pub fn has_prefix_lit(s: &[char], p: &str) -> (r: bool)
    ensures
        r == starts_with(s@, p@),
{
    let l = chars_of(p);
    has_prefix(s, l.as_slice())
}

pub fn has_suffix_lit(s: &[char], p: &str) -> (r: bool)
    ensures
        r == ends_with(s@, p@),
{
    let l = chars_of(p);
    has_suffix(s, l.as_slice())
}

/// Index of the first `c` in `s`, or -1.
pub open spec fn index_of(s: Seq<char>, c: char) -> int
    decreases s.len(),
{
    if s.len() == 0 {
        -1
    } else if s[0] == c {
        0
    } else {
        let r = index_of(s.skip(1), c);
        if r < 0 {
            -1
        } else {
            r + 1
        }
    }
}

/// Index of the last `c` in `s`, or -1.
pub open spec fn last_index_of(s: Seq<char>, c: char) -> int
    decreases s.len(),
{
    if s.len() == 0 {
        -1
    } else if s.last() == c {
        s.len() - 1
    } else {
        last_index_of(s.drop_last(), c)
    }
}

pub proof fn lemma_index_of(s: Seq<char>, c: char)
    ensures
        -1 <= index_of(s, c) < s.len(),
        index_of(s, c) == -1 <==> (forall|j: int| 0 <= j < s.len() ==> s[j] != c),
        index_of(s, c) >= 0 ==> s[index_of(s, c)] == c && (forall|j: int|
            0 <= j < index_of(s, c) ==> s[j] != c),
    decreases s.len(),
{
    if s.len() > 0 && s[0] != c {
        lemma_index_of(s.skip(1), c);
        assert forall|j: int| 1 <= j < s.len() implies s[j] == s.skip(1)[j - 1] by {}
        if index_of(s.skip(1), c) == -1 {
            assert forall|j: int| 0 <= j < s.len() implies s[j] != c by {
                if j > 0 {
                    assert(s[j] == s.skip(1)[j - 1]);
                }
            }
        }
    }
}

pub proof fn lemma_last_index_of(s: Seq<char>, c: char)
    ensures
        -1 <= last_index_of(s, c) < s.len(),
        last_index_of(s, c) == -1 <==> (forall|j: int| 0 <= j < s.len() ==> s[j] != c),
        last_index_of(s, c) >= 0 ==> s[last_index_of(s, c)] == c && (forall|j: int|
            last_index_of(s, c) < j < s.len() ==> s[j] != c),
    decreases s.len(),
{
    if s.len() > 0 && s.last() != c {
        lemma_last_index_of(s.drop_last(), c);
        assert forall|j: int| 0 <= j < s.len() - 1 implies s[j] == s.drop_last()[j] by {}
    }
}

pub fn find_char(s: &[char], c: char) -> (r: Option<usize>)
    ensures
        r is None <==> index_of(s@, c) == -1,
        r matches Some(i) ==> i == index_of(s@, c) && i < s@.len(),
{
    proof {
        lemma_index_of(s@, c);
    }
    let mut i: usize = 0;
    while i < s.len()
        invariant
            i <= s.len(),
            forall|j: int| 0 <= j < i ==> s@[j] != c,
            -1 <= index_of(s@, c) < s@.len(),
            index_of(s@, c) == -1 <==> (forall|j: int| 0 <= j < s@.len() ==> s@[j] != c),
            index_of(s@, c) >= 0 ==> s@[index_of(s@, c)] == c && (forall|j: int|
                0 <= j < index_of(s@, c) ==> s@[j] != c),
        decreases s.len() - i,
    {
        if s[i] == c {
            return Some(i);
        }
        i = i + 1;
    }
    None
}

pub fn rfind_char(s: &[char], c: char) -> (r: Option<usize>)
    ensures
        r is None <==> last_index_of(s@, c) == -1,
        r matches Some(i) ==> i == last_index_of(s@, c) && i < s@.len(),
{
    proof {
        lemma_last_index_of(s@, c);
    }
    let mut i: usize = s.len();
    while i > 0
        invariant
            i <= s.len(),
            forall|j: int| i <= j < s.len() ==> s@[j] != c,
            -1 <= last_index_of(s@, c) < s@.len(),
            last_index_of(s@, c) == -1 <==> (forall|j: int| 0 <= j < s@.len() ==> s@[j] != c),
            last_index_of(s@, c) >= 0 ==> s@[last_index_of(s@, c)] == c && (forall|j: int|
                last_index_of(s@, c) < j < s@.len() ==> s@[j] != c),
        decreases i,
    {
        if s[i - 1] == c {
            return Some(i - 1);
        }
        i = i - 1;
    }
    None
}

/// The index of the last `b` in `s`, or -1.
pub open spec fn last_index_of_u8(s: Seq<u8>, b: u8) -> int
    decreases s.len(),
{
    if s.len() == 0 {
        -1
    } else if s.last() == b {
        s.len() - 1
    } else {
        last_index_of_u8(s.drop_last(), b)
    }
}

pub fn last_index_of_byte(s: &[u8], b: u8) -> (r: Option<usize>)
    ensures
        match r {
            Some(i) => i == last_index_of_u8(s@, b) && i < s@.len(),
            None => last_index_of_u8(s@, b) == -1,
        },
{
    let mut i: usize = s.len();
    assert(s@.take(s@.len() as int) =~= s@);
    while i > 0
        invariant
            i <= s@.len(),
            last_index_of_u8(s@, b) == last_index_of_u8(s@.take(i as int), b),
        decreases i,
    {
        assert(s@.take(i as int).last() == s@[i - 1]);
        assert(s@.take(i as int).drop_last() =~= s@.take(i - 1));
        if s[i - 1] == b {
            return Some(i - 1);
        }
        i = i - 1;
    }
    None
}

pub open spec fn contains_char(s: Seq<char>, c: char) -> bool {
    exists|j: int| 0 <= j < s.len() && s[j] == c
}

pub fn has_char(s: &[char], c: char) -> (r: bool)
    ensures
        r == contains_char(s@, c),
{
    proof {
        lemma_index_of(s@, c);
    }
    find_char(s, c).is_some()
}

/// `str::split_once` on a character.
pub open spec fn split_once(s: Seq<char>, c: char) -> Option<(Seq<char>, Seq<char>)> {
    let i = index_of(s, c);
    if i < 0 {
        None
    } else {
        Some((s.take(i), s.skip(i + 1)))
    }
}

pub fn split_once_char(s: &[char], c: char) -> (r: Option<(Vec<char>, Vec<char>)>)
    ensures
        match split_once(s@, c) {
            None => r is None,
            Some((a, b)) => r matches Some((x, y)) && x@ == a && y@ == b,
        },
{
    proof {
        lemma_index_of(s@, c);
    }
    match find_char(s, c) {
        None => None,
        Some(i) => {
            assert(i < s.len());
            Some((slice_of(s, 0, i), slice_of(s, i + 1, s.len())))
        },
    }
}

// --- trimming -----------------------------------------------------------------------

pub open spec fn trim_start(s: Seq<char>) -> Seq<char>
    decreases s.len(),
{
    if s.len() > 0 && is_ws(s[0]) {
        trim_start(s.skip(1))
    } else {
        s
    }
}

pub open spec fn trim_end(s: Seq<char>) -> Seq<char>
    decreases s.len(),
{
    if s.len() > 0 && is_ws(s.last()) {
        trim_end(s.drop_last())
    } else {
        s
    }
}

/// `str::trim`.
pub open spec fn trim(s: Seq<char>) -> Seq<char> {
    trim_end(trim_start(s))
}

/// Index of the first character of `s` that is not white space.
pub fn trim_start_index(s: &[char]) -> (i: usize)
    ensures
        i <= s.len(),
        trim_start(s@) == s@.skip(i as int),
{
    let mut i: usize = 0;
    assert(s@.skip(0) =~= s@);
    while i < s.len() && is_whitespace(s[i])
        invariant
            i <= s.len(),
            trim_start(s@) == trim_start(s@.skip(i as int)),
        decreases s.len() - i,
    {
        assert(s@.skip(i as int).skip(1) =~= s@.skip(i + 1));
        i = i + 1;
    }
    assert(s@.skip(0) =~= s@);
    i
}

pub fn trim_end_index(s: &[char]) -> (i: usize)
    ensures
        i <= s.len(),
        trim_end(s@) == s@.take(i as int),
{
    let mut i: usize = s.len();
    assert(s@.take(s.len() as int) =~= s@);
    while i > 0 && is_whitespace(s[i - 1])
        invariant
            i <= s.len(),
            trim_end(s@) == trim_end(s@.take(i as int)),
        decreases i,
    {
        assert(s@.take(i as int).drop_last() =~= s@.take(i - 1));
        i = i - 1;
    }
    i
}

pub fn trim_chars(s: &[char]) -> (r: Vec<char>)
    ensures
        r@ == trim(s@),
{
    let a = trim_start_index(s);
    let rest = slice_of(s, a, s.len());
    assert(rest@ == s@.skip(a as int));
    let b = trim_end_index(rest.as_slice());
    slice_of(rest.as_slice(), 0, b)
}

pub fn trim_str(s: &str) -> (r: Vec<char>)
    ensures
        r@ == trim(s@),
{
    let v = chars_of(s);
    trim_chars(v.as_slice())
}

// --- splitting ----------------------------------------------------------------------

/// `str::split` on a character: every piece, empty ones included.
pub open spec fn split(s: Seq<char>, c: char) -> Seq<Seq<char>>
    decreases s.len(),
{
    if s.len() == 0 {
        seq![Seq::<char>::empty()]
    } else {
        let r = split(s.drop_last(), c);
        if s.last() == c {
            r.push(Seq::empty())
        } else {
            r.update(r.len() - 1, r.last().push(s.last()))
        }
    }
}

pub proof fn lemma_split_len(s: Seq<char>, c: char)
    ensures
        split(s, c).len() >= 1,
    decreases s.len(),
{
    if s.len() > 0 {
        lemma_split_len(s.drop_last(), c);
    }
}

pub fn split_chars(s: &[char], c: char) -> (r: Vec<Vec<char>>)
    ensures
        r@.map_values(|v: Vec<char>| v@) == split(s@, c),
{
    let mut done: Vec<Vec<char>> = Vec::new();
    let mut cur: Vec<char> = Vec::new();
    let mut i: usize = 0;
    while i < s.len()
        invariant
            i <= s.len(),
            done@.map_values(|v: Vec<char>| v@).push(cur@) == split(s@.take(i as int), c),
        decreases s.len() - i,
    {
        proof {
            lemma_split_len(s@.take(i as int), c);
        }
        let ghost before = done@.map_values(|v: Vec<char>| v@).push(cur@);
        assert(s@.take(i + 1).drop_last() =~= s@.take(i as int));
        if s[i] == c {
            let piece = cur;
            done.push(piece);
            cur = Vec::new();
            assert(done@.map_values(|v: Vec<char>| v@).push(cur@) =~= before.push(Seq::empty()));
        } else {
            cur.push(s[i]);
            assert(done@.map_values(|v: Vec<char>| v@).push(cur@) =~= before.update(
                before.len() - 1,
                before.last().push(s@[i as int]),
            ));
        }
        i = i + 1;
    }
    done.push(cur);
    assert(s@.take(s.len() as int) =~= s@);
    assert(done@.map_values(|v: Vec<char>| v@) =~= split(s@, c));
    done
}

/// One line without its line ending: a trailing '\r' goes when a '\n' follows.
pub open spec fn strip_cr(line: Seq<char>) -> Seq<char> {
    if line.len() > 0 && line.last() == '\r' {
        line.drop_last()
    } else {
        line
    }
}

/// `str::lines`.
pub open spec fn lines(s: Seq<char>) -> Seq<Seq<char>> {
    let pieces = split(s, '\n');
    let n = pieces.len() - 1;
    let full = Seq::new(n as nat, |i: int| strip_cr(pieces[i]));
    if pieces.last().len() == 0 {
        full
    } else {
        full.push(pieces.last())
    }
}

pub fn lines_of(s: &[char]) -> (r: Vec<Vec<char>>)
    ensures
        r@.map_values(|v: Vec<char>| v@) == lines(s@),
{
    let pieces = split_chars(s, '\n');
    proof {
        lemma_split_len(s@, '\n');
    }
    let ghost sp = split(s@, '\n');
    assert(pieces@.len() == sp.len());
    assert forall|k: int| 0 <= k < sp.len() implies pieces@[k]@ == sp[k] by {
        assert(pieces@.map_values(|v: Vec<char>| v@)[k] == pieces@[k]@);
    }
    let n = pieces.len() - 1;
    let mut r: Vec<Vec<char>> = Vec::new();
    let mut i: usize = 0;
    while i < n
        invariant
            i <= n,
            n == pieces@.len() - 1,
            pieces@.len() == sp.len(),
            forall|k: int| 0 <= k < sp.len() ==> pieces@[k]@ == sp[k],
            r@.len() == i,
            forall|k: int| 0 <= k < i ==> #[trigger] r@[k]@ == strip_cr(sp[k]),
        decreases n - i,
    {
        let p = &pieces[i];
        let line = if p.len() > 0 && p[p.len() - 1] == '\r' {
            slice_of(p.as_slice(), 0, p.len() - 1)
        } else {
            slice_of(p.as_slice(), 0, p.len())
        };
        assert(line@ == strip_cr(sp[i as int])) by {
            assert(p@ == sp[i as int]);
            assert(p@.take(p@.len() as int) =~= p@);
        }
        r.push(line);
        i = i + 1;
    }
    assert(r@.map_values(|v: Vec<char>| v@) =~= Seq::new(n as nat, |k: int| strip_cr(sp[k])));
    let last = &pieces[n];
    if last.len() > 0 {
        let l = slice_of(last.as_slice(), 0, last.len());
        assert(last@.take(last@.len() as int) =~= last@);
        r.push(l);
        assert(r@.map_values(|v: Vec<char>| v@) =~= lines(s@));
    } else {
        assert(r@.map_values(|v: Vec<char>| v@) =~= lines(s@));
    }
    r
}

// --- joining -------------------------------------------------------------------------

/// Pieces joined with `sep` between them.
pub open spec fn join(pieces: Seq<Seq<char>>, sep: Seq<char>) -> Seq<char>
    decreases pieces.len(),
{
    if pieces.len() == 0 {
        Seq::empty()
    } else if pieces.len() == 1 {
        pieces[0]
    } else {
        join(pieces.drop_last(), sep) + sep + pieces.last()
    }
}

pub fn join_strings(pieces: &Vec<String>, sep: &str) -> (r: String)
    ensures
        r@ == join(pieces@.map_values(|s: String| s@), sep@),
{
    let ghost ps = pieces@.map_values(|s: String| s@);
    let mut r = String::new();
    let mut i: usize = 0;
    while i < pieces.len()
        invariant
            i <= pieces.len(),
            ps == pieces@.map_values(|s: String| s@),
            r@ == join(ps.take(i as int), sep@),
        decreases pieces.len() - i,
    {
        assert(ps.take(i + 1).drop_last() =~= ps.take(i as int));
        if i > 0 {
            push_str(&mut r, sep);
        }
        push_str(&mut r, pieces[i].as_str());
        assert(ps[i as int] == pieces@[i as int]@);
        if i == 0 {
            assert(r@ =~= join(ps.take(1), sep@));
        }
        i = i + 1;
    }
    assert(ps.take(pieces.len() as int) =~= ps);
    r
}

// --- numbers --------------------------------------------------------------------------

pub open spec fn digit_value(c: char) -> int {
    (c as int) - ('0' as int)
}

pub open spec fn hex_value(c: char) -> int {
    if is_digit(c) {
        (c as int) - ('0' as int)
    } else if 'a' <= c && c <= 'f' {
        (c as int) - ('a' as int) + 10
    } else {
        (c as int) - ('A' as int) + 10
    }
}

/// The value of a run of decimal digits.
pub open spec fn decimal(s: Seq<char>) -> int
    decreases s.len(),
{
    if s.len() == 0 {
        0
    } else {
        decimal(s.drop_last()) * 10 + digit_value(s.last())
    }
}

/// The value of a run of hexadecimal digits.
pub open spec fn hexadecimal(s: Seq<char>) -> int
    decreases s.len(),
{
    if s.len() == 0 {
        0
    } else {
        hexadecimal(s.drop_last()) * 16 + hex_value(s.last())
    }
}

pub open spec fn all_digits(s: Seq<char>) -> bool {
    forall|i: int| 0 <= i < s.len() ==> is_digit(#[trigger] s[i])
}

pub open spec fn all_hex(s: Seq<char>) -> bool {
    forall|i: int| 0 <= i < s.len() ==> is_hex(#[trigger] s[i])
}

/// The digits of an integer as `str::parse` reads it: an optional '+', then
/// at least one digit. `None` when `s` is not of that form.
pub open spec fn unsigned_digits(s: Seq<char>) -> Option<Seq<char>> {
    let d = if s.len() > 0 && s[0] == '+' {
        s.skip(1)
    } else {
        s
    };
    if d.len() > 0 && all_digits(d) {
        Some(d)
    } else {
        None
    }
}

/// `str::parse` of an unsigned integer no greater than `max`.
pub open spec fn parse_unsigned(s: Seq<char>, max: int) -> Option<int> {
    match unsigned_digits(s) {
        Some(d) => if decimal(d) <= max {
            Some(decimal(d))
        } else {
            None
        },
        None => None,
    }
}

/// `str::parse::<i32>`: an optional sign, then at least one digit, within
/// range.
pub open spec fn parse_i32_spec(s: Seq<char>) -> Option<int> {
    if s.len() > 0 && s[0] == '-' {
        let d = s.skip(1);
        if d.len() > 0 && all_digits(d) && decimal(d) <= 0x8000_0000 {
            Some(-decimal(d))
        } else {
            None
        }
    } else {
        parse_unsigned(s, 0x7fff_ffff)
    }
}

/// `u32::from_str_radix(s, 16)`.
pub open spec fn parse_hex_spec(s: Seq<char>) -> Option<int> {
    let d = if s.len() > 0 && s[0] == '+' {
        s.skip(1)
    } else {
        s
    };
    if d.len() > 0 && all_hex(d) && hexadecimal(d) <= 0xffff_ffff {
        Some(hexadecimal(d))
    } else {
        None
    }
}

proof fn lemma_decimal_nonneg(s: Seq<char>)
    requires
        all_digits(s),
    ensures
        decimal(s) >= 0,
    decreases s.len(),
{
    if s.len() > 0 {
        assert(all_digits(s.drop_last())) by {
            assert forall|i: int| 0 <= i < s.len() - 1 implies is_digit(#[trigger] s.drop_last()[i]) by {
                assert(s.drop_last()[i] == s[i]);
            }
        }
        lemma_decimal_nonneg(s.drop_last());
        assert(is_digit(s[s.len() - 1]));
    }
}

/// A parsed `i32` is in its type's range.
pub proof fn lemma_parse_i32_range(s: Seq<char>)
    ensures
        parse_i32_spec(s) matches Some(v) ==> i32::MIN <= v <= i32::MAX,
{
    if s.len() > 0 && s[0] == '-' {
        if s.skip(1).len() > 0 && all_digits(s.skip(1)) {
            lemma_decimal_nonneg(s.skip(1));
        }
    } else {
        if let Some(d) = unsigned_digits(s) {
            lemma_decimal_nonneg(d);
        }
    }
}

proof fn lemma_hex_nonneg(s: Seq<char>)
    requires
        all_hex(s),
    ensures
        hexadecimal(s) >= 0,
    decreases s.len(),
{
    if s.len() > 0 {
        assert(all_hex(s.drop_last())) by {
            assert forall|i: int| 0 <= i < s.len() - 1 implies is_hex(#[trigger] s.drop_last()[i]) by {
                assert(s.drop_last()[i] == s[i]);
            }
        }
        lemma_hex_nonneg(s.drop_last());
        assert(is_hex(s[s.len() - 1]));
    }
}

/// The value of the digits `s[from..]`, or `None` past `max` (or when a
/// character is not a digit).
fn decimal_upto(s: &[char], from: usize, max: u64) -> (r: Option<u64>)
    requires
        from <= s.len(),
    ensures
        match r {
            Some(v) => all_digits(s@.skip(from as int)) && v == decimal(s@.skip(from as int)) && v
                <= max,
            None => !all_digits(s@.skip(from as int)) || decimal(s@.skip(from as int)) > max,
        },
{
    let mut v: u64 = 0;
    let mut i = from;
    let mut over = false;
    let ghost d = s@.skip(from as int);
    while i < s.len()
        invariant
            from <= i <= s.len(),
            d == s@.skip(from as int),
            all_digits(d.take(i - from)),
            !over ==> v == decimal(d.take(i - from)) && v <= max,
            over ==> decimal(d.take(i - from)) > max,
            decimal(d.take(i - from)) >= 0,
        decreases s.len() - i,
    {
        let c = s[i];
        if !('0' <= c && c <= '9') {
            assert(d[i - from] == c);
            assert(!is_digit(d[i - from]));
            return None;
        }
        let ghost prev = d.take(i - from);
        assert(d.take(i + 1 - from).drop_last() =~= prev);
        assert(d.take(i + 1 - from).last() == c);
        let dv = (c as u64) - ('0' as u64);
        if !over {
            if dv > max || v > (max - dv) / 10 {
                over = true;
                assert(decimal(d.take(i + 1 - from)) == v * 10 + dv);
                assert(v * 10 + dv > max) by (nonlinear_arith)
                    requires
                        dv > max || v > (max - dv) / 10,
                        dv <= 9,
                ;
            } else {
                assert(v * 10 + dv <= max) by (nonlinear_arith)
                    requires
                        v <= (max - dv) / 10,
                ;
                v = v * 10 + dv;
            }
        } else {
            assert(decimal(d.take(i + 1 - from)) >= decimal(prev) * 10) by (nonlinear_arith)
                requires
                    decimal(d.take(i + 1 - from)) == decimal(prev) * 10 + dv,
                    dv >= 0,
            ;
            assert(decimal(prev) * 10 >= decimal(prev)) by (nonlinear_arith)
                requires
                    decimal(prev) >= 0,
            ;
        }
        i = i + 1;
        assert(all_digits(d.take(i - from))) by {
            assert forall|k: int| 0 <= k < i - from implies is_digit(#[trigger] d.take(i - from)[k]) by {
                if k < i - 1 - from {
                    assert(d.take(i - from)[k] == prev[k]);
                }
            }
        }
    }
    assert(d.take(s.len() - from) =~= d);
    if over {
        None
    } else {
        Some(v)
    }
}

/// `str::parse` for an unsigned integer type whose largest value is `max`.
pub fn parse_u64_max(s: &[char], max: u64) -> (r: Option<u64>)
    ensures
        match r {
            Some(v) => parse_unsigned(s@, max as int) == Some(v as int),
            None => parse_unsigned(s@, max as int) is None,
        },
{
    let from: usize = if s.len() > 0 && s[0] == '+' {
        1
    } else {
        0
    };
    assert(s@.skip(0) =~= s@);
    if from == s.len() {
        return None;
    }
    decimal_upto(s, from, max)
}

pub fn parse_i32(s: &[char]) -> (r: Option<i32>)
    ensures
        match r {
            Some(v) => parse_i32_spec(s@) == Some(v as int),
            None => parse_i32_spec(s@) is None,
        },
{
    if s.len() > 0 && s[0] == '-' {
        if s.len() == 1 {
            return None;
        }
        match decimal_upto(s, 1, 0x8000_0000) {
            Some(v) => Some((0 - (v as i64)) as i32),
            None => None,
        }
    } else {
        match parse_u64_max(s, 0x7fff_ffff) {
            Some(v) => Some(v as i32),
            None => None,
        }
    }
}

pub fn parse_hex_u32(s: &[char]) -> (r: Option<u32>)
    ensures
        match r {
            Some(v) => parse_hex_spec(s@) == Some(v as int),
            None => parse_hex_spec(s@) is None,
        },
{
    let from: usize = if s.len() > 0 && s[0] == '+' {
        1
    } else {
        0
    };
    assert(s@.skip(0) =~= s@);
    if from == s.len() {
        return None;
    }
    let ghost d = s@.skip(from as int);
    let mut v: u64 = 0;
    let mut i = from;
    while i < s.len()
        invariant
            from <= i <= s.len(),
            d == s@.skip(from as int),
            all_hex(d.take(i - from)),
            v == hexadecimal(d.take(i - from)),
            v <= 0xffff_ffff,
            from as int == (if s@.len() > 0 && s@[0] == '+' { 1int } else { 0int }),
            d == (if s@.len() > 0 && s@[0] == '+' { s@.skip(1) } else { s@ }),
            from < s.len(),
        decreases s.len() - i,
    {
        let c = s[i];
        let hv: u64 = if '0' <= c && c <= '9' {
            (c as u64) - ('0' as u64)
        } else if 'a' <= c && c <= 'f' {
            (c as u64) - ('a' as u64) + 10
        } else if 'A' <= c && c <= 'F' {
            (c as u64) - ('A' as u64) + 10
        } else {
            assert(d[i - from] == c);
            assert(!is_hex(d[i - from]));
            return None;
        };
        let ghost prev = d.take(i - from);
        assert(d.take(i + 1 - from).drop_last() =~= prev);
        if v > 0x0fff_ffff {
            proof {
                let t = d.take(i + 1 - from);
                assert(all_hex(t)) by {
                    assert forall|k: int| 0 <= k < t.len() implies is_hex(#[trigger] t[k]) by {
                        if k < t.len() - 1 {
                            assert(t[k] == prev[k]);
                        }
                    }
                }
                assert(t.drop_last() == prev);
                assert(hex_value(t.last()) >= 0);
                assert(hexadecimal(t) == hexadecimal(prev) * 16 + hex_value(t.last()));
                assert(hexadecimal(prev) * 16 > 0xffff_ffff) by (nonlinear_arith)
                    requires
                        hexadecimal(prev) > 0x0fff_ffff,
                ;
                assert(hexadecimal(t) > 0xffff_ffff);
                // Every further digit keeps the value above the limit.
                lemma_hex_grows(d, i + 1 - from);
                assert(!all_hex(d) || hexadecimal(d) > 0xffff_ffff);
            }
            return None;
        }
        v = v * 16 + hv;
        i = i + 1;
        assert(all_hex(d.take(i - from))) by {
            assert forall|k: int| 0 <= k < i - from implies is_hex(#[trigger] d.take(i - from)[k]) by {
                if k < i - 1 - from {
                    assert(d.take(i - from)[k] == prev[k]);
                }
            }
        }
    }
    assert(d.take(s.len() - from) =~= d);
    Some(v as u32)
}

/// Appending hex digits never makes the value smaller.
proof fn lemma_hex_grows(d: Seq<char>, n: int)
    requires
        0 <= n <= d.len(),
        hexadecimal(d.take(n)) > 0xffff_ffff,
    ensures
        !all_hex(d) || hexadecimal(d) > 0xffff_ffff,
    decreases d.len() - n,
{
    if n < d.len() && all_hex(d) {
        assert(d.take(n + 1).drop_last() =~= d.take(n));
        assert(is_hex(d[n]));
        assert(hex_value(d[n]) >= 0);
        lemma_hex_grows(d, n + 1);
    } else if n == d.len() {
        assert(d.take(n) =~= d);
    }
}

// --- writing numbers -----------------------------------------------------------------

pub open spec fn digit_char(d: int) -> char {
    ((d + 48) as u32) as char
}

pub open spec fn hex_char(d: int) -> char {
    if d < 10 {
        ((d + 48) as u32) as char
    } else {
        ((d + 87) as u32) as char
    }
}

/// The decimal digits of `n`, without leading zeros ("0" for zero).
pub open spec fn decimal_text(n: nat) -> Seq<char>
    decreases n,
{
    if n < 10 {
        seq![digit_char(n as int)]
    } else {
        decimal_text(n / 10).push(digit_char((n % 10) as int))
    }
}

/// `format!("{}", n)` for a signed integer.
pub open spec fn signed_text(n: int) -> Seq<char> {
    if n < 0 {
        seq!['-'] + decimal_text((-n) as nat)
    } else {
        decimal_text(n as nat)
    }
}

/// The last `width` hexadecimal digits of `n`, lower case, zero padded.
pub open spec fn hex_text(n: nat, width: nat) -> Seq<char>
    decreases width,
{
    if width == 0 {
        Seq::empty()
    } else {
        hex_text(n / 16, (width - 1) as nat).push(hex_char((n % 16) as int))
    }
}

/// Appends `n` in decimal.
pub fn push_unsigned(out: &mut String, n: u64)
    ensures
        final(out)@ == old(out)@ + decimal_text(n as nat),
    decreases n,
{
    if n >= 10 {
        push_unsigned(out, n / 10);
    }
    let d = (n % 10) as u8;
    push_char(out, (d + 48) as char);
    proof {
        if n >= 10 {
            assert(decimal_text(n as nat) == decimal_text((n / 10) as nat).push(
                digit_char((n % 10) as int),
            ));
        }
    }
}

/// The hexadecimal digits of `n`, lower case, without leading zeros ("0"
/// for zero): `format!("{:x}", n)`.
pub open spec fn hex_digits(n: nat) -> Seq<char>
    decreases n,
{
    if n < 16 {
        seq![hex_char(n as int)]
    } else {
        hex_digits(n / 16).push(hex_char((n % 16) as int))
    }
}

/// Appends `n` in hexadecimal.
pub fn push_hex_digits(out: &mut String, n: u64)
    ensures
        final(out)@ == old(out)@ + hex_digits(n as nat),
    decreases n,
{
    if n >= 16 {
        push_hex_digits(out, n / 16);
    }
    let d = (n % 16) as u8;
    if d < 10 {
        push_char(out, (d + 48) as char);
    } else {
        push_char(out, (d + 87) as char);
    }
    proof {
        if n >= 16 {
            assert(hex_digits(n as nat) == hex_digits((n / 16) as nat).push(
                hex_char((n % 16) as int),
            ));
        }
    }
}

pub open spec fn hex_upper_char(d: int) -> char {
    if d < 10 {
        ((d + 48) as u32) as char
    } else {
        ((d + 55) as u32) as char
    }
}

/// `format!("{:X}", n)`: upper-case hexadecimal digits, without leading
/// zeros.
pub open spec fn hex_upper_digits(n: nat) -> Seq<char>
    decreases n,
{
    if n < 16 {
        seq![hex_upper_char(n as int)]
    } else {
        hex_upper_digits(n / 16).push(hex_upper_char((n % 16) as int))
    }
}

/// Appends `n` in upper-case hexadecimal.
pub fn push_hex_upper(out: &mut String, n: u64)
    ensures
        final(out)@ == old(out)@ + hex_upper_digits(n as nat),
    decreases n,
{
    if n >= 16 {
        push_hex_upper(out, n / 16);
    }
    let d = (n % 16) as u8;
    if d < 10 {
        push_char(out, (d + 48) as char);
    } else {
        push_char(out, (d + 55) as char);
    }
    proof {
        if n >= 16 {
            assert(hex_upper_digits(n as nat) == hex_upper_digits((n / 16) as nat).push(
                hex_upper_char((n % 16) as int),
            ));
        }
    }
}

/// Appends `n` in decimal.
pub fn push_signed(out: &mut String, n: i64)
    ensures
        final(out)@ == old(out)@ + signed_text(n as int),
{
    if n < 0 {
        push_char(out, '-');
        let m: u64 = if n == i64::MIN {
            0x8000_0000_0000_0000u64
        } else {
            (-n) as u64
        };
        let ghost mid = out@;
        push_unsigned(out, m);
        assert(out@ =~= old(out)@ + (seq!['-'] + decimal_text(m as nat)));
    } else {
        push_unsigned(out, n as u64);
    }
}

/// `format!("{:0width$x}", n)` for values that fit in `width` digits.
pub fn push_hex(out: &mut String, n: u64, width: u32)
    requires
        width <= 16,
    ensures
        final(out)@ == old(out)@ + hex_text(n as nat, width as nat),
    decreases width,
{
    if width == 0 {
        assert(hex_text(n as nat, 0) =~= Seq::<char>::empty());
        return ;
    }
    push_hex(out, n / 16, width - 1);
    let d = (n % 16) as u8;
    if d < 10 {
        push_char(out, (d + 48) as char);
    } else {
        push_char(out, (d + 87) as char);
    }
}

// --- reading back what was written --------------------------------------------------------

/// `s` does not hold `c`.
pub open spec fn lacks(s: Seq<char>, c: char) -> bool {
    forall|i: int| 0 <= i < s.len() ==> s[i] != c
}

proof fn lemma_lacks_drop_last(s: Seq<char>, c: char)
    requires
        lacks(s, c),
        s.len() > 0,
    ensures
        lacks(s.drop_last(), c),
{
    assert forall|i: int| 0 <= i < s.drop_last().len() implies s.drop_last()[i] != c by {
        assert(s.drop_last()[i] == s[i]);
    }
}

/// Splitting what does not hold the separator gives it whole.
pub proof fn lemma_split_lacking(s: Seq<char>, c: char)
    requires
        lacks(s, c),
    ensures
        split(s, c) == seq![s],
    decreases s.len(),
{
    if s.len() == 0 {
        assert(s =~= Seq::<char>::empty());
    } else {
        lemma_lacks_drop_last(s, c);
        lemma_split_lacking(s.drop_last(), c);
        assert(s.last() != c);
        assert(s.drop_last().push(s.last()) =~= s);
        assert(seq![s.drop_last()].update(0, s.drop_last().push(s.last())) =~= seq![s]);
    }
}

/// Text without the separator appended to `s` lengthens its last piece.
pub proof fn lemma_split_append(s: Seq<char>, t: Seq<char>, c: char)
    requires
        lacks(t, c),
    ensures
        split(s + t, c) == split(s, c).update(split(s, c).len() - 1, split(s, c).last() + t),
    decreases t.len(),
{
    lemma_split_len(s, c);
    let p = split(s, c);
    if t.len() == 0 {
        assert(s + t =~= s);
        assert(p.last() + t =~= p.last());
        assert(p.update(p.len() - 1, p.last() + t) =~= p);
    } else {
        let t0 = t.drop_last();
        lemma_lacks_drop_last(t, c);
        lemma_split_append(s, t0, c);
        assert((s + t).drop_last() =~= s + t0);
        assert((s + t).last() == t.last());
        assert(t.last() != c);
        let q = p.update(p.len() - 1, p.last() + t0);
        assert(q.last() == p.last() + t0);
        assert((p.last() + t0).push(t.last()) =~= p.last() + t);
        assert(q.update(q.len() - 1, q.last().push(t.last())) =~= p.update(p.len() - 1, p.last() + t));
    }
}

/// A separator appended to `s` starts an empty piece.
pub proof fn lemma_split_sep(s: Seq<char>, c: char)
    ensures
        split(s.push(c), c) == split(s, c).push(Seq::<char>::empty()),
{
    assert(s.push(c).drop_last() =~= s);
}

/// Pieces joined by `c`, none holding it, split back into themselves.
pub proof fn lemma_split_join(pieces: Seq<Seq<char>>, c: char)
    requires
        pieces.len() > 0,
        forall|i: int| 0 <= i < pieces.len() ==> lacks(#[trigger] pieces[i], c),
    ensures
        split(join(pieces, seq![c]), c) == pieces,
    decreases pieces.len(),
{
    if pieces.len() == 1 {
        assert(lacks(pieces[0], c));
        lemma_split_lacking(pieces[0], c);
        assert(seq![pieces[0]] =~= pieces);
    } else {
        let front = pieces.drop_last();
        assert forall|i: int| 0 <= i < front.len() implies lacks(#[trigger] front[i], c) by {
            assert(front[i] == pieces[i]);
        }
        lemma_split_join(front, c);
        let j = join(front, seq![c]);
        assert(j + seq![c] =~= j.push(c));
        lemma_split_sep(j, c);
        assert(lacks(pieces.last(), c));
        lemma_split_append(j.push(c), pieces.last(), c);
        assert(join(pieces, seq![c]) =~= j.push(c) + pieces.last());
        let q = front.push(Seq::<char>::empty());
        assert(q.last() + pieces.last() =~= pieces.last());
        assert(q.update(q.len() - 1, q.last() + pieces.last()) =~= pieces);
    }
}

/// Lines, each followed by a line break.
pub open spec fn terminated(ls: Seq<Seq<char>>) -> Seq<char>
    decreases ls.len(),
{
    if ls.len() == 0 {
        Seq::empty()
    } else {
        terminated(ls.drop_last()) + ls.last() + seq!['\n']
    }
}

/// A line `str::lines` gives back as it is: no line break in it, no carriage
/// return ending it.
pub open spec fn plain_line(l: Seq<char>) -> bool {
    lacks(l, '\n') && !(l.len() > 0 && l.last() == '\r')
}

proof fn lemma_split_terminated(ls: Seq<Seq<char>>)
    requires
        forall|i: int| 0 <= i < ls.len() ==> lacks(#[trigger] ls[i], '\n'),
    ensures
        split(terminated(ls), '\n') == ls.push(Seq::<char>::empty()),
    decreases ls.len(),
{
    if ls.len() == 0 {
        assert(terminated(ls) =~= Seq::<char>::empty());
        assert(ls.push(Seq::<char>::empty()) =~= seq![Seq::<char>::empty()]);
    } else {
        let front = ls.drop_last();
        assert forall|i: int| 0 <= i < front.len() implies lacks(#[trigger] front[i], '\n') by {
            assert(front[i] == ls[i]);
        }
        lemma_split_terminated(front);
        let x = terminated(front);
        let l = ls.last();
        assert(lacks(l, '\n'));
        assert(terminated(ls) =~= (x + l).push('\n'));
        lemma_split_sep(x + l, '\n');
        lemma_split_append(x, l, '\n');
        let q = front.push(Seq::<char>::empty());
        assert(q.last() + l =~= l);
        assert(q.update(q.len() - 1, q.last() + l) =~= ls);
    }
}

/// `str::lines` gives back lines written each with its line break.
pub proof fn lemma_lines_terminated(ls: Seq<Seq<char>>)
    requires
        forall|i: int| 0 <= i < ls.len() ==> plain_line(#[trigger] ls[i]),
    ensures
        lines(terminated(ls)) == ls,
{
    assert forall|i: int| 0 <= i < ls.len() implies lacks(#[trigger] ls[i], '\n') by {
        assert(plain_line(ls[i]));
    }
    lemma_split_terminated(ls);
    let pieces = ls.push(Seq::<char>::empty());
    assert forall|i: int| 0 <= i < ls.len() implies strip_cr(pieces[i]) == ls[i] by {
        assert(pieces[i] == ls[i]);
        assert(plain_line(ls[i]));
    }
    assert(lines(terminated(ls)) =~= ls);
}

proof fn lemma_digit_char(d: int)
    requires
        0 <= d < 10,
    ensures
        is_digit(digit_char(d)),
        digit_value(digit_char(d)) == d,
{
    assert(((d + 48) as u32) as int == d + 48);
}

/// The digits `decimal_text` writes read back as the number.
pub proof fn lemma_decimal_text(n: nat)
    ensures
        decimal_text(n).len() > 0,
        all_digits(decimal_text(n)),
        decimal(decimal_text(n)) == n,
    decreases n,
{
    if n < 10 {
        lemma_digit_char(n as int);
        assert(seq![digit_char(n as int)].drop_last() =~= Seq::<char>::empty());
        assert(decimal(Seq::<char>::empty()) == 0);
    } else {
        lemma_decimal_text(n / 10);
        lemma_digit_char((n % 10) as int);
        let t = decimal_text(n / 10);
        let d = digit_char((n % 10) as int);
        assert(t.push(d).drop_last() =~= t);
        assert(decimal(t.push(d)) == decimal(t) * 10 + digit_value(d));
        assert((n / 10) * 10 + n % 10 == n) by (nonlinear_arith);
        assert forall|i: int| 0 <= i < t.push(d).len() implies is_digit(#[trigger] t.push(d)[i]) by {
            if i < t.len() {
                assert(t.push(d)[i] == t[i]);
            }
        }
    }
}

/// `str::parse` reads back what `push_unsigned` writes.
pub proof fn lemma_parse_decimal_text(n: nat, max: int)
    requires
        n <= max,
    ensures
        parse_unsigned(decimal_text(n), max) == Some(n as int),
{
    lemma_decimal_text(n);
    assert(is_digit(decimal_text(n)[0]));
}

/// Text without white space at either end.
pub open spec fn trimmed(s: Seq<char>) -> bool {
    s.len() == 0 || (!is_ws(s[0]) && !is_ws(s.last()))
}

/// Trimming what has no white space at either end changes nothing.
pub proof fn lemma_trim_trimmed(s: Seq<char>)
    requires
        trimmed(s),
    ensures
        trim(s) == s,
{
}

/// A space before trimmed text is trimmed off.
pub proof fn lemma_trim_space_before(s: Seq<char>)
    requires
        trimmed(s),
    ensures
        trim(seq![' '] + s) == s,
{
    let t = seq![' '] + s;
    assert(t.skip(1) =~= s);
    assert(trim_start(t) == trim_start(s));
    if s.len() == 0 {
        assert(trim_end(s) == s);
    }
}

/// A space after trimmed text is trimmed off.
pub proof fn lemma_trim_space_after(s: Seq<char>)
    requires
        trimmed(s),
    ensures
        trim(s + seq![' ']) == s,
{
    let t = s + seq![' '];
    if s.len() == 0 {
        assert(t =~= seq![' ']);
        assert(t.skip(1) =~= Seq::<char>::empty());
        assert(trim_start(t) == trim_start(Seq::<char>::empty()));
    } else {
        assert(t[0] == s[0]);
        assert(trim_start(t) == t);
        assert(t.drop_last() =~= s);
        assert(trim_end(t) == trim_end(s));
    }
}

/// Lines written one after the other: the text of the first, then of the
/// second.
pub proof fn lemma_terminated_concat(a: Seq<Seq<char>>, b: Seq<Seq<char>>)
    ensures
        terminated(a + b) == terminated(a) + terminated(b),
    decreases b.len(),
{
    if b.len() == 0 {
        assert(a + b =~= a);
        assert(terminated(a) + Seq::<char>::empty() =~= terminated(a));
    } else {
        lemma_terminated_concat(a, b.drop_last());
        assert((a + b).drop_last() =~= a + b.drop_last());
        assert((a + b).last() == b.last());
    }
}

/// Trimming the end keeps a first character that is not white space.
pub proof fn lemma_trim_end_keeps_first(s: Seq<char>)
    requires
        s.len() > 0,
        !is_ws(s[0]),
    ensures
        trim_end(s).len() > 0,
        trim_end(s)[0] == s[0],
    decreases s.len(),
{
    if s.len() > 1 && is_ws(s.last()) {
        lemma_trim_end_keeps_first(s.drop_last());
    }
}

/// Each piece after the first with `t` before it.
pub open spec fn spaced(xs: Seq<Seq<char>>, t: Seq<char>) -> Seq<Seq<char>> {
    Seq::new(xs.len(), |i: int| if i == 0 { xs[0] } else { t + xs[i] })
}

/// Joining with `c` then `t` is joining with `c` the pieces after the first
/// preceded by `t`.
pub proof fn lemma_join_spaced(xs: Seq<Seq<char>>, c: char, t: Seq<char>)
    ensures
        join(xs, seq![c] + t) == join(spaced(xs, t), seq![c]),
    decreases xs.len(),
{
    if xs.len() == 1 {
        assert(spaced(xs, t)[0] == xs[0]);
    } else if xs.len() > 1 {
        lemma_join_spaced(xs.drop_last(), c, t);
        assert(spaced(xs, t).drop_last() =~= spaced(xs.drop_last(), t));
        assert(spaced(xs, t).last() == t + xs.last());
        assert(join(xs.drop_last(), seq![c] + t) + (seq![c] + t) + xs.last() =~= join(
            spaced(xs.drop_last(), t),
            seq![c],
        ) + seq![c] + (t + xs.last()));
    } else {
        assert(spaced(xs, t) =~= Seq::<Seq<char>>::empty());
    }
}

pub proof fn lemma_eq_ignore_case_refl(a: Seq<char>)
    ensures
        eq_ignore_case(a, a),
{
}

/// Pieces without `c`, joined by a separator without it, hold no `c`.
pub proof fn lemma_join_lacks(pieces: Seq<Seq<char>>, sep: Seq<char>, c: char)
    requires
        forall|i: int| 0 <= i < pieces.len() ==> lacks(#[trigger] pieces[i], c),
        lacks(sep, c),
    ensures
        lacks(join(pieces, sep), c),
    decreases pieces.len(),
{
    if pieces.len() > 1 {
        let front = pieces.drop_last();
        assert forall|i: int| 0 <= i < front.len() implies lacks(#[trigger] front[i], c) by {
            assert(front[i] == pieces[i]);
        }
        lemma_join_lacks(front, sep, c);
        let j = join(front, sep);
        let l = pieces.last();
        assert(lacks(l, c));
        assert forall|i: int| 0 <= i < (j + sep + l).len() implies (j + sep + l)[i] != c by {
            if i < j.len() {
            } else if i < j.len() + sep.len() {
                assert((j + sep + l)[i] == sep[i - j.len()]);
            } else {
                assert((j + sep + l)[i] == l[i - j.len() - sep.len()]);
            }
        }
    } else if pieces.len() == 1 {
        assert(lacks(pieces[0], c));
    }
}

/// Joined pieces, none empty, start as the first and end as the last.
pub proof fn lemma_join_ends(pieces: Seq<Seq<char>>, sep: Seq<char>)
    requires
        pieces.len() > 0,
        forall|i: int| 0 <= i < pieces.len() ==> (#[trigger] pieces[i]).len() > 0,
    ensures
        join(pieces, sep).len() > 0,
        join(pieces, sep)[0] == pieces[0][0],
        join(pieces, sep).last() == pieces.last().last(),
    decreases pieces.len(),
{
    if pieces.len() > 1 {
        let front = pieces.drop_last();
        assert forall|i: int| 0 <= i < front.len() implies (#[trigger] front[i]).len() > 0 by {
            assert(front[i] == pieces[i]);
        }
        lemma_join_ends(front, sep);
        assert(front[0] == pieces[0]);
        assert(pieces.last().len() > 0);
    } else {
        assert(pieces[0].len() > 0);
    }
}

} // verus!
