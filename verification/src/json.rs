//! A small JSON writer for the answers handed to the menu.
use vstd::prelude::*;
use crate::text::{push_char, push_signed, push_str, signed_text, hex_text};

verus! {

/// What a writer has produced so far: the text, and for each open object or
/// array whether the next value in it needs a comma first.
pub struct JsonView {
    pub out: Seq<char>,
    pub open: Seq<bool>,
}

pub struct Json {
    out: String,
    needs_comma: Vec<bool>,
}

impl View for Json {
    type V = JsonView;

    closed spec fn view(&self) -> JsonView {
        JsonView { out: self.out@, open: self.needs_comma@ }
    }
}

/// Marks the innermost open container, if any.
pub open spec fn mark_last(open: Seq<bool>, b: bool) -> Seq<bool> {
    if open.len() > 0 {
        open.update(open.len() - 1, b)
    } else {
        open
    }
}

/// The comma written before a value, when one came before it in the same container.
pub open spec fn separated(v: JsonView) -> JsonView {
    if v.open.len() > 0 && v.open.last() {
        JsonView { out: v.out.push(','), open: v.open }
    } else {
        JsonView { out: v.out, open: mark_last(v.open, true) }
    }
}

/// `{:04x}` of a code point below 0x20, after `\u`.
pub open spec fn escape_char(c: char) -> Seq<char> {
    if c == '"' {
        seq!['\\', '"']
    } else if c == '\\' {
        seq!['\\', '\\']
    } else if c == '\n' {
        seq!['\\', 'n']
    } else if c == '\r' {
        seq!['\\', 'r']
    } else if c == '\t' {
        seq!['\\', 't']
    } else if (c as u32) < 0x20 {
        seq!['\\', 'u'] + hex_text(c as nat, 4)
    } else {
        seq![c]
    }
}

pub open spec fn escaped(s: Seq<char>) -> Seq<char>
    decreases s.len(),
{
    if s.len() == 0 {
        Seq::empty()
    } else {
        escaped(s.drop_last()) + escape_char(s.last())
    }
}

/// A JSON string literal holding `s`.
pub open spec fn quoted(s: Seq<char>) -> Seq<char> {
    seq!['"'] + escaped(s) + seq!['"']
}

/// The state after a key and its colon: the value that follows adds no comma.
pub open spec fn keyed(v: JsonView, key: Seq<char>) -> JsonView {
    let s = separated(v);
    JsonView { out: s.out + quoted(key) + seq![':'], open: mark_last(s.open, false) }
}

/// The state after a value has been written.
pub open spec fn after_value(v: JsonView) -> JsonView {
    JsonView { out: v.out, open: mark_last(v.open, true) }
}

/// Opens a container with `bracket`.
pub open spec fn opened(v: JsonView, bracket: char) -> JsonView {
    JsonView { out: v.out.push(bracket), open: v.open.push(false) }
}

/// Closes the innermost container with `bracket`.
pub open spec fn closed(v: JsonView, bracket: char) -> JsonView {
    after_value(
        JsonView {
            out: v.out.push(bracket),
            open: if v.open.len() > 0 { v.open.drop_last() } else { v.open },
        },
    )
}

/// A field whose value is `text`, written as it stands.
pub open spec fn raw_field(v: JsonView, key: Seq<char>, text: Seq<char>) -> JsonView {
    let k = keyed(v, key);
    after_value(JsonView { out: k.out + text, open: k.open })
}

/// The integer part of a number of tenths, as Rust's `/` gives it.
pub open spec fn tenths_whole(t: int) -> int {
    if t >= 0 { t / 10 } else { -((-t) / 10) }
}

/// The digit after the point, as Rust's `%` gives it (negative for negative values).
pub open spec fn tenths_digit(t: int) -> int {
    if t >= 0 { t % 10 } else { -((-t) % 10) }
}

fn push_escaped_char(out: &mut String, c: char)
    ensures
        final(out)@ == old(out)@ + escape_char(c),
{
    if c == '"' {
        push_char(out, '\\');
        push_char(out, '"');
    } else if c == '\\' {
        push_char(out, '\\');
        push_char(out, '\\');
    } else if c == '\n' {
        push_char(out, '\\');
        push_char(out, 'n');
    } else if c == '\r' {
        push_char(out, '\\');
        push_char(out, 'r');
    } else if c == '\t' {
        push_char(out, '\\');
        push_char(out, 't');
    } else if (c as u32) < 0x20 {
        push_char(out, '\\');
        push_char(out, 'u');
        crate::text::push_hex(out, c as u32 as u64, 4);
    } else {
        push_char(out, c);
    }
    assert(out@ =~= old(out)@ + escape_char(c));
}

/// Appends `value` as a JSON string literal.
fn push_string(out: &mut String, value: &str)
    ensures
        final(out)@ == old(out)@ + quoted(value@),
{
    let ghost start = out@;
    push_char(out, '"');
    let chars = crate::text::chars_of(value);
    let mut i: usize = 0;
    while i < chars.len()
        invariant
            i <= chars.len(),
            chars@ == value@,
            out@ == start.push('"') + escaped(chars@.take(i as int)),
        decreases chars.len() - i,
    {
        push_escaped_char(out, chars[i]);
        proof {
            let t = chars@.take(i + 1);
            assert(t.drop_last() =~= chars@.take(i as int));
            assert(t.last() == chars@[i as int]);
        }
        i = i + 1;
    }
    push_char(out, '"');
    assert(chars@.take(chars.len() as int) =~= chars@);
    assert(out@ =~= start + quoted(value@));
}

impl Json {
    pub fn new() -> (j: Json)
        ensures
            j@.out == Seq::<char>::empty(),
            j@.open == Seq::<bool>::empty(),
    {
        Json { out: String::new(), needs_comma: Vec::new() }
    }

    fn separator(&mut self)
        ensures
            final(self)@ == separated(old(self)@),
    {
        let n = self.needs_comma.len();
        if n > 0 {
            if self.needs_comma[n - 1] {
                push_char(&mut self.out, ',');
            } else {
                self.needs_comma.set(n - 1, true);
            }
        }
    }

    fn set_last(&mut self, b: bool)
        ensures
            final(self)@.out == old(self)@.out,
            final(self)@.open == mark_last(old(self)@.open, b),
    {
        let n = self.needs_comma.len();
        if n > 0 {
            self.needs_comma.set(n - 1, b);
        }
    }

    fn key(&mut self, key: &str)
        ensures
            final(self)@ == keyed(old(self)@, key@),
    {
        self.separator();
        push_string(&mut self.out, key);
        push_char(&mut self.out, ':');
        self.set_last(false);
        assert(self@.out =~= keyed(old(self)@, key@).out);
    }

    fn open_with(&mut self, bracket: char)
        ensures
            final(self)@ == opened(old(self)@, bracket),
    {
        push_char(&mut self.out, bracket);
        self.needs_comma.push(false);
    }

    fn close_with(&mut self, bracket: char)
        ensures
            final(self)@ == closed(old(self)@, bracket),
    {
        self.needs_comma.pop();
        push_char(&mut self.out, bracket);
        self.set_last(true);
    }

    /// Starts an object as the next value.
    pub fn begin_object(&mut self) -> (r: &mut Self)
        ensures
            r@ == opened(separated(old(self)@), '{'),
            *final(self) == *final(r),
    {
        self.separator();
        self.open_with('{');
        self
    }
    /// Closes the innermost object.
    pub fn end_object(&mut self) -> (r: &mut Self)
        ensures
            r@ == closed(old(self)@, '}'),
            *final(self) == *final(r),
    {
        self.close_with('}');
        self
    }
    /// Closes the innermost array.
    pub fn end_array(&mut self) -> (r: &mut Self)
        ensures
            r@ == closed(old(self)@, ']'),
            *final(self) == *final(r),
    {
        self.close_with(']');
        self
    }

    /// Starts an object as the value of `key`.
    pub fn object_field(&mut self, key: &str) -> (r: &mut Self)
        ensures
            r@ == opened(keyed(old(self)@, key@), '{'),
            *final(self) == *final(r),
    {
        self.key(key);
        self.open_with('{');
        self
    }

    /// Starts an array as the value of `key`.
    pub fn array_field(&mut self, key: &str) -> (r: &mut Self)
        ensures
            r@ == opened(keyed(old(self)@, key@), '['),
            *final(self) == *final(r),
    {
        self.key(key);
        self.open_with('[');
        self
    }

    /// A string as the next value.
    pub fn string(&mut self, value: &str) -> (r: &mut Self)
        ensures
            r@.out == separated(old(self)@).out + quoted(value@),
            r@.open == separated(old(self)@).open,
            *final(self) == *final(r),
    {
        self.separator();
        push_string(&mut self.out, value);
        self
    }

    /// A number as the next value.
    pub fn number(&mut self, value: i64) -> (r: &mut Self)
        ensures
            r@.out == separated(old(self)@).out + signed_text(value as int),
            r@.open == separated(old(self)@).open,
            *final(self) == *final(r),
    {
        self.separator();
        push_signed(&mut self.out, value);
        self
    }

    fn raw_value(&mut self, key: &str, text: &str)
        ensures
            final(self)@ == raw_field(old(self)@, key@, text@),
    {
        self.key(key);
        push_str(&mut self.out, text);
        self.set_last(true);
    }

    /// A field holding a string.
    pub fn field_str(&mut self, key: &str, value: &str) -> (r: &mut Self)
        ensures
            r@ == raw_field(old(self)@, key@, quoted(value@)),
            *final(self) == *final(r),
    {
        self.key(key);
        push_string(&mut self.out, value);
        self.set_last(true);
        self
    }

    /// A field holding a string, or `null`.
    pub fn field_opt_str(&mut self, key: &str, value: Option<&str>) -> (r: &mut Self)
        ensures
            r@ == raw_field(
                old(self)@,
                key@,
                match value {
                    Some(v) => quoted(v@),
                    None => seq!['n', 'u', 'l', 'l'],
                },
            ),
            *final(self) == *final(r),
    {
        match value {
            Some(v) => {
                self.key(key);
                push_string(&mut self.out, v);
                self.set_last(true);
            },
            None => {
                self.raw_value(key, "null");
                proof {
                    reveal_strlit("null");
                    assert("null"@ =~= seq!['n', 'u', 'l', 'l']);
                }
            },
        }
        self
    }

    /// A field holding `true` or `false`.
    pub fn field_bool(&mut self, key: &str, value: bool) -> (r: &mut Self)
        ensures
            r@ == raw_field(
                old(self)@,
                key@,
                if value {
                    seq!['t', 'r', 'u', 'e']
                } else {
                    seq!['f', 'a', 'l', 's', 'e']
                },
            ),
            *final(self) == *final(r),
    {
        if value {
            self.raw_value(key, "true");
            proof {
                reveal_strlit("true");
                assert("true"@ =~= seq!['t', 'r', 'u', 'e']);
            }
        } else {
            self.raw_value(key, "false");
            proof {
                reveal_strlit("false");
                assert("false"@ =~= seq!['f', 'a', 'l', 's', 'e']);
            }
        }
        self
    }

    /// A field holding a number.
    pub fn field_num(&mut self, key: &str, value: i64) -> (r: &mut Self)
        ensures
            r@ == raw_field(old(self)@, key@, signed_text(value as int)),
            *final(self) == *final(r),
    {
        self.key(key);
        push_signed(&mut self.out, value);
        self.set_last(true);
        self
    }

    /// A field holding a count of tenths written with one decimal, the way
    /// `format!("{}.{}", tenths / 10, tenths % 10)` writes it.
    pub fn field_tenths(&mut self, key: &str, tenths: i64) -> (r: &mut Self)
        ensures
            r@ == raw_field(
                old(self)@,
                key@,
                signed_text(tenths_whole(tenths as int)) + seq!['.'] + signed_text(
                    tenths_digit(tenths as int),
                ),
            ),
            *final(self) == *final(r),
    {
        self.key(key);
        let ghost mid = self.out@;
        let (whole, digit): (i64, i64) = if tenths >= 0 {
            (tenths / 10, tenths % 10)
        } else {
            let m: u64 = if tenths == i64::MIN {
                0x8000_0000_0000_0000u64
            } else {
                (-tenths) as u64
            };
            (-((m / 10) as i64), -((m % 10) as i64))
        };
        push_signed(&mut self.out, whole);
        push_char(&mut self.out, '.');
        push_signed(&mut self.out, digit);
        self.set_last(true);
        assert(self@.out =~= mid + (signed_text(tenths_whole(tenths as int)) + seq!['.']
            + signed_text(tenths_digit(tenths as int))));
        self
    }

    /// The text written.
    pub fn finish(self) -> (s: String)
        ensures
            s@ == self@.out,
    {
        self.out
    }
}

} // verus!
