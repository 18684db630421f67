//! Reading and writing the pieces of a changelog index.
use vstd::prelude::*;
use super::wire::{
    cheat_entry_item, cheat_item, enc_body, enc_cheat, enc_cheat_entry_item, enc_cheat_item, enc_entry, enc_entry_item, enc_line_item, enc_list, enc_many, enc_pair_item, enc_patch, enc_patch_item, enc_string, enc_string_item, enc_strings, enc_u32_item, enc_word_item, encode, entry_item, i32_item, line_item, lossy_string, p_body, p_changelog, p_cheat, p_count, p_entry, p_i32, p_list, p_many, p_patch, p_string, p_u32, p_word, pair_item, patch_item, string_item, u32_item, word, EntryType, CHANGELOG_MAGIC, MAX_COUNT,
};
use super::{
    cheat_entries_view, cheats_view, entries_view, lines_view, patches_view, Changelog, ChangelogEntry, Cheat, Patch,
};
use crate::text::{push_str};

verus! {

pub open spec fn strs(v: Seq<String>) -> Seq<Seq<char>> {
    v.map_values(|s: String| s@)
}

/// `enc_many` over one more item.
pub proof fn lemma_enc_step<T>(xs: Seq<T>, i: int, enc: spec_fn(T) -> Seq<u8>)
    requires
        0 <= i < xs.len(),
    ensures
        enc_many(xs.take(i + 1), enc) == enc_many(xs.take(i), enc) + enc(xs[i]),
{
    assert(xs.take(i + 1).drop_last() =~= xs.take(i));
}

/// Once one item fails, every longer run fails.
pub proof fn lemma_many_fails<T>(
    d: Seq<u8>,
    p: int,
    k: nat,
    n: nat,
    item: spec_fn(Seq<u8>, int) -> Option<(T, int)>,
)
    requires
        k <= n,
        p_many(d, p, k, item) is None,
    ensures
        p_many(d, p, n, item) is None,
    decreases n - k,
{
    if k < n {
        lemma_many_fails(d, p, k + 1, n, item);
    }
}

// --- writing -------------------------------------------------------------------------

/// Appends the four bytes of `n`.
pub fn push_word(out: &mut Vec<u8>, n: u32)
    ensures
        final(out)@ == old(out)@ + word(n as int),
{
    out.push((n % 256) as u8);
    out.push(((n / 256) % 256) as u8);
    out.push(((n / 0x1_0000) % 256) as u8);
    out.push(((n / 0x100_0000) % 256) as u8);
    assert(out@ =~= old(out)@ + word(n as int));
}

pub fn push_i32(out: &mut Vec<u8>, v: i32)
    ensures
        final(out)@ == old(out)@ + word(v as int),
{
    let u: u32 = if v < 0 {
        (v as i64 + 0x1_0000_0000i64) as u32
    } else {
        v as u32
    };
    push_word(out, u);
    assert(word(u as int) == word(v as int));
}

/// Appends the low 32 bits of a length.
pub fn push_len(out: &mut Vec<u8>, n: usize)
    ensures
        final(out)@ == old(out)@ + word(n as int),
{
    let u: u32 = ((n as u64) % 0x1_0000_0000u64) as u32;
    push_word(out, u);
    assert(word(u as int) == word(n as int));
}

pub fn push_bytes(out: &mut Vec<u8>, bytes: &[u8])
    ensures
        final(out)@ == old(out)@ + bytes@,
{
    let ghost start = out@;
    let mut i: usize = 0;
    while i < bytes.len()
        invariant
            i <= bytes.len(),
            out@ == start + bytes@.take(i as int),
        decreases bytes.len() - i,
    {
        out.push(bytes[i]);
        i = i + 1;
        assert(bytes@.take(i as int) =~= bytes@.take(i - 1).push(bytes@[i - 1]));
        assert(out@ =~= start + bytes@.take(i as int));
    }
    assert(bytes@.take(bytes.len() as int) =~= bytes@);
}

/// Appends a string: its UTF-8 length, then its bytes.
pub fn write_string(out: &mut Vec<u8>, value: &str)
    ensures
        final(out)@ == old(out)@ + enc_string(value@),
{
    let bytes = value.as_bytes();
    push_len(out, bytes.len());
    push_bytes(out, bytes);
    assert(out@ =~= old(out)@ + enc_string(value@));
}

pub fn write_string_list(out: &mut Vec<u8>, values: &Vec<String>)
    ensures
        final(out)@ == old(out)@ + enc_strings(strs(values@)),
{
    let ghost xs = strs(values@);
    push_len(out, values.len());
    let ghost mid = out@;
    let mut i: usize = 0;
    while i < values.len()
        invariant
            i <= values.len(),
            xs == strs(values@),
            out@ == mid + enc_many(xs.take(i as int), enc_string_item()),
        decreases values.len() - i,
    {
        write_string(out, values[i].as_str());
        proof {
            lemma_enc_step(xs, i as int, enc_string_item());
        }
        i = i + 1;
        assert(out@ =~= mid + enc_many(xs.take(i as int), enc_string_item()));
    }
    assert(xs.take(values.len() as int) =~= xs);
    assert(out@ =~= old(out)@ + enc_strings(xs));
}

// --- reading -------------------------------------------------------------------------

/// The error for a read past the end.
pub fn truncated(position: usize) -> (e: String)
    ensures
        e@ == "truncated mod metadata at offset "@ + crate::text::decimal_text(position as nat),
{
    let mut e = String::new();
    push_str(&mut e, "truncated mod metadata at offset ");
    crate::text::push_unsigned(&mut e, position as u64);
    e
}

pub fn read_word(data: &[u8], pos: usize) -> (r: Result<(u32, usize), String>)
    ensures
        match r {
            Ok((w, q)) => p_word(data@, pos as int) == Some((w as nat, q as int)),
            Err(_) => p_word(data@, pos as int) is None,
        },
{
    if pos > data.len() || data.len() - pos < 4 {
        return Err(truncated(pos));
    }
    let w: u32 = data[pos] as u32 + 256 * data[pos + 1] as u32 + 0x1_0000 * data[pos + 2] as u32
        + 0x100_0000 * data[pos + 3] as u32;
    Ok((w, pos + 4))
}

pub fn read_i32(data: &[u8], pos: usize) -> (r: Result<(i32, usize), String>)
    ensures
        match r {
            Ok((v, q)) => p_i32(data@, pos as int) == Some((v, q as int)),
            Err(_) => p_i32(data@, pos as int) is None,
        },
{
    let (w, q) = read_word(data, pos)?;
    let v: i32 = if w >= 0x8000_0000 {
        (w as i64 - 0x1_0000_0000i64) as i32
    } else {
        w as i32
    };
    Ok((v, q))
}

pub fn read_u32(data: &[u8], pos: usize) -> (r: Result<(u32, usize), String>)
    ensures
        match r {
            Ok((v, q)) => p_u32(data@, pos as int) == Some((v, q as int)),
            Err(_) => p_u32(data@, pos as int) is None,
        },
{
    read_word(data, pos)
}

pub fn read_count(data: &[u8], pos: usize) -> (r: Result<(usize, usize), String>)
    ensures
        match r {
            Ok((n, q)) => p_count(data@, pos as int) == Some((n as nat, q as int)),
            Err(_) => p_count(data@, pos as int) is None,
        },
{
    let (v, q) = read_i32(data, pos)?;
    if v < 0 || v > MAX_COUNT {
        let mut e = String::new();
        push_str(&mut e, "implausible count ");
        crate::text::push_signed(&mut e, v as i64);
        push_str(&mut e, " in mod metadata");
        return Err(e);
    }
    Ok((v as usize, q))
}

pub fn read_string(data: &[u8], pos: usize) -> (r: Result<(String, usize), String>)
    ensures
        match r {
            Ok((s, q)) => p_string(data@, pos as int) == Some((s@, q as int)),
            Err(_) => p_string(data@, pos as int) is None,
        },
{
    let (n, q) = read_i32(data, pos)?;
    if n <= 0 {
        return Ok((String::new(), q));
    }
    let n = n as usize;
    if q > data.len() || data.len() - q < n {
        return Err(truncated(q));
    }
    let bytes = vstd::slice::slice_subrange(data, q, q + n);
    let s = lossy_string(bytes);
    Ok((s, q + n))
}

pub fn read_string_list(data: &[u8], pos: usize) -> (r: Result<(Vec<String>, usize), String>)
    ensures
        match r {
            Ok((v, q)) => p_list(data@, pos as int, string_item()) == Some((strs(v@), q as int)),
            Err(_) => p_list(data@, pos as int, string_item()) is None,
        },
{
    let (n, start) = read_count(data, pos)?;
    let mut v: Vec<String> = Vec::new();
    let mut q = start;
    let mut k: usize = 0;
    while k < n
        invariant
            k <= n,
            p_count(data@, pos as int) == Some((n as nat, start as int)),
            p_many(data@, start as int, k as nat, string_item()) == Some((strs(v@), q as int)),
        decreases n - k,
    {
        match read_string(data, q) {
            Ok((s, q2)) => {
                proof {
                    assert(strs(v@.push(s)) =~= strs(v@).push(s@));
                }
                v.push(s);
                q = q2;
            },
            Err(e) => {
                proof {
                    lemma_many_fails(data@, start as int, (k + 1) as nat, n as nat, string_item());
                }
                return Err(e);
            },
        }
        k = k + 1;
    }
    Ok((v, q))
}

// --- lists of numbers ------------------------------------------------------------------

pub fn write_i32s(out: &mut Vec<u8>, values: &Vec<i32>)
    ensures
        final(out)@ == old(out)@ + enc_many(values@, enc_word_item()),
{
    let ghost start = out@;
    let mut i: usize = 0;
    while i < values.len()
        invariant
            i <= values.len(),
            out@ == start + enc_many(values@.take(i as int), enc_word_item()),
        decreases values.len() - i,
    {
        push_i32(out, values[i]);
        proof {
            lemma_enc_step(values@, i as int, enc_word_item());
        }
        i = i + 1;
        assert(out@ =~= start + enc_many(values@.take(i as int), enc_word_item()));
    }
    assert(values@.take(values.len() as int) =~= values@);
}

pub fn write_u32_list(out: &mut Vec<u8>, values: &Vec<u32>)
    ensures
        final(out)@ == old(out)@ + enc_list(values@, enc_u32_item()),
{
    push_len(out, values.len());
    let ghost start = out@;
    let mut i: usize = 0;
    while i < values.len()
        invariant
            i <= values.len(),
            out@ == start + enc_many(values@.take(i as int), enc_u32_item()),
        decreases values.len() - i,
    {
        push_word(out, values[i]);
        proof {
            lemma_enc_step(values@, i as int, enc_u32_item());
        }
        i = i + 1;
        assert(out@ =~= start + enc_many(values@.take(i as int), enc_u32_item()));
    }
    assert(values@.take(values.len() as int) =~= values@);
    assert(out@ =~= old(out)@ + enc_list(values@, enc_u32_item()));
}

pub fn write_pairs(out: &mut Vec<u8>, values: &Vec<(u32, u32)>)
    ensures
        final(out)@ == old(out)@ + enc_list(values@, enc_pair_item()),
{
    push_len(out, values.len());
    let ghost start = out@;
    let mut i: usize = 0;
    while i < values.len()
        invariant
            i <= values.len(),
            out@ == start + enc_many(values@.take(i as int), enc_pair_item()),
        decreases values.len() - i,
    {
        let (a, b) = values[i];
        push_word(out, a);
        push_word(out, b);
        proof {
            lemma_enc_step(values@, i as int, enc_pair_item());
        }
        i = i + 1;
        assert(out@ =~= start + enc_many(values@.take(i as int), enc_pair_item()));
    }
    assert(values@.take(values.len() as int) =~= values@);
    assert(out@ =~= old(out)@ + enc_list(values@, enc_pair_item()));
}

// --- entries, patches and cheats ---------------------------------------------------------

pub fn write_entry(out: &mut Vec<u8>, e: &ChangelogEntry)
    ensures
        final(out)@ == old(out)@ + enc_entry(e@),
{
    write_string(out, e.canonical.as_str());
    let code: i32 = match e.kind {
        EntryType::Changelog => 0,
        EntryType::Copy => 1,
        EntryType::Placeholder => 2,
    };
    push_i32(out, code);
    push_word(out, e.attributes);
    push_i32(out, e.zs_dictionary_id);
    out.push((e.versions.len() % 256) as u8);
    write_i32s(out, &e.versions);
    write_string_list(out, &e.archive_canonicals);
    proof {
        reveal(enc_entry);
    }
    assert(out@ =~= old(out)@ + enc_entry(e@));
}

pub fn write_patch(out: &mut Vec<u8>, p: &Patch)
    ensures
        final(out)@ == old(out)@ + enc_patch(p@),
{
    write_string(out, p.nso_binary_id.as_str());
    write_pairs(out, &p.entries);
    assert(out@ =~= old(out)@ + enc_patch(p@));
}

pub fn write_lines(out: &mut Vec<u8>, lines: &Vec<Vec<u32>>)
    ensures
        final(out)@ == old(out)@ + enc_list(lines_view(lines@), enc_line_item()),
{
    let ghost xs = lines_view(lines@);
    push_len(out, lines.len());
    let ghost start = out@;
    let mut i: usize = 0;
    while i < lines.len()
        invariant
            i <= lines.len(),
            xs == lines_view(lines@),
            out@ == start + enc_many(xs.take(i as int), enc_line_item()),
        decreases lines.len() - i,
    {
        write_u32_list(out, &lines[i]);
        proof {
            lemma_enc_step(xs, i as int, enc_line_item());
        }
        i = i + 1;
        assert(out@ =~= start + enc_many(xs.take(i as int), enc_line_item()));
    }
    assert(xs.take(lines.len() as int) =~= xs);
    assert(out@ =~= old(out)@ + enc_list(xs, enc_line_item()));
}

pub fn write_cheat(out: &mut Vec<u8>, c: &Cheat)
    ensures
        final(out)@ == old(out)@ + enc_cheat(c@),
{
    let ghost xs = cheat_entries_view(c.entries@);
    write_string(out, c.name.as_str());
    let ghost named = out@;
    push_len(out, c.entries.len());
    let ghost start = out@;
    let mut i: usize = 0;
    while i < c.entries.len()
        invariant
            i <= c.entries.len(),
            xs == cheat_entries_view(c.entries@),
            out@ == start + enc_many(xs.take(i as int), enc_cheat_entry_item()),
        decreases c.entries.len() - i,
    {
        let (key, lines) = &c.entries[i];
        write_string(out, key.as_str());
        write_lines(out, lines);
        proof {
            lemma_enc_step(xs, i as int, enc_cheat_entry_item());
        }
        i = i + 1;
        assert(out@ =~= start + enc_many(xs.take(i as int), enc_cheat_entry_item()));
    }
    assert(xs.take(c.entries.len() as int) =~= xs);
    assert(out@ =~= old(out)@ + enc_cheat(c@));
}

pub fn write_entries(out: &mut Vec<u8>, v: &Vec<ChangelogEntry>)
    ensures
        final(out)@ == old(out)@ + enc_list(entries_view(v@), enc_entry_item()),
{
    let ghost xs = entries_view(v@);
    push_len(out, v.len());
    let ghost start = out@;
    let mut i: usize = 0;
    while i < v.len()
        invariant
            i <= v.len(),
            xs == entries_view(v@),
            out@ == start + enc_many(xs.take(i as int), enc_entry_item()),
        decreases v.len() - i,
    {
        write_entry(out, &v[i]);
        proof {
            lemma_enc_step(xs, i as int, enc_entry_item());
        }
        i = i + 1;
        assert(out@ =~= start + enc_many(xs.take(i as int), enc_entry_item()));
    }
    assert(xs.take(v.len() as int) =~= xs);
    assert(out@ =~= old(out)@ + enc_list(xs, enc_entry_item()));
}

pub fn write_patches(out: &mut Vec<u8>, v: &Vec<Patch>)
    ensures
        final(out)@ == old(out)@ + enc_list(patches_view(v@), enc_patch_item()),
{
    let ghost xs = patches_view(v@);
    push_len(out, v.len());
    let ghost start = out@;
    let mut i: usize = 0;
    while i < v.len()
        invariant
            i <= v.len(),
            xs == patches_view(v@),
            out@ == start + enc_many(xs.take(i as int), enc_patch_item()),
        decreases v.len() - i,
    {
        write_patch(out, &v[i]);
        proof {
            lemma_enc_step(xs, i as int, enc_patch_item());
        }
        i = i + 1;
        assert(out@ =~= start + enc_many(xs.take(i as int), enc_patch_item()));
    }
    assert(xs.take(v.len() as int) =~= xs);
    assert(out@ =~= old(out)@ + enc_list(xs, enc_patch_item()));
}

pub fn write_cheats(out: &mut Vec<u8>, v: &Vec<Cheat>)
    ensures
        final(out)@ == old(out)@ + enc_list(cheats_view(v@), enc_cheat_item()),
{
    let ghost xs = cheats_view(v@);
    push_len(out, v.len());
    let ghost start = out@;
    let mut i: usize = 0;
    while i < v.len()
        invariant
            i <= v.len(),
            xs == cheats_view(v@),
            out@ == start + enc_many(xs.take(i as int), enc_cheat_item()),
        decreases v.len() - i,
    {
        write_cheat(out, &v[i]);
        proof {
            lemma_enc_step(xs, i as int, enc_cheat_item());
        }
        i = i + 1;
        assert(out@ =~= start + enc_many(xs.take(i as int), enc_cheat_item()));
    }
    assert(xs.take(v.len() as int) =~= xs);
    assert(out@ =~= old(out)@ + enc_list(xs, enc_cheat_item()));
}

/// The changelog index in TKMM's layout.
pub fn write_changelog<S>(c: &Changelog<S>) -> (out: Vec<u8>)
    ensures
        out@ == encode(c@),
{
    let mut out: Vec<u8> = Vec::new();
    push_word(&mut out, CHANGELOG_MAGIC);
    push_i32(&mut out, c.builder_version);
    push_i32(&mut out, c.game_version);
    let ghost head = out@;
    write_entries(&mut out, &c.entries);
    write_string_list(&mut out, &c.mals_files);
    write_patches(&mut out, &c.patches);
    write_cheats(&mut out, &c.cheats);
    write_string_list(&mut out, &c.subsdk_files);
    write_string_list(&mut out, &c.exe_files);
    push_word(&mut out, 0);
    push_word(&mut out, 0);
    proof {
        reveal(enc_body);
        assert(out@ =~= head + enc_body(c@));
    }
    out
}

// --- reading lists ---------------------------------------------------------------------

pub fn read_i32s(data: &[u8], pos: usize, n: usize) -> (r: Result<(Vec<i32>, usize), String>)
    ensures
        match r {
            Ok((v, q)) => p_many(data@, pos as int, n as nat, i32_item()) == Some((v@, q as int)),
            Err(_) => p_many(data@, pos as int, n as nat, i32_item()) is None,
        },
{
    let mut v: Vec<i32> = Vec::new();
    let mut q = pos;
    let mut k: usize = 0;
    while k < n
        invariant
            k <= n,
            p_many(data@, pos as int, k as nat, i32_item()) == Some((v@, q as int)),
        decreases n - k,
    {
        match read_i32(data, q) {
            Ok((x, q2)) => {
                v.push(x);
                q = q2;
            },
            Err(e) => {
                proof {
                    lemma_many_fails(data@, pos as int, (k + 1) as nat, n as nat, i32_item());
                }
                return Err(e);
            },
        }
        k = k + 1;
    }
    Ok((v, q))
}

pub fn read_u32_list(data: &[u8], pos: usize) -> (r: Result<(Vec<u32>, usize), String>)
    ensures
        match r {
            Ok((v, q)) => p_list(data@, pos as int, u32_item()) == Some((v@, q as int)),
            Err(_) => p_list(data@, pos as int, u32_item()) is None,
        },
{
    let (n, start) = read_count(data, pos)?;
    let mut v: Vec<u32> = Vec::new();
    let mut q = start;
    let mut k: usize = 0;
    while k < n
        invariant
            k <= n,
            p_count(data@, pos as int) == Some((n as nat, start as int)),
            p_many(data@, start as int, k as nat, u32_item()) == Some((v@, q as int)),
        decreases n - k,
    {
        match read_u32(data, q) {
            Ok((x, q2)) => {
                v.push(x);
                q = q2;
            },
            Err(e) => {
                proof {
                    lemma_many_fails(data@, start as int, (k + 1) as nat, n as nat, u32_item());
                }
                return Err(e);
            },
        }
        k = k + 1;
    }
    Ok((v, q))
}

pub fn read_pairs(data: &[u8], pos: usize) -> (r: Result<(Vec<(u32, u32)>, usize), String>)
    ensures
        match r {
            Ok((v, q)) => p_list(data@, pos as int, pair_item()) == Some((v@, q as int)),
            Err(_) => p_list(data@, pos as int, pair_item()) is None,
        },
{
    let (n, start) = read_count(data, pos)?;
    let mut v: Vec<(u32, u32)> = Vec::new();
    let mut q = start;
    let mut k: usize = 0;
    while k < n
        invariant
            k <= n,
            p_count(data@, pos as int) == Some((n as nat, start as int)),
            p_many(data@, start as int, k as nat, pair_item()) == Some((v@, q as int)),
        decreases n - k,
    {
        let first = read_u32(data, q);
        let pair = match first {
            Ok((a, q1)) => match read_u32(data, q1) {
                Ok((b, q2)) => Ok(((a, b), q2)),
                Err(e) => Err(e),
            },
            Err(e) => Err(e),
        };
        match pair {
            Ok((x, q2)) => {
                v.push(x);
                q = q2;
            },
            Err(e) => {
                proof {
                    lemma_many_fails(data@, start as int, (k + 1) as nat, n as nat, pair_item());
                }
                return Err(e);
            },
        }
        k = k + 1;
    }
    Ok((v, q))
}

pub fn read_lines(data: &[u8], pos: usize) -> (r: Result<(Vec<Vec<u32>>, usize), String>)
    ensures
        match r {
            Ok((v, q)) => p_list(data@, pos as int, line_item()) == Some((lines_view(v@), q as int)),
            Err(_) => p_list(data@, pos as int, line_item()) is None,
        },
{
    let (n, start) = read_count(data, pos)?;
    let mut v: Vec<Vec<u32>> = Vec::new();
    let mut q = start;
    let mut k: usize = 0;
    while k < n
        invariant
            k <= n,
            p_count(data@, pos as int) == Some((n as nat, start as int)),
            p_many(data@, start as int, k as nat, line_item()) == Some((lines_view(v@), q as int)),
        decreases n - k,
    {
        match read_u32_list(data, q) {
            Ok((x, q2)) => {
                proof {
                    assert(lines_view(v@.push(x)) =~= lines_view(v@).push(x@));
                }
                v.push(x);
                q = q2;
            },
            Err(e) => {
                proof {
                    lemma_many_fails(data@, start as int, (k + 1) as nat, n as nat, line_item());
                }
                return Err(e);
            },
        }
        k = k + 1;
    }
    Ok((v, q))
}

pub fn read_cheat_entries(data: &[u8], pos: usize) -> (r: Result<(Vec<(String, Vec<Vec<u32>>)>, usize), String>)
    ensures
        match r {
            Ok((v, q)) => p_list(data@, pos as int, cheat_entry_item()) == Some(
                (cheat_entries_view(v@), q as int),
            ),
            Err(_) => p_list(data@, pos as int, cheat_entry_item()) is None,
        },
{
    let (n, start) = read_count(data, pos)?;
    let mut v: Vec<(String, Vec<Vec<u32>>)> = Vec::new();
    let mut q = start;
    let mut k: usize = 0;
    while k < n
        invariant
            k <= n,
            p_count(data@, pos as int) == Some((n as nat, start as int)),
            p_many(data@, start as int, k as nat, cheat_entry_item()) == Some(
                (cheat_entries_view(v@), q as int),
            ),
        decreases n - k,
    {
        let first = read_string(data, q);
        let item = match first {
            Ok((key, q1)) => match read_lines(data, q1) {
                Ok((lines, q2)) => Ok(((key, lines), q2)),
                Err(e) => Err(e),
            },
            Err(e) => Err(e),
        };
        match item {
            Ok((x, q2)) => {
                proof {
                    assert(cheat_entries_view(v@.push(x)) =~= cheat_entries_view(v@).push(
                        (x.0@, lines_view(x.1@)),
                    ));
                }
                v.push(x);
                q = q2;
            },
            Err(e) => {
                proof {
                    lemma_many_fails(
                        data@,
                        start as int,
                        (k + 1) as nat,
                        n as nat,
                        cheat_entry_item(),
                    );
                }
                return Err(e);
            },
        }
        k = k + 1;
    }
    Ok((v, q))
}

pub fn read_entry(data: &[u8], pos: usize) -> (r: Result<(ChangelogEntry, usize), String>)
    ensures
        match r {
            Ok((e, q)) => p_entry(data@, pos as int) == Some((e@, q as int)),
            Err(_) => p_entry(data@, pos as int) is None,
        },
{
    proof {
        reveal(p_entry);
    }
    let (canonical, p1) = read_string(data, pos)?;
    let (code, p2) = read_i32(data, p1)?;
    let kind = EntryType::from_raw(code)?;
    let (attributes, p3) = read_word(data, p2)?;
    let (zs_dictionary_id, p4) = read_i32(data, p3)?;
    if p4 >= data.len() {
        return Err(truncated(p4));
    }
    let count = data[p4] as usize;
    let (versions, p5) = read_i32s(data, p4 + 1, count)?;
    let (archive_canonicals, p6) = read_string_list(data, p5)?;
    Ok(
        (
            ChangelogEntry {
                canonical,
                kind,
                attributes,
                zs_dictionary_id,
                versions,
                archive_canonicals,
            },
            p6,
        ),
    )
}

pub fn read_patch(data: &[u8], pos: usize) -> (r: Result<(Patch, usize), String>)
    ensures
        match r {
            Ok((x, q)) => p_patch(data@, pos as int) == Some((x@, q as int)),
            Err(_) => p_patch(data@, pos as int) is None,
        },
{
    let (nso_binary_id, p1) = read_string(data, pos)?;
    let (entries, p2) = read_pairs(data, p1)?;
    Ok((Patch { nso_binary_id, entries }, p2))
}

pub fn read_cheat(data: &[u8], pos: usize) -> (r: Result<(Cheat, usize), String>)
    ensures
        match r {
            Ok((x, q)) => p_cheat(data@, pos as int) == Some((x@, q as int)),
            Err(_) => p_cheat(data@, pos as int) is None,
        },
{
    let (name, p1) = read_string(data, pos)?;
    let (entries, p2) = read_cheat_entries(data, p1)?;
    Ok((Cheat { name, entries }, p2))
}

pub fn read_entries(data: &[u8], pos: usize) -> (r: Result<(Vec<ChangelogEntry>, usize), String>)
    ensures
        match r {
            Ok((v, q)) => p_list(data@, pos as int, entry_item()) == Some((entries_view(v@), q as int)),
            Err(_) => p_list(data@, pos as int, entry_item()) is None,
        },
{
    let (n, start) = read_count(data, pos)?;
    let mut v: Vec<ChangelogEntry> = Vec::new();
    let mut q = start;
    let mut k: usize = 0;
    while k < n
        invariant
            k <= n,
            p_count(data@, pos as int) == Some((n as nat, start as int)),
            p_many(data@, start as int, k as nat, entry_item()) == Some((entries_view(v@), q as int)),
        decreases n - k,
    {
        match read_entry(data, q) {
            Ok((x, q2)) => {
                proof {
                    assert(entries_view(v@.push(x)) =~= entries_view(v@).push(x@));
                }
                v.push(x);
                q = q2;
            },
            Err(e) => {
                proof {
                    lemma_many_fails(data@, start as int, (k + 1) as nat, n as nat, entry_item());
                }
                return Err(e);
            },
        }
        k = k + 1;
    }
    Ok((v, q))
}

pub fn read_patches(data: &[u8], pos: usize) -> (r: Result<(Vec<Patch>, usize), String>)
    ensures
        match r {
            Ok((v, q)) => p_list(data@, pos as int, patch_item()) == Some((patches_view(v@), q as int)),
            Err(_) => p_list(data@, pos as int, patch_item()) is None,
        },
{
    let (n, start) = read_count(data, pos)?;
    let mut v: Vec<Patch> = Vec::new();
    let mut q = start;
    let mut k: usize = 0;
    while k < n
        invariant
            k <= n,
            p_count(data@, pos as int) == Some((n as nat, start as int)),
            p_many(data@, start as int, k as nat, patch_item()) == Some((patches_view(v@), q as int)),
        decreases n - k,
    {
        match read_patch(data, q) {
            Ok((x, q2)) => {
                proof {
                    assert(patches_view(v@.push(x)) =~= patches_view(v@).push(x@));
                }
                v.push(x);
                q = q2;
            },
            Err(e) => {
                proof {
                    lemma_many_fails(data@, start as int, (k + 1) as nat, n as nat, patch_item());
                }
                return Err(e);
            },
        }
        k = k + 1;
    }
    Ok((v, q))
}

pub fn read_cheats(data: &[u8], pos: usize) -> (r: Result<(Vec<Cheat>, usize), String>)
    ensures
        match r {
            Ok((v, q)) => p_list(data@, pos as int, cheat_item()) == Some((cheats_view(v@), q as int)),
            Err(_) => p_list(data@, pos as int, cheat_item()) is None,
        },
{
    let (n, start) = read_count(data, pos)?;
    let mut v: Vec<Cheat> = Vec::new();
    let mut q = start;
    let mut k: usize = 0;
    while k < n
        invariant
            k <= n,
            p_count(data@, pos as int) == Some((n as nat, start as int)),
            p_many(data@, start as int, k as nat, cheat_item()) == Some((cheats_view(v@), q as int)),
        decreases n - k,
    {
        match read_cheat(data, q) {
            Ok((x, q2)) => {
                proof {
                    assert(cheats_view(v@.push(x)) =~= cheats_view(v@).push(x@));
                }
                v.push(x);
                q = q2;
            },
            Err(e) => {
                proof {
                    lemma_many_fails(data@, start as int, (k + 1) as nat, n as nat, cheat_item());
                }
                return Err(e);
            },
        }
        k = k + 1;
    }
    Ok((v, q))
}

/// Reads a changelog index starting at `pos`; its files are read from `source`.
pub fn read_changelog<S>(data: &[u8], pos: usize, source: S) -> (r: Result<(Changelog<S>, usize), String>)
    ensures
        match r {
            Ok((c, q)) => p_changelog(data@, pos as int) == Some((c@, q as int)) && c.source == source,
            Err(_) => p_changelog(data@, pos as int) is None,
        },
{
    let (magic, p1) = read_word(data, pos)?;
    if magic != CHANGELOG_MAGIC {
        let mut e = String::new();
        push_str(&mut e, "invalid changelog magic");
        return Err(e);
    }
    let (builder_version, p2) = read_i32(data, p1)?;
    let (game_version, p3) = read_i32(data, p2)?;
    proof {
        reveal(p_body);
    }
    let (entries, p4) = read_entries(data, p3)?;
    let (mals_files, p5) = read_string_list(data, p4)?;
    let (patches, p6) = read_patches(data, p5)?;
    let (cheats, p7) = read_cheats(data, p6)?;
    let (subsdk_files, p8) = read_string_list(data, p7)?;
    let (exe_files, p9) = read_string_list(data, p8)?;
    let (_reserved1, p10) = read_string_list(data, p9)?;
    let (_reserved2, p11) = read_string_list(data, p10)?;
    Ok(
        (
            Changelog {
                builder_version,
                game_version,
                entries,
                mals_files,
                patches,
                cheats,
                subsdk_files,
                exe_files,
                source,
            },
            p11,
        ),
    )
}

} // verus!
