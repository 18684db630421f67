//! The byte layout of a changelog index, as readers and writers see it.
//!
//! Every number is four little-endian bytes; a string is its UTF-8 length
//! followed by its bytes; a list is its length followed by its items.
use vstd::prelude::*;
use vstd::utf8::{decode_utf8, encode_utf8, encode_utf8_decode_utf8, encode_utf8_valid_utf8, valid_utf8};

verus! {

/// `TKCL` read as a little-endian number.
pub const CHANGELOG_MAGIC: u32 = 0x4C43_4B54;

/// The most items a reader accepts in one list.
pub const MAX_COUNT: i32 = 10_000_000;

/// What `String::from_utf8_lossy` makes of these bytes.
pub uninterp spec fn utf8_lossy(bytes: Seq<u8>) -> Seq<char>;

/// `String::from_utf8_lossy`: the text of `bytes`, each invalid sequence
/// replaced by U+FFFD. The contract names the result, and says only that
/// valid UTF-8 comes back decoded as it is (the documented borrowed case);
/// how invalid sequences are replaced is left unsaid.
#[verifier::external_body]
pub(crate) fn lossy_string(bytes: &[u8]) -> (s: String)
    ensures
        s@ == utf8_lossy(bytes@),
        valid_utf8(bytes@) ==> s@ == decode_utf8(bytes@),
{
    String::from_utf8_lossy(bytes).into_owned()
}

/// The entry types a changelog can hold.
#[derive(Debug, Clone, Copy, PartialEq, Eq, Structural)]
pub enum EntryType {
    /// The difference from vanilla, merged with the right merger.
    Changelog,
    /// A whole file, used as is.
    Copy,
    /// "This vanilla file belongs in these archives", with no content.
    Placeholder,
}

pub open spec fn kind_code(kind: EntryType) -> int {
    match kind {
        EntryType::Changelog => 0,
        EntryType::Copy => 1,
        EntryType::Placeholder => 2,
    }
}

pub open spec fn kind_of(code: int) -> Option<EntryType> {
    if code == 0 {
        Some(EntryType::Changelog)
    } else if code == 1 {
        Some(EntryType::Copy)
    } else if code == 2 {
        Some(EntryType::Placeholder)
    } else {
        None
    }
}

pub struct EntryView {
    pub canonical: Seq<char>,
    pub kind: EntryType,
    pub attributes: u32,
    pub zs_dictionary_id: i32,
    pub versions: Seq<i32>,
    pub archive_canonicals: Seq<Seq<char>>,
}

pub struct PatchView {
    pub nso_binary_id: Seq<char>,
    pub entries: Seq<(u32, u32)>,
}

pub struct CheatView {
    pub name: Seq<char>,
    pub entries: Seq<(Seq<char>, Seq<Seq<u32>>)>,
}

pub struct ChangelogView {
    pub builder_version: i32,
    pub game_version: i32,
    pub entries: Seq<EntryView>,
    pub mals_files: Seq<Seq<char>>,
    pub patches: Seq<PatchView>,
    pub cheats: Seq<CheatView>,
    pub subsdk_files: Seq<Seq<char>>,
    pub exe_files: Seq<Seq<char>>,
}

// --- writing -------------------------------------------------------------------------

/// The low 32 bits of `n` (two's complement), little endian.
pub open spec fn word(n: int) -> Seq<u8> {
    let u = n % 0x1_0000_0000;
    seq![
        (u % 256) as u8,
        ((u / 256) % 256) as u8,
        ((u / 0x1_0000) % 256) as u8,
        ((u / 0x100_0000) % 256) as u8,
    ]
}

pub open spec fn enc_many<T>(xs: Seq<T>, enc: spec_fn(T) -> Seq<u8>) -> Seq<u8>
    decreases xs.len(),
{
    if xs.len() == 0 {
        Seq::empty()
    } else {
        enc_many(xs.drop_last(), enc) + enc(xs.last())
    }
}

pub open spec fn enc_list<T>(xs: Seq<T>, enc: spec_fn(T) -> Seq<u8>) -> Seq<u8> {
    word(xs.len() as int) + enc_many(xs, enc)
}

pub open spec fn enc_string(s: Seq<char>) -> Seq<u8> {
    word(encode_utf8(s).len() as int) + encode_utf8(s)
}

pub open spec fn enc_word_item() -> spec_fn(i32) -> Seq<u8> {
    |v: i32| word(v as int)
}

pub open spec fn enc_u32_item() -> spec_fn(u32) -> Seq<u8> {
    |v: u32| word(v as int)
}

pub open spec fn enc_string_item() -> spec_fn(Seq<char>) -> Seq<u8> {
    |s: Seq<char>| enc_string(s)
}

pub open spec fn enc_strings(xs: Seq<Seq<char>>) -> Seq<u8> {
    enc_list(xs, enc_string_item())
}

#[verifier::opaque]
pub open spec fn enc_entry(e: EntryView) -> Seq<u8> {
    enc_string(e.canonical) + word(kind_code(e.kind)) + word(e.attributes as int) + word(
        e.zs_dictionary_id as int,
    ) + seq![(e.versions.len() % 256) as u8] + enc_many(e.versions, enc_word_item())
        + enc_strings(e.archive_canonicals)
}

pub open spec fn enc_pair_item() -> spec_fn((u32, u32)) -> Seq<u8> {
    |p: (u32, u32)| word(p.0 as int) + word(p.1 as int)
}

pub open spec fn enc_patch(p: PatchView) -> Seq<u8> {
    enc_string(p.nso_binary_id) + enc_list(p.entries, enc_pair_item())
}

pub open spec fn enc_line_item() -> spec_fn(Seq<u32>) -> Seq<u8> {
    |l: Seq<u32>| enc_list(l, enc_u32_item())
}

pub open spec fn enc_cheat_entry_item() -> spec_fn((Seq<char>, Seq<Seq<u32>>)) -> Seq<u8> {
    |e: (Seq<char>, Seq<Seq<u32>>)| enc_string(e.0) + enc_list(e.1, enc_line_item())
}

pub open spec fn enc_cheat(c: CheatView) -> Seq<u8> {
    enc_string(c.name) + enc_list(c.entries, enc_cheat_entry_item())
}

pub open spec fn enc_entry_item() -> spec_fn(EntryView) -> Seq<u8> {
    |e: EntryView| enc_entry(e)
}

pub open spec fn enc_patch_item() -> spec_fn(PatchView) -> Seq<u8> {
    |p: PatchView| enc_patch(p)
}

pub open spec fn enc_cheat_item() -> spec_fn(CheatView) -> Seq<u8> {
    |c: CheatView| enc_cheat(c)
}

/// Everything after the magic and the two version numbers.
#[verifier::opaque]
pub open spec fn enc_body(c: ChangelogView) -> Seq<u8> {
    enc_list(c.entries, enc_entry_item()) + enc_strings(c.mals_files) + enc_list(
        c.patches,
        enc_patch_item(),
    ) + enc_list(c.cheats, enc_cheat_item()) + enc_strings(c.subsdk_files) + enc_strings(
        c.exe_files,
    ) + word(0) + word(0)
}

/// The bytes `Changelog::write` produces.
pub open spec fn encode(c: ChangelogView) -> Seq<u8> {
    word(CHANGELOG_MAGIC as int) + word(c.builder_version as int) + word(c.game_version as int)
        + enc_body(c)
}

// --- reading -------------------------------------------------------------------------

/// Four bytes at `p`, little endian.
pub open spec fn p_word(d: Seq<u8>, p: int) -> Option<(nat, int)> {
    if 0 <= p && p + 4 <= d.len() {
        Some(
            (
                (d[p] + 256 * d[p + 1] + 0x1_0000 * d[p + 2] + 0x100_0000 * d[p + 3]) as nat,
                p + 4,
            ),
        )
    } else {
        None
    }
}

/// A 32-bit pattern read as a signed number.
pub open spec fn signed(u: nat) -> int {
    if u >= 0x8000_0000 {
        u - 0x1_0000_0000
    } else {
        u as int
    }
}

pub open spec fn p_i32(d: Seq<u8>, p: int) -> Option<(i32, int)> {
    match p_word(d, p) {
        Some((w, q)) => Some((signed(w) as i32, q)),
        None => None,
    }
}

pub open spec fn p_u32(d: Seq<u8>, p: int) -> Option<(u32, int)> {
    match p_word(d, p) {
        Some((w, q)) => Some((w as u32, q)),
        None => None,
    }
}

/// A list length: a number from 0 to `MAX_COUNT`.
pub open spec fn p_count(d: Seq<u8>, p: int) -> Option<(nat, int)> {
    match p_word(d, p) {
        Some((w, q)) => if 0 <= signed(w) <= MAX_COUNT {
            Some((signed(w) as nat, q))
        } else {
            None
        },
        None => None,
    }
}

/// What a reader makes of a string's bytes.
pub open spec fn text_of(bytes: Seq<u8>) -> Seq<char> {
    if valid_utf8(bytes) {
        decode_utf8(bytes)
    } else {
        utf8_lossy(bytes)
    }
}

/// A string; a length of zero or less stands for the empty string.
pub open spec fn p_string(d: Seq<u8>, p: int) -> Option<(Seq<char>, int)> {
    match p_word(d, p) {
        Some((w, q)) => {
            let n = signed(w);
            if n <= 0 {
                Some((Seq::empty(), q))
            } else if q + n <= d.len() {
                Some((text_of(d.subrange(q, q + n)), q + n))
            } else {
                None
            }
        },
        None => None,
    }
}

/// `n` items one after the other.
pub open spec fn p_many<T>(
    d: Seq<u8>,
    p: int,
    n: nat,
    item: spec_fn(Seq<u8>, int) -> Option<(T, int)>,
) -> Option<(Seq<T>, int)>
    decreases n,
{
    if n == 0 {
        Some((Seq::empty(), p))
    } else {
        match p_many(d, p, (n - 1) as nat, item) {
            Some((xs, q)) => match item(d, q) {
                Some((x, r)) => Some((xs.push(x), r)),
                None => None,
            },
            None => None,
        }
    }
}

/// A count, then that many items.
pub open spec fn p_list<T>(d: Seq<u8>, p: int, item: spec_fn(Seq<u8>, int) -> Option<(T, int)>) -> Option<
    (Seq<T>, int),
> {
    match p_count(d, p) {
        Some((n, q)) => p_many(d, q, n, item),
        None => None,
    }
}

pub open spec fn i32_item() -> spec_fn(Seq<u8>, int) -> Option<(i32, int)> {
    |d: Seq<u8>, p: int| p_i32(d, p)
}

pub open spec fn u32_item() -> spec_fn(Seq<u8>, int) -> Option<(u32, int)> {
    |d: Seq<u8>, p: int| p_u32(d, p)
}

pub open spec fn string_item() -> spec_fn(Seq<u8>, int) -> Option<(Seq<char>, int)> {
    |d: Seq<u8>, p: int| p_string(d, p)
}

#[verifier::opaque]
pub open spec fn p_entry(d: Seq<u8>, p: int) -> Option<(EntryView, int)> {
    match p_string(d, p) {
        None => None,
        Some((canonical, p1)) => match p_i32(d, p1) {
            None => None,
            Some((code, p2)) => match kind_of(code as int) {
                None => None,
                Some(kind) => match p_word(d, p2) {
                    None => None,
                    Some((attributes, p3)) => match p_i32(d, p3) {
                        None => None,
                        Some((zs_dictionary_id, p4)) => if p4 < d.len() {
                            match p_many(d, p4 + 1, d[p4] as nat, i32_item()) {
                                None => None,
                                Some((versions, p5)) => match p_list(d, p5, string_item()) {
                                    None => None,
                                    Some((archive_canonicals, p6)) => Some(
                                        (
                                            EntryView {
                                                canonical,
                                                kind,
                                                attributes: attributes as u32,
                                                zs_dictionary_id,
                                                versions,
                                                archive_canonicals,
                                            },
                                            p6,
                                        ),
                                    ),
                                },
                            }
                        } else {
                            None
                        },
                    },
                },
            },
        },
    }
}

pub open spec fn pair_item() -> spec_fn(Seq<u8>, int) -> Option<((u32, u32), int)> {
    |d: Seq<u8>, p: int|
        match p_u32(d, p) {
            Some((a, q)) => match p_u32(d, q) {
                Some((b, r)) => Some(((a, b), r)),
                None => None,
            },
            None => None,
        }
}

pub open spec fn p_patch(d: Seq<u8>, p: int) -> Option<(PatchView, int)> {
    match p_string(d, p) {
        Some((id, q)) => match p_list(d, q, pair_item()) {
            Some((entries, r)) => Some((PatchView { nso_binary_id: id, entries }, r)),
            None => None,
        },
        None => None,
    }
}

pub open spec fn line_item() -> spec_fn(Seq<u8>, int) -> Option<(Seq<u32>, int)> {
    |d: Seq<u8>, p: int| p_list(d, p, u32_item())
}

pub open spec fn cheat_entry_item() -> spec_fn(Seq<u8>, int) -> Option<((Seq<char>, Seq<Seq<u32>>), int)> {
    |d: Seq<u8>, p: int|
        match p_string(d, p) {
            Some((key, q)) => match p_list(d, q, line_item()) {
                Some((lines, r)) => Some(((key, lines), r)),
                None => None,
            },
            None => None,
        }
}

pub open spec fn p_cheat(d: Seq<u8>, p: int) -> Option<(CheatView, int)> {
    match p_string(d, p) {
        Some((name, q)) => match p_list(d, q, cheat_entry_item()) {
            Some((entries, r)) => Some((CheatView { name, entries }, r)),
            None => None,
        },
        None => None,
    }
}

pub open spec fn entry_item() -> spec_fn(Seq<u8>, int) -> Option<(EntryView, int)> {
    |d: Seq<u8>, p: int| p_entry(d, p)
}

pub open spec fn patch_item() -> spec_fn(Seq<u8>, int) -> Option<(PatchView, int)> {
    |d: Seq<u8>, p: int| p_patch(d, p)
}

pub open spec fn cheat_item() -> spec_fn(Seq<u8>, int) -> Option<(CheatView, int)> {
    |d: Seq<u8>, p: int| p_cheat(d, p)
}

/// The part of a changelog index after its magic and version numbers.
#[verifier::opaque]
pub open spec fn p_body(d: Seq<u8>, p: int, builder_version: i32, game_version: i32) -> Option<
    (ChangelogView, int),
> {
    match p_list(d, p, entry_item()) {
        None => None,
        Some((entries, p1)) => match p_list(d, p1, string_item()) {
            None => None,
            Some((mals_files, p2)) => match p_list(d, p2, patch_item()) {
                None => None,
                Some((patches, p3)) => match p_list(d, p3, cheat_item()) {
                    None => None,
                    Some((cheats, p4)) => match p_list(d, p4, string_item()) {
                        None => None,
                        Some((subsdk_files, p5)) => match p_list(d, p5, string_item()) {
                            None => None,
                            Some((exe_files, p6)) => match p_list(d, p6, string_item()) {
                                None => None,
                                Some((_r1, p7)) => match p_list(d, p7, string_item()) {
                                    None => None,
                                    Some((_r2, p8)) => Some(
                                        (
                                            ChangelogView {
                                                builder_version,
                                                game_version,
                                                entries,
                                                mals_files,
                                                patches,
                                                cheats,
                                                subsdk_files,
                                                exe_files,
                                            },
                                            p8,
                                        ),
                                    ),
                                },
                            },
                        },
                    },
                },
            },
        },
    }
}

/// What a reader makes of a changelog index starting at `p`.
pub open spec fn p_changelog(d: Seq<u8>, p: int) -> Option<(ChangelogView, int)> {
    match p_word(d, p) {
        Some((magic, p1)) => if magic == CHANGELOG_MAGIC {
            match p_i32(d, p1) {
                Some((builder_version, p2)) => match p_i32(d, p2) {
                    Some((game_version, p3)) => p_body(d, p3, builder_version, game_version),
                    None => None,
                },
                None => None,
            }
        } else {
            None
        },
        None => None,
    }
}

// --- what a reader gives back of what a writer wrote ---------------------------------

pub open spec fn str_fits(s: Seq<char>) -> bool {
    encode_utf8(s).len() < 0x8000_0000
}

pub open spec fn count_fits(n: nat) -> bool {
    n <= MAX_COUNT
}

pub open spec fn strings_fit(xs: Seq<Seq<char>>) -> bool {
    count_fits(xs.len()) && forall|i: int| 0 <= i < xs.len() ==> str_fits(#[trigger] xs[i])
}

pub open spec fn entry_fits(e: EntryView) -> bool {
    str_fits(e.canonical) && e.versions.len() < 256 && strings_fit(e.archive_canonicals)
}

pub open spec fn patch_fits(p: PatchView) -> bool {
    str_fits(p.nso_binary_id) && count_fits(p.entries.len())
}

pub open spec fn lines_fit(lines: Seq<Seq<u32>>) -> bool {
    count_fits(lines.len()) && forall|i: int| 0 <= i < lines.len() ==> count_fits(#[trigger] lines[i].len())
}

pub open spec fn cheat_fits(c: CheatView) -> bool {
    &&& str_fits(c.name)
    &&& count_fits(c.entries.len())
    &&& forall|i: int|
        0 <= i < c.entries.len() ==> str_fits(#[trigger] c.entries[i].0) && lines_fit(c.entries[i].1)
}

/// A changelog whose every string and list a reader accepts back: strings
/// under 2 GiB of UTF-8, lists of at most `MAX_COUNT` items, and at most 255
/// versions per entry (the writer stores that count in one byte).
pub open spec fn changelog_fits(c: ChangelogView) -> bool {
    &&& count_fits(c.entries.len())
    &&& forall|i: int| 0 <= i < c.entries.len() ==> entry_fits(#[trigger] c.entries[i])
    &&& strings_fit(c.mals_files)
    &&& count_fits(c.patches.len())
    &&& forall|i: int| 0 <= i < c.patches.len() ==> patch_fits(#[trigger] c.patches[i])
    &&& count_fits(c.cheats.len())
    &&& forall|i: int| 0 <= i < c.cheats.len() ==> cheat_fits(#[trigger] c.cheats[i])
    &&& strings_fit(c.subsdk_files)
    &&& strings_fit(c.exe_files)
}

/// The bytes of `a + b` at `p` are those of `a`, then those of `b`.
pub proof fn lemma_split(d: Seq<u8>, p: int, a: Seq<u8>, b: Seq<u8>)
    requires
        0 <= p,
        p + a.len() + b.len() <= d.len(),
        d.subrange(p, p + a.len() + b.len()) == a + b,
    ensures
        d.subrange(p, p + a.len()) == a,
        d.subrange(p + a.len(), p + a.len() + b.len()) == b,
{
    assert(d.subrange(p, p + a.len()) =~= (a + b).subrange(0, a.len() as int));
    assert((a + b).subrange(0, a.len() as int) =~= a);
    assert(d.subrange(p + a.len(), p + a.len() + b.len()) =~= (a + b).subrange(
        a.len() as int,
        (a.len() + b.len()) as int,
    ));
    assert((a + b).subrange(a.len() as int, (a.len() + b.len()) as int) =~= b);
}

proof fn lemma_bytes(x: u32)
    ensures
        (x % 256) + 256 * ((x / 256) % 256) + 0x1_0000 * ((x / 0x1_0000) % 256) + 0x100_0000 * ((
        x / 0x100_0000) % 256) == x,
{
    assert((x % 256) + 256 * ((x / 256) % 256) + 0x1_0000 * ((x / 0x1_0000) % 256) + 0x100_0000 * (
    (x / 0x100_0000) % 256) == x) by (bit_vector);
}

/// A reader gives back the low 32 bits of a written number.
pub proof fn lemma_word(d: Seq<u8>, p: int, n: int)
    requires
        0 <= p,
        p + 4 <= d.len(),
        d.subrange(p, p + 4) == word(n),
    ensures
        p_word(d, p) == Some(((n % 0x1_0000_0000) as nat, p + 4)),
{
    let u = n % 0x1_0000_0000;
    let x = u as u32;
    lemma_bytes(x);
    assert(d[p] == word(n)[0]);
    assert(d[p + 1] == word(n)[1]);
    assert(d[p + 2] == word(n)[2]);
    assert(d[p + 3] == word(n)[3]);
}

pub proof fn lemma_i32(d: Seq<u8>, p: int, v: i32)
    requires
        0 <= p,
        p + 4 <= d.len(),
        d.subrange(p, p + 4) == word(v as int),
    ensures
        p_i32(d, p) == Some((v, p + 4)),
{
    lemma_word(d, p, v as int);
}

pub proof fn lemma_u32(d: Seq<u8>, p: int, v: u32)
    requires
        0 <= p,
        p + 4 <= d.len(),
        d.subrange(p, p + 4) == word(v as int),
    ensures
        p_u32(d, p) == Some((v, p + 4)),
        p_word(d, p) == Some((v as nat, p + 4)),
{
    lemma_word(d, p, v as int);
    assert((v as int) % 0x1_0000_0000 == v as int);
}

pub proof fn lemma_count(d: Seq<u8>, p: int, n: nat)
    requires
        0 <= p,
        p + 4 <= d.len(),
        d.subrange(p, p + 4) == word(n as int),
        count_fits(n),
    ensures
        p_count(d, p) == Some((n, p + 4)),
{
    lemma_word(d, p, n as int);
}

pub proof fn lemma_string(d: Seq<u8>, p: int, s: Seq<char>)
    requires
        0 <= p,
        p + enc_string(s).len() <= d.len(),
        d.subrange(p, p + enc_string(s).len()) == enc_string(s),
        str_fits(s),
    ensures
        p_string(d, p) == Some((s, p + enc_string(s).len())),
{
    let bytes = encode_utf8(s);
    lemma_split(d, p, word(bytes.len() as int), bytes);
    lemma_word(d, p, bytes.len() as int);
    encode_utf8_decode_utf8(s);
    encode_utf8_valid_utf8(s);
    if bytes.len() == 0 {
        assert(bytes =~= Seq::<u8>::empty());
        assert(decode_utf8(Seq::<u8>::empty()) =~= Seq::<char>::empty());
        assert(s =~= Seq::<char>::empty());
    }
}

/// Items written one after the other are read back one after the other.
pub proof fn lemma_many<T>(
    d: Seq<u8>,
    p: int,
    xs: Seq<T>,
    item: spec_fn(Seq<u8>, int) -> Option<(T, int)>,
    enc: spec_fn(T) -> Seq<u8>,
)
    requires
        0 <= p,
        p + enc_many(xs, enc).len() <= d.len(),
        d.subrange(p, p + enc_many(xs, enc).len()) == enc_many(xs, enc),
        forall|q: int, i: int|
            #![trigger item(d, q), xs[i]]
            0 <= i < xs.len() && 0 <= q && q + enc(xs[i]).len() <= d.len() && d.subrange(
                q,
                q + enc(xs[i]).len(),
            ) == enc(xs[i]) ==> item(d, q) == Some((xs[i], q + enc(xs[i]).len())),
    ensures
        p_many(d, p, xs.len(), item) == Some((xs, p + enc_many(xs, enc).len())),
    decreases xs.len(),
{
    if xs.len() == 0 {
        assert(xs =~= Seq::<T>::empty());
    } else {
        let init = xs.drop_last();
        let a = enc_many(init, enc);
        let b = enc(xs.last());
        lemma_split(d, p, a, b);
        assert forall|q: int, i: int|
            #![trigger item(d, q), init[i]]
            0 <= i < init.len() && 0 <= q && q + enc(init[i]).len() <= d.len() && d.subrange(
                q,
                q + enc(init[i]).len(),
            ) == enc(init[i]) implies item(d, q) == Some((init[i], q + enc(init[i]).len())) by {
            assert(init[i] == xs[i]);
            assert(item(d, q) == Some((xs[i], q + enc(xs[i]).len())));
        }
        lemma_many(d, p, init, item, enc);
        let q = p + a.len();
        assert(item(d, q) == Some((xs[xs.len() - 1], q + enc(xs[xs.len() - 1]).len())));
        assert(init.push(xs.last()) =~= xs);
    }
}

/// A counted list is read back as written.
pub proof fn lemma_list<T>(
    d: Seq<u8>,
    p: int,
    xs: Seq<T>,
    item: spec_fn(Seq<u8>, int) -> Option<(T, int)>,
    enc: spec_fn(T) -> Seq<u8>,
)
    requires
        0 <= p,
        p + enc_list(xs, enc).len() <= d.len(),
        d.subrange(p, p + enc_list(xs, enc).len()) == enc_list(xs, enc),
        count_fits(xs.len()),
        forall|q: int, i: int|
            #![trigger item(d, q), xs[i]]
            0 <= i < xs.len() && 0 <= q && q + enc(xs[i]).len() <= d.len() && d.subrange(
                q,
                q + enc(xs[i]).len(),
            ) == enc(xs[i]) ==> item(d, q) == Some((xs[i], q + enc(xs[i]).len())),
    ensures
        p_list(d, p, item) == Some((xs, p + enc_list(xs, enc).len())),
{
    lemma_split(d, p, word(xs.len() as int), enc_many(xs, enc));
    lemma_count(d, p, xs.len());
    lemma_many(d, p + 4, xs, item, enc);
}

pub proof fn lemma_strings(d: Seq<u8>, p: int, xs: Seq<Seq<char>>)
    requires
        0 <= p,
        p + enc_strings(xs).len() <= d.len(),
        d.subrange(p, p + enc_strings(xs).len()) == enc_strings(xs),
        strings_fit(xs),
    ensures
        p_list(d, p, string_item()) == Some((xs, p + enc_strings(xs).len())),
{
    let item = string_item();
    let enc = enc_string_item();
    assert forall|q: int, i: int|
        #![trigger item(d, q), xs[i]]
        0 <= i < xs.len() && 0 <= q && q + enc(xs[i]).len() <= d.len() && d.subrange(
            q,
            q + enc(xs[i]).len(),
        ) == enc(xs[i]) implies item(d, q) == Some((xs[i], q + enc(xs[i]).len())) by {
        lemma_string(d, q, xs[i]);
    }
    lemma_list(d, p, xs, item, enc);
}

/// Where each field of an entry's encoding lies.
proof fn lemma_entry_layout(d: Seq<u8>, p: int, e: EntryView)
    requires
        0 <= p,
        p + enc_entry(e).len() <= d.len(),
        d.subrange(p, p + enc_entry(e).len()) == enc_entry(e),
    ensures
        ({
            let s = enc_string(e.canonical);
            let mv = enc_many(e.versions, enc_word_item());
            let st = enc_strings(e.archive_canonicals);
            let p1 = p + s.len();
            let p4 = p1 + 12;
            let p5 = p4 + 1 + mv.len();
            &&& p5 + st.len() == p + enc_entry(e).len()
            &&& d.subrange(p, p1) == s
            &&& d.subrange(p1, p1 + 4) == word(kind_code(e.kind))
            &&& d.subrange(p1 + 4, p1 + 8) == word(e.attributes as int)
            &&& d.subrange(p1 + 8, p4) == word(e.zs_dictionary_id as int)
            &&& d[p4] == (e.versions.len() % 256) as u8
            &&& d.subrange(p4 + 1, p5) == mv
            &&& d.subrange(p5, p5 + st.len()) == st
        }),
{
    let s = enc_string(e.canonical);
    let w1 = word(kind_code(e.kind));
    let w2 = word(e.attributes as int);
    let w3 = word(e.zs_dictionary_id as int);
    let b = seq![(e.versions.len() % 256) as u8];
    let mv = enc_many(e.versions, enc_word_item());
    let st = enc_strings(e.archive_canonicals);
    let x1 = s + w1;
    let x2 = x1 + w2;
    let x3 = x2 + w3;
    let x4 = x3 + b;
    let x5 = x4 + mv;
    assert(enc_entry(e) == x5 + st) by {
        reveal(enc_entry);
    }
    lemma_split(d, p, x5, st);
    lemma_split(d, p, x4, mv);
    lemma_split(d, p, x3, b);
    lemma_split(d, p, x2, w3);
    lemma_split(d, p, x1, w2);
    lemma_split(d, p, s, w1);
    let p4 = p + s.len() + 12;
    assert(d[p4] == d.subrange(p4, p4 + 1)[0]);
}

proof fn lemma_entry_assemble(d: Seq<u8>, p: int, e: EntryView, p1: int, p4: int, p5: int, p6: int)
    requires
        p_string(d, p) == Some((e.canonical, p1)),
        p_i32(d, p1) == Some((kind_code(e.kind) as i32, p1 + 4)),
        p_word(d, p1 + 4) == Some((e.attributes as nat, p1 + 8)),
        p_i32(d, p1 + 8) == Some((e.zs_dictionary_id, p4)),
        p4 < d.len(),
        d[p4] as nat == e.versions.len(),
        p_many(d, p4 + 1, e.versions.len(), i32_item()) == Some((e.versions, p5)),
        p_list(d, p5, string_item()) == Some((e.archive_canonicals, p6)),
    ensures
        p_entry(d, p) == Some((e, p6)),
{
    reveal(p_entry);
    assert(kind_of((kind_code(e.kind) as i32) as int) == Some(e.kind));
}

proof fn lemma_entry_name(d: Seq<u8>, p: int, e: EntryView)
    requires
        0 <= p,
        p + enc_entry(e).len() <= d.len(),
        d.subrange(p, p + enc_entry(e).len()) == enc_entry(e),
        entry_fits(e),
    ensures
        p_string(d, p) == Some((e.canonical, p + enc_string(e.canonical).len())),
{
    lemma_entry_layout(d, p, e);
    lemma_string(d, p, e.canonical);
}

proof fn lemma_entry_kind(d: Seq<u8>, p: int, e: EntryView)
    requires
        0 <= p,
        p + enc_entry(e).len() <= d.len(),
        d.subrange(p, p + enc_entry(e).len()) == enc_entry(e),
        entry_fits(e),
    ensures
        p_i32(d, p + enc_string(e.canonical).len()) == Some(
            (kind_code(e.kind) as i32, p + enc_string(e.canonical).len() + 4),
        ),
{
    lemma_entry_layout(d, p, e);
    lemma_i32(d, p + enc_string(e.canonical).len(), kind_code(e.kind) as i32);
}

proof fn lemma_entry_attributes(d: Seq<u8>, p: int, e: EntryView)
    requires
        0 <= p,
        p + enc_entry(e).len() <= d.len(),
        d.subrange(p, p + enc_entry(e).len()) == enc_entry(e),
        entry_fits(e),
    ensures
        p_word(d, p + enc_string(e.canonical).len() + 4) == Some(
            (e.attributes as nat, p + enc_string(e.canonical).len() + 8),
        ),
{
    lemma_entry_layout(d, p, e);
    lemma_u32(d, p + enc_string(e.canonical).len() + 4, e.attributes);
}

proof fn lemma_entry_dictionary(d: Seq<u8>, p: int, e: EntryView)
    requires
        0 <= p,
        p + enc_entry(e).len() <= d.len(),
        d.subrange(p, p + enc_entry(e).len()) == enc_entry(e),
        entry_fits(e),
    ensures
        p_i32(d, p + enc_string(e.canonical).len() + 8) == Some(
            (e.zs_dictionary_id, p + enc_string(e.canonical).len() + 12),
        ),
{
    lemma_entry_layout(d, p, e);
    lemma_i32(d, p + enc_string(e.canonical).len() + 8, e.zs_dictionary_id);
}

proof fn lemma_entry_count(d: Seq<u8>, p: int, e: EntryView)
    requires
        0 <= p,
        p + enc_entry(e).len() <= d.len(),
        d.subrange(p, p + enc_entry(e).len()) == enc_entry(e),
        entry_fits(e),
    ensures
        p + enc_string(e.canonical).len() + 12 < d.len(),
        d[p + enc_string(e.canonical).len() + 12] as nat == e.versions.len(),
{
    lemma_entry_layout(d, p, e);
}

proof fn lemma_entry_versions(d: Seq<u8>, p: int, e: EntryView)
    requires
        0 <= p,
        p + enc_entry(e).len() <= d.len(),
        d.subrange(p, p + enc_entry(e).len()) == enc_entry(e),
    ensures
        ({
            let p4 = p + enc_string(e.canonical).len() + 12;
            let mv = enc_many(e.versions, enc_word_item());
            p_many(d, p4 + 1, e.versions.len(), i32_item()) == Some((e.versions, p4 + 1 + mv.len()))
        }),
{
    let p4 = p + enc_string(e.canonical).len() + 12;
    lemma_entry_layout(d, p, e);
    let item = i32_item();
    let enc = enc_word_item();
    assert forall|q: int, i: int|
        #![trigger item(d, q), e.versions[i]]
        0 <= i < e.versions.len() && 0 <= q && q + enc(e.versions[i]).len() <= d.len()
            && d.subrange(q, q + enc(e.versions[i]).len()) == enc(e.versions[i]) implies item(d, q)
        == Some((e.versions[i], q + enc(e.versions[i]).len())) by {
        lemma_i32(d, q, e.versions[i]);
    }
    lemma_many(d, p4 + 1, e.versions, item, enc);
}

proof fn lemma_entry_archives(d: Seq<u8>, p: int, e: EntryView)
    requires
        0 <= p,
        p + enc_entry(e).len() <= d.len(),
        d.subrange(p, p + enc_entry(e).len()) == enc_entry(e),
        entry_fits(e),
    ensures
        ({
            let p5 = p + enc_string(e.canonical).len() + 13 + enc_many(e.versions, enc_word_item()).len();
            let st = enc_strings(e.archive_canonicals);
            &&& p_list(d, p5, string_item()) == Some((e.archive_canonicals, p5 + st.len()))
            &&& p5 + st.len() == p + enc_entry(e).len()
        }),
{
    let p5 = p + enc_string(e.canonical).len() + 13 + enc_many(e.versions, enc_word_item()).len();
    lemma_entry_layout(d, p, e);
    lemma_strings(d, p5, e.archive_canonicals);
}

pub proof fn lemma_entry(d: Seq<u8>, p: int, e: EntryView)
    requires
        0 <= p,
        p + enc_entry(e).len() <= d.len(),
        d.subrange(p, p + enc_entry(e).len()) == enc_entry(e),
        entry_fits(e),
    ensures
        p_entry(d, p) == Some((e, p + enc_entry(e).len())),
{
    let p1 = p + enc_string(e.canonical).len();
    let p4 = p1 + 12;
    let p5 = p4 + 1 + enc_many(e.versions, enc_word_item()).len();
    lemma_entry_name(d, p, e);
    lemma_entry_kind(d, p, e);
    lemma_entry_attributes(d, p, e);
    lemma_entry_dictionary(d, p, e);
    lemma_entry_count(d, p, e);
    lemma_entry_versions(d, p, e);
    lemma_entry_archives(d, p, e);
    lemma_entry_assemble(d, p, e, p1, p4, p5, p + enc_entry(e).len());
}

pub proof fn lemma_patch(d: Seq<u8>, p: int, x: PatchView)
    requires
        0 <= p,
        p + enc_patch(x).len() <= d.len(),
        d.subrange(p, p + enc_patch(x).len()) == enc_patch(x),
        patch_fits(x),
    ensures
        p_patch(d, p) == Some((x, p + enc_patch(x).len())),
{
    let s = enc_string(x.nso_binary_id);
    let l = enc_list(x.entries, enc_pair_item());
    lemma_split(d, p, s, l);
    lemma_string(d, p, x.nso_binary_id);
    let item = pair_item();
    let enc = enc_pair_item();
    assert forall|q: int, i: int|
        #![trigger item(d, q), x.entries[i]]
        0 <= i < x.entries.len() && 0 <= q && q + enc(x.entries[i]).len() <= d.len()
            && d.subrange(q, q + enc(x.entries[i]).len()) == enc(x.entries[i]) implies item(d, q)
        == Some((x.entries[i], q + enc(x.entries[i]).len())) by {
        let (a, b) = x.entries[i];
        lemma_split(d, q, word(a as int), word(b as int));
        lemma_u32(d, q, a);
        lemma_u32(d, q + 4, b);
    }
    lemma_list(d, p + s.len(), x.entries, item, enc);
}

pub proof fn lemma_line(d: Seq<u8>, p: int, l: Seq<u32>)
    requires
        0 <= p,
        p + enc_list(l, enc_u32_item()).len() <= d.len(),
        d.subrange(p, p + enc_list(l, enc_u32_item()).len()) == enc_list(l, enc_u32_item()),
        count_fits(l.len()),
    ensures
        p_list(d, p, u32_item()) == Some((l, p + enc_list(l, enc_u32_item()).len())),
{
    let item = u32_item();
    let enc = enc_u32_item();
    assert forall|q: int, i: int|
        #![trigger item(d, q), l[i]]
        0 <= i < l.len() && 0 <= q && q + enc(l[i]).len() <= d.len() && d.subrange(
            q,
            q + enc(l[i]).len(),
        ) == enc(l[i]) implies item(d, q) == Some((l[i], q + enc(l[i]).len())) by {
        lemma_u32(d, q, l[i]);
    }
    lemma_list(d, p, l, item, enc);
}

pub proof fn lemma_cheat_entry(d: Seq<u8>, p: int, x: (Seq<char>, Seq<Seq<u32>>))
    requires
        0 <= p,
        p + enc_cheat_entry_item()(x).len() <= d.len(),
        d.subrange(p, p + enc_cheat_entry_item()(x).len()) == enc_cheat_entry_item()(x),
        str_fits(x.0),
        lines_fit(x.1),
    ensures
        cheat_entry_item()(d, p) == Some((x, p + enc_cheat_entry_item()(x).len())),
{
    let s = enc_string(x.0);
    let l = enc_list(x.1, enc_line_item());
    lemma_split(d, p, s, l);
    lemma_string(d, p, x.0);
    let item = line_item();
    let enc = enc_line_item();
    assert forall|q: int, i: int|
        #![trigger item(d, q), x.1[i]]
        0 <= i < x.1.len() && 0 <= q && q + enc(x.1[i]).len() <= d.len() && d.subrange(
            q,
            q + enc(x.1[i]).len(),
        ) == enc(x.1[i]) implies item(d, q) == Some((x.1[i], q + enc(x.1[i]).len())) by {
        lemma_line(d, q, x.1[i]);
    }
    lemma_list(d, p + s.len(), x.1, item, enc);
}

pub proof fn lemma_cheat(d: Seq<u8>, p: int, x: CheatView)
    requires
        0 <= p,
        p + enc_cheat(x).len() <= d.len(),
        d.subrange(p, p + enc_cheat(x).len()) == enc_cheat(x),
        cheat_fits(x),
    ensures
        p_cheat(d, p) == Some((x, p + enc_cheat(x).len())),
{
    let s = enc_string(x.name);
    let l = enc_list(x.entries, enc_cheat_entry_item());
    lemma_split(d, p, s, l);
    lemma_string(d, p, x.name);
    let item = cheat_entry_item();
    let enc = enc_cheat_entry_item();
    assert forall|q: int, i: int|
        #![trigger item(d, q), x.entries[i]]
        0 <= i < x.entries.len() && 0 <= q && q + enc(x.entries[i]).len() <= d.len()
            && d.subrange(q, q + enc(x.entries[i]).len()) == enc(x.entries[i]) implies item(d, q)
        == Some((x.entries[i], q + enc(x.entries[i]).len())) by {
        lemma_cheat_entry(d, q, x.entries[i]);
    }
    lemma_list(d, p + s.len(), x.entries, item, enc);
}


#[verifier::rlimit(80)]
#[verifier::spinoff_prover]
proof fn lemma_body(d: Seq<u8>, p: int, c: ChangelogView)
    requires
        0 <= p,
        p + enc_body(c).len() <= d.len(),
        d.subrange(p, p + enc_body(c).len()) == enc_body(c),
        changelog_fits(c),
    ensures
        p_body(d, p, c.builder_version, c.game_version) == Some((c, p + enc_body(c).len())),
{
    let e = enc_list(c.entries, enc_entry_item());
    let m = enc_strings(c.mals_files);
    let pa = enc_list(c.patches, enc_patch_item());
    let ch = enc_list(c.cheats, enc_cheat_item());
    let su = enc_strings(c.subsdk_files);
    let ex = enc_strings(c.exe_files);
    let z = word(0);
    let x1 = e + m;
    let x2 = x1 + pa;
    let x3 = x2 + ch;
    let x4 = x3 + su;
    let x5 = x4 + ex;
    let x6 = x5 + z;
    assert(enc_body(c) == x6 + z) by {
        reveal(enc_body);
    }
    let p1 = p + e.len();
    let p2 = p1 + m.len();
    let p3 = p2 + pa.len();
    let p4 = p3 + ch.len();
    let p5 = p4 + su.len();
    let p6 = p5 + ex.len();
    let p7 = p6 + 4;
    let p8 = p7 + 4;
    assert(p_list(d, p, entry_item()) == Some((c.entries, p1))) by {
        lemma_split(d, p, x6, z);
        lemma_split(d, p, x5, z);
        lemma_split(d, p, x4, ex);
        lemma_split(d, p, x3, su);
        lemma_split(d, p, x2, ch);
        lemma_split(d, p, x1, pa);
        lemma_split(d, p, e, m);
        let item = entry_item();
        let enc = enc_entry_item();
        assert forall|q: int, i: int|
            #![trigger item(d, q), c.entries[i]]
            0 <= i < c.entries.len() && 0 <= q && q + enc(c.entries[i]).len() <= d.len()
                && d.subrange(q, q + enc(c.entries[i]).len()) == enc(c.entries[i]) implies item(
            d,
            q,
        ) == Some((c.entries[i], q + enc(c.entries[i]).len())) by {
            lemma_entry(d, q, c.entries[i]);
        }
        lemma_list(d, p, c.entries, item, enc);
    }
    assert(p_list(d, p1, string_item()) == Some((c.mals_files, p2))) by {
        lemma_split(d, p, x6, z);
        lemma_split(d, p, x5, z);
        lemma_split(d, p, x4, ex);
        lemma_split(d, p, x3, su);
        lemma_split(d, p, x2, ch);
        lemma_split(d, p, x1, pa);
        lemma_split(d, p, e, m);
        lemma_strings(d, p1, c.mals_files);
    }
    assert(p_list(d, p2, patch_item()) == Some((c.patches, p3))) by {
        lemma_split(d, p, x6, z);
        lemma_split(d, p, x5, z);
        lemma_split(d, p, x4, ex);
        lemma_split(d, p, x3, su);
        lemma_split(d, p, x2, ch);
        lemma_split(d, p, x1, pa);
        let item = patch_item();
        let enc = enc_patch_item();
        assert forall|q: int, i: int|
            #![trigger item(d, q), c.patches[i]]
            0 <= i < c.patches.len() && 0 <= q && q + enc(c.patches[i]).len() <= d.len()
                && d.subrange(q, q + enc(c.patches[i]).len()) == enc(c.patches[i]) implies item(
            d,
            q,
        ) == Some((c.patches[i], q + enc(c.patches[i]).len())) by {
            lemma_patch(d, q, c.patches[i]);
        }
        lemma_list(d, p2, c.patches, item, enc);
    }
    assert(p_list(d, p3, cheat_item()) == Some((c.cheats, p4))) by {
        lemma_split(d, p, x6, z);
        lemma_split(d, p, x5, z);
        lemma_split(d, p, x4, ex);
        lemma_split(d, p, x3, su);
        lemma_split(d, p, x2, ch);
        let item = cheat_item();
        let enc = enc_cheat_item();
        assert forall|q: int, i: int|
            #![trigger item(d, q), c.cheats[i]]
            0 <= i < c.cheats.len() && 0 <= q && q + enc(c.cheats[i]).len() <= d.len()
                && d.subrange(q, q + enc(c.cheats[i]).len()) == enc(c.cheats[i]) implies item(
            d,
            q,
        ) == Some((c.cheats[i], q + enc(c.cheats[i]).len())) by {
            lemma_cheat(d, q, c.cheats[i]);
        }
        lemma_list(d, p3, c.cheats, item, enc);
    }
    assert(p_list(d, p4, string_item()) == Some((c.subsdk_files, p5))) by {
        lemma_split(d, p, x6, z);
        lemma_split(d, p, x5, z);
        lemma_split(d, p, x4, ex);
        lemma_split(d, p, x3, su);
        lemma_strings(d, p4, c.subsdk_files);
    }
    assert(p_list(d, p5, string_item()) == Some((c.exe_files, p6))) by {
        lemma_split(d, p, x6, z);
        lemma_split(d, p, x5, z);
        lemma_split(d, p, x4, ex);
        lemma_strings(d, p5, c.exe_files);
    }
    assert(p_list(d, p6, string_item()) == Some((Seq::<Seq<char>>::empty(), p7))) by {
        lemma_split(d, p, x6, z);
        lemma_split(d, p, x5, z);
        assert(enc_strings(Seq::<Seq<char>>::empty()) =~= z);
        lemma_strings(d, p6, Seq::<Seq<char>>::empty());
    }
    assert(p_list(d, p7, string_item()) == Some((Seq::<Seq<char>>::empty(), p8))) by {
        lemma_split(d, p, x6, z);
        assert(enc_strings(Seq::<Seq<char>>::empty()) =~= z);
        lemma_strings(d, p7, Seq::<Seq<char>>::empty());
    }
    reveal(p_body);
}

proof fn lemma_changelog_assemble(d: Seq<u8>, p: int, c: ChangelogView, q: int)
    requires
        p_word(d, p) == Some((CHANGELOG_MAGIC as nat, p + 4)),
        p_i32(d, p + 4) == Some((c.builder_version, p + 8)),
        p_i32(d, p + 8) == Some((c.game_version, p + 12)),
        p_body(d, p + 12, c.builder_version, c.game_version) == Some((c, q)),
    ensures
        p_changelog(d, p) == Some((c, q)),
{
}

proof fn lemma_changelog_at(d: Seq<u8>, p: int, c: ChangelogView)
    requires
        0 <= p,
        p + encode(c).len() <= d.len(),
        d.subrange(p, p + encode(c).len()) == encode(c),
        changelog_fits(c),
    ensures
        p_changelog(d, p) == Some((c, p + encode(c).len())),
{
    let w0 = word(CHANGELOG_MAGIC as int);
    let w1 = word(c.builder_version as int);
    let w2 = word(c.game_version as int);
    let body = enc_body(c);
    assert(p_word(d, p) == Some((CHANGELOG_MAGIC as nat, p + 4))) by {
        lemma_split(d, p, w0 + w1 + w2, body);
        lemma_split(d, p, w0 + w1, w2);
        lemma_split(d, p, w0, w1);
        lemma_word(d, p, CHANGELOG_MAGIC as int);
    }
    assert(p_i32(d, p + 4) == Some((c.builder_version, p + 8))) by {
        lemma_split(d, p, w0 + w1 + w2, body);
        lemma_split(d, p, w0 + w1, w2);
        lemma_split(d, p, w0, w1);
        lemma_i32(d, p + 4, c.builder_version);
    }
    assert(p_i32(d, p + 8) == Some((c.game_version, p + 12))) by {
        lemma_split(d, p, w0 + w1 + w2, body);
        lemma_split(d, p, w0 + w1, w2);
        lemma_i32(d, p + 8, c.game_version);
    }
    assert(p_body(d, p + 12, c.builder_version, c.game_version) == Some(
        (c, p + encode(c).len()),
    )) by {
        lemma_split(d, p, w0 + w1 + w2, body);
        lemma_body(d, p + 12, c);
    }
    lemma_changelog_assemble(d, p, c, p + encode(c).len());
}

/// What a reader makes of a written changelog is that changelog, whenever it
/// fits the format's limits (`changelog_fits`).
pub proof fn lemma_changelog_round_trip(c: ChangelogView)
    requires
        changelog_fits(c),
    ensures
        p_changelog(encode(c), 0) == Some((c, encode(c).len() as int)),
{
    let d = encode(c);
    assert(d.subrange(0, d.len() as int) =~= d);
    lemma_changelog_at(d, 0, c);
}

} // verus!
