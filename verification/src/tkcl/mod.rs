//! TKMM mod packages (`.tkcl`) and changelogs.
//!
//! A `.tkcl` is a small binary header describing the mod (name, author, option
//! groups...) followed by a ZIP archive of changelog files: for each game file
//! the mod touches, what it changes relative to vanilla. Every changelog also
//! lists those files, with the attributes needed to find the real romfs path
//! back (compression, product version, the packs a file belongs to).

pub mod attributes;
pub mod wire;
pub mod codec;
pub mod package;
pub mod archive;

use vstd::prelude::*;
pub use wire::EntryType;
pub use package::{ModOption, OptionGroup, OptionGroupType, TkMod};
use wire::{encode, kind_of, p_changelog, ChangelogView, CheatView, EntryView, PatchView};
use crate::text::{
    chars_of, find_char, has_prefix_lit, is_alnum, is_alnum_char, is_digit, push_signed, push_str,
    slice_of, starts_with, string_of, index_of,
};

verus! {

/// One file of a changelog.
#[derive(Debug, Clone)]
pub struct ChangelogEntry {
    /// Game path without compression suffix or version, e.g.
    /// "RSDB/ActorInfo.Product.rstbl.byml".
    pub canonical: String,
    pub kind: EntryType,
    pub attributes: u32,
    pub zs_dictionary_id: i32,
    /// Game versions this entry has a dedicated file for (e.g. [110, 121]).
    pub versions: Vec<i32>,
    /// Packs this file lives in, when it is part of one.
    pub archive_canonicals: Vec<String>,
}

impl View for ChangelogEntry {
    type V = EntryView;

    open spec fn view(&self) -> EntryView {
        EntryView {
            canonical: self.canonical@,
            kind: self.kind,
            attributes: self.attributes,
            zs_dictionary_id: self.zs_dictionary_id,
            versions: self.versions@,
            archive_canonicals: codec::strs(self.archive_canonicals@),
        }
    }
}

/// Code patches for one executable.
#[derive(Debug, Clone, Default)]
pub struct Patch {
    pub nso_binary_id: String,
    /// Offset within the NSO and the instruction put there.
    pub entries: Vec<(u32, u32)>,
}

impl View for Patch {
    type V = PatchView;

    open spec fn view(&self) -> PatchView {
        PatchView { nso_binary_id: self.nso_binary_id@, entries: self.entries@ }
    }
}

/// A cheat: named groups of lines of numbers.
#[derive(Debug, Clone, Default)]
pub struct Cheat {
    pub name: String,
    pub entries: Vec<(String, Vec<Vec<u32>>)>,
}

pub open spec fn lines_view(lines: Seq<Vec<u32>>) -> Seq<Seq<u32>> {
    lines.map_values(|l: Vec<u32>| l@)
}

pub open spec fn cheat_entries_view(entries: Seq<(String, Vec<Vec<u32>>)>) -> Seq<(Seq<char>, Seq<Seq<u32>>)> {
    entries.map_values(|e: (String, Vec<Vec<u32>>)| (e.0@, lines_view(e.1@)))
}

impl View for Cheat {
    type V = CheatView;

    open spec fn view(&self) -> CheatView {
        CheatView { name: self.name@, entries: cheat_entries_view(self.entries@) }
    }
}

/// Where a changelog's files are read from.
pub trait ChangelogSource {
    /// Reads a file relative to the mod root, e.g. "romfs/Pack/Actor/Foo.pack".
    fn read(&self, relative: &str) -> Option<Vec<u8>>;

    /// A plain file holding exactly that content, which can be handed to the
    /// game as is instead of being copied.
    fn file_path(&self, relative: &str) -> Option<String> {
        None
    }

    /// The first bytes of a file (enough for a zstd frame header): at most
    /// `length` of them. Which bytes they are rests on `read`, which each
    /// source implements and which has no contract of its own.
    fn read_head(&self, relative: &str, length: usize) -> (r: Option<Vec<u8>>)
        ensures
            r matches Some(head) ==> head@.len() <= length,
    {
        match self.read(relative) {
            Some(mut data) => {
                data.truncate(length);
                Some(data)
            },
            None => None,
        }
    }

    /// A short description for logs.
    fn describe(&self) -> String;
}

/// What a mod (or one of its options) changes, and where the files are.
pub struct Changelog<S> {
    pub builder_version: i32,
    pub game_version: i32,
    pub entries: Vec<ChangelogEntry>,
    pub mals_files: Vec<String>,
    pub patches: Vec<Patch>,
    pub cheats: Vec<Cheat>,
    pub subsdk_files: Vec<String>,
    pub exe_files: Vec<String>,
    pub source: S,
}

pub open spec fn entries_view(v: Seq<ChangelogEntry>) -> Seq<EntryView> {
    v.map_values(|e: ChangelogEntry| e@)
}

pub open spec fn patches_view(v: Seq<Patch>) -> Seq<PatchView> {
    v.map_values(|p: Patch| p@)
}

pub open spec fn cheats_view(v: Seq<Cheat>) -> Seq<CheatView> {
    v.map_values(|c: Cheat| c@)
}

impl<S> View for Changelog<S> {
    type V = ChangelogView;

    open spec fn view(&self) -> ChangelogView {
        ChangelogView {
            builder_version: self.builder_version,
            game_version: self.game_version,
            entries: entries_view(self.entries@),
            mals_files: codec::strs(self.mals_files@),
            patches: patches_view(self.patches@),
            cheats: cheats_view(self.cheats@),
            subsdk_files: codec::strs(self.subsdk_files@),
            exe_files: codec::strs(self.exe_files@),
        }
    }
}

impl<S> Changelog<S> {
    /// The changelog index in TKMM's layout (the files it refers to live next
    /// to it, in its source).
    pub fn write(&self) -> (out: Vec<u8>)
        ensures
            out@ == encode(self@),
    {
        codec::write_changelog(self)
    }

    /// Reads a changelog index written by `Changelog::write`; its files are
    /// read from `source`. Bytes after the index are ignored.
    pub fn read(data: &[u8], source: S) -> (r: Result<Changelog<S>, String>)
        ensures
            match r {
                Ok(c) => p_changelog(data@, 0) matches Some((v, _)) && v == c@ && c.source == source,
                Err(_) => p_changelog(data@, 0) is None,
            },
    {
        match codec::read_changelog(data, 0, source) {
            Ok((c, _)) => Ok(c),
            Err(e) => Err(e),
        }
    }
}

impl EntryType {
    /// The entry type stored as `value`.
    pub fn from_raw(value: i32) -> (r: Result<EntryType, String>)
        ensures
            match r {
                Ok(kind) => kind_of(value as int) == Some(kind),
                Err(_) => kind_of(value as int) is None,
            },
    {
        if value == 0 {
            Ok(EntryType::Changelog)
        } else if value == 1 {
            Ok(EntryType::Copy)
        } else if value == 2 {
            Ok(EntryType::Placeholder)
        } else {
            let mut e = String::new();
            push_str(&mut e, "unknown changelog entry type ");
            push_signed(&mut e, value as i64);
            Err(e)
        }
    }
}

// --- package folders -----------------------------------------------------------------

/// How many decimal digits `s` starts with.
pub open spec fn leading_digits(s: Seq<char>) -> nat
    decreases s.len(),
{
    if s.len() > 0 && is_digit(s[0]) {
        1 + leading_digits(s.skip(1))
    } else {
        0
    }
}

pub proof fn lemma_leading_digits(s: Seq<char>)
    ensures
        leading_digits(s) <= s.len(),
        forall|j: int| 0 <= j < leading_digits(s) ==> is_digit(#[trigger] s[j]),
        leading_digits(s) < s.len() ==> !is_digit(s[leading_digits(s) as int]),
    decreases s.len(),
{
    if s.len() > 0 && is_digit(s[0]) {
        lemma_leading_digits(s.skip(1));
        assert forall|j: int| 0 <= j < leading_digits(s) implies is_digit(#[trigger] s[j]) by {
            if j > 0 {
                assert(s[j] == s.skip(1)[j - 1]);
            }
        }
        if leading_digits(s) < s.len() {
            assert(s[leading_digits(s) as int] == s.skip(1)[leading_digits(s.skip(1)) as int]);
        }
    }
}

/// `rest` without the `tkmmNNN/` bucket folders it starts with.
pub open spec fn without_buckets(rest: Seq<char>) -> Seq<char>
    decreases rest.len(),
{
    if starts_with(rest, seq!['t', 'k', 'm', 'm']) {
        let after = rest.skip(4);
        let k = leading_digits(after);
        if 0 < k < after.len() && after[k as int] == '/' {
            without_buckets(after.skip((k + 1) as int))
        } else {
            rest
        }
    } else {
        rest
    }
}

pub open spec fn romfs_prefix() -> Seq<char> {
    seq!['r', 'o', 'm', 'f', 's', '/']
}

/// "romfs/tkmm001/pack/foo" -> "romfs/pack/foo": TKMM spreads romfs files over
/// numbered buckets to stay under FAT32's per-directory file limit.
pub open spec fn strip_romfs_bucket_spec(path: Seq<char>) -> Seq<char> {
    if starts_with(path, romfs_prefix()) {
        romfs_prefix() + without_buckets(path.skip(6))
    } else {
        path
    }
}

/// The number of digits at `from` in `s`.
fn digits_at(s: &[char], from: usize) -> (k: usize)
    requires
        from <= s.len(),
    ensures
        k == leading_digits(s@.skip(from as int)),
{
    let mut k: usize = 0;
    proof {
        assert(s@.skip(from as int).skip(0) =~= s@.skip(from as int));
    }
    while from + k < s.len() && crate::text::is_digit_char(s[from + k])
        invariant
            from + k <= s.len(),
            leading_digits(s@.skip(from as int)) == k + leading_digits(s@.skip(from + k)),
        decreases s.len() - from - k,
    {
        assert(s@.skip(from + k).skip(1) =~= s@.skip(from + k + 1));
        k = k + 1;
    }
    k
}

/// Removes TKMM's numbered bucket folders after `romfs/`.
pub fn strip_romfs_bucket(path: &str) -> (r: String)
    ensures
        r@ == strip_romfs_bucket_spec(path@),
{
    let p = chars_of(path);
    proof {
        reveal_strlit("romfs/");
        reveal_strlit("tkmm");
        assert("romfs/"@ =~= romfs_prefix());
    }
    if !has_prefix_lit(p.as_slice(), "romfs/") {
        return string_of(p.as_slice());
    }
    let mut i: usize = 6;
    loop
        invariant
            6 <= i <= p.len(),
            p@ == path@,
            starts_with(p@, romfs_prefix()),
            without_buckets(p@.skip(6)) == without_buckets(p@.skip(i as int)),
        ensures
            6 <= i <= p.len(),
            p@ == path@,
            starts_with(p@, romfs_prefix()),
            without_buckets(p@.skip(6)) == p@.skip(i as int),
        decreases p.len() - i,
    {
        proof {
            reveal_strlit("tkmm");
            assert("tkmm"@ =~= seq!['t', 'k', 'm', 'm']);
        }
        let rest = slice_of(p.as_slice(), i, p.len());
        assert(rest@ =~= p@.skip(i as int));
        if !has_prefix_lit(rest.as_slice(), "tkmm") {
            break;
        }
        let k = digits_at(p.as_slice(), i + 4);
        proof {
            assert(p@.skip(i as int).skip(4) =~= p@.skip(i + 4));
            lemma_leading_digits(p@.skip(i + 4));
        }
        let fits = k > 0 && i + 4 + k < p.len();
        if !fits || p[i + 4 + k] != '/' {
            proof {
                if fits {
                    assert(p@.skip(i + 4)[k as int] == p@[i + 4 + k]);
                }
            }
            break;
        }
        proof {
            assert(p@.skip(i + 4)[k as int] == p@[i + 4 + k]);
            assert(p@.skip(i + 4).skip(k + 1) =~= p@.skip(i + 4 + k + 1));
        }
        i = i + 4 + k + 1;
    }
    proof {
        reveal_strlit("romfs/");
    }
    let tail = slice_of(p.as_slice(), i, p.len());
    let mut r = String::new();
    push_str(&mut r, "romfs/");
    crate::text::push_chars(&mut r, tail.as_slice());
    assert(tail@ =~= p@.skip(i as int));
    assert(r@ =~= strip_romfs_bucket_spec(path@));
    r
}

/// Whether `path` starts with a folder named like a ULID: 26 ASCII letters
/// or digits.
pub open spec fn is_ulid_folder_spec(path: Seq<char>) -> bool {
    index_of(path, '/') == 26 && forall|j: int| 0 <= j < 26 ==> is_alnum(#[trigger] path[j])
}

pub fn is_ulid_folder(path: &str) -> (r: bool)
    ensures
        r == is_ulid_folder_spec(path@),
{
    let p = chars_of(path);
    match find_char(p.as_slice(), '/') {
        Some(i) => {
            if i != 26 {
                return false;
            }
            let mut j: usize = 0;
            while j < 26
                invariant
                    j <= 26,
                    26 < p@.len(),
                    p@ == path@,
                    forall|l: int| 0 <= l < j ==> is_alnum(#[trigger] p@[l]),
                decreases 26 - j,
            {
                if !is_alnum_char(p[j]) {
                    return false;
                }
                j = j + 1;
            }
            true
        },
        None => false,
    }
}

// --- ULIDs -------------------------------------------------------------------------------

/// The number whose big-endian bytes these are.
pub open spec fn be_value(bytes: Seq<u8>) -> nat
    decreases bytes.len(),
{
    if bytes.len() == 0 {
        0
    } else {
        be_value(bytes.drop_last()) * 256 + bytes.last() as nat
    }
}

pub open spec fn pow256(n: nat) -> nat
    decreases n,
{
    if n == 0 {
        1
    } else {
        256 * pow256((n - 1) as nat)
    }
}

/// The `n` lowest base-32 digits of `v`, lowest first.
pub open spec fn base32_digits(v: nat, n: nat) -> Seq<nat>
    decreases n,
{
    if n == 0 {
        Seq::empty()
    } else {
        seq![v % 32] + base32_digits(v / 32, (n - 1) as nat)
    }
}

pub open spec fn crockford_alphabet() -> Seq<char> {
    seq![
        '0', '1', '2', '3', '4', '5', '6', '7', '8', '9', 'A', 'B', 'C', 'D', 'E', 'F',
        'G', 'H', 'J', 'K', 'M', 'N', 'P', 'Q', 'R', 'S', 'T', 'V', 'W', 'X', 'Y', 'Z',
    ]
}

/// A ULID as TKMM names option folders: 26 Crockford base32 characters,
/// most significant first.
pub open spec fn ulid_text(id: Seq<u8>) -> Seq<char> {
    let digits = base32_digits(be_value(id), 26);
    Seq::new(26, |i: int| crockford_alphabet()[digits[25 - i] as int])
}

proof fn lemma_pow256_mono(a: nat, b: nat)
    requires
        a <= b,
    ensures
        pow256(a) <= pow256(b),
    decreases b - a,
{
    if a < b {
        lemma_pow256_mono(a, (b - 1) as nat);
    }
}

fn crockford(d: u8) -> (c: char)
    requires
        d < 32,
    ensures
        c == crockford_alphabet()[d as int],
{
    let table: [char; 32] = [
        '0', '1', '2', '3', '4', '5', '6', '7', '8', '9', 'A', 'B', 'C', 'D', 'E', 'F',
        'G', 'H', 'J', 'K', 'M', 'N', 'P', 'Q', 'R', 'S', 'T', 'V', 'W', 'X', 'Y', 'Z',
    ];
    assert(table@ =~= crockford_alphabet());
    table[d as usize]
}

/// The text of a ULID.
pub fn ulid_to_string(id: &[u8; 16]) -> (s: String)
    ensures
        s@ == ulid_text(id@),
{
    let mut v: u128 = 0;
    let mut i: usize = 0;
    proof {
        reveal_with_fuel(pow256, 16);
        assert(pow256(15) == 0x1_00_0000_0000_0000_0000_0000_0000_0000);
    }
    while i < 16
        invariant
            i <= 16,
            v as nat == be_value(id@.take(i as int)),
            v < pow256(i as nat),
            pow256(15) == 0x1_00_0000_0000_0000_0000_0000_0000_0000,
        decreases 16 - i,
    {
        proof {
            lemma_pow256_mono(i as nat, 15);
            assert(id@.take(i + 1).drop_last() =~= id@.take(i as int));
        }
        v = v * 256 + id[i] as u128;
        i = i + 1;
    }
    assert(id@.take(16) =~= id@);
    let ghost value = be_value(id@);
    let mut digits: Vec<u8> = Vec::new();
    let mut rest: u128 = v;
    let mut k: usize = 0;
    while k < 26
        invariant
            k <= 26,
            base32_digits(value, 26) == digits@.map_values(|d: u8| d as nat) + base32_digits(
                rest as nat,
                (26 - k) as nat,
            ),
            digits@.len() == k,
            forall|m: int| 0 <= m < k ==> #[trigger] digits@[m] < 32,
        decreases 26 - k,
    {
        let ghost before = digits@;
        digits.push((rest % 32) as u8);
        proof {
            assert(digits@.map_values(|d: u8| d as nat) =~= before.map_values(|d: u8| d as nat).push(
                (rest % 32) as nat,
            ));
            assert(base32_digits(rest as nat, (26 - k) as nat) =~= seq![(rest % 32) as nat]
                + base32_digits((rest / 32) as nat, (26 - k - 1) as nat));
        }
        rest = rest / 32;
        k = k + 1;
    }
    let ghost all = base32_digits(value, 26);
    assert(all =~= digits@.map_values(|d: u8| d as nat));
    let mut out: Vec<char> = Vec::new();
    let mut j: usize = 0;
    while j < 26
        invariant
            j <= 26,
            digits@.len() == 26,
            all == digits@.map_values(|d: u8| d as nat),
            forall|m: int| 0 <= m < 26 ==> #[trigger] digits@[m] < 32,
            out@.len() == j,
            forall|m: int| 0 <= m < j ==> #[trigger] out@[m] == crockford_alphabet()[all[25 - m] as int],
        decreases 26 - j,
    {
        out.push(crockford(digits[25 - j]));
        j = j + 1;
    }
    assert(out@ =~= ulid_text(id@));
    string_of(out.as_slice())
}

} // verus!
