//! Building changelogs from plain mod folders: which builder a file takes,
//! and reading code patches (IPS32 and pchtxt).

use vstd::prelude::*;

use crate::canonical::{extension, extension_spec};
use crate::rsdb::{row_key, row_key_spec, TAG_TABLE};
use crate::text::{chars_of, ends_with, has_suffix_lit, is_lit, starts_with, str_eq, string_of};
use crate::tkcl::{ChangelogEntry, EntryType, Patch};

verus! {

/// What stands in an archive for a file a mod deletes: `TKSCRMVD`.
pub const DELETED_MARK: [u8; 8] = [0x54, 0x4B, 0x53, 0x43, 0x52, 0x4D, 0x56, 0x44];

/// The game data list, merged flag by flag.
pub const GAMEDATA_CANONICAL: &'static str = "GameData/GameDataList.Product.byml";

#[derive(Debug, Clone, Copy, PartialEq, Eq)]
pub enum BuilderKind {
    Pack,
    Bntx,
    GameData,
    RsdbTag,
    RsdbRow(&'static str),
    Msbt,
    Sarc,
    Byml,
}

pub enum BuilderKindView {
    Pack,
    Bntx,
    GameData,
    RsdbTag,
    RsdbRow(Seq<char>),
    Msbt,
    Sarc,
    Byml,
}

impl View for BuilderKind {
    type V = BuilderKindView;

    open spec fn view(&self) -> BuilderKindView {
        match self {
            BuilderKind::Pack => BuilderKindView::Pack,
            BuilderKind::Bntx => BuilderKindView::Bntx,
            BuilderKind::GameData => BuilderKindView::GameData,
            BuilderKind::RsdbTag => BuilderKindView::RsdbTag,
            BuilderKind::RsdbRow(k) => BuilderKindView::RsdbRow(k@),
            BuilderKind::Msbt => BuilderKindView::Msbt,
            BuilderKind::Sarc => BuilderKindView::Sarc,
            BuilderKind::Byml => BuilderKindView::Byml,
        }
    }
}

/// The builder TKMM uses for a game file, by extension and name.
pub open spec fn builder_spec(c: Seq<char>) -> Option<BuilderKindView> {
    let ext = extension_spec(c);
    if ext == ".pack"@ {
        Some(BuilderKindView::Pack)
    } else if ext == ".bntx"@ && ends_with(c, "__Combined.bntx"@) {
        Some(BuilderKindView::Bntx)
    } else if c == GAMEDATA_CANONICAL@ {
        Some(BuilderKindView::GameData)
    } else if c == TAG_TABLE@ {
        Some(BuilderKindView::RsdbTag)
    } else if row_key_spec(c) is Some {
        Some(BuilderKindView::RsdbRow(row_key_spec(c)->0))
    } else if ext == ".msbt"@ {
        Some(BuilderKindView::Msbt)
    } else if ext == ".bfarc"@ || ext == ".bkres"@ || ext == ".blarc"@ || ext == ".genvb"@ || ext
        == ".sarc"@ || ext == ".ta"@ {
        Some(BuilderKindView::Sarc)
    } else if ext == ".bgyml"@ {
        Some(BuilderKindView::Byml)
    } else if ext == ".byml"@ && !starts_with(c, "RSDB"@) && !starts_with(c, "GameData"@) {
        Some(BuilderKindView::Byml)
    } else {
        None
    }
}

pub open spec fn builder_view(b: Option<BuilderKind>) -> Option<BuilderKindView> {
    match b {
        Some(k) => Some(k@),
        None => None,
    }
}

/// The changelog builder for a game file.
pub fn builder_for(canonical: &str) -> (r: Option<BuilderKind>)
    ensures
        builder_view(r) == builder_spec(canonical@),
{
    let ext = extension(canonical);
    let c = chars_of(canonical);
    let e = chars_of(ext.as_str());
    if is_lit(e.as_slice(), ".pack") {
        return Some(BuilderKind::Pack);
    }
    if is_lit(e.as_slice(), ".bntx") && has_suffix_lit(c.as_slice(), "__Combined.bntx") {
        return Some(BuilderKind::Bntx);
    }
    if str_eq(canonical, GAMEDATA_CANONICAL) {
        return Some(BuilderKind::GameData);
    }
    if str_eq(canonical, TAG_TABLE) {
        return Some(BuilderKind::RsdbTag);
    }
    if let Some(key) = row_key(canonical) {
        return Some(BuilderKind::RsdbRow(key));
    }
    if is_lit(e.as_slice(), ".msbt") {
        return Some(BuilderKind::Msbt);
    }
    if is_lit(e.as_slice(), ".bfarc") || is_lit(e.as_slice(), ".bkres") || is_lit(e.as_slice(), ".blarc")
        || is_lit(e.as_slice(), ".genvb") || is_lit(e.as_slice(), ".sarc") || is_lit(
        e.as_slice(),
        ".ta",
    ) {
        return Some(BuilderKind::Sarc);
    }
    if is_lit(e.as_slice(), ".bgyml") {
        return Some(BuilderKind::Byml);
    }
    if is_lit(e.as_slice(), ".byml") && !crate::text::has_prefix_lit(c.as_slice(), "RSDB")
        && !crate::text::has_prefix_lit(c.as_slice(), "GameData") {
        return Some(BuilderKind::Byml);
    }
    None
}

impl BuilderKind {
    /// Packs and combined textures can be built without the vanilla file.
    pub fn can_process_without_vanilla(self) -> (r: bool)
        ensures
            r == (self is Pack || self is Bntx),
    {
        match self {
            BuilderKind::Pack | BuilderKind::Bntx => true,
            _ => false,
        }
    }
}

/// What a builder hands its sink: the changelog's content, or nothing for a
/// placeholder.
pub enum Payload<'a> {
    Data(&'a [u8]),
    Placeholder,
}

/// Where builders put what they produce.
pub trait ChangelogSink {
    /// `file_version` is the version of the path being built, `archive` the
    /// pack a nested file belongs to.
    fn write(
        &mut self,
        file_version: i32,
        canonical: &str,
        archive: Option<&str>,
        kind: EntryType,
        payload: Payload<'_>,
    ) -> Result<(), String>;
}

/// A changelog built from a folder, before it is stored anywhere.
pub struct BuiltChangelog {
    pub entries: Vec<ChangelogEntry>,
    pub mals_files: Vec<String>,
    pub patches: Vec<Patch>,
    pub subsdk_files: Vec<String>,
    pub exe_files: Vec<String>,
    /// Changelog files by path relative to the mod root ("romfs/…").
    pub files: Vec<(String, Vec<u8>)>,
    /// Files served straight from the mod folder: relative path → file.
    pub links: Vec<(String, String)>,
    pub skipped_cheats: usize,
}

impl BuiltChangelog {
    pub fn new() -> (b: BuiltChangelog)
        ensures
            b.entries@.len() == 0,
            b.mals_files@.len() == 0,
            b.patches@.len() == 0,
            b.subsdk_files@.len() == 0,
            b.exe_files@.len() == 0,
            b.files@.len() == 0,
            b.links@.len() == 0,
            b.skipped_cheats == 0,
    {
        BuiltChangelog {
            entries: Vec::new(),
            mals_files: Vec::new(),
            patches: Vec::new(),
            subsdk_files: Vec::new(),
            exe_files: Vec::new(),
            files: Vec::new(),
            links: Vec::new(),
            skipped_cheats: 0,
        }
    }
}

// --- zstd frames -----------------------------------------------------------------------------

/// The number of dictionary id bytes a frame header descriptor announces.
pub open spec fn dictionary_id_size(descriptor: u8) -> int {
    let flag = descriptor & 3;
    if flag == 0 {
        0
    } else if flag == 1 {
        1
    } else if flag == 2 {
        2
    } else {
        4
    }
}

/// Little-endian value of bytes.
pub open spec fn le_value(bytes: Seq<u8>) -> nat
    decreases bytes.len(),
{
    if bytes.len() == 0 {
        0
    } else {
        bytes[0] as nat + 256 * le_value(bytes.skip(1))
    }
}

/// The dictionary a zstd frame was compressed with, or -1.
pub open spec fn zstd_dictionary_spec(d: Seq<u8>) -> int {
    if d.len() < 6 || d[0] != 0x28 || d[1] != 0xB5 || d[2] != 0x2F || d[3] != 0xFD {
        -1
    } else {
        let start = if d[4] & 0x20 != 0 {
            5int
        } else {
            6int
        };
        let size = dictionary_id_size(d[4]);
        if start + size > d.len() || size == 0 {
            -1
        } else {
            let id = le_value(d.subrange(start, start + size));
            if id >= 0x8000_0000 {
                id - 0x1_0000_0000
            } else {
                id as int
            }
        }
    }
}

pub fn zstd_dictionary_id(data: &[u8]) -> (r: i32)
    ensures
        r as int == zstd_dictionary_spec(data@),
{
    if data.len() < 6 || data[0] != 0x28 || data[1] != 0xB5 || data[2] != 0x2F || data[3] != 0xFD {
        return -1;
    }
    let descriptor = data[4];
    let start: usize = if descriptor & 0x20 != 0 {
        5
    } else {
        6
    };
    let flag = descriptor & 3;
    let size: usize = if flag == 0 {
        0
    } else if flag == 1 {
        1
    } else if flag == 2 {
        2
    } else {
        4
    };
    if size == 0 || start + size > data.len() {
        return -1;
    }
    let ghost bytes = data@.subrange(start as int, start + size);
    let mut id: u64 = 0;
    let mut k: usize = size;
    assert(bytes.skip(size as int) =~= Seq::<u8>::empty());
    while k > 0
        invariant
            k <= size <= 4,
            start + size <= data@.len(),
            data@.len() <= usize::MAX,
            bytes == data@.subrange(start as int, start + size),
            id as nat == le_value(bytes.skip(k as int)),
            id < pow256_of(size - k),
        decreases k,
    {
        k = k - 1;
        proof {
            assert(bytes.skip(k as int).skip(1) =~= bytes.skip(k + 1));
            assert(bytes.skip(k as int)[0] == data@[start + k]);
        }
        assert(id < 0x1_0000_0000);
        let b = data[start + k] as u64;
        let shifted = 256 * id;
        id = b + shifted;
        proof {
            assert(pow256_of((size - k) as int) == 256 * pow256_of((size - k - 1) as int));
        }
    }
    assert(bytes.skip(0) =~= bytes);
    if id >= 0x8000_0000 {
        (id as i64 - 0x1_0000_0000i64) as i32
    } else {
        id as i32
    }
}

/// 256 to the power `n`, for `n` up to 4.
pub open spec fn pow256_of(n: int) -> int {
    if n <= 0 {
        1
    } else if n == 1 {
        256
    } else if n == 2 {
        0x1_0000
    } else if n == 3 {
        0x100_0000
    } else {
        0x1_0000_0000
    }
}

// --- code patches ------------------------------------------------------------------------------

/// Offsets in increasing order, each once.
pub open spec fn sorted_keys(s: Seq<(u32, u32)>) -> bool {
    forall|i: int, j: int| 0 <= i < j < s.len() ==> s[i].0 < s[j].0
}

/// Whether the list holds exactly the offsets and values of `m`.
pub open spec fn lists_map(s: Seq<(u32, u32)>, m: Map<u32, u32>) -> bool {
    &&& sorted_keys(s)
    &&& forall|i: int| 0 <= i < s.len() ==> m.contains_key(#[trigger] s[i].0) && m[s[i].0] == s[i].1
    &&& forall|k: u32| #[trigger] m.contains_key(k) ==> exists|i: int| 0 <= i < s.len() && s[i].0 == k
}

/// Sets the value at offset `k`, keeping the list sorted.
pub(crate) fn put_entry(v: &mut Vec<(u32, u32)>, k: u32, value: u32, Ghost(m): Ghost<Map<u32, u32>>)
    requires
        lists_map(old(v)@, m),
    ensures
        lists_map(final(v)@, m.insert(k, value)),
{
    let mut j: usize = 0;
    while j < v.len() && v[j].0 < k
        invariant
            j <= v@.len(),
            lists_map(v@, m),
            forall|l: int| 0 <= l < j ==> (#[trigger] v@[l]).0 < k,
        decreases v.len() - j,
    {
        j = j + 1;
    }
    let ghost before = v@;
    if j < v.len() && v[j].0 == k {
        v.set(j, (k, value));
        assert(lists_map(v@, m.insert(k, value))) by {
            assert forall|i: int| 0 <= i < v@.len() implies m.insert(k, value).contains_key(
                #[trigger] v@[i].0,
            ) && m.insert(k, value)[v@[i].0] == v@[i].1 by {
                if i != j {
                    assert(v@[i] == before[i]);
                    assert(before[i].0 != k);
                }
            }
            assert forall|key: u32| #[trigger] m.insert(k, value).contains_key(key) implies exists|i: int|
                0 <= i < v@.len() && v@[i].0 == key by {
                if key == k {
                    assert(v@[j as int].0 == key);
                } else {
                    let i = choose|i: int| 0 <= i < before.len() && before[i].0 == key;
                    assert(v@[i].0 == key);
                }
            }
        }
    } else {
        v.insert(j, (k, value));
        assert(lists_map(v@, m.insert(k, value))) by {
            assert forall|a: int, b: int| 0 <= a < b < v@.len() implies v@[a].0 < v@[b].0 by {
                if a < j && b > j {
                    assert(v@[a] == before[a]);
                    assert(v@[b] == before[b - 1]);
                } else if a < j && b == j {
                    assert(v@[a] == before[a]);
                } else if a == j {
                    assert(v@[b] == before[b - 1]);
                    assert(before[j as int].0 > k);
                    if b - 1 > j {
                        assert(before[j as int].0 < before[b - 1].0);
                    }
                } else if b < j {
                    assert(v@[a] == before[a]);
                    assert(v@[b] == before[b]);
                } else {
                    assert(v@[a] == before[a - 1]);
                    assert(v@[b] == before[b - 1]);
                }
            }
            assert forall|i: int| 0 <= i < v@.len() implies m.insert(k, value).contains_key(
                #[trigger] v@[i].0,
            ) && m.insert(k, value)[v@[i].0] == v@[i].1 by {
                if i < j {
                    assert(v@[i] == before[i]);
                } else if i > j {
                    assert(v@[i] == before[i - 1]);
                    assert(before[i - 1].0 > k) by {
                        assert(before[j as int].0 > k);
                        if i - 1 > j {
                            assert(before[j as int].0 < before[i - 1].0);
                        }
                    }
                }
            }
            assert forall|key: u32| #[trigger] m.insert(k, value).contains_key(key) implies exists|i: int|
                0 <= i < v@.len() && v@[i].0 == key by {
                if key == k {
                    assert(v@[j as int].0 == key);
                } else {
                    let i = choose|i: int| 0 <= i < before.len() && before[i].0 == key;
                    if i < j {
                        assert(v@[i].0 == key);
                    } else {
                        assert(v@[i + 1].0 == key);
                    }
                }
            }
        }
    }
}

/// A big-endian number of `n` bytes at `p`.
pub open spec fn be_bytes(d: Seq<u8>, p: int, n: int) -> nat
    decreases n,
{
    if n <= 0 {
        0
    } else {
        be_bytes(d, p, n - 1) * 256 + d[p + n - 1] as nat
    }
}

/// The records of an IPS32 patch from `p` on, set over `m`: 4 byte address,
/// 2 byte size, data; only 4 byte values are kept, at the address less the
/// NSO header. The end marker `EEOF` or a short record ends the list.
pub open spec fn ips_records(d: Seq<u8>, p: int, m: Map<u32, u32>) -> Map<u32, u32>
    decreases d.len() - p,
{
    if p < 0 || p + 4 > d.len() {
        m
    } else {
        let address = be_bytes(d, p, 4);
        if address == 0x4545_4F46 || p + 6 > d.len() {
            m
        } else {
            let size = be_bytes(d, p + 4, 2);
            let m2 = if size == 4 && p + 10 <= d.len() {
                m.insert(((address - 0x100) % 0x1_0000_0000) as u32, be_bytes(d, p + 6, 4) as u32)
            } else {
                m
            };
            if p + 6 + size > d.len() {
                m2
            } else {
                ips_records(d, p + 6 + size, m2)
            }
        }
    }
}

pub open spec fn is_ips32(d: Seq<u8>) -> bool {
    d.len() >= 5 && d[0] == 0x49 && d[1] == 0x50 && d[2] == 0x53 && d[3] == 0x33 && d[4] == 0x32
}

fn read_be(data: &[u8], p: usize, n: usize) -> (r: u64)
    requires
        n <= 4,
        p + n <= data@.len(),
    ensures
        r as nat == be_bytes(data@, p as int, n as int),
        r < pow256_of(n as int),
{
    let mut r: u64 = 0;
    let mut i: usize = 0;
    let len = data.len();
    while i < n
        invariant
            i <= n <= 4,
            p + n <= data@.len(),
            data@.len() == len,
            r as nat == be_bytes(data@, p as int, i as int),
            r < pow256_of(i as int),
        decreases n - i,
    {
        assert(r < 0x1_0000_0000);
        let b = data[p + i] as u64;
        r = r * 256 + b;
        i = i + 1;
    }
    r
}

/// IPS32 patches of 4 byte values.
pub fn parse_ips(data: &[u8], nso_binary_id: &str) -> (r: Option<Patch>)
    ensures
        match r {
            Some(p) => is_ips32(data@) && p.nso_binary_id@ == nso_binary_id@ && lists_map(
                p.entries@,
                ips_records(data@, 5, Map::empty()),
            ),
            None => !is_ips32(data@),
        },
{
    if data.len() < 5 || data[0] != 0x49 || data[1] != 0x50 || data[2] != 0x53 || data[3] != 0x33
        || data[4] != 0x32 {
        return None;
    }
    let mut entries: Vec<(u32, u32)> = Vec::new();
    let ghost mut m: Map<u32, u32> = Map::empty();
    let mut position: usize = 5;
    let len = data.len();
    loop
        invariant
            5 <= position,
            data@.len() == len,
            ips_records(data@, 5, Map::empty()) == ips_records(data@, position as int, m),
            lists_map(entries@, m),
        ensures
            lists_map(entries@, ips_records(data@, 5, Map::empty())),
        decreases len - position,
    {
        if len < 4 || position > len - 4 {
            break;
        }
        let address = read_be(data, position, 4) as u32;
        if address == 0x4545_4F46 || len - position < 6 {
            break;
        }
        let size = read_be(data, position + 4, 2) as usize;
        if size == 4 && len - position >= 10 {
            let value = read_be(data, position + 6, 4) as u32;
            let offset = address.wrapping_sub(0x100);
            proof {
                assert(offset as int == ((address as int - 0x100) % 0x1_0000_0000)) by (nonlinear_arith)
                    requires
                        offset == address.wrapping_sub(0x100),
                ;
            }
            put_entry(&mut entries, offset, value, Ghost(m));
            proof {
                m = m.insert(offset, value);
            }
        }
        if size > len - position - 6 {
            break;
        }
        position = position + 6 + size;
    }
    let patch = Patch { nso_binary_id: string_of(chars_of(nso_binary_id).as_slice()), entries };
    Some(patch)
}

/// How many hexadecimal digits `s` starts with.
pub open spec fn hex_run(s: Seq<char>) -> nat
    decreases s.len(),
{
    if s.len() > 0 && crate::text::is_hex(s[0]) {
        1 + hex_run(s.skip(1))
    } else {
        0
    }
}

proof fn lemma_hex_run(s: Seq<char>)
    ensures
        hex_run(s) <= s.len(),
        forall|j: int| 0 <= j < hex_run(s) ==> crate::text::is_hex(#[trigger] s[j]),
    decreases s.len(),
{
    if s.len() > 0 && crate::text::is_hex(s[0]) {
        lemma_hex_run(s.skip(1));
        assert forall|j: int| 0 <= j < hex_run(s) implies crate::text::is_hex(#[trigger] s[j]) by {
            if j > 0 {
                assert(s[j] == s.skip(1)[j - 1]);
            }
        }
    }
}

/// `s` without the dashes it starts with.
pub open spec fn without_dashes(s: Seq<char>) -> Seq<char>
    decreases s.len(),
{
    if s.len() > 0 && s[0] == '-' {
        without_dashes(s.skip(1))
    } else {
        s
    }
}

/// What follows the address of a patch line: the text after the character
/// that ends the address, if that character is ASCII.
pub open spec fn after_address(line: Seq<char>) -> Seq<char> {
    let n = hex_run(line);
    if n < line.len() && (line[n as int] as u32) < 128 {
        line.skip((n + 1) as int)
    } else {
        Seq::empty()
    }
}

/// One line of a pchtxt file, given whether patches are enabled: the new
/// state and the patches so far.
pub open spec fn pchtxt_step(state: (bool, Map<u32, u32>), line: Seq<char>) -> (bool, Map<u32, u32>) {
    let (enabled, m) = state;
    if enabled {
        if starts_with(line, "@stop"@) {
            (false, m)
        } else if starts_with(line, "@"@) {
            (true, m)
        } else {
            let a = line.take(hex_run(line) as int);
            let rest = after_address(line);
            let v = rest.take(hex_run(rest) as int);
            match (crate::text::parse_hex_spec(a), crate::text::parse_hex_spec(v)) {
                (Some(x), Some(y)) => (true, m.insert(x as u32, y as u32)),
                _ => (true, m),
            }
        }
    } else if starts_with(line, "@enabled"@) {
        (true, m)
    } else {
        (false, m)
    }
}

pub open spec fn pchtxt_lines(state: (bool, Map<u32, u32>), ls: Seq<Seq<char>>) -> (bool, Map<u32, u32>)
    decreases ls.len(),
{
    if ls.len() == 0 {
        state
    } else {
        pchtxt_step(pchtxt_lines(state, ls.drop_last()), ls.last())
    }
}

/// What a pchtxt file holds: its NSO build id (first line, after `@nsobid`)
/// and the patches of its enabled blocks; `None` without the `@nsobid` line.
pub open spec fn pchtxt_spec(text: Seq<char>) -> Option<(Seq<char>, Map<u32, u32>)> {
    let ls = crate::text::lines(text);
    if ls.len() == 0 || !starts_with(ls[0], "@nsobid"@) {
        None
    } else {
        Some(
            (
                without_dashes(crate::text::trim(ls[0].skip(7))),
                pchtxt_lines((false, Map::empty()), ls.skip(1)).1,
            ),
        )
    }
}

fn hex_run_at(s: &[char], from: usize) -> (k: usize)
    requires
        from <= s@.len(),
    ensures
        k == hex_run(s@.skip(from as int)),
        from + k <= s@.len(),
{
    let mut k: usize = 0;
    proof {
        assert(s@.skip(from as int).skip(0) =~= s@.skip(from as int));
        lemma_hex_run(s@.skip(from as int));
    }
    while from + k < s.len() && crate::text::is_hex_char(s[from + k])
        invariant
            from + k <= s.len(),
            hex_run(s@.skip(from as int)) == k + hex_run(s@.skip(from + k)),
        decreases s.len() - from - k,
    {
        assert(s@.skip(from + k).skip(1) =~= s@.skip(from + k + 1));
        k = k + 1;
    }
    k
}

fn pchtxt_line(line: &[char], enabled: bool, entries: &mut Vec<(u32, u32)>, Ghost(m): Ghost<Map<u32, u32>>) -> (r: (bool, Ghost<Map<u32, u32>>))
    requires
        lists_map(old(entries)@, m),
    ensures
        (r.0, r.1@) == pchtxt_step((enabled, m), line@),
        lists_map(final(entries)@, r.1@),
{
    proof {
        reveal_strlit("@stop");
        reveal_strlit("@");
        reveal_strlit("@enabled");
    }
    if enabled {
        if crate::text::has_prefix_lit(line, "@stop") {
            return (false, Ghost(m));
        }
        if crate::text::has_prefix_lit(line, "@") {
            return (true, Ghost(m));
        }
        let n = hex_run_at(line, 0);
        assert(line@.skip(0) =~= line@);
        let a = crate::text::slice_of(line, 0, n);
        let rest = if n < line.len() && (line[n] as u32) < 128 {
            crate::text::slice_of(line, n + 1, line.len())
        } else {
            Vec::new()
        };
        assert(rest@ =~= after_address(line@));
        let vn = hex_run_at(rest.as_slice(), 0);
        assert(rest@.skip(0) =~= rest@);
        let v = crate::text::slice_of(rest.as_slice(), 0, vn);
        match (crate::text::parse_hex_u32(a.as_slice()), crate::text::parse_hex_u32(v.as_slice())) {
            (Some(x), Some(y)) => {
                put_entry(entries, x, y, Ghost(m));
                return (true, Ghost(m.insert(x, y)));
            },
            _ => {
                return (true, Ghost(m));
            },
        }
    }
    if crate::text::has_prefix_lit(line, "@enabled") {
        (true, Ghost(m))
    } else {
        (false, Ghost(m))
    }
}

/// The patch a `.pchtxt` text describes.
pub fn parse_pchtxt(text: &str) -> (r: Option<Patch>)
    ensures
        match r {
            Some(p) => pchtxt_spec(text@) matches Some((id, m)) && p.nso_binary_id@ == id && lists_map(
                p.entries@,
                m,
            ),
            None => pchtxt_spec(text@) is None,
        },
{
    let ls = crate::text::lines_of(chars_of(text).as_slice());
    let ghost lv = ls@.map_values(|l: Vec<char>| l@);
    proof {
        reveal_strlit("@nsobid");
    }
    if ls.len() == 0 {
        return None;
    }
    assert(lv[0] == ls@[0]@);
    if !crate::text::has_prefix_lit(ls[0].as_slice(), "@nsobid") {
        return None;
    }
    let first = crate::text::slice_of(ls[0].as_slice(), 7, ls[0].len());
    assert(first@ =~= lv[0].skip(7));
    let trimmed = crate::text::trim_chars(first.as_slice());
    let mut d: usize = 0;
    assert(trimmed@.skip(0) =~= trimmed@);
    while d < trimmed.len() && trimmed[d] == '-'
        invariant
            d <= trimmed@.len(),
            without_dashes(trimmed@) == without_dashes(trimmed@.skip(d as int)),
        decreases trimmed.len() - d,
    {
        assert(trimmed@.skip(d as int).skip(1) =~= trimmed@.skip(d + 1));
        d = d + 1;
    }
    let id = crate::text::slice_of(trimmed.as_slice(), d, trimmed.len());
    assert(id@ =~= without_dashes(trimmed@));
    let mut entries: Vec<(u32, u32)> = Vec::new();
    let mut enabled = false;
    let ghost mut m: Map<u32, u32> = Map::empty();
    let ghost rest = lv.skip(1);
    let mut i: usize = 1;
    while i < ls.len()
        invariant
            1 <= i <= ls@.len(),
            lv == ls@.map_values(|l: Vec<char>| l@),
            rest == lv.skip(1),
            (enabled, m) == pchtxt_lines((false, Map::empty()), rest.take(i - 1)),
            lists_map(entries@, m),
        decreases ls.len() - i,
    {
        let (e, Ghost(m2)) = pchtxt_line(ls[i].as_slice(), enabled, &mut entries, Ghost(m));
        proof {
            assert(rest.take(i as int).drop_last() =~= rest.take(i - 1));
            assert(rest.take(i as int).last() == ls@[i as int]@);
            m = m2;
        }
        enabled = e;
        i = i + 1;
    }
    assert(rest.take(ls.len() - 1) =~= rest);
    Some(Patch { nso_binary_id: string_of(id.as_slice()), entries })
}

proof fn lemma_exts_differ(a: Seq<char>, b: Seq<char>, i: int)
    requires
        0 <= i < a.len(),
        i < b.len(),
        a[i] != b[i],
    ensures
        a != b,
{
}

/// Files that are neither the save data list nor an RSDB table.
pub open spec fn ordinary_file(c: Seq<char>) -> bool {
    c != "GameData/GameDataList.Product.byml"@ && c != "RSDB/Tag.Product.rstbl.byml"@ && row_key_spec(c) is None
}

proof fn lemma_builder_pack(c: Seq<char>)
    requires
        ordinary_file(c),
        extension_spec(c) == ".pack"@,
    ensures
        builder_spec(c) == Some(BuilderKindView::Pack),
{
    reveal_strlit(".pack");
    reveal_strlit(".bntx");
    reveal_strlit(".msbt");
    reveal_strlit(".bfarc");
    reveal_strlit(".bkres");
    reveal_strlit(".blarc");
    reveal_strlit(".genvb");
    reveal_strlit(".sarc");
    reveal_strlit(".ta");
    reveal_strlit(".bgyml");
    reveal_strlit(".byml");
    assert(".pack"@[1] == 'p' && ".bntx"@[1] == 'b');
    lemma_exts_differ(".pack"@, ".bntx"@, 1);
    assert(".pack"@[1] == 'p' && ".msbt"@[1] == 'm');
    lemma_exts_differ(".pack"@, ".msbt"@, 1);
    assert(".pack"@.len() == 5 && ".bfarc"@.len() == 6);
    assert(".pack"@.len() == 5 && ".bkres"@.len() == 6);
    assert(".pack"@.len() == 5 && ".blarc"@.len() == 6);
    assert(".pack"@.len() == 5 && ".genvb"@.len() == 6);
    assert(".pack"@[1] == 'p' && ".sarc"@[1] == 's');
    lemma_exts_differ(".pack"@, ".sarc"@, 1);
    assert(".pack"@.len() == 5 && ".ta"@.len() == 3);
    assert(".pack"@.len() == 5 && ".bgyml"@.len() == 6);
    assert(".pack"@[1] == 'p' && ".byml"@[1] == 'b');
    lemma_exts_differ(".pack"@, ".byml"@, 1);
    assert(GAMEDATA_CANONICAL@ == "GameData/GameDataList.Product.byml"@);
    assert(TAG_TABLE@ == "RSDB/Tag.Product.rstbl.byml"@);
}

proof fn lemma_builder_msbt(c: Seq<char>)
    requires
        ordinary_file(c),
        extension_spec(c) == ".msbt"@,
    ensures
        builder_spec(c) == Some(BuilderKindView::Msbt),
{
    reveal_strlit(".pack");
    reveal_strlit(".bntx");
    reveal_strlit(".msbt");
    reveal_strlit(".bfarc");
    reveal_strlit(".bkres");
    reveal_strlit(".blarc");
    reveal_strlit(".genvb");
    reveal_strlit(".sarc");
    reveal_strlit(".ta");
    reveal_strlit(".bgyml");
    reveal_strlit(".byml");
    assert(".msbt"@[1] == 'm' && ".pack"@[1] == 'p');
    lemma_exts_differ(".msbt"@, ".pack"@, 1);
    assert(".msbt"@[1] == 'm' && ".bntx"@[1] == 'b');
    lemma_exts_differ(".msbt"@, ".bntx"@, 1);
    assert(".msbt"@.len() == 5 && ".bfarc"@.len() == 6);
    assert(".msbt"@.len() == 5 && ".bkres"@.len() == 6);
    assert(".msbt"@.len() == 5 && ".blarc"@.len() == 6);
    assert(".msbt"@.len() == 5 && ".genvb"@.len() == 6);
    assert(".msbt"@[1] == 'm' && ".sarc"@[1] == 's');
    lemma_exts_differ(".msbt"@, ".sarc"@, 1);
    assert(".msbt"@.len() == 5 && ".ta"@.len() == 3);
    assert(".msbt"@.len() == 5 && ".bgyml"@.len() == 6);
    assert(".msbt"@[1] == 'm' && ".byml"@[1] == 'b');
    lemma_exts_differ(".msbt"@, ".byml"@, 1);
    assert(GAMEDATA_CANONICAL@ == "GameData/GameDataList.Product.byml"@);
    assert(TAG_TABLE@ == "RSDB/Tag.Product.rstbl.byml"@);
}

proof fn lemma_builder_bfarc(c: Seq<char>)
    requires
        ordinary_file(c),
        extension_spec(c) == ".bfarc"@,
    ensures
        builder_spec(c) == Some(BuilderKindView::Sarc),
{
    reveal_strlit(".pack");
    reveal_strlit(".bntx");
    reveal_strlit(".msbt");
    reveal_strlit(".bfarc");
    reveal_strlit(".bkres");
    reveal_strlit(".blarc");
    reveal_strlit(".genvb");
    reveal_strlit(".sarc");
    reveal_strlit(".ta");
    reveal_strlit(".bgyml");
    reveal_strlit(".byml");
    assert(".bfarc"@.len() == 6 && ".pack"@.len() == 5);
    assert(".bfarc"@.len() == 6 && ".bntx"@.len() == 5);
    assert(".bfarc"@.len() == 6 && ".msbt"@.len() == 5);
    assert(".bfarc"@[2] == 'f' && ".bkres"@[2] == 'k');
    lemma_exts_differ(".bfarc"@, ".bkres"@, 2);
    assert(".bfarc"@[2] == 'f' && ".blarc"@[2] == 'l');
    lemma_exts_differ(".bfarc"@, ".blarc"@, 2);
    assert(".bfarc"@[1] == 'b' && ".genvb"@[1] == 'g');
    lemma_exts_differ(".bfarc"@, ".genvb"@, 1);
    assert(".bfarc"@.len() == 6 && ".sarc"@.len() == 5);
    assert(".bfarc"@.len() == 6 && ".ta"@.len() == 3);
    assert(".bfarc"@[2] == 'f' && ".bgyml"@[2] == 'g');
    lemma_exts_differ(".bfarc"@, ".bgyml"@, 2);
    assert(".bfarc"@.len() == 6 && ".byml"@.len() == 5);
    assert(GAMEDATA_CANONICAL@ == "GameData/GameDataList.Product.byml"@);
    assert(TAG_TABLE@ == "RSDB/Tag.Product.rstbl.byml"@);
}

proof fn lemma_builder_bkres(c: Seq<char>)
    requires
        ordinary_file(c),
        extension_spec(c) == ".bkres"@,
    ensures
        builder_spec(c) == Some(BuilderKindView::Sarc),
{
    reveal_strlit(".pack");
    reveal_strlit(".bntx");
    reveal_strlit(".msbt");
    reveal_strlit(".bfarc");
    reveal_strlit(".bkres");
    reveal_strlit(".blarc");
    reveal_strlit(".genvb");
    reveal_strlit(".sarc");
    reveal_strlit(".ta");
    reveal_strlit(".bgyml");
    reveal_strlit(".byml");
    assert(".bkres"@.len() == 6 && ".pack"@.len() == 5);
    assert(".bkres"@.len() == 6 && ".bntx"@.len() == 5);
    assert(".bkres"@.len() == 6 && ".msbt"@.len() == 5);
    assert(".bkres"@[2] == 'k' && ".bfarc"@[2] == 'f');
    lemma_exts_differ(".bkres"@, ".bfarc"@, 2);
    assert(".bkres"@[2] == 'k' && ".blarc"@[2] == 'l');
    lemma_exts_differ(".bkres"@, ".blarc"@, 2);
    assert(".bkres"@[1] == 'b' && ".genvb"@[1] == 'g');
    lemma_exts_differ(".bkres"@, ".genvb"@, 1);
    assert(".bkres"@.len() == 6 && ".sarc"@.len() == 5);
    assert(".bkres"@.len() == 6 && ".ta"@.len() == 3);
    assert(".bkres"@[2] == 'k' && ".bgyml"@[2] == 'g');
    lemma_exts_differ(".bkres"@, ".bgyml"@, 2);
    assert(".bkres"@.len() == 6 && ".byml"@.len() == 5);
    assert(GAMEDATA_CANONICAL@ == "GameData/GameDataList.Product.byml"@);
    assert(TAG_TABLE@ == "RSDB/Tag.Product.rstbl.byml"@);
}

proof fn lemma_builder_blarc(c: Seq<char>)
    requires
        ordinary_file(c),
        extension_spec(c) == ".blarc"@,
    ensures
        builder_spec(c) == Some(BuilderKindView::Sarc),
{
    reveal_strlit(".pack");
    reveal_strlit(".bntx");
    reveal_strlit(".msbt");
    reveal_strlit(".bfarc");
    reveal_strlit(".bkres");
    reveal_strlit(".blarc");
    reveal_strlit(".genvb");
    reveal_strlit(".sarc");
    reveal_strlit(".ta");
    reveal_strlit(".bgyml");
    reveal_strlit(".byml");
    assert(".blarc"@.len() == 6 && ".pack"@.len() == 5);
    assert(".blarc"@.len() == 6 && ".bntx"@.len() == 5);
    assert(".blarc"@.len() == 6 && ".msbt"@.len() == 5);
    assert(".blarc"@[2] == 'l' && ".bfarc"@[2] == 'f');
    lemma_exts_differ(".blarc"@, ".bfarc"@, 2);
    assert(".blarc"@[2] == 'l' && ".bkres"@[2] == 'k');
    lemma_exts_differ(".blarc"@, ".bkres"@, 2);
    assert(".blarc"@[1] == 'b' && ".genvb"@[1] == 'g');
    lemma_exts_differ(".blarc"@, ".genvb"@, 1);
    assert(".blarc"@.len() == 6 && ".sarc"@.len() == 5);
    assert(".blarc"@.len() == 6 && ".ta"@.len() == 3);
    assert(".blarc"@[2] == 'l' && ".bgyml"@[2] == 'g');
    lemma_exts_differ(".blarc"@, ".bgyml"@, 2);
    assert(".blarc"@.len() == 6 && ".byml"@.len() == 5);
    assert(GAMEDATA_CANONICAL@ == "GameData/GameDataList.Product.byml"@);
    assert(TAG_TABLE@ == "RSDB/Tag.Product.rstbl.byml"@);
}

proof fn lemma_builder_genvb(c: Seq<char>)
    requires
        ordinary_file(c),
        extension_spec(c) == ".genvb"@,
    ensures
        builder_spec(c) == Some(BuilderKindView::Sarc),
{
    reveal_strlit(".pack");
    reveal_strlit(".bntx");
    reveal_strlit(".msbt");
    reveal_strlit(".bfarc");
    reveal_strlit(".bkres");
    reveal_strlit(".blarc");
    reveal_strlit(".genvb");
    reveal_strlit(".sarc");
    reveal_strlit(".ta");
    reveal_strlit(".bgyml");
    reveal_strlit(".byml");
    assert(".genvb"@.len() == 6 && ".pack"@.len() == 5);
    assert(".genvb"@.len() == 6 && ".bntx"@.len() == 5);
    assert(".genvb"@.len() == 6 && ".msbt"@.len() == 5);
    assert(".genvb"@[1] == 'g' && ".bfarc"@[1] == 'b');
    lemma_exts_differ(".genvb"@, ".bfarc"@, 1);
    assert(".genvb"@[1] == 'g' && ".bkres"@[1] == 'b');
    lemma_exts_differ(".genvb"@, ".bkres"@, 1);
    assert(".genvb"@[1] == 'g' && ".blarc"@[1] == 'b');
    lemma_exts_differ(".genvb"@, ".blarc"@, 1);
    assert(".genvb"@.len() == 6 && ".sarc"@.len() == 5);
    assert(".genvb"@.len() == 6 && ".ta"@.len() == 3);
    assert(".genvb"@[1] == 'g' && ".bgyml"@[1] == 'b');
    lemma_exts_differ(".genvb"@, ".bgyml"@, 1);
    assert(".genvb"@.len() == 6 && ".byml"@.len() == 5);
    assert(GAMEDATA_CANONICAL@ == "GameData/GameDataList.Product.byml"@);
    assert(TAG_TABLE@ == "RSDB/Tag.Product.rstbl.byml"@);
}

proof fn lemma_builder_sarc(c: Seq<char>)
    requires
        ordinary_file(c),
        extension_spec(c) == ".sarc"@,
    ensures
        builder_spec(c) == Some(BuilderKindView::Sarc),
{
    reveal_strlit(".pack");
    reveal_strlit(".bntx");
    reveal_strlit(".msbt");
    reveal_strlit(".bfarc");
    reveal_strlit(".bkres");
    reveal_strlit(".blarc");
    reveal_strlit(".genvb");
    reveal_strlit(".sarc");
    reveal_strlit(".ta");
    reveal_strlit(".bgyml");
    reveal_strlit(".byml");
    assert(".sarc"@[1] == 's' && ".pack"@[1] == 'p');
    lemma_exts_differ(".sarc"@, ".pack"@, 1);
    assert(".sarc"@[1] == 's' && ".bntx"@[1] == 'b');
    lemma_exts_differ(".sarc"@, ".bntx"@, 1);
    assert(".sarc"@[1] == 's' && ".msbt"@[1] == 'm');
    lemma_exts_differ(".sarc"@, ".msbt"@, 1);
    assert(".sarc"@.len() == 5 && ".bfarc"@.len() == 6);
    assert(".sarc"@.len() == 5 && ".bkres"@.len() == 6);
    assert(".sarc"@.len() == 5 && ".blarc"@.len() == 6);
    assert(".sarc"@.len() == 5 && ".genvb"@.len() == 6);
    assert(".sarc"@.len() == 5 && ".ta"@.len() == 3);
    assert(".sarc"@.len() == 5 && ".bgyml"@.len() == 6);
    assert(".sarc"@[1] == 's' && ".byml"@[1] == 'b');
    lemma_exts_differ(".sarc"@, ".byml"@, 1);
    assert(GAMEDATA_CANONICAL@ == "GameData/GameDataList.Product.byml"@);
    assert(TAG_TABLE@ == "RSDB/Tag.Product.rstbl.byml"@);
}

proof fn lemma_builder_ta(c: Seq<char>)
    requires
        ordinary_file(c),
        extension_spec(c) == ".ta"@,
    ensures
        builder_spec(c) == Some(BuilderKindView::Sarc),
{
    reveal_strlit(".pack");
    reveal_strlit(".bntx");
    reveal_strlit(".msbt");
    reveal_strlit(".bfarc");
    reveal_strlit(".bkres");
    reveal_strlit(".blarc");
    reveal_strlit(".genvb");
    reveal_strlit(".sarc");
    reveal_strlit(".ta");
    reveal_strlit(".bgyml");
    reveal_strlit(".byml");
    assert(".ta"@.len() == 3 && ".pack"@.len() == 5);
    assert(".ta"@.len() == 3 && ".bntx"@.len() == 5);
    assert(".ta"@.len() == 3 && ".msbt"@.len() == 5);
    assert(".ta"@.len() == 3 && ".bfarc"@.len() == 6);
    assert(".ta"@.len() == 3 && ".bkres"@.len() == 6);
    assert(".ta"@.len() == 3 && ".blarc"@.len() == 6);
    assert(".ta"@.len() == 3 && ".genvb"@.len() == 6);
    assert(".ta"@.len() == 3 && ".sarc"@.len() == 5);
    assert(".ta"@.len() == 3 && ".bgyml"@.len() == 6);
    assert(".ta"@.len() == 3 && ".byml"@.len() == 5);
    assert(GAMEDATA_CANONICAL@ == "GameData/GameDataList.Product.byml"@);
    assert(TAG_TABLE@ == "RSDB/Tag.Product.rstbl.byml"@);
}

proof fn lemma_builder_bgyml(c: Seq<char>)
    requires
        ordinary_file(c),
        extension_spec(c) == ".bgyml"@,
    ensures
        builder_spec(c) == Some(BuilderKindView::Byml),
{
    reveal_strlit(".pack");
    reveal_strlit(".bntx");
    reveal_strlit(".msbt");
    reveal_strlit(".bfarc");
    reveal_strlit(".bkres");
    reveal_strlit(".blarc");
    reveal_strlit(".genvb");
    reveal_strlit(".sarc");
    reveal_strlit(".ta");
    reveal_strlit(".bgyml");
    reveal_strlit(".byml");
    assert(".bgyml"@.len() == 6 && ".pack"@.len() == 5);
    assert(".bgyml"@.len() == 6 && ".bntx"@.len() == 5);
    assert(".bgyml"@.len() == 6 && ".msbt"@.len() == 5);
    assert(".bgyml"@[2] == 'g' && ".bfarc"@[2] == 'f');
    lemma_exts_differ(".bgyml"@, ".bfarc"@, 2);
    assert(".bgyml"@[2] == 'g' && ".bkres"@[2] == 'k');
    lemma_exts_differ(".bgyml"@, ".bkres"@, 2);
    assert(".bgyml"@[2] == 'g' && ".blarc"@[2] == 'l');
    lemma_exts_differ(".bgyml"@, ".blarc"@, 2);
    assert(".bgyml"@[1] == 'b' && ".genvb"@[1] == 'g');
    lemma_exts_differ(".bgyml"@, ".genvb"@, 1);
    assert(".bgyml"@.len() == 6 && ".sarc"@.len() == 5);
    assert(".bgyml"@.len() == 6 && ".ta"@.len() == 3);
    assert(".bgyml"@.len() == 6 && ".byml"@.len() == 5);
    assert(GAMEDATA_CANONICAL@ == "GameData/GameDataList.Product.byml"@);
    assert(TAG_TABLE@ == "RSDB/Tag.Product.rstbl.byml"@);
}

proof fn lemma_builder_byml(c: Seq<char>)
    requires
        ordinary_file(c),
        extension_spec(c) == ".byml"@,
    ensures
        builder_spec(c) == if !starts_with(c, "RSDB"@) && !starts_with(c, "GameData"@) {
            Some(BuilderKindView::Byml)
        } else {
            None
        },
{
    reveal_strlit(".pack");
    reveal_strlit(".bntx");
    reveal_strlit(".msbt");
    reveal_strlit(".bfarc");
    reveal_strlit(".bkres");
    reveal_strlit(".blarc");
    reveal_strlit(".genvb");
    reveal_strlit(".sarc");
    reveal_strlit(".ta");
    reveal_strlit(".bgyml");
    reveal_strlit(".byml");
    assert(".byml"@[1] == 'b' && ".pack"@[1] == 'p');
    lemma_exts_differ(".byml"@, ".pack"@, 1);
    assert(".byml"@[2] == 'y' && ".bntx"@[2] == 'n');
    lemma_exts_differ(".byml"@, ".bntx"@, 2);
    assert(".byml"@[1] == 'b' && ".msbt"@[1] == 'm');
    lemma_exts_differ(".byml"@, ".msbt"@, 1);
    assert(".byml"@.len() == 5 && ".bfarc"@.len() == 6);
    assert(".byml"@.len() == 5 && ".bkres"@.len() == 6);
    assert(".byml"@.len() == 5 && ".blarc"@.len() == 6);
    assert(".byml"@.len() == 5 && ".genvb"@.len() == 6);
    assert(".byml"@[1] == 'b' && ".sarc"@[1] == 's');
    lemma_exts_differ(".byml"@, ".sarc"@, 1);
    assert(".byml"@.len() == 5 && ".ta"@.len() == 3);
    assert(".byml"@.len() == 5 && ".bgyml"@.len() == 6);
    assert(GAMEDATA_CANONICAL@ == "GameData/GameDataList.Product.byml"@);
    assert(TAG_TABLE@ == "RSDB/Tag.Product.rstbl.byml"@);
}

proof fn lemma_builder_bntx(c: Seq<char>)
    requires
        extension_spec(c) == ".bntx"@,
    ensures
        builder_spec(c) == if ends_with(c, "__Combined.bntx"@) {
            Some(BuilderKindView::Bntx)
        } else if ordinary_file(c) {
            None
        } else {
            builder_spec(c)
        },
{
    reveal_strlit(".pack");
    reveal_strlit(".bntx");
    reveal_strlit(".msbt");
    reveal_strlit(".bfarc");
    reveal_strlit(".bkres");
    reveal_strlit(".blarc");
    reveal_strlit(".genvb");
    reveal_strlit(".sarc");
    reveal_strlit(".ta");
    reveal_strlit(".bgyml");
    reveal_strlit(".byml");
    assert(".bntx"@[1] == 'b' && ".pack"@[1] == 'p');
    lemma_exts_differ(".bntx"@, ".pack"@, 1);
    assert(".bntx"@[1] == 'b' && ".msbt"@[1] == 'm');
    lemma_exts_differ(".bntx"@, ".msbt"@, 1);
    assert(".bntx"@.len() == 5 && ".bfarc"@.len() == 6);
    assert(".bntx"@.len() == 5 && ".bkres"@.len() == 6);
    assert(".bntx"@.len() == 5 && ".blarc"@.len() == 6);
    assert(".bntx"@.len() == 5 && ".genvb"@.len() == 6);
    assert(".bntx"@[1] == 'b' && ".sarc"@[1] == 's');
    lemma_exts_differ(".bntx"@, ".sarc"@, 1);
    assert(".bntx"@.len() == 5 && ".ta"@.len() == 3);
    assert(".bntx"@.len() == 5 && ".bgyml"@.len() == 6);
    assert(".bntx"@[2] == 'n' && ".byml"@[2] == 'y');
    lemma_exts_differ(".bntx"@, ".byml"@, 2);
    assert(GAMEDATA_CANONICAL@ == "GameData/GameDataList.Product.byml"@);
    assert(TAG_TABLE@ == "RSDB/Tag.Product.rstbl.byml"@);
}

proof fn lemma_builder_special(c: Seq<char>)
    requires
        extension_spec(c) == ".byml"@,
    ensures
        c == "GameData/GameDataList.Product.byml"@ ==> builder_spec(c) == Some(BuilderKindView::GameData),
        c == "RSDB/Tag.Product.rstbl.byml"@ ==> builder_spec(c) == Some(BuilderKindView::RsdbTag),
        c != "GameData/GameDataList.Product.byml"@ && c != "RSDB/Tag.Product.rstbl.byml"@ && row_key_spec(c)
            is Some ==> builder_spec(c) == Some(BuilderKindView::RsdbRow(row_key_spec(c)->0)),
{
    reveal_strlit(".pack");
    reveal_strlit(".bntx");
    reveal_strlit(".msbt");
    reveal_strlit(".bfarc");
    reveal_strlit(".bkres");
    reveal_strlit(".blarc");
    reveal_strlit(".genvb");
    reveal_strlit(".sarc");
    reveal_strlit(".ta");
    reveal_strlit(".bgyml");
    reveal_strlit(".byml");
    assert(".byml"@[1] == 'b' && ".pack"@[1] == 'p');
    lemma_exts_differ(".byml"@, ".pack"@, 1);
    assert(".byml"@[2] == 'y' && ".bntx"@[2] == 'n');
    lemma_exts_differ(".byml"@, ".bntx"@, 2);
    reveal_strlit("GameData/GameDataList.Product.byml");
    reveal_strlit("RSDB/Tag.Product.rstbl.byml");
    assert(GAMEDATA_CANONICAL@ == "GameData/GameDataList.Product.byml"@);
    assert(TAG_TABLE@ == "RSDB/Tag.Product.rstbl.byml"@);
}

/// The builder of a mod's file: packs as packs; combined textures
/// (`__Combined.bntx`) whole; the save data list and the RSDB tables (BYML
/// files) each their own; otherwise .msbt message files text by text;
/// .bfarc, .bkres, .blarc, .genvb, .sarc and .ta archives as archives;
/// .bgyml files, and .byml files outside `RSDB` and `GameData`, as BYML;
/// nothing else has one.
pub proof fn lemma_builders(c: Seq<char>)
    ensures
        ordinary_file(c) && extension_spec(c) == ".pack"@ ==> builder_spec(c) == Some(BuilderKindView::Pack),
        ordinary_file(c) && extension_spec(c) == ".msbt"@ ==> builder_spec(c) == Some(BuilderKindView::Msbt),
        ordinary_file(c) && extension_spec(c) == ".bfarc"@ ==> builder_spec(c) == Some(BuilderKindView::Sarc),
        ordinary_file(c) && extension_spec(c) == ".bkres"@ ==> builder_spec(c) == Some(BuilderKindView::Sarc),
        ordinary_file(c) && extension_spec(c) == ".blarc"@ ==> builder_spec(c) == Some(BuilderKindView::Sarc),
        ordinary_file(c) && extension_spec(c) == ".genvb"@ ==> builder_spec(c) == Some(BuilderKindView::Sarc),
        ordinary_file(c) && extension_spec(c) == ".sarc"@ ==> builder_spec(c) == Some(BuilderKindView::Sarc),
        ordinary_file(c) && extension_spec(c) == ".ta"@ ==> builder_spec(c) == Some(BuilderKindView::Sarc),
        ordinary_file(c) && extension_spec(c) == ".bgyml"@ ==> builder_spec(c) == Some(BuilderKindView::Byml),
        ordinary_file(c) && extension_spec(c) == ".byml"@ && !starts_with(c, "RSDB"@) && !starts_with(c, "GameData"@)
            ==> builder_spec(c) == Some(BuilderKindView::Byml),
        ordinary_file(c) && extension_spec(c) == ".byml"@ && (starts_with(c, "RSDB"@) || starts_with(c, "GameData"@))
            ==> builder_spec(c) is None,
        extension_spec(c) == ".bntx"@ && ends_with(c, "__Combined.bntx"@) ==> builder_spec(c) == Some(
            BuilderKindView::Bntx,
        ),
        extension_spec(c) == ".bntx"@ && !ends_with(c, "__Combined.bntx"@) && ordinary_file(c) ==> builder_spec(c) is None,
        extension_spec(c) == ".byml"@ && c == "GameData/GameDataList.Product.byml"@ ==> builder_spec(c) == Some(
            BuilderKindView::GameData,
        ),
        extension_spec(c) == ".byml"@ && c == "RSDB/Tag.Product.rstbl.byml"@ ==> builder_spec(c) == Some(
            BuilderKindView::RsdbTag,
        ),
        extension_spec(c) == ".byml"@ && c != "GameData/GameDataList.Product.byml"@ && c != "RSDB/Tag.Product.rstbl.byml"@
            && row_key_spec(c) is Some ==> builder_spec(c) == Some(BuilderKindView::RsdbRow(row_key_spec(c)->0)),
        ordinary_file(c) && extension_spec(c) != ".pack"@ && extension_spec(c) != ".bntx"@ && extension_spec(c) != ".msbt"@ && extension_spec(c) != ".bfarc"@ && extension_spec(c) != ".bkres"@ && extension_spec(c) != ".blarc"@ && extension_spec(c) != ".genvb"@ && extension_spec(c) != ".sarc"@ && extension_spec(c) != ".ta"@ && extension_spec(c) != ".bgyml"@ && extension_spec(c) != ".byml"@ ==> builder_spec(c) is None,
{
    if ordinary_file(c) && extension_spec(c) == ".pack"@ {
        lemma_builder_pack(c);
    }
    if ordinary_file(c) && extension_spec(c) == ".msbt"@ {
        lemma_builder_msbt(c);
    }
    if ordinary_file(c) && extension_spec(c) == ".bfarc"@ {
        lemma_builder_bfarc(c);
    }
    if ordinary_file(c) && extension_spec(c) == ".bkres"@ {
        lemma_builder_bkres(c);
    }
    if ordinary_file(c) && extension_spec(c) == ".blarc"@ {
        lemma_builder_blarc(c);
    }
    if ordinary_file(c) && extension_spec(c) == ".genvb"@ {
        lemma_builder_genvb(c);
    }
    if ordinary_file(c) && extension_spec(c) == ".sarc"@ {
        lemma_builder_sarc(c);
    }
    if ordinary_file(c) && extension_spec(c) == ".ta"@ {
        lemma_builder_ta(c);
    }
    if ordinary_file(c) && extension_spec(c) == ".bgyml"@ {
        lemma_builder_bgyml(c);
    }
    if ordinary_file(c) && extension_spec(c) == ".byml"@ {
        lemma_builder_byml(c);
    }
    if extension_spec(c) == ".bntx"@ {
        lemma_builder_bntx(c);
    }
    if extension_spec(c) == ".byml"@ {
        lemma_builder_special(c);
    }
    if ordinary_file(c) && extension_spec(c) != ".pack"@ && extension_spec(c) != ".bntx"@ && extension_spec(c) != ".msbt"@ && extension_spec(c) != ".bfarc"@ && extension_spec(c) != ".bkres"@ && extension_spec(c) != ".blarc"@ && extension_spec(c) != ".genvb"@ && extension_spec(c) != ".sarc"@ && extension_spec(c) != ".ta"@ && extension_spec(c) != ".bgyml"@ && extension_spec(c) != ".byml"@ {
    assert(GAMEDATA_CANONICAL@ == "GameData/GameDataList.Product.byml"@);
    assert(TAG_TABLE@ == "RSDB/Tag.Product.rstbl.byml"@);
    }
}

} // verus!
