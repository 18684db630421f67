//! What the game's own files say about it.

use vstd::prelude::*;
use vstd::utf8::{decode_utf8, encode_utf8, is_char_boundary, valid_utf8};

use crate::text::{chars_of, last_index_of_byte, starts_with, parse_i32, parse_i32_spec, string_of, trim, trim_chars};
use crate::tkcl::wire::{lossy_string, text_of};

verus! {

/// The tables of file versions the game keeps.
#[derive(Debug, Clone, Copy, PartialEq, Eq, Structural)]
pub enum VersionTable {
    Sequence,
    Effect,
    Logic,
    Ai,
}

/// `core::str::from_utf8`: the text of `bytes` when they are valid UTF-8,
/// `None` otherwise.
#[verifier::external_body]
fn utf8_text(bytes: &[u8]) -> (r: Option<String>)
    ensures
        r is Some <==> valid_utf8(bytes@),
        r matches Some(s) ==> s@ == decode_utf8(bytes@),
{
    match core::str::from_utf8(bytes) {
        Ok(text) => Some(text.to_string()),
        Err(_) => None,
    }
}

/// What `RegionLangMask.txt` says: its last line is the executable's build
/// id, and the three bytes before the line break that ends the line before
/// it are the game version.
pub open spec fn region_lang_mask(data: Seq<u8>) -> Option<(i32, Seq<char>)> {
    let newline = crate::text::last_index_of_u8(data, 10);
    if newline < 4 {
        None
    } else {
        let version_bytes = data.subrange(newline - 4, newline - 1);
        if !valid_utf8(version_bytes) {
            None
        } else {
            match parse_i32_spec(trim(decode_utf8(version_bytes))) {
                Some(version) => Some(
                    (version as i32, trim(text_of(data.subrange(newline + 1, data.len() as int)))),
                ),
                None => None,
            }
        }
    }
}

/// "…\r\nNormal\r\n121\r\n<nso id>" → (121, nso id).
pub fn parse_region_lang_mask(data: &[u8]) -> (r: Option<(i32, String)>)
    ensures
        match r {
            Some((version, id)) => region_lang_mask(data@) == Some((version, id@)),
            None => region_lang_mask(data@) is None,
        },
{
    let newline = match last_index_of_byte(data, 10) {
        Some(i) => i,
        None => return None,
    };
    let n = data.len();
    if newline < 4 || newline >= n {
        return None;
    }
    let id_bytes = vstd::slice::slice_subrange(data, newline + 1, n);
    let id = lossy_string(id_bytes);
    let id = trim_chars(chars_of(id.as_str()).as_slice());
    let version_bytes = vstd::slice::slice_subrange(data, newline - 4, newline - 1);
    let text = match utf8_text(version_bytes) {
        Some(t) => t,
        None => return None,
    };
    let t = trim_chars(chars_of(text.as_str()).as_slice());
    match parse_i32(t.as_slice()) {
        Some(version) => Some((version, string_of(id.as_slice()))),
        None => None,
    }
}


// --- the game's path tables ---------------------------------------------------------

/// What a table of the game's gives for `key` (its texts are file paths or
/// versions): the text last given to it.
pub open spec fn table_get(t: Seq<(Seq<char>, Seq<char>)>, key: Seq<char>) -> Option<Seq<char>>
    decreases t.len(),
{
    if t.len() == 0 {
        None
    } else if t.last().0 == key {
        Some(t.last().1)
    } else {
        table_get(t.drop_last(), key)
    }
}

/// A table of the game's, from names to texts.
pub struct StringTable {
    entries: Vec<(String, String)>,
}

impl View for StringTable {
    type V = Seq<(Seq<char>, Seq<char>)>;

    closed spec fn view(&self) -> Seq<(Seq<char>, Seq<char>)> {
        self.entries@.map_values(|e: (String, String)| (e.0@, e.1@))
    }
}

impl StringTable {
    pub fn new() -> (t: StringTable)
        ensures
            t@ == Seq::<(Seq<char>, Seq<char>)>::empty(),
    {
        let t = StringTable { entries: Vec::new() };
        assert(t@ =~= Seq::<(Seq<char>, Seq<char>)>::empty());
        t
    }

    /// Gives `key` the text `value`, in place of any it had.
    pub fn insert(&mut self, key: String, value: String)
        ensures
            final(self)@ == old(self)@.push((key@, value@)),
    {
        self.entries.push((key, value));
        assert(self@ =~= old(self)@.push((key@, value@)));
    }

    pub fn get(&self, key: &str) -> (r: Option<&str>)
        ensures
            match table_get(self@, key@) {
                Some(v) => r matches Some(s) && s@ == v,
                None => r is None,
            },
    {
        let mut i: usize = self.entries.len();
        assert(self@.take(i as int) =~= self@);
        while i > 0
            invariant
                i <= self.entries.len(),
                table_get(self@, key@) == table_get(self@.take(i as int), key@),
            decreases i,
        {
            let ghost t = self@.take(i as int);
            assert(t.drop_last() =~= self@.take(i - 1));
            assert(t.last() == self@[i - 1]);
            if crate::text::str_eq(self.entries[i - 1].0.as_str(), key) {
                return Some(self.entries[i - 1].1.as_str());
            }
            i = i - 1;
        }
        assert(self@.take(0) =~= Seq::<(Seq<char>, Seq<char>)>::empty());
        None
    }
}

/// The game's tables a merge reads: its version, its executable's build id
/// and where its files are.
pub struct TkRom {
    prefix: String,
    game_version: i32,
    nso_binary_id: String,
    address_table: StringTable,
    event_flow_versions: StringTable,
    effect_versions: StringTable,
    ai_versions: StringTable,
    logic_versions: StringTable,
    sequence_versions: StringTable,
}

pub struct RomView {
    pub prefix: Seq<char>,
    pub game_version: i32,
    pub nso_binary_id: Seq<char>,
    pub address_table: Seq<(Seq<char>, Seq<char>)>,
    pub event_flow_versions: Seq<(Seq<char>, Seq<char>)>,
    pub effect_versions: Seq<(Seq<char>, Seq<char>)>,
    pub ai_versions: Seq<(Seq<char>, Seq<char>)>,
    pub logic_versions: Seq<(Seq<char>, Seq<char>)>,
    pub sequence_versions: Seq<(Seq<char>, Seq<char>)>,
}

impl View for TkRom {
    type V = RomView;

    closed spec fn view(&self) -> RomView {
        RomView {
            prefix: self.prefix@,
            game_version: self.game_version,
            nso_binary_id: self.nso_binary_id@,
            address_table: self.address_table@,
            event_flow_versions: self.event_flow_versions@,
            effect_versions: self.effect_versions@,
            ai_versions: self.ai_versions@,
            logic_versions: self.logic_versions@,
            sequence_versions: self.sequence_versions@,
        }
    }
}

/// The table of versions `table` stands for.
pub open spec fn version_table(rom: RomView, table: VersionTable) -> Seq<(Seq<char>, Seq<char>)> {
    match table {
        VersionTable::Sequence => rom.sequence_versions,
        VersionTable::Effect => rom.effect_versions,
        VersionTable::Logic => rom.logic_versions,
        VersionTable::Ai => rom.ai_versions,
    }
}


/// The bytes `from..to` of a text's UTF-8 encoding, as text.
pub open spec fn byte_slice(s: Seq<char>, from: int, to: int) -> Seq<char> {
    decode_utf8(encode_utf8(s).subrange(from, to))
}

/// What the address table makes of a canonical name.
pub open spec fn address_of(rom: RomView, canonical: Seq<char>) -> Seq<char> {
    match table_get(rom.address_table, canonical) {
        Some(p) => p,
        None => canonical,
    }
}

pub open spec fn ai_path(rom: RomView, canon: Seq<char>) -> Option<Seq<char>> {
    if encode_utf8(canon).len() > 3 && starts_with(canon, "AI/"@) {
        table_get(rom.ai_versions, canon)
    } else {
        None
    }
}

/// Whether an event flow name sits between byte 16 and the last seven bytes.
pub open spec fn event_flow_named(canon: Seq<char>) -> bool {
    let b = encode_utf8(canon);
    &&& b.len() > 26
    &&& starts_with(canon, "Event/EventFlow"@)
    &&& is_char_boundary(b, 16)
    &&& is_char_boundary(b, b.len() - 7)
}

pub open spec fn event_flow_path(rom: RomView, canon: Seq<char>) -> Option<Seq<char>> {
    let b = encode_utf8(canon);
    if event_flow_named(canon) {
        let name = byte_slice(canon, 16, b.len() - 7);
        match table_get(rom.event_flow_versions, name) {
            Some(version) => Some(
                "Event/EventFlow/"@ + name + "."@ + version + crate::canonical::extension_spec(canon),
            ),
            None => None,
        }
    } else {
        None
    }
}

/// Whether an effect's name sits between byte 7 and the last thirty bytes.
pub open spec fn effect_named(canon: Seq<char>, attributes: u32) -> bool {
    let b = encode_utf8(canon);
    &&& attributes & crate::tkcl::attributes::IS_PRODUCT_FILE != 0
    &&& b.len() > 37
    &&& starts_with(canon, "Effect"@)
    &&& is_char_boundary(b, b.len() - 30)
}

pub open spec fn effect_path(rom: RomView, canon: Seq<char>, attributes: u32) -> Option<Seq<char>> {
    let b = encode_utf8(canon);
    if effect_named(canon, attributes) {
        match table_get(rom.effect_versions, byte_slice(canon, 7, b.len() - 30)) {
            Some(file) => Some("Effect/"@ + file + ".Product.Nin_NX_NVN.esetb.byml"@),
            None => None,
        }
    } else {
        None
    }
}

pub open spec fn table_path(
    table: Seq<(Seq<char>, Seq<char>)>,
    canon: Seq<char>,
    prefix: Seq<char>,
) -> Option<Seq<char>> {
    if encode_utf8(canon).len() > prefix.len() && starts_with(canon, prefix) {
        table_get(table, canon)
    } else {
        None
    }
}

/// The versioned path of a file the game's tables name, if one does.
pub open spec fn resolved_path(rom: RomView, canon: Seq<char>, attributes: u32) -> Option<Seq<char>> {
    if ai_path(rom, canon) is Some {
        ai_path(rom, canon)
    } else if event_flow_path(rom, canon) is Some {
        event_flow_path(rom, canon)
    } else if effect_path(rom, canon, attributes) is Some {
        effect_path(rom, canon, attributes)
    } else if table_path(rom.sequence_versions, canon, "Sequence/"@) is Some {
        table_path(rom.sequence_versions, canon, "Sequence/"@)
    } else {
        table_path(rom.logic_versions, canon, "Logic/"@)
    }
}

/// Where the game keeps the file a canonical name stands for, relative to
/// its romfs.
pub open spec fn relative_path(rom: RomView, canonical: Seq<char>, attributes: u32) -> Seq<char> {
    let canon = address_of(rom, canonical);
    let base = match resolved_path(rom, canon, attributes) {
        Some(p) => p,
        None => canon,
    };
    let zs = if attributes & crate::tkcl::attributes::HAS_ZS_EXTENSION != 0 {
        base + ".zs"@
    } else {
        base
    };
    if attributes & crate::tkcl::attributes::HAS_MC_EXTENSION != 0 {
        zs + ".mc"@
    } else {
        zs
    }
}

/// Whether the effect name of a canonical name starts on a character (its
/// slice would not be text otherwise).
pub open spec fn relative_path_defined(rom: RomView, canonical: Seq<char>, attributes: u32) -> bool {
    let canon = address_of(rom, canonical);
    (ai_path(rom, canon) is None && event_flow_path(rom, canon) is None && effect_named(
        canon,
        attributes,
    )) ==> is_char_boundary(encode_utf8(canon), 7)
}

/// The bytes between two character boundaries of text are text.
proof fn lemma_middle_valid(b: Seq<u8>, i: int, j: int)
    requires
        valid_utf8(b),
        0 <= i <= j <= b.len(),
        is_char_boundary(b, i),
        is_char_boundary(b, j),
    ensures
        valid_utf8(b.subrange(i, j)),
{
    vstd::utf8::valid_utf8_split(b, i);
    let rest = b.subrange(i, b.len() as int);
    vstd::utf8::is_char_boundary_start_end_of_seq(rest);
    if j < b.len() && j > i {
        vstd::utf8::is_char_boundary_iff_not_is_continuation_byte(b, j);
        vstd::utf8::is_char_boundary_iff_not_is_continuation_byte(rest, j - i);
        assert(rest[j - i] == b[j]);
    }
    assert(j == b.len() ==> j - i == rest.len());
    vstd::utf8::valid_utf8_split(rest, j - i);
    assert(rest.subrange(0, j - i) =~= b.subrange(i, j));
}

/// The text of the bytes `from..to` of a text's encoding.
pub fn bytes_text(b: &[u8], from: usize, to: usize) -> (r: String)
    requires
        valid_utf8(b@),
        from <= to <= b@.len(),
        is_char_boundary(b@, from as int),
        is_char_boundary(b@, to as int),
    ensures
        r@ == decode_utf8(b@.subrange(from as int, to as int)),
{
    proof {
        lemma_middle_valid(b@, from as int, to as int);
    }
    let piece = vstd::slice::slice_subrange(b, from, to);
    match utf8_text(piece) {
        Some(t) => t,
        None => {
            assert(false);
            String::new()
        },
    }
}


pub open spec fn opt_view(o: Option<String>) -> Option<Seq<char>> {
    match o {
        Some(s) => Some(s@),
        None => None,
    }
}

/// Where the game keeps its resource size table.
pub open spec fn size_table_path(game_version: i32) -> Seq<char> {
    if game_version >= 140 {
        "System/Resource/ResourceSizeTable.Product."@ + crate::text::signed_text(game_version as int)
            + ".Nin_NX_NVN.rsizetable.zs"@
    } else {
        "System/Resource/ResourceSizeTable.Product."@ + crate::text::signed_text(game_version as int)
            + ".rsizetable.zs"@
    }
}

impl TkRom {
    /// The tables read from a game dump whose romfs paths start with `prefix`.
    pub fn new(
        prefix: String,
        game_version: i32,
        nso_binary_id: String,
        address_table: StringTable,
        event_flow_versions: StringTable,
        effect_versions: StringTable,
        ai_versions: StringTable,
        logic_versions: StringTable,
        sequence_versions: StringTable,
    ) -> (rom: TkRom)
        ensures
            rom@ == (RomView {
                prefix: prefix@,
                game_version,
                nso_binary_id: nso_binary_id@,
                address_table: address_table@,
                event_flow_versions: event_flow_versions@,
                effect_versions: effect_versions@,
                ai_versions: ai_versions@,
                logic_versions: logic_versions@,
                sequence_versions: sequence_versions@,
            }),
    {
        TkRom {
            prefix,
            game_version,
            nso_binary_id,
            address_table,
            event_flow_versions,
            effect_versions,
            ai_versions,
            logic_versions,
            sequence_versions,
        }
    }

    pub fn prefix(&self) -> (r: &str)
        ensures
            r@ == self@.prefix,
    {
        self.prefix.as_str()
    }

    pub fn game_version(&self) -> (r: i32)
        ensures
            r == self@.game_version,
    {
        self.game_version
    }

    pub fn nso_binary_id(&self) -> (r: &str)
        ensures
            r@ == self@.nso_binary_id,
    {
        self.nso_binary_id.as_str()
    }

    pub fn event_flow_version(&self, name: &str) -> (r: Option<&str>)
        ensures
            match table_get(self@.event_flow_versions, name@) {
                Some(v) => r matches Some(s) && s@ == v,
                None => r is None,
            },
    {
        self.event_flow_versions.get(name)
    }

    pub fn versioned_name(&self, table: VersionTable, name: &str) -> (r: Option<&str>)
        ensures
            match table_get(version_table(self@, table), name@) {
                Some(v) => r matches Some(s) && s@ == v,
                None => r is None,
            },
    {
        let map = match table {
            VersionTable::Sequence => &self.sequence_versions,
            VersionTable::Effect => &self.effect_versions,
            VersionTable::Logic => &self.logic_versions,
            VersionTable::Ai => &self.ai_versions,
        };
        map.get(name)
    }

    /// Where the game keeps the file a
    /// canonical name stands for, its version and extensions added.
    pub fn canonical_to_relative(&self, canonical: &str, attributes: u32) -> (r: String)
        requires
            relative_path_defined(self@, canonical@, attributes),
        ensures
            r@ == relative_path(self@, canonical@, attributes),
    {
        let canon = match self.address_table.get(canonical) {
            Some(p) => crate::config::owned(p),
            None => crate::config::owned(canonical),
        };
        let ghost c = canon@;
        assert(c == address_of(self@, canonical@));
        let cs = chars_of(canon.as_str());
        let b = canon.as_str().as_bytes();
        let len = b.len();
        proof {
            reveal_strlit("Sequence/");
            reveal_strlit("Logic/");
            vstd::utf8::encode_utf8_valid_utf8(c);
            vstd::utf8::is_char_boundary_start_end_of_seq(b@);
        }
        let mut resolved: Option<String> = None;
        if len > 3 && crate::text::has_prefix_lit(cs.as_slice(), "AI/") {
            if let Some(v) = self.ai_versions.get(canon.as_str()) {
                resolved = Some(crate::config::owned(v));
            }
        }
        assert(opt_view(resolved) == ai_path(self@, c));
        if resolved.is_none() && len > 26 && crate::text::has_prefix_lit(cs.as_slice(), "Event/EventFlow")
            && canon.as_str().is_char_boundary(16) && canon.as_str().is_char_boundary(len - 7) {
            let name = bytes_text(b, 16, len - 7);
            if let Some(version) = self.event_flow_versions.get(name.as_str()) {
                let mut p = crate::config::owned("Event/EventFlow/");
                crate::text::push_str(&mut p, name.as_str());
                crate::text::push_str(&mut p, ".");
                crate::text::push_str(&mut p, version);
                let ext = crate::canonical::extension(canon.as_str());
                crate::text::push_str(&mut p, ext.as_str());
                resolved = Some(p);
            }
        }
        assert(b@ == encode_utf8(c));
        assert(opt_view(resolved) == (if ai_path(self@, c) is Some {
            ai_path(self@, c)
        } else {
            event_flow_path(self@, c)
        }));
        if resolved.is_none() && attributes & crate::tkcl::attributes::IS_PRODUCT_FILE != 0 && len > 37
            && crate::text::has_prefix_lit(cs.as_slice(), "Effect") && canon.as_str().is_char_boundary(
            len - 30,
        ) {
            let name = bytes_text(b, 7, len - 30);
            if let Some(file) = self.effect_versions.get(name.as_str()) {
                let mut p = crate::config::owned("Effect/");
                crate::text::push_str(&mut p, file);
                crate::text::push_str(&mut p, ".Product.Nin_NX_NVN.esetb.byml");
                resolved = Some(p);
            }
        }
        assert(opt_view(resolved) == (if ai_path(self@, c) is Some {
            ai_path(self@, c)
        } else if event_flow_path(self@, c) is Some {
            event_flow_path(self@, c)
        } else {
            effect_path(self@, c, attributes)
        }));
        if resolved.is_none() && len > 9 && crate::text::has_prefix_lit(cs.as_slice(), "Sequence/") {
            if let Some(v) = self.sequence_versions.get(canon.as_str()) {
                resolved = Some(crate::config::owned(v));
            }
        }
        if resolved.is_none() && len > 6 && crate::text::has_prefix_lit(cs.as_slice(), "Logic/") {
            if let Some(v) = self.logic_versions.get(canon.as_str()) {
                resolved = Some(crate::config::owned(v));
            }
        }
        assert(opt_view(resolved) == resolved_path(self@, c, attributes));
        let mut result = match resolved {
            Some(p) => p,
            None => canon,
        };
        if attributes & crate::tkcl::attributes::HAS_ZS_EXTENSION != 0 {
            crate::text::push_str(&mut result, ".zs");
        }
        if attributes & crate::tkcl::attributes::HAS_MC_EXTENSION != 0 {
            crate::text::push_str(&mut result, ".mc");
        }
        result
    }

    /// Where the game keeps its resource size table.
    pub fn resource_size_table_path(&self) -> (r: String)
        ensures
            r@ == size_table_path(self@.game_version),
    {
        let mut p = crate::config::owned("System/Resource/ResourceSizeTable.Product.");
        crate::text::push_signed(&mut p, self.game_version as i64);
        if self.game_version >= 140 {
            crate::text::push_str(&mut p, ".Nin_NX_NVN.rsizetable.zs");
        } else {
            crate::text::push_str(&mut p, ".rsizetable.zs");
        }
        p
    }
}

} // verus!
