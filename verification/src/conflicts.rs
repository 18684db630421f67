//! Mods that change the same things.
//!
//! The merge goes ahead regardless (the mod with the highest priority wins),
//! but whoever runs it can warn about them first: files that cannot be merged
//! shipped by several mods, and values of merged files that several mods set
//! differently.
//!
//! The conflicts of the last merge are kept in a small tab-separated file.

use vstd::prelude::*;

use crate::options::strings_view;
use crate::text::{
    chars_of, decimal_text, is_lit, join, lines, lines_of, parse_u64_max, parse_unsigned,
    push_char, push_str, split, split_chars, string_of,
};

verus! {

/// The conflicts found by the last merge, in the cache folder.
pub const FILE_NAME: &'static str = "conflicts.tsv";

#[derive(Debug, Clone, Copy, PartialEq, Eq, Structural)]
pub enum ConflictKind {
    /// A file that cannot be merged, shipped by several mods.
    File,
    /// Values of a merged file that several mods set differently.
    Values,
}

pub open spec fn conflict_kind_text(kind: ConflictKind) -> Seq<char> {
    match kind {
        ConflictKind::File => "file"@,
        ConflictKind::Values => "values"@,
    }
}

impl ConflictKind {
    pub fn as_str(self) -> (r: &'static str)
        ensures
            r@ == conflict_kind_text(self),
    {
        match self {
            ConflictKind::File => "file",
            ConflictKind::Values => "values",
        }
    }
}

/// A mod's changes, as compared: its folder, its name, the changelogs it
/// brings (its own, and those of the options chosen).
pub struct ModChanges<'a, S> {
    pub folder: String,
    pub name: String,
    pub changelogs: Vec<&'a crate::tkcl::Changelog<S>>,
}

#[derive(Debug, Clone, PartialEq, Eq)]
pub struct ModRef {
    pub folder: String,
    pub name: String,
}

#[derive(Debug, Clone, PartialEq, Eq)]
pub struct Conflict {
    pub kind: ConflictKind,
    /// The game file, e.g. "Component/.../Foo.game__component__X.bgyml", or
    /// "Mals/EUfr/EventFlowMsg/Npc.msbt" for texts.
    pub file: String,
    /// The mods involved, the one whose version is used first.
    pub mods: Vec<ModRef>,
    /// Values set differently (1 for a whole file).
    pub count: usize,
    /// A few of those values, e.g. "Life" or "[Weapon_Sword_001]/Attack".
    pub samples: Vec<String>,
}

pub struct ConflictView {
    pub kind: ConflictKind,
    pub file: Seq<char>,
    /// Folder and name of each mod.
    pub mods: Seq<(Seq<char>, Seq<char>)>,
    pub count: usize,
    pub samples: Seq<Seq<char>>,
}

pub open spec fn mod_refs_view(mods: Seq<ModRef>) -> Seq<(Seq<char>, Seq<char>)> {
    mods.map_values(|m: ModRef| (m.folder@, m.name@))
}

impl View for Conflict {
    type V = ConflictView;

    open spec fn view(&self) -> ConflictView {
        ConflictView {
            kind: self.kind,
            file: self.file@,
            mods: mod_refs_view(self.mods@),
            count: self.count,
            samples: strings_view(self.samples@),
        }
    }
}

pub open spec fn conflicts_view(cs: Seq<Conflict>) -> Seq<ConflictView> {
    cs.map_values(|c: Conflict| c@)
}

/// Tabs, line breaks and `|` become spaces: they separate fields and list items.
pub open spec fn field_char(c: char) -> char {
    if c == '\t' || c == '\n' || c == '\r' || c == '|' {
        ' '
    } else {
        c
    }
}

pub open spec fn field(s: Seq<char>) -> Seq<char> {
    s.map_values(|c: char| field_char(c))
}

pub open spec fn fields(v: Seq<Seq<char>>) -> Seq<Seq<char>> {
    v.map_values(|s: Seq<char>| field(s))
}

/// `kind, file, count, folders, names, samples`, tab separated, lists
/// separated by `|`.
pub open spec fn conflict_line(c: ConflictView) -> Seq<char> {
    join(
        seq![
            conflict_kind_text(c.kind),
            field(c.file),
            decimal_text(c.count as nat),
            join(fields(c.mods.map_values(|m: (Seq<char>, Seq<char>)| m.0)), "|"@),
            join(fields(c.mods.map_values(|m: (Seq<char>, Seq<char>)| m.1)), "|"@),
            join(fields(c.samples), "|"@),
        ],
        "\t"@,
    )
}

pub open spec fn tsv_text(cs: Seq<ConflictView>) -> Seq<char>
    decreases cs.len(),
{
    if cs.len() == 0 {
        Seq::empty()
    } else {
        tsv_text(cs.drop_last()) + conflict_line(cs.last()) + "\n"@
    }
}

fn field_of(text: &str) -> (r: String)
    ensures
        r@ == field(text@),
{
    let v = chars_of(text);
    let mut out: Vec<char> = Vec::new();
    let mut i: usize = 0;
    while i < v.len()
        invariant
            i <= v.len(),
            out@ == field(v@.take(i as int)),
        decreases v.len() - i,
    {
        let c = v[i];
        out.push(if c == '\t' || c == '\n' || c == '\r' || c == '|' { ' ' } else { c });
        assert(out@ =~= field(v@.take(i + 1)));
        i = i + 1;
    }
    assert(v@.take(v.len() as int) =~= v@);
    string_of(out.as_slice())
}

/// Appends `items`, each made a field, separated by `|`.
fn push_list(out: &mut String, items: &Vec<String>)
    ensures
        final(out)@ == old(out)@ + join(fields(strings_view(items@)), "|"@),
{
    let ghost xs = fields(strings_view(items@));
    let ghost start = out@;
    let mut i: usize = 0;
    while i < items.len()
        invariant
            i <= items.len(),
            xs == fields(strings_view(items@)),
            out@ == start + join(xs.take(i as int), "|"@),
        decreases items.len() - i,
    {
        proof {
            reveal_strlit("|");
            assert(xs.take(i + 1).drop_last() =~= xs.take(i as int));
        }
        if i > 0 {
            push_char(out, '|');
        }
        let f = field_of(items[i].as_str());
        push_str(out, f.as_str());
        proof {
            assert(xs[i as int] == f@);
            if i == 0 {
                assert(xs.take(1) =~= seq![f@]);
            }
        }
        i = i + 1;
        assert(out@ =~= start + join(xs.take(i as int), "|"@));
    }
    assert(xs.take(items.len() as int) =~= xs);
}

fn folders_of(mods: &Vec<ModRef>, names: bool) -> (r: Vec<String>)
    ensures
        strings_view(r@) == mod_refs_view(mods@).map_values(
            |m: (Seq<char>, Seq<char>)|
                if names {
                    m.1
                } else {
                    m.0
                },
        ),
{
    let mut r: Vec<String> = Vec::new();
    let mut i: usize = 0;
    while i < mods.len()
        invariant
            i <= mods.len(),
            r@.len() == i,
            forall|k: int|
                0 <= k < i ==> (#[trigger] r@[k])@ == if names {
                    mods@[k].name@
                } else {
                    mods@[k].folder@
                },
        decreases mods.len() - i,
    {
        let s = if names {
            crate::text::copy_string(&mods[i].name)
        } else {
            crate::text::copy_string(&mods[i].folder)
        };
        r.push(s);
        i = i + 1;
    }
    assert(strings_view(r@) =~= mod_refs_view(mods@).map_values(
        |m: (Seq<char>, Seq<char>)|
            if names {
                m.1
            } else {
                m.0
            },
    ));
    r
}

proof fn lemma_join6(parts: Seq<Seq<char>>, t: Seq<char>)
    requires
        parts.len() == 6,
    ensures
        join(parts, t) == parts[0] + t + parts[1] + t + parts[2] + t + parts[3] + t + parts[4] + t
            + parts[5],
{
    let p1 = parts.take(1);
    let p2 = parts.take(2);
    let p3 = parts.take(3);
    let p4 = parts.take(4);
    let p5 = parts.take(5);
    assert(p2.drop_last() =~= p1);
    assert(p3.drop_last() =~= p2);
    assert(p4.drop_last() =~= p3);
    assert(p5.drop_last() =~= p4);
    assert(parts.drop_last() =~= p5);
    assert(join(p1, t) == parts[0]);
    assert(join(p2, t) == parts[0] + t + parts[1]);
    assert(join(p3, t) == parts[0] + t + parts[1] + t + parts[2]);
    assert(join(p4, t) == parts[0] + t + parts[1] + t + parts[2] + t + parts[3]);
    assert(join(p5, t) == parts[0] + t + parts[1] + t + parts[2] + t + parts[3] + t + parts[4]);
}

fn push_conflict_line(text: &mut String, c: &Conflict)
    ensures
        final(text)@ == old(text)@ + conflict_line(c@) + "\n"@,
{
    let ghost before = text@;
    push_str(text, c.kind.as_str());
    let ghost a = text@;
    push_char(text, '\t');
    let f = field_of(c.file.as_str());
    push_str(text, f.as_str());
    push_char(text, '\t');
    crate::text::push_unsigned(text, c.count as u64);
    push_char(text, '\t');
    let folders = folders_of(&c.mods, false);
    assert(strings_view(folders@) =~= c@.mods.map_values(|m: (Seq<char>, Seq<char>)| m.0));
    push_list(text, &folders);
    push_char(text, '\t');
    let names = folders_of(&c.mods, true);
    assert(strings_view(names@) =~= c@.mods.map_values(|m: (Seq<char>, Seq<char>)| m.1));
    push_list(text, &names);
    push_char(text, '\t');
    push_list(text, &c.samples);
    push_char(text, '\n');
    proof {
        reveal_strlit("\t");
        reveal_strlit("\n");
        let parts = seq![
            conflict_kind_text(c@.kind),
            field(c@.file),
            decimal_text(c@.count as nat),
            join(fields(c@.mods.map_values(|m: (Seq<char>, Seq<char>)| m.0)), "|"@),
            join(fields(c@.mods.map_values(|m: (Seq<char>, Seq<char>)| m.1)), "|"@),
            join(fields(c@.samples), "|"@),
        ];
        lemma_join6(parts, "\t"@);
        assert(text@ =~= before + conflict_line(c@) + "\n"@);
    }
}

/// The conflicts as the lines of `conflicts.tsv`.
pub fn to_tsv(conflicts: &Vec<Conflict>) -> (text: String)
    ensures
        text@ == tsv_text(conflicts_view(conflicts@)),
{
    let ghost cs = conflicts_view(conflicts@);
    let mut text = String::new();
    let mut i: usize = 0;
    while i < conflicts.len()
        invariant
            i <= conflicts.len(),
            cs == conflicts_view(conflicts@),
            text@ == tsv_text(cs.take(i as int)),
        decreases conflicts.len() - i,
    {
        push_conflict_line(&mut text, &conflicts[i]);
        proof {
            assert(cs.take(i + 1).drop_last() =~= cs.take(i as int));
            assert(cs[i as int] == conflicts@[i as int]@);
        }
        i = i + 1;
    }
    assert(cs.take(conflicts.len() as int) =~= cs);
    text
}

// --- reading ---------------------------------------------------------------------------------

/// The non-empty pieces, in order.
pub open spec fn nonempty(xs: Seq<Seq<char>>) -> Seq<Seq<char>>
    decreases xs.len(),
{
    if xs.len() == 0 {
        Seq::empty()
    } else {
        let r = nonempty(xs.drop_last());
        if xs.last().len() > 0 {
            r.push(xs.last())
        } else {
            r
        }
    }
}

/// A `|`-separated list; empty items are dropped.
pub open spec fn list_items(v: Seq<char>) -> Seq<Seq<char>> {
    nonempty(split(v, '|'))
}

pub open spec fn kind_of_text(t: Seq<char>) -> Option<ConflictKind> {
    if t == "file"@ {
        Some(ConflictKind::File)
    } else if t == "values"@ {
        Some(ConflictKind::Values)
    } else {
        None
    }
}

/// Mods from their folders and names, paired by position; a folder without
/// a name is its own name.
pub open spec fn paired(folders: Seq<Seq<char>>, names: Seq<Seq<char>>) -> Seq<(Seq<char>, Seq<char>)> {
    Seq::new(
        folders.len(),
        |i: int|
            (
                folders[i],
                if i < names.len() {
                    names[i]
                } else {
                    folders[i]
                },
            ),
    )
}

/// One line of `conflicts.tsv`; `None` for a line that is not one.
pub open spec fn parse_line(line: Seq<char>) -> Option<ConflictView> {
    let fs = split(line, '\t');
    if fs.len() < 6 {
        None
    } else {
        match kind_of_text(fs[0]) {
            None => None,
            Some(kind) => Some(
                ConflictView {
                    kind,
                    file: fs[1],
                    mods: paired(list_items(fs[3]), list_items(fs[4])),
                    count: match parse_unsigned(fs[2], usize::MAX as int) {
                        Some(n) => n as usize,
                        None => 1,
                    },
                    samples: list_items(fs[5]),
                },
            ),
        }
    }
}

pub open spec fn parse_lines(ls: Seq<Seq<char>>) -> Seq<ConflictView>
    decreases ls.len(),
{
    if ls.len() == 0 {
        Seq::empty()
    } else {
        let r = parse_lines(ls.drop_last());
        match parse_line(ls.last()) {
            Some(c) => r.push(c),
            None => r,
        }
    }
}

/// The conflicts a `conflicts.tsv` holds.
pub open spec fn tsv_conflicts(text: Seq<char>) -> Seq<ConflictView> {
    parse_lines(lines(text))
}

fn list_of(v: &[char]) -> (r: Vec<String>)
    ensures
        strings_view(r@) == list_items(v@),
{
    let pieces = split_chars(v, '|');
    let ghost ps = pieces@.map_values(|p: Vec<char>| p@);
    let mut r: Vec<String> = Vec::new();
    let mut i: usize = 0;
    while i < pieces.len()
        invariant
            i <= pieces.len(),
            ps == pieces@.map_values(|p: Vec<char>| p@),
            ps == split(v@, '|'),
            strings_view(r@) == nonempty(ps.take(i as int)),
        decreases pieces.len() - i,
    {
        proof {
            assert(ps.take(i + 1).drop_last() =~= ps.take(i as int));
            assert(ps[i as int] == pieces@[i as int]@);
        }
        if pieces[i].len() > 0 {
            let ghost before = strings_view(r@);
            r.push(string_of(pieces[i].as_slice()));
            assert(strings_view(r@) =~= before.push(pieces@[i as int]@));
        }
        i = i + 1;
    }
    assert(ps.take(pieces.len() as int) =~= ps);
    r
}

fn parse_conflict_line(line: &[char]) -> (r: Option<Conflict>)
    ensures
        match r {
            Some(c) => parse_line(line@) == Some(c@),
            None => parse_line(line@) is None,
        },
{
    let fs = split_chars(line, '\t');
    let ghost fv = fs@.map_values(|p: Vec<char>| p@);
    if fs.len() < 6 {
        return None;
    }
    proof {
        assert(fv[0] == fs@[0]@);
        assert(fv[1] == fs@[1]@);
        assert(fv[2] == fs@[2]@);
        assert(fv[3] == fs@[3]@);
        assert(fv[4] == fs@[4]@);
        assert(fv[5] == fs@[5]@);
        reveal_strlit("file");
        reveal_strlit("values");
    }
    let kind = if is_lit(fs[0].as_slice(), "file") {
        ConflictKind::File
    } else if is_lit(fs[0].as_slice(), "values") {
        ConflictKind::Values
    } else {
        return None;
    };
    let count: usize = match parse_u64_max(fs[2].as_slice(), usize::MAX as u64) {
        Some(n) => n as usize,
        None => 1,
    };
    let folders = list_of(fs[3].as_slice());
    let names = list_of(fs[4].as_slice());
    let mut mods: Vec<ModRef> = Vec::new();
    let mut i: usize = 0;
    while i < folders.len()
        invariant
            i <= folders.len(),
            strings_view(folders@) == list_items(fv[3]),
            strings_view(names@) == list_items(fv[4]),
            mod_refs_view(mods@) == paired(list_items(fv[3]), list_items(fv[4])).take(i as int),
        decreases folders.len() - i,
    {
        let name = if i < names.len() {
            crate::text::copy_string(&names[i])
        } else {
            crate::text::copy_string(&folders[i])
        };
        let ghost before = mod_refs_view(mods@);
        mods.push(ModRef { folder: crate::text::copy_string(&folders[i]), name });
        proof {
            let all = paired(list_items(fv[3]), list_items(fv[4]));
            assert(strings_view(folders@)[i as int] == folders@[i as int]@);
            if i < names@.len() {
                assert(strings_view(names@)[i as int] == names@[i as int]@);
            }
            assert(all.take(i + 1) =~= all.take(i as int).push(all[i as int]));
            assert(mod_refs_view(mods@) =~= before.push(all[i as int]));
        }
        i = i + 1;
    }
    assert(paired(list_items(fv[3]), list_items(fv[4])).take(folders.len() as int) =~= paired(
        list_items(fv[3]),
        list_items(fv[4]),
    ));
    let samples = list_of(fs[5].as_slice());
    let c = Conflict { kind, file: string_of(fs[1].as_slice()), mods, count, samples };
    Some(c)
}

/// The conflicts in the text of a `conflicts.tsv`; lines that are not
/// conflicts are skipped.
pub fn parse_tsv(text: &str) -> (r: Vec<Conflict>)
    ensures
        conflicts_view(r@) == tsv_conflicts(text@),
{
    let ls = lines_of(chars_of(text).as_slice());
    let ghost lv = ls@.map_values(|l: Vec<char>| l@);
    let mut r: Vec<Conflict> = Vec::new();
    let mut i: usize = 0;
    while i < ls.len()
        invariant
            i <= ls.len(),
            lv == ls@.map_values(|l: Vec<char>| l@),
            lv == lines(text@),
            conflicts_view(r@) == parse_lines(lv.take(i as int)),
        decreases ls.len() - i,
    {
        proof {
            assert(lv.take(i + 1).drop_last() =~= lv.take(i as int));
            assert(lv[i as int] == ls@[i as int]@);
        }
        match parse_conflict_line(ls[i].as_slice()) {
            Some(c) => {
                let ghost before = conflicts_view(r@);
                r.push(c);
                assert(conflicts_view(r@) =~= before.push(c@));
            },
            None => {},
        }
        i = i + 1;
    }
    assert(lv.take(ls.len() as int) =~= lv);
    r
}

// --- the log -------------------------------------------------------------------------------

/// How many conflicts the log lists.
pub const SHOWN: usize = 40;

pub open spec fn names_of(c: ConflictView) -> Seq<Seq<char>> {
    c.mods.map_values(|m: (Seq<char>, Seq<char>)| m.1)
}

/// The log line of one conflict.
pub open spec fn log_line(c: ConflictView) -> Seq<char> {
    match c.kind {
        ConflictKind::File => "  "@ + c.file + ": replaced by "@ + join(names_of(c), " > "@),
        ConflictKind::Values => "  "@ + c.file + ": "@ + decimal_text(c.count as nat) + " value(s) set by "@
            + join(names_of(c), " > "@) + " ("@ + join(c.samples, ", "@) + (if c.count > c.samples.len() {
            ", ..."@
        } else {
            ""@
        }) + ")"@,
    }
}

/// What the log says of the conflicts: how many there are, the first
/// `SHOWN`, how many more.
pub open spec fn log_lines_spec(cs: Seq<ConflictView>) -> Seq<Seq<char>> {
    if cs.len() == 0 {
        Seq::empty()
    } else {
        let shown = if cs.len() > SHOWN {
            SHOWN as int
        } else {
            cs.len() as int
        };
        seq![
            decimal_text(cs.len())
                + " conflict(s) between mods (the mod named first wins, the merge goes ahead):"@,
        ] + cs.take(shown).map_values(|c: ConflictView| log_line(c)) + if cs.len() > SHOWN {
            seq!["  ... and "@ + decimal_text((cs.len() - SHOWN) as nat) + " more"@]
        } else {
            Seq::empty()
        }
    }
}

fn names_list(c: &Conflict) -> (r: Vec<String>)
    ensures
        strings_view(r@) == names_of(c@),
{
    let r = folders_of(&c.mods, true);
    assert(strings_view(r@) =~= names_of(c@));
    r
}

fn log_line_of(c: &Conflict) -> (r: String)
    ensures
        r@ == log_line(c@),
{
    let names = names_list(c);
    let joined = crate::text::join_strings(&names, " > ");
    assert(names@.map_values(|s: String| s@) =~= strings_view(names@));
    let mut r = crate::config::owned("  ");
    push_str(&mut r, c.file.as_str());
    match c.kind {
        ConflictKind::File => {
            push_str(&mut r, ": replaced by ");
            push_str(&mut r, joined.as_str());
        },
        ConflictKind::Values => {
            push_str(&mut r, ": ");
            crate::text::push_unsigned(&mut r, c.count as u64);
            push_str(&mut r, " value(s) set by ");
            push_str(&mut r, joined.as_str());
            push_str(&mut r, " (");
            let samples = crate::text::join_strings(&c.samples, ", ");
            assert(c.samples@.map_values(|s: String| s@) =~= strings_view(c.samples@));
            push_str(&mut r, samples.as_str());
            if c.count > c.samples.len() {
                push_str(&mut r, ", ...");
            } else {
                push_str(&mut r, "");
            }
            push_str(&mut r, ")");
        },
    }
    r
}

/// The lines the log gets about the conflicts of a merge.
pub fn log_lines(conflicts: &Vec<Conflict>) -> (r: Vec<String>)
    ensures
        strings_view(r@) == log_lines_spec(conflicts_view(conflicts@)),
{
    let ghost cs = conflicts_view(conflicts@);
    let mut r: Vec<String> = Vec::new();
    if conflicts.len() == 0 {
        assert(strings_view(r@) =~= log_lines_spec(cs));
        return r;
    }
    let mut head = String::new();
    crate::text::push_unsigned(&mut head, conflicts.len() as u64);
    push_str(&mut head, " conflict(s) between mods (the mod named first wins, the merge goes ahead):");
    let ghost h = head@;
    r.push(head);
    assert(strings_view(r@) =~= seq![h]);
    let shown: usize = if conflicts.len() > SHOWN {
        SHOWN
    } else {
        conflicts.len()
    };
    let mut i: usize = 0;
    while i < shown
        invariant
            i <= shown,
            shown <= conflicts.len(),
            cs == conflicts_view(conflicts@),
            h == decimal_text(cs.len()) + " conflict(s) between mods (the mod named first wins, the merge goes ahead):"@,
            strings_view(r@) == seq![h] + cs.take(i as int).map_values(|c: ConflictView| log_line(c)),
        decreases shown - i,
    {
        let line = log_line_of(&conflicts[i]);
        let ghost before = strings_view(r@);
        r.push(line);
        proof {
            assert(cs[i as int] == conflicts@[i as int]@);
            assert(strings_view(r@) =~= before.push(line@));
            assert(cs.take(i + 1).map_values(|c: ConflictView| log_line(c)) =~= cs.take(
                i as int,
            ).map_values(|c: ConflictView| log_line(c)).push(log_line(cs[i as int])));
        }
        i = i + 1;
    }
    if conflicts.len() > SHOWN {
        let mut more = crate::config::owned("  ... and ");
        crate::text::push_unsigned(&mut more, (conflicts.len() - SHOWN) as u64);
        push_str(&mut more, " more");
        let ghost before = strings_view(r@);
        r.push(more);
        assert(strings_view(r@) =~= before.push(more@));
    }
    assert(strings_view(r@) =~= log_lines_spec(cs));
    r
}

// --- reading back what was written --------------------------------------------------------

/// A conflict as `conflicts.tsv` gives it back: each text made a field.
pub open spec fn as_written(c: ConflictView) -> ConflictView {
    ConflictView {
        kind: c.kind,
        file: field(c.file),
        mods: c.mods.map_values(|m: (Seq<char>, Seq<char>)| (field(m.0), field(m.1))),
        count: c.count,
        samples: fields(c.samples),
    }
}

/// A conflict whose lists `conflicts.tsv` keeps whole: no empty folder, name
/// or sample (an empty list item reads back as no item).
pub open spec fn writable(c: ConflictView) -> bool {
    &&& forall|i: int| 0 <= i < c.mods.len() ==> (#[trigger] c.mods[i]).0.len() > 0 && c.mods[i].1.len() > 0
    &&& forall|i: int| 0 <= i < c.samples.len() ==> (#[trigger] c.samples[i]).len() > 0
}

proof fn lemma_field_lacks(s: Seq<char>, c: char)
    requires
        c == '\t' || c == '\n' || c == '\r' || c == '|',
    ensures
        crate::text::lacks(field(s), c),
{
}

/// A list as written: its items made fields, joined by `|`.
pub open spec fn list_text(items: Seq<Seq<char>>) -> Seq<char> {
    join(fields(items), "|"@)
}

proof fn lemma_list_text_lacks(items: Seq<Seq<char>>, c: char)
    requires
        c == '\t' || c == '\n' || c == '\r',
    ensures
        crate::text::lacks(list_text(items), c),
{
    reveal_strlit("|");
    assert forall|i: int| 0 <= i < fields(items).len() implies crate::text::lacks(#[trigger] fields(items)[i], c) by {
        lemma_field_lacks(items[i], c);
    }
    crate::text::lemma_join_lacks(fields(items), "|"@, c);
}

proof fn lemma_nonempty_all(xs: Seq<Seq<char>>)
    requires
        forall|i: int| 0 <= i < xs.len() ==> (#[trigger] xs[i]).len() > 0,
    ensures
        nonempty(xs) == xs,
    decreases xs.len(),
{
    if xs.len() > 0 {
        let front = xs.drop_last();
        assert forall|i: int| 0 <= i < front.len() implies (#[trigger] front[i]).len() > 0 by {
            assert(front[i] == xs[i]);
        }
        lemma_nonempty_all(front);
        assert(xs.last().len() > 0);
        assert(front.push(xs.last()) =~= xs);
    }
}

/// A list written by `to_tsv` reads back as its items made fields.
proof fn lemma_list_round_trip(items: Seq<Seq<char>>)
    requires
        forall|i: int| 0 <= i < items.len() ==> (#[trigger] items[i]).len() > 0,
    ensures
        list_items(list_text(items)) == fields(items),
{
    reveal_strlit("|");
    let fs = fields(items);
    assert forall|i: int| 0 <= i < fs.len() implies (#[trigger] fs[i]).len() > 0 by {
        assert(items[i].len() > 0);
    }
    if items.len() == 0 {
        assert(fs =~= Seq::<Seq<char>>::empty());
        assert(split(Seq::<char>::empty(), '|') == seq![Seq::<char>::empty()]);
        let one = seq![Seq::<char>::empty()];
        assert(one.drop_last() =~= Seq::<Seq<char>>::empty());
        assert(nonempty(one.drop_last()) == Seq::<Seq<char>>::empty());
        assert(one.last().len() == 0);
        assert(nonempty(one) =~= Seq::<Seq<char>>::empty());
    } else {
        assert forall|i: int| 0 <= i < fs.len() implies crate::text::lacks(#[trigger] fs[i], '|') by {
            lemma_field_lacks(items[i], '|');
        }
        assert("|"@ =~= seq!['|']);
        crate::text::lemma_split_join(fs, '|');
        lemma_nonempty_all(fs);
    }
}

proof fn lemma_kind_text(kind: ConflictKind, c: char)
    requires
        c == '\t' || c == '\n' || c == '\r',
    ensures
        crate::text::lacks(conflict_kind_text(kind), c),
        kind_of_text(conflict_kind_text(kind)) == Some(kind),
{
    reveal_strlit("file");
    reveal_strlit("values");
    assert("file"@ != "values"@) by {
        assert("file"@.len() != "values"@.len());
    }
}

proof fn lemma_decimal_lacks(n: nat, c: char)
    requires
        c == '\t' || c == '\n' || c == '\r',
    ensures
        crate::text::lacks(decimal_text(n), c),
{
    crate::text::lemma_decimal_text(n);
    assert forall|i: int| 0 <= i < decimal_text(n).len() implies decimal_text(n)[i] != c by {
        assert(crate::text::is_digit(decimal_text(n)[i]));
    }
}

/// The six fields of a conflict's line.
pub open spec fn line_parts(c: ConflictView) -> Seq<Seq<char>> {
    seq![
        conflict_kind_text(c.kind),
        field(c.file),
        decimal_text(c.count as nat),
        list_text(c.mods.map_values(|m: (Seq<char>, Seq<char>)| m.0)),
        list_text(c.mods.map_values(|m: (Seq<char>, Seq<char>)| m.1)),
        list_text(c.samples),
    ]
}

proof fn lemma_parts_lack(c: ConflictView, ch: char)
    requires
        ch == '\t' || ch == '\n' || ch == '\r',
    ensures
        forall|i: int| 0 <= i < line_parts(c).len() ==> crate::text::lacks(#[trigger] line_parts(c)[i], ch),
{
    lemma_kind_text(c.kind, ch);
    lemma_field_lacks(c.file, ch);
    lemma_decimal_lacks(c.count as nat, ch);
    lemma_list_text_lacks(c.mods.map_values(|m: (Seq<char>, Seq<char>)| m.0), ch);
    lemma_list_text_lacks(c.mods.map_values(|m: (Seq<char>, Seq<char>)| m.1), ch);
    lemma_list_text_lacks(c.samples, ch);
}

proof fn lemma_line_plain(c: ConflictView)
    ensures
        crate::text::plain_line(conflict_line(c)),
        conflict_line(c) == join(line_parts(c), seq!['\t']),
{
    reveal_strlit("\t");
    assert("\t"@ =~= seq!['\t']);
    assert(conflict_line(c) == join(line_parts(c), seq!['\t']));
    lemma_parts_lack(c, '\n');
    lemma_parts_lack(c, '\r');
    crate::text::lemma_join_lacks(line_parts(c), seq!['\t'], '\n');
    crate::text::lemma_join_lacks(line_parts(c), seq!['\t'], '\r');
    let l = conflict_line(c);
    if l.len() > 0 {
        assert(l[l.len() - 1] != '\r');
    }
}

proof fn lemma_line_round_trip(c: ConflictView)
    requires
        writable(c),
    ensures
        parse_line(conflict_line(c)) == Some(as_written(c)),
{
    lemma_line_plain(c);
    let parts = line_parts(c);
    lemma_parts_lack(c, '\t');
    crate::text::lemma_split_join(parts, '\t');
    lemma_kind_text(c.kind, '\t');
    crate::text::lemma_parse_decimal_text(c.count as nat, usize::MAX as int);
    let folders = c.mods.map_values(|m: (Seq<char>, Seq<char>)| m.0);
    let names = c.mods.map_values(|m: (Seq<char>, Seq<char>)| m.1);
    assert forall|i: int| 0 <= i < folders.len() implies (#[trigger] folders[i]).len() > 0 by {
        assert(c.mods[i].0.len() > 0);
    }
    assert forall|i: int| 0 <= i < names.len() implies (#[trigger] names[i]).len() > 0 by {
        assert(c.mods[i].1.len() > 0);
    }
    lemma_list_round_trip(folders);
    lemma_list_round_trip(names);
    lemma_list_round_trip(c.samples);
    let w = as_written(c);
    assert(paired(fields(folders), fields(names)) =~= w.mods);
}

proof fn lemma_tsv_terminated(cs: Seq<ConflictView>)
    ensures
        tsv_text(cs) == crate::text::terminated(cs.map_values(|c: ConflictView| conflict_line(c))),
    decreases cs.len(),
{
    reveal_strlit("\n");
    if cs.len() > 0 {
        lemma_tsv_terminated(cs.drop_last());
        assert(cs.drop_last().map_values(|c: ConflictView| conflict_line(c)) =~= cs.map_values(
            |c: ConflictView| conflict_line(c),
        ).drop_last());
    } else {
        assert(cs.map_values(|c: ConflictView| conflict_line(c)) =~= Seq::<Seq<char>>::empty());
    }
}

proof fn lemma_parse_written(cs: Seq<ConflictView>)
    requires
        forall|i: int| 0 <= i < cs.len() ==> writable(#[trigger] cs[i]),
    ensures
        parse_lines(cs.map_values(|c: ConflictView| conflict_line(c))) == cs.map_values(
            |c: ConflictView| as_written(c),
        ),
    decreases cs.len(),
{
    if cs.len() > 0 {
        let front = cs.drop_last();
        assert forall|i: int| 0 <= i < front.len() implies writable(#[trigger] front[i]) by {
            assert(front[i] == cs[i]);
        }
        lemma_parse_written(front);
        assert(writable(cs.last()));
        lemma_line_round_trip(cs.last());
        assert(cs.map_values(|c: ConflictView| conflict_line(c)).drop_last() =~= front.map_values(
            |c: ConflictView| conflict_line(c),
        ));
        assert(cs.map_values(|c: ConflictView| as_written(c)) =~= front.map_values(
            |c: ConflictView| as_written(c),
        ).push(as_written(cs.last())));
    } else {
        assert(cs.map_values(|c: ConflictView| conflict_line(c)) =~= Seq::<Seq<char>>::empty());
        assert(cs.map_values(|c: ConflictView| as_written(c)) =~= Seq::<ConflictView>::empty());
    }
}

/// Reading `conflicts.tsv` back gives the conflicts written to it, each
/// text made a field (tabs, line breaks and `|` become spaces), for
/// conflicts without empty folder, name or sample.
pub proof fn lemma_tsv_round_trip(cs: Seq<ConflictView>)
    requires
        forall|i: int| 0 <= i < cs.len() ==> writable(#[trigger] cs[i]),
    ensures
        tsv_conflicts(tsv_text(cs)) == cs.map_values(|c: ConflictView| as_written(c)),
{
    let ls = cs.map_values(|c: ConflictView| conflict_line(c));
    assert forall|i: int| 0 <= i < ls.len() implies crate::text::plain_line(#[trigger] ls[i]) by {
        lemma_line_plain(cs[i]);
    }
    lemma_tsv_terminated(cs);
    crate::text::lemma_lines_terminated(ls);
    lemma_parse_written(cs);
}


// --- values several mods set differently ------------------------------------------------

/// Values named per file, at most.
pub const SAMPLES: usize = 3;

/// One mod's leaf values of a file: the mod's position (higher wins), and
/// each value's path with a hash of the value.
pub type SpecLeaves = (int, Seq<(Seq<char>, u64)>);

pub open spec fn sets_view(sets: Seq<(usize, Vec<(String, u64)>)>) -> Seq<SpecLeaves> {
    sets.map_values(
        |s: (usize, Vec<(String, u64)>)|
            (s.0 as int, s.1@.map_values(|l: (String, u64)| (l.0@, l.1))),
    )
}

/// The values one mod sets at `path`, as (mod, hash).
pub open spec fn leaves_at(index: int, leaves: Seq<(Seq<char>, u64)>, path: Seq<char>) -> Seq<(int, u64)>
    decreases leaves.len(),
{
    if leaves.len() == 0 {
        Seq::empty()
    } else {
        let front = leaves_at(index, leaves.drop_last(), path);
        if leaves.last().0 == path {
            front.push((index, leaves.last().1))
        } else {
            front
        }
    }
}

/// The values every mod sets at `path`, in order.
pub open spec fn values_at(sets: Seq<SpecLeaves>, path: Seq<char>) -> Seq<(int, u64)>
    decreases sets.len(),
{
    if sets.len() == 0 {
        Seq::empty()
    } else {
        values_at(sets.drop_last(), path) + leaves_at(sets.last().0, sets.last().1, path)
    }
}

/// The value that wins: the last one of the highest mod.
pub open spec fn winner(es: Seq<(int, u64)>) -> (int, u64)
    decreases es.len(),
{
    if es.len() <= 1 {
        es[0]
    } else {
        let w = winner(es.drop_last());
        if es.last().0 >= w.0 {
            es.last()
        } else {
            w
        }
    }
}

/// Each mod whose value differs from the winning one, with the winner.
pub open spec fn differing(es: Seq<(int, u64)>, w: (int, u64)) -> Seq<int>
    decreases es.len(),
{
    if es.len() == 0 {
        Seq::empty()
    } else {
        let front = differing(es.drop_last(), w);
        if es.last().1 != w.1 {
            front.push(es.last().0).push(w.0)
        } else {
            front
        }
    }
}

/// Whether `inner` names a value inside the node at `path`.
pub open spec fn is_inside(inner: Seq<char>, path: Seq<char>) -> bool {
    inner.len() > path.len() && inner.take(path.len() as int) == path && inner[path.len() as int] == '/'
}

/// The mods of `es`.
pub open spec fn owners(es: Seq<(int, u64)>) -> Seq<int> {
    es.map_values(|e: (int, u64)| e.0)
}

/// A mod setting a value inside a node that other mods set (replace or
/// remove) collides with all of them.
pub open spec fn inside_of(inner: Seq<(int, u64)>, es: Seq<(int, u64)>) -> Seq<int>
    decreases inner.len(),
{
    if inner.len() == 0 {
        Seq::empty()
    } else {
        let front = inside_of(inner.drop_last(), es);
        let index = inner.last().0;
        if exists|k: int| 0 <= k < es.len() && (#[trigger] es[k]).0 != index {
            front.push(index) + owners(es)
        } else {
            front
        }
    }
}

/// What the values inside the node at `path` (among the first `n` paths)
/// add to its collision.
pub open spec fn replaced(sets: Seq<SpecLeaves>, paths: Seq<Seq<char>>, path: Seq<char>, es: Seq<(int, u64)>, n: int) -> Seq<
    int,
>
    decreases n,
{
    if n <= 0 {
        Seq::empty()
    } else {
        let front = replaced(sets, paths, path, es, n - 1);
        if is_inside(paths[n - 1], path) {
            front + inside_of(values_at(sets, paths[n - 1]), es)
        } else {
            front
        }
    }
}

/// The mods that collide over the value at `path`.
pub open spec fn colliding(sets: Seq<SpecLeaves>, paths: Seq<Seq<char>>, path: Seq<char>) -> Seq<int> {
    let es = values_at(sets, path);
    differing(es, winner(es)) + replaced(sets, paths, path, es, paths.len() as int)
}

/// Whether at least two different mods are in `ms`.
pub open spec fn two_mods(ms: Seq<int>) -> bool {
    ms.len() > 0 && exists|k: int| 0 <= k < ms.len() && #[trigger] ms[k] != ms[0]
}

/// Every path of the values, in increasing order, each once (as a sorted
/// table gets them, inserted one by one).
pub open spec fn path_table(sets: Seq<SpecLeaves>) -> Seq<crate::merge_cache::SpecRedirect>
    decreases sets.len(),
{
    if sets.len() == 0 {
        Seq::empty()
    } else {
        table_with(path_table(sets.drop_last()), sets.last().1)
    }
}

pub open spec fn table_with(t: Seq<crate::merge_cache::SpecRedirect>, leaves: Seq<(Seq<char>, u64)>) -> Seq<
    crate::merge_cache::SpecRedirect,
>
    decreases leaves.len(),
{
    if leaves.len() == 0 {
        t
    } else {
        crate::merge_cache::insert_redirect(table_with(t, leaves.drop_last()), leaves.last().0, Seq::empty())
    }
}

pub open spec fn sorted_paths(sets: Seq<SpecLeaves>) -> Seq<Seq<char>> {
    path_table(sets).map_values(|e: crate::merge_cache::SpecRedirect| e.0)
}

/// The paths, among the first `n`, whose value mods collide over.
pub open spec fn collision_paths(sets: Seq<SpecLeaves>, paths: Seq<Seq<char>>, n: int) -> Seq<Seq<char>>
    decreases n,
{
    if n <= 0 {
        Seq::empty()
    } else {
        let front = collision_paths(sets, paths, n - 1);
        if two_mods(colliding(sets, paths, paths[n - 1])) {
            front.push(paths[n - 1])
        } else {
            front
        }
    }
}

/// The mods in a collision over one of the first `n` paths.
pub open spec fn involved(sets: Seq<SpecLeaves>, paths: Seq<Seq<char>>, n: int, m: int) -> bool
    decreases n,
{
    if n <= 0 {
        false
    } else {
        involved(sets, paths, n - 1, m) || (two_mods(colliding(sets, paths, paths[n - 1])) && colliding(
            sets,
            paths,
            paths[n - 1],
        ).contains(m))
    }
}


pub open spec fn hits_view(v: Seq<(usize, u64)>) -> Seq<(int, u64)> {
    v.map_values(|e: (usize, u64)| (e.0 as int, e.1))
}

pub open spec fn mods_view(v: Seq<usize>) -> Seq<int> {
    v.map_values(|m: usize| m as int)
}

fn values_at_of(sets: &Vec<(usize, Vec<(String, u64)>)>, path: &str) -> (r: Vec<(usize, u64)>)
    ensures
        hits_view(r@) == values_at(sets_view(sets@), path@),
{
    let ghost sv = sets_view(sets@);
    let mut r: Vec<(usize, u64)> = Vec::new();
    let mut i: usize = 0;
    assert(sv.take(0) =~= Seq::<SpecLeaves>::empty());
    assert(hits_view(r@) =~= Seq::<(int, u64)>::empty());
    while i < sets.len()
        invariant
            i <= sets.len(),
            sv == sets_view(sets@),
            hits_view(r@) == values_at(sv.take(i as int), path@),
        decreases sets.len() - i,
    {
        let index = sets[i].0;
        let leaves = &sets[i].1;
        let ghost lv = sv[i as int].1;
        let ghost before = hits_view(r@);
        assert(sv[i as int].0 == index as int);
        let mut j: usize = 0;
        assert(lv.take(0) =~= Seq::<(Seq<char>, u64)>::empty());
        assert(before + leaves_at(index as int, lv.take(0), path@) =~= before);
        while j < leaves.len()
            invariant
                j <= leaves.len(),
                leaves@ == sets@[i as int].1@,
                lv == leaves@.map_values(|l: (String, u64)| (l.0@, l.1)),
                hits_view(r@) == before + leaves_at(index as int, lv.take(j as int), path@),
            decreases leaves.len() - j,
        {
            assert(lv.take(j + 1).drop_last() =~= lv.take(j as int));
            assert(lv.take(j + 1).last() == (leaves@[j as int].0@, leaves@[j as int].1));
            if crate::text::str_eq(leaves[j].0.as_str(), path) {
                let ghost old_r = r@;
                r.push((index, leaves[j].1));
                assert(hits_view(r@) =~= hits_view(old_r).push((index as int, leaves@[j as int].1)));
            }
            j = j + 1;
        }
        assert(lv.take(j as int) =~= lv);
        assert(sv.take(i + 1).drop_last() =~= sv.take(i as int));
        assert(sv.take(i + 1).last() == sv[i as int]);
        i = i + 1;
    }
    assert(sv.take(i as int) =~= sv);
    r
}

fn winner_of(es: &Vec<(usize, u64)>) -> (w: (usize, u64))
    requires
        es@.len() > 0,
    ensures
        (w.0 as int, w.1) == winner(hits_view(es@)),
{
    let ghost ev = hits_view(es@);
    let mut w = es[0];
    let mut i: usize = 1;
    assert(ev.take(1).len() == 1);
    while i < es.len()
        invariant
            1 <= i <= es.len(),
            ev == hits_view(es@),
            (w.0 as int, w.1) == winner(ev.take(i as int)),
        decreases es.len() - i,
    {
        assert(ev.take(i + 1).drop_last() =~= ev.take(i as int));
        assert(ev.take(i + 1).last() == ev[i as int]);
        if es[i].0 >= w.0 {
            w = es[i];
        }
        i = i + 1;
    }
    assert(ev.take(i as int) =~= ev);
    w
}

fn differing_of(es: &Vec<(usize, u64)>, w: (usize, u64)) -> (r: Vec<usize>)
    ensures
        mods_view(r@) == differing(hits_view(es@), (w.0 as int, w.1)),
{
    let ghost ev = hits_view(es@);
    let mut r: Vec<usize> = Vec::new();
    let mut i: usize = 0;
    assert(ev.take(0) =~= Seq::<(int, u64)>::empty());
    assert(mods_view(r@) =~= Seq::<int>::empty());
    while i < es.len()
        invariant
            i <= es.len(),
            ev == hits_view(es@),
            mods_view(r@) == differing(ev.take(i as int), (w.0 as int, w.1)),
        decreases es.len() - i,
    {
        assert(ev.take(i + 1).drop_last() =~= ev.take(i as int));
        assert(ev.take(i + 1).last() == ev[i as int]);
        if es[i].1 != w.1 {
            let ghost old_r = r@;
            r.push(es[i].0);
            r.push(w.0);
            assert(mods_view(r@) =~= mods_view(old_r).push(es@[i as int].0 as int).push(w.0 as int));
        }
        i = i + 1;
    }
    assert(ev.take(i as int) =~= ev);
    r
}

fn is_inside_of(inner: &str, path: &str) -> (r: bool)
    ensures
        r == is_inside(inner@, path@),
{
    let a = crate::text::chars_of(inner);
    let b = crate::text::chars_of(path);
    if a.len() <= b.len() {
        return false;
    }
    let head = crate::text::slice_of(a.as_slice(), 0, b.len());
    assert(head@ =~= a@.take(b@.len() as int));
    crate::text::chars_eq(head.as_slice(), b.as_slice()) && a[b.len()] == '/'
}

fn other_owner(es: &Vec<(usize, u64)>, index: usize) -> (r: bool)
    ensures
        r == exists|k: int| 0 <= k < hits_view(es@).len() && (#[trigger] hits_view(es@)[k]).0 != index as int,
{
    let mut k: usize = 0;
    while k < es.len()
        invariant
            k <= es.len(),
            forall|l: int| 0 <= l < k ==> (#[trigger] hits_view(es@)[l]).0 == index as int,
        decreases es.len() - k,
    {
        if es[k].0 != index {
            assert(hits_view(es@)[k as int].0 != index as int);
            return true;
        }
        k = k + 1;
    }
    false
}

fn inside_of_exec(inner: &Vec<(usize, u64)>, es: &Vec<(usize, u64)>) -> (r: Vec<usize>)
    ensures
        mods_view(r@) == inside_of(hits_view(inner@), hits_view(es@)),
{
    let ghost iv = hits_view(inner@);
    let ghost ev = hits_view(es@);
    let mut r: Vec<usize> = Vec::new();
    let mut i: usize = 0;
    assert(iv.take(0) =~= Seq::<(int, u64)>::empty());
    assert(mods_view(r@) =~= Seq::<int>::empty());
    while i < inner.len()
        invariant
            i <= inner.len(),
            iv == hits_view(inner@),
            ev == hits_view(es@),
            mods_view(r@) == inside_of(iv.take(i as int), ev),
        decreases inner.len() - i,
    {
        assert(iv.take(i + 1).drop_last() =~= iv.take(i as int));
        assert(iv.take(i + 1).last() == iv[i as int]);
        let index = inner[i].0;
        if other_owner(es, index) {
            let ghost old_r = mods_view(r@);
            r.push(index);
            let mut k: usize = 0;
            while k < es.len()
                invariant
                    k <= es.len(),
                    ev == hits_view(es@),
                    mods_view(r@) == old_r.push(index as int) + owners(ev.take(k as int)),
                decreases es.len() - k,
            {
                let ghost before = r@;
                r.push(es[k].0);
                assert(owners(ev.take(k + 1)) =~= owners(ev.take(k as int)).push(es@[k as int].0 as int));
                assert(mods_view(r@) =~= mods_view(before).push(es@[k as int].0 as int));
                k = k + 1;
            }
            assert(ev.take(k as int) =~= ev);
        }
        i = i + 1;
    }
    assert(iv.take(i as int) =~= iv);
    r
}


/// Every path of the values, in increasing order, each once.
fn sorted_paths_of(sets: &Vec<(usize, Vec<(String, u64)>)>) -> (r: Vec<String>)
    ensures
        crate::tkcl::codec::strs(r@) == sorted_paths(sets_view(sets@)),
{
    let ghost sv = sets_view(sets@);
    let mut table = crate::merge_cache::Redirects::new();
    let mut i: usize = 0;
    assert(sv.take(0) =~= Seq::<SpecLeaves>::empty());
    while i < sets.len()
        invariant
            i <= sets.len(),
            sv == sets_view(sets@),
            table@ == path_table(sv.take(i as int)),
        decreases sets.len() - i,
    {
        let leaves = &sets[i].1;
        let ghost lv = sv[i as int].1;
        let ghost before = table@;
        let mut j: usize = 0;
        assert(lv.take(0) =~= Seq::<(Seq<char>, u64)>::empty());
        while j < leaves.len()
            invariant
                j <= leaves.len(),
                leaves@ == sets@[i as int].1@,
                lv == leaves@.map_values(|l: (String, u64)| (l.0@, l.1)),
                table@ == table_with(before, lv.take(j as int)),
            decreases leaves.len() - j,
        {
            assert(lv.take(j + 1).drop_last() =~= lv.take(j as int));
            assert(lv.take(j + 1).last().0 == leaves@[j as int].0@);
            let key = crate::text::copy_string(&leaves[j].0);
            let empty = String::new();
            proof {
                assert(empty@ =~= Seq::<char>::empty());
            }
            table.insert(key, empty);
            j = j + 1;
        }
        assert(lv.take(j as int) =~= lv);
        assert(sv.take(i + 1).drop_last() =~= sv.take(i as int));
        i = i + 1;
    }
    assert(sv.take(i as int) =~= sv);
    let ghost t = table@;
    let mut r: Vec<String> = Vec::new();
    let mut k: usize = 0;
    while k < table.len()
        invariant
            k <= table@.len(),
            t == table@,
            crate::tkcl::codec::strs(r@) == t.take(k as int).map_values(|e: crate::merge_cache::SpecRedirect| e.0),
        decreases table@.len() - k,
    {
        let (path, _) = table.entry(k);
        let ghost before = r@;
        r.push(crate::text::copy_string(path));
        assert(crate::tkcl::codec::strs(r@) =~= crate::tkcl::codec::strs(before).push(t[k as int].0));
        assert(t.take(k + 1).map_values(|e: crate::merge_cache::SpecRedirect| e.0) =~= t.take(
            k as int,
        ).map_values(|e: crate::merge_cache::SpecRedirect| e.0).push(t[k as int].0));
        k = k + 1;
    }
    assert(t.take(k as int) =~= t);
    r
}

/// The mods that collide over the value at `paths[i]`.
fn colliding_of(sets: &Vec<(usize, Vec<(String, u64)>)>, paths: &Vec<String>, i: usize) -> (r: Vec<usize>)
    requires
        i < paths@.len(),
    ensures
        mods_view(r@) == colliding(sets_view(sets@), crate::tkcl::codec::strs(paths@), paths@[i as int]@),
{
    let ghost sv = sets_view(sets@);
    let ghost pv = crate::tkcl::codec::strs(paths@);
    let path = paths[i].as_str();
    let es = values_at_of(sets, path);
    let ghost ev = hits_view(es@);
    let mut r = if es.len() == 0 {
        let none: Vec<usize> = Vec::new();
        assert(mods_view(none@) =~= Seq::<int>::empty());
        assert(ev =~= Seq::<(int, u64)>::empty());
        none
    } else {
        let w = winner_of(&es);
        differing_of(&es, w)
    };
    let ghost head = mods_view(r@);
    assert(head == differing(ev, winner(ev)));
    let mut j: usize = 0;
    assert(head + replaced(sv, pv, path@, ev, 0) =~= head);
    while j < paths.len()
        invariant
            j <= paths.len(),
            sv == sets_view(sets@),
            pv == crate::tkcl::codec::strs(paths@),
            ev == hits_view(es@),
            ev == values_at(sv, path@),
            path@ == paths@[i as int]@,
            mods_view(r@) == head + replaced(sv, pv, path@, ev, j as int),
        decreases paths.len() - j,
    {
        if is_inside_of(paths[j].as_str(), path) {
            let inner = values_at_of(sets, paths[j].as_str());
            let more = inside_of_exec(&inner, &es);
            let ghost before = mods_view(r@);
            let mut k: usize = 0;
            assert(mods_view(more@).take(0) =~= Seq::<int>::empty());
            assert(before + mods_view(more@).take(0) =~= before);
            while k < more.len()
                invariant
                    k <= more.len(),
                    mods_view(r@) == before + mods_view(more@).take(k as int),
                decreases more.len() - k,
            {
                let ghost old_r = r@;
                r.push(more[k]);
                assert(mods_view(more@).take(k + 1) =~= mods_view(more@).take(k as int).push(more@[k as int] as int));
                assert(mods_view(r@) =~= mods_view(old_r).push(more@[k as int] as int));
                k = k + 1;
            }
            assert(mods_view(more@).take(k as int) =~= mods_view(more@));
            assert(pv[j as int] == paths@[j as int]@);
        }
        j = j + 1;
    }
    r
}

fn two_mods_of(ms: &Vec<usize>) -> (r: bool)
    ensures
        r == two_mods(mods_view(ms@)),
{
    if ms.len() == 0 {
        return false;
    }
    let mut k: usize = 1;
    while k < ms.len()
        invariant
            1 <= k <= ms.len(),
            forall|l: int| 0 <= l < k ==> (#[trigger] mods_view(ms@)[l]) == mods_view(ms@)[0],
        decreases ms.len() - k,
    {
        if ms[k] != ms[0] {
            assert(mods_view(ms@)[k as int] != mods_view(ms@)[0]);
            return true;
        }
        k = k + 1;
    }
    false
}

/// Increasing, each once.
pub open spec fn increasing(v: Seq<usize>) -> bool {
    forall|a: int, b: int| 0 <= a < b < v.len() ==> v[a] < v[b]
}

proof fn lemma_push_contains(s: Seq<usize>, a: usize, x: usize)
    ensures
        s.push(a).contains(x) == (s.contains(x) || x == a),
{
    if s.contains(x) {
        let i = choose|i: int| 0 <= i < s.len() && s[i] == x;
        assert(s.push(a)[i] == x);
    }
    if x == a {
        assert(s.push(a)[s.len() as int] == a);
    }
    if s.push(a).contains(x) {
        let i = choose|i: int| 0 <= i < s.push(a).len() && s.push(a)[i] == x;
        if i < s.len() {
            assert(s[i] == x);
        }
    }
}

fn add_mod(v: &mut Vec<usize>, m: usize)
    requires
        increasing(old(v)@),
    ensures
        increasing(final(v)@),
        forall|x: usize| #[trigger] final(v)@.contains(x) == (old(v)@.contains(x) || x == m),
{
    let mut j: usize = 0;
    while j < v.len() && v[j] < m
        invariant
            j <= v@.len(),
            v@ == old(v)@,
            increasing(v@),
            forall|l: int| 0 <= l < j ==> (#[trigger] v@[l]) < m,
        decreases v.len() - j,
    {
        j = j + 1;
    }
    let ghost before = v@;
    assert(before == old(v)@);
    if j < v.len() && v[j] == m {
        assert(v@[j as int] == m);
        assert forall|x: usize| v@.contains(x) <==> (before.contains(x) || x == m) by {
            if x == m {
                assert(v@[j as int] == x);
            }
        }
        return;
    }
    v.insert(j, m);
    assert forall|a: int, b: int| 0 <= a < b < v@.len() implies v@[a] < v@[b] by {
        if b < j {
            assert(v@[a] == before[a] && v@[b] == before[b]);
        } else if b == j {
            assert(v@[a] == before[a]);
        } else if a < j {
            assert(v@[a] == before[a] && v@[b] == before[b - 1]);
            assert(before[j as int] > m);
            if b - 1 > j {
                assert(before[j as int] < before[b - 1]);
            }
        } else if a == j {
            assert(v@[b] == before[b - 1]);
            assert(before[j as int] > m);
            if b - 1 > j {
                assert(before[j as int] < before[b - 1]);
            }
        } else {
            assert(v@[a] == before[a - 1] && v@[b] == before[b - 1]);
        }
    }
    assert forall|x: usize| v@.contains(x) <==> (before.contains(x) || x == m) by {
        if v@.contains(x) {
            let k = choose|k: int| 0 <= k < v@.len() && v@[k] == x;
            if k < j {
                assert(before[k] == x);
            } else if k > j {
                assert(before[k - 1] == x);
            }
        }
        if before.contains(x) {
            let k = choose|k: int| 0 <= k < before.len() && before[k] == x;
            if k < j {
                assert(v@[k] == x);
            } else {
                assert(v@[k + 1] == x);
            }
        }
        if x == m {
            assert(v@[j as int] == m);
        }
    }
    assert(forall|x: usize| #[trigger] v@.contains(x) == (old(v)@.contains(x) || x == m));
}


pub open spec fn min_samples(n: int) -> int {
    if n < SAMPLES {
        n
    } else {
        SAMPLES as int
    }
}

/// How many values mods collide over, and the first few paths of them in
/// increasing order; `None` when they collide over none.
pub open spec fn collisions_spec(sets: Seq<SpecLeaves>) -> Option<(int, Seq<Seq<char>>)> {
    let paths = sorted_paths(sets);
    let c = collision_paths(sets, paths, paths.len() as int);
    if c.len() == 0 {
        None
    } else {
        Some((c.len() as int, c.take(min_samples(c.len() as int))))
    }
}

/// The values mods set differently: which mods, how many values, a few of
/// them. For each value (by path), the mod with the highest position wins;
/// every mod setting it to something else collides with the winner, and a
/// mod setting a value inside a node other mods set (replace or remove)
/// collides with all of them. `sets` holds each mod's position and its
/// values, each path with a hash of the value.
pub fn collisions(sets: &Vec<(usize, Vec<(String, u64)>)>) -> (r: Option<(Vec<usize>, usize, Vec<String>)>)
    ensures
        match r {
            None => collisions_spec(sets_view(sets@)) is None,
            Some((mods, count, samples)) => {
                &&& collisions_spec(sets_view(sets@)) == Some(
                    (count as int, crate::tkcl::codec::strs(samples@)),
                )
                &&& increasing(mods@)
                &&& forall|m: usize|
                    mods@.contains(m) <==> involved(
                        sets_view(sets@),
                        sorted_paths(sets_view(sets@)),
                        sorted_paths(sets_view(sets@)).len() as int,
                        m as int,
                    )
            },
        },
{
    let ghost sv = sets_view(sets@);
    let paths = sorted_paths_of(sets);
    let ghost pv = crate::tkcl::codec::strs(paths@);
    let mut involved_mods: Vec<usize> = Vec::new();
    let mut count: usize = 0;
    let mut samples: Vec<String> = Vec::new();
    let mut i: usize = 0;
    assert(crate::tkcl::codec::strs(samples@) =~= Seq::<Seq<char>>::empty());
    while i < paths.len()
        invariant
            i <= paths.len(),
            sv == sets_view(sets@),
            pv == crate::tkcl::codec::strs(paths@),
            pv == sorted_paths(sv),
            count as int == collision_paths(sv, pv, i as int).len(),
            count <= i,
            crate::tkcl::codec::strs(samples@) == collision_paths(sv, pv, i as int).take(
                min_samples(count as int),
            ),
            increasing(involved_mods@),
            forall|m: usize| involved_mods@.contains(m) <==> involved(sv, pv, i as int, m as int),
        decreases paths.len() - i,
    {
        let list = colliding_of(sets, &paths, i);
        assert(pv[i as int] == paths@[i as int]@);
        let ghost lv = mods_view(list@);
        let ghost before = collision_paths(sv, pv, i as int);
        if two_mods_of(&list) {
            let ghost old_samples = samples@;
            if samples.len() < SAMPLES {
                samples.push(crate::text::copy_string(&paths[i]));
                assert(crate::tkcl::codec::strs(samples@) =~= crate::tkcl::codec::strs(old_samples).push(
                    pv[i as int],
                ));
            }
            count = count + 1;
            assert(collision_paths(sv, pv, i + 1) == before.push(pv[i as int]));
            assert(crate::tkcl::codec::strs(samples@) =~= before.push(pv[i as int]).take(
                min_samples(count as int),
            ));
            let ghost start = involved_mods@;
            let mut k: usize = 0;
            while k < list.len()
                invariant
                    k <= list.len(),
                    increasing(involved_mods@),
                    forall|x: usize|
                        #![trigger involved_mods@.contains(x)]
                        involved_mods@.contains(x) <==> (start.contains(x) || list@.take(k as int).contains(x)),
                decreases list.len() - k,
            {
                let ghost prev = involved_mods@;
                add_mod(&mut involved_mods, list[k]);
                assert(list@.take(k + 1) =~= list@.take(k as int).push(list@[k as int]));
                assert forall|x: usize|
                    #![trigger involved_mods@.contains(x)]
                    involved_mods@.contains(x) <==> (start.contains(x) || list@.take(k + 1).contains(x)) by {
                    assert(involved_mods@.contains(x) == (prev.contains(x) || x == list@[k as int]));
                    lemma_push_contains(list@.take(k as int), list@[k as int], x);
                }
                k = k + 1;
            }
            assert(list@.take(k as int) =~= list@);
            assert(lv == colliding(sv, pv, pv[i as int]));
            assert(two_mods(lv));
            assert forall|m: usize| involved_mods@.contains(m) <==> involved(sv, pv, i + 1, m as int) by {
                assert(involved(sv, pv, i + 1, m as int) == (involved(sv, pv, i as int, m as int)
                    || lv.contains(m as int)));
                if list@.contains(m) {
                    let l = choose|l: int| 0 <= l < list@.len() && list@[l] == m;
                    assert(lv[l] == m as int);
                }
                if lv.contains(m as int) {
                    let l = choose|l: int| 0 <= l < lv.len() && lv[l] == m as int;
                    assert(list@[l] == m);
                }
            }
        } else {
            assert(collision_paths(sv, pv, i + 1) == before);
        }
        i = i + 1;
    }
    if count == 0 {
        None
    } else {
        Some((involved_mods, count, samples))
    }
}

/// The winning value is one of the values, set by the mod with the highest
/// position; of that mod's values, the last one.
pub proof fn lemma_winner(es: Seq<(int, u64)>)
    requires
        es.len() > 0,
    ensures
        exists|k: int| 0 <= k < es.len() && es[k] == winner(es) && forall|j: int| k < j < es.len() ==> #[trigger] es[j].0 < winner(es).0,
        forall|j: int| 0 <= j < es.len() ==> #[trigger] es[j].0 <= winner(es).0,
    decreases es.len(),
{
    if es.len() > 1 {
        let front = es.drop_last();
        lemma_winner(front);
        let w = winner(front);
        let k = choose|k: int| 0 <= k < front.len() && front[k] == w && forall|j: int| k < j < front.len() ==> #[trigger] front[j].0 < w.0;
        assert forall|j: int| 0 <= j < es.len() implies #[trigger] es[j].0 <= winner(es).0 by {
            if j < es.len() - 1 {
                assert(es[j] == front[j]);
            }
        }
        if es.last().0 >= w.0 {
            let last = es.len() - 1;
            assert(es[last] == winner(es));
        } else {
            assert(es[k] == winner(es));
            assert forall|j: int| k < j < es.len() implies #[trigger] es[j].0 < winner(es).0 by {
                if j < es.len() - 1 {
                    assert(es[j] == front[j]);
                }
            }
        }
    } else {
        assert(es[0] == winner(es));
    }
}

/// The mods whose value differs from the winning one, and the winner's mod
/// when there is such a mod: exactly those. A mod setting the winning value
/// is not among them (unless it is the winner's and another differs).
pub proof fn lemma_differing(es: Seq<(int, u64)>, w: (int, u64), m: int)
    ensures
        differing(es, w).contains(m) <==> exists|k: int| 0 <= k < es.len() && #[trigger] es[k].1 != w.1 && (es[k].0
            == m || w.0 == m),
    decreases es.len(),
{
    if es.len() > 0 {
        let front = es.drop_last();
        lemma_differing(front, w, m);
        let d = differing(es, w);
        let df = differing(front, w);
        if exists|k: int| 0 <= k < es.len() && #[trigger] es[k].1 != w.1 && (es[k].0 == m || w.0 == m) {
            let k = choose|k: int| 0 <= k < es.len() && #[trigger] es[k].1 != w.1 && (es[k].0 == m || w.0 == m);
            if k < es.len() - 1 {
                assert(front[k] == es[k]);
                assert(df.contains(m));
                let q = choose|q: int| 0 <= q < df.len() && df[q] == m;
                if es.last().1 != w.1 {
                    assert(d == df.push(es.last().0).push(w.0));
                    assert(d[q] == m);
                } else {
                    assert(d == df);
                }
            } else {
                assert(d == df.push(es.last().0).push(w.0));
                if es.last().0 == m {
                    assert(d[df.len() as int] == m);
                } else {
                    assert(d[df.len() as int + 1] == m);
                }
            }
        }
        if d.contains(m) {
            let q = choose|q: int| 0 <= q < d.len() && d[q] == m;
            if es.last().1 != w.1 {
                assert(d == df.push(es.last().0).push(w.0));
                if q < df.len() {
                    assert(df[q] == m);
                    let k = choose|k: int| 0 <= k < front.len() && #[trigger] front[k].1 != w.1 && (front[k].0 == m || w.0 == m);
                    assert(es[k] == front[k]);
                } else {
                    let last = es.len() - 1;
                    assert(es[last].1 != w.1 && (es[last].0 == m || w.0 == m));
                }
            } else {
                assert(d == df);
                assert(df[q] == m);
                let k = choose|k: int| 0 <= k < front.len() && #[trigger] front[k].1 != w.1 && (front[k].0 == m || w.0 == m);
                assert(es[k] == front[k]);
            }
        }
    }
}

/// At each path, the mods that collide over differing values: every mod
/// whose value differs from that of the highest mod, and the highest mod
/// with them; a mod setting the winning value collides over it only as the
/// winner.
pub proof fn lemma_value_collisions(sets: Seq<SpecLeaves>, path: Seq<char>, m: int)
    requires
        values_at(sets, path).len() > 0,
    ensures
        ({
            let es = values_at(sets, path);
            let w = winner(es);
            &&& forall|j: int| 0 <= j < es.len() ==> #[trigger] es[j].0 <= w.0
            &&& es.contains(w)
            &&& differing(es, w).contains(m) <==> exists|k: int| 0 <= k < es.len() && #[trigger] es[k].1 != w.1 && (
            es[k].0 == m || w.0 == m)
        }),
{
    let es = values_at(sets, path);
    lemma_winner(es);
    lemma_differing(es, winner(es), m);
}

/// The mods colliding over a replaced node: each mod setting a value inside
/// it, with every mod setting the node, whenever some of those is another
/// mod; no one else.
pub proof fn lemma_inside_of(inner: Seq<(int, u64)>, es: Seq<(int, u64)>, m: int)
    ensures
        inside_of(inner, es).contains(m) <==> exists|k: int| 0 <= k < inner.len() && (exists|j: int| 0 <= j < es.len() && (#[trigger] es[j]).0 != (#[trigger] inner[k]).0) && (inner[k].0 == m || owners(es).contains(m)),
    decreases inner.len(),
{
    if inner.len() > 0 {
        let front = inner.drop_last();
        lemma_inside_of(front, es, m);
        let r = inside_of(inner, es);
        let rf = inside_of(front, es);
        let index = inner.last().0;
        let last = inner.len() - 1;
        if exists|k: int| 0 <= k < es.len() && (#[trigger] es[k]).0 != index {
            assert(r == rf.push(index) + owners(es));
            assert(r.contains(m) <==> rf.contains(m) || m == index || owners(es).contains(m)) by {
                if r.contains(m) {
                    let q = choose|q: int| 0 <= q < r.len() && r[q] == m;
                    if q < rf.len() {
                        assert(rf[q] == m);
                    } else if q > rf.len() {
                        assert(owners(es)[q - rf.len() - 1] == m);
                    }
                }
                if rf.contains(m) {
                    let q = choose|q: int| 0 <= q < rf.len() && rf[q] == m;
                    assert(r[q] == m);
                }
                if m == index {
                    assert(r[rf.len() as int] == m);
                }
                if owners(es).contains(m) {
                    let q = choose|q: int| 0 <= q < owners(es).len() && owners(es)[q] == m;
                    assert(r[rf.len() + 1 + q] == m);
                }
            }
            let j0 = choose|j: int| 0 <= j < es.len() && (#[trigger] es[j]).0 != index;
            assert(es[j0].0 != inner[last].0);
            if r.contains(m) {
                if rf.contains(m) {
                    let k = choose|k: int| 0 <= k < front.len() && (exists|j: int| 0 <= j < es.len() && (#[trigger] es[j]).0 != (#[trigger] front[k]).0) && (front[k].0 == m || owners(es).contains(m));
                    assert(inner[k] == front[k]);
                }
            }
            if exists|k: int| 0 <= k < inner.len() && (exists|j: int| 0 <= j < es.len() && (#[trigger] es[j]).0 != (#[trigger] inner[k]).0) && (inner[k].0 == m || owners(es).contains(m)) {
                let k = choose|k: int| 0 <= k < inner.len() && (exists|j: int| 0 <= j < es.len() && (#[trigger] es[j]).0 != (#[trigger] inner[k]).0) && (inner[k].0 == m || owners(es).contains(m));
                if k < last {
                    assert(front[k] == inner[k]);
                }
            }
        } else {
            assert(r == rf);
            if exists|k: int| 0 <= k < inner.len() && (exists|j: int| 0 <= j < es.len() && (#[trigger] es[j]).0 != (#[trigger] inner[k]).0) && (inner[k].0 == m || owners(es).contains(m)) {
                let k = choose|k: int| 0 <= k < inner.len() && (exists|j: int| 0 <= j < es.len() && (#[trigger] es[j]).0 != (#[trigger] inner[k]).0) && (inner[k].0 == m || owners(es).contains(m));
                if k == last {
                    let j = choose|j: int| 0 <= j < es.len() && (#[trigger] es[j]).0 != (#[trigger] inner[k]).0;
                    assert(es[j].0 != index);
                } else {
                    assert(front[k] == inner[k]);
                }
            }
            if rf.contains(m) {
                let k = choose|k: int| 0 <= k < front.len() && (exists|j: int| 0 <= j < es.len() && (#[trigger] es[j]).0 != (#[trigger] front[k]).0) && (front[k].0 == m || owners(es).contains(m));
                assert(inner[k] == front[k]);
            }
        }
    }
}

} // verus!
