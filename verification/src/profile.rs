//! Profiles: named mod lists, like TKMM's.
//!
//! `sd:/totk/profiles/<name>.ini` lists mods by folder name, the one that wins
//! conflicts first, each with whether it is enabled and which package options
//! it uses:
//!
//! ```ini
//! [mod]
//! folder = Weapons of Legend Redux
//! enabled = 1
//! option.Weapon Pack = Swords; Bows
//!
//! [mod]
//! folder = Even More Wonderful Capsules
//! enabled = 0
//! ```
//!
//! Mods installed but not listed are not merged. The active profile is the
//! `profile` setting of `config.ini`.

use vstd::prelude::*;

use crate::config::{
    options_of, owned, parse_options, Config,
};
use crate::ini::{
    self, escape, escape_spec, lookup, parse_bool_spec, parse_lines, parse_spec, Section,
    SpecEntry,
};
use crate::options::{
    sorted_groups, OptionMap, SpecGroup,
};
use crate::paths::{
    join, join_spec,
};
use crate::text::{
    chars_eq_ignore_case, chars_of, eq_ignore_case, is_control, is_control_char, join_strings,
    lower_seq, push_char, push_str, string_of, trim, trim_chars,
};
use vstd::utf8::encode_utf8;

verus! {

pub const OPTION_PREFIX: &'static str = "option.";

#[derive(Debug, Clone, PartialEq, Eq)]
pub struct ProfileMod {
    pub folder: String,
    pub enabled: bool,
    /// Option group → selected options; groups left out use the defaults.
    pub options: OptionMap,
}

/// A listed mod as values: folder, enabled, option selections.
pub type SpecProfileMod = (Seq<char>, bool, Seq<SpecGroup>);

impl View for ProfileMod {
    type V = SpecProfileMod;

    open spec fn view(&self) -> SpecProfileMod {
        (self.folder@, self.enabled, self.options@)
    }
}

#[derive(Debug, Clone, PartialEq, Eq)]
pub struct Profile {
    pub name: String,
    /// Highest priority first.
    pub mods: Vec<ProfileMod>,
}

pub open spec fn mods_view(mods: Seq<ProfileMod>) -> Seq<SpecProfileMod> {
    mods.map_values(|m: ProfileMod| m@)
}

impl View for Profile {
    type V = (Seq<char>, Seq<SpecProfileMod>);

    open spec fn view(&self) -> (Seq<char>, Seq<SpecProfileMod>) {
        (self.name@, mods_view(self.mods@))
    }
}

/// Whether `mods` lists `folder` (compared without case).
pub open spec fn lists_folder(mods: Seq<SpecProfileMod>, folder: Seq<char>) -> bool {
    exists|i: int| 0 <= i < mods.len() && eq_ignore_case(#[trigger] mods[i].0, folder)
}

/// The mods a profile file lists, after reading `sections`: each `[mod]`
/// section with a folder adds one, the first mention of a folder wins.
pub open spec fn profile_mods(sections: Seq<(Seq<char>, Seq<SpecEntry>)>) -> Seq<SpecProfileMod>
    decreases sections.len(),
{
    if sections.len() == 0 {
        Seq::empty()
    } else {
        let acc = profile_mods(sections.drop_last());
        let (name, entries) = sections.last();
        if name != "mod"@ {
            acc
        } else {
            match lookup(entries, "folder"@) {
                None => acc,
                Some(folder) => if folder.len() == 0 || lists_folder(acc, folder) {
                    acc
                } else {
                    acc.push(
                        (
                            folder,
                            match lookup(entries, "enabled"@) {
                                Some(v) => parse_bool_spec(v, true),
                                None => true,
                            },
                            options_of(entries, "option."@),
                        ),
                    )
                },
            }
        }
    }
}

/// The first line of a profile file.
pub open spec fn header_text(name: Seq<char>) -> Seq<char> {
    "# Profile '"@ + name + "' (totk-mod-manager)\n# Mods are listed by folder name; the first one wins conflicts.\n"@
}

/// `option.<group> = a; b` lines.
pub open spec fn option_lines(prefix: Seq<char>, groups: Seq<SpecGroup>) -> Seq<char>
    decreases groups.len(),
{
    if groups.len() == 0 {
        Seq::empty()
    } else {
        option_lines(prefix, groups.drop_last()) + prefix + groups.last().0 + " = "@ + escape_spec(
            crate::text::join(groups.last().1, "; "@),
        ) + "\n"@
    }
}

pub open spec fn mod_text(m: SpecProfileMod) -> Seq<char> {
    "\n[mod]\nfolder = "@ + escape_spec(m.0) + "\nenabled = "@ + (if m.1 {
        "1"@
    } else {
        "0"@
    }) + "\n"@ + option_lines("option."@, m.2)
}

pub open spec fn mods_text(mods: Seq<SpecProfileMod>) -> Seq<char>
    decreases mods.len(),
{
    if mods.len() == 0 {
        Seq::empty()
    } else {
        mods_text(mods.drop_last()) + mod_text(mods.last())
    }
}

/// The characters a profile or mod folder name cannot hold on a FAT32/exFAT
/// SD card.
pub open spec fn is_forbidden(c: char) -> bool {
    is_control(c) || c == '\\' || c == '/' || c == ':' || c == '*' || c == '?' || c == '"' || c
        == '<' || c == '>' || c == '|'
}

pub fn forbidden(c: char) -> (r: bool)
    ensures
        r == is_forbidden(c),
{
    is_control_char(c) || c == '\\' || c == '/' || c == ':' || c == '*' || c == '?' || c == '"'
        || c == '<' || c == '>' || c == '|'
}

/// Appends the `option.<group> = ...` lines of `options`.
pub fn push_option_lines(out: &mut String, prefix: &str, options: &OptionMap)
    ensures
        final(out)@ == old(out)@ + option_lines(prefix@, options@),
{
    let ghost start = out@;
    let mut i: usize = 0;
    while i < options.len()
        invariant
            i <= options@.len(),
            out@ == start + option_lines(prefix@, options@.take(i as int)),
        decreases options@.len() - i,
    {
        let (group, selected) = options.entry(i);
        let joined = join_strings(selected, "; ");
        let escaped = escape(joined.as_str());
        let ghost before = out@;
        push_str(out, prefix);
        push_str(out, group.as_str());
        push_str(out, " = ");
        push_str(out, escaped.as_str());
        push_char(out, '\n');
        proof {
            reveal_strlit("\n");
            assert(options@.take(i + 1).drop_last() =~= options@.take(i as int));
            assert(out@ =~= start + option_lines(prefix@, options@.take(i + 1)));
        }
        i = i + 1;
    }
    assert(options@.take(options@.len() as int) =~= options@);
}

impl Profile {
    pub fn new(name: &str) -> (p: Profile)
        ensures
            p@ == (name@, Seq::<SpecProfileMod>::empty()),
            p.mods@.len() == 0,
    {
        let p = Profile { name: owned(name), mods: Vec::new() };
        assert(mods_view(p.mods@) =~= Seq::<SpecProfileMod>::empty());
        p
    }

    /// Whether the listed mods hold `folder`, compared without case.
    pub fn has_folder(&self, folder: &[char]) -> (r: bool)
        ensures
            r == lists_folder(self@.1, folder@),
    {
        let mut i: usize = 0;
        while i < self.mods.len()
            invariant
                i <= self.mods.len(),
                forall|j: int| 0 <= j < i ==> !eq_ignore_case(#[trigger] self.mods@[j].folder@, folder@),
            decreases self.mods.len() - i,
        {
            let f = chars_of(self.mods[i].folder.as_str());
            if chars_eq_ignore_case(f.as_slice(), folder) {
                assert(self@.1[i as int].0 == self.mods@[i as int].folder@);
                return true;
            }
            i = i + 1;
        }
        assert forall|j: int| 0 <= j < self@.1.len() implies !eq_ignore_case(
            #[trigger] self@.1[j].0,
            folder@,
        ) by {
            assert(self@.1[j].0 == self.mods@[j].folder@);
        }
        false
    }

    pub fn parse(name: &str, contents: &str) -> (p: Profile)
        ensures
            p@ == (name@, profile_mods(parse_spec(contents@))),
            forall|i: int| 0 <= i < p.mods@.len() ==> (#[trigger] p.mods@[i]).options.wf(),
    {
        let mut profile = Profile::new(name);
        let sections = ini::parse(contents);
        let ghost ss = parse_spec(contents@);
        let mut i: usize = 0;
        while i < sections.len()
            invariant
                i <= sections.len(),
                sections@.map_values(|s: Section| s@) == ss,
                profile@ == (name@, profile_mods(ss.take(i as int))),
                forall|k: int| 0 <= k < profile.mods@.len() ==> (#[trigger] profile.mods@[k]).options.wf(),
            decreases sections.len() - i,
        {
            assert(ss.take(i + 1).drop_last() =~= ss.take(i as int));
            assert(ss.take(i + 1).last() == sections@[i as int]@);
            let section = &sections[i];
            let sname = chars_of(section.name.as_str());
            if crate::text::is_lit(sname.as_slice(), "mod") {
                match section.get("folder") {
                    None => {},
                    Some(folder) => {
                        let f = chars_of(folder);
                        if f.len() > 0 && !profile.has_folder(f.as_slice()) {
                            let enabled = section.get_bool("enabled", true);
                            let options = parse_options(&section.entries, OPTION_PREFIX);
                            let ghost before = profile@.1;
                            profile.mods.push(ProfileMod { folder: owned(folder), enabled, options });
                            assert(profile@.1 =~= before.push((folder@, enabled, options@)));
                        }
                    },
                }
            }
            i = i + 1;
        }
        assert(ss.take(sections.len() as int) =~= ss);
        profile
    }

    pub fn to_ini(&self) -> (r: String)
        ensures
            r@ == header_text(self.name@) + mods_text(self@.1),
    {
        let mut out = owned("# Profile '");
        push_str(&mut out, self.name.as_str());
        push_str(
            &mut out,
            "' (totk-mod-manager)\n# Mods are listed by folder name; the first one wins conflicts.\n",
        );
        let ghost head = out@;
        let mut i: usize = 0;
        while i < self.mods.len()
            invariant
                i <= self.mods.len(),
                head == header_text(self.name@),
                out@ == head + mods_text(self@.1.take(i as int)),
            decreases self.mods.len() - i,
        {
            let entry = &self.mods[i];
            let ghost before = out@;
            push_str(&mut out, "\n[mod]\nfolder = ");
            let escaped = escape(entry.folder.as_str());
            push_str(&mut out, escaped.as_str());
            push_str(&mut out, "\nenabled = ");
            push_str(
                &mut out,
                if entry.enabled {
                    "1"
                } else {
                    "0"
                },
            );
            push_str(&mut out, "\n");
            push_option_lines(&mut out, OPTION_PREFIX, &entry.options);
            proof {
                assert(self@.1.take(i + 1).drop_last() =~= self@.1.take(i as int));
                assert(self@.1[i as int] == entry@);
                assert(out@ =~= before + mod_text(entry@));
            }
            i = i + 1;
        }
        assert(self@.1.take(self.mods.len() as int) =~= self@.1);
        out
    }

    /// The listed mod in `folder`, compared without case.
    pub fn entry(&self, folder: &str) -> (r: Option<&ProfileMod>)
        ensures
            match r {
                Some(m) => exists|i: int|
                    0 <= i < self.mods@.len() && self.mods@[i] == *m && eq_ignore_case(
                        m.folder@,
                        folder@,
                    ) && forall|j: int|
                        0 <= j < i ==> !eq_ignore_case(#[trigger] self.mods@[j].folder@, folder@),
                None => !lists_folder(self@.1, folder@),
            },
    {
        let f = chars_of(folder);
        let mut i: usize = 0;
        while i < self.mods.len()
            invariant
                i <= self.mods.len(),
                f@ == folder@,
                forall|j: int| 0 <= j < i ==> !eq_ignore_case(#[trigger] self.mods@[j].folder@, folder@),
            decreases self.mods.len() - i,
        {
            let g = chars_of(self.mods[i].folder.as_str());
            if chars_eq_ignore_case(g.as_slice(), f.as_slice()) {
                return Some(&self.mods[i]);
            }
            i = i + 1;
        }
        assert forall|j: int| 0 <= j < self@.1.len() implies !eq_ignore_case(
            #[trigger] self@.1[j].0,
            folder@,
        ) by {
            assert(self@.1[j].0 == self.mods@[j].folder@);
        }
        None
    }
}

/// `<profiles_dir>/<name>.ini`.
pub fn file_path(config: &Config, name: &str) -> (r: String)
    ensures
        r@ == join_spec(config.profiles_dir@, name@ + ".ini"@),
{
    let mut file = owned(name);
    push_str(&mut file, ".ini");
    join(config.profiles_dir.as_str(), file.as_str())
}

/// Whether `name` can be a profile file name on a FAT32/exFAT SD card.
pub open spec fn valid_name(name: Seq<char>) -> bool {
    let t = trim(name);
    &&& t.len() > 0
    &&& t == name
    &&& (encode_utf8(name).len() as usize) <= 64
    &&& name.last() != '.'
    &&& forall|i: int| 0 <= i < name.len() ==> !is_forbidden(#[trigger] name[i])
}

/// Whether `name` can be a profile file name on a FAT32/exFAT SD card.
pub fn is_valid_name(name: &str) -> (r: bool)
    ensures
        r == valid_name(name@),
{
    let chars = chars_of(name);
    let t = trim_chars(chars.as_slice());
    if t.len() == 0 {
        return false;
    }
    if !crate::text::chars_eq(t.as_slice(), chars.as_slice()) {
        return false;
    }
    if name.len() > 64 {
        return false;
    }
    if chars[chars.len() - 1] == '.' {
        return false;
    }
    let mut i: usize = 0;
    while i < chars.len()
        invariant
            i <= chars.len(),
            chars@ == name@,
            trim(name@) == name@,
            name@.len() > 0,
            name@.last() != '.',
            (encode_utf8(name@).len() as usize) <= 64,
            forall|j: int| 0 <= j < i ==> !is_forbidden(#[trigger] name@[j]),
        decreases chars.len() - i,
    {
        if forbidden(chars[i]) {
            return false;
        }
        i = i + 1;
    }
    true
}

/// A profile file among a folder's entries: a file whose name ends with
/// `.ini` (any case) after at least one more byte.
pub open spec fn is_profile_file(e: crate::mods::DirEntry) -> bool {
    !e.is_dir && encode_utf8(e.name@).len() > 4 && crate::text::ends_with_ignore_case(e.name@, ".ini"@)
}

/// The profile names among a folder's entries, in their order: the profile
/// files' names without `.ini`.
pub open spec fn profile_names_spec(entries: Seq<crate::mods::DirEntry>) -> Seq<Seq<char>>
    decreases entries.len(),
{
    if entries.len() == 0 {
        Seq::empty()
    } else {
        let r = profile_names_spec(entries.drop_last());
        let e = entries.last();
        if is_profile_file(e) {
            r.push(e.name@.take(e.name@.len() - 4))
        } else {
            r
        }
    }
}

pub fn profile_names(entries: &Vec<crate::mods::DirEntry>) -> (r: Vec<String>)
    ensures
        crate::options::strings_view(r@) == profile_names_spec(entries@),
{
    let mut r: Vec<String> = Vec::new();
    let mut i: usize = 0;
    proof {
        reveal_strlit(".ini");
    }
    while i < entries.len()
        invariant
            i <= entries.len(),
            crate::options::strings_view(r@) == profile_names_spec(entries@.take(i as int)),
            ".ini"@.len() == 4,
        decreases entries.len() - i,
    {
        assert(entries@.take(i + 1).drop_last() =~= entries@.take(i as int));
        let e = &entries[i];
        let n = chars_of(e.name.as_str());
        let ext = chars_of(".ini");
        if !e.is_dir && e.name.as_str().as_bytes().len() > 4 && crate::text::has_suffix_ignore_case(
            n.as_slice(),
            ext.as_slice(),
        ) {
            let stem = string_of(crate::text::slice_of(n.as_slice(), 0, n.len() - 4).as_slice());
            let ghost before = crate::options::strings_view(r@);
            r.push(stem);
            assert(crate::options::strings_view(r@) =~= before.push(e.name@.take(e.name@.len() - 4)));
        }
        i = i + 1;
    }
    assert(entries@.take(entries.len() as int) =~= entries@);
    r
}

// --- reading back what was written --------------------------------------------------------

pub open spec fn bool_text(b: bool) -> Seq<char> {
    if b {
        "1"@
    } else {
        "0"@
    }
}

/// The two comment lines a profile file starts with.
pub open spec fn header_lines(name: Seq<char>) -> Seq<Seq<char>> {
    seq![
        "# Profile '"@ + name + "' (totk-mod-manager)"@,
        "# Mods are listed by folder name; the first one wins conflicts."@,
    ]
}

/// The `<prefix><group> = a; b` lines of option selections.
pub open spec fn group_lines(prefix: Seq<char>, groups: Seq<SpecGroup>) -> Seq<Seq<char>> {
    groups.map_values(
        |g: SpecGroup| crate::ini::entry_line(prefix + g.0, crate::text::join(g.1, "; "@)),
    )
}

/// The lines of one listed mod.
pub open spec fn mod_lines(m: SpecProfileMod) -> Seq<Seq<char>> {
    seq![
        Seq::<char>::empty(),
        "[mod]"@,
        crate::ini::entry_line("folder"@, m.0),
        crate::ini::entry_line("enabled"@, bool_text(m.1)),
    ] + group_lines("option."@, m.2)
}

pub open spec fn all_mod_lines(mods: Seq<SpecProfileMod>) -> Seq<Seq<char>>
    decreases mods.len(),
{
    if mods.len() == 0 {
        Seq::empty()
    } else {
        all_mod_lines(mods.drop_last()) + mod_lines(mods.last())
    }
}

/// The section a listed mod is read back as.
pub open spec fn section_of(m: SpecProfileMod) -> (Seq<char>, Seq<SpecEntry>) {
    (
        "mod"@,
        seq![("folder"@, m.0), ("enabled"@, bool_text(m.1))] + crate::config::options_of_entries(
            m.2,
        ),
    )
}

/// A listed mod its profile file keeps whole: a folder name on one line
/// without white space around it, option groups sorted, each named on one
/// line without `=` or white space around its name, its choices writable.
pub open spec fn writable_mod(m: SpecProfileMod) -> bool {
    &&& m.0.len() > 0
    &&& crate::ini::entry_value(m.0)
    &&& sorted_groups(m.2)
    &&& forall|i: int| 0 <= i < m.2.len() ==> writable_option_group(#[trigger] m.2[i])
}

pub open spec fn writable_option_group(g: SpecGroup) -> bool {
    &&& crate::config::writable_group(g)
    &&& crate::text::lacks(g.0, '=')
    &&& crate::text::lacks(g.0, '\n')
}

/// Mods a profile file keeps whole: each writable, no folder twice (ignoring
/// case).
pub open spec fn writable_mods(mods: Seq<SpecProfileMod>) -> bool {
    &&& forall|i: int| 0 <= i < mods.len() ==> writable_mod(#[trigger] mods[i])
    &&& forall|i: int, j: int|
        0 <= i < j < mods.len() ==> !eq_ignore_case(#[trigger] mods[i].0, #[trigger] mods[j].0)
}

proof fn lemma_terminated_push(ls: Seq<Seq<char>>, l: Seq<char>)
    ensures
        crate::text::terminated(ls.push(l)) == crate::text::terminated(ls) + l + seq!['\n'],
{
    assert(ls.push(l).drop_last() =~= ls);
}

/// Option selection lines are written each with its line break.
pub proof fn lemma_option_lines_text(prefix: Seq<char>, groups: Seq<SpecGroup>)
    ensures
        option_lines(prefix, groups) == crate::text::terminated(group_lines(prefix, groups)),
    decreases groups.len(),
{
    reveal_strlit("\n");
    reveal_strlit(" = ");
    if groups.len() == 0 {
        assert(group_lines(prefix, groups) =~= Seq::<Seq<char>>::empty());
    } else {
        lemma_option_lines_text(prefix, groups.drop_last());
        let g = groups.last();
        assert(group_lines(prefix, groups) =~= group_lines(prefix, groups.drop_last()).push(
            crate::ini::entry_line(prefix + g.0, crate::text::join(g.1, "; "@)),
        ));
        lemma_terminated_push(
            group_lines(prefix, groups.drop_last()),
            crate::ini::entry_line(prefix + g.0, crate::text::join(g.1, "; "@)),
        );
        assert(option_lines(prefix, groups) =~= crate::text::terminated(group_lines(prefix, groups)));
    }
}

proof fn lemma_bool_escaped(b: bool)
    ensures
        escape_spec(bool_text(b)) == bool_text(b),
        crate::ini::entry_value(bool_text(b)),
{
    reveal_strlit("1");
    reveal_strlit("0");
    let t = bool_text(b);
    assert(t.len() == 1);
    assert(t.skip(1) =~= Seq::<char>::empty());
    assert(crate::ini::crlf_to_lf(Seq::<char>::empty()) == Seq::<char>::empty());
    assert(crate::ini::crlf_to_lf(t) == seq![t[0]] + crate::ini::crlf_to_lf(t.skip(1)));
    assert(crate::ini::crlf_to_lf(t) =~= t);
    assert(t.drop_last() =~= Seq::<char>::empty());
    assert(crate::ini::escape_chars(Seq::<char>::empty()) == Seq::<char>::empty());
    assert(t.last() == t[0]);
    assert(crate::ini::escape_char(t[0]) == seq![t[0]]);
    assert(crate::ini::escape_chars(t) =~= t);
}

proof fn lemma_mod_text(m: SpecProfileMod)
    ensures
        mod_text(m) == crate::text::terminated(mod_lines(m)),
{
    reveal_strlit("\n[mod]\nfolder = ");
    reveal_strlit("\nenabled = ");
    reveal_strlit("\n");
    reveal_strlit("[mod]");
    reveal_strlit("folder");
    reveal_strlit("enabled");
    reveal_strlit(" = ");
    lemma_bool_escaped(m.1);
    lemma_option_lines_text("option."@, m.2);
    let first = seq![
        Seq::<char>::empty(),
        "[mod]"@,
        crate::ini::entry_line("folder"@, m.0),
        crate::ini::entry_line("enabled"@, bool_text(m.1)),
    ];
    crate::text::lemma_terminated_concat(first, group_lines("option."@, m.2));
    assert(first.drop_last().drop_last().drop_last().drop_last() =~= Seq::<Seq<char>>::empty());
    lemma_terminated_push(first.drop_last().drop_last().drop_last(), first[1]);
    lemma_terminated_push(first.drop_last().drop_last(), first[2]);
    lemma_terminated_push(first.drop_last(), first[3]);
    assert(first.drop_last().drop_last().drop_last() =~= seq![Seq::<char>::empty()]);
    assert(seq![Seq::<char>::empty()].drop_last() =~= Seq::<Seq<char>>::empty());
    assert(crate::text::terminated(Seq::<Seq<char>>::empty()) == Seq::<char>::empty());
    assert(crate::text::terminated(seq![Seq::<char>::empty()]) =~= seq!['\n']);
    assert(first.drop_last().drop_last().drop_last().push(first[1]) =~= first.drop_last().drop_last());
    assert(first.drop_last().drop_last().push(first[2]) =~= first.drop_last());
    assert(first.drop_last().push(first[3]) =~= first);
    assert(mod_text(m) =~= crate::text::terminated(first) + option_lines("option."@, m.2));
}

proof fn lemma_mods_text(mods: Seq<SpecProfileMod>)
    ensures
        mods_text(mods) == crate::text::terminated(all_mod_lines(mods)),
    decreases mods.len(),
{
    if mods.len() == 0 {
        assert(crate::text::terminated(Seq::<Seq<char>>::empty()) =~= Seq::<char>::empty());
    } else {
        lemma_mods_text(mods.drop_last());
        lemma_mod_text(mods.last());
        crate::text::lemma_terminated_concat(all_mod_lines(mods.drop_last()), mod_lines(mods.last()));
    }
}

proof fn lemma_header_text(name: Seq<char>)
    ensures
        header_text(name) == crate::text::terminated(header_lines(name)),
{
    reveal_strlit("# Profile '");
    reveal_strlit("' (totk-mod-manager)\n# Mods are listed by folder name; the first one wins conflicts.\n");
    reveal_strlit("' (totk-mod-manager)");
    reveal_strlit("# Mods are listed by folder name; the first one wins conflicts.");
    let h = header_lines(name);
    assert(h.drop_last().drop_last() =~= Seq::<Seq<char>>::empty());
    lemma_terminated_push(h.drop_last().drop_last(), h[0]);
    lemma_terminated_push(h.drop_last(), h[1]);
    assert(h.drop_last().drop_last().push(h[0]) =~= h.drop_last());
    assert(h.drop_last().push(h[1]) =~= h);
    assert(header_text(name) =~= crate::text::terminated(h));
}


proof fn lemma_group_line(g: SpecGroup)
    requires
        writable_option_group(g),
    ensures
        crate::ini::entry_key("option."@ + g.0),
        crate::ini::entry_value(crate::text::join(g.1, "; "@)),
{
    reveal_strlit("option.");
    reveal_strlit("; ");
    let key = "option."@ + g.0;
    assert(key[0] == 'o');
    assert(crate::config::writable_group(g));
    if g.0.len() > 0 {
        assert(key.last() == g.0.last());
    } else {
        assert(key.last() == '.');
    }
    assert forall|i: int| 0 <= i < key.len() implies key[i] != '=' && key[i] != '\n' by {
        if i >= 7 {
            assert(key[i] == g.0[i - 7]);
        }
    }
    crate::config::lemma_choices_value(g.1);
}

proof fn lemma_parse_groups(ls: Seq<Seq<char>>, groups: Seq<SpecGroup>)
    requires
        forall|i: int| 0 <= i < groups.len() ==> writable_option_group(#[trigger] groups[i]),
    ensures
        parse_lines(ls + group_lines("option."@, groups)) == crate::ini::with_entries(
            parse_lines(ls),
            crate::config::options_of_entries(groups),
        ),
        forall|i: int|
            0 <= i < groups.len() ==> crate::text::plain_line(
                #[trigger] group_lines("option."@, groups)[i],
            ),
{
    let es = crate::config::options_of_entries(groups);
    assert(crate::ini::writable_entries(es)) by {
        assert forall|i: int| 0 <= i < es.len() implies crate::ini::entry_key(#[trigger] es[i].0)
            && crate::ini::entry_value(es[i].1) by {
            lemma_group_line(groups[i]);
        }
    }
    assert(group_lines("option."@, groups) =~= crate::ini::entry_lines(es));
    crate::ini::lemma_parse_entries(ls, es);
}

proof fn lemma_parse_mod(ls: Seq<Seq<char>>, m: SpecProfileMod)
    requires
        writable_mod(m),
    ensures
        parse_lines(ls + mod_lines(m)) == parse_lines(ls).push(section_of(m)),
        forall|i: int| 0 <= i < mod_lines(m).len() ==> crate::text::plain_line(#[trigger] mod_lines(m)[i]),
{
    reveal_strlit("[mod]");
    reveal_strlit("mod");
    reveal_strlit("folder");
    reveal_strlit("enabled");
    let a = ls.push(Seq::<char>::empty());
    crate::ini::lemma_skipped_line(ls, Seq::<char>::empty());
    assert("[mod]"@ =~= seq!['['] + "mod"@ + seq![']']);
    assert(lower_seq("mod"@) =~= "mod"@);
    crate::ini::lemma_header_line(a, "mod"@);
    let b = a.push("[mod]"@);
    let fl = crate::ini::entry_line("folder"@, m.0);
    let el = crate::ini::entry_line("enabled"@, bool_text(m.1));
    lemma_bool_escaped(m.1);
    crate::ini::lemma_entry_line(b, "folder"@, m.0);
    let c = b.push(fl);
    crate::ini::lemma_entry_line(c, "enabled"@, bool_text(m.1));
    let d = c.push(el);
    lemma_parse_groups(d, m.2);
    assert(ls + mod_lines(m) =~= d + group_lines("option."@, m.2));
    let p = parse_lines(ls);
    let after_header = p.push(("mod"@, Seq::<SpecEntry>::empty()));
    assert(parse_lines(b) == after_header);
    let after_folder = crate::ini::with_entry(after_header, "folder"@, m.0);
    assert(after_folder =~= p.push(("mod"@, seq![("folder"@, m.0)])));
    let after_enabled = crate::ini::with_entry(after_folder, "enabled"@, bool_text(m.1));
    assert(after_folder.last() == ("mod"@, seq![("folder"@, m.0)]));
    assert(after_folder.len() == p.len() + 1);
    assert(seq![("folder"@, m.0)].push(("enabled"@, bool_text(m.1))) =~= seq![
        ("folder"@, m.0),
        ("enabled"@, bool_text(m.1)),
    ]);
    assert(after_enabled =~= p.push(("mod"@, seq![("folder"@, m.0), ("enabled"@, bool_text(m.1))])));
    assert(crate::ini::with_entries(after_enabled, crate::config::options_of_entries(m.2)) =~= p.push(section_of(m)));
    let ml = mod_lines(m);
    assert forall|i: int| 0 <= i < ml.len() implies crate::text::plain_line(#[trigger] ml[i]) by {
        if i >= 4 {
            assert(ml[i] == group_lines("option."@, m.2)[i - 4]);
        } else if i == 0 {
            assert(ml[0] =~= Seq::<char>::empty());
        } else if i == 1 {
            assert(ml[1] == seq!['['] + "mod"@ + seq![']']);
        }
    }
}


/// The sections a profile file's listed mods are read back as, after the
/// unnamed section its header comments leave empty.
pub open spec fn sections_of(mods: Seq<SpecProfileMod>) -> Seq<(Seq<char>, Seq<SpecEntry>)> {
    seq![(Seq::<char>::empty(), Seq::<SpecEntry>::empty())] + mods.map_values(
        |m: SpecProfileMod| section_of(m),
    )
}

proof fn lemma_header_lines(name: Seq<char>)
    requires
        crate::text::lacks(name, '\n'),
    ensures
        parse_lines(header_lines(name)) == seq![(Seq::<char>::empty(), Seq::<SpecEntry>::empty())],
        forall|i: int| 0 <= i < 2 ==> crate::text::plain_line(#[trigger] header_lines(name)[i]),
        header_lines(name).len() == 2,
{
    reveal_strlit("# Profile '");
    reveal_strlit("' (totk-mod-manager)");
    reveal_strlit("# Mods are listed by folder name; the first one wins conflicts.");
    let h = header_lines(name);
    let h0 = h[0];
    let h1 = h[1];
    let start = "# Profile '"@;
    let end = "' (totk-mod-manager)"@;
    assert(h0 == start + name + end);
    assert(h0[0] == '#');
    assert(h1[0] == '#');
    let empty = Seq::<Seq<char>>::empty();
    crate::ini::lemma_skipped_line(empty, h0);
    crate::ini::lemma_skipped_line(empty.push(h0), h1);
    assert(empty.push(h0).push(h1) =~= h);
    assert(parse_lines(empty) == seq![(Seq::<char>::empty(), Seq::<SpecEntry>::empty())]);
    assert forall|k: int| 0 <= k < h0.len() implies h0[k] != '\n' by {
        if k < start.len() {
            assert(h0[k] == start[k]);
        } else if k < start.len() + name.len() {
            assert(h0[k] == name[k - start.len()]);
        } else {
            assert(h0[k] == end[k - start.len() - name.len()]);
        }
    }
    assert(h0.last() == end.last());
    assert(crate::text::plain_line(h0));
    assert(crate::text::plain_line(h1));
}

proof fn lemma_parse_all(name: Seq<char>, mods: Seq<SpecProfileMod>)
    requires
        crate::text::lacks(name, '\n'),
        forall|i: int| 0 <= i < mods.len() ==> writable_mod(#[trigger] mods[i]),
    ensures
        parse_lines(header_lines(name) + all_mod_lines(mods)) == sections_of(mods),
        forall|i: int|
            0 <= i < (header_lines(name) + all_mod_lines(mods)).len() ==> crate::text::plain_line(
                #[trigger] (header_lines(name) + all_mod_lines(mods))[i],
            ),
    decreases mods.len(),
{
    lemma_header_lines(name);
    let h = header_lines(name);
    if mods.len() == 0 {
        assert(all_mod_lines(mods) =~= Seq::<Seq<char>>::empty());
        assert(h + all_mod_lines(mods) =~= h);
        assert(sections_of(mods) =~= seq![(Seq::<char>::empty(), Seq::<SpecEntry>::empty())]);
    } else {
        let front = mods.drop_last();
        let m = mods.last();
        assert forall|i: int| 0 <= i < front.len() implies writable_mod(#[trigger] front[i]) by {
            assert(front[i] == mods[i]);
        }
        lemma_parse_all(name, front);
        let before = h + all_mod_lines(front);
        lemma_parse_mod(before, m);
        assert(h + all_mod_lines(mods) =~= before + mod_lines(m));
        assert(sections_of(mods) =~= sections_of(front).push(section_of(m)));
        let all = h + all_mod_lines(mods);
        assert forall|i: int| 0 <= i < all.len() implies crate::text::plain_line(#[trigger] all[i]) by {
            if i < before.len() {
                assert(all[i] == before[i]);
            } else {
                assert(all[i] == mod_lines(m)[i - before.len()]);
            }
        }
    }
}

proof fn lemma_section_read(m: SpecProfileMod)
    requires
        writable_mod(m),
    ensures
        lookup(section_of(m).1, "folder"@) == Some(m.0),
        lookup(section_of(m).1, "enabled"@) == Some(bool_text(m.1)),
        parse_bool_spec(bool_text(m.1), true) == m.1,
        options_of(section_of(m).1, "option."@) == m.2,
{
    reveal_strlit("folder");
    reveal_strlit("enabled");
    reveal_strlit("option.");
    reveal_strlit("1");
    reveal_strlit("0");
    let head = seq![("folder"@, m.0), ("enabled"@, bool_text(m.1))];
    let es = section_of(m).1;
    assert(es == head + crate::config::options_of_entries(m.2));
    assert(es[0] == ("folder"@, m.0));
    assert(es[1] == ("enabled"@, bool_text(m.1)));
    assert(eq_ignore_case("folder"@, "folder"@));
    assert(lower_seq("folder"@).len() != lower_seq("enabled"@).len());
    assert(es.skip(1)[0] == es[1]);
    assert(eq_ignore_case("enabled"@, "enabled"@));
    assert(!eq_ignore_case(es[0].0, "enabled"@));
    assert(lookup(es.skip(1), "enabled"@) == Some(bool_text(m.1)));
    // the boolean reads back
    let t = bool_text(m.1);
    assert(trim(t) == t) by {
        lemma_bool_escaped(m.1);
        crate::text::lemma_trim_trimmed(t);
    }
    assert(lower_seq(t) =~= t);
    reveal_strlit("true");
    reveal_strlit("yes");
    reveal_strlit("on");
    if m.1 {
        assert(t =~= "1"@);
        assert(crate::ini::bool_word(t) == Some(true));
    } else {
        assert(t =~= "0"@);
        assert(t != "1"@) by {
            assert(t[0] != "1"@[0]);
        }
        assert(t != "true"@);
        assert(t != "yes"@);
        assert(t != "on"@);
        assert(crate::ini::bool_word(t) == Some(false));
    }
    // neither key names an option
    let h1 = seq![("folder"@, m.0)];
    assert(head.drop_last() =~= h1);
    assert(h1.drop_last() =~= Seq::<SpecEntry>::empty());
    assert(!crate::config::has_prefix_ignore_case("folder"@, "option."@));
    assert(crate::text::lower("enabled"@.take(7)[0]) != crate::text::lower("option."@[0]));
    assert(lower_seq("enabled"@.take(7))[0] != lower_seq("option."@)[0]);
    assert(!crate::config::has_prefix_ignore_case("enabled"@, "option."@));
    assert(options_of(Seq::<SpecEntry>::empty(), "option."@) == Seq::<SpecGroup>::empty());
    assert(options_of(h1, "option."@) == Seq::<SpecGroup>::empty());
    assert(options_of(head, "option."@) == Seq::<SpecGroup>::empty());
    assert forall|i: int| 0 <= i < m.2.len() implies crate::config::writable_group(#[trigger] m.2[i]) by {
        assert(writable_option_group(m.2[i]));
    }
    crate::config::lemma_options_written(head, "option."@, m.2);
}

proof fn lemma_read_mods(mods: Seq<SpecProfileMod>)
    requires
        writable_mods(mods),
    ensures
        profile_mods(sections_of(mods)) == mods,
    decreases mods.len(),
{
    reveal_strlit("mod");
    if mods.len() == 0 {
        let ss = sections_of(mods);
        assert(ss =~= seq![(Seq::<char>::empty(), Seq::<SpecEntry>::empty())]);
        assert(ss.drop_last() =~= Seq::<(Seq<char>, Seq<SpecEntry>)>::empty());
        assert(ss.last().0 != "mod"@) by {
            assert(ss.last().0.len() == 0);
        }
        assert(profile_mods(ss.drop_last()) == Seq::<SpecProfileMod>::empty());
        assert(profile_mods(ss) == Seq::<SpecProfileMod>::empty());
        assert(mods =~= Seq::<SpecProfileMod>::empty());
    } else {
        let front = mods.drop_last();
        let m = mods.last();
        assert(writable_mods(front)) by {
            assert forall|i: int| 0 <= i < front.len() implies writable_mod(#[trigger] front[i]) by {
                assert(front[i] == mods[i]);
            }
            assert forall|i: int, j: int| 0 <= i < j < front.len() implies !eq_ignore_case(
                #[trigger] front[i].0,
                #[trigger] front[j].0,
            ) by {
                assert(front[i] == mods[i]);
                assert(front[j] == mods[j]);
            }
        }
        lemma_read_mods(front);
        assert(writable_mod(mods[mods.len() - 1]));
        lemma_section_read(m);
        let ss = sections_of(mods);
        assert(ss.drop_last() =~= sections_of(front));
        assert(ss.last() == section_of(m));
        assert(!lists_folder(front, m.0)) by {
            if lists_folder(front, m.0) {
                let i = choose|i: int| 0 <= i < front.len() && eq_ignore_case(#[trigger] front[i].0, m.0);
                assert(front[i] == mods[i]);
                assert(!eq_ignore_case(mods[i].0, mods[mods.len() - 1].0));
            }
        }
        let entries = section_of(m).1;
        assert(ss.last().0 == "mod"@);
        assert(profile_mods(ss) == front.push(
            (
                m.0,
                match lookup(entries, "enabled"@) {
                    Some(v) => parse_bool_spec(v, true),
                    None => true,
                },
                options_of(entries, "option."@),
            ),
        ));
        assert(front.push(m) =~= mods);
        assert(profile_mods(ss) == front.push(m));
    }
}

/// A profile file read back gives the mods it was written with: reading
/// the text `to_ini` writes for a profile whose name is on one line, and
/// whose mods are each writable and each listed once, lists those mods, in
/// order, with their enabled flags and option selections.
pub proof fn lemma_profile_round_trip(name: Seq<char>, mods: Seq<SpecProfileMod>)
    requires
        crate::text::lacks(name, '\n'),
        writable_mods(mods),
    ensures
        profile_mods(parse_spec(header_text(name) + mods_text(mods))) == mods,
{
    lemma_header_text(name);
    lemma_mods_text(mods);
    let ls = header_lines(name) + all_mod_lines(mods);
    crate::text::lemma_terminated_concat(header_lines(name), all_mod_lines(mods));
    assert forall|i: int| 0 <= i < mods.len() implies writable_mod(#[trigger] mods[i]) by {}
    lemma_parse_all(name, mods);
    crate::text::lemma_lines_terminated(ls);
    lemma_read_mods(mods);
}

} // verus!
