//! The description at the head of a `.tkcl` package: the mod's name, author,
//! changelog and option groups. Each changelog's files live in the package's
//! ZIP archive under a scope: "" for the mod's own, the option's ULID for an
//! option's; the changelogs read here carry that scope as their source.
use vstd::prelude::*;
use super::codec::{
    read_count, read_i32, read_string, read_u32, read_changelog, truncated,
};
use super::wire::{
    p_changelog, p_count, p_i32, p_list, p_many, p_string, p_u32, ChangelogView,
};
use super::package::{
    ModOption, OptionGroup, OptionGroupType, TkMod,
};
use super::{
    ulid_text, ulid_to_string,
};
use crate::text::{
    push_str, hex_upper_digits,
};

verus! {

/// "TKMP", little endian.
pub const PACKAGE_MAGIC: u32 = 0x504D_4B54;

/// The package format this reader knows.
pub const PACKAGE_VERSION: u32 = 0x20;

// --- the layout ----------------------------------------------------------------------------

/// Sixteen bytes (a ULID).
pub open spec fn p_ulid(d: Seq<u8>, p: int) -> Option<(Seq<u8>, int)> {
    if 0 <= p && p + 16 <= d.len() {
        Some((d.subrange(p, p + 16), p + 16))
    } else {
        None
    }
}

/// A byte, true unless zero.
pub open spec fn p_bool(d: Seq<u8>, p: int) -> Option<(bool, int)> {
    if 0 <= p && p < d.len() {
        Some((d[p] != 0, p + 1))
    } else {
        None
    }
}

/// An optional image: a flag, then its path when set.
pub open spec fn p_thumbnail(d: Seq<u8>, p: int) -> Option<(Option<Seq<char>>, int)> {
    match p_bool(d, p) {
        Some((true, q)) => match p_string(d, q) {
            Some((s, r)) => Some((Some(s), r)),
            None => None,
        },
        Some((false, q)) => Some((None, q)),
        None => None,
    }
}

/// A contributor: name and role, skipped.
pub open spec fn contributor_item() -> spec_fn(Seq<u8>, int) -> Option<((), int)> {
    |d: Seq<u8>, p: int|
        match p_string(d, p) {
            Some((_name, q)) => match p_string(d, q) {
                Some((_role, r)) => Some(((), r)),
                None => None,
            },
            None => None,
        }
}

/// A dependency: name and ULID, skipped.
pub open spec fn dependency_item() -> spec_fn(Seq<u8>, int) -> Option<((), int)> {
    |d: Seq<u8>, p: int|
        match p_string(d, p) {
            Some((_name, q)) => match p_ulid(d, q) {
                Some((_id, r)) => Some(((), r)),
                None => None,
            },
            None => None,
        }
}

/// A default option's index, as the reader keeps it (`i32 as usize`).
pub open spec fn default_item() -> spec_fn(Seq<u8>, int) -> Option<(usize, int)> {
    |d: Seq<u8>, p: int|
        match p_i32(d, p) {
            Some((v, q)) => Some((v as usize, q)),
            None => None,
        }
}

pub struct OptionView {
    pub id: Seq<u8>,
    pub name: Seq<char>,
    pub description: Seq<char>,
    pub changelog: ChangelogView,
    pub priority: i32,
}

/// One option of a group.
pub open spec fn p_option(d: Seq<u8>, p: int) -> Option<(OptionView, int)> {
    match p_ulid(d, p) {
        None => None,
        Some((id, p1)) => match p_string(d, p1) {
            None => None,
            Some((name, p2)) => match p_string(d, p2) {
                None => None,
                Some((description, p3)) => match p_thumbnail(d, p3) {
                    None => None,
                    Some((_thumbnail, p4)) => match p_changelog(d, p4) {
                        None => None,
                        Some((changelog, p5)) => match p_i32(d, p5) {
                            None => None,
                            Some((priority, p6)) => Some(
                                (OptionView { id, name, description, changelog, priority }, p6),
                            ),
                        },
                    },
                },
            },
        },
    }
}

pub open spec fn option_item() -> spec_fn(Seq<u8>, int) -> Option<(OptionView, int)> {
    |d: Seq<u8>, p: int| p_option(d, p)
}

/// A group's kind from its number; anything unknown is single and required.
pub open spec fn kind_of_number(v: i32) -> OptionGroupType {
    if v == 0 {
        OptionGroupType::Multi
    } else if v == 1 {
        OptionGroupType::MultiRequired
    } else if v == 2 {
        OptionGroupType::Single
    } else {
        OptionGroupType::SingleRequired
    }
}

pub struct GroupView {
    pub name: Seq<char>,
    pub description: Seq<char>,
    pub kind: OptionGroupType,
    pub priority: i32,
    pub options: Seq<OptionView>,
    pub default_selected: Seq<usize>,
}

/// One option group: name, description, image, kind, icon, priority, its
/// options, the indices of the default ones, its dependencies.
#[verifier::opaque]
pub open spec fn p_group(d: Seq<u8>, p: int) -> Option<(GroupView, int)> {
    match p_string(d, p) {
        None => None,
        Some((name, p1)) => match p_string(d, p1) {
            None => None,
            Some((description, p2)) => match p_thumbnail(d, p2) {
                None => None,
                Some((_thumbnail, p3)) => match p_i32(d, p3) {
                    None => None,
                    Some((kind, p4)) => match p_string(d, p4) {
                        None => None,
                        Some((_icon, p5)) => match p_i32(d, p5) {
                            None => None,
                            Some((priority, p6)) => match p_list(d, p6, option_item()) {
                                None => None,
                                Some((options, p7)) => match p_list(d, p7, default_item()) {
                                    None => None,
                                    Some((default_selected, p8)) => match p_list(
                                        d,
                                        p8,
                                        dependency_item(),
                                    ) {
                                        None => None,
                                        Some((_dependencies, p9)) => Some(
                                            (
                                                GroupView {
                                                    name,
                                                    description,
                                                    kind: kind_of_number(kind),
                                                    priority,
                                                    options,
                                                    default_selected,
                                                },
                                                p9,
                                            ),
                                        ),
                                    },
                                },
                            },
                        },
                    },
                },
            },
        },
    }
}

pub open spec fn group_item() -> spec_fn(Seq<u8>, int) -> Option<(GroupView, int)> {
    |d: Seq<u8>, p: int| p_group(d, p)
}

pub struct PackageView {
    pub id: Seq<u8>,
    pub name: Seq<char>,
    pub description: Seq<char>,
    pub version: Seq<char>,
    pub author: Seq<char>,
    pub thumbnail: Option<Seq<char>>,
    pub changelog: ChangelogView,
    pub groups: Seq<GroupView>,
}

/// What the head of a package describes, after its magic and version.
#[verifier::opaque]
pub open spec fn p_description(d: Seq<u8>, p: int) -> Option<PackageView> {
    match p_ulid(d, p) {
        None => None,
        Some((id, p1)) => match p_string(d, p1) {
            None => None,
            Some((name, p2)) => match p_string(d, p2) {
                None => None,
                Some((description, p3)) => match p_thumbnail(d, p3) {
                    None => None,
                    Some((thumbnail, p4)) => match p_changelog(d, p4) {
                        None => None,
                        Some((changelog, p5)) => match p_string(d, p5) {
                            None => None,
                            Some((version, p6)) => match p_string(d, p6) {
                                None => None,
                                Some((author, p7)) => match p_list(d, p7, contributor_item()) {
                                    None => None,
                                    Some((_contributors, p8)) => match p_list(d, p8, group_item()) {
                                        None => None,
                                        Some((groups, _p9)) => Some(
                                            PackageView {
                                                id,
                                                name,
                                                description,
                                                version,
                                                author,
                                                thumbnail,
                                                changelog,
                                                groups,
                                            },
                                        ),
                                    },
                                },
                            },
                        },
                    },
                },
            },
        },
    }
}

/// What a package's head describes: the magic, the format version this
/// reader knows, then the description.
pub open spec fn p_package(d: Seq<u8>) -> Option<PackageView> {
    match p_u32(d, 0) {
        Some((magic, p1)) => if magic != PACKAGE_MAGIC {
            None
        } else {
            match p_u32(d, p1) {
                Some((version, p2)) => if version != PACKAGE_VERSION {
                    None
                } else {
                    p_description(d, p2)
                },
                None => None,
            }
        },
        None => None,
    }
}

// --- views of what is read ------------------------------------------------------------------

pub open spec fn option_view<S>(o: ModOption<S>) -> OptionView {
    OptionView {
        id: o.id@,
        name: o.name@,
        description: o.description@,
        changelog: o.changelog@,
        priority: o.priority,
    }
}

pub open spec fn options_view<S>(v: Seq<ModOption<S>>) -> Seq<OptionView> {
    v.map_values(|o: ModOption<S>| option_view(o))
}

pub open spec fn group_view<S>(g: OptionGroup<S>) -> GroupView {
    GroupView {
        name: g.name@,
        description: g.description@,
        kind: g.kind,
        priority: g.priority,
        options: options_view(g.options@),
        default_selected: g.default_selected@,
    }
}

pub open spec fn package_groups_view<S>(v: Seq<OptionGroup<S>>) -> Seq<GroupView> {
    v.map_values(|g: OptionGroup<S>| group_view(g))
}

pub open spec fn package_view<S>(m: TkMod<S>) -> PackageView {
    PackageView {
        id: m.id@,
        name: m.name@,
        description: m.description@,
        version: m.version@,
        author: m.author@,
        thumbnail: match m.thumbnail {
            Some(t) => Some(t@),
            None => None,
        },
        changelog: m.changelog@,
        groups: package_groups_view(m.option_groups@),
    }
}

/// Each option's changelog is read from the option's scope: its ULID's text.
pub open spec fn scoped_options(v: Seq<ModOption<String>>) -> bool {
    forall|i: int| 0 <= i < v.len() ==> (#[trigger] v[i]).changelog.source@ == ulid_text(v[i].id@)
}

pub open spec fn scoped_groups(v: Seq<OptionGroup<String>>) -> bool {
    forall|i: int| 0 <= i < v.len() ==> scoped_options((#[trigger] v[i]).options@)
}

// --- reading ---------------------------------------------------------------------------

fn read_ulid(data: &[u8], pos: usize) -> (r: Result<([u8; 16], usize), String>)
    ensures
        match r {
            Ok((id, q)) => p_ulid(data@, pos as int) == Some((id@, q as int)),
            Err(_) => p_ulid(data@, pos as int) is None,
        },
{
    if pos > data.len() || data.len() - pos < 16 {
        return Err(truncated(pos));
    }
    let mut id = [0u8; 16];
    let mut i: usize = 0;
    while i < 16
        invariant
            i <= 16,
            pos + 16 <= data.len(),
            forall|k: int| 0 <= k < i ==> id@[k] == data@[pos + k],
        decreases 16 - i,
    {
        id[i] = data[pos + i];
        i = i + 1;
    }
    assert(id@ =~= data@.subrange(pos as int, pos + 16));
    Ok((id, pos + 16))
}

fn read_bool(data: &[u8], pos: usize) -> (r: Result<(bool, usize), String>)
    ensures
        match r {
            Ok((b, q)) => p_bool(data@, pos as int) == Some((b, q as int)),
            Err(_) => p_bool(data@, pos as int) is None,
        },
{
    if pos >= data.len() {
        return Err(truncated(pos));
    }
    Ok((data[pos] != 0, pos + 1))
}

fn read_thumbnail(data: &[u8], pos: usize) -> (r: Result<(Option<String>, usize), String>)
    ensures
        match r {
            Ok((t, q)) => p_thumbnail(data@, pos as int) == Some(
                (
                    match t {
                        Some(s) => Some(s@),
                        None => None,
                    },
                    q as int,
                ),
            ),
            Err(_) => p_thumbnail(data@, pos as int) is None,
        },
{
    let (set, q) = read_bool(data, pos)?;
    if set {
        let (s, r) = read_string(data, q)?;
        Ok((Some(s), r))
    } else {
        Ok((None, q))
    }
}

fn skip_contributors(data: &[u8], pos: usize) -> (r: Result<usize, String>)
    ensures
        match r {
            Ok(q) => p_list(data@, pos as int, contributor_item()) matches Some((_, e)) && e == q,
            Err(_) => p_list(data@, pos as int, contributor_item()) is None,
        },
{
    let (n, start) = read_count(data, pos)?;
    let ghost mut xs: Seq<()> = Seq::empty();
    let mut q = start;
    let mut k: usize = 0;
    while k < n
        invariant
            k <= n,
            p_count(data@, pos as int) == Some((n as nat, start as int)),
            p_many(data@, start as int, k as nat, contributor_item()) == Some((xs, q as int)),
        decreases n - k,
    {
        let step = match read_string(data, q) {
            Ok((_name, q1)) => read_string(data, q1),
            Err(e) => Err(e),
        };
        match step {
            Ok((_role, q2)) => {
                proof {
                    xs = xs.push(());
                }
                q = q2;
            },
            Err(e) => {
                proof {
                    super::codec::lemma_many_fails(
                        data@,
                        start as int,
                        (k + 1) as nat,
                        n as nat,
                        contributor_item(),
                    );
                }
                return Err(e);
            },
        }
        k = k + 1;
    }
    Ok(q)
}

fn skip_dependencies(data: &[u8], pos: usize) -> (r: Result<usize, String>)
    ensures
        match r {
            Ok(q) => p_list(data@, pos as int, dependency_item()) matches Some((_, e)) && e == q,
            Err(_) => p_list(data@, pos as int, dependency_item()) is None,
        },
{
    let (n, start) = read_count(data, pos)?;
    let ghost mut xs: Seq<()> = Seq::empty();
    let mut q = start;
    let mut k: usize = 0;
    while k < n
        invariant
            k <= n,
            p_count(data@, pos as int) == Some((n as nat, start as int)),
            p_many(data@, start as int, k as nat, dependency_item()) == Some((xs, q as int)),
        decreases n - k,
    {
        let step = match read_string(data, q) {
            Ok((_name, q1)) => match read_ulid(data, q1) {
                Ok((_id, q2)) => Ok(q2),
                Err(e) => Err(e),
            },
            Err(e) => Err(e),
        };
        match step {
            Ok(q2) => {
                proof {
                    xs = xs.push(());
                }
                q = q2;
            },
            Err(e) => {
                proof {
                    super::codec::lemma_many_fails(
                        data@,
                        start as int,
                        (k + 1) as nat,
                        n as nat,
                        dependency_item(),
                    );
                }
                return Err(e);
            },
        }
        k = k + 1;
    }
    Ok(q)
}

fn read_defaults(data: &[u8], pos: usize) -> (r: Result<(Vec<usize>, usize), String>)
    ensures
        match r {
            Ok((v, q)) => p_list(data@, pos as int, default_item()) == Some((v@, q as int)),
            Err(_) => p_list(data@, pos as int, default_item()) is None,
        },
{
    let (n, start) = read_count(data, pos)?;
    let mut v: Vec<usize> = Vec::new();
    let mut q = start;
    let mut k: usize = 0;
    while k < n
        invariant
            k <= n,
            p_count(data@, pos as int) == Some((n as nat, start as int)),
            p_many(data@, start as int, k as nat, default_item()) == Some((v@, q as int)),
        decreases n - k,
    {
        match read_i32(data, q) {
            Ok((x, q2)) => {
                v.push(x as usize);
                q = q2;
            },
            Err(e) => {
                proof {
                    super::codec::lemma_many_fails(
                        data@,
                        start as int,
                        (k + 1) as nat,
                        n as nat,
                        default_item(),
                    );
                }
                return Err(e);
            },
        }
        k = k + 1;
    }
    Ok((v, q))
}

fn read_option(data: &[u8], pos: usize) -> (r: Result<(ModOption<String>, usize), String>)
    ensures
        match r {
            Ok((o, q)) => p_option(data@, pos as int) == Some((option_view(o), q as int))
                && o.changelog.source@ == ulid_text(o.id@),
            Err(_) => p_option(data@, pos as int) is None,
        },
{
    let (id, p1) = read_ulid(data, pos)?;
    let (name, p2) = read_string(data, p1)?;
    let (description, p3) = read_string(data, p2)?;
    let (_thumbnail, p4) = read_thumbnail(data, p3)?;
    let scope = ulid_to_string(&id);
    let (changelog, p5) = read_changelog(data, p4, scope)?;
    let (priority, p6) = read_i32(data, p5)?;
    Ok((ModOption { id, name, description, changelog, priority }, p6))
}

fn read_options(data: &[u8], pos: usize) -> (r: Result<(Vec<ModOption<String>>, usize), String>)
    ensures
        match r {
            Ok((v, q)) => p_list(data@, pos as int, option_item()) == Some((options_view(v@), q as int))
                && scoped_options(v@),
            Err(_) => p_list(data@, pos as int, option_item()) is None,
        },
{
    let (n, start) = read_count(data, pos)?;
    let mut v: Vec<ModOption<String>> = Vec::new();
    let mut q = start;
    let mut k: usize = 0;
    while k < n
        invariant
            k <= n,
            p_count(data@, pos as int) == Some((n as nat, start as int)),
            p_many(data@, start as int, k as nat, option_item()) == Some((options_view(v@), q as int)),
            scoped_options(v@),
        decreases n - k,
    {
        match read_option(data, q) {
            Ok((x, q2)) => {
                let ghost before = v@;
                v.push(x);
                proof {
                    assert(options_view(v@) =~= options_view(before).push(option_view(x)));
                    assert(v@[v@.len() - 1] == x);
                }
                q = q2;
            },
            Err(e) => {
                proof {
                    super::codec::lemma_many_fails(
                        data@,
                        start as int,
                        (k + 1) as nat,
                        n as nat,
                        option_item(),
                    );
                }
                return Err(e);
            },
        }
        k = k + 1;
    }
    Ok((v, q))
}

fn group_kind(v: i32) -> (k: OptionGroupType)
    ensures
        k == kind_of_number(v),
{
    if v == 0 {
        OptionGroupType::Multi
    } else if v == 1 {
        OptionGroupType::MultiRequired
    } else if v == 2 {
        OptionGroupType::Single
    } else {
        OptionGroupType::SingleRequired
    }
}

fn read_group(data: &[u8], pos: usize) -> (r: Result<(OptionGroup<String>, usize), String>)
    ensures
        match r {
            Ok((g, q)) => p_group(data@, pos as int) == Some((group_view(g), q as int))
                && scoped_options(g.options@),
            Err(_) => p_group(data@, pos as int) is None,
        },
{
    proof {
        reveal(p_group);
    }
    let (name, p1) = read_string(data, pos)?;
    let (description, p2) = read_string(data, p1)?;
    let (_thumbnail, p3) = read_thumbnail(data, p2)?;
    let (kind, p4) = read_i32(data, p3)?;
    let (_icon, p5) = read_string(data, p4)?;
    let (priority, p6) = read_i32(data, p5)?;
    let (options, p7) = read_options(data, p6)?;
    let (default_selected, p8) = read_defaults(data, p7)?;
    let p9 = skip_dependencies(data, p8)?;
    Ok(
        (
            OptionGroup {
                name,
                description,
                kind: group_kind(kind),
                priority,
                options,
                default_selected,
            },
            p9,
        ),
    )
}

fn read_groups(data: &[u8], pos: usize) -> (r: Result<(Vec<OptionGroup<String>>, usize), String>)
    ensures
        match r {
            Ok((v, q)) => p_list(data@, pos as int, group_item()) == Some(
                (package_groups_view(v@), q as int),
            ) && scoped_groups(v@),
            Err(_) => p_list(data@, pos as int, group_item()) is None,
        },
{
    let (n, start) = read_count(data, pos)?;
    let mut v: Vec<OptionGroup<String>> = Vec::new();
    let mut q = start;
    let mut k: usize = 0;
    while k < n
        invariant
            k <= n,
            p_count(data@, pos as int) == Some((n as nat, start as int)),
            p_many(data@, start as int, k as nat, group_item()) == Some(
                (package_groups_view(v@), q as int),
            ),
            scoped_groups(v@),
        decreases n - k,
    {
        match read_group(data, q) {
            Ok((x, q2)) => {
                let ghost before = v@;
                v.push(x);
                proof {
                    assert(package_groups_view(v@) =~= package_groups_view(before).push(group_view(x)));
                    assert(v@[v@.len() - 1] == x);
                }
                q = q2;
            },
            Err(e) => {
                proof {
                    super::codec::lemma_many_fails(
                        data@,
                        start as int,
                        (k + 1) as nat,
                        n as nat,
                        group_item(),
                    );
                }
                return Err(e);
            },
        }
        k = k + 1;
    }
    Ok((v, q))
}

fn read_description(data: &[u8], pos: usize) -> (r: Result<TkMod<String>, String>)
    ensures
        match r {
            Ok(m) => p_description(data@, pos as int) == Some(package_view(m))
                && m.changelog.source@ == Seq::<char>::empty() && scoped_groups(m.option_groups@),
            Err(_) => p_description(data@, pos as int) is None,
        },
{
    proof {
        reveal(p_description);
    }
    let (id, p1) = read_ulid(data, pos)?;
    let (name, p2) = read_string(data, p1)?;
    let (description, p3) = read_string(data, p2)?;
    let (thumbnail, p4) = read_thumbnail(data, p3)?;
    let (changelog, p5) = read_changelog(data, p4, String::new())?;
    let (version, p6) = read_string(data, p5)?;
    let (author, p7) = read_string(data, p6)?;
    let p8 = skip_contributors(data, p7)?;
    let (option_groups, _p9) = read_groups(data, p8)?;
    Ok(TkMod { id, name, description, version, author, thumbnail, changelog, option_groups })
}

/// The error of a file that is not a package.
pub open spec fn not_a_package(label: Seq<char>) -> Seq<char> {
    label + " is not a TKMM mod package"@
}

/// The error of a package in a format this reader does not know.
pub open spec fn unsupported_format(label: Seq<char>, version: u32) -> Seq<char> {
    label + " was packaged by an unsupported TKMM version (format 0x"@ + hex_upper_digits(
        version as nat,
    ) + ")"@
}

/// The error reading `d` gives when it is not a package or one in another
/// format.
pub open spec fn package_error(d: Seq<u8>, label: Seq<char>, e: Seq<char>) -> bool {
    &&& match p_u32(d, 0) {
        Some((magic, _)) => magic != PACKAGE_MAGIC ==> e == not_a_package(label),
        None => true,
    }
    &&& match (p_u32(d, 0), p_u32(d, 4)) {
        (Some((magic, _)), Some((version, _))) => magic == PACKAGE_MAGIC && version
            != PACKAGE_VERSION ==> e == unsupported_format(label, version),
        _ => true,
    }
}

/// Reads the head of a package (`metadata`: the bytes before its ZIP
/// archive); `label` names it in errors. The mod's changelog gets the scope
/// "" as its source, each option's changelog its ULID's text.
pub fn read_package(metadata: &[u8], label: &str) -> (r: Result<TkMod<String>, String>)
    ensures
        match r {
            Ok(m) => p_package(metadata@) == Some(package_view(m)) && m.changelog.source@
                == Seq::<char>::empty() && scoped_groups(m.option_groups@),
            Err(e) => p_package(metadata@) is None && package_error(metadata@, label@, e@),
        },
{
    let (magic, p1) = read_u32(metadata, 0)?;
    if magic != PACKAGE_MAGIC {
        let mut e = crate::config::owned(label);
        push_str(&mut e, " is not a TKMM mod package");
        return Err(e);
    }
    let (version, p2) = read_u32(metadata, p1)?;
    if version != PACKAGE_VERSION {
        let mut e = crate::config::owned(label);
        push_str(&mut e, " was packaged by an unsupported TKMM version (format 0x");
        crate::text::push_hex_upper(&mut e, version as u64);
        push_str(&mut e, ")");
        return Err(e);
    }
    read_description(metadata, p2)
}

} // verus!
