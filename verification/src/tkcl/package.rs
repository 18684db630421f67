//! What a package holds besides its files: its description and option groups,
//! and which changelogs a selection of options brings in.
use vstd::prelude::*;
use super::Changelog;
use crate::options::{OptionMap, SpecGroup, strings_view};
use crate::text::{chars_eq_ignore_case, chars_of, eq_ignore_case};

verus! {

#[derive(Debug, Clone, Copy, PartialEq, Eq, Structural)]
pub enum OptionGroupType {
    Multi,
    MultiRequired,
    Single,
    SingleRequired,
}

pub open spec fn is_single(kind: OptionGroupType) -> bool {
    kind == OptionGroupType::Single || kind == OptionGroupType::SingleRequired
}

pub open spec fn is_required(kind: OptionGroupType) -> bool {
    kind == OptionGroupType::SingleRequired || kind == OptionGroupType::MultiRequired
}

pub struct ModOption<S> {
    pub id: [u8; 16],
    pub name: String,
    pub description: String,
    pub changelog: Changelog<S>,
    pub priority: i32,
}

pub struct OptionGroup<S> {
    pub name: String,
    pub description: String,
    pub kind: OptionGroupType,
    pub priority: i32,
    pub options: Vec<ModOption<S>>,
    pub default_selected: Vec<usize>,
}

pub struct TkMod<S> {
    pub id: [u8; 16],
    pub name: String,
    pub description: String,
    pub version: String,
    pub author: String,
    /// Path of the mod's image inside the package ("img/<ULID>"), if any.
    pub thumbnail: Option<String>,
    pub changelog: Changelog<S>,
    pub option_groups: Vec<OptionGroup<S>>,
}

/// What choosing options looks at in a group.
pub struct GroupSpec {
    pub name: Seq<char>,
    pub kind: OptionGroupType,
    pub option_names: Seq<Seq<char>>,
    pub option_priorities: Seq<i32>,
    pub default_selected: Seq<usize>,
}

pub open spec fn group_spec<S>(g: OptionGroup<S>) -> GroupSpec {
    GroupSpec {
        name: g.name@,
        kind: g.kind,
        option_names: g.options@.map_values(|o: ModOption<S>| o.name@),
        option_priorities: g.options@.map_values(|o: ModOption<S>| o.priority),
        default_selected: g.default_selected@,
    }
}

pub open spec fn groups_spec<S>(groups: Seq<OptionGroup<S>>) -> Seq<GroupSpec> {
    groups.map_values(|g: OptionGroup<S>| group_spec(g))
}

/// The selection of the first group in `sel` whose name matches `name`
/// ignoring ASCII case.
pub open spec fn find_selection(sel: Seq<SpecGroup>, name: Seq<char>) -> Option<Seq<Seq<char>>>
    decreases sel.len(),
{
    if sel.len() == 0 {
        None
    } else if eq_ignore_case(sel[0].0, name) {
        Some(sel[0].1)
    } else {
        find_selection(sel.skip(1), name)
    }
}

pub open spec fn named_in(names: Seq<Seq<char>>, n: Seq<char>) -> bool {
    exists|j: int| 0 <= j < names.len() && eq_ignore_case(#[trigger] names[j], n)
}

/// The options, in order, whose name is among `names` (ignoring ASCII case).
pub open spec fn options_named(opts: Seq<Seq<char>>, names: Seq<Seq<char>>) -> Seq<int>
    decreases opts.len(),
{
    if opts.len() == 0 {
        Seq::empty()
    } else {
        let r = options_named(opts.drop_last(), names);
        if named_in(names, opts.last()) {
            r.push(opts.len() - 1)
        } else {
            r
        }
    }
}

/// The default options that exist, in the package's order.
pub open spec fn defaults_present(defaults: Seq<usize>, count: int) -> Seq<int>
    decreases defaults.len(),
{
    if defaults.len() == 0 {
        Seq::empty()
    } else {
        let r = defaults_present(defaults.drop_last(), count);
        if defaults.last() < count {
            r.push(defaults.last() as int)
        } else {
            r
        }
    }
}

/// The options picked in one group.
pub open spec fn group_picks(g: GroupSpec, sel: Seq<SpecGroup>) -> Seq<int> {
    let picked = match find_selection(sel, g.name) {
        Some(names) => options_named(g.option_names, names),
        None => defaults_present(g.default_selected, g.option_names.len() as int),
    };
    let picked = if is_single(g.kind) && picked.len() > 1 {
        picked.take(1)
    } else {
        picked
    };
    if picked.len() == 0 && is_required(g.kind) && g.option_names.len() > 0 {
        seq![0int]
    } else {
        picked
    }
}

/// The (group, option) pairs picked, group by group.
pub open spec fn all_picks(groups: Seq<GroupSpec>, sel: Seq<SpecGroup>) -> Seq<(int, int)>
    decreases groups.len(),
{
    if groups.len() == 0 {
        Seq::empty()
    } else {
        let g = groups.len() - 1;
        all_picks(groups.drop_last(), sel) + group_picks(groups.last(), sel).map_values(
            |o: int| (g, o),
        )
    }
}

pub open spec fn priority_of(groups: Seq<GroupSpec>, p: (int, int)) -> int {
    groups[p.0].option_priorities[p.1] as int
}

/// Where `p` goes in `sorted`: after every pick of no greater priority.
pub open spec fn insert_at(groups: Seq<GroupSpec>, sorted: Seq<(int, int)>, p: (int, int)) -> int
    decreases sorted.len(),
{
    if sorted.len() == 0 {
        0
    } else if priority_of(groups, sorted[0]) > priority_of(groups, p) {
        0
    } else {
        1 + insert_at(groups, sorted.skip(1), p)
    }
}

/// A stable sort of the picks by option priority.
pub open spec fn by_priority(groups: Seq<GroupSpec>, picks: Seq<(int, int)>) -> Seq<(int, int)>
    decreases picks.len(),
{
    if picks.len() == 0 {
        Seq::empty()
    } else {
        let sorted = by_priority(groups, picks.drop_last());
        sorted.insert(insert_at(groups, sorted, picks.last()), picks.last())
    }
}

/// The picks, in merge order.
pub open spec fn selected_picks(groups: Seq<GroupSpec>, sel: Seq<SpecGroup>) -> Seq<(int, int)> {
    by_priority(groups, all_picks(groups, sel))
}

pub proof fn lemma_insert_at(groups: Seq<GroupSpec>, sorted: Seq<(int, int)>, p: (int, int), j: int)
    requires
        0 <= j <= sorted.len(),
        forall|l: int| 0 <= l < j ==> priority_of(groups, #[trigger] sorted[l]) <= priority_of(groups, p),
        j == sorted.len() || priority_of(groups, sorted[j]) > priority_of(groups, p),
    ensures
        insert_at(groups, sorted, p) == j,
    decreases j,
{
    if j > 0 {
        let t = sorted.skip(1);
        assert forall|l: int| 0 <= l < j - 1 implies priority_of(groups, #[trigger] t[l])
            <= priority_of(groups, p) by {
            assert(t[l] == sorted[l + 1]);
        }
        if j < sorted.len() {
            assert(t[j - 1] == sorted[j]);
        }
        lemma_insert_at(groups, t, p, j - 1);
        assert(priority_of(groups, sorted[0]) <= priority_of(groups, p));
    }
}

pub open spec fn ints(v: Seq<usize>) -> Seq<int> {
    v.map_values(|x: usize| x as int)
}

pub open spec fn int_pairs(v: Seq<(usize, usize)>) -> Seq<(int, int)> {
    v.map_values(|x: (usize, usize)| (x.0 as int, x.1 as int))
}

/// The selection for the group called `name`, if `selection` has one.
fn selection_for<'a>(selection: &'a OptionMap, name: &[char]) -> (r: Option<&'a Vec<String>>)
    ensures
        match r {
            Some(v) => find_selection(selection@, name@) == Some(strings_view(v@)),
            None => find_selection(selection@, name@) is None,
        },
{
    let n = selection.len();
    let mut i: usize = 0;
    assert(selection@.skip(0) =~= selection@);
    while i < n
        invariant
            i <= n,
            n == selection@.len(),
            find_selection(selection@, name@) == find_selection(selection@.skip(i as int), name@),
        decreases n - i,
    {
        let (key, names) = selection.entry(i);
        let k = chars_of(key.as_str());
        if chars_eq_ignore_case(k.as_slice(), name) {
            return Some(names);
        }
        assert(selection@.skip(i as int).skip(1) =~= selection@.skip(i + 1));
        i = i + 1;
    }
    None
}

fn is_named_in(names: &Vec<String>, n: &[char]) -> (r: bool)
    ensures
        r == named_in(strings_view(names@), n@),
{
    let ghost v = strings_view(names@);
    let mut j: usize = 0;
    while j < names.len()
        invariant
            j <= names.len(),
            v == strings_view(names@),
            forall|l: int| 0 <= l < j ==> !eq_ignore_case(#[trigger] v[l], n@),
        decreases names.len() - j,
    {
        let c = chars_of(names[j].as_str());
        if chars_eq_ignore_case(c.as_slice(), n) {
            assert(eq_ignore_case(v[j as int], n@));
            return true;
        }
        j = j + 1;
    }
    false
}

fn group_choice<S>(g: &OptionGroup<S>, selection: &OptionMap) -> (r: Vec<usize>)
    ensures
        ints(r@) == group_picks(group_spec(*g), selection@),
        forall|k: int| 0 <= k < r@.len() ==> #[trigger] r@[k] < g.options@.len(),
{
    let ghost gs = group_spec(*g);
    let name = chars_of(g.name.as_str());
    let mut picked: Vec<usize> = Vec::new();
    match selection_for(selection, name.as_slice()) {
        Some(names) => {
            let ghost nv = strings_view(names@);
            let mut k: usize = 0;
            while k < g.options.len()
                invariant
                    k <= g.options.len(),
                    gs == group_spec(*g),
                    nv == strings_view(names@),
                    ints(picked@) == options_named(gs.option_names.take(k as int), nv),
                    forall|m: int| 0 <= m < picked@.len() ==> #[trigger] picked@[m] < k,
                decreases g.options.len() - k,
            {
                let on = chars_of(g.options[k].name.as_str());
                assert(gs.option_names.take(k + 1).drop_last() =~= gs.option_names.take(k as int));
                if is_named_in(names, on.as_slice()) {
                    picked.push(k);
                    assert(ints(picked@) =~= ints(picked@.drop_last()).push(k as int));
                }
                k = k + 1;
            }
            assert(gs.option_names.take(g.options.len() as int) =~= gs.option_names);
        },
        None => {
            let mut k: usize = 0;
            while k < g.default_selected.len()
                invariant
                    k <= g.default_selected.len(),
                    gs == group_spec(*g),
                    ints(picked@) == defaults_present(
                        gs.default_selected.take(k as int),
                        gs.option_names.len() as int,
                    ),
                    forall|m: int| 0 <= m < picked@.len() ==> #[trigger] picked@[m] < g.options@.len(),
                decreases g.default_selected.len() - k,
            {
                let d = g.default_selected[k];
                assert(gs.default_selected.take(k + 1).drop_last() =~= gs.default_selected.take(
                    k as int,
                ));
                if d < g.options.len() {
                    picked.push(d);
                    assert(ints(picked@) =~= ints(picked@.drop_last()).push(d as int));
                }
                k = k + 1;
            }
            assert(gs.default_selected.take(g.default_selected.len() as int) =~= gs.default_selected);
        },
    }
    let single = match g.kind {
        OptionGroupType::Single | OptionGroupType::SingleRequired => true,
        _ => false,
    };
    if single && picked.len() > 1 {
        let ghost before = picked@;
        picked.truncate(1);
        assert(ints(picked@) =~= ints(before).take(1));
    }
    let required = match g.kind {
        OptionGroupType::SingleRequired | OptionGroupType::MultiRequired => true,
        _ => false,
    };
    if picked.len() == 0 && required && g.options.len() > 0 {
        picked.push(0);
        assert(ints(picked@) =~= seq![0int]);
    }
    picked
}

/// Every pick, group by group.
fn picks_of<S>(groups: &Vec<OptionGroup<S>>, selection: &OptionMap) -> (r: Vec<(usize, usize)>)
    ensures
        int_pairs(r@) == all_picks(groups_spec(groups@), selection@),
        forall|k: int|
            0 <= k < r@.len() ==> (#[trigger] r@[k]).0 < groups@.len() && r@[k].1
                < groups@[r@[k].0 as int].options@.len(),
{
    let ghost gs = groups_spec(groups@);
    let mut r: Vec<(usize, usize)> = Vec::new();
    let mut g: usize = 0;
    while g < groups.len()
        invariant
            g <= groups.len(),
            gs == groups_spec(groups@),
            int_pairs(r@) == all_picks(gs.take(g as int), selection@),
            forall|k: int|
                0 <= k < r@.len() ==> (#[trigger] r@[k]).0 < g && r@[k].1
                    < groups@[r@[k].0 as int].options@.len(),
        decreases groups.len() - g,
    {
        let picked = group_choice(&groups[g], selection);
        let ghost start = r@;
        let ghost mapped = group_picks(gs[g as int], selection@).map_values(|o: int| (g as int, o));
        let mut k: usize = 0;
        while k < picked.len()
            invariant
                k <= picked.len(),
                g < groups.len(),
                gs == groups_spec(groups@),
                ints(picked@) == group_picks(gs[g as int], selection@),
                mapped == group_picks(gs[g as int], selection@).map_values(|o: int| (g as int, o)),
                forall|m: int| 0 <= m < picked@.len() ==> #[trigger] picked@[m] < groups@[g as int].options@.len(),
                int_pairs(r@) == int_pairs(start) + mapped.take(k as int),
                forall|m: int|
                    0 <= m < r@.len() ==> (#[trigger] r@[m]).0 < g + 1 && r@[m].1
                        < groups@[r@[m].0 as int].options@.len(),
            decreases picked.len() - k,
        {
            proof {
                assert(ints(picked@)[k as int] == picked@[k as int] as int);
                assert(mapped[k as int] == (g as int, picked@[k as int] as int));
                assert(mapped.take(k + 1) =~= mapped.take(k as int).push(mapped[k as int]));
            }
            let ghost prev = r@;
            r.push((g, picked[k]));
            assert(int_pairs(r@) =~= int_pairs(prev).push((g as int, picked@[k as int] as int)));
            k = k + 1;
            assert(int_pairs(r@) =~= int_pairs(start) + mapped.take(k as int));
        }
        proof {
            assert(mapped.take(picked.len() as int) =~= mapped);
            assert(gs.take(g + 1).drop_last() =~= gs.take(g as int));
            assert(gs.take(g + 1).last() == gs[g as int]);
        }
        g = g + 1;
    }
    assert(gs.take(groups.len() as int) =~= gs);
    r
}

fn priority_at<S>(groups: &Vec<OptionGroup<S>>, p: (usize, usize)) -> (r: i32)
    requires
        p.0 < groups@.len(),
        p.1 < groups@[p.0 as int].options@.len(),
    ensures
        r == priority_of(groups_spec(groups@), (p.0 as int, p.1 as int)),
{
    groups[p.0].options[p.1].priority
}

/// The picks in merge order: by option priority, keeping group order among equals.
fn sort_picks<S>(groups: &Vec<OptionGroup<S>>, picks: Vec<(usize, usize)>) -> (r: Vec<(usize, usize)>)
    requires
        forall|k: int|
            0 <= k < picks@.len() ==> (#[trigger] picks@[k]).0 < groups@.len() && picks@[k].1
                < groups@[picks@[k].0 as int].options@.len(),
    ensures
        int_pairs(r@) == by_priority(groups_spec(groups@), int_pairs(picks@)),
        forall|k: int|
            0 <= k < r@.len() ==> (#[trigger] r@[k]).0 < groups@.len() && r@[k].1
                < groups@[r@[k].0 as int].options@.len(),
{
    let ghost gs = groups_spec(groups@);
    let ghost all = int_pairs(picks@);
    let mut sorted: Vec<(usize, usize)> = Vec::new();
    let mut i: usize = 0;
    while i < picks.len()
        invariant
            i <= picks.len(),
            gs == groups_spec(groups@),
            all == int_pairs(picks@),
            forall|k: int|
                0 <= k < picks@.len() ==> (#[trigger] picks@[k]).0 < groups@.len() && picks@[k].1
                    < groups@[picks@[k].0 as int].options@.len(),
            int_pairs(sorted@) == by_priority(gs, all.take(i as int)),
            forall|k: int|
                0 <= k < sorted@.len() ==> (#[trigger] sorted@[k]).0 < groups@.len() && sorted@[k].1
                    < groups@[sorted@[k].0 as int].options@.len(),
        decreases picks.len() - i,
    {
        let p = picks[i];
        let key = priority_at(groups, p);
        let ghost sv = int_pairs(sorted@);
        let ghost pv = (p.0 as int, p.1 as int);
        let mut j: usize = 0;
        while j < sorted.len() && priority_at(groups, sorted[j]) <= key
            invariant
                j <= sorted.len(),
                gs == groups_spec(groups@),
                sv == int_pairs(sorted@),
                key == priority_of(gs, pv),
                forall|k: int|
                    0 <= k < sorted@.len() ==> (#[trigger] sorted@[k]).0 < groups@.len()
                        && sorted@[k].1 < groups@[sorted@[k].0 as int].options@.len(),
                forall|l: int| 0 <= l < j ==> priority_of(gs, #[trigger] sv[l]) <= priority_of(gs, pv),
            decreases sorted.len() - j,
        {
            j = j + 1;
        }
        proof {
            lemma_insert_at(gs, sv, pv, j as int);
            assert(all.take(i + 1).drop_last() =~= all.take(i as int));
            assert(all.take(i + 1).last() == pv);
        }
        sorted.insert(j, p);
        assert(int_pairs(sorted@) =~= sv.insert(j as int, pv));
        i = i + 1;
    }
    assert(all.take(picks.len() as int) =~= all);
    sorted
}

impl<S> TkMod<S> {
    /// The picks whose changelogs a selection brings in, in merge order.
    pub fn selected_options(&self, selection: &OptionMap) -> (r: Vec<(usize, usize)>)
        ensures
            int_pairs(r@) == selected_picks(groups_spec(self.option_groups@), selection@),
            forall|k: int|
                0 <= k < r@.len() ==> (#[trigger] r@[k]).0 < self.option_groups@.len() && r@[k].1
                    < self.option_groups@[r@[k].0 as int].options@.len(),
    {
        let picks = picks_of(&self.option_groups, selection);
        sort_picks(&self.option_groups, picks)
    }

    /// Changelogs to merge for this mod: its own, then those of the selected
    /// options, ordered by option priority.
    ///
    /// `selection` maps a group name to option names; groups it does not
    /// mention use the package's default selection.
    pub fn selected_changelogs(&self, selection: &OptionMap) -> (r: Vec<&Changelog<S>>)
        ensures
            ({
                let picks = selected_picks(groups_spec(self.option_groups@), selection@);
                &&& r@.len() == picks.len() + 1
                &&& *r@[0] == self.changelog
                &&& forall|k: int|
                    0 <= k < picks.len() ==> *r@[k + 1] == self.option_groups@[picks[k].0].options@[picks[k].1].changelog
            }),
    {
        let picks = self.selected_options(selection);
        let ghost pv = int_pairs(picks@);
        let mut r: Vec<&Changelog<S>> = Vec::new();
        r.push(&self.changelog);
        let mut k: usize = 0;
        while k < picks.len()
            invariant
                k <= picks.len(),
                pv == int_pairs(picks@),
                forall|m: int|
                    0 <= m < picks@.len() ==> (#[trigger] picks@[m]).0 < self.option_groups@.len()
                        && picks@[m].1 < self.option_groups@[picks@[m].0 as int].options@.len(),
                r@.len() == k + 1,
                *r@[0] == self.changelog,
                forall|m: int|
                    0 <= m < k ==> *r@[m + 1] == self.option_groups@[pv[m].0].options@[pv[m].1].changelog,
            decreases picks.len() - k,
        {
            let (g, o) = picks[k];
            r.push(&self.option_groups[g].options[o].changelog);
            k = k + 1;
        }
        r
    }
}

} // verus!
