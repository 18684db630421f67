//! Package option selections: option group name → selected option names,
//! kept sorted by group name with each group once.

use vstd::prelude::*;

use crate::text::{chars_of, copy_string};

verus! {

pub type SpecGroup = (Seq<char>, Seq<Seq<char>>);

pub open spec fn strings_view(v: Seq<String>) -> Seq<Seq<char>> {
    v.map_values(|s: String| s@)
}

pub open spec fn groups_view(v: Seq<(String, Vec<String>)>) -> Seq<SpecGroup> {
    v.map_values(|e: (String, Vec<String>)| (e.0@, strings_view(e.1@)))
}

/// `a` sorts before `b`: code point order, as `str`'s `Ord` (which compares
/// UTF-8 bytes, an order code points share).
pub open spec fn text_lt(a: Seq<char>, b: Seq<char>) -> bool
    decreases a.len(),
{
    if a.len() == 0 {
        b.len() > 0
    } else if b.len() == 0 {
        false
    } else if a[0] != b[0] {
        a[0] < b[0]
    } else {
        text_lt(a.skip(1), b.skip(1))
    }
}

/// Group names strictly increasing.
pub open spec fn sorted_groups(s: Seq<SpecGroup>) -> bool {
    forall|i: int, j: int| 0 <= i < j < s.len() ==> text_lt(#[trigger] s[i].0, #[trigger] s[j].0)
}

/// `s` with `group` set to `selected`, in its place.
pub open spec fn insert_group(s: Seq<SpecGroup>, group: Seq<char>, selected: Seq<Seq<char>>) -> Seq<
    SpecGroup,
>
    decreases s.len(),
{
    if s.len() == 0 {
        seq![(group, selected)]
    } else if s[0].0 == group {
        seq![(group, selected)] + s.skip(1)
    } else if text_lt(group, s[0].0) {
        seq![(group, selected)] + s
    } else {
        seq![s[0]] + insert_group(s.skip(1), group, selected)
    }
}

/// The options selected in `group`, if it is listed.
pub open spec fn group_lookup(s: Seq<SpecGroup>, group: Seq<char>) -> Option<Seq<Seq<char>>>
    decreases s.len(),
{
    if s.len() == 0 {
        None
    } else if s[0].0 == group {
        Some(s[0].1)
    } else {
        group_lookup(s.skip(1), group)
    }
}

pub proof fn lemma_text_lt_irreflexive(a: Seq<char>)
    ensures
        !text_lt(a, a),
    decreases a.len(),
{
    if a.len() > 0 {
        lemma_text_lt_irreflexive(a.skip(1));
    }
}

pub proof fn lemma_text_lt_total(a: Seq<char>, b: Seq<char>)
    ensures
        a == b || text_lt(a, b) || text_lt(b, a),
        !(text_lt(a, b) && text_lt(b, a)),
    decreases a.len(),
{
    if a.len() > 0 && b.len() > 0 {
        lemma_text_lt_total(a.skip(1), b.skip(1));
        if a[0] == b[0] && a.skip(1) == b.skip(1) {
            assert(a =~= seq![a[0]] + a.skip(1));
            assert(b =~= seq![b[0]] + b.skip(1));
        }
    } else if a.len() == 0 && b.len() == 0 {
        assert(a =~= b);
    }
}

pub proof fn lemma_text_lt_transitive(a: Seq<char>, b: Seq<char>, c: Seq<char>)
    requires
        text_lt(a, b),
        text_lt(b, c),
    ensures
        text_lt(a, c),
    decreases a.len(),
{
    if a.len() > 0 && b.len() > 0 && c.len() > 0 && a[0] == b[0] && b[0] == c[0] {
        lemma_text_lt_transitive(a.skip(1), b.skip(1), c.skip(1));
    }
}

/// Inserting keeps the groups sorted, each once.
pub proof fn lemma_insert_sorted(s: Seq<SpecGroup>, group: Seq<char>, selected: Seq<Seq<char>>)
    requires
        sorted_groups(s),
    ensures
        sorted_groups(insert_group(s, group, selected)),
        forall|i: int|
            0 <= i < insert_group(s, group, selected).len() ==> (#[trigger] insert_group(
                s,
                group,
                selected,
            )[i].0 == group || exists|j: int| 0 <= j < s.len() && s[j].0 == insert_group(
                s,
                group,
                selected,
            )[i].0),
    decreases s.len(),
{
    let r = insert_group(s, group, selected);
    if s.len() == 0 {
    } else if s[0].0 == group {
        assert forall|i: int, j: int| 0 <= i < j < r.len() implies text_lt(
            #[trigger] r[i].0,
            #[trigger] r[j].0,
        ) by {
            assert(r[j] == s[j]);
            if i > 0 {
                assert(r[i] == s[i]);
            }
        }
        assert forall|i: int| 0 <= i < r.len() implies (#[trigger] r[i].0 == group || exists|
            j: int,
        | 0 <= j < s.len() && s[j].0 == r[i].0) by {
            if i > 0 {
                assert(s[i].0 == r[i].0);
            }
        }
    } else if text_lt(group, s[0].0) {
        assert forall|i: int, j: int| 0 <= i < j < r.len() implies text_lt(
            #[trigger] r[i].0,
            #[trigger] r[j].0,
        ) by {
            assert(r[j] == s[j - 1]);
            if i > 0 {
                assert(r[i] == s[i - 1]);
            } else if j > 1 {
                lemma_text_lt_transitive(group, s[0].0, s[j - 1].0);
            }
        }
        assert forall|i: int| 0 <= i < r.len() implies (#[trigger] r[i].0 == group || exists|
            j: int,
        | 0 <= j < s.len() && s[j].0 == r[i].0) by {
            if i > 0 {
                assert(s[i - 1].0 == r[i].0);
            }
        }
    } else {
        let rest = insert_group(s.skip(1), group, selected);
        assert(sorted_groups(s.skip(1))) by {
            assert forall|i: int, j: int| 0 <= i < j < s.skip(1).len() implies text_lt(
                #[trigger] s.skip(1)[i].0,
                #[trigger] s.skip(1)[j].0,
            ) by {
                assert(s.skip(1)[i] == s[i + 1]);
                assert(s.skip(1)[j] == s[j + 1]);
            }
        }
        lemma_insert_sorted(s.skip(1), group, selected);
        lemma_text_lt_total(group, s[0].0);
        assert forall|i: int, j: int| 0 <= i < j < r.len() implies text_lt(
            #[trigger] r[i].0,
            #[trigger] r[j].0,
        ) by {
            assert(r[j] == rest[j - 1]);
            if i > 0 {
                assert(r[i] == rest[i - 1]);
            } else {
                assert(r[0] == s[0]);
                if rest[j - 1].0 != group {
                    let k = choose|k: int| 0 <= k < s.skip(1).len() && s.skip(1)[k].0 == rest[j - 1].0;
                    assert(s.skip(1)[k] == s[k + 1]);
                }
            }
        }
        assert forall|i: int| 0 <= i < r.len() implies (#[trigger] r[i].0 == group || exists|
            j: int,
        | 0 <= j < s.len() && s[j].0 == r[i].0) by {
            if i > 0 {
                assert(r[i] == rest[i - 1]);
                if rest[i - 1].0 != group {
                    let k = choose|k: int| 0 <= k < s.skip(1).len() && s.skip(1)[k].0 == rest[i - 1].0;
                    assert(s.skip(1)[k] == s[k + 1]);
                }
            } else {
                assert(s[0].0 == r[0].0);
            }
        }
    }
}

/// A group after every group of `s` goes at the end.
pub proof fn lemma_insert_group_last(s: Seq<SpecGroup>, group: Seq<char>, selected: Seq<Seq<char>>)
    requires
        forall|i: int| 0 <= i < s.len() ==> text_lt(#[trigger] s[i].0, group),
    ensures
        insert_group(s, group, selected) == s.push((group, selected)),
    decreases s.len(),
{
    if s.len() > 0 {
        lemma_text_lt_total(s[0].0, group);
        lemma_text_lt_irreflexive(group);
        assert(text_lt(s[0].0, group));
        assert(s[0].0 != group);
        assert forall|i: int| 0 <= i < s.skip(1).len() implies text_lt(#[trigger] s.skip(1)[i].0, group) by {
            assert(s.skip(1)[i] == s[i + 1]);
        }
        lemma_insert_group_last(s.skip(1), group, selected);
        assert(seq![s[0]] + s.skip(1).push((group, selected)) =~= s.push((group, selected)));
    } else {
        assert(seq![(group, selected)] =~= s.push((group, selected)));
    }
}

/// What is stored for a group is what was last set for it.
pub proof fn lemma_insert_lookup(
    s: Seq<SpecGroup>,
    group: Seq<char>,
    selected: Seq<Seq<char>>,
    other: Seq<char>,
)
    ensures
        group_lookup(insert_group(s, group, selected), other) == if other == group {
            Some(selected)
        } else {
            group_lookup(s, other)
        },
    decreases s.len(),
{
    let r = insert_group(s, group, selected);
    if s.len() == 0 {
        assert(r.skip(1) =~= Seq::<SpecGroup>::empty());
    } else if s[0].0 == group {
        assert(r.skip(1) =~= s.skip(1));
    } else if text_lt(group, s[0].0) {
        assert(r.skip(1) =~= s);
    } else {
        assert(r.skip(1) =~= insert_group(s.skip(1), group, selected));
        lemma_insert_lookup(s.skip(1), group, selected, other);
    }
}

/// Option group → selected options, sorted by group name.
#[derive(Debug, Clone, PartialEq, Eq)]
pub struct OptionMap {
    groups: Vec<(String, Vec<String>)>,
}

impl View for OptionMap {
    type V = Seq<SpecGroup>;

    closed spec fn view(&self) -> Seq<SpecGroup> {
        groups_view(self.groups@)
    }
}

pub fn text_less(a: &[char], b: &[char]) -> (r: bool)
    ensures
        r == text_lt(a@, b@),
{
    let mut i: usize = 0;
    assert(a@.skip(0) =~= a@);
    assert(b@.skip(0) =~= b@);
    while i < a.len() && i < b.len() && a[i] == b[i]
        invariant
            i <= a.len(),
            i <= b.len(),
            text_lt(a@, b@) == text_lt(a@.skip(i as int), b@.skip(i as int)),
        decreases a.len() - i,
    {
        assert(a@.skip(i as int).skip(1) =~= a@.skip(i + 1));
        assert(b@.skip(i as int).skip(1) =~= b@.skip(i + 1));
        i = i + 1;
    }
    if i == a.len() {
        i < b.len()
    } else if i == b.len() {
        false
    } else {
        a[i] < b[i]
    }
}

pub fn copy_strings(v: &Vec<String>) -> (r: Vec<String>)
    ensures
        strings_view(r@) == strings_view(v@),
{
    let mut r: Vec<String> = Vec::new();
    let mut i: usize = 0;
    while i < v.len()
        invariant
            i <= v.len(),
            r@.len() == i,
            forall|k: int| 0 <= k < i ==> #[trigger] r@[k]@ == v@[k]@,
        decreases v.len() - i,
    {
        r.push(copy_string(&v[i]));
        i = i + 1;
    }
    assert(strings_view(r@) =~= strings_view(v@));
    r
}

impl OptionMap {
    pub open spec fn wf(&self) -> bool {
        sorted_groups(self@)
    }

    pub fn new() -> (r: OptionMap)
        ensures
            r@ == Seq::<SpecGroup>::empty(),
            r.wf(),
    {
        let r = OptionMap { groups: Vec::new() };
        assert(r@ =~= Seq::<SpecGroup>::empty());
        r
    }

    /// Number of groups.
    pub fn len(&self) -> (n: usize)
        ensures
            n == self@.len(),
    {
        self.groups.len()
    }

    pub fn is_empty(&self) -> (b: bool)
        ensures
            b == (self@.len() == 0),
    {
        self.groups.len() == 0
    }

    /// The `i`th group (in name order) and its selection.
    pub fn entry(&self, i: usize) -> (r: (&String, &Vec<String>))
        requires
            i < self@.len(),
        ensures
            r.0@ == self@[i as int].0,
            strings_view(r.1@) == self@[i as int].1,
    {
        let e = &self.groups[i];
        (&e.0, &e.1)
    }

    /// Sets what is selected in `group`.
    pub fn insert(&mut self, group: String, selected: Vec<String>)
        ensures
            final(self)@ == insert_group(old(self)@, group@, strings_view(selected@)),
            old(self).wf() ==> final(self).wf(),
    {
        proof {
            if old(self).wf() {
                lemma_insert_sorted(old(self)@, group@, strings_view(selected@));
            }
        }
        let ghost s = self@;
        let ghost sel = strings_view(selected@);
        let g = chars_of(group.as_str());
        let mut i: usize = 0;
        assert(s.skip(0) =~= s);
        while i < self.groups.len()
            invariant
                i <= self.groups.len(),
                s == groups_view(self.groups@),
                s == old(self)@,
                old(self).wf() ==> sorted_groups(insert_group(s, group@, sel)),
                g@ == group@,
                sel == strings_view(selected@),
                insert_group(s, group@, sel) == s.take(i as int) + insert_group(
                    s.skip(i as int),
                    group@,
                    sel,
                ),
            decreases self.groups.len() - i,
        {
            let name = chars_of(self.groups[i].0.as_str());
            assert(s.skip(i as int)[0] == s[i as int]);
            assert(s[i as int].0 == self.groups@[i as int].0@);
            if crate::text::chars_eq(name.as_slice(), g.as_slice()) {
                self.groups.set(i, (group, selected));
                assert(groups_view(self.groups@) =~= s.take(i as int) + insert_group(
                    s.skip(i as int),
                    group@,
                    sel,
                )) by {
                    assert(s.skip(i as int).skip(1) =~= s.skip(i + 1));
                }
                return ;
            }
            if text_less(g.as_slice(), name.as_slice()) {
                self.groups.insert(i, (group, selected));
                assert(groups_view(self.groups@) =~= s.take(i as int) + insert_group(
                    s.skip(i as int),
                    group@,
                    sel,
                ));
                return ;
            }
            assert(s.skip(i as int).skip(1) =~= s.skip(i + 1));
            assert(s.take(i + 1) =~= s.take(i as int) + seq![s[i as int]]);
            i = i + 1;
        }
        let n = self.groups.len();
        self.groups.push((group, selected));
        assert(s.skip(n as int) =~= Seq::<SpecGroup>::empty());
        assert(s.take(n as int) =~= s);
        assert(groups_view(self.groups@) =~= insert_group(s, group@, sel));
    }

    /// What is selected in `group`.
    pub fn get(&self, group: &str) -> (r: Option<&Vec<String>>)
        ensures
            match group_lookup(self@, group@) {
                Some(v) => r matches Some(x) && strings_view(x@) == v,
                None => r is None,
            },
    {
        let ghost s = self@;
        let g = chars_of(group);
        let mut i: usize = 0;
        assert(s.skip(0) =~= s);
        while i < self.groups.len()
            invariant
                i <= self.groups.len(),
                s == groups_view(self.groups@),
                g@ == group@,
                group_lookup(s, group@) == group_lookup(s.skip(i as int), group@),
            decreases self.groups.len() - i,
        {
            let name = chars_of(self.groups[i].0.as_str());
            assert(s.skip(i as int)[0] == s[i as int]);
            if crate::text::chars_eq(name.as_slice(), g.as_slice()) {
                return Some(&self.groups[i].1);
            }
            assert(s.skip(i as int).skip(1) =~= s.skip(i + 1));
            i = i + 1;
        }
        None
    }

    /// A copy.
    pub fn copy(&self) -> (r: OptionMap)
        ensures
            r@ == self@,
    {
        let mut groups: Vec<(String, Vec<String>)> = Vec::new();
        let mut i: usize = 0;
        while i < self.groups.len()
            invariant
                i <= self.groups.len(),
                groups@.len() == i,
                forall|k: int|
                    0 <= k < i ==> #[trigger] groups_view(groups@)[k] == groups_view(
                        self.groups@,
                    )[k],
            decreases self.groups.len() - i,
        {
            let e = &self.groups[i];
            let ghost before = groups@;
            groups.push((copy_string(&e.0), copy_strings(&e.1)));
            assert forall|k: int| 0 <= k < i + 1 implies #[trigger] groups_view(groups@)[k]
                == groups_view(self.groups@)[k] by {
                if k < i {
                    assert(groups@[k] == before[k]);
                    assert(groups_view(before)[k] == groups_view(self.groups@)[k]);
                }
            }
            i = i + 1;
        }
        assert(groups_view(groups@) =~= groups_view(self.groups@));
        OptionMap { groups }
    }
}

} // verus!
