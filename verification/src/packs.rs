//! Writing merged packs: the files bound for packs gathered pack by pack,
//! and which files the resource size table leaves out.

use vstd::prelude::*;

use crate::text::{is_lit, str_eq};

verus! {

/// The packs of the files `archives` (the first `n`), each with the files
/// bound for it: packs in the order they first come up, files in order.
pub open spec fn pack_groups_spec(archives: Seq<Seq<char>>, n: int) -> Seq<(Seq<char>, Seq<int>)>
    decreases n,
{
    if n <= 0 {
        Seq::empty()
    } else {
        let g = pack_groups_spec(archives, n - 1);
        let p = group_of(g, archives[n - 1]);
        if p < 0 {
            g.push((archives[n - 1], seq![n - 1]))
        } else {
            g.update(p, (g[p].0, g[p].1.push(n - 1)))
        }
    }
}

/// Where the group of pack `a` stands, or -1.
pub open spec fn group_of(g: Seq<(Seq<char>, Seq<int>)>, a: Seq<char>) -> int
    decreases g.len(),
{
    if g.len() == 0 {
        -1
    } else {
        let r = group_of(g.drop_last(), a);
        if r >= 0 {
            r
        } else if g.last().0 == a {
            g.len() - 1
        } else {
            -1
        }
    }
}

proof fn lemma_group_of(g: Seq<(Seq<char>, Seq<int>)>, a: Seq<char>, j: int)
    requires
        0 <= j <= g.len(),
        forall|k: int| 0 <= k < j ==> #[trigger] g[k].0 != a,
        j < g.len() ==> g[j].0 == a,
    ensures
        group_of(g, a) == (if j < g.len() {
            j
        } else {
            -1
        }),
    decreases g.len(),
{
    if g.len() > 0 {
        if j < g.len() - 1 {
            assert forall|k: int| 0 <= k < j implies #[trigger] g.drop_last()[k].0 != a by {
                assert(g.drop_last()[k] == g[k]);
            }
            assert(g.drop_last()[j] == g[j]);
            lemma_group_of(g.drop_last(), a, j);
        } else {
            assert forall|k: int| 0 <= k < g.len() - 1 implies #[trigger] g.drop_last()[k].0 != a by {
                assert(g.drop_last()[k] == g[k]);
            }
            lemma_group_of(g.drop_last(), a, g.len() - 1);
        }
    }
}

pub open spec fn groups_view(g: Seq<(String, Vec<usize>)>) -> Seq<(Seq<char>, Seq<int>)> {
    g.map_values(|e: (String, Vec<usize>)| (e.0@, e.1@.map_values(|i: usize| i as int)))
}

/// The files bound for packs, pack by pack: for each pack, in the order
/// packs first come up, the positions of its files in `archives`.
pub fn pack_groups(archives: &Vec<String>) -> (r: Vec<(String, Vec<usize>)>)
    ensures
        groups_view(r@) == pack_groups_spec(crate::tkcl::codec::strs(archives@), archives@.len() as int),
{
    let ghost av = crate::tkcl::codec::strs(archives@);
    let mut r: Vec<(String, Vec<usize>)> = Vec::new();
    let mut i: usize = 0;
    assert(groups_view(r@) =~= Seq::<(Seq<char>, Seq<int>)>::empty());
    while i < archives.len()
        invariant
            i <= archives.len(),
            av == crate::tkcl::codec::strs(archives@),
            groups_view(r@) == pack_groups_spec(av, i as int),
        decreases archives.len() - i,
    {
        let ghost g = groups_view(r@);
        let mut p: usize = 0;
        while p < r.len() && !str_eq(r[p].0.as_str(), archives[i].as_str())
            invariant
                p <= r.len(),
                i < archives.len(),
                g == groups_view(r@),
                av == crate::tkcl::codec::strs(archives@),
                forall|k: int| 0 <= k < p ==> #[trigger] g[k].0 != av[i as int],
            decreases r.len() - p,
        {
            p = p + 1;
        }
        proof {
            lemma_group_of(g, av[i as int], p as int);
        }
        if p < r.len() {
            let (name, mut members) = r.remove(p);
            let ghost m = members@.map_values(|k: usize| k as int);
            members.push(i);
            assert(members@.map_values(|k: usize| k as int) =~= m.push(i as int));
            r.insert(p, (name, members));
            assert(groups_view(r@) =~= g.update(p as int, (g[p as int].0, g[p as int].1.push(i as int))));
        } else {
            let mut members: Vec<usize> = Vec::new();
            members.push(i);
            assert(members@.map_values(|k: usize| k as int) =~= seq![i as int]);
            r.push((crate::text::copy_string(&archives[i]), members));
            assert(groups_view(r@) =~= g.push((av[i as int], seq![i as int])));
        }
        i = i + 1;
    }
    r
}

/// Files the resource size table has no size for: the zstd dictionary
/// pack, size tables, sound and video.
pub open spec fn unsized_resource(name: Seq<char>, ext: Seq<char>) -> bool {
    name == "Pack/ZsDic.pack"@ || ext == ".rsizetable"@ || ext == ".bwav"@ || ext == ".webm"@
}

/// Whether the resource size table leaves out the resource `name` with the
/// extension `ext`.
pub fn is_unsized_resource(name: &str, ext: &str) -> (r: bool)
    ensures
        r == unsized_resource(name@, ext@),
{
    let n = crate::text::chars_of(name);
    let e = crate::text::chars_of(ext);
    is_lit(n.as_slice(), "Pack/ZsDic.pack") || is_lit(e.as_slice(), ".rsizetable") || is_lit(e.as_slice(), ".bwav")
        || is_lit(e.as_slice(), ".webm")
}

} // verus!
