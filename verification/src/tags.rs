//! Grouping post indices by tag.

use vstd::prelude::*;

use crate::text;

verus! {

/// Index of the first name equal to `t`, or the number of names.
pub open spec fn find_name(names: Seq<Seq<char>>, t: Seq<char>) -> int
    decreases names.len(),
{
    if names.len() == 0 {
        0
    } else if names[0] == t {
        0
    } else {
        1 + find_name(names.drop_first(), t)
    }
}

/// The characteristic properties of `find_name`.
proof fn lemma_find_name(names: Seq<Seq<char>>, t: Seq<char>)
    ensures
        0 <= find_name(names, t) <= names.len(),
        forall|k: int| 0 <= k < find_name(names, t) ==> names[k] != t,
        find_name(names, t) < names.len() ==> names[find_name(names, t)] == t,
    decreases names.len(),
{
    if names.len() > 0 && names[0] != t {
        let rest = names.drop_first();
        lemma_find_name(rest, t);
        let f = find_name(names, t);
        assert forall|k: int| 0 <= k < f implies names[k] != t by {
            if k > 0 {
                assert(rest[k - 1] != t);
            }
        }
        if f < names.len() {
            assert(rest[f - 1] == t);
        }
    }
}

/// Any index with the characteristic properties equals `find_name`.
proof fn lemma_find_name_unique(names: Seq<Seq<char>>, t: Seq<char>, e: int)
    requires
        0 <= e <= names.len(),
        forall|k: int| 0 <= k < e ==> names[k] != t,
        e < names.len() ==> names[e] == t,
    ensures
        e == find_name(names, t),
{
    lemma_find_name(names, t);
    let f = find_name(names, t);
    if e < f {
        assert(names[e] != t);
    } else if f < e {
        assert(names[f] != t);
    }
}

/// One tag occurrence folded into the groups: the post index is
/// appended to the list of the first group with that name, or a new
/// group is opened at the end.
pub open spec fn add_occurrence(
    gs: Seq<(Seq<char>, Seq<int>)>,
    t: Seq<char>,
    p: int,
) -> Seq<(Seq<char>, Seq<int>)> {
    let f = find_name(gs.map_values(|g: (Seq<char>, Seq<int>)| g.0), t);
    if f < gs.len() {
        gs.update(f, (t, gs[f].1.push(p)))
    } else {
        gs.push((t, seq![p]))
    }
}

/// A post's tags folded into the groups, in order.
pub open spec fn add_post(
    gs: Seq<(Seq<char>, Seq<int>)>,
    ts: Seq<Seq<char>>,
    p: int,
) -> Seq<(Seq<char>, Seq<int>)>
    decreases ts.len(),
{
    if ts.len() == 0 {
        gs
    } else {
        add_post(add_occurrence(gs, ts[0], p), ts.drop_first(), p)
    }
}

/// The posts folded into the groups in order, the one at `p0` first.
pub open spec fn add_posts(
    gs: Seq<(Seq<char>, Seq<int>)>,
    dv: Seq<Seq<Seq<char>>>,
    p0: int,
) -> Seq<(Seq<char>, Seq<int>)>
    decreases dv.len(),
{
    if dv.len() == 0 {
        gs
    } else {
        add_posts(add_post(gs, dv[0], p0), dv.drop_first(), p0 + 1)
    }
}

/// The tag groups of a list of per-post tag lists: one group per
/// distinct tag, in order of first appearance, holding the index of
/// each post that carries the tag, once per occurrence, in reading
/// order.
pub open spec fn spec_tag_groups(dv: Seq<Seq<Seq<char>>>) -> Seq<(Seq<char>, Seq<int>)> {
    add_posts(Seq::empty(), dv, 0)
}

/// The model of the executable groups.
pub open spec fn groups_view(v: Seq<(String, Vec<usize>)>) -> Seq<(Seq<char>, Seq<int>)> {
    v.map_values(
        |g: (String, Vec<usize>)| (g.0@, g.1@.map_values(|i: usize| i as int)),
    )
}

/// Index of the first group named `t`, if any.
fn find_group(out: &Vec<(String, Vec<usize>)>, t: &str) -> (r: Option<usize>)
    ensures
        r matches Some(g) ==> g < out@.len() && out@[g as int].0@ == t@ && (forall|k: int|
            0 <= k < g ==> out@[k].0@ != t@),
        r is None ==> (forall|k: int| 0 <= k < out@.len() ==> out@[k].0@ != t@),
{
    let len = out.len();
    let mut g: usize = 0;
    while g < len
        invariant
            len == out@.len(),
            0 <= g <= len,
            forall|k: int| 0 <= k < g ==> out@[k].0@ != t@,
        decreases len - g,
    {
        if text::str_eq(out[g].0.as_str(), t) {
            return Some(g);
        }
        g += 1;
    }
    None
}

/// Groups post indices by tag: one entry per distinct tag, in order of
/// first appearance, listing each post that carries the tag, once per
/// occurrence, in reading order.
pub fn tag_groups(tag_lists: &Vec<Vec<String>>) -> (r: Vec<(String, Vec<usize>)>)
    ensures
        groups_view(r@) == spec_tag_groups(tag_lists.deep_view()),
{
    let ghost dv = tag_lists.deep_view();
    let mut out: Vec<(String, Vec<usize>)> = Vec::new();
    let n = tag_lists.len();
    let mut p: usize = 0;
    proof {
        assert(groups_view(out@) =~= Seq::<(Seq<char>, Seq<int>)>::empty());
        assert(dv.skip(0) =~= dv);
    }
    while p < n
        invariant
            n == tag_lists@.len(),
            dv == tag_lists.deep_view(),
            0 <= p <= n,
            spec_tag_groups(dv) == add_posts(groups_view(out@), dv.skip(p as int), p as int),
        decreases n - p,
    {
        let ts = &tag_lists[p];
        let m = ts.len();
        let ghost tsdv = dv[p as int];
        proof {
            assert(dv[p as int] == tag_lists@[p as int].deep_view());
            assert(dv.skip(p as int)[0] == dv[p as int]);
            assert(dv.skip(p as int).drop_first() =~= dv.skip(p + 1));
            assert(tsdv.skip(0) =~= tsdv);
        }
        let mut t: usize = 0;
        while t < m
            invariant
                n == tag_lists@.len(),
                dv == tag_lists.deep_view(),
                p < n,
                m == tag_lists@[p as int]@.len(),
                tsdv == dv[p as int],
                tsdv == tag_lists@[p as int].deep_view(),
                0 <= t <= m,
                m == tsdv.len(),
                spec_tag_groups(dv) == add_posts(
                    add_post(groups_view(out@), tsdv.skip(t as int), p as int),
                    dv.skip(p + 1),
                    p + 1,
                ),
            decreases m - t,
        {
            let ts2 = &tag_lists[p];
            let name: &String = &ts2[t];
            proof {
                assert(tsdv[t as int] == tag_lists@[p as int]@[t as int]@);
                assert(tsdv.skip(t as int)[0] == tsdv[t as int]);
                assert(tsdv.skip(t as int).drop_first() =~= tsdv.skip(t + 1));
            }
            let ghost gv_old = groups_view(out@);
            match find_group(&out, name.as_str()) {
                Some(g) => {
                    proof {
                        let names = gv_old.map_values(|g2: (Seq<char>, Seq<int>)| g2.0);
                        assert forall|k: int| 0 <= k < g implies names[k] != name@ by {
                            assert(names[k] == out@[k].0@);
                        }
                        assert(names[g as int] == out@[g as int].0@);
                        lemma_find_name_unique(names, name@, g as int);
                    }
                    out[g].1.push(p);
                    proof {
                        assert(groups_view(out@) =~~= add_occurrence(
                            gv_old,
                            tsdv[t as int],
                            p as int,
                        ));
                    }
                },
                None => {
                    proof {
                        let names = gv_old.map_values(|g2: (Seq<char>, Seq<int>)| g2.0);
                        assert forall|k: int| 0 <= k < names.len() implies names[k] != name@ by {
                            assert(names[k] == out@[k].0@);
                        }
                        lemma_find_name_unique(names, name@, names.len() as int);
                    }
                    let mut ids: Vec<usize> = Vec::new();
                    ids.push(p);
                    out.push((name.clone(), ids));
                    proof {
                        assert(groups_view(out@) =~~= add_occurrence(
                            gv_old,
                            tsdv[t as int],
                            p as int,
                        ));
                    }
                },
            }
            t += 1;
        }
        proof {
            assert(tsdv.skip(m as int) =~= Seq::<Seq<char>>::empty());
        }
        p += 1;
    }
    proof {
        assert(dv.skip(n as int) =~= Seq::<Seq<Seq<char>>>::empty());
    }
    out
}

} // verus!
