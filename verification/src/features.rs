//! Transitive activation of a dependency's features: which features a
//! request switches on, and which stay off.

use vstd::prelude::*;

use crate::dep::{rows_view, FeatureRow};
use crate::text::{contains_string, sort_strings, string_eq, strings_sorted};

verus! {

/// The synthetic root feature that stands for a dependency's defaults.
pub open spec fn default_name() -> Seq<char> {
    "default"@
}

/// The set a list of strings covers.
pub open spec fn set_of(s: Seq<Seq<char>>) -> Set<Seq<char>> {
    Set::new(|f: Seq<char>| s.contains(f))
}

/// `rows` has a row for feature `f`.
pub open spec fn has_feature(rows: Seq<(Seq<char>, Seq<Seq<char>>)>, f: Seq<char>) -> bool {
    exists|i: int| 0 <= i < rows.len() && (#[trigger] rows[i]).0 == f
}

/// The row of feature `f`; meaningful only under [`rows_distinct`].
pub open spec fn row_index(rows: Seq<(Seq<char>, Seq<Seq<char>>)>, f: Seq<char>) -> int {
    choose|i: int| 0 <= i < rows.len() && (#[trigger] rows[i]).0 == f
}

/// The features that `f` switches on directly.
pub open spec fn implies_of(rows: Seq<(Seq<char>, Seq<Seq<char>>)>, f: Seq<char>) -> Seq<
    Seq<char>,
> {
    rows[row_index(rows, f)].1
}

/// Feature names of a table may not repeat.
pub open spec fn rows_distinct(rows: Seq<(Seq<char>, Seq<Seq<char>>)>) -> bool {
    forall|i: int, j: int|
        0 <= i < j < rows.len() ==> (#[trigger] rows[i]).0 != (#[trigger] rows[j]).0
}

/// One breadth-first expansion step.
pub open spec fn step(rows: Seq<(Seq<char>, Seq<Seq<char>>)>, s: Set<Seq<char>>) -> Set<
    Seq<char>,
> {
    s.union(
        Set::new(
            |f: Seq<char>|
                exists|g: Seq<char>|
                    s.contains(g) && has_feature(rows, g) && implies_of(rows, g).contains(f),
        ),
    )
}

/// The features reachable from `seed` in at most `n` steps.
pub open spec fn reach_n(
    rows: Seq<(Seq<char>, Seq<Seq<char>>)>,
    seed: Set<Seq<char>>,
    n: nat,
) -> Set<Seq<char>>
    decreases n,
{
    if n == 0 {
        seed
    } else {
        step(rows, reach_n(rows, seed, (n - 1) as nat))
    }
}

/// Every feature the seed transitively activates.
pub open spec fn closure(rows: Seq<(Seq<char>, Seq<Seq<char>>)>, seed: Set<Seq<char>>) -> Set<
    Seq<char>,
> {
    Set::new(|f: Seq<char>| exists|n: nat| reach_n(rows, seed, n).contains(f))
}

/// The features a request names: the requested ones, plus the synthetic
/// root when defaults are on.
pub open spec fn seed_set(req: Seq<Seq<char>>, default_enabled: bool) -> Set<Seq<char>> {
    Set::new(|f: Seq<char>| req.contains(f) || (default_enabled && f == default_name()))
}

/// The seed lies inside its own closure.
proof fn lemma_seed_in_closure(rows: Seq<(Seq<char>, Seq<Seq<char>>)>, seed: Set<Seq<char>>)
    ensures
        forall|f: Seq<char>| seed.contains(f) ==> closure(rows, seed).contains(f),
{
    assert forall|f: Seq<char>| seed.contains(f) implies closure(rows, seed).contains(f) by {
        assert(reach_n(rows, seed, 0).contains(f));
    }
}

/// The closure is closed under one more implication.
proof fn lemma_closure_step(
    rows: Seq<(Seq<char>, Seq<Seq<char>>)>,
    seed: Set<Seq<char>>,
    g: Seq<char>,
    f: Seq<char>,
)
    requires
        closure(rows, seed).contains(g),
        has_feature(rows, g),
        implies_of(rows, g).contains(f),
    ensures
        closure(rows, seed).contains(f),
{
    let n = choose|n: nat| reach_n(rows, seed, n).contains(g);
    assert(reach_n(rows, seed, n + 1).contains(f));
}

/// Any closed superset of the seed contains every reachable feature.
proof fn lemma_closed_bound(
    rows: Seq<(Seq<char>, Seq<Seq<char>>)>,
    seed: Set<Seq<char>>,
    s: Set<Seq<char>>,
    n: nat,
)
    requires
        forall|f: Seq<char>| seed.contains(f) ==> s.contains(f),
        forall|g: Seq<char>, f: Seq<char>|
            s.contains(g) && has_feature(rows, g) && #[trigger] implies_of(rows, g).contains(f)
                ==> s.contains(f),
    ensures
        forall|f: Seq<char>| reach_n(rows, seed, n).contains(f) ==> s.contains(f),
    decreases n,
{
    if n > 0 {
        lemma_closed_bound(rows, seed, s, (n - 1) as nat);
    }
}

/// The summed length of the activation lists of the rows whose key lies
/// in `s`.
spec fn used_sum(rows: Seq<(Seq<char>, Seq<Seq<char>>)>, s: Set<Seq<char>>) -> int
    decreases rows.len(),
{
    if rows.len() == 0 {
        0
    } else {
        used_sum(rows.drop_last(), s) + (if s.contains(rows.last().0) {
            rows.last().1.len() as int
        } else {
            0int
        })
    }
}

/// The summed length of every activation list.
spec fn total_implies(rows: Seq<(Seq<char>, Seq<Seq<char>>)>) -> int
    decreases rows.len(),
{
    if rows.len() == 0 {
        0
    } else {
        total_implies(rows.drop_last()) + rows.last().1.len() as int
    }
}

proof fn lemma_used_le_total(rows: Seq<(Seq<char>, Seq<Seq<char>>)>, s: Set<Seq<char>>)
    ensures
        0 <= used_sum(rows, s) <= total_implies(rows),
    decreases rows.len(),
{
    if rows.len() > 0 {
        lemma_used_le_total(rows.drop_last(), s);
    }
}

proof fn lemma_used_monotone(rows: Seq<(Seq<char>, Seq<Seq<char>>)>, s: Set<Seq<char>>, g: Seq<char>)
    ensures
        used_sum(rows, s) <= used_sum(rows, s.insert(g)),
    decreases rows.len(),
{
    if rows.len() > 0 {
        lemma_used_monotone(rows.drop_last(), s, g);
    }
}

proof fn lemma_used_insert(
    rows: Seq<(Seq<char>, Seq<Seq<char>>)>,
    s: Set<Seq<char>>,
    g: Seq<char>,
    idx: int,
)
    requires
        rows_distinct(rows),
        0 <= idx < rows.len(),
        rows[idx].0 == g,
        !s.contains(g),
    ensures
        used_sum(rows, s.insert(g)) >= used_sum(rows, s) + rows[idx].1.len(),
    decreases rows.len(),
{
    if idx == rows.len() - 1 {
        lemma_used_monotone(rows.drop_last(), s, g);
        assert(rows.last() == rows[idx]);
    } else {
        assert(rows.drop_last()[idx] == rows[idx]);
        assert(rows.last().0 != g);
        lemma_used_insert(rows.drop_last(), s, g, idx);
    }
}

/// The row of feature `name`, if the table has one.
fn find_row(available: &Vec<FeatureRow>, name: &String) -> (r: Option<usize>)
    ensures
        r matches Some(i) ==> i < available@.len() && rows_view(available@)[i as int].0 == name@,
        r is None ==> !has_feature(rows_view(available@), name@),
{
    let ghost rows = rows_view(available@);
    let mut i: usize = 0;
    while i < available.len()
        invariant
            i <= available.len(),
            rows == rows_view(available@),
            rows.len() == available.len(),
            forall|j: int| 0 <= j < i ==> (#[trigger] rows[j]).0 != name@,
        decreases available.len() - i,
    {
        assert(rows[i as int] == available@[i as int]@);
        if string_eq(&available[i].name, name) {
            return Some(i);
        }
        i = i + 1;
    }
    None
}

/// The distinct seed features, in first-seen order.
fn seed_order(requested: &Vec<String>, default_enabled: bool) -> (order: Vec<String>)
    ensures
        order.deep_view().no_duplicates(),
        set_of(order.deep_view()) == seed_set(requested.deep_view(), default_enabled),
{
    let ghost req = requested.deep_view();
    let mut order: Vec<String> = Vec::new();
    let mut i: usize = 0;
    while i < requested.len()
        invariant
            i <= requested.len(),
            req == requested.deep_view(),
            req.len() == requested.len(),
            order.deep_view().no_duplicates(),
            forall|f: Seq<char>| order.deep_view().contains(f) ==> req.contains(f),
            forall|j: int| 0 <= j < i ==> order.deep_view().contains(#[trigger] req[j]),
        decreases requested.len() - i,
    {
        let ghost o0 = order.deep_view();
        assert(req[i as int] == requested[i as int]@);
        if !contains_string(&order, &requested[i]) {
            order.push(requested[i].clone());
            proof {
                assert(order.deep_view() =~= o0.push(req[i as int]));
                lemma_push_contains(o0, req[i as int]);
                assert(order.deep_view().no_duplicates()) by {
                    assert forall|a: int, b: int|
                        0 <= a < b < order.deep_view().len() implies order.deep_view()[a]
                        != order.deep_view()[b] by {
                        if b == order.deep_view().len() - 1 {
                            assert(o0[a] == order.deep_view()[a]);
                            if order.deep_view()[a] == req[i as int] {
                                assert(o0.contains(req[i as int]));
                            }
                        } else {
                            assert(o0[a] == order.deep_view()[a]);
                            assert(o0[b] == order.deep_view()[b]);
                        }
                    }
                }
            }
        }
        i = i + 1;
    }
    if default_enabled {
        let d: String = "default".to_owned();
        let ghost o0 = order.deep_view();
        if !contains_string(&order, &d) {
            order.push(d);
            proof {
                assert(order.deep_view() =~= o0.push(default_name()));
                lemma_push_contains(o0, default_name());
                assert(order.deep_view().no_duplicates()) by {
                    assert forall|a: int, b: int|
                        0 <= a < b < order.deep_view().len() implies order.deep_view()[a]
                        != order.deep_view()[b] by {
                        if b == order.deep_view().len() - 1 {
                            assert(o0[a] == order.deep_view()[a]);
                            if order.deep_view()[a] == default_name() {
                                assert(o0.contains(default_name()));
                            }
                        } else {
                            assert(o0[a] == order.deep_view()[a]);
                            assert(o0[b] == order.deep_view()[b]);
                        }
                    }
                }
            }
        }
        assert(order.deep_view().contains(default_name()));
    }
    proof {
        assert forall|f: Seq<char>|
            set_of(order.deep_view()).contains(f) == seed_set(req, default_enabled).contains(
            f,
        ) by {
            if seed_set(req, default_enabled).contains(f) {
                if req.contains(f) {
                    let j = choose|j: int| 0 <= j < req.len() && req[j] == f;
                    assert(order.deep_view().contains(req[j]));
                }
            }
        }
        assert(set_of(order.deep_view()) =~= seed_set(req, default_enabled));
    }
    order
}

/// Expand the distinct seed list to the full closure, breadth first.
fn bfs_expand(seed_list: Vec<String>, available: &Vec<FeatureRow>) -> (order: Vec<String>)
    requires
        rows_distinct(rows_view(available@)),
        seed_list.deep_view().no_duplicates(),
    ensures
        order.deep_view().no_duplicates(),
        set_of(order.deep_view()) == closure(
            rows_view(available@),
            set_of(seed_list.deep_view()),
        ),
{
    broadcast use vstd::set_lib::group_set_lib_default;

    let ghost rows = rows_view(available@);
    let ghost seed = set_of(seed_list.deep_view());
    let ghost base = seed_list.deep_view().len() as int;
    let mut order = seed_list;
    let mut i: usize = 0;
    proof {
        lemma_seed_in_closure(rows, seed);
        assert forall|f: Seq<char>| #[trigger] order.deep_view().contains(f) implies closure(
            rows,
            seed,
        ).contains(f) by {
            assert(seed.contains(f));
        }
        assert(order.deep_view().take(0) =~= Seq::<Seq<char>>::empty());
        assert(used_sum(rows, set_of(Seq::<Seq<char>>::empty())) == 0) by {
            lemma_used_none(rows, set_of(Seq::<Seq<char>>::empty()));
        }
    }
    while i < order.len()
        invariant
            i <= order.len(),
            rows == rows_view(available@),
            rows_distinct(rows),
            order.deep_view().no_duplicates(),
            forall|f: Seq<char>|
                #[trigger] order.deep_view().contains(f) ==> closure(rows, seed).contains(f),
            forall|f: Seq<char>| seed.contains(f) ==> order.deep_view().contains(f),
            forall|p: int, f: Seq<char>|
                0 <= p < i && has_feature(rows, #[trigger] order.deep_view()[p]) && #[trigger] implies_of(
                    rows,
                    order.deep_view()[p],
                ).contains(f) ==> order.deep_view().contains(f),
            order.deep_view().len() <= base + used_sum(
                rows,
                set_of(order.deep_view().take(i as int)),
            ),
        decreases base + total_implies(rows) - i,
    {
        proof {
            lemma_used_le_total(rows, set_of(order.deep_view().take(i as int)));
        }
        let g = order[i].clone();
        assert(g@ == order.deep_view()[i as int]);
        assert(order.deep_view().contains(g@));
        let ghost procd = set_of(order.deep_view().take(i as int));
        let ghost procd1 = set_of(order.deep_view().take(i as int + 1));
        proof {
            assert(order.deep_view().take(i as int + 1) =~= order.deep_view().take(
                i as int,
            ).push(g@));
            lemma_push_contains(order.deep_view().take(i as int), g@);
            assert(!procd.contains(g@)) by {
                if order.deep_view().take(i as int).contains(g@) {
                    let p = choose|p: int|
                        0 <= p < i && order.deep_view().take(i as int)[p] == g@;
                    assert(order.deep_view()[p] == order.deep_view()[i as int]);
                }
            }
            assert(procd1 =~= procd.insert(g@));
        }
        match find_row(available, &g) {
            Some(m) => {
                let ghost len0 = order.deep_view().len() as int;
                let ghost pre = order.deep_view().take(i as int);
                let row = &available[m];
                assert(rows[m as int] == row@);
                assert(rows[m as int].0 == g@);
                proof {
                    lemma_row_is_implies(rows, g@, m as int);
                    lemma_used_insert(rows, procd, g@, m as int);
                }
                let mut j: usize = 0;
                while j < row.implies.len()
                    invariant
                        j <= row.implies.len(),
                        rows == rows_view(available@),
                        rows_distinct(rows),
                        m < available.len(),
                        row == available[m as int],
                        rows[m as int].0 == g@,
                        rows[m as int].1 == row.implies.deep_view(),
                        implies_of(rows, g@) == row.implies.deep_view(),
                        row.implies.deep_view().len() == row.implies.len(),
                        i < order.deep_view().len(),
                        order.deep_view()[i as int] == g@,
                        closure(rows, seed).contains(g@),
                        order.deep_view().no_duplicates(),
                        order.deep_view().len() <= len0 + j,
                        forall|f: Seq<char>|
                            #[trigger] order.deep_view().contains(f) ==> closure(
                                rows,
                                seed,
                            ).contains(f),
                        forall|f: Seq<char>| seed.contains(f) ==> order.deep_view().contains(f),
                        forall|p: int, f: Seq<char>|
                            0 <= p < i && has_feature(rows, #[trigger] order.deep_view()[p])
                                && #[trigger] implies_of(rows, order.deep_view()[p]).contains(f)
                                ==> order.deep_view().contains(f),
                        forall|jj: int|
                            0 <= jj < j ==> order.deep_view().contains(
                                #[trigger] row.implies.deep_view()[jj],
                            ),
                        order.deep_view().take(i as int) == pre,
                    decreases row.implies.len() - j,
                {
                    let ghost o0 = order.deep_view();
                    let f = &row.implies[j];
                    assert(f@ == row.implies.deep_view()[j as int]);
                    if !contains_string(&order, f) {
                        let fc = f.clone();
                        order.push(fc);
                        proof {
                            assert(order.deep_view() =~= o0.push(f@));
                            lemma_push_contains(o0, f@);
                            lemma_closure_step(rows, seed, g@, f@);
                            assert(order.deep_view().take(i as int + 1) =~= o0.take(
                                i as int + 1,
                            ));
                            assert(order.deep_view().take(i as int) =~= o0.take(i as int));
                            assert forall|p: int|
                                0 <= p < order.deep_view().len() - 1 implies #[trigger] order.deep_view()[p]
                                == o0[p] by {}
                            assert(order.deep_view().no_duplicates()) by {
                                assert forall|a: int, b: int|
                                    0 <= a < b < order.deep_view().len() implies order.deep_view()[a]
                                    != order.deep_view()[b] by {
                                    if b == order.deep_view().len() - 1 {
                                        assert(o0[a] == order.deep_view()[a]);
                                        if order.deep_view()[a] == f@ {
                                            assert(o0.contains(f@));
                                        }
                                    }
                                }
                            }
                        }
                    }
                    j = j + 1;
                }
                proof {
                    assert(used_sum(rows, procd1) >= used_sum(rows, procd) + row.implies.len());
                    assert(order.deep_view().len() <= base + used_sum(rows, procd1));
                    assert(order.deep_view().take(i as int + 1) =~= pre.push(g@));
                    assert(set_of(order.deep_view().take(i as int + 1)) =~= procd1);
                    assert forall|p: int, f: Seq<char>|
                        0 <= p < i + 1 && has_feature(rows, #[trigger] order.deep_view()[p])
                            && #[trigger] implies_of(rows, order.deep_view()[p]).contains(f)
                            implies order.deep_view().contains(f) by {
                        if p == i as int {
                            let jj = choose|jj: int|
                                0 <= jj < implies_of(rows, g@).len() && implies_of(rows, g@)[jj]
                                    == f;
                            assert(order.deep_view().contains(row.implies.deep_view()[jj]));
                        }
                    }
                }
            },
            None => {
                proof {
                    lemma_used_monotone(rows, procd, g@);
                    assert(used_sum(rows, procd1) >= used_sum(rows, procd));
                    assert forall|p: int, f: Seq<char>|
                        0 <= p < i + 1 && has_feature(rows, #[trigger] order.deep_view()[p])
                            && #[trigger] implies_of(rows, order.deep_view()[p]).contains(f)
                            implies order.deep_view().contains(f) by {}
                }
            },
        }
        i = i + 1;
    }
    proof {
        let ov = order.deep_view();
        assert forall|f: Seq<char>|
            set_of(ov).contains(f) == closure(rows, seed).contains(f) by {
            if closure(rows, seed).contains(f) {
                assert forall|g: Seq<char>, h: Seq<char>|
                    set_of(ov).contains(g) && has_feature(rows, g) && #[trigger] implies_of(
                        rows,
                        g,
                    ).contains(h) implies set_of(ov).contains(h) by {
                    let p = choose|p: int| 0 <= p < ov.len() && ov[p] == g;
                    assert(implies_of(rows, ov[p]).contains(h));
                }
                let n = choose|n: nat| reach_n(rows, seed, n).contains(f);
                lemma_closed_bound(rows, seed, set_of(ov), n);
            }
        }
        assert(set_of(ov) =~= closure(rows, seed));
    }
    order
}

/// A permutation of a duplicate-free list is duplicate free and covers
/// the same set.
proof fn lemma_sort_keeps(a: Seq<Seq<char>>, b: Seq<Seq<char>>)
    requires
        a.to_multiset() == b.to_multiset(),
        a.no_duplicates(),
    ensures
        b.no_duplicates(),
        set_of(a) == set_of(b),
{
    a.lemma_multiset_has_no_duplicates();
    b.lemma_multiset_has_no_duplicates_conv();
    assert forall|f: Seq<char>| set_of(a).contains(f) == set_of(b).contains(f) by {
        vstd::seq_lib::to_multiset_contains(a, f);
        vstd::seq_lib::to_multiset_contains(b, f);
        assert(a.to_multiset().count(f) == b.to_multiset().count(f));
    }
    assert(set_of(a) =~= set_of(b));
}

/// Compute which features a request switches on and which stay off.
///
/// The seed is the requested set, plus the synthetic root when defaults
/// are on. The first list holds every transitively activated feature
/// except the root; the second holds every known feature that stays
/// inactive, again except the root. Both are duplicate free and sorted.
pub fn activated_features(
    requested: &Vec<String>,
    default_enabled: bool,
    available: &Vec<FeatureRow>,
) -> (r: (Vec<String>, Vec<String>))
    requires
        rows_distinct(rows_view(available@)),
    ensures
        ({
            let rows = rows_view(available@);
            let cl = closure(rows, seed_set(requested.deep_view(), default_enabled));
            &&& set_of(r.0.deep_view()) == cl.remove(default_name())
            &&& r.0.deep_view().no_duplicates()
            &&& strings_sorted(r.0.deep_view())
            &&& set_of(r.1.deep_view()) == Set::new(
                |f: Seq<char>| has_feature(rows, f) && !cl.contains(f) && f != default_name(),
            )
            &&& r.1.deep_view().no_duplicates()
            &&& strings_sorted(r.1.deep_view())
        }),
{
    let ghost rows = rows_view(available@);
    let ghost seed = seed_set(requested.deep_view(), default_enabled);
    let seeds = seed_order(requested, default_enabled);
    let order = bfs_expand(seeds, available);
    let ghost cl = closure(rows, seed);
    assert(set_of(order.deep_view()) == cl);
    let dflt: String = "default".to_owned();

    let mut act: Vec<String> = Vec::new();
    let mut k: usize = 0;
    proof {
        assert(order.deep_view().take(0) =~= Seq::<Seq<char>>::empty());
    }
    while k < order.len()
        invariant
            k <= order.len(),
            dflt@ == default_name(),
            order.deep_view().len() == order.len(),
            order.deep_view().no_duplicates(),
            act.deep_view().no_duplicates(),
            forall|f: Seq<char>|
                #[trigger] act.deep_view().contains(f) <==> (order.deep_view().take(
                    k as int,
                ).contains(f) && f != default_name()),
        decreases order.len() - k,
    {
        let ghost a0 = act.deep_view();
        let ghost pref = order.deep_view().take(k as int);
        assert(order.deep_view()[k as int] == order[k as int]@);
        proof {
            assert(order.deep_view().take(k as int + 1) =~= pref.push(order.deep_view()[k as int]));
            lemma_push_contains(pref, order.deep_view()[k as int]);
        }
        if !string_eq(&order[k], &dflt) {
            let ghost x = order.deep_view()[k as int];
            proof {
                assert(!a0.contains(x)) by {
                    if pref.contains(x) {
                        let p = choose|p: int| 0 <= p < k && pref[p] == x;
                        assert(order.deep_view()[p] == order.deep_view()[k as int]);
                    }
                }
            }
            act.push(order[k].clone());
            proof {
                assert(act.deep_view() =~= a0.push(x));
                lemma_push_contains(a0, x);
                assert(act.deep_view().no_duplicates()) by {
                    assert forall|a: int, b: int|
                        0 <= a < b < act.deep_view().len() implies act.deep_view()[a]
                        != act.deep_view()[b] by {
                        if b == act.deep_view().len() - 1 {
                            assert(a0[a] == act.deep_view()[a]);
                            if act.deep_view()[a] == x {
                                assert(a0.contains(x));
                            }
                        } else {
                            assert(a0[a] == act.deep_view()[a]);
                            assert(a0[b] == act.deep_view()[b]);
                        }
                    }
                }
            }
        }
        k = k + 1;
    }
    proof {
        assert(order.deep_view().take(order.len() as int) =~= order.deep_view());
        assert(set_of(act.deep_view()) =~= cl.remove(default_name()));
    }

    let mut deact: Vec<String> = Vec::new();
    let mut m: usize = 0;
    while m < available.len()
        invariant
            m <= available.len(),
            dflt@ == default_name(),
            rows == rows_view(available@),
            rows.len() == available.len(),
            rows_distinct(rows),
            set_of(order.deep_view()) == cl,
            deact.deep_view().no_duplicates(),
            forall|f: Seq<char>|
                #[trigger] deact.deep_view().contains(f) <==> (exists|p: int|
                    0 <= p < m && (#[trigger] rows[p]).0 == f && !cl.contains(f) && f
                        != default_name()),
        decreases available.len() - m,
    {
        let ghost d0 = deact.deep_view();
        let key = &available[m].name;
        assert(rows[m as int] == available@[m as int]@);
        assert(key@ == rows[m as int].0);
        let in_closure = contains_string(&order, key);
        assert(in_closure == cl.contains(key@));
        if !in_closure && !string_eq(key, &dflt) {
            proof {
                assert(!d0.contains(key@)) by {
                    if d0.contains(key@) {
                        let p = choose|p: int|
                            0 <= p < m && rows[p].0 == key@ && !cl.contains(key@) && key@
                                != default_name();
                        assert(rows[p].0 == rows[m as int].0);
                    }
                }
            }
            deact.push(key.clone());
            proof {
                assert(deact.deep_view() =~= d0.push(key@));
                lemma_push_contains(d0, key@);
                assert(deact.deep_view().no_duplicates()) by {
                    assert forall|a: int, b: int|
                        0 <= a < b < deact.deep_view().len() implies deact.deep_view()[a]
                        != deact.deep_view()[b] by {
                        if b == deact.deep_view().len() - 1 {
                            assert(d0[a] == deact.deep_view()[a]);
                            if deact.deep_view()[a] == key@ {
                                assert(d0.contains(key@));
                            }
                        } else {
                            assert(d0[a] == deact.deep_view()[a]);
                            assert(d0[b] == deact.deep_view()[b]);
                        }
                    }
                }
            }
        }
        m = m + 1;
    }
    proof {
        assert(set_of(deact.deep_view()) =~= Set::new(
            |f: Seq<char>| has_feature(rows, f) && !cl.contains(f) && f != default_name(),
        ));
    }

    let ghost act_pre = act.deep_view();
    let ghost deact_pre = deact.deep_view();
    let act_sorted = sort_strings(act);
    let deact_sorted = sort_strings(deact);
    proof {
        lemma_sort_keeps(act_pre, act_sorted.deep_view());
        lemma_sort_keeps(deact_pre, deact_sorted.deep_view());
    }
    (act_sorted, deact_sorted)
}

/// The requested features the dependency does not offer, duplicate free
/// and sorted.
pub fn unknown_features(requested: &Vec<String>, available: &Vec<FeatureRow>) -> (r: Vec<String>)
    ensures
        set_of(r.deep_view()) == Set::new(
            |f: Seq<char>|
                requested.deep_view().contains(f) && !has_feature(rows_view(available@), f),
        ),
        r.deep_view().no_duplicates(),
        strings_sorted(r.deep_view()),
{
    let ghost rows = rows_view(available@);
    let ghost req = requested.deep_view();
    let mut out: Vec<String> = Vec::new();
    let mut i: usize = 0;
    while i < requested.len()
        invariant
            i <= requested.len(),
            rows == rows_view(available@),
            req == requested.deep_view(),
            req.len() == requested.len(),
            out.deep_view().no_duplicates(),
            forall|f: Seq<char>|
                #[trigger] out.deep_view().contains(f) <==> (req.take(i as int).contains(f)
                    && !has_feature(rows, f)),
        decreases requested.len() - i,
    {
        let ghost o0 = out.deep_view();
        let name = &requested[i];
        assert(name@ == req[i as int]);
        proof {
            assert(req.take(i as int + 1) =~= req.take(i as int).push(req[i as int]));
            lemma_push_contains(req.take(i as int), req[i as int]);
        }
        let known = match find_row(available, name) {
            Some(_) => true,
            None => false,
        };
        if !known && !contains_string(&out, name) {
            out.push(name.clone());
            proof {
                assert(out.deep_view() =~= o0.push(name@));
                lemma_push_contains(o0, name@);
                assert(out.deep_view().no_duplicates()) by {
                    assert forall|a: int, b: int|
                        0 <= a < b < out.deep_view().len() implies out.deep_view()[a]
                        != out.deep_view()[b] by {
                        if b == out.deep_view().len() - 1 {
                            assert(o0[a] == out.deep_view()[a]);
                            if out.deep_view()[a] == name@ {
                                assert(o0.contains(name@));
                            }
                        } else {
                            assert(o0[a] == out.deep_view()[a]);
                            assert(o0[b] == out.deep_view()[b]);
                        }
                    }
                }
            }
        }
        i = i + 1;
    }
    proof {
        assert(req.take(req.len() as int) =~= req);
    }
    let ghost out_pre = out.deep_view();
    let sorted = sort_strings(out);
    proof {
        lemma_sort_keeps(out_pre, sorted.deep_view());
        assert(set_of(sorted.deep_view()) =~= Set::new(
            |f: Seq<char>| req.contains(f) && !has_feature(rows, f),
        ));
    }
    sorted
}

/// What a list contains after one more element.
proof fn lemma_push_contains(s: Seq<Seq<char>>, x: Seq<char>)
    ensures
        forall|f: Seq<char>| #[trigger] s.push(x).contains(f) <==> (s.contains(f) || f == x),
{
    assert forall|f: Seq<char>| #[trigger] s.push(x).contains(f) implies (s.contains(f) || f
        == x) by {
        let p = choose|p: int| 0 <= p < s.push(x).len() && s.push(x)[p] == f;
        if p < s.len() {
            assert(s[p] == f);
        }
    }
    assert forall|f: Seq<char>| (s.contains(f) || f == x) implies #[trigger] s.push(x).contains(
        f,
    ) by {
        if s.contains(f) {
            let p = choose|p: int| 0 <= p < s.len() && s[p] == f;
            assert(s.push(x)[p] == f);
        } else {
            assert(s.push(x)[s.len() as int] == x);
        }
    }
}

/// With distinct row keys, the row found for `g` is the row the spec
/// level reads.
proof fn lemma_row_is_implies(rows: Seq<(Seq<char>, Seq<Seq<char>>)>, g: Seq<char>, m: int)
    requires
        rows_distinct(rows),
        0 <= m < rows.len(),
        rows[m].0 == g,
    ensures
        row_index(rows, g) == m,
        implies_of(rows, g) == rows[m].1,
{
    assert(has_feature(rows, g));
    let c = row_index(rows, g);
    if c != m {
        if c < m {
            assert(rows[c].0 != rows[m].0);
        } else {
            assert(rows[m].0 != rows[c].0);
        }
    }
}

proof fn lemma_used_none(rows: Seq<(Seq<char>, Seq<Seq<char>>)>, s: Set<Seq<char>>)
    requires
        s =~= Set::<Seq<char>>::empty(),
    ensures
        used_sum(rows, s) == 0,
    decreases rows.len(),
{
    if rows.len() > 0 {
        lemma_used_none(rows.drop_last(), s);
    }
}

} // verus!
