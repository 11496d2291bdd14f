//! The pair bookkeeping of the batch scanner: from the raw neighbour hits
//! of every query to the list of distinct pairs to persist, each in
//! canonical order.
use vstd::prelude::*;
use crate::records::{pair_key, canonical_pair, lemma_pair_key_symmetric};
use crate::text::str_eq;

verus! {

/// One neighbour found for one query: both are positions in the scanned
/// units' list.
#[derive(Debug, Clone, Copy)]
pub struct ScanHit<T> {
    pub query: usize,
    pub target: usize,
    pub similarity: T,
}

/// A hit is kept when both positions are valid, the names differ, and (in
/// cross-project mode) the target is not known to lie in the query's
/// project.
pub open spec fn hit_kept<T>(
    names: Seq<String>,
    projects: Seq<Option<i64>>,
    h: ScanHit<T>,
    cross_only: bool,
) -> bool {
    &&& h.query < names.len()
    &&& h.target < names.len()
    &&& h.query < projects.len()
    &&& h.target < projects.len()
    &&& names[h.query as int]@ != names[h.target as int]@
    &&& !(cross_only && projects[h.target as int] is Some && projects[h.target as int]
        == projects[h.query as int])
}

/// A hit joins the units at positions `a` and `b`, in either order.
pub open spec fn joins<T>(h: ScanHit<T>, a: int, b: int) -> bool {
    (h.query == a && h.target == b) || (h.query == b && h.target == a)
}

/// The positions of the hits that are kept and join two units no earlier
/// kept hit joined, in hit order.
pub open spec fn first_hits<T>(
    names: Seq<String>,
    projects: Seq<Option<i64>>,
    hits: Seq<ScanHit<T>>,
    cross_only: bool,
) -> Seq<int>
    decreases hits.len(),
{
    if hits.len() == 0 {
        Seq::empty()
    } else {
        let prev = first_hits(names, projects, hits.drop_last(), cross_only);
        let h = hits.last();
        if hit_kept(names, projects, h, cross_only) && !(exists|i: int|
            0 <= i < prev.len() && joins(#[trigger] hits[prev[i]], h.query as int, h.target as int)) {
            prev.push(hits.len() - 1)
        } else {
            prev
        }
    }
}

/// The pair a hit stands for, in canonical order, with its similarity.
pub open spec fn pair_of_hit<T>(names: Seq<String>, h: ScanHit<T>) -> (Seq<char>, Seq<char>, T) {
    let k = pair_key(names[h.query as int]@, names[h.target as int]@);
    (k.0, k.1, h.similarity)
}

proof fn lemma_first_hits_bounds<T>(
    names: Seq<String>,
    projects: Seq<Option<i64>>,
    hits: Seq<ScanHit<T>>,
    cross_only: bool,
)
    ensures
        forall|i: int|
            0 <= i < first_hits(names, projects, hits, cross_only).len() ==> 0 <= #[trigger] first_hits(
                names,
                projects,
                hits,
                cross_only,
            )[i] < hits.len() && hit_kept(
                names,
                projects,
                hits[first_hits(names, projects, hits, cross_only)[i]],
                cross_only,
            ),
    decreases hits.len(),
{
    if hits.len() > 0 {
        lemma_first_hits_bounds(names, projects, hits.drop_last(), cross_only);
        let prev = first_hits(names, projects, hits.drop_last(), cross_only);
        let cur = first_hits(names, projects, hits, cross_only);
        assert forall|i: int| 0 <= i < cur.len() implies 0 <= #[trigger] cur[i] < hits.len() && hit_kept(
            names,
            projects,
            hits[cur[i]],
            cross_only,
        ) by {
            if i < prev.len() {
                assert(cur[i] == prev[i]);
                assert(hits.drop_last()[prev[i]] == hits[prev[i]]);
            }
        }
    }
}

proof fn lemma_push_contains<A>(s: Seq<A>, x: A, y: A)
    ensures
        s.push(x).contains(y) == (s.contains(y) || x == y),
{
    if s.contains(y) {
        let q = choose|q: int| 0 <= q < s.len() && s[q] == y;
        assert(s.push(x)[q] == y);
    }
    if x == y {
        assert(s.push(x)[s.len() as int] == y);
    }
    if s.push(x).contains(y) {
        let q = choose|q: int| 0 <= q < s.push(x).len() && s.push(x)[q] == y;
        if q < s.len() {
            assert(s[q] == y);
        }
    }
}

fn same_project(a: Option<i64>, b: Option<i64>) -> (r: bool)
    ensures
        r == (a is Some && a == b),
{
    match (a, b) {
        (Some(x), Some(y)) => x == y,
        _ => false,
    }
}

fn copy_push(v: &Vec<usize>, x: usize) -> (r: Vec<usize>)
    ensures
        r@ == v@.push(x),
{
    let mut r: Vec<usize> = Vec::new();
    let mut i: usize = 0;
    while i < v.len()
        invariant
            i <= v.len(),
            r@ == v@.take(i as int),
        decreases v.len() - i,
    {
        r.push(v[i]);
        i = i + 1;
        assert(r@ =~= v@.take(i as int));
    }
    assert(v@.take(v@.len() as int) =~= v@);
    r.push(x);
    r
}

/// No name occurs at two positions.
pub open spec fn distinct_names(names: Seq<String>) -> bool {
    forall|a: int, b: int| 0 <= a < b < names.len() ==> names[a]@ != names[b]@
}

/// Two kept hits over distinct names stand for the same pair of names
/// exactly when they join the same two positions.
pub proof fn lemma_key_iff_joins<T>(
    names: Seq<String>,
    projects: Seq<Option<i64>>,
    h1: ScanHit<T>,
    h2: ScanHit<T>,
    cross_only: bool,
)
    requires
        distinct_names(names),
        hit_kept(names, projects, h1, cross_only),
        hit_kept(names, projects, h2, cross_only),
    ensures
        (pair_of_hit(names, h1).0 == pair_of_hit(names, h2).0 && pair_of_hit(names, h1).1
            == pair_of_hit(names, h2).1) <==> joins(h2, h1.query as int, h1.target as int),
{
    let a1 = names[h1.query as int]@;
    let b1 = names[h1.target as int]@;
    let a2 = names[h2.query as int]@;
    let b2 = names[h2.target as int]@;
    lemma_pair_key_symmetric(a1, b1);
    lemma_pair_key_symmetric(a2, b2);
    assert(forall|x: int, y: int|
        0 <= x < names.len() && 0 <= y < names.len() && names[x]@ == names[y]@ ==> x == y) by {
        assert forall|x: int, y: int|
            0 <= x < names.len() && 0 <= y < names.len() && names[x]@ == names[y]@ implies x
            == y by {
            if x < y {
                assert(names[x]@ != names[y]@);
            } else if y < x {
                assert(names[y]@ != names[x]@);
            }
        }
    }
}

proof fn lemma_first_hits_unlinked<T>(
    names: Seq<String>,
    projects: Seq<Option<i64>>,
    hits: Seq<ScanHit<T>>,
    cross_only: bool,
)
    ensures
        forall|i: int, j: int|
            0 <= i < j < first_hits(names, projects, hits, cross_only).len() ==> !joins(
                #[trigger] hits[first_hits(names, projects, hits, cross_only)[i]],
                hits[#[trigger] first_hits(names, projects, hits, cross_only)[j]].query as int,
                hits[first_hits(names, projects, hits, cross_only)[j]].target as int,
            ),
    decreases hits.len(),
{
    if hits.len() > 0 {
        let prev = first_hits(names, projects, hits.drop_last(), cross_only);
        let cur = first_hits(names, projects, hits, cross_only);
        lemma_first_hits_unlinked(names, projects, hits.drop_last(), cross_only);
        lemma_first_hits_bounds(names, projects, hits.drop_last(), cross_only);
        assert forall|i: int, j: int| 0 <= i < j < cur.len() implies !joins(
            #[trigger] hits[cur[i]],
            hits[#[trigger] cur[j]].query as int,
            hits[cur[j]].target as int,
        ) by {
            assert(cur[i] == prev[i]);
            assert(hits.drop_last()[prev[i]] == hits[prev[i]]);
            if j < prev.len() {
                assert(cur[j] == prev[j]);
                assert(hits.drop_last()[prev[j]] == hits[prev[j]]);
            } else {
                assert(cur[j] == hits.len() - 1);
            }
        }
    }
}

/// The canonical names of the `i`-th pair to persist.
pub open spec fn scan_key_at<T>(
    names: Seq<String>,
    projects: Seq<Option<i64>>,
    hits: Seq<ScanHit<T>>,
    cross_only: bool,
    i: int,
) -> (Seq<char>, Seq<char>) {
    let p = pair_of_hit(names, hits[first_hits(names, projects, hits, cross_only)[i]]);
    (p.0, p.1)
}

/// Over distinct names, the pairs to persist are distinct: no two of them
/// name the same two units.
pub proof fn lemma_scan_pairs_distinct<T>(
    names: Seq<String>,
    projects: Seq<Option<i64>>,
    hits: Seq<ScanHit<T>>,
    cross_only: bool,
)
    requires
        distinct_names(names),
    ensures
        forall|i: int, j: int|
            0 <= i < j < first_hits(names, projects, hits, cross_only).len() ==> #[trigger] scan_key_at(
                names,
                projects,
                hits,
                cross_only,
                i,
            ) != #[trigger] scan_key_at(names, projects, hits, cross_only, j),
{
    let f = first_hits(names, projects, hits, cross_only);
    lemma_first_hits_unlinked(names, projects, hits, cross_only);
    lemma_first_hits_bounds(names, projects, hits, cross_only);
    assert forall|i: int, j: int| 0 <= i < j < f.len() implies #[trigger] scan_key_at(
        names,
        projects,
        hits,
        cross_only,
        i,
    ) != #[trigger] scan_key_at(names, projects, hits, cross_only, j) by {
        assert(0 <= f[i] < hits.len() && 0 <= f[j] < hits.len());
        lemma_key_iff_joins(names, projects, hits[f[j]], hits[f[i]], cross_only);
    }
}

/// The pairs to persist: for each kept hit (see `hit_kept`) that joins two
/// units no earlier kept hit joined, the two names in canonical order and
/// its similarity, in hit order. Names are distinct (they are qualified
/// names), so joining the same positions is naming the same pair.
pub fn collect_scan_pairs<T: Copy>(
    names: &Vec<String>,
    projects: &Vec<Option<i64>>,
    hits: &Vec<ScanHit<T>>,
    cross_only: bool,
) -> (r: Vec<(String, String, T)>)
    requires
        distinct_names(names@),
    ensures
        r@.len() == first_hits(names@, projects@, hits@, cross_only).len(),
        forall|i: int|
            0 <= i < r@.len() ==> {
                let p = pair_of_hit(names@, hits@[first_hits(names@, projects@, hits@, cross_only)[i]]);
                &&& (#[trigger] r@[i]).0@ == p.0
                &&& r@[i].1@ == p.1
                &&& r@[i].2 == p.2
            },
{
    let n = names.len();
    let mut seen: Vec<Vec<usize>> = Vec::new();
    let mut z: usize = 0;
    while z < n
        invariant
            z <= n,
            n == names.len(),
            seen@.len() == z,
            forall|a: int| 0 <= a < z ==> (#[trigger] seen@[a])@.len() == 0,
        decreases n - z,
    {
        seen.push(Vec::new());
        z = z + 1;
    }
    let ghost mut firsts: Seq<int> = Seq::empty();
    let mut r: Vec<(String, String, T)> = Vec::new();
    let mut i: usize = 0;
    while i < hits.len()
        invariant
            i <= hits.len(),
            n == names.len(),
            seen@.len() == n,
            firsts == first_hits(names@, projects@, hits@.take(i as int), cross_only),
            r@.len() == firsts.len(),
            forall|k: int| 0 <= k < firsts.len() ==> 0 <= #[trigger] firsts[k] < i,
            forall|k: int|
                0 <= k < r@.len() ==> {
                    let p = pair_of_hit(names@, hits@[firsts[k]]);
                    &&& (#[trigger] r@[k]).0@ == p.0
                    &&& r@[k].1@ == p.1
                    &&& r@[k].2 == p.2
                },
            forall|a: int, b: usize|
                0 <= a < n && b < n ==> ((#[trigger] seen@[a]@.contains(b)) <==> exists|k: int|
                    0 <= k < firsts.len() && joins(#[trigger] hits@[firsts[k]], a, b as int)),
        decreases hits.len() - i,
    {
        let h = hits[i];
        proof {
            assert(hits@.take(i + 1).drop_last() =~= hits@.take(i as int));
            assert(hits@.take(i + 1).last() == h);
            lemma_first_hits_bounds(names@, projects@, hits@.take(i as int), cross_only);
        }
        let kept = h.query < n && h.target < n && h.query < projects.len() && h.target
            < projects.len() && !str_eq(names[h.query].as_str(), names[h.target].as_str()) && !(
        cross_only && same_project(projects[h.target], projects[h.query]));
        assert(kept == hit_kept(names@, projects@, h, cross_only));
        if kept {
            let mut dup = false;
            let mut j: usize = 0;
            while j < seen[h.query].len()
                invariant
                    j <= seen@[h.query as int]@.len(),
                    h.query < n,
                    seen@.len() == n,
                    dup == seen@[h.query as int]@.take(j as int).contains(h.target),
                decreases seen@[h.query as int]@.len() - j,
            {
                if seen[h.query][j] == h.target {
                    dup = true;
                }
                proof {
                    lemma_push_contains(
                        seen@[h.query as int]@.take(j as int),
                        seen@[h.query as int]@[j as int],
                        h.target,
                    );
                    assert(seen@[h.query as int]@.take(j + 1) =~= seen@[h.query as int]@.take(
                        j as int,
                    ).push(seen@[h.query as int]@[j as int]));
                }
                j = j + 1;
            }
            proof {
                assert(seen@[h.query as int]@.take(seen@[h.query as int]@.len() as int)
                    =~= seen@[h.query as int]@);
            }
            let ghost q = h.query as int;
            let ghost t = h.target as int;
            proof {
                assert(q != t);
                let e = exists|k: int|
                    0 <= k < firsts.len() && joins(
                        #[trigger] hits@.take(i + 1)[firsts[k]],
                        hits@.take(i + 1).last().query as int,
                        hits@.take(i + 1).last().target as int,
                    );
                assert(e == dup) by {
                    if dup {
                        assert(seen@[q]@.contains(h.target));
                        assert(h.target < n);
                        let k = choose|k: int|
                            0 <= k < firsts.len() && joins(#[trigger] hits@[firsts[k]], h.query as int, h.target as int);
                        assert(hits@.take(i + 1)[firsts[k]] == hits@[firsts[k]]);
                    }
                    if e {
                        let k = choose|k: int|
                            0 <= k < firsts.len() && joins(
                                #[trigger] hits@.take(i + 1)[firsts[k]],
                                hits@.take(i + 1).last().query as int,
                                hits@.take(i + 1).last().target as int,
                            );
                        assert(hits@.take(i + 1)[firsts[k]] == hits@[firsts[k]]);
                        assert(joins(hits@[firsts[k]], h.query as int, h.target as int));
                    }
                }
            }
            if !dup {
                let (a, b) = canonical_pair(names[h.query].as_str(), names[h.target].as_str());
                r.push((a, b, h.similarity));
                let ghost old_seen = seen@;
                let sq = copy_push(&seen[h.query], h.target);
                seen.set(h.query, sq);
                let st = copy_push(&seen[h.target], h.query);
                seen.set(h.target, st);
                let ghost old_firsts = firsts;
                proof {
                    firsts = firsts.push(i as int);
                    assert forall|a: int, b: usize|
                        0 <= a < n && b < n implies ((#[trigger] seen@[a]@.contains(b)) <==> exists|k: int|
                            0 <= k < firsts.len() && joins(#[trigger] hits@[firsts[k]], a, b as int)) by {
                        let ex_old = exists|k: int|
                            0 <= k < old_firsts.len() && joins(#[trigger] hits@[old_firsts[k]], a, b as int);
                        let fresh = (a == q && b as int == t) || (a == t && b as int == q);
                        assert(old_seen[a]@.contains(b) == ex_old);
                        if a == q {
                            assert(seen@[a]@ == old_seen[a]@.push(h.target));
                            lemma_push_contains(old_seen[a]@, h.target, b);
                        } else if a == t {
                            assert(seen@[a]@ == old_seen[a]@.push(h.query));
                            lemma_push_contains(old_seen[a]@, h.query, b);
                        } else {
                            assert(seen@[a] == old_seen[a]);
                        }
                        assert(seen@[a]@.contains(b) == (ex_old || fresh));
                        if ex_old {
                            let k = choose|k: int|
                                0 <= k < old_firsts.len() && joins(#[trigger] hits@[old_firsts[k]], a, b as int);
                            assert(firsts[k] == old_firsts[k]);
                        }
                        if fresh {
                            assert(firsts[old_firsts.len() as int] == i);
                            assert(joins(hits@[firsts[old_firsts.len() as int]], a, b as int));
                        }
                        if exists|k: int|
                            0 <= k < firsts.len() && joins(#[trigger] hits@[firsts[k]], a, b as int) {
                            let k = choose|k: int|
                                0 <= k < firsts.len() && joins(#[trigger] hits@[firsts[k]], a, b as int);
                            if k < old_firsts.len() {
                                assert(firsts[k] == old_firsts[k]);
                            }
                        }
                    }
                }
            }
        }
        i = i + 1;
    }
    assert(hits@.take(hits@.len() as int) =~= hits@);
    r
}

} // verus!
