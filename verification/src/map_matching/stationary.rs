use vstd::prelude::*;
use std::collections::HashSet;

verus! {

broadcast use vstd::std_specs::hash::group_hash_axioms;

/// Whether `g` is the group of trace points of a maximal run of stationary steps, where
/// `stationary[j]` says that point `j + 1` did not move away from point `j`: the points
/// `a, a + 1, ..., b` (at least two) such that every step between them is stationary
/// and the steps just before `a` and just after `b`, where there are any, are not.
pub open spec fn is_stationary_group(stationary: Seq<bool>, g: Seq<usize>) -> bool {
    &&& g.len() >= 2
    &&& forall|t: int| 0 <= t < g.len() ==> #[trigger] g[t] == g[0] + t
    &&& g[0] + g.len() - 1 <= stationary.len()
    &&& forall|j: int| g[0] <= j < g[0] + g.len() - 1 ==> #[trigger] stationary[j]
    &&& (g[0] == 0 || !stationary[g[0] - 1])
    &&& (g[0] + g.len() - 1 == stationary.len() || !stationary[g[0] + g.len() - 1])
}

/// Whether a stationary step `j` lies inside group `g`.
pub open spec fn step_in_group(g: Seq<usize>, j: int) -> bool {
    g.len() > 0 && g[0] <= j < g[0] + g.len() - 1
}

/// The groups of trace points that stayed in place, given for each step between
/// consecutive points whether it was stationary: one group per maximal run of
/// stationary steps, holding the points of the run, in trace order.
pub fn stationary_groups(stationary: &Vec<bool>) -> (r: Vec<Vec<usize>>)
    requires
        stationary@.len() < usize::MAX,
    ensures
        forall|k: int| 0 <= k < r@.len() ==> is_stationary_group(stationary@, #[trigger] r@[k]@),
        forall|k: int, l: int| 0 <= k < l < r@.len() ==> (#[trigger] r@[k]@).last() < (#[trigger] r@[l]@)[0],
        forall|j: int| 0 <= j < stationary@.len() && #[trigger] stationary@[j]
            ==> exists|k: int| 0 <= k < r@.len() && step_in_group(#[trigger] r@[k]@, j),
{
    let ghost f = stationary@;
    let mut groups: Vec<Vec<usize>> = Vec::new();
    let mut current: Vec<usize> = Vec::new();
    let mut i: usize = 1;
    while i <= stationary.len()
        invariant
            f == stationary@,
            f.len() < usize::MAX,
            1 <= i <= f.len() + 1,
            // the closed groups are maximal runs that end before step i - 1
            forall|k: int| 0 <= k < groups@.len() ==> is_stationary_group(f, #[trigger] groups@[k]@)
                && groups@[k]@.last() < i,
            forall|k: int, l: int| 0 <= k < l < groups@.len() ==> (#[trigger] groups@[k]@).last() < (#[trigger] groups@[l]@)[0],
            // the open run: the points from its start up to point i - 1
            current@.len() > 0 ==> current@.len() >= 2 && current@.last() == i - 1
                && (forall|t: int| 0 <= t < current@.len() ==> #[trigger] current@[t] == current@[0] + t)
                && (forall|j: int| current@[0] <= j < i - 1 ==> #[trigger] f[j])
                && (current@[0] == 0 || !f[current@[0] - 1])
                && (forall|k: int| 0 <= k < groups@.len() ==> (#[trigger] groups@[k]@).last() < current@[0]),
            current@.len() == 0 ==> (i >= 2 ==> !f[i - 2]),
            // every stationary step before i - 1 lies in a closed group or in the open run
            forall|j: int| 0 <= j < i - 1 && #[trigger] f[j] ==>
                (exists|k: int| 0 <= k < groups@.len() && step_in_group(#[trigger] groups@[k]@, j))
                || step_in_group(current@, j),
        decreases f.len() + 1 - i,
    {
        if stationary[i - 1] {
            let ghost was_empty = current@.len() == 0;
            if current.len() == 0 {
                current.push(i - 1);
            }
            current.push(i);
            proof {
                assert forall|j: int| 0 <= j < i && #[trigger] f[j] implies
                    (exists|k: int| 0 <= k < groups@.len() && step_in_group(#[trigger] groups@[k]@, j))
                    || step_in_group(current@, j) by {
                    if j < i - 1 && !(exists|k: int| 0 <= k < groups@.len() && step_in_group(#[trigger] groups@[k]@, j)) {
                        assert(current@.len() >= 2);
                    }
                }
            }
        } else if current.len() > 0 {
            let ghost closed = current@;
            let ghost old_groups = groups@;
            let c = current;
            current = Vec::new();
            groups.push(c);
            proof {
                assert(is_stationary_group(f, closed));
                assert(groups@[groups@.len() - 1]@ == closed);
                assert forall|j: int| 0 <= j < i && #[trigger] f[j] implies
                    (exists|k: int| 0 <= k < groups@.len() && step_in_group(#[trigger] groups@[k]@, j))
                    || step_in_group(current@, j) by {
                    if exists|k: int| 0 <= k < old_groups.len() && step_in_group(#[trigger] old_groups[k]@, j) {
                        let k = choose|k: int| 0 <= k < old_groups.len() && step_in_group(#[trigger] old_groups[k]@, j);
                        assert(groups@[k] == old_groups[k]);
                    } else {
                        assert(step_in_group(groups@[groups@.len() - 1]@, j));
                    }
                }
            }
        }
        i = i + 1;
    }
    if current.len() > 0 {
        let ghost closed = current@;
        let ghost old_groups = groups@;
        groups.push(current);
        proof {
            assert(is_stationary_group(f, closed));
            assert forall|j: int| 0 <= j < f.len() && #[trigger] f[j] implies
                exists|k: int| 0 <= k < groups@.len() && step_in_group(#[trigger] groups@[k]@, j) by {
                if exists|k: int| 0 <= k < old_groups.len() && step_in_group(#[trigger] old_groups[k]@, j) {
                    let k = choose|k: int| 0 <= k < old_groups.len() && step_in_group(#[trigger] old_groups[k]@, j);
                    assert(groups@[k] == old_groups[k]);
                } else {
                    assert(step_in_group(groups@[groups@.len() - 1]@, j));
                }
            }
        }
    }
    groups
}

/// Whether trace point `i` is left out by a group: every point of a group but its first.
pub open spec fn skipped_by(groups: Seq<Vec<usize>>, i: int) -> bool {
    exists|k: int, t: int| 0 <= k < groups.len() && 1 <= t < groups[k]@.len() && #[trigger] groups[k]@[t] == i
}

/// The set of trace points that the groups leave out.
fn skipped_points(groups: &Vec<Vec<usize>>) -> (s: HashSet<usize>)
    ensures
        forall|i: usize| s@.contains(i) <==> skipped_by(groups@, i as int),
{
    let mut s: HashSet<usize> = HashSet::new();
    let mut k: usize = 0;
    while k < groups.len()
        invariant
            0 <= k <= groups@.len(),
            forall|i: usize| s@.contains(i) <==> exists|kk: int, t: int| 0 <= kk < k && 1 <= t < groups@[kk]@.len()
                && #[trigger] groups@[kk]@[t] == i,
        decreases groups@.len() - k,
    {
        let g = &groups[k];
        let mut t: usize = 1;
        while t < g.len()
            invariant
                0 <= k < groups@.len(),
                g@ == groups@[k as int]@,
                1 <= t <= g@.len() || (g@.len() == 0 && t == 1),
                forall|i: usize| s@.contains(i) <==> (exists|kk: int, tt: int| 0 <= kk < k && 1 <= tt < groups@[kk]@.len()
                    && #[trigger] groups@[kk]@[tt] == i) || (exists|tt: int| 1 <= tt < t && g@[tt] == i),
            decreases g@.len() - t,
        {
            s.insert(g[t]);
            t = t + 1;
        }
        proof {
            assert forall|i: usize| s@.contains(i) <==> exists|kk: int, tt: int| 0 <= kk < k + 1 && 1 <= tt < groups@[kk]@.len()
                && #[trigger] groups@[kk]@[tt] == i by {
                if exists|tt: int| 1 <= tt < t && g@[tt] == i {
                    let tt = choose|tt: int| 1 <= tt < t && g@[tt] == i;
                    assert(groups@[k as int]@[tt] == i);
                }
                if exists|kk: int, tt: int| 0 <= kk < k + 1 && 1 <= tt < groups@[kk]@.len() && #[trigger] groups@[kk]@[tt] == i {
                    let (kk, tt) = choose|kk: int, tt: int| 0 <= kk < k + 1 && 1 <= tt < groups@[kk]@.len()
                        && #[trigger] groups@[kk]@[tt] == i;
                    if kk == k {
                        assert(g@[tt] == i);
                    }
                }
            }
        }
        k = k + 1;
    }
    s
}

/// The trace points below `n` that no group leaves out, in trace order.
pub fn kept_points(n: usize, groups: &Vec<Vec<usize>>) -> (r: Vec<usize>)
    requires
        forall|k: int| 0 <= k < groups@.len() ==> #[trigger] groups@[k]@.len() >= 1,
    ensures
        forall|t: int| 0 <= t < r@.len() ==> #[trigger] r@[t] < n && !skipped_by(groups@, r@[t] as int),
        forall|a: int, b: int| 0 <= a < b < r@.len() ==> #[trigger] r@[a] < #[trigger] r@[b],
        forall|i: int| 0 <= i < n && !skipped_by(groups@, i) ==> #[trigger] r@.contains(i as usize),
{
    let skip = skipped_points(groups);
    let mut r: Vec<usize> = Vec::new();
    let mut i: usize = 0;
    while i < n
        invariant
            0 <= i <= n,
            forall|j: usize| skip@.contains(j) <==> skipped_by(groups@, j as int),
            forall|t: int| 0 <= t < r@.len() ==> #[trigger] r@[t] < i && !skipped_by(groups@, r@[t] as int),
            forall|a: int, b: int| 0 <= a < b < r@.len() ==> #[trigger] r@[a] < #[trigger] r@[b],
            forall|j: int| 0 <= j < i && !skipped_by(groups@, j) ==> #[trigger] r@.contains(j as usize),
        decreases n - i,
    {
        if !skip.contains(&i) {
            let ghost before = r@;
            assert(forall|j: int| 0 <= j < i && !skipped_by(groups@, j) ==> #[trigger] before.contains(j as usize));
            r.push(i);
            proof {
                assert forall|j: int| 0 <= j < i + 1 && !skipped_by(groups@, j) implies #[trigger] r@.contains(j as usize) by {
                    if j < i {
                        assert(before.contains(j as usize));
                        let t = choose|t: int| 0 <= t < before.len() && before[t] == j as usize;
                        assert(r@[t] == j as usize);
                    } else {
                        assert(r@[r@.len() - 1] == i);
                    }
                }
            }
        }
        i = i + 1;
    }
    r
}

/// The number of trace points below `n` that no group leaves out.
pub open spec fn kept_count(groups: Seq<Vec<usize>>, n: nat) -> nat
    decreases n,
{
    if n == 0 {
        0
    } else {
        kept_count(groups, (n - 1) as nat) + if skipped_by(groups, n - 1) { 0nat } else { 1nat }
    }
}

/// What the matches of the kept points give trace points `0..n`: walking the trace while
/// matches remain, a kept point takes the next match, and a left-out point repeats the
/// match given last, or gets none when no match was given yet.
pub open spec fn expanded_matches<M>(matches: Seq<M>, groups: Seq<Vec<usize>>, n: nat) -> Seq<M>
    decreases n,
{
    if n == 0 {
        Seq::empty()
    } else {
        let i = (n - 1) as nat;
        let c = kept_count(groups, i);
        let before = expanded_matches(matches, groups, i);
        if c >= matches.len() {
            before
        } else if !skipped_by(groups, i as int) {
            before.push(matches[c as int])
        } else if before.len() > 0 {
            before.push(before.last())
        } else {
            before
        }
    }
}

proof fn lemma_expansion_done<M>(matches: Seq<M>, groups: Seq<Vec<usize>>, i: nat, n: nat)
    requires
        i <= n,
        kept_count(groups, i) >= matches.len(),
    ensures
        expanded_matches(matches, groups, n) == expanded_matches(matches, groups, i),
    decreases n,
{
    if n > i {
        lemma_expansion_done(matches, groups, i, (n - 1) as nat);
        lemma_kept_count_monotone(groups, i, (n - 1) as nat);
    }
}

proof fn lemma_kept_count_monotone(groups: Seq<Vec<usize>>, i: nat, n: nat)
    requires
        i <= n,
    ensures
        kept_count(groups, i) <= kept_count(groups, n),
    decreases n,
{
    if n > i {
        lemma_kept_count_monotone(groups, i, (n - 1) as nat);
    }
}

/// Gives every point of a trace of `trace_len` points a match, from the matches of the
/// points that no group left out (in trace order): a left-out point repeats the match of
/// the point before it; the walk stops once the matches are used up.
pub fn expand_stationary_matches<M: Copy>(matches: &Vec<M>, groups: &Vec<Vec<usize>>, trace_len: usize) -> (r: Vec<M>)
    requires
        forall|k: int| 0 <= k < groups@.len() ==> #[trigger] groups@[k]@.len() >= 1,
    ensures
        r@ == expanded_matches(matches@, groups@, trace_len as nat),
{
    let skip = skipped_points(groups);
    let mut r: Vec<M> = Vec::new();
    let mut k: usize = 0;
    let mut i: usize = 0;
    while i < trace_len && k < matches.len()
        invariant
            0 <= i <= trace_len,
            forall|j: usize| skip@.contains(j) <==> skipped_by(groups@, j as int),
            k == kept_count(groups@, i as nat),
            k <= matches@.len(),
            r@ == expanded_matches(matches@, groups@, i as nat),
        decreases trace_len - i,
    {
        if skip.contains(&i) {
            if r.len() > 0 {
                let last = r[r.len() - 1];
                r.push(last);
            }
        } else {
            r.push(matches[k]);
            k = k + 1;
        }
        i = i + 1;
    }
    proof {
        if i < trace_len {
            lemma_expansion_done(matches@, groups@, i as nat, trace_len as nat);
        }
    }
    r
}

} // verus!
