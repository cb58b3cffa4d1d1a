//! Dependency resolution: a topological resolver over the tool catalog,
//! cycle detection for a requested set of tools, and reverse-dependency
//! lookup.
use vstd::prelude::*;
use vstd::pervasive::VecAdditionalExecFns;
use vstd::set_lib::{set_int_range, lemma_int_range, lemma_len_subset};
use crate::types::{CliToolTemplate, spec_deps};
use crate::text::{str_eq, names_contain};

verus! {

broadcast use vstd::seq_lib::group_seq_properties;

// ---------------------------------------------------------------------------
// Catalog specification
// ---------------------------------------------------------------------------

/// Whether some catalog entry carries the given id.
pub open spec fn catalog_has(ts: Seq<CliToolTemplate>, id: Seq<char>) -> bool {
    exists|k: int| 0 <= k < ts.len() && ts[k].id@ == id
}

/// Index of the first catalog entry with the given id; the catalog length
/// when there is none.
pub open spec fn catalog_index(ts: Seq<CliToolTemplate>, id: Seq<char>) -> int
    decreases ts.len(),
{
    if ts.len() == 0 {
        0
    } else if ts[0].id@ == id {
        0
    } else {
        1 + catalog_index(ts.drop_first(), id)
    }
}

/// The dependency list of the first catalog entry with the given id; empty
/// when the id is unknown.
pub open spec fn catalog_deps(ts: Seq<CliToolTemplate>, id: Seq<char>) -> Seq<Seq<char>> {
    if catalog_has(ts, id) {
        spec_deps(ts[catalog_index(ts, id)])
    } else {
        Seq::empty()
    }
}

/// Every requested id has a catalog entry.
pub open spec fn all_known(ts: Seq<CliToolTemplate>, ids: Seq<Seq<char>>) -> bool {
    forall|k: int| 0 <= k < ids.len() ==> catalog_has(ts, ids[k])
}

/// A dependency edge confined to the requested set: `y` and `x` are both
/// requested and `y` declares a dependency on `x`.
pub open spec fn dep_edge(
    ts: Seq<CliToolTemplate>,
    ids: Seq<Seq<char>>,
    x: Seq<char>,
    y: Seq<char>,
) -> bool {
    ids.contains(x) && ids.contains(y) && catalog_deps(ts, y).contains(x)
}

/// A cycle among the requested set: a walk along dependency edges that
/// returns to its starting id. A direct self-dependency is the walk of
/// length two.
pub open spec fn is_cycle(
    ts: Seq<CliToolTemplate>,
    ids: Seq<Seq<char>>,
    p: Seq<Seq<char>>,
) -> bool {
    &&& p.len() >= 2
    &&& p[0] == p[p.len() - 1]
    &&& forall|i: int| 0 <= i < p.len() - 1 ==> dep_edge(ts, ids, #[trigger] p[i], p[i + 1])
}

/// Whether any cycle exists among the dependency edges confined to the
/// requested set.
pub open spec fn has_cycle_among(ts: Seq<CliToolTemplate>, ids: Seq<Seq<char>>) -> bool {
    exists|p: Seq<Seq<char>>| is_cycle(ts, ids, p)
}

/// The exact text reported for an id with no catalog entry.
pub open spec fn unknown_tool_msg(id: Seq<char>) -> Seq<char> {
    "Unknown tool ID: "@ + id
}

/// The exact text reported when the requested set contains a cycle.
pub open spec fn circular_msg() -> Seq<char> {
    "Circular dependency detected"@
}

pub proof fn lemma_catalog_index(ts: Seq<CliToolTemplate>, id: Seq<char>)
    ensures
        0 <= catalog_index(ts, id) <= ts.len(),
        catalog_has(ts, id) <==> catalog_index(ts, id) < ts.len(),
        catalog_has(ts, id) ==> ts[catalog_index(ts, id)].id@ == id,
        forall|j: int| 0 <= j < catalog_index(ts, id) ==> ts[j].id@ != id,
    decreases ts.len(),
{
    if ts.len() == 0 {
    } else if ts[0].id@ == id {
    } else {
        let rest = ts.drop_first();
        lemma_catalog_index(rest, id);
        assert(forall|j: int| 0 <= j < rest.len() ==> rest[j] == ts[j + 1]);
        if catalog_has(rest, id) {
            let k = choose|k: int| 0 <= k < rest.len() && rest[k].id@ == id;
            assert(ts[k + 1].id@ == id);
        }
        if catalog_has(ts, id) {
            let k = choose|k: int| 0 <= k < ts.len() && ts[k].id@ == id;
            assert(k != 0);
            assert(rest[k - 1].id@ == id);
            assert(catalog_has(rest, id));
        }
        assert forall|j: int| 0 <= j < catalog_index(ts, id) implies ts[j].id@ != id by {
            if j > 0 {
                assert(rest[j - 1].id@ != id);
            }
        }
    }
}

// ---------------------------------------------------------------------------
// Exec helpers: catalog lookup
// ---------------------------------------------------------------------------

/// Linear scan for the first catalog entry with the given id.
pub fn find_template<'a>(templates: &'a Vec<CliToolTemplate>, id: &str) -> (r: Option<
    &'a CliToolTemplate,
>)
    ensures
        match r {
            Some(t) => catalog_has(templates@, id@) && *t == templates@[catalog_index(
                templates@,
                id@,
            )],
            None => !catalog_has(templates@, id@),
        },
{
    proof {
        lemma_catalog_index(templates@, id@);
    }
    let n = templates.len();
    for i in 0..n
        invariant
            n == templates@.len(),
            forall|j: int| 0 <= j < i ==> templates@[j].id@ != id@,
            catalog_index(templates@, id@) >= i || !catalog_has(templates@, id@),
    {
        if str_eq(templates[i].id.as_str(), id) {
            proof {
                lemma_catalog_index(templates@, id@);
                assert(catalog_has(templates@, id@));
                assert(catalog_index(templates@, id@) == i as int) by {
                    let ci = catalog_index(templates@, id@);
                    assert(templates@[ci].id@ == id@);
                    if ci < i as int {
                        assert(templates@[ci].id@ != id@);
                    }
                    if ci > i as int {
                        assert(templates@[i as int].id@ != id@);
                    }
                };
            }
            return Some(&templates[i]);
        }
        proof {
            lemma_catalog_index(templates@, id@);
            if catalog_has(templates@, id@) {
                let ci = catalog_index(templates@, id@);
                if ci == i as int {
                    assert(templates@[i as int].id@ == id@);
                }
            }
        }
    }
    proof {
        if catalog_has(templates@, id@) {
            let k = choose|k: int| 0 <= k < templates@.len() && templates@[k].id@ == id@;
            assert(templates@[k].id@ != id@);
        }
    }
    None
}

// ---------------------------------------------------------------------------
// Counting dependencies not yet emitted
// ---------------------------------------------------------------------------

/// How many entries of `s` (with multiplicity) do not occur in `r`.
pub open spec fn count_absent(s: Seq<usize>, r: Seq<usize>) -> int
    decreases s.len(),
{
    if s.len() == 0 {
        0
    } else {
        count_absent(s.drop_last(), r) + if r.contains(s.last()) {
            0int
        } else {
            1int
        }
    }
}

pub proof fn lemma_count_absent_nonneg(s: Seq<usize>, r: Seq<usize>)
    ensures
        0 <= count_absent(s, r),
    decreases s.len(),
{
    if s.len() > 0 {
        lemma_count_absent_nonneg(s.drop_last(), r);
    }
}

pub proof fn lemma_count_absent_empty(s: Seq<usize>)
    ensures
        count_absent(s, Seq::empty()) == s.len(),
    decreases s.len(),
{
    if s.len() > 0 {
        lemma_count_absent_empty(s.drop_last());
        assert(!Seq::<usize>::empty().contains(s.last()));
    }
}

pub proof fn lemma_count_absent_push_absent(s: Seq<usize>, r: Seq<usize>, x: usize)
    requires
        !s.contains(x),
    ensures
        count_absent(s, r.push(x)) == count_absent(s, r),
    decreases s.len(),
{
    if s.len() > 0 {
        assert(s.last() != x) by {
            assert(s[s.len() - 1] == s.last());
        }
        assert(!s.drop_last().contains(x)) by {
            if s.drop_last().contains(x) {
                let k = choose|k: int| 0 <= k < s.drop_last().len() && s.drop_last()[k] == x;
                assert(s[k] == x);
            }
        }
        lemma_count_absent_push_absent(s.drop_last(), r, x);
        assert(r.push(x).contains(s.last()) == r.contains(s.last())) by {
            if r.push(x).contains(s.last()) {
                let k = choose|k: int| 0 <= k < r.push(x).len() && r.push(x)[k] == s.last();
                if k < r.len() {
                    assert(r[k] == s.last());
                } else {
                    assert(x == s.last());
                }
            }
            if r.contains(s.last()) {
                let k = choose|k: int| 0 <= k < r.len() && r[k] == s.last();
                assert(r.push(x)[k] == s.last());
            }
        }
    }
}

pub proof fn lemma_count_absent_push_present(s: Seq<usize>, r: Seq<usize>, x: usize)
    requires
        s.no_duplicates(),
        s.contains(x),
        !r.contains(x),
    ensures
        count_absent(s, r.push(x)) == count_absent(s, r) - 1,
    decreases s.len(),
{
    assert(s.len() > 0);
    let init = s.drop_last();
    assert(init.no_duplicates());
    if s.last() == x {
        assert(!init.contains(x)) by {
            if init.contains(x) {
                let k = choose|k: int| 0 <= k < init.len() && init[k] == x;
                assert(s[k] == x && s[s.len() - 1] == x);
            }
        }
        lemma_count_absent_push_absent(init, r, x);
        assert(r.push(x).contains(s.last())) by {
            assert(r.push(x)[r.len() as int] == x);
        }
    } else {
        assert(init.contains(x)) by {
            let k = choose|k: int| 0 <= k < s.len() && s[k] == x;
            assert(k < s.len() - 1);
            assert(init[k] == x);
        }
        lemma_count_absent_push_present(init, r, x);
        assert(r.push(x).contains(s.last()) == r.contains(s.last())) by {
            if r.push(x).contains(s.last()) {
                let k = choose|k: int| 0 <= k < r.push(x).len() && r.push(x)[k] == s.last();
                if k < r.len() {
                    assert(r[k] == s.last());
                } else {
                    assert(x == s.last());
                }
            }
            if r.contains(s.last()) {
                let k = choose|k: int| 0 <= k < r.len() && r[k] == s.last();
                assert(r.push(x)[k] == s.last());
            }
        }
    }
}

pub proof fn lemma_count_absent_zero(s: Seq<usize>, r: Seq<usize>)
    requires
        count_absent(s, r) == 0,
    ensures
        forall|i: int| 0 <= i < s.len() ==> r.contains(s[i]),
    decreases s.len(),
{
    if s.len() > 0 {
        lemma_count_absent_nonneg(s.drop_last(), r);
        assert(r.contains(s.last()));
        lemma_count_absent_zero(s.drop_last(), r);
        assert(forall|i: int| 0 <= i < s.len() - 1 ==> s[i] == s.drop_last()[i]);
    }
}

pub proof fn lemma_count_absent_pos(s: Seq<usize>, r: Seq<usize>)
    requires
        count_absent(s, r) > 0,
    ensures
        exists|i: int| 0 <= i < s.len() && !r.contains(s[i]),
    decreases s.len(),
{
    assert(s.len() > 0);
    if r.contains(s.last()) {
        lemma_count_absent_pos(s.drop_last(), r);
        let i = choose|i: int| 0 <= i < s.drop_last().len() && !r.contains(s.drop_last()[i]);
        assert(s[i] == s.drop_last()[i]);
        assert(!r.contains(s[i]));
    } else {
        assert(s[s.len() - 1] == s.last());
        assert(!r.contains(s[s.len() - 1]));
    }
}

pub proof fn lemma_count_absent_ge_one(s: Seq<usize>, r: Seq<usize>, x: usize)
    requires
        s.contains(x),
        !r.contains(x),
    ensures
        count_absent(s, r) >= 1,
    decreases s.len(),
{
    assert(s.len() > 0);
    if s.last() == x {
        lemma_count_absent_nonneg(s.drop_last(), r);
    } else {
        let k = choose|k: int| 0 <= k < s.len() && s[k] == x;
        assert(k < s.len() - 1);
        assert(s.drop_last()[k] == x);
        lemma_count_absent_ge_one(s.drop_last(), r, x);
    }
}

// ---------------------------------------------------------------------------
// Pigeonhole facts about duplicate-free index sequences
// ---------------------------------------------------------------------------

/// A duplicate-free sequence of indices below `n` has at most `n` entries.
pub proof fn lemma_nodup_len_at_most(s: Seq<usize>, n: int)
    requires
        s.no_duplicates(),
        0 <= n,
        forall|i: int| 0 <= i < s.len() ==> s[i] < n,
    ensures
        s.len() <= n,
{
    let si = s.map_values(|x: usize| x as int);
    assert(si.no_duplicates()) by {
        assert(forall|i: int, j: int|
            0 <= i < si.len() && 0 <= j < si.len() && i != j ==> si[i] != si[j]) by {
            assert(forall|i: int, j: int|
                0 <= i < s.len() && 0 <= j < s.len() && i != j ==> s[i] != s[j]);
        }
    }
    si.unique_seq_to_set();
    assert(si.to_set().subset_of(set_int_range(0, n))) by {
        assert forall|x: int| si.to_set().contains(x) implies set_int_range(0, n).contains(
            x,
        ) by {
            let k = choose|k: int| 0 <= k < si.len() && si[k] == x;
            assert(s[k] < n);
        }
    }
    lemma_int_range(0, n);
    lemma_len_subset(si.to_set(), set_int_range(0, n));
}

/// A duplicate-free sequence of `n` indices below `n` contains every index
/// below `n`.
pub proof fn lemma_nodup_full_range(s: Seq<usize>, n: int, u: usize)
    requires
        s.no_duplicates(),
        s.len() == n,
        forall|i: int| 0 <= i < s.len() ==> s[i] < n,
        0 <= (u as int) < n,
    ensures
        s.contains(u),
{
    if !s.contains(u) {
        let si = s.map_values(|x: usize| x as int);
        assert(si.no_duplicates()) by {
            assert(forall|i: int, j: int|
                0 <= i < s.len() && 0 <= j < s.len() && i != j ==> s[i] != s[j]);
        }
        si.unique_seq_to_set();
        assert(si.to_set().subset_of(set_int_range(0, n).remove(u as int))) by {
            assert forall|x: int| si.to_set().contains(x) implies set_int_range(0, n).remove(
                u as int,
            ).contains(x) by {
                let k = choose|k: int| 0 <= k < si.len() && si[k] == x;
                assert(s[k] < n);
                assert(s[k] != u);
            }
        }
        lemma_int_range(0, n);
        assert(set_int_range(0, n).contains(u as int));
        assert(set_int_range(0, n).remove(u as int).len() == n - 1);
        lemma_len_subset(si.to_set(), set_int_range(0, n).remove(u as int));
        assert(si.to_set().len() <= n - 1);
        assert(false);
    }
}

// ---------------------------------------------------------------------------
// The requested set as an index graph
// ---------------------------------------------------------------------------

/// Well-formedness of the index graph over `n` nodes: `preds[u]` lists the
/// nodes `u` depends on, `succ[d]` the nodes depending on `d`; both are
/// duplicate-free, in range, and mirror images of each other.
pub open spec fn graph_wf(n: int, preds: Seq<Vec<usize>>, succ: Seq<Vec<usize>>) -> bool {
    &&& preds.len() == n
    &&& succ.len() == n
    &&& forall|u: int| 0 <= u < n ==> (#[trigger] preds[u])@.no_duplicates()
    &&& forall|u: int, k: int|
        0 <= u < n && 0 <= k < preds[u]@.len() ==> (#[trigger] preds[u]@[k]) < n
    &&& forall|d: int| 0 <= d < n ==> (#[trigger] succ[d])@.no_duplicates()
    &&& forall|d: int, k: int|
        0 <= d < n && 0 <= k < succ[d]@.len() ==> (#[trigger] succ[d]@[k]) < n
    &&& forall|d: usize, u: usize|
        d < n && u < n ==> (#[trigger] succ[d as int]@.contains(u) <==> #[trigger] preds[u as int]@.contains(d))
}

/// The order respects every edge: each listed dependency of an emitted node
/// was emitted strictly earlier.
pub open spec fn emission_ordered(preds: Seq<Vec<usize>>, result: Seq<usize>) -> bool {
    forall|i: int, k: int|
        0 <= i < result.len() && 0 <= k < preds[result[i] as int]@.len() ==> result.take(
            i,
        ).contains(#[trigger] preds[result[i] as int]@[k])
}

/// Kahn-style emission: repeatedly emit a node whose listed dependencies
/// have all been emitted. Returns the emitted nodes in emission order; the
/// result is short of `n` exactly when the peeling gets stuck.
fn kahn_emit(n: usize, preds: &Vec<Vec<usize>>, succ: &Vec<Vec<usize>>) -> (result: Vec<usize>)
    requires
        graph_wf(n as int, preds@, succ@),
    ensures
        result@.no_duplicates(),
        forall|i: int| 0 <= i < result@.len() ==> (#[trigger] result@[i]) < n,
        result@.len() <= n,
        emission_ordered(preds@, result@),
        forall|u: usize|
            u < n && !result@.contains(u) ==> count_absent(#[trigger] preds@[u as int]@, result@)
                > 0,
{
    let mut in_deg: Vec<usize> = Vec::new();
    for u in 0..n
        invariant
            in_deg@.len() == u,
            graph_wf(n as int, preds@, succ@),
            forall|j: int| 0 <= j < u ==> in_deg@[j] == preds@[j]@.len(),
    {
        in_deg.push(preds[u].len());
    }
    let mut queue: Vec<usize> = Vec::new();
    for u in 0..n
        invariant
            graph_wf(n as int, preds@, succ@),
            in_deg@.len() == n,
            forall|j: int| 0 <= j < n ==> in_deg@[j] == preds@[j]@.len(),
            queue@.no_duplicates(),
            forall|i: int| 0 <= i < queue@.len() ==> (#[trigger] queue@[i]) < u,
            forall|w: usize| w < u ==> (queue@.contains(w) <==> in_deg@[w as int] == 0),
    {
        if in_deg[u] == 0 {
            proof {
                assert(forall|i: int| 0 <= i < queue@.len() ==> queue@[i] != u);
                if queue@.contains(u) {
                    let k = choose|k: int| 0 <= k < queue@.len() && queue@[k] == u;
                }
            }
            queue.push(u);
        }
    }
    proof {
        assert forall|w: usize| w < n && !Seq::<usize>::empty().contains(w) implies in_deg@[w as int]
            == count_absent(preds@[w as int]@, Seq::<usize>::empty()) by {
            lemma_count_absent_empty(preds@[w as int]@);
        }
    }
    let mut result: Vec<usize> = Vec::new();
    while queue.len() > 0
        invariant
            graph_wf(n as int, preds@, succ@),
            in_deg@.len() == n,
            result@.no_duplicates(),
            forall|i: int| 0 <= i < result@.len() ==> (#[trigger] result@[i]) < n,
            result@.len() <= n,
            queue@.no_duplicates(),
            forall|i: int| 0 <= i < queue@.len() ==> (#[trigger] queue@[i]) < n,
            forall|w: usize| w < n ==> !(result@.contains(w) && queue@.contains(w)),
            forall|w: usize|
                w < n && !result@.contains(w) ==> in_deg@[w as int] == count_absent(
                    #[trigger] preds@[w as int]@,
                    result@,
                ),
            forall|w: usize|
                w < n && !result@.contains(w) ==> (queue@.contains(w) <==> in_deg@[w as int]
                    == 0),
            emission_ordered(preds@, result@),
        decreases n - result@.len(),
    {
        let ghost q0 = queue@;
        let ghost old_result = result@;
        let d0 = queue.pop().unwrap();
        proof {
            assert(d0 == q0[q0.len() - 1]);
            assert(q0.contains(d0));
            assert(d0 < n);
            assert(!result@.contains(d0));
            assert(in_deg@[d0 as int] == 0);
            lemma_count_absent_zero(preds@[d0 as int]@, result@);
            // the popped queue keeps its facts
            assert(forall|i: int| 0 <= i < queue@.len() ==> queue@[i] == q0[i]);
            assert forall|w: usize| w < n && queue@.contains(w) implies q0.contains(w) by {
                let k = choose|k: int| 0 <= k < queue@.len() && queue@[k] == w;
                assert(q0[k] == w);
            }
        }
        result.push(d0);
        proof {
            assert(result@ == old_result.push(d0));
            assert(result@.no_duplicates());
            lemma_nodup_len_at_most(result@, n as int);
            // ordering for the new entry: all its preds were already emitted
            assert(result@.take(result@.len() - 1) =~= old_result);
            assert forall|i: int, k: int|
                0 <= i < result@.len() && 0 <= k < preds@[result@[i] as int]@.len() implies result@.take(
                i,
            ).contains(#[trigger] preds@[result@[i] as int]@[k]) by {
                if i < result@.len() - 1 {
                    assert(result@[i] == old_result[i]);
                    assert(result@.take(i) =~= old_result.take(i));
                    assert(old_result.take(i).contains(preds@[old_result[i] as int]@[k]));
                } else {
                    assert(result@[i] == d0);
                    let x = preds@[d0 as int]@[k];
                    assert(preds@[d0 as int]@.contains(x));
                    assert(old_result.contains(x));
                    let j = choose|j: int| 0 <= j < old_result.len() && old_result[j] == x;
                    assert(result@.take(i)[j] == x);
                }
            }
            // d0 cannot be its own predecessor: its count hit zero
            assert(!preds@[d0 as int]@.contains(d0)) by {
                if preds@[d0 as int]@.contains(d0) {
                    assert(old_result.contains(preds@[d0 as int]@[choose|k: int|
                        0 <= k < preds@[d0 as int]@.len() && preds@[d0 as int]@[k] == d0]));
                    assert(old_result.contains(d0));
                    let j = choose|j: int| 0 <= j < old_result.len() && old_result[j] == d0;
                    assert(result@[j] == d0);
                    assert(result@[result@.len() - 1] == d0);
                }
            }
        }
        proof {
            // the popped entry is gone from the queue
            assert(!queue@.contains(d0)) by {
                if queue@.contains(d0) {
                    let k = choose|k: int| 0 <= k < queue@.len() && queue@[k] == d0;
                    assert(q0[k] == d0);
                    assert(q0[q0.len() - 1] == d0);
                    assert(q0.no_duplicates());
                }
            }
            // queue membership is unchanged for everything else
            assert forall|w: usize| w < n && w != d0 implies (queue@.contains(w) <==> q0.contains(
                w,
            )) by {
                if q0.contains(w) {
                    let k = choose|k: int| 0 <= k < q0.len() && q0[k] == w;
                    assert(k < q0.len() - 1);
                    assert(queue@[k] == w);
                }
            }
            // counts after emitting d0, with the whole successor list pending
            let m0 = succ@[d0 as int]@.len();
            assert(succ@[d0 as int]@.subrange(0, m0 as int) =~= succ@[d0 as int]@);
            assert forall|w: usize| w < n && !result@.contains(w) implies in_deg@[w as int]
                == count_absent(preds@[w as int]@, result@) + if succ@[d0 as int]@.subrange(
                0,
                m0 as int,
            ).contains(w) {
                1int
            } else {
                0int
            } by {
                assert(w != d0);
                assert(!old_result.contains(w)) by {
                    if old_result.contains(w) {
                        let k = choose|k: int| 0 <= k < old_result.len() && old_result[k] == w;
                        assert(result@[k] == w);
                    }
                }
                assert(in_deg@[w as int] == count_absent(preds@[w as int]@, old_result));
                if preds@[w as int]@.contains(d0) {
                    lemma_count_absent_push_present(preds@[w as int]@, old_result, d0);
                    assert(succ@[d0 as int]@.contains(w));
                } else {
                    lemma_count_absent_push_absent(preds@[w as int]@, old_result, d0);
                    assert(!succ@[d0 as int]@.contains(w));
                }
            }
        }
        let m = succ[d0].len();
        for idx in 0..m
            invariant
                graph_wf(n as int, preds@, succ@),
                in_deg@.len() == n,
                d0 < n,
                m == succ@[d0 as int]@.len(),
                !preds@[d0 as int]@.contains(d0),
                result@ == old_result.push(d0),
                result@.no_duplicates(),
                forall|i: int| 0 <= i < result@.len() ==> (#[trigger] result@[i]) < n,
                result@.len() <= n,
                emission_ordered(preds@, result@),
                queue@.no_duplicates(),
                forall|i: int| 0 <= i < queue@.len() ==> (#[trigger] queue@[i]) < n,
                forall|w: usize| w < n ==> !(result@.contains(w) && queue@.contains(w)),
                forall|w: usize|
                    w < n && !result@.contains(w) ==> in_deg@[w as int] == count_absent(
                        #[trigger] preds@[w as int]@,
                        result@,
                    ) + if succ@[d0 as int]@.subrange(idx as int, m as int).contains(w) {
                        1int
                    } else {
                        0int
                    },
                forall|w: usize|
                    w < n && !result@.contains(w) ==> (queue@.contains(w) <==> in_deg@[w as int]
                        == 0),
        {
            let u1 = succ[d0][idx];
            proof {
                assert(succ@[d0 as int]@[idx as int] == u1);
                assert(succ@[d0 as int]@.contains(u1));
                assert(u1 < n);
                assert(preds@[u1 as int]@.contains(d0));
                // u1 is not yet emitted: d0 is a predecessor of u1, but d0 was
                // only just emitted, so u1 cannot already respect that edge
                assert(!result@.contains(u1)) by {
                    if result@.contains(u1) {
                        assert(u1 != d0);
                        let i = choose|i: int| 0 <= i < result@.len() && result@[i] == u1;
                        assert(i < result@.len() - 1);
                        let k = choose|k: int|
                            0 <= k < preds@[u1 as int]@.len() && preds@[u1 as int]@[k] == d0;
                        assert(result@.take(i).contains(preds@[result@[i] as int]@[k]));
                        assert(result@.take(i).contains(d0));
                        let j = choose|j: int|
                            0 <= j < result@.take(i).len() && result@.take(i)[j] == d0;
                        assert(result@[j] == d0 && j < i);
                        assert(result@[result@.len() - 1] == d0);
                        assert(result@.no_duplicates());
                        assert(false);
                    }
                };
                // u1 appears in the pending slice, so its count carries a +1
                assert(succ@[d0 as int]@.subrange(idx as int, m as int).contains(u1)) by {
                    assert(succ@[d0 as int]@.subrange(idx as int, m as int)[0] == u1);
                };
                lemma_count_absent_nonneg(preds@[u1 as int]@, result@);
                assert(in_deg@[u1 as int] >= 1);
            }
            let deg = in_deg[u1] - 1;
            in_deg.set(u1, deg);
            proof {
                let pending_old = succ@[d0 as int]@.subrange(idx as int, m as int);
                let pending_new = succ@[d0 as int]@.subrange(idx as int + 1, m as int);
                assert forall|w: usize| w < n && !result@.contains(w) implies in_deg@[w as int]
                    == count_absent(preds@[w as int]@, result@) + if pending_new.contains(w) {
                    1int
                } else {
                    0int
                } by {
                    if w == u1 {
                        assert(!pending_new.contains(u1)) by {
                            if pending_new.contains(u1) {
                                let k = choose|k: int|
                                    0 <= k < pending_new.len() && pending_new[k] == u1;
                                assert(succ@[d0 as int]@[idx + 1 + k] == u1);
                                assert(succ@[d0 as int]@[idx as int] == u1);
                                assert(succ@[d0 as int]@.no_duplicates());
                            }
                        }
                    } else {
                        assert(pending_old.contains(w) == pending_new.contains(w)) by {
                            if pending_old.contains(w) {
                                let k = choose|k: int|
                                    0 <= k < pending_old.len() && pending_old[k] == w;
                                assert(k != 0);
                                assert(pending_new[k - 1] == w);
                            }
                            if pending_new.contains(w) {
                                let k = choose|k: int|
                                    0 <= k < pending_new.len() && pending_new[k] == w;
                                assert(pending_old[k + 1] == w);
                            }
                        }
                    }
                }
            }
            if deg == 0 {
                proof {
                    if queue@.contains(u1) {
                        assert(in_deg@[u1 as int] == 0);
                    }
                    assert(forall|i: int| 0 <= i < queue@.len() ==> queue@[i] != u1);
                }
                queue.push(u1);
            }
        }
        proof {
            assert(succ@[d0 as int]@.subrange(m as int, m as int).len() == 0);
            assert forall|w: usize| w < n && !result@.contains(w) implies in_deg@[w as int]
                == count_absent(preds@[w as int]@, result@) by {
                assert(!succ@[d0 as int]@.subrange(m as int, m as int).contains(w));
            }
        }
    }
    proof {
        assert forall|u: usize| u < n && !result@.contains(u) implies count_absent(
            preds@[u as int]@,
            result@,
        ) > 0 by {
            assert(!queue@.contains(u));
            assert(in_deg@[u as int] != 0);
            lemma_count_absent_nonneg(preds@[u as int]@, result@);
        }
    }
    result
}

// ---------------------------------------------------------------------------
// Cycles at the index level
// ---------------------------------------------------------------------------

/// A cycle in the index graph: a walk along edges (each entry is a listed
/// dependency of its successor) that returns to its starting node.
pub open spec fn is_index_cycle(preds: Seq<Vec<usize>>, p: Seq<usize>) -> bool {
    &&& p.len() >= 2
    &&& p[0] == p[p.len() - 1]
    &&& forall|i: int| 0 <= i < p.len() ==> (#[trigger] p[i]) < preds.len()
    &&& forall|i: int|
        0 <= i < p.len() - 1 ==> preds[p[i + 1] as int]@.contains(#[trigger] p[i])
}

/// When the peeling is stuck, every leftover node has a leftover
/// predecessor; following predecessors from a leftover node stays among the
/// leftovers forever.
proof fn build_pred_path(
    n: int,
    preds: Seq<Vec<usize>>,
    result: Seq<usize>,
    u0: usize,
    len: nat,
) -> (p: Seq<usize>)
    requires
        preds.len() == n,
        (u0 as int) < n,
        !result.contains(u0),
        forall|u: usize|
            u < n && !result.contains(u) ==> count_absent(#[trigger] preds[u as int]@, result)
                > 0,
        forall|u: int, k: int|
            0 <= u < n && 0 <= k < preds[u]@.len() ==> (#[trigger] preds[u]@[k]) < n,
    ensures
        p.len() == len + 1,
        p[0] == u0,
        forall|i: int| 0 <= i < p.len() ==> (#[trigger] p[i]) < n && !result.contains(p[i]),
        forall|i: int| 0 <= i < p.len() - 1 ==> preds[p[i] as int]@.contains(#[trigger] p[i + 1]),
    decreases len,
{
    if len == 0 {
        let p = seq![u0];
        assert(p[0] == u0);
        p
    } else {
        let q = build_pred_path(n, preds, result, u0, (len - 1) as nat);
        let last = q[q.len() - 1];
        assert((last as int) < n && !result.contains(last));
        lemma_count_absent_pos(preds[last as int]@, result);
        let k = choose|k: int|
            0 <= k < preds[last as int]@.len() && !result.contains(preds[last as int]@[k]);
        let d = preds[last as int]@[k];
        assert(preds[last as int]@.contains(d));
        let p = q.push(d);
        assert(forall|i: int| 0 <= i < q.len() ==> p[i] == q[i]);
        assert(p[p.len() - 1] == d);
        assert forall|i: int| 0 <= i < p.len() - 1 implies preds[p[i] as int]@.contains(
            #[trigger] p[i + 1],
        ) by {
            if i < q.len() - 1 {
                assert(preds[q[i] as int]@.contains(q[i + 1]));
            } else {
                assert(p[i] == last);
            }
        }
        p
    }
}

/// If the peeling got stuck, the index graph has a cycle.
proof fn lemma_stuck_implies_index_cycle(n: int, preds: Seq<Vec<usize>>, result: Seq<usize>)
    requires
        preds.len() == n,
        0 <= n <= usize::MAX,
        result.no_duplicates(),
        result.len() < n,
        forall|i: int| 0 <= i < result.len() ==> (#[trigger] result[i]) < n,
        forall|u: usize|
            u < n && !result.contains(u) ==> count_absent(#[trigger] preds[u as int]@, result)
                > 0,
        forall|u: int, k: int|
            0 <= u < n && 0 <= k < preds[u]@.len() ==> (#[trigger] preds[u]@[k]) < n,
    ensures
        exists|p: Seq<usize>| is_index_cycle(preds, p),
{
    // some node is left over
    let u0 = choose|u: usize| (u as int) < n && !result.contains(u);
    assert((u0 as int) < n && !result.contains(u0)) by {
        if forall|u: usize| (u as int) < n ==> #[trigger] result.contains(u) {
            let full = Seq::new(n as nat, |i: int| i as usize);
            assert(full.no_duplicates()) by {
                assert(forall|i: int, j: int|
                    0 <= i < full.len() && 0 <= j < full.len() && i != j ==> full[i] != full[j]);
            }
            assert forall|i: int| 0 <= i < full.len() implies result.contains(
                #[trigger] full[i],
            ) by {
                assert((full[i] as int) == i < n);
            }
            // an injection from n distinct values into a shorter sequence
            let fi = full.map_values(|x: usize| x as int);
            assert(fi.no_duplicates()) by {
                assert(forall|i: int, j: int|
                    0 <= i < full.len() && 0 <= j < full.len() && i != j ==> full[i] != full[j]);
            }
            fi.unique_seq_to_set();
            let ri = result.map_values(|x: usize| x as int);
            assert(fi.to_set().subset_of(ri.to_set())) by {
                assert forall|x: int| fi.to_set().contains(x) implies ri.to_set().contains(x) by {
                    let i = choose|i: int| 0 <= i < fi.len() && fi[i] == x;
                    assert(result.contains(full[i]));
                    let j = choose|j: int| 0 <= j < result.len() && result[j] == full[i];
                    assert(ri[j] == x);
                    assert(ri.contains(x));
                }
            }
            lemma_len_subset(fi.to_set(), ri.to_set());
            ri.lemma_cardinality_of_set();
            assert(false);
        }
    }
    let p = build_pred_path(n, preds, result, u0, n as nat);
    // p has n + 1 entries drawn from n values: two must coincide
    assert(!p.no_duplicates()) by {
        if p.no_duplicates() {
            lemma_nodup_len_at_most(p, n);
        }
    }
    let (i, j) = choose|i: int, j: int|
        0 <= i < p.len() && 0 <= j < p.len() && i != j && p[i] == p[j];
    let lo = if i < j {
        i
    } else {
        j
    };
    let hi = if i < j {
        j
    } else {
        i
    };
    assert(0 <= lo < hi < p.len() && p[lo] == p[hi]);
    // reverse the repeated stretch to run along the edges
    let c = Seq::new((hi - lo + 1) as nat, |t: int| p[hi - t]);
    assert(c.len() >= 2);
    assert(c[0] == p[hi]);
    assert(c[c.len() - 1] == p[lo]);
    assert forall|t: int| 0 <= t < c.len() - 1 implies preds[c[t + 1] as int]@.contains(
        #[trigger] c[t],
    ) by {
        assert(c[t] == p[hi - t]);
        assert(c[t + 1] == p[hi - t - 1]);
        let i = hi - t - 1;
        assert(0 <= i < p.len() - 1);
        assert(preds[p[i] as int]@.contains(p[i + 1]));
        assert(p[i + 1] == p[hi - t]);
    }
    assert(is_index_cycle(preds, c));
}

/// The position of a value in an emission order.
pub open spec fn pos_of(result: Seq<usize>, v: usize) -> int {
    choose|i: int| 0 <= i < result.len() && result[i] == v
}

proof fn lemma_pos_increases(
    n: int,
    preds: Seq<Vec<usize>>,
    result: Seq<usize>,
    p: Seq<usize>,
    t: int,
)
    requires
        preds.len() == n,
        result.no_duplicates(),
        result.len() == n,
        forall|i: int| 0 <= i < result.len() ==> (#[trigger] result[i]) < n,
        emission_ordered(preds, result),
        is_index_cycle(preds, p),
        0 <= t < p.len(),
    ensures
        pos_of(result, p[0]) + t <= pos_of(result, p[t]),
        0 <= pos_of(result, p[t]) < n,
        result[pos_of(result, p[t])] == p[t],
    decreases t,
{
    lemma_nodup_full_range(result, n, p[t]);
    assert(result.contains(p[t]));
    let pt = pos_of(result, p[t]);
    assert(0 <= pt < n && result[pt] == p[t]);
    if t > 0 {
        lemma_pos_increases(n, preds, result, p, t - 1);
        let prev = pos_of(result, p[t - 1]);
        assert(preds[p[t] as int]@.contains(p[t - 1])) by {
            assert(preds[p[(t - 1) + 1] as int]@.contains(p[t - 1]));
        }
        let k = choose|k: int|
            0 <= k < preds[p[t] as int]@.len() && preds[p[t] as int]@[k] == p[t - 1];
        assert(result.take(pt).contains(preds[result[pt] as int]@[k]));
        assert(result.take(pt).contains(p[t - 1]));
        let j = choose|j: int| 0 <= j < result.take(pt).len() && result.take(pt)[j] == p[t - 1];
        assert(result[j] == p[t - 1] && j < pt);
        assert(j == prev) by {
            assert(result[prev] == p[t - 1]);
            assert(result.no_duplicates());
        }
    }
}

/// A complete emission order that respects every edge rules out any cycle.
proof fn lemma_ordered_no_index_cycle(n: int, preds: Seq<Vec<usize>>, result: Seq<usize>)
    requires
        preds.len() == n,
        result.no_duplicates(),
        result.len() == n,
        forall|i: int| 0 <= i < result.len() ==> (#[trigger] result[i]) < n,
        emission_ordered(preds, result),
    ensures
        !exists|p: Seq<usize>| is_index_cycle(preds, p),
{
    if exists|p: Seq<usize>| is_index_cycle(preds, p) {
        let p = choose|p: Seq<usize>| is_index_cycle(preds, p);
        lemma_pos_increases(n, preds, result, p, p.len() - 1);
        assert(pos_of(result, p[0]) + p.len() - 1 <= pos_of(result, p[p.len() - 1]));
        assert(p[0] == p[p.len() - 1]);
        assert(false);
    }
}

// ---------------------------------------------------------------------------
// Building the index graph from a requested set
// ---------------------------------------------------------------------------

/// Any index of an entry equal to `x` in `v`.
pub fn find_name_index(v: &Vec<String>, x: &str) -> (r: Option<usize>)
    ensures
        match r {
            Some(d) => (d as int) < v@.len() && v.deep_view()[d as int] == x@,
            None => !v.deep_view().contains(x@),
        },
{
    let n = v.len();
    for i in 0..n
        invariant
            n == v@.len(),
            forall|j: int| 0 <= j < i ==> v.deep_view()[j] != x@,
    {
        if str_eq(v[i].as_str(), x) {
            return Some(i);
        }
    }
    proof {
        if v.deep_view().contains(x@) {
            let j = choose|j: int| 0 <= j < v.deep_view().len() && v.deep_view()[j] == x@;
            assert(v.deep_view()[j] != x@);
        }
    }
    None
}

/// Whether a vector of indices contains the given one.
fn contains_usize(v: &Vec<usize>, x: usize) -> (r: bool)
    ensures
        r == v@.contains(x),
{
    let n = v.len();
    for i in 0..n
        invariant
            n == v@.len(),
            forall|j: int| 0 <= j < i ==> v@[j] != x,
    {
        if v[i] == x {
            return true;
        }
    }
    proof {
        if v@.contains(x) {
            let j = choose|j: int| 0 <= j < v@.len() && v@[j] == x;
        }
    }
    false
}

/// The index graph mirrors the catalog: `preds[u]` holds `d` exactly when
/// the node named by `u` declares a dependency on the node named by `d`.
pub open spec fn graph_matches(
    ts: Seq<CliToolTemplate>,
    ndv: Seq<Seq<char>>,
    preds: Seq<Vec<usize>>,
) -> bool {
    forall|u: usize, d: usize|
        #![trigger preds[u as int]@.contains(d)]
        #![trigger catalog_deps(ts, ndv[u as int]).contains(ndv[d as int])]
        (u as int) < ndv.len() && (d as int) < ndv.len() ==> (preds[u as int]@.contains(d)
            <==> catalog_deps(ts, ndv[u as int]).contains(ndv[d as int]))
}

/// Deduplicate the requested ids (first occurrence kept) and build the
/// dependency edges confined to the requested set, as an index graph.
fn build_request_graph(tool_ids: &Vec<String>, templates: &Vec<CliToolTemplate>) -> (r: (
    Vec<String>,
    Vec<Vec<usize>>,
    Vec<Vec<usize>>,
))
    ensures
        r.0.deep_view().no_duplicates(),
        forall|x: Seq<char>|
            #[trigger] r.0.deep_view().contains(x) <==> tool_ids.deep_view().contains(x),
        graph_wf(r.0@.len() as int, r.1@, r.2@),
        graph_matches(templates@, r.0.deep_view(), r.1@),
{
    let ghost ids = tool_ids.deep_view();
    let ghost ts = templates@;
    let k = tool_ids.len();
    let mut nodes: Vec<String> = Vec::new();
    for i in 0..k
        invariant
            k == tool_ids@.len(),
            ids == tool_ids.deep_view(),
            nodes.deep_view().no_duplicates(),
            forall|x: Seq<char>|
                #[trigger] nodes.deep_view().contains(x) <==> ids.take(i as int).contains(x),
    {
        let ghost old_dv = nodes.deep_view();
        if !names_contain(&nodes, tool_ids[i].as_str()) {
            nodes.push(tool_ids[i].clone());
            proof {
                assert(nodes.deep_view() =~= old_dv.push(ids[i as int]));
            }
        }
        proof {
            let dv = nodes.deep_view();
            assert(ids.take(i + 1) =~= ids.take(i as int).push(ids[i as int]));
            assert forall|x: Seq<char>| #[trigger] dv.contains(x) implies ids.take(i + 1).contains(
                x,
            ) by {
                if old_dv.contains(x) {
                    assert(ids.take(i as int).contains(x));
                    let j = choose|j: int|
                        0 <= j < ids.take(i as int).len() && ids.take(i as int)[j] == x;
                    assert(ids.take(i + 1)[j] == x);
                } else {
                    let j = choose|j: int| 0 <= j < dv.len() && dv[j] == x;
                    assert(x == ids[i as int]);
                    assert(ids.take(i + 1)[i as int] == x);
                }
            }
            assert forall|x: Seq<char>| #[trigger] ids.take(i + 1).contains(x) implies dv.contains(
                x,
            ) by {
                let pre = ids.take(i + 1);
                let j = choose|j: int| 0 <= j < pre.len() && pre[j] == x;
                assert(ids.take(i + 1)[j] == x);
                if j < i {
                    assert(ids.take(i as int)[j] == x);
                    assert(old_dv.contains(x));
                    let jj = choose|jj: int| 0 <= jj < old_dv.len() && old_dv[jj] == x;
                    assert(dv[jj] == x);
                } else {
                    assert(x == ids[i as int]);
                    if old_dv.contains(x) {
                        let jj = choose|jj: int| 0 <= jj < old_dv.len() && old_dv[jj] == x;
                        assert(dv[jj] == x);
                    } else {
                        assert(dv[dv.len() - 1] == x);
                    }
                }
            }
            // a fresh entry keeps the list duplicate-free
            if !old_dv.contains(ids[i as int]) && dv.len() == old_dv.len() + 1 {
                assert forall|a: int, b: int|
                    0 <= a < dv.len() && 0 <= b < dv.len() && a != b implies dv[a] != dv[b] by {
                    if a < dv.len() - 1 && b < dv.len() - 1 {
                        assert(old_dv[a] == dv[a] && old_dv[b] == dv[b]);
                    } else if a == dv.len() - 1 && b < dv.len() - 1 {
                        if dv[a] == dv[b] {
                            assert(old_dv.contains(dv[a])) by {
                                assert(old_dv[b] == dv[b]);
                            }
                        }
                    } else if b == dv.len() - 1 && a < dv.len() - 1 {
                        if dv[a] == dv[b] {
                            assert(old_dv.contains(dv[b])) by {
                                assert(old_dv[a] == dv[a]);
                            }
                        }
                    }
                }
            }
        }
    }
    proof {
        assert(ids.take(k as int) =~= ids);
    }
    let n = nodes.len();
    let ghost ndv = nodes.deep_view();
    let mut preds: Vec<Vec<usize>> = Vec::new();
    for u in 0..n
        invariant
            n == nodes@.len(),
            ndv == nodes.deep_view(),
            ts == templates@,
            ndv.no_duplicates(),
            preds@.len() == u,
            forall|uu: int| 0 <= uu < u ==> (#[trigger] preds@[uu])@.no_duplicates(),
            forall|uu: int, kk: int|
                0 <= uu < u && 0 <= kk < preds@[uu]@.len() ==> (#[trigger] preds@[uu]@[kk]) < n,
            forall|uu: usize, d: usize|
                #![trigger preds@[uu as int]@.contains(d)]
                #![trigger catalog_deps(ts, ndv[uu as int]).contains(ndv[d as int])]
                uu < u && (d as int) < n ==> (preds@[uu as int]@.contains(d) <==> catalog_deps(
                    ts,
                    ndv[uu as int],
                ).contains(ndv[d as int])),
    {
        let mut row: Vec<usize> = Vec::new();
        let ghost du = catalog_deps(ts, ndv[u as int]);
        match find_template(templates, nodes[u].as_str()) {
            None => {
                // an unknown id declares no dependencies
                proof {
                    assert(du =~= Seq::<Seq<char>>::empty());
                    assert(forall|d: usize| (d as int) < n ==> !du.contains(ndv[d as int]));
                }
            },
            Some(t) => match &t.dependencies {
                Some(deps) => {
                proof {
                    assert(du == deps.deep_view());
                }
                let dl = deps.len();
                for q in 0..dl
                    invariant
                        n == nodes@.len(),
                        ndv == nodes.deep_view(),
                        ndv.no_duplicates(),
                        dl == deps@.len(),
                        du == deps.deep_view(),
                        row@.no_duplicates(),
                        forall|kk: int| 0 <= kk < row@.len() ==> (#[trigger] row@[kk]) < n,
                        forall|d: usize|
                            (d as int) < n ==> (#[trigger] row@.contains(d) <==> du.take(
                                q as int,
                            ).contains(ndv[d as int])),
                {
                    let ghost old_row = row@;
                    match find_name_index(&nodes, deps[q].as_str()) {
                        Some(d0) => {
                            proof {
                                assert(ndv[d0 as int] == du[q as int]);
                            }
                            if !contains_usize(&row, d0) {
                                row.push(d0);
                                proof {
                                    assert(row@ == old_row.push(d0));
                                    assert(forall|i: int|
                                        0 <= i < old_row.len() ==> row@[i] == old_row[i]);
                                    assert(row@[row@.len() - 1] == d0);
                                }
                            }
                        },
                        None => {
                            proof {
                                assert(!ndv.contains(du[q as int]));
                            }
                        },
                    }
                    proof {
                        assert(du.take(q + 1) =~= du.take(q as int).push(du[q as int]));
                        assert forall|d: usize| (d as int) < n implies (#[trigger] row@.contains(d)
                            <==> du.take(q + 1).contains(ndv[d as int])) by {
                            let key = ndv[d as int];
                            // membership in the extended prefix
                            assert(du.take(q + 1).contains(key) <==> (du.take(q as int).contains(
                                key,
                            ) || key == du[q as int])) by {
                                if du.take(q + 1).contains(key) {
                                    let pre = du.take(q + 1);
                                    let j = choose|j: int| 0 <= j < pre.len() && pre[j] == key;
                                    if j < q {
                                        assert(du.take(q as int)[j] == key);
                                    } else {
                                        assert(pre[q as int] == key);
                                    }
                                }
                                if du.take(q as int).contains(key) {
                                    let j = choose|j: int|
                                        0 <= j < du.take(q as int).len() && du.take(q as int)[j]
                                            == key;
                                    assert(du.take(q + 1)[j] == key);
                                }
                                if key == du[q as int] {
                                    assert(du.take(q + 1)[q as int] == key);
                                }
                            }
                            if row@ == old_row {
                                if key == du[q as int] && !old_row.contains(d) {
                                    // the dependency named no node, or it is already present
                                    if ndv.contains(du[q as int]) {
                                        // then some index matched and was already in the row
                                        let dd = choose|dd: int|
                                            0 <= dd < ndv.len() && ndv[dd] == du[q as int];
                                        assert(ndv[d as int] == ndv[dd]);
                                        assert(d as int == dd);
                                        assert(false);
                                    } else {
                                        assert(!ndv.contains(key));
                                        assert(false);
                                    }
                                }
                            } else {
                                // the row gained exactly the index of this dependency
                                let d0 = row@[row@.len() - 1];
                                assert(row@.contains(d) <==> (old_row.contains(d) || d == d0)) by {
                                    if row@.contains(d) {
                                        let j = choose|j: int|
                                            0 <= j < row@.len() && row@[j] == d;
                                        if j < row@.len() - 1 {
                                            assert(old_row[j] == d);
                                        }
                                    }
                                    if old_row.contains(d) {
                                        let j = choose|j: int|
                                            0 <= j < old_row.len() && old_row[j] == d;
                                        assert(row@[j] == d);
                                    }
                                }
                                if d == d0 {
                                    assert(key == du[q as int]);
                                } else if key == du[q as int] {
                                    assert(ndv[d as int] == ndv[d0 as int]);
                                    assert(d as int == d0 as int);
                                }
                            }
                        }
                        // the row stays duplicate-free and in range
                        if row@ != old_row {
                            let d0 = row@[row@.len() - 1];
                            assert(!old_row.contains(d0));
                            assert forall|a: int, b: int|
                                0 <= a < row@.len() && 0 <= b < row@.len() && a != b implies row@[a]
                                != row@[b] by {
                                if a < row@.len() - 1 && b < row@.len() - 1 {
                                    assert(old_row[a] == row@[a] && old_row[b] == row@[b]);
                                } else if a == row@.len() - 1 && b < row@.len() - 1 {
                                    if row@[a] == row@[b] {
                                        assert(old_row[b] == row@[b]);
                                        assert(old_row.contains(row@[a]));
                                    }
                                } else if b == row@.len() - 1 && a < row@.len() - 1 {
                                    if row@[a] == row@[b] {
                                        assert(old_row[a] == row@[a]);
                                        assert(old_row.contains(row@[b]));
                                    }
                                }
                            }
                        }
                    }
                }
                    proof {
                        assert(du.take(dl as int) =~= du);
                    }
                },
                None => {
                    proof {
                        assert(du =~= Seq::<Seq<char>>::empty());
                        assert(forall|d: usize| (d as int) < n ==> !du.contains(ndv[d as int]));
                    }
                },
            },
        }
        preds.push(row);
        proof {
            assert(preds@[u as int] == row);
            assert(forall|uu: int| 0 <= uu < u ==> preds@[uu] == preds@.take(u as int)[uu]);
        }
    }
    // the successor lists: for each node, everything that depends on it
    let mut succ: Vec<Vec<usize>> = Vec::new();
    for d in 0..n
        invariant
            n == nodes@.len(),
            preds@.len() == n,
            forall|uu: int| 0 <= uu < n ==> (#[trigger] preds@[uu])@.no_duplicates(),
            forall|uu: int, kk: int|
                0 <= uu < n && 0 <= kk < preds@[uu]@.len() ==> (#[trigger] preds@[uu]@[kk]) < n,
            succ@.len() == d,
            forall|dd: int| 0 <= dd < d ==> (#[trigger] succ@[dd])@.no_duplicates(),
            forall|dd: int, kk: int|
                0 <= dd < d && 0 <= kk < succ@[dd]@.len() ==> (#[trigger] succ@[dd]@[kk]) < n,
            forall|dd: usize, uu: usize|
                (dd as int) < d && uu < n ==> (#[trigger] succ@[dd as int]@.contains(uu)
                    <==> #[trigger] preds@[uu as int]@.contains(dd)),
    {
        let mut row: Vec<usize> = Vec::new();
        for u in 0..n
            invariant
                n == nodes@.len(),
                preds@.len() == n,
                d < n,
                forall|kk: int| 0 <= kk < row@.len() ==> (#[trigger] row@[kk]) < u,
                row@.no_duplicates(),
                forall|uu: usize|
                    uu < u ==> (#[trigger] row@.contains(uu) <==> preds@[uu as int]@.contains(
                        d,
                    )),
        {
            let ghost old_row = row@;
            if contains_usize(&preds[u], d) {
                proof {
                    assert(!old_row.contains(u)) by {
                        if old_row.contains(u) {
                            let j = choose|j: int| 0 <= j < old_row.len() && old_row[j] == u;
                        }
                    }
                }
                row.push(u);
            }
            proof {
                assert forall|uu: usize| uu < u + 1 implies (#[trigger] row@.contains(uu)
                    <==> preds@[uu as int]@.contains(d)) by {
                    if row@ == old_row {
                        if uu == u {
                            if row@.contains(uu) {
                                let j = choose|j: int| 0 <= j < row@.len() && row@[j] == uu;
                            }
                        }
                    } else {
                        assert(row@ == old_row.push(u));
                        assert(row@.contains(uu) <==> (old_row.contains(uu) || uu == u)) by {
                            if row@.contains(uu) {
                                let j = choose|j: int| 0 <= j < row@.len() && row@[j] == uu;
                                if j < row@.len() - 1 {
                                    assert(old_row[j] == uu);
                                }
                            }
                            if old_row.contains(uu) {
                                let j = choose|j: int| 0 <= j < old_row.len() && old_row[j] == uu;
                                assert(row@[j] == uu);
                            }
                        }
                        if uu < u && row@.contains(uu) && !old_row.contains(uu) {
                            assert(uu == u);
                        }
                    }
                }
                if row@ != old_row {
                    assert(row@ == old_row.push(u));
                    assert forall|a: int, b: int|
                        0 <= a < row@.len() && 0 <= b < row@.len() && a != b implies row@[a]
                        != row@[b] by {
                        if a < row@.len() - 1 && b < row@.len() - 1 {
                            assert(old_row[a] == row@[a] && old_row[b] == row@[b]);
                        } else if a == row@.len() - 1 && b < row@.len() - 1 {
                            assert(row@[b] == old_row[b] && old_row[b] < u);
                        } else if b == row@.len() - 1 && a < row@.len() - 1 {
                            assert(row@[a] == old_row[a] && old_row[a] < u);
                        }
                    }
                }
            }
        }
        succ.push(row);
        proof {
            assert(succ@[d as int] == row);
            assert(forall|dd: int| 0 <= dd < d ==> succ@[dd] == succ@.take(d as int)[dd]);
        }
    }
    proof {
        assert(graph_wf(n as int, preds@, succ@));
        assert(graph_matches(ts, ndv, preds@));
    }
    (nodes, preds, succ)
}

// ---------------------------------------------------------------------------
// Lifting cycles between names and indices
// ---------------------------------------------------------------------------

/// An index of the entry of `ndv` equal to `x`.
pub open spec fn name_index(ndv: Seq<Seq<char>>, x: Seq<char>) -> int {
    choose|i: int| 0 <= i < ndv.len() && ndv[i] == x
}

proof fn lemma_name_cycle_to_index(
    ts: Seq<CliToolTemplate>,
    ids: Seq<Seq<char>>,
    ndv: Seq<Seq<char>>,
    preds: Seq<Vec<usize>>,
    p: Seq<Seq<char>>,
)
    requires
        preds.len() == ndv.len(),
        ndv.len() <= usize::MAX,
        forall|x: Seq<char>| #[trigger] ndv.contains(x) <==> ids.contains(x),
        graph_matches(ts, ndv, preds),
        is_cycle(ts, ids, p),
    ensures
        exists|c: Seq<usize>| is_index_cycle(preds, c),
{
    let n = ndv.len();
    // every id on the walk is requested, hence has a node index
    assert forall|t: int| 0 <= t < p.len() implies ids.contains(#[trigger] p[t]) by {
        if t < p.len() - 1 {
            assert(dep_edge(ts, ids, p[t], p[t + 1]));
        } else {
            assert(p[t] == p[0]);
            assert(dep_edge(ts, ids, p[0], p[1]));
        }
    }
    let c = Seq::new(p.len(), |t: int| name_index(ndv, p[t]) as usize);
    assert forall|t: int| 0 <= t < c.len() implies (#[trigger] c[t] as int) < n && ndv[c[t] as int]
        == p[t] by {
        assert(ids.contains(p[t]));
        assert(ndv.contains(p[t]));
        let i = choose|i: int| 0 <= i < ndv.len() && ndv[i] == p[t];
        assert(0 <= name_index(ndv, p[t]) < n);
    }
    assert(c[0] == c[c.len() - 1]) by {
        assert(p[0] == p[p.len() - 1]);
    }
    assert forall|t: int| 0 <= t < c.len() - 1 implies preds[c[t + 1] as int]@.contains(
        #[trigger] c[t],
    ) by {
        assert(dep_edge(ts, ids, p[t], p[t + 1]));
        assert(catalog_deps(ts, p[t + 1]).contains(p[t]));
        assert(ndv[c[t + 1] as int] == p[t + 1]);
        assert(ndv[c[t] as int] == p[t]);
        assert(catalog_deps(ts, ndv[c[t + 1] as int]).contains(ndv[c[t] as int]));
    }
    assert(is_index_cycle(preds, c));
}

proof fn lemma_index_cycle_to_name(
    ts: Seq<CliToolTemplate>,
    ids: Seq<Seq<char>>,
    ndv: Seq<Seq<char>>,
    preds: Seq<Vec<usize>>,
    c: Seq<usize>,
)
    requires
        preds.len() == ndv.len(),
        forall|x: Seq<char>| #[trigger] ndv.contains(x) <==> ids.contains(x),
        graph_matches(ts, ndv, preds),
        is_index_cycle(preds, c),
    ensures
        has_cycle_among(ts, ids),
{
    let p = Seq::new(c.len(), |t: int| ndv[c[t] as int]);
    assert forall|t: int| 0 <= t < p.len() - 1 implies dep_edge(
        ts,
        ids,
        #[trigger] p[t],
        p[t + 1],
    ) by {
        assert(preds[c[t + 1] as int]@.contains(c[t]));
        assert(catalog_deps(ts, ndv[c[t + 1] as int]).contains(ndv[c[t] as int]));
        assert(ndv.contains(ndv[c[t] as int]));
        assert(ndv.contains(ndv[c[t + 1] as int]));
    }
    assert(p[0] == p[p.len() - 1]) by {
        assert(c[0] == c[c.len() - 1]);
    }
    assert(is_cycle(ts, ids, p));
}

// ---------------------------------------------------------------------------
// The public cycle detector and resolver
// ---------------------------------------------------------------------------

/// Whether the dependency edges confined to the requested set contain a
/// cycle. Detection works by peeling: nodes whose requested dependencies
/// are all peeled are removed in rounds, and a cycle exists exactly when
/// some node can never be peeled.
pub fn has_cycle(tool_ids: &Vec<String>, templates: &Vec<CliToolTemplate>) -> (b: bool)
    ensures
        b == has_cycle_among(templates@, tool_ids.deep_view()),
{
    let (nodes, preds, succ) = build_request_graph(tool_ids, templates);
    let n = nodes.len();
    let result = kahn_emit(n, &preds, &succ);
    let ghost ts = templates@;
    let ghost ids = tool_ids.deep_view();
    let ghost ndv = nodes.deep_view();
    proof {
        assert(ndv.len() == nodes@.len());
    }
    if result.len() == n {
        proof {
            lemma_ordered_no_index_cycle(n as int, preds@, result@);
            if has_cycle_among(ts, ids) {
                let p = choose|p: Seq<Seq<char>>| is_cycle(ts, ids, p);
                lemma_name_cycle_to_index(ts, ids, ndv, preds@, p);
                assert(false);
            }
        }
        false
    } else {
        proof {
            lemma_stuck_implies_index_cycle(n as int, preds@, result@);
            let c = choose|c: Seq<usize>| is_index_cycle(preds@, c);
            lemma_index_cycle_to_name(ts, ids, ndv, preds@, c);
        }
        true
    }
}

/// Compute one valid installation order for the requested ids against the
/// given catalog.
///
/// Every requested id must be known, otherwise the first unknown one is
/// reported; a cycle among the requested set is a hard failure. On success
/// the order lists each distinct requested id once, every dependency before
/// its dependents; dependencies outside the requested set are ignored, and
/// the order among independent tools is unspecified.
/// What resolution promises: on success, a duplicate-free permutation of
/// the requested ids in which every dependency confined to the set precedes
/// its dependents, possible exactly when all ids are known and no cycle
/// exists among them; otherwise the exact error for the first unknown id,
/// or for the cycle.
pub open spec fn resolve_order_post(
    ts: Seq<CliToolTemplate>,
    ids: Seq<Seq<char>>,
    r: Result<Vec<String>, String>,
) -> bool {
    match r {
        Ok(order) => {
            let out = order.deep_view();
            &&& all_known(ts, ids)
            &&& !has_cycle_among(ts, ids)
            &&& out.no_duplicates()
            &&& forall|x: Seq<char>| #[trigger] out.contains(x) <==> ids.contains(x)
            &&& forall|i: int, x: Seq<char>|
                0 <= i < out.len() && #[trigger] dep_edge(ts, ids, x, out[i]) ==> exists|j: int|
                    0 <= j < i && out[j] == x
        },
        Err(m) => {
            &&& (!all_known(ts, ids) ==> exists|k: int|
                0 <= k < ids.len() && !catalog_has(ts, #[trigger] ids[k]) && (forall|j: int|
                    0 <= j < k ==> catalog_has(ts, ids[j])) && m@ == unknown_tool_msg(ids[k]))
            &&& (all_known(ts, ids) ==> has_cycle_among(ts, ids) && m@ == circular_msg())
        },
    }
}

pub fn resolve_installation_order_with_templates(
    tool_ids: &Vec<String>,
    templates: &Vec<CliToolTemplate>,
) -> (r: Result<Vec<String>, String>)
    ensures
        resolve_order_post(templates@, tool_ids.deep_view(), r),
{
    let ghost ids = tool_ids.deep_view();
    let ghost ts = templates@;
    // validate that every requested id exists in the catalog
    let k = tool_ids.len();
    for i in 0..k
        invariant
            k == tool_ids@.len(),
            ids == tool_ids.deep_view(),
            ts == templates@,
            forall|j: int| 0 <= j < i ==> catalog_has(ts, ids[j]),
    {
        if find_template(templates, tool_ids[i].as_str()).is_none() {
            let mut m = "Unknown tool ID: ".to_owned();
            m.append(tool_ids[i].as_str());
            proof {
                assert(!catalog_has(ts, ids[i as int]));
                assert(m@ == unknown_tool_msg(ids[i as int]));
            }
            return Err(m);
        }
    }
    assert(all_known(ts, ids));
    // detect circular dependencies
    if has_cycle(tool_ids, templates) {
        return Err("Circular dependency detected".to_owned());
    }
    // emit a topological order over the deduplicated request
    let (nodes, preds, succ) = build_request_graph(tool_ids, templates);
    let n = nodes.len();
    let result = kahn_emit(n, &preds, &succ);
    let ghost ndv = nodes.deep_view();
    proof {
        // the peeling cannot get stuck: that would be a cycle
        if result@.len() < n {
            lemma_stuck_implies_index_cycle(n as int, preds@, result@);
            let c = choose|c: Seq<usize>| is_index_cycle(preds@, c);
            lemma_index_cycle_to_name(ts, ids, ndv, preds@, c);
            assert(false);
        }
    }
    let mut out: Vec<String> = Vec::new();
    for i in 0..n
        invariant
            n == nodes@.len(),
            n == result@.len(),
            ndv == nodes.deep_view(),
            forall|j: int| 0 <= j < n ==> (#[trigger] result@[j]) < n,
            out@.len() == i,
            forall|j: int| 0 <= j < i ==> (#[trigger] out.deep_view()[j]) == ndv[result@[j] as int],
    {
        let ghost old_odv = out.deep_view();
        out.push(nodes[result[i]].clone());
        proof {
            assert(out.deep_view() =~= old_odv.push(ndv[result@[i as int] as int]));
        }
    }
    proof {
        let odv = out.deep_view();
        assert(odv.len() == n);
        // the order lists each distinct requested id exactly once
        assert forall|a: int, b: int|
            0 <= a < odv.len() && 0 <= b < odv.len() && a != b implies odv[a] != odv[b] by {
            if odv[a] == odv[b] {
                assert(ndv[result@[a] as int] == ndv[result@[b] as int]);
                assert(result@[a] as int == result@[b] as int) by {
                    assert(ndv.no_duplicates());
                }
                assert(result@.no_duplicates());
            }
        }
        assert forall|x: Seq<char>| #[trigger] odv.contains(x) implies ids.contains(x) by {
            let j = choose|j: int| 0 <= j < odv.len() && odv[j] == x;
            assert(ndv.contains(ndv[result@[j] as int]));
        }
        assert forall|x: Seq<char>| ids.contains(x) implies odv.contains(x) by {
            assert(ndv.contains(x));
            let d = choose|d: int| 0 <= d < ndv.len() && ndv[d] == x;
            lemma_nodup_full_range(result@, n as int, d as usize);
            assert(result@.contains(d as usize));
            let j = choose|j: int| 0 <= j < result@.len() && result@[j] == d as usize;
            assert(odv[j] == x);
        }
        // the order respects every dependency edge within the set
        assert forall|i: int, x: Seq<char>|
            0 <= i < odv.len() && #[trigger] dep_edge(ts, ids, x, odv[i]) implies exists|j: int|
            0 <= j < i && odv[j] == x by {
            let u = result@[i];
            assert(odv[i] == ndv[u as int]);
            assert(ndv.contains(x)) by {
                assert(ids.contains(x));
            }
            let d = choose|d: int| 0 <= d < ndv.len() && ndv[d] == x;
            assert(catalog_deps(ts, ndv[u as int]).contains(ndv[d]));
            assert(preds@[u as int]@.contains(d as usize));
            let kk = choose|kk: int|
                0 <= kk < preds@[u as int]@.len() && preds@[u as int]@[kk] == d as usize;
            assert(result@.take(i).contains(preds@[result@[i] as int]@[kk]));
            let j = choose|j: int|
                0 <= j < result@.take(i).len() && result@.take(i)[j] == d as usize;
            assert(result@[j] == d as usize && j < i);
            assert(odv[j] == ndv[d]);
        }
        // and it rules out any cycle
        lemma_ordered_no_index_cycle(n as int, preds@, result@);
        if has_cycle_among(ts, ids) {
            let p = choose|p: Seq<Seq<char>>| is_cycle(ts, ids, p);
            lemma_name_cycle_to_index(ts, ids, ndv, preds@, p);
            assert(false);
        }
    }
    Ok(out)
}

/// Resolve an installation order against the full catalog.
pub fn resolve_installation_order(tool_ids: &Vec<String>) -> (r: Result<Vec<String>, String>)
    ensures
        exists|ts: Seq<CliToolTemplate>|
            #[trigger] crate::template::builtin_catalog(ts) && resolve_order_post(
                ts,
                tool_ids.deep_view(),
                r,
            ),
{
    let templates = crate::template::list_all_templates();
    let r = resolve_installation_order_with_templates(tool_ids, &templates);
    proof {
        assert(crate::template::builtin_catalog(templates@) && resolve_order_post(
            templates@,
            tool_ids.deep_view(),
            r,
        ));
    }
    r
}

/// A request of exactly one known id with no dependencies resolves to
/// exactly that one id.
pub proof fn lemma_single_tool_order(
    ts: Seq<CliToolTemplate>,
    ids: Seq<Seq<char>>,
    r: Result<Vec<String>, String>,
)
    requires
        resolve_order_post(ts, ids, r),
        ids.len() == 1,
        catalog_has(ts, ids[0]),
        catalog_deps(ts, ids[0]).len() == 0,
    ensures
        r matches Ok(order) && order.deep_view() =~= seq![ids[0]],
{
    assert(all_known(ts, ids));
    // the one requested id has no outgoing edges, so no cycle can exist
    assert(!has_cycle_among(ts, ids)) by {
        if has_cycle_among(ts, ids) {
            let p = choose|p: Seq<Seq<char>>| is_cycle(ts, ids, p);
            assert(dep_edge(ts, ids, p[0], p[1]));
            assert(ids.contains(p[1]));
            let k = choose|k: int| 0 <= k < ids.len() && ids[k] == p[1];
            assert(p[1] == ids[0]);
            assert(catalog_deps(ts, p[1]).contains(p[0]));
        }
    }
    match r {
        Ok(order) => {
            let out = order.deep_view();
            assert(ids.contains(ids[0]));
            assert(out.contains(ids[0]));
            assert(out.len() >= 1);
            assert forall|i: int| 0 <= i < out.len() implies out[i] == ids[0] by {
                assert(out.contains(out[i]));
                assert(ids.contains(out[i]));
                let k = choose|k: int| 0 <= k < ids.len() && ids[k] == out[i];
            }
            assert(out.len() == 1) by {
                if out.len() >= 2 {
                    assert(out[0] == ids[0] && out[1] == ids[0]);
                    assert(out.no_duplicates());
                }
            }
            assert(out =~= seq![ids[0]]);
        },
        Err(_) => {
            assert(false);
        },
    }
}

// ---------------------------------------------------------------------------
// Reverse dependency lookup
// ---------------------------------------------------------------------------

/// The catalog entries whose dependency list names `id`, in catalog order,
/// as (id, display name) pairs.
pub open spec fn reverse_dependents(ts: Seq<CliToolTemplate>, id: Seq<char>) -> Seq<
    (Seq<char>, Seq<char>),
> {
    ts.filter(|t: CliToolTemplate| spec_deps(t).contains(id)).map_values(
        |t: CliToolTemplate| (t.id@, t.name@),
    )
}

/// Whether a template declares a dependency on the given id.
fn template_depends_on(t: &CliToolTemplate, tool_id: &str) -> (b: bool)
    ensures
        b == spec_deps(*t).contains(tool_id@),
{
    match &t.dependencies {
        Some(deps) => names_contain(deps, tool_id),
        None => {
            proof {
                assert(spec_deps(*t) =~= Seq::<Seq<char>>::empty());
            }
            false
        },
    }
}

/// Every catalog entry that depends on the given tool, with its display
/// name, in catalog order.
pub fn get_reverse_dependencies_with_names(
    tool_id: &str,
    templates: &Vec<CliToolTemplate>,
) -> (r: Vec<(String, String)>)
    ensures
        r.deep_view() == reverse_dependents(templates@, tool_id@),
{
    let ghost ts = templates@;
    let ghost pred = |t: CliToolTemplate| spec_deps(t).contains(tool_id@);
    let ghost pairs = |t: CliToolTemplate| (t.id@, t.name@);
    let n = templates.len();
    let mut r: Vec<(String, String)> = Vec::new();
    proof {
        assert(ts.take(0) =~= Seq::<CliToolTemplate>::empty());
        assert(Seq::<CliToolTemplate>::empty().filter(pred) =~= Seq::<CliToolTemplate>::empty());
        assert(r.deep_view() =~= Seq::<CliToolTemplate>::empty().filter(pred).map_values(pairs));
    }
    for i in 0..n
        invariant
            n == templates@.len(),
            ts == templates@,
            pred == (|t: CliToolTemplate| spec_deps(t).contains(tool_id@)),
            pairs == (|t: CliToolTemplate| (t.id@, t.name@)),
            r.deep_view() == ts.take(i as int).filter(pred).map_values(pairs),
    {
        let ghost old_rdv = r.deep_view();
        let keep = template_depends_on(&templates[i], tool_id);
        if keep {
            r.push((templates[i].id.clone(), templates[i].name.clone()));
            proof {
                assert(r.deep_view() =~= old_rdv.push((ts[i as int].id@, ts[i as int].name@)));
            }
        }
        proof {
            let prefix = ts.take(i as int);
            assert(ts.take(i + 1) =~= prefix.push(ts[i as int]));
            prefix.lemma_filter_push(ts[i as int], pred);
            if keep {
                assert(ts.take(i + 1).filter(pred) == prefix.filter(pred).push(ts[i as int]));
                prefix.filter(pred).lemma_push_map_commute(pairs, ts[i as int]);
                assert(r.deep_view() =~= ts.take(i + 1).filter(pred).map_values(pairs));
            } else {
                assert(ts.take(i + 1).filter(pred) == prefix.filter(pred));
            }
        }
    }
    proof {
        assert(ts.take(n as int) =~= ts);
    }
    r
}

} // verus!
