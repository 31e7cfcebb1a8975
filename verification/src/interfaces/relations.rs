//! The relations that a list of hyperedges defines between node ids, as sequences of
//! entries in the order in which one pass over the hyperedges meets them, and what
//! holds of them.

use vstd::prelude::*;

verus! {

/// How an earlier member and a later member of one hyperedge are related.
#[derive(Clone, Copy, Debug, PartialEq, Eq, Structural)]
pub enum PairRule {
    /// Each of the two is a neighbour of the other.
    Mutual,
    /// The earlier member is a precursor of the later one.
    Precursor,
    /// The later member is a successor of the earlier one.
    Successor,
}

/// Member `i` of list `k` is not among the known ids.
pub open spec fn dangling(known: Set<usize>, lists: Seq<Seq<usize>>, k: int, i: int) -> bool {
    &&& 0 <= k < lists.len()
    &&& 0 <= i < lists[k].len()
    &&& !known.contains(lists[k][i])
}

/// Every member of every list is among the known ids.
pub open spec fn intact(known: Set<usize>, lists: Seq<Seq<usize>>) -> bool {
    forall|k: int, i: int| !#[trigger] dangling(known, lists, k, i)
}

/// Member `i` of list `k` dangles, and none before it does.
pub open spec fn first_dangling(known: Set<usize>, lists: Seq<Seq<usize>>, k: int, i: int) -> bool {
    &&& dangling(known, lists, k, i)
    &&& forall|k2: int, i2: int| #[trigger]
        dangling(known, lists, k2, i2) ==> k < k2 || (k == k2 && i <= i2)
}

/// The members of a hyperedge: the ids that its vector lists, each once, in the order
/// in which they first occur.
pub open spec fn distinct(ids: Seq<usize>) -> Seq<usize>
    decreases ids.len(),
{
    if ids.len() == 0 {
        Seq::empty()
    } else {
        let front = distinct(ids.drop_last());
        if front.contains(ids.last()) {
            front
        } else {
            front.push(ids.last())
        }
    }
}

/// The members of a hyperedge are pairwise different, and they are the ids that its
/// vector lists.
pub proof fn lemma_distinct(ids: Seq<usize>)
    ensures
        distinct(ids).no_duplicates(),
        distinct(ids).len() <= ids.len(),
        forall|x: usize|
            #![trigger distinct(ids).contains(x)]
            #![trigger ids.contains(x)]
            distinct(ids).contains(x) <==> ids.contains(x),
        distinct(ids).to_set() == ids.to_set(),
        distinct(ids).len() == ids.to_set().len(),
    decreases ids.len(),
{
    if ids.len() > 0 {
        let front = ids.drop_last();
        lemma_distinct(front);
        let d = distinct(front);
        assert forall|x: usize|
            #![trigger distinct(ids).contains(x)]
            #![trigger ids.contains(x)]
            distinct(ids).contains(x) <==> ids.contains(x) by {
            assert(d.contains(x) <==> front.contains(x));
            if distinct(ids).contains(x) {
                if d.contains(x) {
                    let p = choose|p: int| 0 <= p < front.len() && front[p] == x;
                    assert(ids[p] == x);
                } else {
                    let p = choose|p: int| 0 <= p < distinct(ids).len() && distinct(ids)[p] == x;
                    if p < d.len() {
                        assert(d[p] == x);
                    }
                    assert(ids[ids.len() - 1] == x);
                }
            }
            if ids.contains(x) {
                let p = choose|p: int| 0 <= p < ids.len() && ids[p] == x;
                if p < front.len() {
                    assert(front[p] == x);
                    let q = choose|q: int| 0 <= q < d.len() && d[q] == x;
                    assert(distinct(ids)[q] == x);
                } else if d.contains(x) {
                } else {
                    assert(distinct(ids)[d.len() as int] == x);
                }
            }
        }
    }
    assert(distinct(ids).to_set() =~= ids.to_set());
    distinct(ids).unique_seq_to_set();
}

/// The entries `(key, listed)` that one pair of members contributes, `a` being the
/// earlier member and `b` the later one.
pub open spec fn pair_entries(rule: PairRule, a: usize, b: usize) -> Seq<(usize, usize)> {
    match rule {
        PairRule::Mutual => seq![(a, b), (b, a)],
        PairRule::Precursor => seq![(b, a)],
        PairRule::Successor => seq![(a, b)],
    }
}

/// The entries of member `i` paired with the members at `i + 1 .. j_end`.
pub open spec fn row_entries(rule: PairRule, ids: Seq<usize>, i: int, j_end: int) -> Seq<
    (usize, usize),
>
    decreases j_end,
{
    if j_end <= i + 1 || i < 0 {
        Seq::empty()
    } else {
        row_entries(rule, ids, i, j_end - 1) + pair_entries(rule, ids[i], ids[j_end - 1])
    }
}

/// The entries of the members before `i_end`, each paired with all later members.
pub open spec fn edge_entries_upto(rule: PairRule, ids: Seq<usize>, i_end: int) -> Seq<
    (usize, usize),
>
    decreases i_end,
{
    if i_end <= 0 {
        Seq::empty()
    } else {
        edge_entries_upto(rule, ids, i_end - 1) + row_entries(
            rule,
            ids,
            i_end - 1,
            ids.len() as int,
        )
    }
}

/// All entries that a sequence of pairwise different members contributes: one group
/// per pair of positions `i < j`, in lexicographic order of `(i, j)`.
pub open spec fn edge_entries(rule: PairRule, ids: Seq<usize>) -> Seq<(usize, usize)> {
    edge_entries_upto(rule, ids, ids.len() as int)
}

/// The entries of the first `k_end` hyperedges, edge after edge, each over its members.
pub open spec fn graph_entries(rule: PairRule, lists: Seq<Seq<usize>>, k_end: int) -> Seq<
    (usize, usize),
>
    decreases k_end,
{
    if k_end <= 0 {
        Seq::empty()
    } else {
        graph_entries(rule, lists, k_end - 1) + edge_entries(rule, distinct(lists[k_end - 1]))
    }
}

/// The entries `(member, edge position)` of one hyperedge with these members, member
/// after member.
pub open spec fn member_entries(ids: Seq<usize>, k: usize) -> Seq<(usize, usize)> {
    Seq::new(ids.len(), |i: int| (ids[i], k))
}

/// The entries `(member, edge position)` of the first `k_end` hyperedges, each member
/// of a hyperedge once.
pub open spec fn incidence_entries(lists: Seq<Seq<usize>>, k_end: int) -> Seq<(usize, usize)>
    decreases k_end,
{
    if k_end <= 0 {
        Seq::empty()
    } else {
        incidence_entries(lists, k_end - 1) + member_entries(
            distinct(lists[k_end - 1]),
            (k_end - 1) as usize,
        )
    }
}

/// The test "this entry stands under `key`".
pub open spec fn keyed(key: usize) -> spec_fn((usize, usize)) -> bool {
    |e: (usize, usize)| e.0 == key
}

/// What an entry lists.
pub open spec fn listed() -> spec_fn((usize, usize)) -> usize {
    |e: (usize, usize)| e.1
}

/// What the entries list under `key`, in the order of the entries.
pub open spec fn related(entries: Seq<(usize, usize)>, key: usize) -> Seq<usize> {
    entries.filter(keyed(key)).map_values(listed())
}

/// One more entry lengthens the list of its key and no other.
pub proof fn lemma_related_push(entries: Seq<(usize, usize)>, a: usize, b: usize, key: usize)
    ensures
        related(entries.push((a, b)), key) == if a == key {
            related(entries, key).push(b)
        } else {
            related(entries, key)
        },
{
    let pred = keyed(key);
    entries.lemma_filter_push((a, b), pred);
    if a == key {
        assert(entries.push((a, b)).filter(pred) == entries.filter(pred).push((a, b)));
        assert(related(entries.push((a, b)), key) =~= related(entries, key).push(b));
    } else {
        assert(entries.push((a, b)).filter(pred) == entries.filter(pred));
    }
}

/// No entries list nothing.
pub proof fn lemma_related_empty(key: usize)
    ensures
        related(Seq::<(usize, usize)>::empty(), key) == Seq::<usize>::empty(),
{
    reveal(Seq::filter);
    assert(related(Seq::<(usize, usize)>::empty(), key) =~= Seq::<usize>::empty());
}

/// A hyperedge of `m` members contributes `m * (m - 1)` neighbour entries: two for
/// each pair of members.
pub proof fn lemma_mutual_entry_count(ids: Seq<usize>)
    ensures
        edge_entries(PairRule::Mutual, distinct(ids)).len() == distinct(ids).len() * (distinct(
            ids,
        ).len() - 1),
        distinct(ids).len() == ids.to_set().len(),
{
    let m = distinct(ids).len() as int;
    lemma_distinct(ids);
    lemma_upto_count(PairRule::Mutual, distinct(ids), m);
    assert(2 * (m * (2 * m - m - 1)) == 2 * (m * (m - 1))) by (nonlinear_arith);
}

/// Under the precursor rule and under the successor rule a hyperedge of `m` members
/// contributes `m * (m - 1) / 2` entries: one for each pair of members.
pub proof fn lemma_directed_entry_count(rule: PairRule, ids: Seq<usize>)
    requires
        rule != PairRule::Mutual,
    ensures
        2 * edge_entries(rule, distinct(ids)).len() == distinct(ids).len() * (distinct(ids).len()
            - 1),
        distinct(ids).len() == ids.to_set().len(),
{
    let m = distinct(ids).len() as int;
    lemma_distinct(ids);
    lemma_upto_count(rule, distinct(ids), m);
    assert(1 * (m * (2 * m - m - 1)) == m * (m - 1)) by (nonlinear_arith);
}

/// The number of entries that one pair of members contributes.
pub open spec fn entries_per_pair(rule: PairRule) -> int {
    match rule {
        PairRule::Mutual => 2,
        PairRule::Precursor => 1,
        PairRule::Successor => 1,
    }
}

proof fn lemma_row_count(rule: PairRule, ids: Seq<usize>, i: int, j_end: int)
    requires
        0 <= i < j_end,
    ensures
        row_entries(rule, ids, i, j_end).len() == entries_per_pair(rule) * (j_end - i - 1),
    decreases j_end,
{
    if j_end > i + 1 {
        lemma_row_count(rule, ids, i, j_end - 1);
        assert(pair_entries(rule, ids[i], ids[j_end - 1]).len() == entries_per_pair(rule));
    }
}

proof fn lemma_upto_count(rule: PairRule, ids: Seq<usize>, i_end: int)
    requires
        0 <= i_end <= ids.len(),
    ensures
        2 * edge_entries_upto(rule, ids, i_end).len() == entries_per_pair(rule) * (i_end * (2
            * ids.len() - i_end - 1)),
    decreases i_end,
{
    let m = ids.len() as int;
    let c = entries_per_pair(rule);
    if i_end > 0 {
        lemma_upto_count(rule, ids, i_end - 1);
        lemma_row_count(rule, ids, i_end - 1, m);
        let before = edge_entries_upto(rule, ids, i_end - 1).len() as int;
        let row = row_entries(rule, ids, i_end - 1, m).len() as int;
        assert(edge_entries_upto(rule, ids, i_end).len() == before + row);
        assert(2 * before == c * ((i_end - 1) * (2 * m - (i_end - 1) - 1)));
        assert(row == c * (m - (i_end - 1) - 1));
        assert(c * ((i_end - 1) * (2 * m - (i_end - 1) - 1)) + 2 * (c * (m - (i_end - 1) - 1)) == c
            * (i_end * (2 * m - i_end - 1))) by (nonlinear_arith);
    } else {
        assert(c * (0 * (2 * m - 0 - 1)) == 0) by (nonlinear_arith);
    }
}

/// Positions `i < j` of `ids` hold a pair of members that contributes the entry `e`.
pub open spec fn pair_gives(rule: PairRule, ids: Seq<usize>, i: int, j: int, e: (usize, usize)) -> bool {
    &&& 0 <= i < j < ids.len()
    &&& pair_entries(rule, ids[i], ids[j]).contains(e)
}

/// Of the members of hyperedge `k`, `a` is the one at position `i` and `b` the one at
/// position `j`.
pub open spec fn lists_at(lists: Seq<Seq<usize>>, k: int, i: int, j: int, a: usize, b: usize) -> bool {
    &&& 0 <= k < lists.len()
    &&& 0 <= i < distinct(lists[k]).len()
    &&& 0 <= j < distinct(lists[k]).len()
    &&& distinct(lists[k])[i] == a
    &&& distinct(lists[k])[j] == b
}

/// Hyperedge `k` lists both `a` and `b`.
pub open spec fn shares(lists: Seq<Seq<usize>>, k: int, a: usize, b: usize) -> bool {
    &&& 0 <= k < lists.len()
    &&& lists[k].contains(a)
    &&& lists[k].contains(b)
}

/// `a` and `b` are two different ids that some hyperedge lists both.
pub open spec fn co_members(lists: Seq<Seq<usize>>, a: usize, b: usize) -> bool {
    a != b && exists|k: int| #[trigger] shares(lists, k, a, b)
}

/// In some hyperedge `a` first occurs before `b` does.
pub open spec fn precedes(lists: Seq<Seq<usize>>, a: usize, b: usize) -> bool {
    exists|k: int, i: int, j: int| i < j && #[trigger] lists_at(lists, k, i, j, a, b)
}

proof fn lemma_concat_contains<A>(a: Seq<A>, b: Seq<A>, x: A)
    ensures
        (a + b).contains(x) <==> a.contains(x) || b.contains(x),
{
    if a.contains(x) {
        let i = choose|i: int| 0 <= i < a.len() && a[i] == x;
        assert((a + b)[i] == x);
    }
    if b.contains(x) {
        let i = choose|i: int| 0 <= i < b.len() && b[i] == x;
        assert((a + b)[a.len() + i] == x);
    }
    if (a + b).contains(x) {
        let i = choose|i: int| 0 <= i < (a + b).len() && (a + b)[i] == x;
        if i < a.len() {
            assert(a[i] == x);
        } else {
            assert(b[i - a.len()] == x);
        }
    }
}

/// The entries list `u` under `v` exactly when `(v, u)` is one of them.
pub proof fn lemma_related_contains(entries: Seq<(usize, usize)>, v: usize, u: usize)
    ensures
        related(entries, v).contains(u) <==> entries.contains((v, u)),
    decreases entries.len(),
{
    if entries.len() == 0 {
        lemma_related_empty(v);
        assert(entries =~= Seq::<(usize, usize)>::empty());
    } else {
        let front = entries.drop_last();
        let last = entries.last();
        assert(entries =~= front.push(last));
        lemma_related_contains(front, v, u);
        lemma_related_push(front, last.0, last.1, v);
        assert(front.push(last) =~= front + seq![last]);
        lemma_concat_contains(front, seq![last], (v, u));
        assert(seq![last].contains((v, u)) <==> last == (v, u)) by {
            if last == (v, u) {
                assert(seq![last][0] == (v, u));
            }
        }
        if last.0 == v {
            let r = related(front, v);
            assert(r.push(last.1) =~= r + seq![last.1]);
            lemma_concat_contains(r, seq![last.1], u);
            assert(seq![last.1].contains(u) <==> last.1 == u) by {
                if last.1 == u {
                    assert(seq![last.1][0] == u);
                }
            }
        }
    }
}

proof fn lemma_row_gives(rule: PairRule, ids: Seq<usize>, i: int, j_end: int, e: (usize, usize))
    requires
        0 <= i,
        j_end <= ids.len(),
    ensures
        row_entries(rule, ids, i, j_end).contains(e) <==> exists|j: int|
            j < j_end && #[trigger] pair_gives(rule, ids, i, j, e),
    decreases j_end,
{
    if j_end <= i + 1 {
        assert(row_entries(rule, ids, i, j_end) =~= Seq::<(usize, usize)>::empty());
    } else {
        lemma_row_gives(rule, ids, i, j_end - 1, e);
        lemma_concat_contains(
            row_entries(rule, ids, i, j_end - 1),
            pair_entries(rule, ids[i], ids[j_end - 1]),
            e,
        );
        if pair_entries(rule, ids[i], ids[j_end - 1]).contains(e) {
            assert(pair_gives(rule, ids, i, j_end - 1, e));
        }
        if exists|j: int| j < j_end && #[trigger] pair_gives(rule, ids, i, j, e) {
            let j = choose|j: int| j < j_end && #[trigger] pair_gives(rule, ids, i, j, e);
            if j < j_end - 1 {
                assert(row_entries(rule, ids, i, j_end - 1).contains(e));
            }
        }
        if row_entries(rule, ids, i, j_end - 1).contains(e) {
            let j = choose|j: int| j < j_end - 1 && #[trigger] pair_gives(rule, ids, i, j, e);
            assert(j < j_end && pair_gives(rule, ids, i, j, e));
        }
    }
}

proof fn lemma_upto_gives(rule: PairRule, ids: Seq<usize>, i_end: int, e: (usize, usize))
    requires
        i_end <= ids.len(),
    ensures
        edge_entries_upto(rule, ids, i_end).contains(e) <==> exists|i: int, j: int|
            i < i_end && #[trigger] pair_gives(rule, ids, i, j, e),
    decreases i_end,
{
    if i_end <= 0 {
        assert(edge_entries_upto(rule, ids, i_end) =~= Seq::<(usize, usize)>::empty());
    } else {
        let m = ids.len() as int;
        lemma_upto_gives(rule, ids, i_end - 1, e);
        lemma_row_gives(rule, ids, i_end - 1, m, e);
        lemma_concat_contains(
            edge_entries_upto(rule, ids, i_end - 1),
            row_entries(rule, ids, i_end - 1, m),
            e,
        );
        if row_entries(rule, ids, i_end - 1, m).contains(e) {
            let j = choose|j: int| j < m && #[trigger] pair_gives(rule, ids, i_end - 1, j, e);
            assert(i_end - 1 < i_end && pair_gives(rule, ids, i_end - 1, j, e));
        }
        if edge_entries_upto(rule, ids, i_end - 1).contains(e) {
            let (i, j) = choose|i: int, j: int|
                i < i_end - 1 && #[trigger] pair_gives(rule, ids, i, j, e);
            assert(i < i_end && pair_gives(rule, ids, i, j, e));
        }
        if exists|i: int, j: int| i < i_end && #[trigger] pair_gives(rule, ids, i, j, e) {
            let (i, j) = choose|i: int, j: int|
                i < i_end && #[trigger] pair_gives(rule, ids, i, j, e);
            if i < i_end - 1 {
                assert(edge_entries_upto(rule, ids, i_end - 1).contains(e));
            } else {
                assert(j < m && pair_gives(rule, ids, i_end - 1, j, e));
                assert(row_entries(rule, ids, i_end - 1, m).contains(e));
            }
        }
    }
}

/// The members of hyperedge `k` hold, at positions `i < j`, a pair that contributes
/// the entry `e`.
pub open spec fn edge_gives(
    rule: PairRule,
    lists: Seq<Seq<usize>>,
    k: int,
    i: int,
    j: int,
    e: (usize, usize),
) -> bool {
    0 <= k < lists.len() && pair_gives(rule, distinct(lists[k]), i, j, e)
}

proof fn lemma_graph_gives(rule: PairRule, lists: Seq<Seq<usize>>, k_end: int, e: (usize, usize))
    requires
        k_end <= lists.len(),
    ensures
        graph_entries(rule, lists, k_end).contains(e) <==> exists|k: int, i: int, j: int|
            k < k_end && #[trigger] edge_gives(rule, lists, k, i, j, e),
    decreases k_end,
{
    if k_end <= 0 {
        assert(graph_entries(rule, lists, k_end) =~= Seq::<(usize, usize)>::empty());
    } else {
        let ids = distinct(lists[k_end - 1]);
        lemma_graph_gives(rule, lists, k_end - 1, e);
        lemma_upto_gives(rule, ids, ids.len() as int, e);
        lemma_concat_contains(graph_entries(rule, lists, k_end - 1), edge_entries(rule, ids), e);
        if edge_entries(rule, ids).contains(e) {
            let (i, j) = choose|i: int, j: int|
                i < ids.len() && #[trigger] pair_gives(rule, ids, i, j, e);
            assert(k_end - 1 < k_end && edge_gives(rule, lists, k_end - 1, i, j, e));
        }
        if graph_entries(rule, lists, k_end - 1).contains(e) {
            let (k, i, j) = choose|k: int, i: int, j: int|
                k < k_end - 1 && #[trigger] edge_gives(rule, lists, k, i, j, e);
            assert(k < k_end && edge_gives(rule, lists, k, i, j, e));
        }
        if exists|k: int, i: int, j: int|
            k < k_end && #[trigger] edge_gives(rule, lists, k, i, j, e) {
            let (k, i, j) = choose|k: int, i: int, j: int|
                k < k_end && #[trigger] edge_gives(rule, lists, k, i, j, e);
            if k < k_end - 1 {
                assert(graph_entries(rule, lists, k_end - 1).contains(e));
            } else {
                assert(i < ids.len() && pair_gives(rule, ids, i, j, e));
                assert(edge_entries(rule, ids).contains(e));
            }
        }
    }
}

/// The neighbour index lists `u` under `v` exactly when `u` is another id than `v` and
/// some hyperedge lists both.
pub proof fn lemma_neighbours_are_co_members(lists: Seq<Seq<usize>>, v: usize, u: usize)
    ensures
        related(graph_entries(PairRule::Mutual, lists, lists.len() as int), v).contains(u)
            <==> co_members(lists, v, u),
{
    let rule = PairRule::Mutual;
    let all = graph_entries(rule, lists, lists.len() as int);
    lemma_related_contains(all, v, u);
    lemma_graph_gives(rule, lists, lists.len() as int, (v, u));
    if all.contains((v, u)) {
        let (k, i, j) = choose|k: int, i: int, j: int|
            k < lists.len() && #[trigger] edge_gives(rule, lists, k, i, j, (v, u));
        let d = distinct(lists[k]);
        lemma_distinct(lists[k]);
        let pair = pair_entries(rule, d[i], d[j]);
        let at = choose|at: int| 0 <= at < pair.len() && pair[at] == (v, u);
        assert(d.contains(d[i]) && d.contains(d[j]));
        assert(d[i] != d[j]);
        assert(shares(lists, k, v, u));
    }
    if co_members(lists, v, u) {
        let k = choose|k: int| #[trigger] shares(lists, k, v, u);
        let d = distinct(lists[k]);
        lemma_distinct(lists[k]);
        let i = choose|i: int| 0 <= i < d.len() && d[i] == v;
        let j = choose|j: int| 0 <= j < d.len() && d[j] == u;
        if i < j {
            assert(pair_entries(rule, v, u)[0] == (v, u));
            assert(edge_gives(rule, lists, k, i, j, (v, u)));
        } else {
            assert(pair_entries(rule, u, v)[1] == (v, u));
            assert(edge_gives(rule, lists, k, j, i, (v, u)));
        }
    }
}

/// No id is its own neighbour, precursor or successor.
pub proof fn lemma_nothing_relates_to_itself(rule: PairRule, lists: Seq<Seq<usize>>, v: usize)
    ensures
        !related(graph_entries(rule, lists, lists.len() as int), v).contains(v),
{
    let all = graph_entries(rule, lists, lists.len() as int);
    lemma_related_contains(all, v, v);
    lemma_graph_gives(rule, lists, lists.len() as int, (v, v));
    if all.contains((v, v)) {
        let (k, i, j) = choose|k: int, i: int, j: int|
            k < lists.len() && #[trigger] edge_gives(rule, lists, k, i, j, (v, v));
        let d = distinct(lists[k]);
        lemma_distinct(lists[k]);
        let pair = pair_entries(rule, d[i], d[j]);
        let at = choose|at: int| 0 <= at < pair.len() && pair[at] == (v, v);
        assert(d[i] != d[j]);
        assert(false);
    }
}

/// The precursor index lists `u` under `v` exactly when in some hyperedge `u` first
/// occurs before `v` does.
pub proof fn lemma_precursors_precede(lists: Seq<Seq<usize>>, v: usize, u: usize)
    ensures
        related(graph_entries(PairRule::Precursor, lists, lists.len() as int), v).contains(u)
            <==> precedes(lists, u, v),
{
    let rule = PairRule::Precursor;
    let all = graph_entries(rule, lists, lists.len() as int);
    lemma_related_contains(all, v, u);
    lemma_graph_gives(rule, lists, lists.len() as int, (v, u));
    if all.contains((v, u)) {
        let (k, i, j) = choose|k: int, i: int, j: int|
            k < lists.len() && #[trigger] edge_gives(rule, lists, k, i, j, (v, u));
        let pair = pair_entries(rule, distinct(lists[k])[i], distinct(lists[k])[j]);
        let at = choose|at: int| 0 <= at < pair.len() && pair[at] == (v, u);
        assert(lists_at(lists, k, i, j, u, v));
    }
    if precedes(lists, u, v) {
        let (k, i, j) = choose|k: int, i: int, j: int|
            i < j && #[trigger] lists_at(lists, k, i, j, u, v);
        assert(pair_entries(rule, u, v)[0] == (v, u));
        assert(edge_gives(rule, lists, k, i, j, (v, u)));
    }
}

/// The successor index lists `u` under `v` exactly when in some hyperedge `v` first
/// occurs before `u` does.
pub proof fn lemma_successors_follow(lists: Seq<Seq<usize>>, v: usize, u: usize)
    ensures
        related(graph_entries(PairRule::Successor, lists, lists.len() as int), v).contains(u)
            <==> precedes(lists, v, u),
{
    let rule = PairRule::Successor;
    let all = graph_entries(rule, lists, lists.len() as int);
    lemma_related_contains(all, v, u);
    lemma_graph_gives(rule, lists, lists.len() as int, (v, u));
    if all.contains((v, u)) {
        let (k, i, j) = choose|k: int, i: int, j: int|
            k < lists.len() && #[trigger] edge_gives(rule, lists, k, i, j, (v, u));
        let pair = pair_entries(rule, distinct(lists[k])[i], distinct(lists[k])[j]);
        let at = choose|at: int| 0 <= at < pair.len() && pair[at] == (v, u);
        assert(lists_at(lists, k, i, j, v, u));
    }
    if precedes(lists, v, u) {
        let (k, i, j) = choose|k: int, i: int, j: int|
            i < j && #[trigger] lists_at(lists, k, i, j, v, u);
        assert(pair_entries(rule, v, u)[0] == (v, u));
        assert(edge_gives(rule, lists, k, i, j, (v, u)));
    }
}

/// Hyperedge `q` lists the member of the entry `e`, and `q` is the position in `e`.
pub open spec fn member_gives(lists: Seq<Seq<usize>>, q: int, e: (usize, usize)) -> bool {
    &&& 0 <= q < lists.len()
    &&& q == e.1
    &&& lists[q].contains(e.0)
}

proof fn lemma_incidence_gives(lists: Seq<Seq<usize>>, k_end: int, e: (usize, usize))
    requires
        k_end <= lists.len() <= usize::MAX,
    ensures
        incidence_entries(lists, k_end).contains(e) <==> exists|q: int|
            q < k_end && #[trigger] member_gives(lists, q, e),
    decreases k_end,
{
    if k_end <= 0 {
        assert(incidence_entries(lists, k_end) =~= Seq::<(usize, usize)>::empty());
    } else {
        let ids = distinct(lists[k_end - 1]);
        let here = member_entries(ids, (k_end - 1) as usize);
        lemma_distinct(lists[k_end - 1]);
        lemma_incidence_gives(lists, k_end - 1, e);
        lemma_concat_contains(incidence_entries(lists, k_end - 1), here, e);
        if here.contains(e) {
            let i = choose|i: int| 0 <= i < here.len() && here[i] == e;
            assert(ids[i] == e.0);
            assert(ids.contains(e.0));
            assert(member_gives(lists, k_end - 1, e));
        }
        if incidence_entries(lists, k_end - 1).contains(e) {
            let q = choose|q: int| q < k_end - 1 && #[trigger] member_gives(lists, q, e);
            assert(q < k_end && member_gives(lists, q, e));
        }
        if exists|q: int| q < k_end && #[trigger] member_gives(lists, q, e) {
            let q = choose|q: int| q < k_end && #[trigger] member_gives(lists, q, e);
            if q < k_end - 1 {
                assert(incidence_entries(lists, k_end - 1).contains(e));
            } else {
                assert(ids.contains(e.0));
                let i = choose|i: int| 0 <= i < ids.len() && ids[i] == e.0;
                assert(here[i] == e);
            }
        }
    }
}

/// The incidence index lists the position `k` under `v` exactly when hyperedge `k`
/// lists `v`.
pub proof fn lemma_incident_edges_list_the_node(lists: Seq<Seq<usize>>, v: usize, k: usize)
    requires
        lists.len() <= usize::MAX,
    ensures
        related(incidence_entries(lists, lists.len() as int), v).contains(k) <==> k < lists.len()
            && lists[k as int].contains(v),
{
    let all = incidence_entries(lists, lists.len() as int);
    lemma_related_contains(all, v, k);
    lemma_incidence_gives(lists, lists.len() as int, (v, k));
    if k < lists.len() && lists[k as int].contains(v) {
        assert(member_gives(lists, k as int, (v, k)));
    }
}

proof fn lemma_related_concat(a: Seq<(usize, usize)>, b: Seq<(usize, usize)>, key: usize)
    ensures
        related(a + b, key) == related(a, key) + related(b, key),
    decreases b.len(),
{
    if b.len() == 0 {
        lemma_related_empty(key);
        assert(a + b =~= a);
        assert(b =~= Seq::<(usize, usize)>::empty());
        assert(related(a, key) + Seq::<usize>::empty() =~= related(a, key));
    } else {
        let front = b.drop_last();
        let last = b.last();
        lemma_related_concat(a, front, key);
        assert(a + b =~= (a + front).push(last));
        assert(b =~= front.push(last));
        lemma_related_push(a + front, last.0, last.1, key);
        lemma_related_push(front, last.0, last.1, key);
        if last.0 == key {
            assert((related(a, key) + related(front, key)).push(last.1) =~= related(a, key)
                + related(front, key).push(last.1));
        }
    }
}

proof fn lemma_members_list_once(members: Seq<usize>, k: usize, v: usize, n: int)
    requires
        members.no_duplicates(),
        0 <= n <= members.len(),
    ensures
        related(member_entries(members, k).subrange(0, n), v) == if members.subrange(
            0,
            n,
        ).contains(v) {
            seq![k]
        } else {
            Seq::<usize>::empty()
        },
    decreases n,
{
    let entries = member_entries(members, k);
    if n == 0 {
        lemma_related_empty(v);
        assert(entries.subrange(0, 0) =~= Seq::<(usize, usize)>::empty());
        assert(members.subrange(0, 0) =~= Seq::<usize>::empty());
    } else {
        lemma_members_list_once(members, k, v, n - 1);
        let before = members.subrange(0, n - 1);
        let now = members.subrange(0, n);
        assert(entries.subrange(0, n) =~= entries.subrange(0, n - 1).push((members[n - 1], k)));
        lemma_related_push(entries.subrange(0, n - 1), members[n - 1], k, v);
        assert(now =~= before.push(members[n - 1]));
        if members[n - 1] == v {
            assert(now[n - 1] == v);
            if before.contains(v) {
                let p = choose|p: int| 0 <= p < before.len() && before[p] == v;
                assert(members[p] == members[n - 1]);
            }
            assert(Seq::<usize>::empty().push(k) =~= seq![k]);
        } else {
            if now.contains(v) {
                let p = choose|p: int| 0 <= p < now.len() && now[p] == v;
                assert(before[p] == v);
            }
            if before.contains(v) {
                let p = choose|p: int| 0 <= p < before.len() && before[p] == v;
                assert(now[p] == v);
            }
        }
    }
}

proof fn lemma_incident_once_upto(lists: Seq<Seq<usize>>, v: usize, k_end: int)
    requires
        k_end <= lists.len() <= usize::MAX,
    ensures
        related(incidence_entries(lists, k_end), v).no_duplicates(),
        forall|i: int|
            0 <= i < related(incidence_entries(lists, k_end), v).len() ==> #[trigger] related(
                incidence_entries(lists, k_end),
                v,
            )[i] < k_end,
    decreases k_end,
{
    if k_end <= 0 {
        lemma_related_empty(v);
        assert(incidence_entries(lists, k_end) =~= Seq::<(usize, usize)>::empty());
    } else {
        let k = (k_end - 1) as usize;
        let members = distinct(lists[k_end - 1]);
        let here = member_entries(members, k);
        let before = incidence_entries(lists, k_end - 1);
        lemma_incident_once_upto(lists, v, k_end - 1);
        lemma_distinct(lists[k_end - 1]);
        lemma_members_list_once(members, k, v, members.len() as int);
        assert(here.subrange(0, members.len() as int) =~= here);
        lemma_related_concat(before, here, v);
        let r = related(before, v);
        if members.subrange(0, members.len() as int).contains(v) {
            assert(r + seq![k] =~= r.push(k));
        } else {
            assert(r + Seq::<usize>::empty() =~= r);
        }
    }
}

/// The incidence index lists no hyperedge twice under one id: each hyperedge that
/// lists the id is recorded once, however often it lists it.
pub proof fn lemma_incident_once(lists: Seq<Seq<usize>>, v: usize)
    requires
        lists.len() <= usize::MAX,
    ensures
        related(incidence_entries(lists, lists.len() as int), v).no_duplicates(),
{
    lemma_incident_once_upto(lists, v, lists.len() as int);
}

} // verus!
