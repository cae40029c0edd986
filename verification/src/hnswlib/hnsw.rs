//! A layered proximity graph for approximate nearest-neighbour search.
//!
//! Every point stands on layer 0; a point of level `l` also stands on the layers
//! `1..=l`. On each of its layers a point keeps a bounded list of neighbours. A search
//! walks from the entry point, which stands on the top layer, down to layer 0, on each
//! layer moving greedily towards the query.
//!
//! Points are referred to by id, their position in the order of insertion, and the
//! lists hold ids: the index owns its points in flat vectors. An insertion takes the
//! index exclusively; searches only read it.

use vstd::prelude::*;
use crate::hnswlib::dist::{Distance, is_function, key_of, lemma_key_of};
use crate::hnswlib::ranking::{rank, ranking, is_ranking, precedes};

verus! {

/// A point found by a search: its id and its distance to the query.
#[derive(Clone, Copy, Debug, PartialEq, Eq, Structural)]
pub struct Neighbour {
    /// Id of the point: its position in the order of insertion.
    pub d_id: usize,
    /// Distance from the point to the query.
    pub distance: u64,
}

/// Why the index refused a parameter or a point.
#[derive(Clone, Copy, Debug, PartialEq, Eq, Structural)]
pub enum HnswError {
    /// A count that must be positive is zero.
    InvalidParameter,
    /// A vector differs in length from the points of the index.
    DimensionMismatch,
}

/// The highest layer that any index has.
pub const NB_LAYER_MAX: usize = 16;

/// `a` comes before `b` in a result: it is nearer, or as near and older.
pub open spec fn hit_before(a: Neighbour, b: Neighbour) -> bool {
    a.distance < b.distance || (a.distance == b.distance && a.d_id < b.d_id)
}

/// No two hits name one point.
pub open spec fn distinct_ids(hits: Seq<Neighbour>) -> bool {
    forall|i: int, j: int|
        0 <= i < j < hits.len() ==> (#[trigger] hits[i]).d_id != (#[trigger] hits[j]).d_id
}

/// The hits come nearest first, none twice.
pub open spec fn sorted_hits(hits: Seq<Neighbour>) -> bool {
    forall|i: int, j: int| 0 <= i < j < hits.len() ==> hit_before(hits[i], hits[j])
}

/// A copy of a vector.
pub fn copy_vec<T: Copy>(v: &Vec<T>) -> (r: Vec<T>)
    ensures
        r@ == v@,
{
    let mut r: Vec<T> = Vec::new();
    let mut i: usize = 0;
    while i < v.len()
        invariant
            i <= v.len(),
            r@ == v@.subrange(0, i as int),
        decreases v.len() - i,
    {
        r.push(v[i]);
        i += 1;
    }
    r
}

/// The ids of a list of hits.
pub open spec fn hit_ids(hits: Seq<Neighbour>) -> Seq<usize> {
    Seq::new(hits.len(), |k: int| hits[k].d_id)
}

/// The most neighbours that a point keeps on a layer: `m`, and `2 * m` on layer 0.
pub open spec fn layer_cap(m: usize, layer: int) -> int {
    if layer != 0 {
        m as int
    } else if m <= usize::MAX / 2 {
        2 * m
    } else {
        usize::MAX as int
    }
}

/// `nb` may be a neighbour of point `id` on `layer`: it is another point of the index
/// and stands on that layer.
pub open spec fn valid_edge(levels: Seq<usize>, id: int, layer: int, nb: usize) -> bool {
    nb < levels.len() && nb != id && layer <= levels[nb as int]
}

/// `list` may be the neighbours of point `id` on `layer`.
pub open spec fn valid_list(levels: Seq<usize>, m: usize, id: int, layer: int, list: Seq<usize>) -> bool {
    &&& list.len() <= layer_cap(m, layer)
    &&& forall|k: int| 0 <= k < list.len() ==> valid_edge(levels, id, layer, #[trigger] list[k])
}

/// Every point has one neighbour list for each of its layers, and each list is valid.
pub open spec fn valid_links(levels: Seq<usize>, m: usize, links: Seq<Vec<Vec<usize>>>) -> bool {
    &&& links.len() == levels.len()
    &&& forall|id: int| 0 <= id < links.len() ==> (#[trigger] links[id])@.len() == levels[id] + 1
    &&& forall|id: int, layer: int|
        0 <= id < links.len() && 0 <= layer <= levels[id] ==> valid_list(
            levels,
            m,
            id,
            layer,
            (#[trigger] links[id]@[layer])@,
        )
}

/// All vectors of the list have one length.
pub open spec fn same_length<T>(points: Seq<Vec<T>>) -> bool {
    forall|i: int, j: int|
        0 <= i < points.len() && 0 <= j < points.len() ==> (#[trigger] points[i])@.len() == (
        #[trigger] points[j])@.len()
}

/// How many heads open a run of coin flips, the flips being the bits of `draw` from
/// the lowest up, and the run being cut after `cap` flips.
pub open spec fn heads(draw: nat, cap: nat) -> nat
    decreases cap,
{
    if cap == 0 || draw % 2 == 0 {
        0
    } else {
        1 + heads(draw / 2, (cap - 1) as nat)
    }
}

/// The level that a random word assigns to a point: the heads that open its run of
/// coin flips, `cap` at most. Of uniformly random words, half give level 0, a quarter
/// level 1, and so on.
pub fn level_from_draw(draw: u64, cap: usize) -> (level: usize)
    ensures
        level == heads(draw as nat, cap as nat),
        level <= cap,
{
    let mut level: usize = 0;
    let mut rest: u64 = draw;
    while level < cap && rest % 2 == 1
        invariant
            level <= cap,
            heads(draw as nat, cap as nat) == level + heads(rest as nat, (cap - level) as nat),
        decreases cap - level,
    {
        rest = rest / 2;
        level += 1;
    }
    level
}

/// How many entries of `seen` are still false.
pub open spec fn unvisited(seen: Seq<bool>) -> nat
    decreases seen.len(),
{
    if seen.len() == 0 {
        0
    } else {
        unvisited(seen.drop_last()) + (if seen.last() {
            0nat
        } else {
            1nat
        })
    }
}

/// Visiting a point that was not visited leaves one point fewer to visit.
proof fn lemma_visit(seen: Seq<bool>, i: int)
    requires
        0 <= i < seen.len(),
        !seen[i],
    ensures
        unvisited(seen.update(i, true)) + 1 == unvisited(seen),
    decreases seen.len(),
{
    let after = seen.update(i, true);
    if i == seen.len() - 1 {
        assert(after.drop_last() =~= seen.drop_last());
    } else {
        assert(after.drop_last() =~= seen.drop_last().update(i, true));
        lemma_visit(seen.drop_last(), i);
    }
}

/// Where `hit` goes into a sorted list of hits, looking from position `at` down: behind
/// the last hit that does not come after it.
pub open spec fn place_hit(hits: Seq<Neighbour>, hit: Neighbour, at: nat) -> nat
    decreases at,
{
    if at > 0 && hit_before(hit, hits[at - 1]) {
        place_hit(hits, hit, (at - 1) as nat)
    } else {
        at
    }
}

/// A sorted list of hits with one more hit in its place.
pub open spec fn with_hit(hits: Seq<Neighbour>, hit: Neighbour) -> Seq<Neighbour> {
    hits.insert(place_hit(hits, hit, hits.len()) as int, hit)
}

/// Where `hit` goes into a list of candidates that holds the nearest last, looking
/// from position `at` down.
pub open spec fn place_candidate(candidates: Seq<Neighbour>, hit: Neighbour, at: nat) -> nat
    decreases at,
{
    if at > 0 && hit_before(candidates[at - 1], hit) {
        place_candidate(candidates, hit, (at - 1) as nat)
    } else {
        at
    }
}

/// A list of candidates with one more candidate in its place.
pub open spec fn with_candidate(candidates: Seq<Neighbour>, hit: Neighbour) -> Seq<Neighbour> {
    candidates.insert(place_candidate(candidates, hit, candidates.len()) as int, hit)
}

/// The state of a walk over one layer: the points seen, the candidates whose
/// neighbours are still to be looked at, nearest last, and the best points found,
/// nearest first.
pub ghost struct Walk {
    pub seen: Seq<bool>,
    pub candidates: Seq<Neighbour>,
    pub found: Seq<Neighbour>,
}

/// No more points are unvisited than there are points.
proof fn lemma_unvisited_bound(seen: Seq<bool>)
    ensures
        unvisited(seen) <= seen.len(),
    decreases seen.len(),
{
    if seen.len() > 0 {
        lemma_unvisited_bound(seen.drop_last());
    }
}

/// The largest of the first `k` keys, and 0 where `k` is 0.
pub open spec fn peak(keys: Seq<u64>, k: nat) -> u64
    decreases k,
{
    if k == 0 {
        0
    } else if keys[k - 1] >= peak(keys, (k - 1) as nat) {
        keys[k - 1]
    } else {
        peak(keys, (k - 1) as nat)
    }
}

/// Where the largest of the first `k` keys stands: at the last place, where several
/// keys are the largest.
pub open spec fn farthest(keys: Seq<u64>, k: nat) -> int
    decreases k,
{
    if k == 0 {
        0
    } else if keys[k - 1] >= peak(keys, (k - 1) as nat) {
        k - 1
    } else {
        farthest(keys, (k - 1) as nat)
    }
}

/// A full neighbour list after point `id` asked for a place in it. `fars[k]` is the
/// distance of the list's owner to its neighbour `k`, and `reach` its distance to
/// `id`: `id` takes the place of the farthest neighbour if it is nearer than that one,
/// and else the list stays.
pub open spec fn relinked(was: Seq<usize>, id: usize, reach: u64, fars: Seq<u64>) -> Seq<usize> {
    if reach < peak(fars, fars.len()) {
        was.update(farthest(fars, fars.len()), id)
    } else {
        was
    }
}

/// The largest of the first `k` keys, and its place, depend on those keys alone; the
/// place is one of the first `k`.
proof fn lemma_peak_prefix(a: Seq<u64>, b: Seq<u64>, k: nat)
    requires
        k <= a.len(),
        k <= b.len(),
        forall|i: int| 0 <= i < k ==> a[i] == b[i],
    ensures
        peak(a, k) == peak(b, k),
        farthest(a, k) == farthest(b, k),
        k > 0 ==> 0 <= farthest(a, k) < k && a[farthest(a, k)] == peak(a, k),
    decreases k,
{
    if k > 0 {
        lemma_peak_prefix(a, b, (k - 1) as nat);
    }
}

/// `chosen` holds the ids of candidates other than `id`, in the order of the
/// candidates: `chosen[k]` is the id of the candidate at `at[k]`.
pub open spec fn picked_from(
    candidates: Seq<Neighbour>,
    id: usize,
    chosen: Seq<usize>,
    at: Seq<int>,
) -> bool {
    &&& at.len() == chosen.len()
    &&& forall|k: int|
        0 <= k < at.len() ==> 0 <= (#[trigger] at[k]) < candidates.len() && candidates[at[k]].d_id
            == chosen[k] && chosen[k] != id
    &&& forall|k: int, l: int| 0 <= k < l < at.len() ==> (#[trigger] at[k]) < (#[trigger] at[l])
}

/// The candidate at `c` is the first one that is not point `id` itself.
pub open spec fn first_other(candidates: Seq<Neighbour>, id: usize, c: int) -> bool {
    &&& 0 <= c < candidates.len()
    &&& candidates[c].d_id != id
    &&& forall|b: int| 0 <= b < c ==> (#[trigger] candidates[b]).d_id == id
}

/// Whether `a` comes before `b` in a result.
fn comes_first(a: Neighbour, b: Neighbour) -> (r: bool)
    ensures
        r == hit_before(a, b),
{
    a.distance < b.distance || (a.distance == b.distance && a.d_id < b.d_id)
}

/// Puts `hit` into a sorted list of hits that does not hold its point yet.
fn insert_hit(hits: &mut Vec<Neighbour>, hit: Neighbour) -> (at: usize)
    requires
        sorted_hits(old(hits)@),
        forall|k: int| 0 <= k < old(hits)@.len() ==> (#[trigger] old(hits)@[k]).d_id != hit.d_id,
    ensures
        at <= old(hits)@.len(),
        final(hits)@ == old(hits)@.insert(at as int, hit),
        final(hits)@ == with_hit(old(hits)@, hit),
        final(hits)@.len() == old(hits)@.len() + 1,
        sorted_hits(final(hits)@),
        forall|k: int| 0 <= k < at ==> final(hits)@[k] == old(hits)@[k],
        final(hits)@[at as int] == hit,
        forall|k: int| at < k <= old(hits)@.len() ==> final(hits)@[k] == old(hits)@[k - 1],
{
    let mut at: usize = hits.len();
    while at > 0 && comes_first(hit, hits[at - 1])
        invariant
            at <= hits@.len(),
            hits@ == old(hits)@,
            forall|k: int| at <= k < hits@.len() ==> hit_before(hit, #[trigger] hits@[k]),
            place_hit(hits@, hit, hits@.len()) == place_hit(hits@, hit, at as nat),
        decreases at,
    {
        at -= 1;
    }
    let ghost before = hits@;
    hits.insert(at, hit);
    proof {
        before.insert_ensures(at as int, hit);
        let after = hits@;
        assert forall|i: int, j: int| 0 <= i < j < after.len() implies hit_before(
            after[i],
            after[j],
        ) by {
            if j == at {
                assert(hit_before(before[i], before[at - 1]) || i == at - 1);
            }
        }
    }
    at
}

/// Puts `hit` into the list of candidates, which is kept with the nearest last.
fn insert_candidate(candidates: &mut Vec<Neighbour>, hit: Neighbour) -> (at: usize)
    ensures
        at <= old(candidates)@.len(),
        final(candidates)@ == old(candidates)@.insert(at as int, hit),
        final(candidates)@ == with_candidate(old(candidates)@, hit),
        final(candidates)@.len() == old(candidates)@.len() + 1,
        forall|k: int| 0 <= k < at ==> final(candidates)@[k] == old(candidates)@[k],
        final(candidates)@[at as int] == hit,
        forall|k: int|
            at < k <= old(candidates)@.len() ==> final(candidates)@[k] == old(candidates)@[k - 1],
{
    let mut at: usize = candidates.len();
    while at > 0 && comes_first(candidates[at - 1], hit)
        invariant
            at <= candidates@.len(),
            candidates@ == old(candidates)@,
            place_candidate(candidates@, hit, candidates@.len()) == place_candidate(
                candidates@,
                hit,
                at as nat,
            ),
        decreases at,
    {
        at -= 1;
    }
    let ghost before = candidates@;
    candidates.insert(at, hit);
    proof {
        before.insert_ensures(at as int, hit);
        let after = candidates@;
    }
    at
}


/// The index: points in the order of their insertion, and for each point its level
/// and its neighbours on each of its layers.
pub struct Hnsw<T, D> {
    max_nb_connection: usize,
    max_layer: usize,
    ef_construction: usize,
    points: Vec<Vec<T>>,
    levels: Vec<usize>,
    links: Vec<Vec<Vec<usize>>>,
    entry: usize,
    dist: D,
}

impl<T: Copy, D: Distance<T>> Hnsw<T, D> {
    /// The invariant of the index. A point's neighbours are other points that stand on
    /// the layer of the list; no list is longer than `max_nb_connection`, twice that on
    /// layer 0; no level exceeds `max_layer`; the entry point has the highest level;
    /// all points have one dimension.
    pub closed spec fn wf(&self) -> bool {
        &&& self.max_nb_connection >= 1
        &&& self.ef_construction >= 1
        &&& self.max_layer <= NB_LAYER_MAX
        &&& self.points@.len() == self.levels@.len()
        &&& same_length(self.points@)
        &&& valid_links(self.levels@, self.max_nb_connection, self.links@)
        &&& forall|id: int|
            0 <= id < self.levels@.len() ==> (#[trigger] self.levels@[id]) <= self.max_layer
        &&& self.levels@.len() > 0 ==> {
            &&& self.entry < self.levels@.len()
            &&& forall|id: int|
                0 <= id < self.levels@.len() ==> (#[trigger] self.levels@[id])
                    <= self.levels@[self.entry as int]
        }
    }

    /// The points of the index, by id.
    pub closed spec fn points(&self) -> Seq<Seq<T>> {
        Seq::new(self.points@.len(), |id: int| self.points@[id]@)
    }

    /// The level of each point, by id.
    pub closed spec fn levels(&self) -> Seq<usize> {
        self.levels@
    }

    /// The neighbours of point `id` on `layer`.
    pub closed spec fn neighbours(&self, id: int, layer: int) -> Seq<usize> {
        self.links@[id]@[layer]@
    }

    /// The entry point: where every search starts. An empty index has none.
    pub closed spec fn entry_point(&self) -> Option<usize> {
        if self.levels@.len() > 0 {
            Some(self.entry)
        } else {
            None
        }
    }

    /// The most neighbours that a point keeps on a layer above layer 0.
    pub closed spec fn max_connections(&self) -> usize {
        self.max_nb_connection
    }

    /// The highest layer that the index may have.
    pub closed spec fn top_layer(&self) -> usize {
        self.max_layer
    }

    /// The width of the candidate list during insertion.
    pub closed spec fn construction_width(&self) -> usize {
        self.ef_construction
    }

    /// The metric that the index was built with.
    pub closed spec fn metric(&self) -> D {
        self.dist
    }

    /// The index has grown out of `before` by edges to point `id` alone: every list of
    /// a point of `before` is as long as it was or longer, and holds, besides points that
    /// it held, at most `id`.
    pub open spec fn extends(&self, before: Self, id: usize) -> bool {
        forall|a: int, b: int|
            0 <= a < before.points().len() && 0 <= b <= before.levels()[a] ==> {
                &&& (#[trigger] self.neighbours(a, b)).len() >= before.neighbours(a, b).len()
                &&& forall|k: int|
                    0 <= k < self.neighbours(a, b).len() ==> self.neighbours(a, b)[k] == id
                        || before.neighbours(a, b).contains(#[trigger] self.neighbours(a, b)[k])
            }
    }

    /// The candidate is no nearer to any of the neighbours chosen from place `s` on than
    /// to the point that chooses, where the metric is a function.
    pub open spec fn keeps_apart(&self, candidate: Neighbour, chosen: Seq<usize>, s: nat) -> bool
        decreases chosen.len() - s,
    {
        s >= chosen.len() || (key_of(
            &self.metric(),
            self.points()[candidate.d_id as int],
            self.points()[chosen[s as int] as int],
        ) >= candidate.distance && self.keeps_apart(candidate, chosen, s + 1))
    }

    /// The neighbours chosen for point `id` among the first `c` candidates, where the
    /// metric is a function. The candidates are taken in their order, nearest first, as
    /// long as fewer than `limit` are chosen. A candidate is chosen unless it is point
    /// `id` itself, or nearer to a neighbour already chosen than to point `id`.
    pub open spec fn selected(&self, candidates: Seq<Neighbour>, id: usize, limit: nat, c: nat) -> Seq<
        usize,
    >
        decreases c,
    {
        if c == 0 {
            Seq::empty()
        } else {
            let before = self.selected(candidates, id, limit, (c - 1) as nat);
            let candidate = candidates[c - 1];
            if before.len() < limit && candidate.d_id != id && self.keeps_apart(
                candidate,
                before,
                0,
            ) {
                before.push(candidate.d_id)
            } else {
                before
            }
        }
    }

    /// No more than `limit` neighbours are chosen, and once `limit` are chosen the
    /// candidates that follow change nothing.
    pub proof fn lemma_selected_full(&self, candidates: Seq<Neighbour>, id: usize, limit: nat, c: nat, d: nat)
        requires
            c <= d,
        ensures
            self.selected(candidates, id, limit, c).len() <= limit,
            self.selected(candidates, id, limit, c).len() >= limit ==> self.selected(
                candidates,
                id,
                limit,
                d,
            ) == self.selected(candidates, id, limit, c),
        decreases d,
    {
        if c > 0 {
            self.lemma_selected_full(candidates, id, limit, (c - 1) as nat, (c - 1) as nat);
        }
        if d > c {
            self.lemma_selected_full(candidates, id, limit, c, (d - 1) as nat);
        }
    }

    /// `reach` and `fars` are distances that the metric reports from point `from`: to
    /// point `id`, and to each neighbour of the list.
    pub open spec fn weighs(&self, from: int, list: Seq<usize>, id: usize, reach: u64, fars: Seq<u64>) -> bool {
        &&& self.metric().reports(self.points()[from], self.points()[id as int], reach)
        &&& fars.len() == list.len()
        &&& forall|k: int|
            0 <= k < list.len() ==> self.metric().reports(
                self.points()[from],
                self.points()[list[k] as int],
                #[trigger] fars[k],
            )
    }

    /// Point `id` asked point `p` for a place in its list on `layer` and was left out:
    /// the list was full before, it stays as it was, and `id` is no nearer to `p` than
    /// the farthest neighbour in it.
    pub open spec fn left_out(&self, before: Self, p: int, layer: int, id: usize) -> bool {
        let was = before.neighbours(p, layer);
        &&& was.len() >= layer_cap(before.max_connections(), layer)
        &&& self.neighbours(p, layer) == was
        &&& exists|reach: u64, fars: Seq<u64>| #[trigger]
            self.weighs(p, was, id, reach, fars) && reach >= peak(fars, fars.len())
    }

    /// Point `p` holds point `id` as neighbour on `layer`, unless its list was full of
    /// points no farther from it than `id` is.
    pub open spec fn holds_or_left(&self, before: Self, p: int, layer: int, id: usize) -> bool {
        self.neighbours(p, layer).contains(id) || self.left_out(before, p, layer, id)
    }

    /// Point `id`, which `before` did not hold, has its place on `layer`: it has one
    /// neighbour or more, `max_connections` at most, and each of them holds it in turn
    /// unless its list was full of points no farther (see `holds_or_left`).
    pub open spec fn settled(&self, before: Self, id: usize, layer: int) -> bool {
        let list = self.neighbours(id as int, layer);
        &&& 1 <= list.len() <= self.max_connections()
        &&& forall|k: int|
            0 <= k < list.len() ==> self.holds_or_left(before, (#[trigger] list[k]) as int, layer, id)
    }

    /// An index at the moment at which point `id` looks for neighbours on `layer`, and
    /// what that leads to. On that layer the points of `before` have the lists that
    /// they had, and point `id` has none yet. `list` is what is chosen for `id` (see
    /// `selected`) among the points that a walk of the width of construction finds from
    /// `start`, a point of the layer other than `id`, towards point `id`.
    pub open spec fn leads_to(&self, before: Self, id: usize, layer: int, start: Neighbour, list: Seq<usize>) -> bool {
        &&& forall|a: int|
            0 <= a < id && layer <= before.levels()[a] ==> (#[trigger] self.neighbours(a, layer))
                == before.neighbours(a, layer)
        &&& self.neighbours(id as int, layer).len() == 0
        &&& self.is_hit(self.points()[id as int], layer, start)
        &&& start.d_id != id
        &&& list == self.selected(
            self.layer_walk(
                self.points()[id as int],
                start,
                self.construction_width() as nat,
                layer,
            ),
            id,
            self.max_connections() as nat,
            self.layer_walk(
                self.points()[id as int],
                start,
                self.construction_width() as nat,
                layer,
            ).len(),
        )
    }

    /// The neighbours of point `id` on `layer` are those that were chosen for it when
    /// it looked for them (see `leads_to`), in an index with the points, the metric
    /// and the parameters of this one.
    pub open spec fn picked_on(&self, before: Self, id: usize, layer: int) -> bool {
        exists|stage: Self, start: Neighbour|
            {
                &&& stage.points() == self.points()
                &&& stage.metric() == self.metric()
                &&& stage.construction_width() == self.construction_width()
                &&& stage.max_connections() == self.max_connections()
                &&& #[trigger] stage.leads_to(
                    before,
                    id,
                    layer,
                    start,
                    self.neighbours(id as int, layer),
                )
            }
    }

    /// What was chosen for a point stays chosen, as long as its list, the points, the
    /// metric and the parameters stay.
    proof fn lemma_picked_kept(&self, mid: Self, before: Self, id: usize, layer: int)
        requires
            mid.picked_on(before, id, layer),
            self.points == mid.points,
            self.dist == mid.dist,
            self.max_nb_connection == mid.max_nb_connection,
            self.ef_construction == mid.ef_construction,
            self.links@[id as int]@[layer]@ == mid.links@[id as int]@[layer]@,
        ensures
            self.picked_on(before, id, layer),
    {
        let (stage, start) = choose|stage: Self, start: Neighbour|
            {
                &&& stage.points() == mid.points()
                &&& stage.metric() == mid.metric()
                &&& stage.construction_width() == mid.construction_width()
                &&& stage.max_connections() == mid.max_connections()
                &&& #[trigger] stage.leads_to(before, id, layer, start, mid.neighbours(id as int, layer))
            };
        assert(stage.leads_to(before, id, layer, start, self.neighbours(id as int, layer)));
    }

    /// The lists of the first `n` points on the layers up to `upto` are those of
    /// `before`, and point `n` has no neighbour on these layers.
    spec fn untouched(&self, before: Self, n: usize, upto: int) -> bool {
        &&& forall|a: int, b: int|
            0 <= a < n && 0 <= b <= upto && b <= before.levels@[a] ==> (
            #[trigger] self.links@[a]@[b])@ == before.links@[a]@[b]@
        &&& forall|b: int|
            0 <= b <= upto && b <= self.levels@[n as int] ==> (#[trigger] self.links@[n as int]@[b])@.len()
                == 0
    }

    /// What holds of a point's list holds on, as long as the list, the points and the
    /// metric stay.
    proof fn lemma_holds_kept(&self, mid: Self, before: Self, p: int, layer: int, id: usize)
        requires
            mid.holds_or_left(before, p, layer, id),
            self.points == mid.points,
            self.dist == mid.dist,
            self.links@[p]@[layer]@ == mid.links@[p]@[layer]@,
        ensures
            self.holds_or_left(before, p, layer, id),
    {
        if !mid.neighbours(p, layer).contains(id) {
            let was = before.neighbours(p, layer);
            let (reach, fars) = choose|reach: u64, fars: Seq<u64>| #[trigger]
                mid.weighs(p, was, id, reach, fars) && reach >= peak(fars, fars.len());
            assert(self.weighs(p, was, id, reach, fars));
        }
    }

    /// The place of a point on a layer holds on, as long as the lists of the layer, the
    /// points, the metric and the bound on the lists stay.
    proof fn lemma_settled_kept(&self, mid: Self, before: Self, id: usize, layer: int)
        requires
            mid.settled(before, id, layer),
            self.points == mid.points,
            self.dist == mid.dist,
            self.max_nb_connection == mid.max_nb_connection,
            self.links@[id as int]@[layer]@ == mid.links@[id as int]@[layer]@,
            forall|k: int|
                0 <= k < mid.links@[id as int]@[layer]@.len() ==> self.links@[(
                #[trigger] mid.links@[id as int]@[layer]@[k]) as int]@[layer]@
                    == mid.links@[mid.links@[id as int]@[layer]@[k] as int]@[layer]@,
        ensures
            self.settled(before, id, layer),
    {
        let list = self.neighbours(id as int, layer);
        assert forall|k: int| 0 <= k < list.len() implies self.holds_or_left(
            before,
            (#[trigger] list[k]) as int,
            layer,
            id,
        ) by {
            assert(mid.holds_or_left(before, mid.neighbours(id as int, layer)[k] as int, layer, id));
            self.lemma_holds_kept(mid, before, list[k] as int, layer, id);
        }
    }

    /// Point `x` is a neighbour of some point on `layer`.
    pub open spec fn is_linked(&self, layer: int, x: usize) -> bool {
        exists|a: int, j: int|
            0 <= a < self.points().len() && layer <= self.levels()[a] && 0 <= j < self.neighbours(
                a,
                layer,
            ).len() && #[trigger] self.neighbours(a, layer)[j] == x
    }

    /// Every hit is the point `start` or a neighbour of some point on `layer`: a walk
    /// finds nothing but its start and what the lists of the layer lead to.
    pub open spec fn walked(&self, layer: int, start: usize, hits: Seq<Neighbour>) -> bool {
        forall|k: int|
            0 <= k < hits.len() ==> (#[trigger] hits[k]).d_id == start || self.is_linked(
                layer,
                hits[k].d_id,
            )
    }

    /// `hit` names a point of the index that stands on `layer`, with its distance to
    /// the query.
    pub open spec fn is_hit(&self, query: Seq<T>, layer: int, hit: Neighbour) -> bool {
        &&& hit.d_id < self.points().len()
        &&& layer <= self.levels()[hit.d_id as int]
        &&& self.metric().reports(self.points()[hit.d_id as int], query, hit.distance)
    }

    /// Every hit of the list names a point of the index that stands on `layer`, with
    /// its distance to the query.
    pub open spec fn are_hits(&self, query: Seq<T>, layer: int, hits: Seq<Neighbour>) -> bool {
        forall|k: int| 0 <= k < hits.len() ==> self.is_hit(query, layer, #[trigger] hits[k])
    }

    /// A vector of this length can be compared with the points of the index.
    pub open spec fn fits(&self, len: nat) -> bool {
        self.points().len() > 0 ==> self.points()[0].len() == len
    }

    /// The key of point `id` against the query, where the metric is a function.
    pub open spec fn key(&self, id: int, query: Seq<T>) -> u64 {
        key_of(&self.metric(), self.points()[id], query)
    }

    /// A walk after it has looked at point `e`, a neighbour of the candidate in hand.
    /// A point seen before changes nothing. A new point is marked as seen; it joins the
    /// candidates and the points found if fewer than `ef` points are found or if it is
    /// nearer than the farthest of them, which then leaves if `ef` are exceeded.
    pub open spec fn visit(&self, query: Seq<T>, ef: nat, walk: Walk, e: usize) -> Walk {
        if walk.seen[e as int] {
            walk
        } else {
            let seen = walk.seen.update(e as int, true);
            let hit = Neighbour { d_id: e, distance: self.key(e as int, query) };
            if walk.found.len() < ef || hit.distance < walk.found.last().distance {
                let found = with_hit(walk.found, hit);
                Walk {
                    seen,
                    candidates: with_candidate(walk.candidates, hit),
                    found: if found.len() > ef {
                        found.drop_last()
                    } else {
                        found
                    },
                }
            } else {
                Walk { seen, candidates: walk.candidates, found: walk.found }
            }
        }
    }

    /// A walk after it has looked at the points of `list` from position `k` on.
    pub open spec fn visit_all(&self, query: Seq<T>, ef: nat, walk: Walk, list: Seq<usize>, k: nat) -> Walk
        decreases list.len() - k,
    {
        if k >= list.len() {
            walk
        } else {
            self.visit_all(query, ef, self.visit(query, ef, walk, list[k as int]), list, k + 1)
        }
    }

    /// The points that a walk finds from its present state on. The walk takes the
    /// nearest candidate in hand; it ends when there is none, or when that one is
    /// farther than the farthest point found; else it looks at the candidate's
    /// neighbours on the layer and goes on. `fuel` bounds the candidates taken in hand.
    pub open spec fn walk_on(&self, query: Seq<T>, layer: int, ef: nat, walk: Walk, fuel: nat) -> Seq<
        Neighbour,
    >
        decreases fuel,
    {
        if walk.candidates.len() == 0 || fuel == 0 {
            walk.found
        } else {
            let nearest = walk.candidates.last();
            let rest = Walk {
                seen: walk.seen,
                candidates: walk.candidates.drop_last(),
                found: walk.found,
            };
            if nearest.distance > walk.found.last().distance {
                walk.found
            } else {
                self.walk_on(
                    query,
                    layer,
                    ef,
                    self.visit_all(query, ef, rest, self.neighbours(nearest.d_id as int, layer), 0),
                    (fuel - 1) as nat,
                )
            }
        }
    }

    /// The points that a walk over `layer` finds from `start` with a result list of
    /// width `ef`, nearest first, where the metric is a function.
    pub open spec fn layer_walk(&self, query: Seq<T>, start: Neighbour, ef: nat, layer: int) -> Seq<
        Neighbour,
    > {
        self.walk_on(
            query,
            layer,
            ef,
            Walk {
                seen: Seq::new(self.points().len(), |id: int| id == start.d_id),
                candidates: seq![start],
                found: seq![start],
            },
            self.points().len() + 1,
        )
    }

    /// The point from which the walk over layer 0 starts: the nearest point that walks
    /// of width 1 find on the layers from `layer` down to 1, each starting from what the
    /// one above found.
    pub open spec fn descent(&self, query: Seq<T>, start: Neighbour, layer: nat) -> Neighbour
        decreases layer,
    {
        if layer == 0 {
            start
        } else {
            self.descent(query, self.layer_walk(query, start, 1, layer as int)[0], (layer - 1) as nat)
        }
    }

    /// Every point of the index with its key against the query, nearest first, where the
    /// metric is a function.
    pub open spec fn exact_hits(&self, query: Seq<T>) -> Seq<Neighbour> {
        let keys = Seq::new(self.points().len(), |id: int| self.key(id, query));
        let order = ranking(keys, self.points().len());
        Seq::new(
            self.points().len(),
            |k: int| Neighbour { d_id: order[k], distance: keys[order[k] as int] },
        )
    }

    /// What `search` returns for a query that it accepts, where the metric is a
    /// function: all points in exact order where `knbn` is no less than their number,
    /// else the first `knbn` points that the walk over layer 0 finds.
    pub open spec fn search_result(&self, query: Seq<T>, knbn: nat, ef: nat) -> Seq<Neighbour> {
        if knbn >= self.points().len() {
            self.exact_hits(query)
        } else {
            let entry = self.entry_point()->Some_0;
            let top = Neighbour { d_id: entry, distance: self.key(entry as int, query) };
            let start = self.descent(query, top, self.levels()[entry as int] as nat);
            let width = if ef >= knbn {
                ef
            } else {
                knbn
            };
            let found = self.layer_walk(query, start, width, 0);
            if found.len() > knbn {
                found.subrange(0, knbn as int)
            } else {
                found
            }
        }
    }

    /// An empty index. `max_nb_connection` bounds the neighbours of a point on a layer
    /// (twice as many on layer 0), `max_layer` is the highest layer, `NB_LAYER_MAX` at
    /// most, `ef_construction` the width of the candidate list during insertion, and
    /// `max_elements` the number of points to make room for. A zero
    /// `max_nb_connection` or `ef_construction` is refused.
    pub fn new(
        max_nb_connection: usize,
        max_elements: usize,
        max_layer: usize,
        ef_construction: usize,
        dist: D,
    ) -> (r: Result<Self, HnswError>)
        ensures
            max_nb_connection == 0 || ef_construction == 0 ==> r is Err && r->Err_0
                == HnswError::InvalidParameter,
            max_nb_connection > 0 && ef_construction > 0 ==> r is Ok && {
                let index = r->Ok_0;
                &&& index.wf()
                &&& index.points() == Seq::<Seq<T>>::empty()
                &&& index.levels() == Seq::<usize>::empty()
                &&& index.entry_point() is None
                &&& index.max_connections() == max_nb_connection
                &&& index.top_layer() == (if max_layer <= NB_LAYER_MAX {
                    max_layer
                } else {
                    NB_LAYER_MAX
                })
                &&& index.construction_width() == ef_construction
                &&& index.metric() == dist
            },
    {
        if max_nb_connection == 0 || ef_construction == 0 {
            return Err(HnswError::InvalidParameter);
        }
        let index = Hnsw {
            max_nb_connection,
            max_layer: if max_layer <= NB_LAYER_MAX {
                max_layer
            } else {
                NB_LAYER_MAX
            },
            ef_construction,
            points: Vec::with_capacity(max_elements),
            levels: Vec::with_capacity(max_elements),
            links: Vec::with_capacity(max_elements),
            entry: 0,
            dist,
        };
        Ok(index)
    }

    /// Empties the index for a new build over `max_elements` points with `max_layer`
    /// as highest layer, `NB_LAYER_MAX` at most. The metric and the other parameters
    /// stay.
    pub fn reset(&mut self, max_elements: usize, max_layer: usize)
        requires
            old(self).wf(),
        ensures
            final(self).wf(),
            final(self).points() == Seq::<Seq<T>>::empty(),
            final(self).levels() == Seq::<usize>::empty(),
            final(self).entry_point() is None,
            final(self).max_connections() == old(self).max_connections(),
            final(self).construction_width() == old(self).construction_width(),
            final(self).metric() == old(self).metric(),
            final(self).top_layer() == (if max_layer <= NB_LAYER_MAX {
                max_layer
            } else {
                NB_LAYER_MAX
            }),
    {
        self.points = Vec::with_capacity(max_elements);
        self.levels = Vec::with_capacity(max_elements);
        self.links = Vec::with_capacity(max_elements);
        self.entry = 0;
        self.max_layer = if max_layer <= NB_LAYER_MAX {
            max_layer
        } else {
            NB_LAYER_MAX
        };
    }

    /// What holds of every index: each point has a neighbour list on each of its
    /// layers and on no other; a list holds at most `max_connections` points, twice as
    /// many on layer 0; each neighbour is another point of the index that stands on the
    /// layer of the list; no level exceeds the top layer, and none the level of the
    /// entry point, which an index has unless it is empty; all points have one length.
    pub proof fn lemma_invariants(&self)
        requires
            self.wf(),
        ensures
            self.max_connections() >= 1,
            self.construction_width() >= 1,
            self.top_layer() <= NB_LAYER_MAX,
            self.levels().len() == self.points().len(),
            self.entry_point() is Some <==> self.points().len() > 0,
            self.entry_point() is Some ==> self.entry_point()->Some_0 < self.points().len(),
            forall|id: int|
                0 <= id < self.points().len() ==> (#[trigger] self.levels()[id])
                    <= self.top_layer() && self.levels()[id] <= self.levels()[self.entry_point()->Some_0 as int],
            forall|id: int, layer: int|
                0 <= id < self.points().len() && 0 <= layer <= self.levels()[id] ==> valid_list(
                    self.levels(),
                    self.max_connections(),
                    id,
                    layer,
                    #[trigger] self.neighbours(id, layer),
                ),
            forall|i: int, j: int|
                0 <= i < self.points().len() && 0 <= j < self.points().len() ==> (
                #[trigger] self.points()[i]).len() == (#[trigger] self.points()[j]).len(),
    {
    }

    /// The most neighbours that a point keeps on a layer above layer 0.
    pub fn get_max_nb_connection(&self) -> (m: usize)
        ensures
            m == self.max_connections(),
    {
        self.max_nb_connection
    }

    /// The width of the candidate list during insertion.
    pub fn get_ef_construction(&self) -> (ef: usize)
        ensures
            ef == self.construction_width(),
    {
        self.ef_construction
    }

    /// The highest layer that the index may have.
    pub fn get_max_level(&self) -> (layer: usize)
        ensures
            layer == self.top_layer(),
    {
        self.max_layer
    }

    /// The entry point, if the index is not empty.
    pub fn get_entry_point(&self) -> (entry: Option<usize>)
        ensures
            entry == self.entry_point(),
    {
        if self.levels.len() > 0 {
            Some(self.entry)
        } else {
            None
        }
    }

    /// The level of point `id`, if there is such a point.
    pub fn get_level(&self, id: usize) -> (level: Option<usize>)
        requires
            self.wf(),
        ensures
            id < self.points().len() ==> level == Some(self.levels()[id as int]),
            id >= self.points().len() ==> level is None,
    {
        if id < self.levels.len() {
            Some(self.levels[id])
        } else {
            None
        }
    }

    /// The neighbours of point `id` on `layer`, if the point stands on that layer.
    pub fn get_neighbours(&self, id: usize, layer: usize) -> (list: Option<Vec<usize>>)
        requires
            self.wf(),
        ensures
            id < self.points().len() && layer <= self.levels()[id as int] ==> list is Some
                && list->Some_0@ == self.neighbours(id as int, layer as int),
            id >= self.points().len() || layer > self.levels()[id as int] ==> list is None,
    {
        if id < self.levels.len() && layer <= self.levels[id] {
            Some(copy_vec(&self.links[id][layer]))
        } else {
            None
        }
    }

    /// The number of points in the index.
    pub fn get_nb_point(&self) -> (n: usize)
        ensures
            n == self.points().len(),
    {
        self.points.len()
    }

    /// The most neighbours that a point keeps on `layer`.
    fn cap(&self, layer: usize) -> (cap: usize)
        ensures
            cap == layer_cap(self.max_nb_connection, layer as int),
    {
        if layer != 0 {
            self.max_nb_connection
        } else if self.max_nb_connection <= usize::MAX / 2 {
            2 * self.max_nb_connection
        } else {
            usize::MAX
        }
    }

    /// Chooses at most `limit` neighbours for point `id` among the candidates, which
    /// come nearest first. The candidates are taken in their order as long as fewer than
    /// `limit` are chosen. A candidate is passed over where it is point `id` itself, or
    /// nearer to a neighbour already chosen than to point `id`: such an edge would run
    /// beside one that exists. So the nearest candidate other than `id` is always chosen,
    /// if any neighbour may be.
    fn select_neighbours(&self, candidates: &Vec<Neighbour>, id: usize, layer: usize, limit: usize) -> (chosen:
        Vec<usize>)
        requires
            self.wf(),
            forall|k: int|
                0 <= k < candidates@.len() ==> (#[trigger] candidates@[k]).d_id < self.levels@.len()
                    && layer <= self.levels@[candidates@[k].d_id as int],
        ensures
            chosen@.len() <= limit,
            forall|k: int|
                0 <= k < chosen@.len() ==> valid_edge(
                    self.levels@,
                    id as int,
                    layer as int,
                    #[trigger] chosen@[k],
                ),
            exists|at: Seq<int>| #[trigger] picked_from(candidates@, id, chosen@, at),
            forall|c: int|
                limit >= 1 && #[trigger] first_other(candidates@, id, c) ==> chosen@.len() >= 1
                    && chosen@[0] == candidates@[c].d_id,
            is_function(&self.metric()) ==> chosen@ == self.selected(
                candidates@,
                id,
                limit as nat,
                candidates@.len(),
            ),
    {
        let ghost pure = is_function(&self.dist);
        let ghost mut at: Seq<int> = Seq::empty();
        let mut chosen: Vec<usize> = Vec::new();
        let mut c: usize = 0;
        while c < candidates.len() && chosen.len() < limit
            invariant
                self.wf(),
                c <= candidates@.len(),
                chosen@.len() <= limit,
                forall|k: int|
                    0 <= k < candidates@.len() ==> (#[trigger] candidates@[k]).d_id
                        < self.levels@.len() && layer <= self.levels@[candidates@[k].d_id as int],
                forall|k: int|
                    0 <= k < chosen@.len() ==> valid_edge(
                        self.levels@,
                        id as int,
                        layer as int,
                        #[trigger] chosen@[k],
                    ),
                picked_from(candidates@, id, chosen@, at),
                forall|k: int| 0 <= k < at.len() ==> (#[trigger] at[k]) < c,
                forall|b: int|
                    0 <= b < c && limit >= 1 && #[trigger] first_other(candidates@, id, b)
                        ==> chosen@.len() >= 1 && chosen@[0] == candidates@[b].d_id,
                pure == is_function(&self.dist),
                pure ==> chosen@ == self.selected(candidates@, id, limit as nat, c as nat),
            decreases candidates@.len() - c,
        {
            let candidate = candidates[c];
            let ghost before = chosen@;
            proof {
                if first_other(candidates@, id, c as int) && before.len() > 0 {
                    // a neighbour chosen before would be an earlier candidate other than `id`
                    assert(candidates@[at[0]].d_id == before[0]);
                }
            }
            if candidate.d_id != id {
                let mut apart = true;
                let mut s: usize = 0;
                while s < chosen.len() && apart
                    invariant
                        self.wf(),
                        s <= chosen@.len(),
                        chosen@ == before,
                        before.len() == 0 ==> apart,
                        candidate.d_id < self.levels@.len(),
                        forall|k: int|
                            0 <= k < chosen@.len() ==> valid_edge(
                                self.levels@,
                                id as int,
                                layer as int,
                                #[trigger] chosen@[k],
                            ),
                        pure == is_function(&self.dist),
                        pure ==> self.keeps_apart(candidate, before, 0) == (apart
                            && self.keeps_apart(candidate, before, s as nat)),
                    decreases chosen@.len() - s,
                {
                    let other = chosen[s];
                    let between = self.dist.eval(
                        self.points[candidate.d_id].as_slice(),
                        self.points[other].as_slice(),
                    );
                    proof {
                        if pure {
                            lemma_key_of(
                                &self.dist,
                                self.points@[candidate.d_id as int]@,
                                self.points@[other as int]@,
                                between,
                            );
                        }
                    }
                    if between < candidate.distance {
                        apart = false;
                    }
                    s += 1;
                }
                if apart {
                    chosen.push(candidate.d_id);
                    proof {
                        at = at.push(c as int);
                    }
                }
            }
            c += 1;
        }
        proof {
            if pure {
                self.lemma_selected_full(
                    candidates@,
                    id,
                    limit as nat,
                    c as nat,
                    candidates@.len(),
                );
            }
            assert forall|b: int|
                limit >= 1 && #[trigger] first_other(candidates@, id, b) implies chosen@.len() >= 1
                && chosen@[0] == candidates@[b].d_id by {
                if b >= c {
                    // the choice is full: its first neighbour is an earlier candidate
                    assert(candidates@[at[0]].d_id == chosen@[0]);
                }
            }
        }
        chosen
    }

    /// Makes `id` a neighbour of `from` on `layer`. Where the list of `from` has room,
    /// `id` is added at its end. Where it is full, `id` takes the place of the neighbour
    /// farthest from `from`, the last one of several, if it is nearer than that one, and
    /// else the list stays as it is. Nothing else changes.
    fn link_back(&mut self, from: usize, layer: usize, id: usize)
        requires
            old(self).wf(),
            from < old(self).levels@.len(),
            layer <= old(self).levels@[from as int],
            valid_edge(old(self).levels@, from as int, layer as int, id),
        ensures
            final(self).wf(),
            final(self).points == old(self).points,
            final(self).levels == old(self).levels,
            final(self).entry == old(self).entry,
            final(self).dist == old(self).dist,
            final(self).max_nb_connection == old(self).max_nb_connection,
            final(self).max_layer == old(self).max_layer,
            final(self).ef_construction == old(self).ef_construction,
            forall|a: int, b: int|
                0 <= a < old(self).levels@.len() && 0 <= b <= old(self).levels@[a] && (a != from
                    || b != layer) ==> (#[trigger] final(self).links@[a]@[b])@
                    == old(self).links@[a]@[b]@,
            ({
                let was = old(self).links@[from as int]@[layer as int]@;
                let now = final(self).links@[from as int]@[layer as int]@;
                ||| now == was
                ||| now == was.push(id)
                ||| exists|w: int| 0 <= w < was.len() && now == was.update(w, id)
            }),
            ({
                let was = old(self).neighbours(from as int, layer as int);
                let now = final(self).neighbours(from as int, layer as int);
                if was.len() < layer_cap(old(self).max_connections(), layer as int) {
                    now == was.push(id)
                } else {
                    exists|reach: u64, fars: Seq<u64>| #[trigger]
                        old(self).weighs(from as int, was, id, reach, fars) && now == relinked(
                            was,
                            id,
                            reach,
                            fars,
                        )
                }
            }),
    {
        let cap = self.cap(layer);
        let count = self.links[from][layer].len();
        if count < cap {
            self.links[from][layer].push(id);
        } else {
            let reach = self.dist.eval(self.points[from].as_slice(), self.points[id].as_slice());
            let ghost was = self.links@[from as int]@[layer as int]@;
            let ghost mut fars: Seq<u64> = Seq::empty();
            let mut worst: usize = 0;
            let mut worst_reach: u64 = 0;
            let mut k: usize = 0;
            while k < count
                invariant
                    self.wf(),
                    *self == *old(self),
                    from < self.levels@.len(),
                    layer <= self.levels@[from as int],
                    was == self.links@[from as int]@[layer as int]@,
                    count == was.len(),
                    count >= 1,
                    k <= count,
                    worst < count,
                    fars.len() == k,
                    forall|j: int|
                        0 <= j < k ==> self.dist.reports(
                            self.points@[from as int]@,
                            self.points@[was[j] as int]@,
                            #[trigger] fars[j],
                        ),
                    worst == farthest(fars, k as nat),
                    worst_reach == peak(fars, k as nat),
                decreases count - k,
            {
                let other = self.links[from][layer][k];
                let far = self.dist.eval(
                    self.points[from].as_slice(),
                    self.points[other].as_slice(),
                );
                proof {
                    lemma_peak_prefix(fars, fars.push(far), k as nat);
                    fars = fars.push(far);
                }
                if far >= worst_reach {
                    worst = k;
                    worst_reach = far;
                }
                k += 1;
            }
            proof {
                lemma_peak_prefix(fars, fars, count as nat);
                assert(self.weighs(from as int, was, id, reach, fars)) by {
                    assert forall|j: int| 0 <= j < was.len() implies self.metric().reports(
                        self.points()[from as int],
                        self.points()[was[j] as int],
                        #[trigger] fars[j],
                    ) by {
                        assert(valid_edge(self.levels@, from as int, layer as int, was[j]));
                    }
                }
            }
            if reach < worst_reach {
                self.links[from][layer][worst] = id;
            }
            assert(self.links@[from as int]@[layer as int]@ == relinked(was, id, reach, fars));
        }
    }

    /// An index that has grown by edges to `id` alone still has, after one list of it
    /// got `id` as one more entry or in place of an entry.
    proof fn lemma_extends_on(&self, mid: Self, before: Self, id: usize, from: int, layer: int)
        requires
            mid.extends(before, id),
            before.points@.len() <= mid.links@.len() == self.links@.len(),
            before.points@.len() == before.levels@.len(),
            forall|a: int, b: int|
                0 <= a < before.levels@.len() && 0 <= b <= before.levels@[a] && (a != from || b
                    != layer) ==> (#[trigger] self.links@[a]@[b])@ == mid.links@[a]@[b]@,
            from < before.levels@.len() && 0 <= layer <= before.levels@[from] ==> ({
                let was = mid.links@[from]@[layer]@;
                let now = self.links@[from]@[layer]@;
                ||| now == was
                ||| now == was.push(id)
                ||| exists|w: int| 0 <= w < was.len() && now == was.update(w, id)
            }),
        ensures
            self.extends(before, id),
    {
        assert forall|a: int, b: int|
            0 <= a < before.points().len() && 0 <= b <= before.levels()[a] implies {
            &&& (#[trigger] self.neighbours(a, b)).len() >= before.neighbours(a, b).len()
            &&& forall|k: int|
                0 <= k < self.neighbours(a, b).len() ==> self.neighbours(a, b)[k] == id
                    || before.neighbours(a, b).contains(#[trigger] self.neighbours(a, b)[k])
        } by {
            let was = mid.neighbours(a, b);
            let now = self.neighbours(a, b);
            assert(was.len() >= before.neighbours(a, b).len());
            assert forall|k: int| 0 <= k < now.len() implies now[k] == id || before.neighbours(
                a,
                b,
            ).contains(#[trigger] now[k]) by {
                if now[k] != id {
                    // the entry stood in the list before this step, at `k` or wherever
                    assert(k < was.len() && was[k] == now[k]);
                    assert(before.neighbours(a, b).contains(was[k]));
                }
            }
        }
    }

    /// Adds a point to the index and returns its id. `level_draw` is a random word
    /// that decides the level of the point (see [`level_from_draw`]). A point of
    /// another length than the points of the index is refused, and the index stays
    /// as it was.
    ///
    /// The walk starts at the entry point and comes down greedily to the level of the
    /// new point. On that layer and on each one below, a walk of width
    /// `ef_construction` gathers candidates, of which at most `max_nb_connection`
    /// become the neighbours of the new point; each of them takes the new point as
    /// neighbour in turn, in place of its farthest neighbour where its list is full
    /// and the new point is nearer. A point whose level is higher than that of every
    /// other point becomes the entry point. The points and the levels of the index
    /// stay as they are, and no list loses an entry except to the new point. On each
    /// layer that the new point shares with the index it gets a neighbour, and each
    /// of its neighbours holds it in turn unless its list was full of points no farther.
    pub fn insert(&mut self, point: Vec<T>, level_draw: u64) -> (r: Result<usize, HnswError>)
        requires
            old(self).wf(),
        ensures
            final(self).wf(),
            final(self).max_connections() == old(self).max_connections(),
            final(self).top_layer() == old(self).top_layer(),
            final(self).construction_width() == old(self).construction_width(),
            final(self).metric() == old(self).metric(),
            !old(self).fits(point@.len()) ==> r == Err::<usize, HnswError>(
                HnswError::DimensionMismatch,
            ) && *final(self) == *old(self),
            old(self).fits(point@.len()) ==> r == Ok::<usize, HnswError>(
                old(self).points().len() as usize,
            ) && final(self).points() == old(self).points().push(point@) && final(self).levels()
                == old(self).levels().push(
                heads(level_draw as nat, old(self).top_layer() as nat) as usize,
            ) && final(self).extends(*old(self), old(self).points().len() as usize),
            old(self).fits(point@.len()) && old(self).points().len() > 0 ==> forall|layer: int|
                0 <= layer <= final(self).levels()[old(self).points().len() as int] && layer <= old(
                    self,
                ).levels()[old(self).entry_point()->Some_0 as int] ==> #[trigger] final(self).settled(
                    *old(self),
                    old(self).points().len() as usize,
                    layer,
                ) && (is_function(&final(self).metric()) ==> final(self).picked_on(
                    *old(self),
                    old(self).points().len() as usize,
                    layer,
                )),
    {
        let n = self.points.len();
        if n > 0 && self.points[0].len() != point.len() {
            return Err(HnswError::DimensionMismatch);
        }
        let level = level_from_draw(level_draw, self.max_layer);
        let query = copy_vec(&point);
        let mut lists: Vec<Vec<usize>> = Vec::new();
        let mut l: usize = 0;
        while l <= level
            invariant
                l <= level + 1,
                level <= NB_LAYER_MAX,
                lists@.len() == l,
                forall|b: int| 0 <= b < l ==> (#[trigger] lists@[b])@.len() == 0,
            decreases level + 1 - l,
        {
            lists.push(Vec::new());
            l += 1;
        }
        let old_entry = self.entry;
        self.points.push(point);
        self.levels.push(level);
        self.links.push(lists);
        if n == 0 {
            self.entry = 0;
        } else if level > self.levels[old_entry] {
            self.entry = n;
        }
        if n == 0 {
            return Ok(n);
        }
        let ghost grown = *self;
        let d0 = self.dist.eval(self.points[old_entry].as_slice(), query.as_slice());
        let mut ep = Neighbour { d_id: old_entry, distance: d0 };
        let mut layer = self.levels[old_entry];
        assert(self.extends(*old(self), n));
        let ghost top = layer;
        while layer > level
            invariant
                self.wf(),
                *self == grown,
                self.fits(query@.len()),
                self.is_hit(query@, layer as int, ep),
                ep.d_id != n,
                layer <= top,
                layer >= level || layer == top,
            decreases layer,
        {
            let found = self.search_layer(query.as_slice(), ep, 1, layer);
            let nearest = found[0];
            if nearest.d_id != n {
                ep = nearest;
            }
            layer -= 1;
        }
        let ghost first = layer as int;
        let ghost mut next: int = layer as int;
        assert(first == (if level <= top { level } else { top }));
        assert(top == old(self).levels@[old(self).entry as int]);
        loop
            invariant_except_break
                next == layer,
            invariant
                self.wf(),
                self.points == grown.points,
                self.levels == grown.levels,
                self.entry == grown.entry,
                self.dist == grown.dist,
                self.max_nb_connection == grown.max_nb_connection,
                self.max_layer == grown.max_layer,
                self.ef_construction == grown.ef_construction,
                n + 1 == self.levels@.len(),
                level == self.levels@[n as int],
                layer <= level,
                self.fits(query@.len()),
                self.is_hit(query@, layer as int, ep),
                ep.d_id != n,
                n == old(self).points@.len(),
                old(self).wf(),
                self.levels@ == old(self).levels@.push(level),
                self.extends(*old(self), n),
                -1 <= next <= first <= level,
                self.max_nb_connection == old(self).max_nb_connection,
                self.untouched(*old(self), n, next),
                forall|b: int| next < b <= first ==> #[trigger] self.settled(*old(self), n, b),
                query@ == self.points@[n as int]@,
                is_function(&self.dist) ==> forall|b: int|
                    next < b <= first ==> #[trigger] self.picked_on(*old(self), n, b),
            ensures
                next == -1,
            decreases layer,
        {
            let ghost stage = *self;
            let ghost start = ep;
            let found = self.search_layer(query.as_slice(), ep, self.ef_construction, layer);
            proof {
                // the new point is nobody's neighbour on this layer yet: the walk misses it
                assert(!self.is_linked(layer as int, n)) by {
                    assert forall|a: int, j: int|
                        0 <= a < self.points().len() && layer <= self.levels()[a] && 0 <= j
                            < self.neighbours(a, layer as int).len() implies #[trigger] self.neighbours(
                            a,
                            layer as int,
                        )[j] != n by {
                        if a < n {
                            assert(self.links@[a]@[layer as int]@ == old(self).links@[a]@[layer as int]@);
                            assert(valid_list(
                                old(self).levels@,
                                old(self).max_nb_connection,
                                a,
                                layer as int,
                                old(self).links@[a]@[layer as int]@,
                            ));
                        }
                    }
                }
                assert(found@[0].d_id != n);
                assert(first_other(found@, n, 0));
            }
            let chosen = self.select_neighbours(&found, n, layer, self.max_nb_connection);
            proof {
                // no point is chosen twice: no point is found twice
                let at = choose|at: Seq<int>| #[trigger] picked_from(found@, n, chosen@, at);
                assert forall|c: int, d: int| 0 <= c < d < chosen@.len() implies chosen@[c]
                    != chosen@[d] by {
                    assert(at[c] < at[d]);
                    assert(found@[at[c]].d_id != found@[at[d]].d_id);
                }
            }
            proof {
                if is_function(&self.dist) {
                    assert(stage.points()[n as int] == query@);
                    assert(stage.leads_to(*old(self), n, layer as int, start, chosen@));
                }
            }
            let mut own: Vec<usize> = Vec::new();
            let mut k: usize = 0;
            while k < chosen.len()
                invariant
                    self.wf(),
                    self.points == grown.points,
                    self.levels == grown.levels,
                    self.entry == grown.entry,
                    self.dist == grown.dist,
                    self.max_nb_connection == grown.max_nb_connection,
                    self.max_layer == grown.max_layer,
                    self.ef_construction == grown.ef_construction,
                    n + 1 == self.levels@.len(),
                    level == self.levels@[n as int],
                    layer <= level,
                    n == old(self).points@.len(),
                    old(self).wf(),
                    self.levels@ == old(self).levels@.push(level),
                    self.extends(*old(self), n),
                    k <= chosen@.len(),
                    own@ == chosen@.subrange(0, k as int),
                    1 <= chosen@.len() <= self.max_nb_connection,
                    forall|c: int|
                        0 <= c < chosen@.len() ==> valid_edge(
                            self.levels@,
                            n as int,
                            layer as int,
                            #[trigger] chosen@[c],
                        ),
                    forall|c: int, d: int| 0 <= c < d < chosen@.len() ==> chosen@[c] != chosen@[d],
                    next == layer,
                    next <= first <= level,
                    self.max_nb_connection == old(self).max_nb_connection,
                    self.untouched(*old(self), n, next - 1),
                    self.links@[n as int]@[layer as int]@.len() == 0,
                    forall|c: int|
                        k <= c < chosen@.len() ==> self.links@[(#[trigger] chosen@[c]) as int]@[layer as int]@
                            == old(self).links@[chosen@[c] as int]@[layer as int]@,
                    forall|c: int|
                        0 <= c < k ==> self.holds_or_left(
                            *old(self),
                            (#[trigger] chosen@[c]) as int,
                            layer as int,
                            n,
                        ),
                    forall|b: int| next < b <= first ==> #[trigger] self.settled(*old(self), n, b),
                    stage.points == grown.points,
                    stage.dist == grown.dist,
                    stage.max_nb_connection == grown.max_nb_connection,
                    stage.ef_construction == grown.ef_construction,
                    is_function(&self.dist) ==> stage.leads_to(
                        *old(self),
                        n,
                        layer as int,
                        start,
                        chosen@,
                    ),
                    is_function(&self.dist) ==> forall|b: int|
                        next < b <= first ==> #[trigger] self.picked_on(*old(self), n, b),
                decreases chosen@.len() - k,
            {
                let other = chosen[k];
                let ghost mid = *self;
                assert(valid_edge(self.levels@, n as int, layer as int, other));
                self.link_back(other, layer, n);
                proof {
                    self.lemma_extends_on(mid, *old(self), n, other as int, layer as int);
                    assert(self.holds_or_left(*old(self), other as int, layer as int, n)) by {
                        let was = mid.neighbours(other as int, layer as int);
                        assert(was == old(self).neighbours(other as int, layer as int));
                        let now = self.neighbours(other as int, layer as int);
                        if was.len() < layer_cap(mid.max_connections(), layer as int) {
                            assert(now[was.len() as int] == n);
                        } else {
                            let (reach, fars) = choose|reach: u64, fars: Seq<u64>| #[trigger]
                                mid.weighs(other as int, was, n, reach, fars) && now == relinked(
                                    was,
                                    n,
                                    reach,
                                    fars,
                                );
                            lemma_peak_prefix(fars, fars, fars.len());
                            if reach < peak(fars, fars.len()) {
                                assert(now[farthest(fars, fars.len())] == n);
                            } else {
                                assert(self.weighs(other as int, was, n, reach, fars));
                            }
                        }
                    }
                    assert forall|c: int| 0 <= c < k implies self.holds_or_left(
                        *old(self),
                        (#[trigger] chosen@[c]) as int,
                        layer as int,
                        n,
                    ) by {
                        self.lemma_holds_kept(mid, *old(self), chosen@[c] as int, layer as int, n);
                    }
                    assert forall|b: int| next < b <= first implies #[trigger] self.settled(
                        *old(self),
                        n,
                        b,
                    ) by {
                        assert(mid.settled(*old(self), n, b));
                        assert forall|j: int|
                            0 <= j < mid.links@[n as int]@[b]@.len() implies self.links@[(
                        #[trigger] mid.links@[n as int]@[b]@[j]) as int]@[b]@
                            == mid.links@[mid.links@[n as int]@[b]@[j] as int]@[b]@ by {
                            assert(valid_list(
                                mid.levels@,
                                mid.max_nb_connection,
                                n as int,
                                b,
                                mid.links@[n as int]@[b]@,
                            ));
                        }
                        self.lemma_settled_kept(mid, *old(self), n, b);
                    }
                    if is_function(&self.dist) {
                        assert forall|b: int| next < b <= first implies #[trigger] self.picked_on(
                            *old(self),
                            n,
                            b,
                        ) by {
                            assert(mid.picked_on(*old(self), n, b));
                            self.lemma_picked_kept(mid, *old(self), n, b);
                        }
                    }
                }
                own.push(other);
                k += 1;
            }
            let ghost mid = *self;
            self.links[n][layer] = own;
            proof {
                self.lemma_extends_on(mid, *old(self), n, n as int, layer as int);
                assert forall|b: int| next <= b <= first implies #[trigger] self.settled(
                    *old(self),
                    n,
                    b,
                ) by {
                    if b == next {
                        let list = self.neighbours(n as int, b);
                        assert(list == chosen@);
                        assert forall|j: int| 0 <= j < list.len() implies self.holds_or_left(
                            *old(self),
                            (#[trigger] list[j]) as int,
                            b,
                            n,
                        ) by {
                            assert(mid.holds_or_left(*old(self), chosen@[j] as int, b, n));
                            assert(valid_edge(self.levels@, n as int, b, chosen@[j]));
                            self.lemma_holds_kept(mid, *old(self), list[j] as int, b, n);
                        }
                    } else {
                        assert(mid.settled(*old(self), n, b));
                        assert forall|j: int|
                            0 <= j < mid.links@[n as int]@[b]@.len() implies self.links@[(
                        #[trigger] mid.links@[n as int]@[b]@[j]) as int]@[b]@
                            == mid.links@[mid.links@[n as int]@[b]@[j] as int]@[b]@ by {
                            assert(valid_list(
                                mid.levels@,
                                mid.max_nb_connection,
                                n as int,
                                b,
                                mid.links@[n as int]@[b]@,
                            ));
                        }
                        self.lemma_settled_kept(mid, *old(self), n, b);
                    }
                }
                if is_function(&self.dist) {
                    assert forall|b: int| next <= b <= first implies #[trigger] self.picked_on(
                        *old(self),
                        n,
                        b,
                    ) by {
                        if b == next {
                            assert(self.neighbours(n as int, b) == chosen@);
                            assert(stage.leads_to(
                                *old(self),
                                n,
                                b,
                                start,
                                self.neighbours(n as int, b),
                            ));
                        } else {
                            assert(mid.picked_on(*old(self), n, b));
                            self.lemma_picked_kept(mid, *old(self), n, b);
                        }
                    }
                }
                next = layer - 1;
            }
            let mut f: usize = 0;
            while f < found.len() && found[f].d_id == n
                invariant
                    f <= found@.len(),
                decreases found@.len() - f,
            {
                f += 1;
            }
            if f < found.len() {
                ep = found[f];
            }
            if layer == 0 {
                break ;
            }
            layer -= 1;
        }
        Ok(n)
    }

    /// The `knbn` points nearest to the query that a walk through the graph finds,
    /// nearest first, with `ef` (or `knbn`, if that is more) as the width of the
    /// result list on layer 0. Where `knbn` is no less than the number of points, every
    /// point is scored and all of them are returned. An empty index gives an empty
    /// answer. A zero `knbn`, and a query of another length than the points, are
    /// refused.
    pub fn search(&self, query: &[T], knbn: usize, ef: usize) -> (r: Result<Vec<Neighbour>, HnswError>)
        requires
            self.wf(),
        ensures
            knbn == 0 ==> r == Err::<Vec<Neighbour>, HnswError>(HnswError::InvalidParameter),
            knbn > 0 && !self.fits(query@.len()) ==> r == Err::<Vec<Neighbour>, HnswError>(
                HnswError::DimensionMismatch,
            ),
            knbn > 0 && self.fits(query@.len()) ==> r is Ok && {
                let found = r->Ok_0@;
                &&& found.len() <= knbn
                &&& sorted_hits(found)
                &&& self.are_hits(query@, 0, found)
                &&& self.points().len() > 0 ==> found.len() >= 1 && self.reaches(query@, found[0])
                &&& knbn >= self.points().len() ==> self.is_exact(query@, found)
                &&& is_function(&self.metric()) ==> found == self.search_result(
                    query@,
                    knbn as nat,
                    ef as nat,
                )
            },
    {
        if knbn == 0 {
            return Err(HnswError::InvalidParameter);
        }
        let n = self.points.len();
        if n > 0 && self.points[0].len() != query.len() {
            return Err(HnswError::DimensionMismatch);
        }
        if knbn >= n {
            return Ok(self.scan(query));
        }
        let ghost pure = is_function(&self.dist);
        let entry = self.entry;
        let d0 = self.dist.eval(self.points[entry].as_slice(), query);
        let top = Neighbour { d_id: entry, distance: d0 };
        proof {
            if pure {
                lemma_key_of(&self.dist, self.points@[entry as int]@, query@, d0);
            }
        }
        let mut ep = top;
        let mut layer = self.levels[entry];
        let ghost start = self.descent(query@, top, layer as nat);
        while layer > 0
            invariant
                self.wf(),
                self.fits(query@.len()),
                self.is_hit(query@, layer as int, ep),
                ep == top || hit_before(ep, top),
                pure == is_function(&self.dist),
                pure ==> start == self.descent(query@, ep, layer as nat),
            decreases layer,
        {
            let found = self.search_layer(query, ep, 1, layer);
            ep = found[0];
            layer -= 1;
        }
        let width = if ef >= knbn {
            ef
        } else {
            knbn
        };
        let mut found = self.search_layer(query, ep, width, 0);
        if found.len() > knbn {
            found.truncate(knbn);
        }
        assert(self.reaches(query@, found@[0])) by {
            assert(self.is_hit(query@, 0, top));
            assert(found@[0] == top || hit_before(found@[0], top));
        }
        Ok(found)
    }

    /// `hit` is no farther from the query than the entry point is: a search never ends
    /// farther than where it started.
    pub open spec fn reaches(&self, query: Seq<T>, hit: Neighbour) -> bool {
        exists|entry: Neighbour|
            {
                &&& self.entry_point() == Some(entry.d_id)
                &&& #[trigger] self.is_hit(query, 0, entry)
                &&& hit == entry || hit_before(hit, entry)
            }
    }

    /// `keys` holds, for each point by id, a key that the metric reports for the point
    /// and the query.
    pub open spec fn are_keys(&self, query: Seq<T>, keys: Seq<u64>) -> bool {
        &&& keys.len() == self.points().len()
        &&& forall|id: int|
            0 <= id < keys.len() ==> self.metric().reports(
                self.points()[id],
                query,
                #[trigger] keys[id],
            )
    }

    /// `found` is the exact answer: every point of the index, nearest first by the keys
    /// that the metric reported for them, and among equal keys oldest first.
    pub open spec fn is_exact(&self, query: Seq<T>, found: Seq<Neighbour>) -> bool {
        &&& found.len() == self.points().len()
        &&& exists|keys: Seq<u64>|
            {
                &&& self.are_keys(query, keys)
                &&& #[trigger] is_ranking(keys, hit_ids(found))
                &&& forall|k: int|
                    0 <= k < found.len() ==> (#[trigger] found[k]).distance
                        == keys[found[k].d_id as int]
            }
    }

    /// Scores every point against the query.
    fn scan(&self, query: &[T]) -> (found: Vec<Neighbour>)
        requires
            self.wf(),
            self.fits(query@.len()),
        ensures
            self.is_exact(query@, found@),
            sorted_hits(found@),
            self.are_hits(query@, 0, found@),
            is_function(&self.metric()) ==> found@ == self.exact_hits(query@),
            self.points().len() > 0 ==> self.reaches(query@, found@[0]),
    {
        let n = self.points.len();
        let mut keys: Vec<u64> = Vec::new();
        let mut i: usize = 0;
        while i < n
            invariant
                self.wf(),
                self.fits(query@.len()),
                n == self.points@.len(),
                i <= n,
                keys@.len() == i,
                forall|c: int|
                    0 <= c < i ==> self.metric().reports(
                        self.points()[c],
                        query@,
                        #[trigger] keys@[c],
                    ),
            decreases n - i,
        {
            let key = self.dist.eval(self.points[i].as_slice(), query);
            keys.push(key);
            i += 1;
        }
        let order = rank(&keys, n);
        let mut found: Vec<Neighbour> = Vec::new();
        let mut k: usize = 0;
        while k < n
            invariant
                n == self.points@.len(),
                n == keys@.len(),
                n == order@.len(),
                is_ranking(keys@, order@),
                k <= n,
                found@.len() == k,
                forall|c: int|
                    0 <= c < k ==> (#[trigger] found@[c]) == (Neighbour {
                        d_id: order@[c],
                        distance: keys@[order@[c] as int],
                    }),
            decreases n - k,
        {
            let id = order[k];
            found.push(Neighbour { d_id: id, distance: keys[id] });
            k += 1;
        }
        assert(hit_ids(found@) =~= order@);
        proof {
            if n > 0 {
                // the entry point is found somewhere: first, or behind the first
                let entry = Neighbour { d_id: self.entry, distance: keys@[self.entry as int] };
                assert(self.is_hit(query@, 0, entry));
                if order@[0] != self.entry {
                    if order@.contains(self.entry) {
                        let at = choose|at: int| 0 <= at < order@.len() && order@[at] == self.entry;
                        assert(precedes(keys@, order@[0] as int, order@[at] as int));
                    } else {
                        assert(precedes(keys@, order@[0] as int, self.entry as int));
                    }
                }
                assert(found@[0] == entry || hit_before(found@[0], entry));
            }
            if is_function(&self.dist) {
                let all = Seq::new(self.points().len(), |id: int| self.key(id, query@));
                assert forall|id: int| 0 <= id < n implies keys@[id] == all[id] by {
                    lemma_key_of(&self.dist, self.points()[id], query@, keys@[id]);
                }
                assert(keys@ =~= all);
            }
        }
        found
    }

    /// Walks `layer` from `start` towards the query with a result list of width `ef`,
    /// and returns the points found, nearest first.
    fn search_layer(&self, query: &[T], start: Neighbour, ef: usize, layer: usize) -> (found: Vec<
        Neighbour,
    >)
        requires
            self.wf(),
            self.fits(query@.len()),
            ef >= 1,
            self.is_hit(query@, layer as int, start),
        ensures
            1 <= found@.len() <= ef,
            sorted_hits(found@),
            self.are_hits(query@, layer as int, found@),
            found@[0] == start || hit_before(found@[0], start),
            distinct_ids(found@),
            self.walked(layer as int, start.d_id, found@),
            is_function(&self.metric()) ==> found@ == self.layer_walk(
                query@,
                start,
                ef as nat,
                layer as int,
            ),
    {
        let n = self.points.len();
        let ghost pure = is_function(&self.dist);
        let ghost goal = self.layer_walk(query@, start, ef as nat, layer as int);
        let mut seen: Vec<bool> = Vec::new();
        let mut i: usize = 0;
        while i < n
            invariant
                i <= n,
                seen@.len() == i,
                forall|c: int| 0 <= c < i ==> !(#[trigger] seen@[c]),
            decreases n - i,
        {
            seen.push(false);
            i += 1;
        }
        seen.set(start.d_id, true);
        let mut candidates: Vec<Neighbour> = Vec::new();
        candidates.push(start);
        let mut found: Vec<Neighbour> = Vec::new();
        found.push(start);
        let ghost mut fuel: nat = (n + 1) as nat;
        proof {
            lemma_unvisited_bound(seen@);
            assert(seen@ =~= Seq::new(self.points().len(), |id: int| id == start.d_id));
        }
        while candidates.len() > 0
            invariant_except_break
                fuel >= unvisited(seen@) + candidates@.len(),
                pure ==> goal == self.walk_on(
                    query@,
                    layer as int,
                    ef as nat,
                    Walk { seen: seen@, candidates: candidates@, found: found@ },
                    fuel,
                ),
            invariant
                self.wf(),
                self.fits(query@.len()),
                n == self.points@.len(),
                ef >= 1,
                seen@.len() == n,
                1 <= found@.len() <= ef,
                sorted_hits(found@),
                self.are_hits(query@, layer as int, found@),
                self.are_hits(query@, layer as int, candidates@),
                forall|k: int| 0 <= k < found@.len() ==> seen@[(#[trigger] found@[k]).d_id as int],
                found@[0] == start || hit_before(found@[0], start),
                distinct_ids(found@),
                self.walked(layer as int, start.d_id, found@),
                self.walked(layer as int, start.d_id, candidates@),
                pure == is_function(&self.dist),
                goal == self.layer_walk(query@, start, ef as nat, layer as int),
            ensures
                pure ==> found@ == goal,
            decreases unvisited(seen@) + candidates@.len(),
        {
            let nearest = candidates.pop().unwrap();
            let worst = found[found.len() - 1];
            if nearest.distance > worst.distance {
                break ;
            }
            let ghost rest = Walk { seen: seen@, candidates: candidates@, found: found@ };
            let ghost budget = unvisited(seen@) + candidates@.len();
            let at = nearest.d_id;
            let ghost list = self.links@[at as int]@[layer as int]@;
            let count = self.links[at][layer].len();
            let mut k: usize = 0;
            while k < count
                invariant
                    self.wf(),
                    self.fits(query@.len()),
                    n == self.points@.len(),
                    ef >= 1,
                    seen@.len() == n,
                    1 <= found@.len() <= ef,
                    sorted_hits(found@),
                    self.are_hits(query@, layer as int, found@),
                    self.are_hits(query@, layer as int, candidates@),
                    forall|k: int|
                        0 <= k < found@.len() ==> seen@[(#[trigger] found@[k]).d_id as int],
                    found@[0] == start || hit_before(found@[0], start),
                    distinct_ids(found@),
                    self.walked(layer as int, start.d_id, found@),
                    self.walked(layer as int, start.d_id, candidates@),
                    at < n,
                    layer <= self.levels@[at as int],
                    list == self.links@[at as int]@[layer as int]@,
                    count == list.len(),
                    k <= count,
                    unvisited(seen@) + candidates@.len() <= budget,
                    pure == is_function(&self.dist),
                    pure ==> self.visit_all(query@, ef as nat, rest, list, 0) == self.visit_all(
                        query@,
                        ef as nat,
                        Walk { seen: seen@, candidates: candidates@, found: found@ },
                        list,
                        k as nat,
                    ),
                decreases count - k,
            {
                let ghost now = Walk { seen: seen@, candidates: candidates@, found: found@ };
                let e = self.links[at][layer][k];
                if !seen[e] {
                    proof {
                        lemma_visit(seen@, e as int);
                    }
                    seen.set(e, true);
                    let d = self.dist.eval(self.points[e].as_slice(), query);
                    let hit = Neighbour { d_id: e, distance: d };
                    proof {
                        if pure {
                            lemma_key_of(&self.dist, self.points@[e as int]@, query@, d);
                        }
                    }
                    let worst = found[found.len() - 1];
                    assert(self.is_linked(layer as int, e)) by {
                        assert(self.neighbours(at as int, layer as int)[k as int] == e);
                    }
                    if found.len() < ef || d < worst.distance {
                        insert_candidate(&mut candidates, hit);
                        let ghost first = found@[0];
                        let placed = insert_hit(&mut found, hit);
                        assert(found@[0] == first || hit_before(found@[0], first)) by {
                            if placed == 0 {
                                assert(found@[1] == first);
                            }
                        }
                        if found.len() > ef {
                            found.pop();
                        }
                    }
                }
                proof {
                    if pure {
                        let next = Walk { seen: seen@, candidates: candidates@, found: found@ };
                        let told = self.visit(query@, ef as nat, now, e);
                    }
                }
                k += 1;
            }
            proof {
                if pure {
                    let next = Walk { seen: seen@, candidates: candidates@, found: found@ };
                }
                fuel = (fuel - 1) as nat;
            }
        }
        found
    }
}

} // verus!
