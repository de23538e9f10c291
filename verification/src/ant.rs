use vstd::prelude::*;
use crate::food::{Food, FoodSite, food_at, food_id_at, lemma_first_site_at, first_site_at};
use crate::geometry::{Point, same_point, sq_dist, squared_distance};
use crate::random::random_in_range;

verus! {

/// How many ants are put on the board.
pub const ANT_COUNT: usize = 10;

/// Where an ant is heading.
#[derive(Clone, Copy, Debug, PartialEq, Eq, Structural)]
pub struct Ant {
    pub target: Point,
}

/// The points an ant has walked through in its current tour, in order.
pub struct Path {
    pub points: Vec<Point>,
}

/// Whether an ant has visited every food site in its current tour.
#[derive(Clone, Copy, Debug, PartialEq, Eq, Structural)]
pub struct FinishedPath {
    pub finished: bool,
}

/// The numbers of the food sites an ant has visited in its current tour.
pub struct PlacesTravelled {
    pub places: Vec<i32>,
}

/// Everything the simulation knows of one ant.
pub struct AntState {
    pub ant: Ant,
    pub pos: Point,
    pub path: Path,
    pub finished: FinishedPath,
    pub places: PlacesTravelled,
}

/// The invariant that every ant keeps: its path is not empty and ends where
/// the ant stands, and it has visited at least one food site.
pub open spec fn ant_wf(a: AntState) -> bool {
    &&& a.path.points.len() > 0
    &&& a.path.points@.last() == a.pos
    &&& a.places.places.len() > 0
}

/// Every number the ant remembers is the number of some food site.
pub open spec fn places_known(a: AntState, foods: Seq<FoodSite>) -> bool {
    forall|i: int| 0 <= i < a.places.places.len() ==> id_known(#[trigger] a.places.places[i], foods)
}

/// Some food site has number `id`.
pub open spec fn id_known(id: i32, foods: Seq<FoodSite>) -> bool {
    exists|j: int| 0 <= j < foods.len() && #[trigger] foods[j].id.id == id
}

/// An ant put on the food site at index `choice`: it stands there, heads
/// there, its path holds that point alone, it has visited that site alone and
/// its tour is not finished.
pub open spec fn spawned_at(a: AntState, foods: Seq<FoodSite>, choice: int) -> bool {
    &&& a.pos == foods[choice].pos
    &&& a.ant.target == foods[choice].pos
    &&& a.path.points@ == seq![foods[choice].pos]
    &&& a.places.places@ == seq![foods[choice].id.id]
    &&& !a.finished.finished
}

/// The ant stands as it was put on one of the food sites.
pub open spec fn spawned_on_some_site(a: AntState, foods: Seq<FoodSite>) -> bool {
    exists|j: int| 0 <= j < foods.len() && spawned_at(a, foods, j)
}

/// Puts an ant on the food site at index `choice`.
pub fn spawn_ant(foods: &Vec<FoodSite>, choice: usize) -> (a: AntState)
    requires
        choice < foods.len(),
    ensures
        spawned_at(a, foods@, choice as int),
        a.pos == foods@[choice as int].pos,
        a.ant.target == foods@[choice as int].pos,
        a.path.points@ == seq![foods@[choice as int].pos],
        a.places.places@ == seq![foods@[choice as int].id.id],
        !a.finished.finished,
        ant_wf(a),
        places_known(a, foods@),
{
    let site = foods[choice];
    let mut points: Vec<Point> = Vec::new();
    points.push(site.pos);
    let mut places: Vec<i32> = Vec::new();
    places.push(site.id.id);
    let a = AntState {
        ant: Ant { target: site.pos },
        pos: site.pos,
        path: Path { points },
        finished: FinishedPath { finished: false },
        places: PlacesTravelled { places },
    };
    assert(a.places.places[0] == foods@[choice as int].id.id);
    a
}

/// Puts `ANT_COUNT` ants on the board, each on a food site picked at random.
/// There must be at least one site to pick from.
pub fn spawn_ants(foods: &Vec<FoodSite>) -> (ants: Vec<AntState>)
    requires
        0 < foods.len() <= i64::MAX,
    ensures
        ants.len() == ANT_COUNT,
        forall|k: int| 0 <= k < ants.len() ==> spawned_on_some_site(#[trigger] ants[k], foods@),
        forall|k: int| 0 <= k < ants.len() ==> ant_wf(#[trigger] ants[k]),
        forall|k: int| 0 <= k < ants.len() ==> places_known(#[trigger] ants[k], foods@),
{
    let mut ants: Vec<AntState> = Vec::new();
    let mut i: usize = 0;
    while i < ANT_COUNT
        invariant
            0 < foods.len() <= i64::MAX,
            i <= ANT_COUNT,
            ants.len() == i,
            forall|k: int| 0 <= k < ants.len() ==> spawned_on_some_site(#[trigger] ants[k], foods@),
            forall|k: int| 0 <= k < ants.len() ==> ant_wf(#[trigger] ants[k]),
            forall|k: int| 0 <= k < ants.len() ==> places_known(#[trigger] ants[k], foods@),
        decreases ANT_COUNT - i,
    {
        let choice = random_in_range(0, foods.len() as i64) as usize;
        let a = spawn_ant(foods, choice);
        let ghost prev = ants@;
        ants.push(a);
        proof {
            assert forall|k: int| 0 <= k < ants.len() implies spawned_on_some_site(
                #[trigger] ants[k],
                foods@,
            ) by {
                if k < i {
                    assert(ants[k] == prev[k]);
                } else {
                    assert(spawned_at(ants[k], foods@, choice as int));
                }
            }
        }
        i = i + 1;
    }
    ants
}

/// Whether `id` is among `places`.
pub fn contains_id(places: &Vec<i32>, id: i32) -> (r: bool)
    ensures
        r == places@.contains(id),
{
    let n = places.len();
    let mut i: usize = 0;
    while i < n
        invariant
            n == places.len(),
            i <= n,
            forall|k: int| 0 <= k < i ==> places[k] != id,
        decreases n - i,
    {
        if places[i] == id {
            assert(places@[i as int] == id);
            return true;
        }
        i = i + 1;
    }
    false
}

/// The indices, in increasing order, of those of the first `n` food sites
/// whose number is not among `places`.
pub open spec fn unvisited_upto(foods: Seq<FoodSite>, places: Seq<i32>, n: int) -> Seq<usize>
    decreases n,
{
    if n <= 0 {
        Seq::empty()
    } else {
        let prev = unvisited_upto(foods, places, n - 1);
        if places.contains(foods[n - 1].id.id) {
            prev
        } else {
            prev.push((n - 1) as usize)
        }
    }
}

/// The indices, in increasing order, of the food sites not yet visited.
pub open spec fn unvisited(foods: Seq<FoodSite>, places: Seq<i32>) -> Seq<usize> {
    unvisited_upto(foods, places, foods.len() as int)
}

proof fn lemma_unvisited_upto(foods: Seq<FoodSite>, places: Seq<i32>, n: int)
    requires
        0 <= n <= foods.len() <= usize::MAX,
    ensures
        forall|k: int|
            0 <= k < unvisited_upto(foods, places, n).len() ==> {
                &&& #[trigger] unvisited_upto(foods, places, n)[k] < n
                &&& !places.contains(foods[unvisited_upto(foods, places, n)[k] as int].id.id)
            },
        forall|k: int, l: int|
            0 <= k < l < unvisited_upto(foods, places, n).len() ==> #[trigger] unvisited_upto(
                foods,
                places,
                n,
            )[k] < #[trigger] unvisited_upto(foods, places, n)[l],
        forall|j: int|
            0 <= j < n && !places.contains(#[trigger] foods[j].id.id) ==> unvisited_upto(
                foods,
                places,
                n,
            ).contains(j as usize),
    decreases n,
{
    if n > 0 {
        lemma_unvisited_upto(foods, places, n - 1);
        let prev = unvisited_upto(foods, places, n - 1);
        let cur = unvisited_upto(foods, places, n);
        assert forall|j: int|
            0 <= j < n && !places.contains(#[trigger] foods[j].id.id) implies cur.contains(
            j as usize) by {
            if j < n - 1 {
                let k = choose|k: int| 0 <= k < prev.len() && prev[k] == j as usize;
                assert(cur[k] == j as usize);
            } else {
                assert(cur[cur.len() - 1] == j as usize);
            }
        }
    }
}

/// The unvisited sites are listed exactly: each listed index is that of a
/// site whose number the ant does not remember, the list is strictly
/// increasing, and every such site is listed.
pub proof fn lemma_unvisited(foods: Seq<FoodSite>, places: Seq<i32>)
    requires
        foods.len() <= usize::MAX,
    ensures
        forall|k: int|
            0 <= k < unvisited(foods, places).len() ==> {
                &&& #[trigger] unvisited(foods, places)[k] < foods.len()
                &&& !places.contains(foods[unvisited(foods, places)[k] as int].id.id)
            },
        forall|k: int, l: int|
            0 <= k < l < unvisited(foods, places).len() ==> #[trigger] unvisited(foods, places)[k]
                < #[trigger] unvisited(foods, places)[l],
        forall|j: int|
            0 <= j < foods.len() && !places.contains(#[trigger] foods[j].id.id) ==> unvisited(
                foods,
                places,
            ).contains(j as usize),
{
    lemma_unvisited_upto(foods, places, foods.len() as int);
}

/// The indices, in increasing order, of the food sites whose number is not
/// among `places`.
pub fn unvisited_foods(foods: &Vec<FoodSite>, places: &Vec<i32>) -> (r: Vec<usize>)
    ensures
        r@ == unvisited(foods@, places@),
        forall|k: int|
            0 <= k < r.len() ==> #[trigger] r[k] < foods.len() && !places@.contains(
                foods@[r[k] as int].id.id,
            ),
        forall|k: int, l: int| 0 <= k < l < r.len() ==> #[trigger] r[k] < #[trigger] r[l],
        forall|j: int|
            0 <= j < foods.len() && !places@.contains(#[trigger] foods@[j].id.id) ==> r@.contains(
                j as usize,
            ),
{
    let n = foods.len();
    let mut r: Vec<usize> = Vec::new();
    let mut i: usize = 0;
    while i < n
        invariant
            n == foods.len(),
            i <= n,
            r@ == unvisited_upto(foods@, places@, i as int),
        decreases n - i,
    {
        if !contains_id(places, foods[i].id.id) {
            r.push(i);
        }
        i = i + 1;
    }
    proof {
        lemma_unvisited(foods@, places@);
    }
    r
}

/// The squared distances from `pos` to the candidate sites, in the order of
/// `cands`.
pub open spec fn cand_dists(pos: Point, foods: Seq<FoodSite>, cands: Seq<usize>) -> Seq<int> {
    Seq::new(cands.len(), |k: int| sq_dist(pos, foods[cands[k] as int].pos))
}

/// Each candidate's distance is measured from the ant's own position: the
/// `k`-th entry is the squared distance from `pos` to the `k`-th candidate.
pub proof fn lemma_cand_dists(pos: Point, foods: Seq<FoodSite>, cands: Seq<usize>)
    ensures
        cand_dists(pos, foods, cands).len() == cands.len(),
        forall|k: int|
            0 <= k < cands.len() ==> #[trigger] cand_dists(pos, foods, cands)[k] == (pos.x
                - foods[cands[k] as int].pos.x) * (pos.x - foods[cands[k] as int].pos.x) + (pos.y
                - foods[cands[k] as int].pos.y) * (pos.y - foods[cands[k] as int].pos.y),
{
}

/// A candidate strictly nearer to the ant than another gets a strictly
/// larger weight, and the difference of two weights is the difference of
/// the squared distances from the ant, the other way round.
pub proof fn lemma_nearer_weighs_more(pos: Point, foods: Seq<FoodSite>, cands: Seq<usize>, k: int, l: int)
    requires
        0 <= k < cands.len(),
        0 <= l < cands.len(),
    ensures
        flip_weights(cand_dists(pos, foods, cands))[k] - flip_weights(cand_dists(pos, foods, cands))[l]
            == (((pos).x - (foods[cands[l] as int].pos).x) * ((pos).x - (foods[cands[l] as int].pos).x) + ((pos).y - (foods[cands[l] as int].pos).y) * ((pos).y - (foods[cands[l] as int].pos).y)) - (((pos).x - (foods[cands[k] as int].pos).x) * ((pos).x - (foods[cands[k] as int].pos).x) + ((pos).y - (foods[cands[k] as int].pos).y) * ((pos).y - (foods[cands[k] as int].pos).y)),
        ((pos).x - (foods[cands[k] as int].pos).x) * ((pos).x - (foods[cands[k] as int].pos).x) + ((pos).y - (foods[cands[k] as int].pos).y) * ((pos).y - (foods[cands[k] as int].pos).y) < ((pos).x - (foods[cands[l] as int].pos).x) * ((pos).x - (foods[cands[l] as int].pos).x) + ((pos).y - (foods[cands[l] as int].pos).y) * ((pos).y - (foods[cands[l] as int].pos).y)
            ==> flip_weights(cand_dists(pos, foods, cands))[k] > flip_weights(
            cand_dists(pos, foods, cands),
        )[l],
{
    lemma_cand_dists(pos, foods, cands);
}

/// The largest element of a non-empty sequence.
pub open spec fn seq_max(s: Seq<int>) -> int
    decreases s.len(),
{
    if s.len() <= 1 {
        s[0]
    } else {
        let m = seq_max(s.drop_last());
        if s.last() > m {
            s.last()
        } else {
            m
        }
    }
}

/// Distances turned into weights: each weight is how much nearer than the
/// farthest candidate a candidate is.
pub open spec fn flip_weights(d: Seq<int>) -> Seq<int> {
    Seq::new(d.len(), |k: int| seq_max(d) - d[k])
}

/// `seq_max` is an upper bound of the sequence and is one of its elements.
pub proof fn lemma_seq_max(s: Seq<int>)
    requires
        s.len() > 0,
    ensures
        forall|i: int| 0 <= i < s.len() ==> #[trigger] s[i] <= seq_max(s),
        exists|i: int| 0 <= i < s.len() && seq_max(s) == #[trigger] s[i],
    decreases s.len(),
{
    if s.len() > 1 {
        let t = s.drop_last();
        lemma_seq_max(t);
        assert forall|i: int| 0 <= i < s.len() implies #[trigger] s[i] <= seq_max(s) by {
            if i < s.len() - 1 {
                assert(s[i] == t[i]);
            }
        }
        if s.last() > seq_max(t) {
            assert(seq_max(s) == s[s.len() - 1]);
        } else {
            let k = choose|k: int| 0 <= k < t.len() && seq_max(t) == #[trigger] t[k];
            assert(seq_max(s) == s[k]);
        }
    } else {
        assert(seq_max(s) == s[0]);
    }
}

/// The weights by which the next site is drawn favour near sites: no weight
/// is negative, the farthest candidate weighs nothing, and a candidate at
/// least as near as another weighs at least as much.
pub proof fn lemma_flip_weights(d: Seq<int>)
    requires
        d.len() > 0,
    ensures
        forall|i: int| 0 <= i < d.len() ==> #[trigger] flip_weights(d)[i] >= 0,
        exists|i: int| 0 <= i < d.len() && #[trigger] flip_weights(d)[i] == 0,
        forall|i: int, j: int|
            0 <= i < d.len() && 0 <= j < d.len() && d[i] <= d[j] ==> #[trigger] flip_weights(d)[j]
                <= #[trigger] flip_weights(d)[i],
{
    lemma_seq_max(d);
    let k = choose|k: int| 0 <= k < d.len() && seq_max(d) == #[trigger] d[k];
    assert(flip_weights(d)[k] == 0);
}

/// The weights of the candidate sites `cands` for an ant standing at `pos`:
/// the squared distance to the farthest candidate minus the squared distance
/// to the candidate.
pub fn choice_weights(pos: Point, foods: &Vec<FoodSite>, cands: &Vec<usize>) -> (w: Vec<u128>)
    requires
        cands.len() > 0,
        forall|k: int| 0 <= k < cands.len() ==> #[trigger] cands[k] < foods.len(),
    ensures
        w.len() == cands.len(),
        forall|k: int|
            0 <= k < w.len() ==> #[trigger] w[k] == flip_weights(cand_dists(pos, foods@, cands@))[k],
        exists|k: int| 0 <= k < w.len() && #[trigger] w[k] == 0,
        forall|k: int, l: int|
            0 <= k < w.len() && 0 <= l < w.len() ==> #[trigger] w[k] - #[trigger] w[l] == (((pos).x - (foods@[cands@[l] as int].pos).x) * ((pos).x - (foods@[cands@[l] as int].pos).x) + ((pos).y - (foods@[cands@[l] as int].pos).y) * ((pos).y - (foods@[cands@[l] as int].pos).y)) - (((pos).x - (foods@[cands@[k] as int].pos).x) * ((pos).x - (foods@[cands@[k] as int].pos).x) + ((pos).y - (foods@[cands@[k] as int].pos).y) * ((pos).y - (foods@[cands@[k] as int].pos).y)),
{
    let n = cands.len();
    let ghost ds = cand_dists(pos, foods@, cands@);
    let mut d: Vec<u128> = Vec::new();
    let mut i: usize = 0;
    while i < n
        invariant
            n == cands.len(),
            ds == cand_dists(pos, foods@, cands@),
            forall|k: int| 0 <= k < cands.len() ==> #[trigger] cands[k] < foods.len(),
            i <= n,
            d.len() == i,
            forall|k: int| 0 <= k < i ==> #[trigger] d[k] == ds[k],
        decreases n - i,
    {
        let c = cands[i];
        d.push(squared_distance(pos, foods[c].pos));
        i = i + 1;
    }
    let mut m: u128 = d[0];
    let mut i: usize = 1;
    while i < n
        invariant
            n == cands.len() == d.len() == ds.len(),
            1 <= i <= n,
            forall|k: int| 0 <= k < n ==> #[trigger] d[k] == ds[k],
            m == seq_max(ds.take(i as int)),
        decreases n - i,
    {
        assert(ds.take(i as int + 1).drop_last() == ds.take(i as int));
        if d[i] > m {
            m = d[i];
        }
        i = i + 1;
    }
    assert(ds.take(n as int) == ds);
    proof {
        lemma_seq_max(ds);
    }
    proof {
        lemma_cand_dists(pos, foods@, cands@);
        lemma_flip_weights(ds);
    }
    let mut w: Vec<u128> = Vec::new();
    let mut i: usize = 0;
    while i < n
        invariant
            n == cands.len() == d.len() == ds.len(),
            i <= n,
            forall|k: int| 0 <= k < n ==> #[trigger] d[k] == ds[k],
            forall|k: int| 0 <= k < n ==> #[trigger] ds[k] <= seq_max(ds),
            m == seq_max(ds),
            w.len() == i,
            forall|k: int| 0 <= k < i ==> #[trigger] w[k] == flip_weights(ds)[k],
        decreases n - i,
    {
        assert(ds[i as int] <= seq_max(ds));
        w.push(m - d[i]);
        i = i + 1;
    }
    proof {
        let k = choose|k: int| 0 <= k < ds.len() && #[trigger] flip_weights(ds)[k] == 0;
        assert(w[k] == 0);
    }
    w
}

/// What an ant does next when it is time to pick a new target.
pub enum TargetPlan {
    /// Draw one of `candidates` (indices of food sites), candidate `k` with
    /// weight `weights[k]`.
    Choose { candidates: Vec<usize>, weights: Vec<u128> },
    /// Every food site has been visited: the tour is complete.
    AllVisited,
}

/// What an ant plans: when some food site is unvisited, to draw one of the
/// unvisited sites, weighted so that near sites are likelier; otherwise to
/// end its tour.
pub fn plan_target(a: &AntState, foods: &Vec<FoodSite>) -> (plan: TargetPlan)
    ensures
        match plan {
            TargetPlan::AllVisited => {
                &&& unvisited(foods@, a.places.places@).len() == 0
                &&& forall|j: int| 0 <= j < foods.len() ==> a.places.places@.contains(#[trigger] foods@[j].id.id)
            },
            TargetPlan::Choose { candidates, weights } => {
                &&& candidates.len() > 0
                &&& candidates@ == unvisited(foods@, a.places.places@)
                &&& weights.len() == candidates.len()
                &&& forall|k: int|
                    0 <= k < weights.len() ==> #[trigger] weights[k] == flip_weights(
                        cand_dists(a.pos, foods@, candidates@),
                    )[k]
            },
        },
{
    let candidates = unvisited_foods(foods, &a.places.places);
    proof {
        assert(foods@.len() == foods.len());
        lemma_unvisited(foods@, a.places.places@);
    }
    if candidates.len() == 0 {
        proof {
            assert forall|j: int| 0 <= j < foods.len() implies a.places.places@.contains(
                #[trigger] foods@[j].id.id,
            ) by {
                if !a.places.places@.contains(foods@[j].id.id) {
                    assert(unvisited(foods@, a.places.places@).contains(j as usize));
                }
            }
        }
        TargetPlan::AllVisited
    } else {
        let weights = choice_weights(a.pos, foods, &candidates);
        TargetPlan::Choose { candidates, weights }
    }
}

/// Heads the ant for the unvisited site that was drawn: `chosen` counts among
/// the unvisited sites in the order of the board. When `chosen` is past the
/// last unvisited site the ant keeps its target. Nothing else changes.
pub fn set_target_from_choice(a: &mut AntState, foods: &Vec<FoodSite>, chosen: usize)
    ensures
        ({
            let u = unvisited(foods@, old(a).places.places@);
            final(a).ant.target == if chosen < u.len() {
                foods@[u[chosen as int] as int].pos
            } else {
                old(a).ant.target
            }
        }),
        chosen < unvisited(foods@, old(a).places.places@).len() ==> exists|j: int|
            0 <= j < foods.len() && !old(a).places.places@.contains(#[trigger] foods@[j].id.id)
                && final(a).ant.target == foods@[j].pos,
        final(a).pos == old(a).pos,
        final(a).path == old(a).path,
        final(a).finished == old(a).finished,
        final(a).places == old(a).places,
        ant_wf(*old(a)) ==> ant_wf(*final(a)),
        places_known(*old(a), foods@) ==> places_known(*final(a), foods@),
{
    let candidates = unvisited_foods(foods, &a.places.places);
    proof {
        assert(foods@.len() == foods.len());
        lemma_unvisited(foods@, a.places.places@);
    }
    if chosen < candidates.len() {
        let j = candidates[chosen];
        a.ant.target = foods[j].pos;
        assert(!old(a).places.places@.contains(foods@[j as int].id.id));
    }
}

/// Ends the tour of an ant that has visited every site: every food site is
/// marked untravelled again and, when there is at least one site, the ant's
/// tour is marked finished.
pub fn finish_tour(a: &mut AntState, foods: &mut Vec<FoodSite>)
    ensures
        final(foods).len() == old(foods).len(),
        forall|i: int|
            0 <= i < final(foods).len() ==> {
                &&& (#[trigger] final(foods)[i]).pos == old(foods)[i].pos
                &&& final(foods)[i].id == old(foods)[i].id
                &&& !final(foods)[i].food.travelled
            },
        final(a).finished.finished == (old(a).finished.finished || old(foods).len() > 0),
        final(a).ant == old(a).ant,
        final(a).pos == old(a).pos,
        final(a).path == old(a).path,
        final(a).places == old(a).places,
        ant_wf(*old(a)) ==> ant_wf(*final(a)),
        places_known(*old(a), old(foods)@) ==> places_known(*final(a), final(foods)@),
{
    let n = foods.len();
    let mut i: usize = 0;
    while i < n
        invariant
            n == foods.len() == old(foods).len(),
            i <= n,
            forall|k: int|
                0 <= k < n ==> {
                    &&& (#[trigger] foods[k]).pos == old(foods)[k].pos
                    &&& foods[k].id == old(foods)[k].id
                },
            forall|k: int| 0 <= k < i ==> !(#[trigger] foods[k]).food.travelled,
            forall|k: int| i <= k < n ==> #[trigger] foods[k] == old(foods)[k],
            a.finished.finished == (old(a).finished.finished || i > 0),
            a.ant == old(a).ant,
            a.pos == old(a).pos,
            a.path == old(a).path,
            a.places == old(a).places,
        decreases n - i,
    {
        let site = foods[i];
        foods.set(i, FoodSite { pos: site.pos, food: Food { travelled: false }, id: site.id });
        a.finished.finished = true;
        i = i + 1;
    }
    proof {
        if places_known(*old(a), old(foods)@) {
            lemma_places_known_same_ids(*old(a), *a, old(foods)@, foods@);
        }
    }
}

/// Remembered numbers stay known when the ant remembers the same numbers and
/// the sites keep their numbers.
proof fn lemma_places_known_same_ids(a: AntState, b: AntState, f: Seq<FoodSite>, g: Seq<FoodSite>)
    requires
        places_known(a, f),
        a.places.places@ == b.places.places@,
        f.len() == g.len(),
        forall|k: int| 0 <= k < f.len() ==> (#[trigger] f[k]).id == g[k].id,
    ensures
        places_known(b, g),
{
    assert forall|i: int| 0 <= i < b.places.places.len() implies id_known(
        #[trigger] b.places.places[i],
        g,
    ) by {
        assert(a.places.places[i] == b.places.places[i]);
        assert(id_known(a.places.places[i], f));
        let j = choose|j: int| 0 <= j < f.len() && #[trigger] f[j].id.id == a.places.places[i];
        assert(g[j].id == f[j].id);
    }
}

/// An ant travels to its target whenever it does not already stand there.
/// After the walk it stands on the target,
/// the target is appended to its path and, when a food site lies there, the
/// number of the first such site is appended to the sites it visited.
pub fn ant_move(a: &mut AntState, foods: &Vec<FoodSite>)
    ensures
        ({
            let o = *old(a);
            let moves = o.ant.target != o.pos;
            &&& moves ==> {
                &&& final(a).pos == o.ant.target
                &&& final(a).path.points@ == o.path.points@.push(o.ant.target)
                &&& final(a).places.places@ == match food_id_at(foods@, o.ant.target) {
                    Some(t) => o.places.places@.push(t),
                    None => o.places.places@,
                }
                &&& final(a).ant == o.ant
                &&& final(a).finished == o.finished
            }
            &&& !moves ==> *final(a) == o
        }),
        ant_wf(*old(a)) ==> ant_wf(*final(a)),
        places_known(*old(a), foods@) ==> places_known(*final(a), foods@),
{
    if !same_point(a.ant.target, a.pos) {
        let t = a.ant.target;
        a.pos = t;
        a.path.points.push(t);
        let found = food_at(foods, t);
        proof {
            lemma_first_site_at(foods@, t);
        }
        match found {
            Some(id) => {
                a.places.places.push(id);
                proof {
                    let j = first_site_at(foods@, t)->Some_0;
                    assert forall|i: int| 0 <= i < a.places.places.len() && places_known(*old(a), foods@)
                        implies id_known(#[trigger] a.places.places[i], foods@) by {
                        if i < old(a).places.places.len() {
                            assert(a.places.places[i] == old(a).places.places[i]);
                        } else {
                            assert(foods@[j].id.id == a.places.places[i]);
                        }
                    }
                }
            },
            None => {},
        }
    }
}

/// When an ant's tour is finished, starts a new tour from where it stands
/// and hands back the points of the finished tour. The new path holds the
/// ant's position alone, the tour is no longer finished and, when a food
/// site lies there, the sites it visited are that site's number alone.
/// An ant whose tour is not finished is left as it is.
pub fn reset_path(a: &mut AntState, foods: &Vec<FoodSite>) -> (tour: Option<Vec<Point>>)
    ensures
        old(a).finished.finished ==> {
            &&& tour is Some
            &&& tour->Some_0@ == old(a).path.points@
            &&& final(a).path.points@ == seq![old(a).pos]
            &&& !final(a).finished.finished
            &&& final(a).places.places@ == match food_id_at(foods@, old(a).pos) {
                Some(t) => seq![t],
                None => old(a).places.places@,
            }
            &&& final(a).pos == old(a).pos
            &&& final(a).ant == old(a).ant
        },
        !old(a).finished.finished ==> tour is None && *final(a) == *old(a),
        ant_wf(*old(a)) ==> ant_wf(*final(a)),
        places_known(*old(a), foods@) ==> places_known(*final(a), foods@),
{
    if a.finished.finished {
        let mut fresh: Vec<Point> = Vec::new();
        fresh.push(a.pos);
        let mut done = fresh;
        std::mem::swap(&mut done, &mut a.path.points);
        a.finished.finished = false;
        let found = food_at(foods, a.pos);
        proof {
            lemma_first_site_at(foods@, a.pos);
        }
        match found {
            Some(t) => {
                let mut places: Vec<i32> = Vec::new();
                places.push(t);
                a.places.places = places;
                proof {
                    let j = first_site_at(foods@, a.pos)->Some_0;
                    assert(foods@[j].id.id == a.places.places[0]);
                }
            },
            None => {},
        }
        Some(done)
    } else {
        None
    }
}

/// Whether a line is drawn from an ant that visited `places` to `site`: the
/// site is neither visited by the ant nor travelled.
pub open spec fn line_wanted(site: FoodSite, places: Seq<i32>) -> bool {
    !places.contains(site.id.id) && !site.food.travelled
}

/// A line goes to a site exactly when the ant has not visited it and it is not
/// travelled, however many sites the ant has visited.
pub proof fn lemma_line_wanted(site: FoodSite, places: Seq<i32>)
    ensures
        line_wanted(site, places) == (!places.contains(site.id.id) && !site.food.travelled),
{
}

/// The lines from ant `i` to those of the first `m` sites that it wants, as
/// pairs of ant index and site index, by increasing site index.
pub open spec fn ant_lines_upto(foods: Seq<FoodSite>, places: Seq<i32>, i: usize, m: int) -> Seq<
    (usize, usize),
>
    decreases m,
{
    if m <= 0 {
        Seq::empty()
    } else {
        let prev = ant_lines_upto(foods, places, i, m - 1);
        if line_wanted(foods[m - 1], places) {
            prev.push((i, (m - 1) as usize))
        } else {
            prev
        }
    }
}

/// The lines of the first `n` ants, ant after ant.
pub open spec fn lines_upto(ants: Seq<AntState>, foods: Seq<FoodSite>, n: int) -> Seq<(usize, usize)>
    decreases n,
{
    if n <= 0 {
        Seq::empty()
    } else {
        lines_upto(ants, foods, n - 1) + ant_lines_upto(
            foods,
            ants[n - 1].places.places@,
            (n - 1) as usize,
            foods.len() as int,
        )
    }
}

/// The lines drawn on the board: from every ant to every site that it has not
/// visited and that is not travelled, ant after ant, by increasing site index.
pub fn lines_to_draw(ants: &Vec<AntState>, foods: &Vec<FoodSite>) -> (lines: Vec<(usize, usize)>)
    ensures
        lines@ == lines_upto(ants@, foods@, ants.len() as int),
        forall|i: int, j: int|
            #![trigger ants@[i], foods@[j]]
            0 <= i < ants.len() && 0 <= j < foods.len() ==> (lines@.contains((i as usize, j as usize))
                <==> (!ants@[i].places.places@.contains(foods@[j].id.id) && !foods@[j].food.travelled)),
        forall|k: int|
            0 <= k < lines.len() ==> (#[trigger] lines[k]).0 < ants.len() && lines[k].1 < foods.len(),
{
    let n = ants.len();
    let m = foods.len();
    let mut lines: Vec<(usize, usize)> = Vec::new();
    let mut i: usize = 0;
    while i < n
        invariant
            n == ants.len(),
            m == foods.len(),
            i <= n,
            lines@ == lines_upto(ants@, foods@, i as int),
        decreases n - i,
    {
        let places = &ants[i].places.places;
        let ghost base = lines@;
        let mut j: usize = 0;
        while j < m
            invariant
                n == ants.len(),
                m == foods.len(),
                i < n,
                j <= m,
                *places == ants@[i as int].places.places,
                base == lines_upto(ants@, foods@, i as int),
                lines@ == base + ant_lines_upto(foods@, places@, i, j as int),
            decreases m - j,
        {
            let site = foods[j];
            if !contains_id(places, site.id.id) && !site.food.travelled {
                lines.push((i, j));
                assert(lines@ == base + ant_lines_upto(foods@, places@, i, j as int).push((i, j)));
            }
            j = j + 1;
        }
        i = i + 1;
    }
    proof {
        assert(ants@.len() == ants.len());
        assert(foods@.len() == foods.len());
        lemma_lines(ants@, foods@);
    }
    lines
}

proof fn lemma_ant_lines_upto(foods: Seq<FoodSite>, places: Seq<i32>, i: usize, m: int)
    requires
        0 <= m <= foods.len() <= usize::MAX,
    ensures
        forall|j: int|
            0 <= j < m ==> (ant_lines_upto(foods, places, i, m).contains((i, j as usize))
                <==> line_wanted(#[trigger] foods[j], places)),
        forall|k: int|
            0 <= k < ant_lines_upto(foods, places, i, m).len() ==> {
                &&& (#[trigger] ant_lines_upto(foods, places, i, m)[k]).0 == i
                &&& ant_lines_upto(foods, places, i, m)[k].1 < m
            },
    decreases m,
{
    if m > 0 {
        lemma_ant_lines_upto(foods, places, i, m - 1);
        let prev = ant_lines_upto(foods, places, i, m - 1);
        let cur = ant_lines_upto(foods, places, i, m);
        assert forall|j: int|
            0 <= j < m implies (cur.contains((i, j as usize)) <==> line_wanted(
            #[trigger] foods[j],
            places,
        )) by {
            if j < m - 1 {
                if cur.contains((i, j as usize)) {
                    let k = choose|k: int| 0 <= k < cur.len() && cur[k] == (i, j as usize);
                    if k < prev.len() {
                        assert(prev[k] == cur[k]);
                    }
                }
                if prev.contains((i, j as usize)) {
                    let k = choose|k: int| 0 <= k < prev.len() && prev[k] == (i, j as usize);
                    assert(cur[k] == prev[k]);
                }
            } else {
                if line_wanted(foods[j], places) {
                    assert(cur[cur.len() - 1] == (i, j as usize));
                } else {
                    if cur.contains((i, j as usize)) {
                        let k = choose|k: int| 0 <= k < cur.len() && cur[k] == (i, j as usize);
                        assert(prev[k] == cur[k]);
                    }
                }
            }
        }
    }
}

proof fn lemma_lines_upto(ants: Seq<AntState>, foods: Seq<FoodSite>, n: int)
    requires
        0 <= n <= ants.len() <= usize::MAX,
        foods.len() <= usize::MAX,
    ensures
        forall|i: int, j: int|
            #![trigger ants[i], foods[j]]
            0 <= i < n && 0 <= j < foods.len() ==> (lines_upto(ants, foods, n).contains(
                (i as usize, j as usize),
            ) <==> line_wanted(foods[j], ants[i].places.places@)),
        forall|k: int|
            0 <= k < lines_upto(ants, foods, n).len() ==> {
                &&& (#[trigger] lines_upto(ants, foods, n)[k]).0 < n
                &&& lines_upto(ants, foods, n)[k].1 < foods.len()
            },
    decreases n,
{
    if n > 0 {
        lemma_lines_upto(ants, foods, n - 1);
        let prev = lines_upto(ants, foods, n - 1);
        let last = ant_lines_upto(foods, ants[n - 1].places.places@, (n - 1) as usize, foods.len() as int);
        lemma_ant_lines_upto(foods, ants[n - 1].places.places@, (n - 1) as usize, foods.len() as int);
        let cur = lines_upto(ants, foods, n);
        assert(cur == prev + last);
        assert forall|k: int| 0 <= k < cur.len() implies {
            &&& (#[trigger] cur[k]).0 < n
            &&& cur[k].1 < foods.len()
        } by {
            if k < prev.len() {
                assert(cur[k] == prev[k]);
            } else {
                assert(cur[k] == last[k - prev.len()]);
            }
        }
        assert forall|i: int, j: int|
            #![trigger ants[i], foods[j]]
            0 <= i < n && 0 <= j < foods.len() implies (cur.contains((i as usize, j as usize))
            <==> line_wanted(foods[j], ants[i].places.places@)) by {
            let pair = (i as usize, j as usize);
            if cur.contains(pair) {
                let k = choose|k: int| 0 <= k < cur.len() && cur[k] == pair;
                if k < prev.len() {
                    assert(prev[k] == cur[k]);
                    assert(prev.contains(pair));
                } else {
                    assert(last[k - prev.len()] == cur[k]);
                    assert(last.contains(pair));
                    assert(last[k - prev.len()].0 == (n - 1) as usize);
                    assert(i == n - 1);
                }
            }
            if line_wanted(foods[j], ants[i].places.places@) {
                if i < n - 1 {
                    assert(prev.contains(pair));
                    let k = choose|k: int| 0 <= k < prev.len() && prev[k] == pair;
                    assert(cur[k] == prev[k]);
                } else {
                    assert(last.contains(pair));
                    let k = choose|k: int| 0 <= k < last.len() && last[k] == pair;
                    assert(cur[k + prev.len()] == last[k]);
                }
            }
        }
    }
}

/// A line is drawn from ant `i` to site `j` exactly when the ant has not
/// visited the site and the site is not travelled; every line joins an ant to
/// a site on the board.
pub proof fn lemma_lines(ants: Seq<AntState>, foods: Seq<FoodSite>)
    requires
        ants.len() <= usize::MAX,
        foods.len() <= usize::MAX,
    ensures
        forall|i: int, j: int|
            #![trigger ants[i], foods[j]]
            0 <= i < ants.len() && 0 <= j < foods.len() ==> (lines_upto(
                ants,
                foods,
                ants.len() as int,
            ).contains((i as usize, j as usize)) <==> (!ants[i].places.places@.contains(foods[j].id.id)
                && !foods[j].food.travelled)),
        forall|k: int|
            0 <= k < lines_upto(ants, foods, ants.len() as int).len() ==> {
                &&& (#[trigger] lines_upto(ants, foods, ants.len() as int)[k]).0 < ants.len()
                &&& lines_upto(ants, foods, ants.len() as int)[k].1 < foods.len()
            },
{
    lemma_lines_upto(ants, foods, ants.len() as int);
}

} // verus!
