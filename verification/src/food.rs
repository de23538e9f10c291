use vstd::prelude::*;
use crate::geometry::{Point, same_place, same_point};
use crate::random::random_in_range;

verus! {

/// How many food sites the board starts with.
pub const FOOD_AMOUNT: usize = 100;

/// Whether a food site has been travelled to.
#[derive(Clone, Copy, Debug, PartialEq, Eq, Structural)]
pub struct Food {
    pub travelled: bool,
}

/// The number by which ants remember the food sites they visited.
#[derive(Clone, Copy, Debug, PartialEq, Eq, Structural)]
pub struct FoodId {
    pub id: i32,
}

/// A food site on the board: where it lies, its state and its number.
#[derive(Clone, Copy, Debug, PartialEq, Eq, Structural)]
pub struct FoodSite {
    pub pos: Point,
    pub food: Food,
    pub id: FoodId,
}

/// The colour a food site is painted in.
#[derive(Clone, Copy, Debug, PartialEq, Eq, Structural)]
pub enum PointColor {
    Red,
    White,
}

/// A travelled site is painted red, any other white.
pub fn paint_color(food: &Food) -> (c: PointColor)
    ensures
        c == (if food.travelled {
            PointColor::Red
        } else {
            PointColor::White
        }),
{
    if food.travelled {
        PointColor::Red
    } else {
        PointColor::White
    }
}

/// The index of the first of the first `n` sites that lies at `p`.
pub open spec fn first_site_at_upto(foods: Seq<FoodSite>, p: Point, n: int) -> Option<int>
    decreases n,
{
    if n <= 0 {
        None
    } else {
        match first_site_at_upto(foods, p, n - 1) {
            Some(j) => Some(j),
            None => if same_place(foods[n - 1].pos, p) {
                Some(n - 1)
            } else {
                None
            },
        }
    }
}

/// The index of the first site that lies at `p`, if any does.
pub open spec fn first_site_at(foods: Seq<FoodSite>, p: Point) -> Option<int> {
    first_site_at_upto(foods, p, foods.len() as int)
}

/// The number of the first site that lies at `p`, if any does.
pub open spec fn food_id_at(foods: Seq<FoodSite>, p: Point) -> Option<i32> {
    match first_site_at(foods, p) {
        Some(j) => Some(foods[j].id.id),
        None => None,
    }
}

/// `first_site_at_upto` finds the smallest index below `n` of a site at `p`,
/// and finds none exactly when no site below `n` lies there.
proof fn lemma_first_site_at_upto(foods: Seq<FoodSite>, p: Point, n: int)
    requires
        0 <= n <= foods.len(),
    ensures
        match first_site_at_upto(foods, p, n) {
            Some(j) => 0 <= j < n && same_place(foods[j].pos, p) && forall|k: int|
                0 <= k < j ==> !same_place(#[trigger] foods[k].pos, p),
            None => forall|k: int| 0 <= k < n ==> !same_place(#[trigger] foods[k].pos, p),
        },
    decreases n,
{
    if n > 0 {
        lemma_first_site_at_upto(foods, p, n - 1);
    }
}

/// The site that `first_site_at` finds is the first one at `p`; it finds none
/// exactly when no site lies at `p`.
pub proof fn lemma_first_site_at(foods: Seq<FoodSite>, p: Point)
    ensures
        match first_site_at(foods, p) {
            Some(j) => 0 <= j < foods.len() && same_place(foods[j].pos, p) && forall|k: int|
                0 <= k < j ==> !same_place(#[trigger] foods[k].pos, p),
            None => forall|k: int| 0 <= k < foods.len() ==> !same_place(#[trigger] foods[k].pos, p),
        },
{
    lemma_first_site_at_upto(foods, p, foods.len() as int);
}

/// The number found at `p` is that of the first site lying at `p`, whatever
/// `p` is, and none is found exactly when no site lies there.
pub proof fn lemma_food_id_at(foods: Seq<FoodSite>, p: Point)
    ensures
        match food_id_at(foods, p) {
            Some(id) => exists|j: int|
                0 <= j < foods.len() && #[trigger] foods[j].pos == p && foods[j].id.id == id
                    && forall|k: int| 0 <= k < j ==> foods[k].pos != p,
            None => forall|j: int| 0 <= j < foods.len() ==> #[trigger] foods[j].pos != p,
        },
        forall|j: int|
            0 <= j < foods.len() && #[trigger] foods[j].pos == p && (forall|k: int|
                0 <= k < j ==> foods[k].pos != p) ==> food_id_at(foods, p) == Some(foods[j].id.id),
{
    lemma_first_site_at(foods, p);
    match first_site_at(foods, p) {
        Some(j) => {
            assert(foods[j].pos == p);
            assert forall|i: int|
                0 <= i < foods.len() && #[trigger] foods[i].pos == p && (forall|k: int|
                    0 <= k < i ==> foods[k].pos != p) implies food_id_at(foods, p) == Some(
                foods[i].id.id,
            ) by {
                if i < j {
                    assert(same_place(foods[i].pos, p));
                } else if i > j {
                    assert(foods[j].pos != p);
                }
            }
        },
        None => {
            assert forall|j: int| 0 <= j < foods.len() implies #[trigger] foods[j].pos != p by {
                assert(!same_place(foods[j].pos, p));
            }
        },
    }
}

/// The number of the first food site that lies at `p`, or `None` when no site
/// lies there.
pub fn food_at(foods: &Vec<FoodSite>, p: Point) -> (r: Option<i32>)
    ensures
        r == food_id_at(foods@, p),
        match r {
            Some(id) => exists|j: int|
                0 <= j < foods.len() && #[trigger] foods@[j].pos == p && foods@[j].id.id == id
                    && forall|k: int| 0 <= k < j ==> foods@[k].pos != p,
            None => forall|j: int| 0 <= j < foods.len() ==> #[trigger] foods@[j].pos != p,
        },
{
    proof {
        lemma_food_id_at(foods@, p);
    }
    let n = foods.len();
    let mut i: usize = 0;
    while i < n
        invariant
            n == foods.len(),
            i <= n,
            first_site_at_upto(foods@, p, i as int) is None,
        decreases n - i,
    {
        if same_point(foods[i].pos, p) {
            assert(first_site_at_upto(foods@, p, i + 1) == Some(i as int));
            proof {
                lemma_prefix_find_stable(foods@, p, i + 1, n as int);
                lemma_first_site_at_upto(foods@, p, i as int);
                assert forall|k: int| 0 <= k < i implies foods@[k].pos != p by {
                    assert(!same_place(foods@[k].pos, p));
                }
                assert(foods@[i as int].pos == p);
            }
            return Some(foods[i].id.id);
        }
        i = i + 1;
    }
    None
}

/// Once a site at `p` is found among the first `m` sites, looking at more
/// sites finds the same one.
proof fn lemma_prefix_find_stable(foods: Seq<FoodSite>, p: Point, m: int, n: int)
    requires
        0 <= m <= n,
        first_site_at_upto(foods, p, m) is Some,
    ensures
        first_site_at_upto(foods, p, n) == first_site_at_upto(foods, p, m),
    decreases n - m,
{
    if n > m {
        lemma_prefix_find_stable(foods, p, m, n - 1);
    }
}

/// The untravelled site numbered `i` at `(x, y)`.
pub fn food_site(i: usize, x: i32, y: i32) -> (s: FoodSite)
    requires
        i <= i32::MAX,
    ensures
        s.pos == (Point { x, y }),
        s.id.id == i,
        !s.food.travelled,
{
    FoodSite { pos: Point { x, y }, food: Food { travelled: false }, id: FoodId { id: i as i32 } }
}

/// The sites that the board starts with: `FOOD_AMOUNT` untravelled sites,
/// numbered from 0 in order, each at a random place with `x` in
/// `x_lo..x_hi` and `y` in `y_lo..y_hi`.
pub fn add_food(x_lo: i32, x_hi: i32, y_lo: i32, y_hi: i32) -> (foods: Vec<FoodSite>)
    requires
        x_lo < x_hi,
        y_lo < y_hi,
    ensures
        foods.len() == FOOD_AMOUNT,
        forall|i: int|
            0 <= i < foods.len() ==> {
                &&& (#[trigger] foods[i]).id.id == i
                &&& !foods[i].food.travelled
                &&& x_lo <= foods[i].pos.x < x_hi
                &&& y_lo <= foods[i].pos.y < y_hi
            },
{
    let mut foods: Vec<FoodSite> = Vec::new();
    let mut i: usize = 0;
    while i < FOOD_AMOUNT
        invariant
            x_lo < x_hi,
            y_lo < y_hi,
            i <= FOOD_AMOUNT,
            foods.len() == i,
            forall|k: int|
                0 <= k < i ==> {
                    &&& (#[trigger] foods[k]).id.id == k
                    &&& !foods[k].food.travelled
                    &&& x_lo <= foods[k].pos.x < x_hi
                    &&& y_lo <= foods[k].pos.y < y_hi
                },
        decreases FOOD_AMOUNT - i,
    {
        let x = random_in_range(x_lo as i64, x_hi as i64) as i32;
        let y = random_in_range(y_lo as i64, y_hi as i64) as i32;
        foods.push(food_site(i, x, y));
        i = i + 1;
    }
    foods
}

} // verus!
