use fourmis::ant::{
    ant_move, choice_weights, contains_id, finish_tour, lines_to_draw, plan_target, reset_path,
    set_target_from_choice, spawn_ant, spawn_ants, unvisited_foods, Ant, AntState, FinishedPath,
    Path, PlacesTravelled, TargetPlan, ANT_COUNT,
};
use fourmis::food::{Food, FoodId, FoodSite};
use fourmis::geometry::Point;

fn site(x: i32, y: i32, id: i32) -> FoodSite {
    FoodSite { pos: Point::new(x, y), food: Food { travelled: false }, id: FoodId { id } }
}

fn board() -> Vec<FoodSite> {
    vec![site(0, 0, 0), site(3, 4, 1), site(6, 8, 2), site(-1, 1, 3)]
}

fn ant_at(p: Point, target: Point, places: Vec<i32>, finished: bool) -> AntState {
    AntState {
        ant: Ant { target },
        pos: p,
        path: Path { points: vec![p] },
        finished: FinishedPath { finished },
        places: PlacesTravelled { places },
    }
}

#[test]
fn spawned_ant_stands_on_its_site() {
    let foods = board();
    let a = spawn_ant(&foods, 2);
    assert_eq!(a.pos, Point::new(6, 8));
    assert_eq!(a.ant.target, Point::new(6, 8));
    assert_eq!(a.path.points, vec![Point::new(6, 8)]);
    assert_eq!(a.places.places, vec![2]);
    assert!(!a.finished.finished);
}

#[test]
fn spawn_ants_puts_every_ant_on_a_site() {
    let foods = board();
    let ants = spawn_ants(&foods);
    assert_eq!(ants.len(), ANT_COUNT);
    assert_eq!(ANT_COUNT, 10);
    for a in &ants {
        let j = a.places.places[0] as usize;
        assert_eq!(a.places.places.len(), 1);
        assert_eq!(a.pos, foods[j].pos);
        assert_eq!(a.path.points, vec![foods[j].pos]);
    }
}

#[test]
fn contains_id_looks_through_places() {
    assert!(contains_id(&vec![4, 7, 9], 7));
    assert!(!contains_id(&vec![4, 7, 9], 8));
    assert!(!contains_id(&Vec::new(), 0));
}

#[test]
fn unvisited_lists_sites_not_remembered_in_order() {
    let foods = board();
    assert_eq!(unvisited_foods(&foods, &vec![1, 3]), vec![0, 2]);
    assert_eq!(unvisited_foods(&foods, &vec![0, 1, 2, 3]), Vec::<usize>::new());
    assert_eq!(unvisited_foods(&foods, &vec![42]), vec![0, 1, 2, 3]);
}

#[test]
fn nearer_candidates_weigh_more() {
    let foods = board();
    // squared distances from the origin: 25, 100, 2
    let w = choice_weights(Point::new(0, 0), &foods, &vec![1, 2, 3]);
    assert_eq!(w, vec![75, 0, 98]);
}

#[test]
fn single_candidate_weighs_nothing() {
    let foods = board();
    assert_eq!(choice_weights(Point::new(100, 100), &foods, &vec![2]), vec![0]);
}

#[test]
fn plan_draws_among_unvisited_sites() {
    let foods = board();
    let a = ant_at(Point::new(0, 0), Point::new(0, 0), vec![0, 3], false);
    match plan_target(&a, &foods) {
        TargetPlan::Choose { candidates, weights } => {
            assert_eq!(candidates, vec![1, 2]);
            assert_eq!(weights, vec![75, 0]);
        }
        TargetPlan::AllVisited => panic!("sites remain"),
    }
}

#[test]
fn plan_ends_the_tour_when_all_visited() {
    let foods = board();
    let a = ant_at(Point::new(0, 0), Point::new(0, 0), vec![3, 2, 1, 0], false);
    assert!(matches!(plan_target(&a, &foods), TargetPlan::AllVisited));
}

#[test]
fn choice_heads_for_the_drawn_unvisited_site() {
    let foods = board();
    let mut a = ant_at(Point::new(0, 0), Point::new(0, 0), vec![0, 1], false);
    set_target_from_choice(&mut a, &foods, 1);
    assert_eq!(a.ant.target, Point::new(-1, 1));
    set_target_from_choice(&mut a, &foods, 0);
    assert_eq!(a.ant.target, Point::new(6, 8));
    set_target_from_choice(&mut a, &foods, 2);
    assert_eq!(a.ant.target, Point::new(6, 8));
    assert_eq!(a.places.places, vec![0, 1]);
    assert_eq!(a.pos, Point::new(0, 0));
}

#[test]
fn finishing_a_tour_untravels_every_site() {
    let mut foods = board();
    foods[1].food.travelled = true;
    let mut a = ant_at(Point::new(0, 0), Point::new(0, 0), vec![0, 1, 2, 3], false);
    finish_tour(&mut a, &mut foods);
    assert!(a.finished.finished);
    assert!(foods.iter().all(|f| !f.food.travelled));
    assert_eq!(foods[1].pos, Point::new(3, 4));
    assert_eq!(foods[1].id.id, 1);
}

#[test]
fn finishing_on_an_empty_board_leaves_the_ant_unfinished() {
    let mut foods: Vec<FoodSite> = Vec::new();
    let mut a = ant_at(Point::new(0, 0), Point::new(0, 0), vec![0], false);
    finish_tour(&mut a, &mut foods);
    assert!(!a.finished.finished);
}

#[test]
fn ant_walks_to_its_target_and_remembers_the_site() {
    let foods = board();
    let mut a = ant_at(Point::new(0, 0), Point::new(6, 8), vec![0], false);
    ant_move(&mut a, &foods);
    assert_eq!(a.pos, Point::new(6, 8));
    assert_eq!(a.path.points, vec![Point::new(0, 0), Point::new(6, 8)]);
    assert_eq!(a.places.places, vec![0, 2]);
}

#[test]
fn ant_travels_to_a_target_sharing_a_coordinate() {
    let foods = vec![site(0, 0, 0), site(3, 0, 1)];
    let mut a = ant_at(Point::new(0, 0), Point::new(3, 0), vec![0], false);
    ant_move(&mut a, &foods);
    assert_eq!(a.pos, Point::new(3, 0));
    assert_eq!(a.path.points, vec![Point::new(0, 0), Point::new(3, 0)]);
    assert_eq!(a.places.places, vec![0, 1]);
}

#[test]
fn ant_on_its_target_stays() {
    let foods = board();
    let mut a = ant_at(Point::new(3, 4), Point::new(3, 4), vec![1], false);
    ant_move(&mut a, &foods);
    assert_eq!(a.pos, Point::new(3, 4));
    assert_eq!(a.path.points, vec![Point::new(3, 4)]);
    assert_eq!(a.places.places, vec![1]);
}

#[test]
fn ant_moving_off_the_sites_remembers_nothing_new() {
    let foods = board();
    let mut a = ant_at(Point::new(0, 0), Point::new(9, 9), vec![0], false);
    ant_move(&mut a, &foods);
    assert_eq!(a.pos, Point::new(9, 9));
    assert_eq!(a.places.places, vec![0]);
}

#[test]
fn reset_hands_back_the_finished_tour() {
    let foods = board();
    let mut a = AntState {
        ant: Ant { target: Point::new(3, 4) },
        pos: Point::new(3, 4),
        path: Path { points: vec![Point::new(0, 0), Point::new(3, 4)] },
        finished: FinishedPath { finished: true },
        places: PlacesTravelled { places: vec![0, 1, 2, 3] },
    };
    let tour = reset_path(&mut a, &foods);
    assert_eq!(tour, Some(vec![Point::new(0, 0), Point::new(3, 4)]));
    assert_eq!(a.path.points, vec![Point::new(3, 4)]);
    assert_eq!(a.places.places, vec![1]);
    assert!(!a.finished.finished);
}

#[test]
fn reset_leaves_an_unfinished_ant_alone() {
    let foods = board();
    let mut a = ant_at(Point::new(0, 0), Point::new(3, 4), vec![0], false);
    assert_eq!(reset_path(&mut a, &foods), None);
    assert_eq!(a.places.places, vec![0]);
    assert_eq!(a.path.points, vec![Point::new(0, 0)]);
}

#[test]
fn reset_off_the_sites_keeps_the_places() {
    let foods = board();
    let mut a = ant_at(Point::new(9, 9), Point::new(9, 9), vec![0, 2], true);
    assert_eq!(reset_path(&mut a, &foods), Some(vec![Point::new(9, 9)]));
    assert_eq!(a.places.places, vec![0, 2]);
}

#[test]
fn lines_go_to_unvisited_untravelled_sites() {
    let mut foods = board();
    foods[2].food.travelled = true;
    let ants = vec![
        ant_at(Point::new(0, 0), Point::new(0, 0), vec![0], false),
        ant_at(Point::new(3, 4), Point::new(3, 4), vec![1, 3], false),
    ];
    assert_eq!(lines_to_draw(&ants, &foods), vec![(0, 1), (0, 3), (1, 0)]);
}

#[test]
fn a_full_tour_keeps_the_path_ending_where_the_ant_stands() {
    let mut foods = vec![site(0, 0, 0), site(2, 3, 1)];
    let mut a = spawn_ant(&foods, 0);
    match plan_target(&a, &foods) {
        TargetPlan::Choose { candidates, weights } => {
            assert_eq!(candidates, vec![1]);
            assert_eq!(weights, vec![0]);
        }
        TargetPlan::AllVisited => panic!("one site remains"),
    }
    set_target_from_choice(&mut a, &foods, 0);
    ant_move(&mut a, &foods);
    assert_eq!(*a.path.points.last().unwrap(), a.pos);
    assert_eq!(a.places.places, vec![0, 1]);
    assert!(matches!(plan_target(&a, &foods), TargetPlan::AllVisited));
    finish_tour(&mut a, &mut foods);
    let tour = reset_path(&mut a, &foods).unwrap();
    assert_eq!(tour, vec![Point::new(0, 0), Point::new(2, 3)]);
    assert_eq!(a.path.points, vec![a.pos]);
    assert_eq!(a.places.places, vec![1]);
    assert!(!a.finished.finished);
}
