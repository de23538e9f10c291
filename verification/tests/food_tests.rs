use fourmis::food::{add_food, food_site, food_at, paint_color, Food, FoodId, FoodSite, PointColor, FOOD_AMOUNT};
use fourmis::geometry::Point;

fn site(x: i32, y: i32, id: i32) -> FoodSite {
    FoodSite { pos: Point::new(x, y), food: Food { travelled: false }, id: FoodId { id } }
}

#[test]
fn food_at_finds_the_first_site_there() {
    let foods = vec![site(1, 1, 10), site(2, 2, 20), site(2, 2, 30)];
    assert_eq!(food_at(&foods, Point::new(2, 2)), Some(20));
    assert_eq!(food_at(&foods, Point::new(1, 1)), Some(10));
    assert_eq!(food_at(&foods, Point::new(1, 2)), None);
    assert_eq!(food_at(&Vec::new(), Point::new(0, 0)), None);
}

#[test]
fn painted_red_when_travelled() {
    assert_eq!(paint_color(&Food { travelled: true }), PointColor::Red);
    assert_eq!(paint_color(&Food { travelled: false }), PointColor::White);
}

#[test]
fn board_starts_with_numbered_sites_in_bounds() {
    let foods = add_food(-400, 400, -300, 300);
    assert_eq!(foods.len(), FOOD_AMOUNT);
    assert_eq!(FOOD_AMOUNT, 100);
    for (i, f) in foods.iter().enumerate() {
        assert_eq!(f.id.id, i as i32);
        assert!(!f.food.travelled);
        assert!(-400 <= f.pos.x && f.pos.x < 400);
        assert!(-300 <= f.pos.y && f.pos.y < 300);
    }
}

#[test]
fn narrowest_board_places_every_site_on_one_point() {
    let foods = add_food(5, 6, -2, -1);
    assert!(foods.iter().all(|f| f.pos == Point::new(5, -2)));
}

#[test]
fn food_site_places_site_i_at_the_drawn_point() {
    let s = food_site(7, -3, 12);
    assert_eq!(s.pos, Point::new(-3, 12));
    assert_eq!(s.id.id, 7);
    assert!(!s.food.travelled);
}
