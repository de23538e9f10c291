use fourmis::chemin::{only_keep_shortest, DeltaLen};

#[test]
fn keeps_every_tour_of_the_shortest_length() {
    let mut lon = DeltaLen::new();
    let keep = only_keep_shortest(&vec![7, 3, 9, 3], &mut lon);
    assert_eq!(keep, vec![false, true, false, true]);
    assert_eq!(lon.value, Some(vec![3]));
}

#[test]
fn history_grows_by_one_per_round() {
    let mut lon = DeltaLen::new();
    only_keep_shortest(&vec![10], &mut lon);
    only_keep_shortest(&vec![-4, 8], &mut lon);
    assert_eq!(lon.value, Some(vec![10, -4]));
}

#[test]
fn no_tour_changes_nothing() {
    let mut lon = DeltaLen::new();
    assert!(only_keep_shortest(&Vec::new(), &mut lon).is_empty());
    assert_eq!(lon.value, None);
    let mut lon2 = DeltaLen { value: Some(vec![5]) };
    assert!(only_keep_shortest(&Vec::new(), &mut lon2).is_empty());
    assert_eq!(lon2.value, Some(vec![5]));
}

#[test]
fn existing_empty_history_is_extended() {
    let mut lon = DeltaLen { value: Some(Vec::new()) };
    let keep = only_keep_shortest(&vec![2, 2], &mut lon);
    assert_eq!(keep, vec![true, true]);
    assert_eq!(lon.value, Some(vec![2]));
}
