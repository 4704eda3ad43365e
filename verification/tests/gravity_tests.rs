use planet_sim::gravity::{attractors, has_distinct_names};
use planet_sim::planets::{Color, Planet};

fn bodies(names: &[&str]) -> Vec<Planet> {
    names
        .iter()
        .map(|n| Planet::new(n.to_string(), 5, Color { r: 1, g: 2, b: 3 }))
        .collect()
}

#[test]
fn every_other_body_attracts() {
    let system = bodies(&["sun", "mercury", "venus", "earth", "mars"]);
    assert_eq!(attractors(&system, 0), vec![1, 2, 3, 4]);
    assert_eq!(attractors(&system, 2), vec![0, 1, 3, 4]);
    assert_eq!(attractors(&system, 4), vec![0, 1, 2, 3]);
}

#[test]
fn no_body_attracts_itself() {
    let system = bodies(&["sun", "mercury", "venus", "earth", "mars"]);
    for i in 0..system.len() {
        let pulling = attractors(&system, i);
        assert!(!pulling.contains(&i));
        assert_eq!(pulling.len(), system.len() - 1);
    }
}

#[test]
fn attraction_is_mutual() {
    let system = bodies(&["a", "b", "a", "c"]);
    for i in 0..system.len() {
        for j in 0..system.len() {
            assert_eq!(attractors(&system, i).contains(&j), attractors(&system, j).contains(&i));
        }
    }
}

#[test]
fn a_lone_body_feels_nothing() {
    let system = bodies(&["sun"]);
    assert!(attractors(&system, 0).is_empty());
}

#[test]
fn bodies_of_one_name_do_not_attract_each_other() {
    let system = bodies(&["twin", "other", "twin"]);
    assert_eq!(attractors(&system, 0), vec![1]);
    assert_eq!(attractors(&system, 1), vec![0, 2]);
    assert_eq!(attractors(&system, 2), vec![1]);
}

#[test]
fn distinct_names_are_recognised() {
    assert!(has_distinct_names(&bodies(&[])));
    assert!(has_distinct_names(&bodies(&["sun"])));
    assert!(has_distinct_names(&bodies(&["sun", "mercury", "venus", "earth", "mars"])));
    assert!(has_distinct_names(&bodies(&["a", "A", "a "])));
}

#[test]
fn repeated_names_are_recognised() {
    assert!(!has_distinct_names(&bodies(&["sun", "sun"])));
    assert!(!has_distinct_names(&bodies(&["a", "b", "c", "a"])));
    assert!(!has_distinct_names(&bodies(&["a", "b", "c", "c"])));
    assert!(!has_distinct_names(&bodies(&["", "x", ""])));
}
