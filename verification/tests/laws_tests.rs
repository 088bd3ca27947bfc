use wallie::dataset::{Database, Tag, Wallpaper};
use wallie::loader::Heap;
use wallie::rules::Rule;

fn tags(names: &[&str]) -> Vec<Tag> {
    names.iter().map(|n| Tag::new(n.to_string())).collect()
}

fn wall(name: &str, names: &[&str]) -> Wallpaper {
    Wallpaper::new_with_name(name.to_string(), format!("/pics/{}", name), tags(names))
}

fn db() -> Database {
    Database {
        tags: Vec::new(),
        wallpapers: vec![wall("a.png", &["x"]), wall("b.png", &["y", "x"]), wall("a.png", &["x"])],
        rules: vec![
            Rule::new("rx".to_string(), 2, 1, false, tags(&["x", "x"])),
            Rule::new("ry".to_string(), 3, 1, false, tags(&["y"])),
            Rule::new("low".to_string(), 9, 0, false, tags(&["z"])),
        ],
    }
}

#[test]
fn tag_table_holds_each_tag_once() {
    let d = db();
    let t = d.generate(&d.rules);
    let names: Vec<&str> = t.tags.iter().map(|t| t.name.as_str()).collect();
    assert_eq!(names, vec!["x", "y"]);
    assert_eq!(t.weights, vec![4, 3]);
}

#[test]
fn rules_at_the_top_level_are_active_and_lower_ones_are_not() {
    let d = db();
    let t = d.generate(&d.rules);
    assert!(t.tags.iter().any(|t| t.name == "x"));
    assert!(t.tags.iter().any(|t| t.name == "y"));
    assert!(!t.tags.iter().any(|t| t.name == "z"));
}

#[test]
fn selected_wallpapers_are_distinct_and_carry_an_active_tag() {
    let d = db();
    let (walls, weights, _) = d.select_walls(&vec![true, true, true], &Vec::new()).unwrap();
    let names: Vec<&str> = walls.iter().map(|w| w.name().as_str()).collect();
    assert_eq!(names, vec!["a.png", "b.png"]);
    assert_eq!(weights, vec![8, 7]);
}

#[test]
fn reloading_twice_is_reloading_once() {
    let mut h = Heap::generate(db());
    h.reload_with(&vec![false, true, true]);
    let first: Vec<String> = h.wallpapers().iter().map(|w| w.name().clone()).collect();
    let rules = h.current_rules().len();
    h.reload_with(&vec![false, true, true]);
    let second: Vec<String> = h.wallpapers().iter().map(|w| w.name().clone()).collect();
    assert_eq!(first, second);
    assert_eq!(rules, h.current_rules().len());
    assert_eq!(first, vec!["b.png".to_string()]);
}

#[test]
fn weights_add_up_within_a_level() {
    let d = Database {
        tags: Vec::new(),
        wallpapers: vec![wall("a.png", &["x", "y"]), wall("b.png", &["y"])],
        rules: vec![
            Rule::new("r1".to_string(), 2, 3, false, tags(&["x", "y", "x"])),
            Rule::new("r2".to_string(), 5, 3, true, tags(&["y"])),
        ],
    };
    let t = d.generate(&d.rules);
    assert_eq!(t.weights, vec![4, 7]);
    assert_eq!(t.levels, vec![3, 3]);
    let (walls, weights, _) = d.select_walls(&vec![true, true], &Vec::new()).unwrap();
    assert_eq!(walls.len(), 2);
    assert_eq!(weights, vec![11, 7]);
}

#[test]
fn the_higher_level_decides_a_tags_weight() {
    let d = Database {
        tags: Vec::new(),
        wallpapers: Vec::new(),
        rules: vec![
            Rule::new("low".to_string(), 9, 1, true, tags(&["x"])),
            Rule::new("high".to_string(), 2, 4, true, tags(&["x", "y"])),
            Rule::new("high2".to_string(), 3, 4, true, tags(&["x"])),
            Rule::new("low2".to_string(), 8, 1, true, tags(&["y", "z"])),
        ],
    };
    let t = d.generate(&d.rules);
    let names: Vec<&str> = t.tags.iter().map(|t| t.name.as_str()).collect();
    assert_eq!(names, vec!["x", "y", "z"]);
    assert_eq!(t.weights, vec![5, 2, 8]);
    assert_eq!(t.levels, vec![4, 4, 1]);
}

#[test]
fn the_higher_level_decides_a_wallpapers_weight() {
    let d = Database {
        tags: Vec::new(),
        wallpapers: vec![wall("a.png", &["z", "x", "y"]), wall("b.png", &["z"])],
        rules: vec![
            Rule::new("low".to_string(), 9, 1, true, tags(&["z"])),
            Rule::new("high".to_string(), 2, 4, true, tags(&["x", "y"])),
        ],
    };
    let (walls, weights, _) = d.select_walls(&vec![true, true], &Vec::new()).unwrap();
    assert_eq!(walls.len(), 2);
    assert_eq!(weights, vec![4, 9]);
}
