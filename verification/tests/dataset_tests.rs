use wallie::dataset::{Database, Tag, Wallpaper, WallpaperType, WeightOverflow};
use wallie::rules::Rule;

fn tag(name: &str) -> Tag {
    Tag::new(name.to_string())
}

fn tags(names: &[&str]) -> Vec<Tag> {
    names.iter().map(|n| tag(n)).collect()
}

fn rule(name: &str, weight: u32, level: u8, transparent: bool, names: &[&str]) -> Rule {
    Rule::new(name.to_string(), weight, level, transparent, tags(names))
}

fn wall(name: &str, names: &[&str]) -> Wallpaper {
    Wallpaper::new_with_name(name.to_string(), format!("/pics/{}", name), tags(names))
}

fn table(db: &Database, rules: &Vec<Rule>) -> Vec<(String, u32, u8)> {
    let t = db.generate(rules);
    t.tags
        .iter()
        .zip(t.weights.iter())
        .zip(t.levels.iter())
        .map(|((tg, w), l)| (tg.name.clone(), *w, *l))
        .collect()
}

#[test]
fn wallpaper_new_takes_the_file_name() {
    let w = Wallpaper::new("/home/user/pics/sunset.png".to_string(), tags(&["dark"]));
    assert_eq!(w.name(), "sunset.png");
    assert_eq!(w.path, "/home/user/pics/sunset.png");
    assert_eq!(w.kind(), WallpaperType::Picture);
    assert_eq!(w.tags().len(), 1);
}

#[test]
fn wallpaper_try_new_refuses_paths_without_a_file_name() {
    assert!(Wallpaper::try_new("/".to_string(), Vec::new()).is_none());
    assert!(Wallpaper::try_new("pics/..".to_string(), Vec::new()).is_none());
    let w = Wallpaper::try_new("pics/a.jpg".to_string(), Vec::new()).unwrap();
    assert_eq!(w.name(), "a.jpg");
}

#[test]
fn wallpaper_names_follow_the_path_components() {
    let name = |p: &str| Wallpaper::try_new(p.to_string(), Vec::new()).map(|w| w.name().clone());
    assert_eq!(name("/usr/bin/"), Some("bin".to_string()));
    assert_eq!(name("pics/a.png/."), Some("a.png".to_string()));
    assert_eq!(name("pics/a.png/.//"), Some("a.png".to_string()));
    assert_eq!(name("./a.png"), Some("a.png".to_string()));
    assert_eq!(name("."), None);
    assert_eq!(name(""), None);
    assert_eq!(name(".."), None);
}

#[test]
fn wallpapers_compare_paths_with_dots_and_roots() {
    let at = |p: &str| Wallpaper::new_with_name("a".to_string(), p.to_string(), Vec::new());
    assert!(at("pics/./a.png").same_as(&at("pics/a.png/")));
    assert!(!at("./pics/a.png").same_as(&at("pics/a.png")));
    assert!(!at("/pics/a.png").same_as(&at("pics/a.png")));
    assert!(!at("pics/../a.png").same_as(&at("a.png")));
}

#[test]
fn wallpaper_new_with_name_keeps_the_name() {
    let w = Wallpaper::new_with_name("Moon".to_string(), "/x/y.png".to_string(), Vec::new());
    assert_eq!(w.name(), "Moon");
    assert_eq!(w.path, "/x/y.png");
}

#[test]
fn wallpapers_compare_paths_by_component() {
    let a = Wallpaper::new_with_name("a".to_string(), "/pics/a.png".to_string(), tags(&["x"]));
    let b = Wallpaper::new_with_name("a".to_string(), "/pics//a.png".to_string(), tags(&["x"]));
    let c = Wallpaper::new_with_name("a".to_string(), "/pics/b.png".to_string(), tags(&["x"]));
    let d = Wallpaper::new_with_name("a".to_string(), "/pics/a.png".to_string(), tags(&["y"]));
    assert!(a.same_as(&b));
    assert!(!a.same_as(&c));
    assert!(!a.same_as(&d));
}

#[test]
fn generate_adds_weights_at_the_same_level() {
    let db = Database::default();
    let rules = vec![rule("a", 2, 1, false, &["dark", "anime"]), rule("b", 3, 1, false, &["dark"])];
    assert_eq!(
        table(&db, &rules),
        vec![("dark".to_string(), 5, 1), ("anime".to_string(), 2, 1)]
    );
}

#[test]
fn generate_ignores_rules_below_an_opaque_rule() {
    let db = Database::default();
    let rules = vec![
        rule("low", 7, 0, false, &["day"]),
        rule("high", 1, 2, false, &["night"]),
        rule("mid", 4, 1, true, &["christmas"]),
    ];
    assert_eq!(table(&db, &rules), vec![("night".to_string(), 1, 2)]);
}

#[test]
fn generate_keeps_rules_above_a_transparent_one() {
    let db = Database::default();
    let rules = vec![
        rule("base", 1, 0, false, &["day"]),
        rule("overlay", 5, 3, true, &["snow"]),
    ];
    assert_eq!(
        table(&db, &rules),
        vec![("day".to_string(), 1, 0), ("snow".to_string(), 5, 3)]
    );
}

#[test]
fn generate_lets_the_higher_level_decide() {
    let db = Database::default();
    let rules = vec![
        rule("a", 2, 0, true, &["dark"]),
        rule("b", 3, 1, true, &["dark"]),
        rule("c", 4, 1, true, &["dark"]),
        rule("d", 6, 0, true, &["dark"]),
    ];
    assert_eq!(table(&db, &rules), vec![("dark".to_string(), 7, 1)]);
}

#[test]
fn generate_gives_a_tag_the_weight_of_its_higher_rule_in_either_order() {
    let db = Database::default();
    let hi = rule("hi", 5, 2, true, &["t"]);
    let lo = rule("lo", 1, 1, true, &["t"]);
    assert_eq!(table(&db, &vec![hi.clone(), lo.clone()]), vec![("t".to_string(), 5, 2)]);
    assert_eq!(table(&db, &vec![lo, hi]), vec![("t".to_string(), 5, 2)]);
}

#[test]
fn generate_of_no_rules_is_empty() {
    let db = Database::default();
    assert!(table(&db, &Vec::new()).is_empty());
}

fn sample_db() -> Database {
    Database {
        tags: tags(&["dark", "light", "anime"]),
        wallpapers: vec![
            wall("night.png", &["dark"]),
            wall("both.png", &["dark", "light"]),
            wall("day.png", &["light"]),
            wall("other.png", &["anime"]),
        ],
        rules: vec![
            rule("night", 3, 0, false, &["dark"]),
            rule("day", 5, 0, false, &["light"]),
        ],
    }
}

#[test]
fn select_walls_weighs_by_active_rules() {
    let db = sample_db();
    let (walls, weights, active) = db.select_walls(&vec![true, false], &Vec::new()).unwrap();
    let names: Vec<&str> = walls.iter().map(|w| w.name().as_str()).collect();
    assert_eq!(names, vec!["night.png", "both.png"]);
    assert_eq!(weights, vec![3, 3]);
    assert_eq!(active.len(), 1);
    assert_eq!(active[0].name(), "night");
}

#[test]
fn select_walls_adds_the_weights_of_several_tags() {
    let db = sample_db();
    let (walls, weights, active) = db.select_walls(&vec![true, true], &Vec::new()).unwrap();
    let names: Vec<&str> = walls.iter().map(|w| w.name().as_str()).collect();
    assert_eq!(names, vec!["night.png", "both.png", "day.png"]);
    assert_eq!(weights, vec![3, 8, 5]);
    assert_eq!(active.len(), 2);
}

#[test]
fn select_walls_is_none_when_rules_are_unchanged() {
    let db = sample_db();
    let current = vec![rule("night", 3, 0, false, &["dark"])];
    assert!(db.select_walls(&vec![true, false], &current).is_none());
    let other = vec![rule("night", 4, 0, false, &["dark"])];
    assert!(db.select_walls(&vec![true, false], &other).is_some());
}

#[test]
fn select_walls_reports_a_change_to_no_rules() {
    let db = sample_db();
    let current = vec![rule("night", 3, 0, false, &["dark"])];
    let (walls, weights, active) = db.select_walls(&vec![false, false], &current).unwrap();
    assert!(walls.is_empty());
    assert!(weights.is_empty());
    assert!(active.is_empty());
}

#[test]
fn select_walls_lets_the_higher_level_decide_in_either_tag_order() {
    let db = Database {
        tags: Vec::new(),
        wallpapers: vec![wall("w.png", &["a", "b"]), wall("v.png", &["b", "a"])],
        rules: vec![rule("ra", 2, 0, true, &["a"]), rule("rb", 7, 1, true, &["b"])],
    };
    let (walls, weights, _) = db.select_walls(&vec![true, true], &Vec::new()).unwrap();
    assert_eq!(walls.len(), 2);
    // Both wallpapers carry `b` at level 1, which outranks `a` at level 0.
    assert_eq!(weights, vec![7, 7]);
}

#[test]
fn get_walls_weighs_a_wallpaper_by_its_higher_level_tag() {
    let a = tag("a");
    let b = tag("b");
    let hi = Rule::new("hi".to_string(), 5, 2, true, vec![a.clone()]);
    let lo = Rule::new("lo".to_string(), 1, 1, true, vec![b.clone()]);
    let x = Wallpaper::new_with_name("x".to_string(), "/x.png".to_string(), vec![a, b]);
    let db = Database { tags: vec![], wallpapers: vec![x], rules: vec![hi, lo] };
    let (walls, weights, active) = db.get_walls(&Vec::new()).unwrap();
    assert_eq!(walls.len(), 1);
    assert_eq!(walls[0].name(), "x");
    assert_eq!(weights, vec![5]);
    let names: Vec<&str> = active.iter().map(|r| r.name().as_str()).collect();
    assert_eq!(names, vec!["hi", "lo"]);
}

#[test]
fn select_walls_adds_tags_that_share_the_top_level() {
    let db = Database {
        tags: Vec::new(),
        wallpapers: vec![wall("w.png", &["a", "c", "b"])],
        rules: vec![
            rule("ra", 2, 1, true, &["a"]),
            rule("rb", 7, 0, true, &["b"]),
            rule("rc", 3, 1, true, &["c"]),
        ],
    };
    let (_, weights, _) = db.select_walls(&vec![true, true, true], &Vec::new()).unwrap();
    assert_eq!(weights, vec![5]);
}

#[test]
fn select_walls_counts_a_repeated_wallpaper_once() {
    let db = Database {
        tags: Vec::new(),
        wallpapers: vec![wall("w.png", &["a"]), wall("w.png", &["a"])],
        rules: vec![rule("ra", 2, 0, false, &["a"])],
    };
    let (walls, weights, _) = db.select_walls(&vec![true], &Vec::new()).unwrap();
    assert_eq!(walls.len(), 1);
    assert_eq!(weights, vec![4]);
}

#[test]
fn get_walls_with_always_rules() {
    let db = sample_db();
    let (walls, weights, active) = db.get_walls(&Vec::new()).unwrap();
    assert_eq!(walls.len(), 3);
    assert_eq!(weights, vec![3, 8, 5]);
    assert_eq!(active.len(), 2);
    assert!(db.get_walls(&active).is_none());
}

#[test]
fn get_walls_gives_up_on_overflowing_weights() {
    let db = Database {
        tags: Vec::new(),
        wallpapers: vec![wall("w.png", &["a", "a"])],
        rules: vec![rule("ra", u32::MAX / 2 + 1, 0, false, &["a"])],
    };
    assert!(db.get_walls(&Vec::new()).is_none());
}

#[test]
fn rule_load_returns_tags_weight_and_level() {
    let r = rule("r", 9, 4, true, &["x", "y"]);
    let (t, w, l) = r.load();
    assert_eq!(t.iter().map(|t| t.name.as_str()).collect::<Vec<_>>(), vec!["x", "y"]);
    assert_eq!(w, 9);
    assert_eq!(l, 4);
    assert!(r.is_transparent());
    assert!(r.is_true());
}

#[test]
fn get_walls_checked_tells_overflow_from_no_change() {
    let db = Database {
        tags: Vec::new(),
        wallpapers: vec![wall("w.png", &["a", "a"])],
        rules: vec![rule("ra", u32::MAX / 2 + 1, 0, false, &["a"])],
    };
    assert_eq!(db.get_walls_checked(&Vec::new()).err(), Some(WeightOverflow));
    assert_eq!(db.select_checked(&vec![true], &Vec::new()).err(), Some(WeightOverflow));
    let ok = sample_db();
    let (_, _, active) = ok.get_walls_checked(&Vec::new()).unwrap().unwrap();
    assert!(ok.get_walls_checked(&active).unwrap().is_none());
}
