use rand::rngs::SmallRng;
use rand::SeedableRng;
use wallie::dataset::{Database, Tag, Wallpaper};
use wallie::loader::{Heap, NextStep, Simple, SimpleStep, MAX_FILE_CHECKS};
use wallie::rules::{Condition, Rule};

fn tags(names: &[&str]) -> Vec<Tag> {
    names.iter().map(|n| Tag::new(n.to_string())).collect()
}

fn wall(name: &str, names: &[&str]) -> Wallpaper {
    Wallpaper::new_with_name(name.to_string(), format!("/pics/{}", name), tags(names))
}

fn db(weights: (u32, u32)) -> Database {
    Database {
        tags: tags(&["dark", "light"]),
        wallpapers: vec![wall("a.png", &["dark"]), wall("b.png", &["light"]), wall("c.png", &["none"])],
        rules: vec![
            Rule::new("dark".to_string(), weights.0, 0, false, tags(&["dark"])),
            Rule::new("light".to_string(), weights.1, 0, false, tags(&["light"])),
        ],
    }
}

#[test]
fn heap_default_is_empty() {
    let h = Heap::default();
    assert!(h.wallpapers().is_empty());
    assert!(!h.has_distribution());
    assert!(h.current_rules().is_empty());
}

#[test]
fn heap_generated_from_the_default_database_is_empty() {
    let h = Heap::generate(Database::default());
    assert!(h.wallpapers().is_empty());
    assert!(!h.has_distribution());
    assert!(h.current_rules().is_empty());
    assert!(h.database().tags.is_empty());
    assert!(h.database().wallpapers.is_empty());
    assert!(h.database().rules.is_empty());
}

#[test]
fn heap_keeps_the_database_tags() {
    let h = Heap::generate(db((1, 2)));
    let names: Vec<&str> = h.database().tags.iter().map(|t| t.name.as_str()).collect();
    assert_eq!(names, vec!["dark", "light"]);
}

#[test]
fn heap_generate_loads_the_active_wallpapers() {
    let h = Heap::generate(db((1, 2)));
    let names: Vec<&str> = h.wallpapers().iter().map(|w| w.name().as_str()).collect();
    assert_eq!(names, vec!["a.png", "b.png"]);
    assert!(h.has_distribution());
    assert_eq!(h.current_rules().len(), 2);
}

#[test]
fn heap_without_positive_weight_has_no_distribution() {
    let h = Heap::generate(db((0, 0)));
    assert_eq!(h.wallpapers().len(), 2);
    assert!(!h.has_distribution());
}

#[test]
fn heap_reload_with_switches_rules() {
    let mut h = Heap::generate(db((1, 2)));
    h.reload_with(&vec![false, true]);
    let names: Vec<&str> = h.wallpapers().iter().map(|w| w.name().as_str()).collect();
    assert_eq!(names, vec!["b.png"]);
    assert_eq!(h.current_rules()[0].name(), "light");
    h.reload_with(&vec![false, false]);
    assert!(h.wallpapers().is_empty());
    assert!(!h.has_distribution());
}

#[test]
fn heap_draws_only_positive_weights() {
    let mut h = Heap::generate(db((0, 5)));
    let mut rng = SmallRng::seed_from_u64(7);
    for _ in 0..50 {
        match h.begin_next(&mut rng) {
            NextStep::Check { index, path, failures } => {
                assert_eq!(index, 1);
                assert_eq!(path, "/pics/b.png");
                assert_eq!(failures, 0);
            }
            other => panic!("unexpected step {:?}", other),
        }
    }
}

#[test]
fn heap_after_check_delivers_or_redraws() {
    let h = Heap::generate(db((3, 0)));
    let mut rng = SmallRng::seed_from_u64(1);
    match h.after_check(&mut rng, 0, 0, true) {
        NextStep::Deliver(p) => assert_eq!(p, "/pics/a.png"),
        other => panic!("unexpected step {:?}", other),
    }
    match h.after_check(&mut rng, 0, 0, false) {
        NextStep::Check { index, failures, .. } => {
            assert_eq!(index, 0);
            assert_eq!(failures, 1);
        }
        other => panic!("unexpected step {:?}", other),
    }
    match h.after_check(&mut rng, 0, MAX_FILE_CHECKS - 1, false) {
        NextStep::Deliver(p) => assert_eq!(p, "/pics/a.png"),
        other => panic!("unexpected step {:?}", other),
    }
}

#[test]
fn heap_without_distribution_reloads_then_delivers_the_first() {
    let mut h = Heap::generate(db((0, 0)));
    let mut rng = SmallRng::seed_from_u64(3);
    match h.begin_next(&mut rng) {
        NextStep::Deliver(p) => assert_eq!(p, "/pics/a.png"),
        other => panic!("unexpected step {:?}", other),
    }
    let mut empty = Heap::generate(Database {
        tags: Vec::new(),
        wallpapers: Vec::new(),
        rules: vec![Rule::with_condition("never".to_string(), 1, 0, false, Vec::new(), Condition::Never)],
    });
    assert!(matches!(empty.begin_next(&mut rng), NextStep::Empty));
}

#[test]
fn simple_draws_from_its_pictures() {
    let s = Simple::from_directory(
        "/pics".to_string(),
        vec!["/pics/a.png".to_string(), "/pics/b.png".to_string()],
        vec![0, 1],
    );
    assert_eq!(s.directories(), &vec!["/pics".to_string()]);
    let mut rng = SmallRng::seed_from_u64(11);
    for _ in 0..20 {
        assert_eq!(s.pick(&mut rng), "/pics/b.png");
    }
}

#[test]
fn simple_reload_with_replaces_pictures() {
    let mut s = Simple::from_directory("/pics".to_string(), vec!["/pics/a.png".to_string()], vec![1]);
    s.reload_with(vec!["/pics/c.png".to_string()], vec![1]);
    let mut rng = SmallRng::seed_from_u64(2);
    assert_eq!(s.pick(&mut rng), "/pics/c.png");
    assert_eq!(s.directories().len(), 1);
}

#[test]
fn simple_after_check_delivers_or_rescans() {
    let p = "/pics/a.png".to_string();
    match Simple::after_check(p.clone(), true) {
        SimpleStep::Deliver(q) => assert_eq!(q, p),
        SimpleStep::Rescan => panic!("an existing file was not delivered"),
    }
    assert!(matches!(Simple::after_check(p, false), SimpleStep::Rescan));
}
