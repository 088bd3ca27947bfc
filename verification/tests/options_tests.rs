use wallie::options::{parse_u64, ArgumentError, ModeChoice, Options, Request};
use wallie::renderers::Renderer;

fn args(list: &[&str]) -> Vec<String> {
    list.iter().map(|s| s.to_string()).collect()
}

#[test]
fn parse_u64_reads_decimal_numbers() {
    assert_eq!(parse_u64(&"300".to_string()), Some(300));
    assert_eq!(parse_u64(&"+7".to_string()), Some(7));
    assert_eq!(parse_u64(&"007".to_string()), Some(7));
    assert_eq!(parse_u64(&"18446744073709551615".to_string()), Some(u64::MAX));
    assert_eq!(parse_u64(&"18446744073709551616".to_string()), None);
    assert_eq!(parse_u64(&"".to_string()), None);
    assert_eq!(parse_u64(&"+".to_string()), None);
    assert_eq!(parse_u64(&"-1".to_string()), None);
    assert_eq!(parse_u64(&"1 ".to_string()), None);
    assert_eq!(parse_u64(&"12a".to_string()), None);
}

#[test]
fn defaults_without_options() {
    let a = args(&["wallie-daemon"]);
    assert!(Options::check(&a).is_ok());
    let o = Options::parse(&a);
    assert_eq!(o.duration.as_secs(), 300);
    assert!(matches!(o.renderer, Renderer::Auto));
    assert!(matches!(o.mode, ModeChoice::Heap));
}

#[test]
fn simple_mode_with_duration_and_renderer() {
    let a = args(&["wallie-daemon", "--simple", "-d", "60", "-r", "swaybg", "/home/u/pics"]);
    assert!(Options::check(&a).is_ok());
    let o = Options::parse(&a);
    assert_eq!(o.duration.as_secs(), 60);
    assert!(matches!(o.renderer, Renderer::Swaybg));
    match o.mode {
        ModeChoice::Simple(dir) => assert_eq!(dir, "/home/u/pics"),
        ModeChoice::Heap => panic!("expected simple mode"),
    }
}

#[test]
fn unknown_renderer_names_choose_auto() {
    let o = Options::parse(&args(&["d", "-r", "kde"]));
    assert!(matches!(o.renderer, Renderer::Auto));
    assert_eq!(o.invalid_renderer, Some("kde".to_string()));
    let o = Options::parse(&args(&["d", "-r", "auto"]));
    assert!(o.invalid_renderer.is_none());
    let o = Options::parse(&args(&["d", "-r", "awww"]));
    assert!(matches!(o.renderer, Renderer::Awww));
}

#[test]
fn check_reports_unreadable_arguments() {
    assert_eq!(Options::check(&args(&["d", "-d"])), Err(ArgumentError::MissingDuration));
    assert_eq!(Options::check(&args(&["d", "-d", "soon"])), Err(ArgumentError::InvalidDuration));
    assert_eq!(Options::check(&args(&["d", "-r"])), Err(ArgumentError::MissingRenderer));
}

#[test]
fn check_asks_for_the_help_on_h_or_help() {
    assert_eq!(Options::check(&args(&["d", "-h"])), Err(ArgumentError::HelpRequested));
    assert_eq!(Options::check(&args(&["d", "--help"])), Err(ArgumentError::HelpRequested));
    assert_eq!(
        Options::check(&args(&["d", "--simple", "-d", "5", "-h", "/pics"])),
        Err(ArgumentError::HelpRequested)
    );
    assert_eq!(Options::check(&args(&["d", "-d", "-h"])), Err(ArgumentError::HelpRequested));
    assert_eq!(Options::check(&args(&["d", "--simple", "/pics"])), Ok(()));
}

#[test]
fn requests_from_text() {
    assert_eq!(Request::from_text(&"kill".to_string()), Request::Kill);
    assert_eq!(Request::from_text(&"next".to_string()), Request::Next);
    assert_eq!(Request::from_text(&"reload".to_string()), Request::Reload);
    assert_eq!(Request::from_text(&"info".to_string()), Request::Info);
    assert_eq!(Request::from_text(&"pause".to_string()), Request::Tick);
}
