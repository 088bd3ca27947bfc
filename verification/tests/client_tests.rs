use wallie::client::{
    decimal_text, find_command, info_lines, parse_info_argument, render_line, ClientAction,
    InfoArgError, InfoFlag, InfoLine,
};
use wallie::schedule::Span;

fn args(list: &[&str]) -> Vec<String> {
    list.iter().map(|s| s.to_string()).collect()
}

#[test]
fn the_first_command_is_found() {
    assert_eq!(find_command(&args(&["wallie", "junk", "next", "kill"])), Some(2));
    assert_eq!(find_command(&args(&["wallie", "--help"])), Some(1));
    assert_eq!(find_command(&args(&["wallie", "nothing"])), None);
}

#[test]
fn commands_become_actions() {
    assert!(matches!(ClientAction::for_command(&"info".to_string()), ClientAction::Info));
    assert!(matches!(ClientAction::for_command(&"-h".to_string()), ClientAction::Help));
    match ClientAction::for_command(&"reload".to_string()) {
        ClientAction::Send(c) => assert_eq!(c, "reload"),
        _ => panic!("reload is sent"),
    }
}

#[test]
fn info_arguments_short_and_long() {
    assert_eq!(
        parse_info_argument(&"-wdt".to_string()).unwrap(),
        vec![InfoFlag::Wallpaper, InfoFlag::Duration, InfoFlag::TimeLeft]
    );
    assert_eq!(parse_info_argument(&"--json".to_string()).unwrap(), vec![InfoFlag::Json]);
    assert_eq!(parse_info_argument(&"-".to_string()).unwrap(), Vec::<InfoFlag>::new());
    assert_eq!(InfoFlag::TimeLeft.name(), "time-left");
    assert_eq!(InfoFlag::from_letter('e'), Some(InfoFlag::Exact));
}

#[test]
fn info_arguments_refused() {
    assert!(matches!(parse_info_argument(&"w".to_string()), Err(InfoArgError::NoDash(a)) if a == "w"));
    assert!(matches!(parse_info_argument(&"--colour".to_string()), Err(InfoArgError::UnknownName(n)) if n == "colour"));
    assert!(matches!(parse_info_argument(&"-wx".to_string()), Err(InfoArgError::UnknownLetter('x'))));
}

#[test]
fn info_lines_follow_the_flags() {
    assert_eq!(
        info_lines(&vec![]),
        vec![
            InfoLine::Wallpaper { pretty: false },
            InfoLine::Duration { pretty: false, exact: false },
            InfoLine::TimeLeft { pretty: false, exact: false },
        ]
    );
    assert_eq!(
        info_lines(&vec![InfoFlag::Json, InfoFlag::Pretty, InfoFlag::Wallpaper]),
        vec![InfoLine::Json { pretty: true }]
    );
    assert_eq!(
        info_lines(&vec![InfoFlag::TimeLeft, InfoFlag::Exact, InfoFlag::Wallpaper]),
        vec![InfoLine::Wallpaper { pretty: false }, InfoLine::TimeLeft { pretty: false, exact: true }]
    );
}

#[test]
fn decimal_text_writes_numbers() {
    assert_eq!(decimal_text(0), "0");
    assert_eq!(decimal_text(7), "7");
    assert_eq!(decimal_text(10), "10");
    assert_eq!(decimal_text(300), "300");
    assert_eq!(decimal_text(u128::MAX), u128::MAX.to_string());
}

#[test]
fn render_line_writes_each_field() {
    let d = Span { secs: 300, nanos: 0 };
    let t = Span { secs: 12, nanos: 500 };
    let w = Some("/pics/a.png".to_string());
    let line = |l: InfoLine, w: &Option<String>| render_line(l, w, d, t);
    assert_eq!(line(InfoLine::Json { pretty: true }, &w), None);
    assert_eq!(
        line(InfoLine::Wallpaper { pretty: true }, &w).unwrap(),
        "Curent wallpaper path: /pics/a.png"
    );
    assert_eq!(line(InfoLine::Wallpaper { pretty: false }, &w).unwrap(), "/pics/a.png");
    assert_eq!(
        line(InfoLine::Wallpaper { pretty: true }, &None).unwrap(),
        "Wallie does not track current wallpaper!"
    );
    assert_eq!(line(InfoLine::Wallpaper { pretty: false }, &None).unwrap(), "none");
    assert_eq!(
        line(InfoLine::Duration { pretty: true, exact: true }, &w).unwrap(),
        "Time between wallpapers in nanoseconds: 300000000000ns"
    );
    assert_eq!(
        line(InfoLine::Duration { pretty: true, exact: false }, &w).unwrap(),
        "Time between wallpapers: 300s"
    );
    assert_eq!(line(InfoLine::Duration { pretty: false, exact: false }, &w).unwrap(), "300");
    assert_eq!(
        line(InfoLine::TimeLeft { pretty: true, exact: true }, &w).unwrap(),
        "Time till next wallaper in nanoseconds: 12000000500ns"
    );
    assert_eq!(
        line(InfoLine::TimeLeft { pretty: true, exact: false }, &w).unwrap(),
        "Time till next wallpaper: 12s"
    );
    assert_eq!(line(InfoLine::TimeLeft { pretty: false, exact: true }, &w).unwrap(), "12000000500");
}
