//! The command line of the client: which command it sends, how it reads the
//! options of `info`, and which lines `info` prints.
use vstd::prelude::*;
use vstd::string::StrSliceExecFns;
use vstd::string::StringExecFns;
use crate::schedule::Span;

verus! {

/// The commands the client knows.
pub open spec fn is_command_text(s: Seq<char>) -> bool {
    ||| s == "next"@
    ||| s == "kill"@
    ||| s == "reload"@
    ||| s == "info"@
    ||| s == "img"@
    ||| s == "help"@
    ||| s == "pause"@
    ||| s == "unpause"@
    ||| s == "-h"@
    ||| s == "--help"@
}

fn is_text(s: &String, text: &str) -> (r: bool)
    ensures
        r == (s@ == text@),
{
    *s == text.to_owned()
}

/// Whether the argument is one of the client's commands.
pub fn is_command(s: &String) -> (r: bool)
    ensures
        r == is_command_text(s@),
{
    is_text(s, "next") || is_text(s, "kill") || is_text(s, "reload") || is_text(s, "info")
        || is_text(s, "img") || is_text(s, "help") || is_text(s, "pause") || is_text(s, "unpause")
        || is_text(s, "-h") || is_text(s, "--help")
}

/// The position of the first argument that is a command, if any.
pub fn find_command(args: &Vec<String>) -> (r: Option<usize>)
    ensures
        match r {
            Some(i) => i < args.len() && is_command_text(args@[i as int]@) && forall|j: int|
                0 <= j < i ==> !is_command_text(#[trigger] args@[j]@),
            None => forall|j: int| 0 <= j < args.len() ==> !is_command_text(#[trigger] args@[j]@),
        },
{
    let mut i: usize = 0;
    while i < args.len()
        invariant
            i <= args.len(),
            forall|j: int| 0 <= j < i ==> !is_command_text(#[trigger] args@[j]@),
        decreases args.len() - i,
    {
        if is_command(&args[i]) {
            return Some(i);
        }
        i = i + 1;
    }
    None
}

/// What the client does with its command.
#[derive(Debug, Clone)]
pub enum ClientAction {
    /// Ask the daemon for its state and print it.
    Info,
    /// Print the help text.
    Help,
    /// Send the command to the daemon.
    Send(String),
}

impl ClientAction {
    /// The action for a command.
    pub fn for_command(command: &String) -> (a: ClientAction)
        ensures
            command@ == "info"@ ==> a is Info,
            (command@ == "help"@ || command@ == "-h"@ || command@ == "--help"@) ==> a is Help,
            !(command@ == "info"@ || command@ == "help"@ || command@ == "-h"@ || command@
                == "--help"@) ==> (a matches ClientAction::Send(c) && c@ == command@),
    {
        proof {
            reveal_strlit("info");
            reveal_strlit("help");
            reveal_strlit("-h");
            reveal_strlit("--help");
            assert("info"@.len() == 4 && "info"@[0] == 'i');
            assert("help"@.len() == 4 && "help"@[0] == 'h');
            assert("-h"@.len() == 2);
            assert("--help"@.len() == 6);
        }
        if is_text(command, "info") {
            ClientAction::Info
        } else if is_text(command, "help") || is_text(command, "-h") || is_text(command, "--help") {
            ClientAction::Help
        } else {
            ClientAction::Send(command.clone())
        }
    }
}

/// An option of `info`.
#[derive(Debug, Clone, Copy, PartialEq, Eq, Structural)]
pub enum InfoFlag {
    Wallpaper,
    Duration,
    TimeLeft,
    Exact,
    Pretty,
    Json,
}

/// The option with the given long name.
pub open spec fn flag_named(name: Seq<char>) -> Option<InfoFlag> {
    if name == "wallpaper"@ {
        Some(InfoFlag::Wallpaper)
    } else if name == "duration"@ {
        Some(InfoFlag::Duration)
    } else if name == "time-left"@ {
        Some(InfoFlag::TimeLeft)
    } else if name == "exact"@ {
        Some(InfoFlag::Exact)
    } else if name == "pretty"@ {
        Some(InfoFlag::Pretty)
    } else if name == "json"@ {
        Some(InfoFlag::Json)
    } else {
        None
    }
}

/// The option with the given short letter.
pub open spec fn flag_letter(c: char) -> Option<InfoFlag> {
    if c == 'w' {
        Some(InfoFlag::Wallpaper)
    } else if c == 'd' {
        Some(InfoFlag::Duration)
    } else if c == 't' {
        Some(InfoFlag::TimeLeft)
    } else if c == 'e' {
        Some(InfoFlag::Exact)
    } else if c == 'p' {
        Some(InfoFlag::Pretty)
    } else if c == 'j' {
        Some(InfoFlag::Json)
    } else {
        None
    }
}

impl InfoFlag {
    /// The long name of the option.
    pub fn name(&self) -> (n: &'static str)
        ensures
            flag_named(n@) == Some(*self),
    {
        let n = match self {
            InfoFlag::Wallpaper => "wallpaper",
            InfoFlag::Duration => "duration",
            InfoFlag::TimeLeft => "time-left",
            InfoFlag::Exact => "exact",
            InfoFlag::Pretty => "pretty",
            InfoFlag::Json => "json",
        };
        proof {
            reveal_strlit("wallpaper");
            reveal_strlit("duration");
            reveal_strlit("time-left");
            reveal_strlit("exact");
            reveal_strlit("pretty");
            reveal_strlit("json");
            assert("wallpaper"@.len() == 9 && "wallpaper"@[0] == 'w');
            assert("duration"@.len() == 8);
            assert("time-left"@.len() == 9 && "time-left"@[0] == 't');
            assert("exact"@.len() == 5);
            assert("pretty"@.len() == 6);
            assert("json"@.len() == 4);
        }
        n
    }

    fn from_name(name: &String) -> (r: Option<InfoFlag>)
        ensures
            r == flag_named(name@),
    {
        if is_text(name, "wallpaper") {
            Some(InfoFlag::Wallpaper)
        } else if is_text(name, "duration") {
            Some(InfoFlag::Duration)
        } else if is_text(name, "time-left") {
            Some(InfoFlag::TimeLeft)
        } else if is_text(name, "exact") {
            Some(InfoFlag::Exact)
        } else if is_text(name, "pretty") {
            Some(InfoFlag::Pretty)
        } else if is_text(name, "json") {
            Some(InfoFlag::Json)
        } else {
            None
        }
    }

    /// The option with the given short letter.
    pub fn from_letter(c: char) -> (r: Option<InfoFlag>)
        ensures
            r == flag_letter(c),
    {
        if c == 'w' {
            Some(InfoFlag::Wallpaper)
        } else if c == 'd' {
            Some(InfoFlag::Duration)
        } else if c == 't' {
            Some(InfoFlag::TimeLeft)
        } else if c == 'e' {
            Some(InfoFlag::Exact)
        } else if c == 'p' {
            Some(InfoFlag::Pretty)
        } else if c == 'j' {
            Some(InfoFlag::Json)
        } else {
            None
        }
    }
}

/// Why an argument of `info` is refused; each is reported as
/// "Invalid argument: " and the text held.
#[derive(Debug, Clone)]
pub enum InfoArgError {
    /// The argument does not start with `-`; holds the argument.
    NoDash(String),
    /// No option has this long name; holds the name.
    UnknownName(String),
    /// No option has this letter.
    UnknownLetter(char),
}

/// Reads one argument of `info`: `--name` gives the option of that long
/// name, `-letters` the options of those letters, in order.
pub fn parse_info_argument(arg: &String) -> (r: Result<Vec<InfoFlag>, InfoArgError>)
    ensures
        arg@.len() == 0 || arg@[0] != '-' ==> (r matches Err(InfoArgError::NoDash(a)) && a@
            == arg@),
        arg@.len() >= 2 && arg@[0] == '-' && arg@[1] == '-' ==> match flag_named(
            arg@.subrange(2, arg@.len() as int),
        ) {
            Some(f) => r matches Ok(v) && v@ == seq![f],
            None => r matches Err(InfoArgError::UnknownName(n)) && n@ == arg@.subrange(
                2,
                arg@.len() as int,
            ),
        },
        arg@.len() >= 1 && arg@[0] == '-' && !(arg@.len() >= 2 && arg@[1] == '-') ==> {
            let rest = arg@.subrange(1, arg@.len() as int);
            if forall|i: int| 0 <= i < rest.len() ==> #[trigger] flag_letter(rest[i]) is Some {
                r matches Ok(v) && v@ == rest.map_values(|c: char| flag_letter(c)->0)
            } else {
                r matches Err(InfoArgError::UnknownLetter(c)) && exists|k: int|
                    0 <= k < rest.len() && rest[k] == c && flag_letter(c) is None && forall|j: int|
                        0 <= j < k ==> #[trigger] flag_letter(rest[j]) is Some
            }
        },
{
    let text = arg.as_str();
    let n = text.unicode_len();
    if n == 0 || text.get_char(0) != '-' {
        return Err(InfoArgError::NoDash(arg.clone()));
    }
    if n >= 2 && text.get_char(1) == '-' {
        let name = text.substring_char(2, n).to_owned();
        return match InfoFlag::from_name(&name) {
            Some(f) => {
                let mut v: Vec<InfoFlag> = Vec::new();
                v.push(f);
                assert(v@ =~= seq![f]);
                Ok(v)
            },
            None => Err(InfoArgError::UnknownName(name)),
        };
    }
    let ghost rest = arg@.subrange(1, arg@.len() as int);
    let mut flags: Vec<InfoFlag> = Vec::new();
    let mut i: usize = 1;
    while i < n
        invariant
            text@ == arg@,
            n == arg@.len(),
            1 <= i <= n,
            arg@[0] == '-',
            !(arg@.len() >= 2 && arg@[1] == '-'),
            rest == arg@.subrange(1, arg@.len() as int),
            flags@.len() == i - 1,
            forall|j: int| 0 <= j < i - 1 ==> #[trigger] flag_letter(rest[j]) is Some,
            forall|j: int| 0 <= j < i - 1 ==> flags@[j] == flag_letter(rest[j])->0,
        decreases n - i,
    {
        let c = text.get_char(i);
        assert(c == rest[i - 1]);
        match InfoFlag::from_letter(c) {
            Some(f) => {
                flags.push(f);
            },
            None => {
                assert(!(forall|j: int| 0 <= j < rest.len() ==> #[trigger] flag_letter(rest[j]) is Some));
                return Err(InfoArgError::UnknownLetter(c));
            },
        }
        i = i + 1;
    }
    assert(flags@ =~= rest.map_values(|c: char| flag_letter(c)->0));
    Ok(flags)
}

/// A line that `info` prints.
#[derive(Debug, Clone, Copy, PartialEq, Eq, Structural)]
pub enum InfoLine {
    /// The whole report as JSON.
    Json { pretty: bool },
    /// The path of the wallpaper on show.
    Wallpaper { pretty: bool },
    /// The time between wallpapers, in nanoseconds when exact, else in
    /// seconds.
    Duration { pretty: bool, exact: bool },
    /// The time left until the next wallpaper.
    TimeLeft { pretty: bool, exact: bool },
}

/// The lines `info` prints for the options: the JSON report alone where
/// asked for; else the fields asked for, in the order wallpaper, duration,
/// time left, or all three where none was asked for.
pub open spec fn info_plan(flags: Seq<InfoFlag>) -> Seq<InfoLine> {
    let pretty = flags.contains(InfoFlag::Pretty);
    let exact = flags.contains(InfoFlag::Exact);
    let w = flags.contains(InfoFlag::Wallpaper);
    let d = flags.contains(InfoFlag::Duration);
    let t = flags.contains(InfoFlag::TimeLeft);
    if flags.contains(InfoFlag::Json) {
        seq![InfoLine::Json { pretty }]
    } else if w || d || t {
        (if w {
            seq![InfoLine::Wallpaper { pretty }]
        } else {
            Seq::empty()
        }) + (if d {
            seq![InfoLine::Duration { pretty, exact }]
        } else {
            Seq::empty()
        }) + (if t {
            seq![InfoLine::TimeLeft { pretty, exact }]
        } else {
            Seq::empty()
        })
    } else {
        seq![
            InfoLine::Wallpaper { pretty },
            InfoLine::Duration { pretty, exact },
            InfoLine::TimeLeft { pretty, exact },
        ]
    }
}

fn has_flag(flags: &Vec<InfoFlag>, f: InfoFlag) -> (r: bool)
    ensures
        r == flags@.contains(f),
{
    let mut i: usize = 0;
    while i < flags.len()
        invariant
            i <= flags.len(),
            forall|j: int| 0 <= j < i ==> flags@[j] != f,
        decreases flags.len() - i,
    {
        if flags[i] == f {
            assert(flags@[i as int] == f);
            return true;
        }
        i = i + 1;
    }
    false
}

/// The lines `info` prints for the options.
pub fn info_lines(flags: &Vec<InfoFlag>) -> (lines: Vec<InfoLine>)
    ensures
        lines@ == info_plan(flags@),
{
    let pretty = has_flag(flags, InfoFlag::Pretty);
    let exact = has_flag(flags, InfoFlag::Exact);
    let w = has_flag(flags, InfoFlag::Wallpaper);
    let d = has_flag(flags, InfoFlag::Duration);
    let t = has_flag(flags, InfoFlag::TimeLeft);
    let mut lines: Vec<InfoLine> = Vec::new();
    if has_flag(flags, InfoFlag::Json) {
        lines.push(InfoLine::Json { pretty });
        assert(lines@ =~= info_plan(flags@));
    } else if w || d || t {
        if w {
            lines.push(InfoLine::Wallpaper { pretty });
        }
        if d {
            lines.push(InfoLine::Duration { pretty, exact });
        }
        if t {
            lines.push(InfoLine::TimeLeft { pretty, exact });
        }
        assert(lines@ =~= info_plan(flags@));
    } else {
        lines.push(InfoLine::Wallpaper { pretty });
        lines.push(InfoLine::Duration { pretty, exact });
        lines.push(InfoLine::TimeLeft { pretty, exact });
        assert(lines@ =~= info_plan(flags@));
    }
    lines
}


/// The character of a decimal digit.
pub open spec fn digit_char(d: int) -> char {
    if d == 0 {
        '0'
    } else if d == 1 {
        '1'
    } else if d == 2 {
        '2'
    } else if d == 3 {
        '3'
    } else if d == 4 {
        '4'
    } else if d == 5 {
        '5'
    } else if d == 6 {
        '6'
    } else if d == 7 {
        '7'
    } else if d == 8 {
        '8'
    } else {
        '9'
    }
}

/// The decimal text of a number, without leading zeros.
pub open spec fn decimal_text_of(n: nat) -> Seq<char>
    decreases n,
{
    if n < 10 {
        seq![digit_char(n as int)]
    } else {
        decimal_text_of(n / 10).push(digit_char((n % 10) as int))
    }
}

fn digit_str(d: u128) -> (r: &'static str)
    requires
        d < 10,
    ensures
        r@ == seq![digit_char(d as int)],
{
    proof {
        reveal_strlit("0");
        reveal_strlit("1");
        reveal_strlit("2");
        reveal_strlit("3");
        reveal_strlit("4");
        reveal_strlit("5");
        reveal_strlit("6");
        reveal_strlit("7");
        reveal_strlit("8");
        reveal_strlit("9");
    }
    if d == 0 {
        "0"
    } else if d == 1 {
        "1"
    } else if d == 2 {
        "2"
    } else if d == 3 {
        "3"
    } else if d == 4 {
        "4"
    } else if d == 5 {
        "5"
    } else if d == 6 {
        "6"
    } else if d == 7 {
        "7"
    } else if d == 8 {
        "8"
    } else {
        "9"
    }
}

/// The decimal text of a number.
pub fn decimal_text(n: u128) -> (s: String)
    ensures
        s@ == decimal_text_of(n as nat),
    decreases n,
{
    if n < 10 {
        digit_str(n).to_owned()
    } else {
        let mut s = decimal_text(n / 10);
        s.append(digit_str(n % 10));
        s
    }
}

/// A span in whole seconds, or in nanoseconds when `exact`.
pub open spec fn span_number(s: Span, exact: bool) -> nat {
    if exact {
        s.total() as nat
    } else {
        s.secs as nat
    }
}

/// The text of a line of `info`, given the state the daemon reported;
/// `None` for the JSON report, which is the whole state serialised.
pub open spec fn line_text(
    line: InfoLine,
    wallpaper: Option<Seq<char>>,
    duration: Span,
    time_left: Span,
) -> Option<Seq<char>> {
    match line {
        InfoLine::Json { .. } => None,
        InfoLine::Wallpaper { pretty } => Some(
            match wallpaper {
                Some(w) => if pretty {
                    "Curent wallpaper path: "@ + w
                } else {
                    w
                },
                None => if pretty {
                    "Wallie does not track current wallpaper!"@
                } else {
                    "none"@
                },
            },
        ),
        InfoLine::Duration { pretty, exact } => {
            let n = decimal_text_of(span_number(duration, exact));
            Some(
                if !pretty {
                    n
                } else if exact {
                    "Time between wallpapers in nanoseconds: "@ + n + "ns"@
                } else {
                    "Time between wallpapers: "@ + n + "s"@
                },
            )
        },
        InfoLine::TimeLeft { pretty, exact } => {
            let n = decimal_text_of(span_number(time_left, exact));
            Some(
                if !pretty {
                    n
                } else if exact {
                    "Time till next wallaper in nanoseconds: "@ + n + "ns"@
                } else {
                    "Time till next wallpaper: "@ + n + "s"@
                },
            )
        },
    }
}

fn span_text(s: &Span, exact: bool) -> (t: String)
    requires
        s.wf(),
    ensures
        t@ == decimal_text_of(span_number(*s, exact)),
{
    if exact {
        decimal_text(s.as_nanos())
    } else {
        decimal_text(s.as_secs() as u128)
    }
}

fn labelled(label: &str, number: String, unit: &str) -> (t: String)
    ensures
        t@ == label@ + number@ + unit@,
{
    let mut t = label.to_owned();
    t.append(number.as_str());
    t.append(unit);
    t
}

/// The text that `info` prints for a line, given the state the daemon
/// reported; `None` for the JSON report.
pub fn render_line(line: InfoLine, wallpaper: &Option<String>, duration: Span, time_left: Span) -> (r:
    Option<String>)
    requires
        duration.wf(),
        time_left.wf(),
    ensures
        match r {
            Some(t) => line_text(
                line,
                match wallpaper {
                    Some(w) => Some(w@),
                    None => None,
                },
                duration,
                time_left,
            ) == Some(t@),
            None => line_text(
                line,
                match wallpaper {
                    Some(w) => Some(w@),
                    None => None,
                },
                duration,
                time_left,
            ) is None,
        },
{
    match line {
        InfoLine::Json { .. } => None,
        InfoLine::Wallpaper { pretty } => Some(
            match wallpaper {
                Some(w) => if pretty {
                    let mut t = "Curent wallpaper path: ".to_owned();
                    t.append(w.as_str());
                    t
                } else {
                    w.clone()
                },
                None => if pretty {
                    "Wallie does not track current wallpaper!".to_owned()
                } else {
                    "none".to_owned()
                },
            },
        ),
        InfoLine::Duration { pretty, exact } => {
            let n = span_text(&duration, exact);
            Some(
                if !pretty {
                    n
                } else if exact {
                    labelled("Time between wallpapers in nanoseconds: ", n, "ns")
                } else {
                    labelled("Time between wallpapers: ", n, "s")
                },
            )
        },
        InfoLine::TimeLeft { pretty, exact } => {
            let n = span_text(&time_left, exact);
            Some(
                if !pretty {
                    n
                } else if exact {
                    labelled("Time till next wallaper in nanoseconds: ", n, "ns")
                } else {
                    labelled("Time till next wallpaper: ", n, "s")
                },
            )
        },
    }
}

} // verus!
