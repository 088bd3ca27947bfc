//! The command line of the daemon and the requests it answers.
use vstd::prelude::*;
use vstd::string::StrSliceExecFns;
use crate::renderers::Renderer;
use crate::schedule::Span;
use crate::tables::{first_index, is_first_index, lemma_first_index_found, lemma_first_index_absent};

verus! {

/// The value of a string of decimal digits.
pub open spec fn digits_value(s: Seq<char>) -> int
    decreases s.len(),
{
    if s.len() == 0 {
        0
    } else {
        digits_value(s.drop_last()) * 10 + (s.last() as int - '0' as int)
    }
}

/// Every character is a decimal digit.
pub open spec fn all_digits(s: Seq<char>) -> bool {
    forall|i: int| 0 <= i < s.len() ==> '0' <= #[trigger] s[i] <= '9'
}

/// The number that `u64::from_str` reads from `s`: an optional `+`, then at
/// least one decimal digit and nothing else, with a value that fits.
pub open spec fn decimal_value(s: Seq<char>) -> Option<u64> {
    let body = if s.len() > 0 && s[0] == '+' {
        s.drop_first()
    } else {
        s
    };
    if body.len() > 0 && all_digits(body) && digits_value(body) <= u64::MAX {
        Some(digits_value(body) as u64)
    } else {
        None
    }
}

proof fn lemma_digits_value_grows(s: Seq<char>, k: int)
    requires
        all_digits(s),
        0 <= k <= s.len(),
    ensures
        0 <= digits_value(s.take(k)) <= digits_value(s),
    decreases s.len(),
{
    if k == s.len() {
        assert(s.take(k) =~= s);
    } else {
        assert(s.drop_last().take(k) =~= s.take(k));
        assert(all_digits(s.drop_last()));
        lemma_digits_value_grows(s.drop_last(), k);
    }
    if s.len() > 0 {
        assert(all_digits(s.drop_last()));
        lemma_digits_value_grows(s.drop_last(), s.len() - 1);
        assert(s.drop_last().take(s.len() - 1) =~= s.drop_last());
    }
}

/// Reads a `u64` as `u64::from_str` does.
pub fn parse_u64(s: &String) -> (r: Option<u64>)
    ensures
        r == decimal_value(s@),
{
    let text = s.as_str();
    let n = text.unicode_len();
    let mut i: usize = 0;
    if n > 0 && text.get_char(0) == '+' {
        i = 1;
    }
    let ghost body = if s@.len() > 0 && s@[0] == '+' {
        s@.drop_first()
    } else {
        s@
    };
    let start = i;
    assert(body =~= s@.subrange(start as int, n as int));
    if start == n {
        assert(body.len() == 0);
        assert(decimal_value(s@) is None);
        return None;
    }
    let mut value: u64 = 0;
    while i < n
        invariant
            text@ == s@,
            n == s@.len(),
            start <= i <= n,
            start == s@.len() - body.len(),
            body == s@.subrange(start as int, n as int),
            body == (if s@.len() > 0 && s@[0] == '+' {
                s@.drop_first()
            } else {
                s@
            }),
            all_digits(body.take(i - start)),
            value == digits_value(body.take(i - start)),
        decreases n - i,
    {
        let c = text.get_char(i);
        assert(c == body[i - start]);
        if c < '0' || c > '9' {
            assert(!all_digits(body));
            return None;
        }
        let digit = (c as u32 - '0' as u32) as u64;
        let ghost prefix = body.take(i - start + 1);
        assert(prefix.drop_last() =~= body.take(i - start));
        assert(all_digits(prefix));
        assert(prefix.last() == c);
        assert(digit as int == c as int - '0' as int);
        assert(digits_value(prefix) == value * 10 + digit);
        match value.checked_mul(10) {
            Some(tens) => match tens.checked_add(digit) {
                Some(next) => {
                    value = next;
                },
                None => {
                    proof {
                        if all_digits(body) {
                            lemma_digits_value_grows(body, i - start + 1);
                        }
                    }
                    return None;
                },
            },
            None => {
                proof {
                    if all_digits(body) {
                        lemma_digits_value_grows(body, i - start + 1);
                    }
                }
                return None;
            },
        }
        i = i + 1;
    }
    assert(body.take(n - start) =~= body);
    Some(value)
}

/// Whether the string holds exactly the given text.
fn is_text(s: &String, text: &str) -> (r: bool)
    ensures
        r == (s@ == text@),
{
    *s == text.to_owned()
}

/// The first position of the flag among the arguments, if it occurs.
fn find_arg(args: &Vec<String>, flag: &str) -> (r: Option<usize>)
    ensures
        match r {
            Some(i) => first_index(args_view(args@), flag@) == i && i < args.len(),
            None => first_index(args_view(args@), flag@) == -1 && !args_view(args@).contains(
                flag@,
            ),
        },
{
    let mut i: usize = 0;
    while i < args.len()
        invariant
            i <= args.len(),
            forall|j: int| 0 <= j < i ==> args_view(args@)[j] != flag@,
        decreases args.len() - i,
    {
        if is_text(&args[i], flag) {
            proof {
                lemma_first_index_found(args_view(args@), flag@, i as int);
            }
            return Some(i);
        }
        i = i + 1;
    }
    proof {
        lemma_first_index_absent(args_view(args@), flag@);
    }
    None
}

/// The texts of the arguments.
pub open spec fn args_view(args: Seq<String>) -> Seq<Seq<char>> {
    args.map_values(|a: String| a@)
}

/// Where the wallpapers come from.
#[derive(Debug, Clone)]
pub enum ModeChoice {
    /// Every file under the directory, drawn uniformly.
    Simple(String),
    /// The wallpaper database, weighed by its rules.
    Heap,
}

/// The daemon's settings.
#[derive(Debug, Clone)]
pub struct Options {
    pub mode: ModeChoice,
    pub duration: Span,
    pub renderer: Renderer,
    /// The renderer's name after `-r` where no renderer has that name.
    pub invalid_renderer: Option<String>,
}

/// What keeps the daemon's arguments from being read.
#[derive(Debug, Clone, PartialEq, Eq, Structural)]
pub enum ArgumentError {
    /// `-d` is the last argument.
    MissingDuration,
    /// The argument after `-d` is no number of seconds.
    InvalidDuration,
    /// `-r` is the last argument.
    MissingRenderer,
    /// `-h` or `--help` asks for the help text in place of a run.
    HelpRequested,
}

/// `-h` or `--help` is among the arguments.
pub open spec fn help_requested(args: Seq<Seq<char>>) -> bool {
    args.contains("-h"@) || args.contains("--help"@)
}

/// The value after the first occurrence of the flag, where the flag occurs.
pub open spec fn flag_value(args: Seq<Seq<char>>, flag: Seq<char>) -> Option<Seq<char>> {
    let i = first_index(args, flag);
    if 0 <= i && i + 1 < args.len() {
        Some(args[i + 1])
    } else {
        None
    }
}

/// The arguments can be read: a `-d` is followed by a number of seconds and
/// an `-r` by a renderer's name.
pub open spec fn arguments_readable(args: Seq<Seq<char>>) -> bool {
    &&& first_index(args, "-d"@) >= 0 ==> (flag_value(args, "-d"@) matches Some(v)
        && decimal_value(v) is Some)
    &&& first_index(args, "-r"@) >= 0 ==> flag_value(args, "-r"@) is Some
}

/// The renderer that a name chooses; unknown names choose `Auto`.
pub open spec fn renderer_named(name: Seq<char>) -> Renderer {
    if name == "awww"@ {
        Renderer::Awww
    } else if name == "swaybg"@ {
        Renderer::Swaybg
    } else {
        Renderer::Auto
    }
}

impl Options {
    /// Why the daemon cannot run with these arguments, if it cannot: the help
    /// is asked for, or a `-d` or `-r` lacks its value.
    pub fn check(args: &Vec<String>) -> (r: Result<(), ArgumentError>)
        ensures
            r is Ok <==> !help_requested(args_view(args@)) && arguments_readable(args_view(args@)),
            r == Err::<(), ArgumentError>(ArgumentError::HelpRequested) <==> help_requested(
                args_view(args@),
            ),
            r matches Err(e) ==> match e {
                ArgumentError::MissingDuration => first_index(args_view(args@), "-d"@) >= 0
                    && flag_value(args_view(args@), "-d"@) is None,
                ArgumentError::InvalidDuration => flag_value(args_view(args@), "-d"@) matches Some(
                    v,
                ) && decimal_value(v) is None,
                ArgumentError::MissingRenderer => first_index(args_view(args@), "-r"@) >= 0
                    && flag_value(args_view(args@), "-r"@) is None,
                ArgumentError::HelpRequested => help_requested(args_view(args@)),
            },
    {
        if find_arg(args, "-h").is_some() || find_arg(args, "--help").is_some() {
            return Err(ArgumentError::HelpRequested);
        }
        if let Some(i) = find_arg(args, "-d") {
            if i + 1 >= args.len() {
                return Err(ArgumentError::MissingDuration);
            }
            if parse_u64(&args[i + 1]).is_none() {
                return Err(ArgumentError::InvalidDuration);
            }
        }
        if let Some(i) = find_arg(args, "-r") {
            if i + 1 >= args.len() {
                return Err(ArgumentError::MissingRenderer);
            }
        }
        Ok(())
    }

    /// Reads the daemon's arguments: the seconds between changes after
    /// `-d` (300 without it), the renderer named after `-r` (`Auto` without it
    /// or for an unknown name), and, with `--simple`, the directory given as
    /// the last argument.
    pub fn parse(args: &Vec<String>) -> (o: Options)
        requires
            arguments_readable(args_view(args@)),
        ensures
            o.duration.wf(),
            o.duration.secs == match flag_value(args_view(args@), "-d"@) {
                Some(v) => decimal_value(v)->0,
                None => 300,
            },
            o.duration.nanos == 0,
            match flag_value(args_view(args@), "-r"@) {
                Some(name) => o.renderer == renderer_named(name) && if name == "awww"@ || name
                    == "swaybg"@ || name == "auto"@ {
                    o.invalid_renderer is None
                } else {
                    o.invalid_renderer matches Some(n) && n@ == name
                },
                None => o.renderer is Auto && o.invalid_renderer is None,
            },
            args_view(args@).contains("--simple"@) ==> (o.mode matches ModeChoice::Simple(dir)
                && dir@ == args@.last()@),
            !args_view(args@).contains("--simple"@) ==> o.mode is Heap,
    {
        let duration = match find_arg(args, "-d") {
            Some(i) => match parse_u64(&args[i + 1]) {
                Some(secs) => Span::from_secs(secs),
                None => Span::from_secs(300),
            },
            None => Span::from_secs(300),
        };
        let (renderer, invalid_renderer) = match find_arg(args, "-r") {
            Some(i) => {
                let name = &args[i + 1];
                if is_text(name, "awww") {
                    (Renderer::Awww, None)
                } else if is_text(name, "swaybg") {
                    (Renderer::Swaybg, None)
                } else if is_text(name, "auto") {
                    (Renderer::Auto, None)
                } else {
                    (Renderer::Auto, Some(name.clone()))
                }
            },
            None => (Renderer::Auto, None),
        };
        let mode = match find_arg(args, "--simple") {
            Some(i) => {
                assert(args_view(args@)[i as int] == "--simple"@);
                ModeChoice::Simple(args[args.len() - 1].clone())
            },
            None => {
                ModeChoice::Heap
            },
        };
        Options { mode, duration, renderer, invalid_renderer }
    }
}

/// A request sent to the daemon.
#[derive(Debug, Clone, Copy, PartialEq, Eq, Structural)]
pub enum Request {
    /// Stop the daemon.
    Kill,
    /// Show the next wallpaper now.
    Next,
    /// Reload the wallpapers.
    Reload,
    /// Report the state.
    Info,
    /// Anything else, or no request: change the wallpaper if it is due.
    Tick,
}

/// The request that a message names: `kill`, `next`, `reload` or `info`,
/// and `Tick` for anything else.
pub open spec fn request_for(text: Seq<char>) -> Request {
    if text == "kill"@ {
        Request::Kill
    } else if text == "next"@ {
        Request::Next
    } else if text == "reload"@ {
        Request::Reload
    } else if text == "info"@ {
        Request::Info
    } else {
        Request::Tick
    }
}

impl Request {
    /// The request that a message asks for.
    pub fn from_text(text: &String) -> (r: Request)
        ensures
            r == request_for(text@),
            r == if text@ == "kill"@ {
                Request::Kill
            } else if text@ == "next"@ {
                Request::Next
            } else if text@ == "reload"@ {
                Request::Reload
            } else if text@ == "info"@ {
                Request::Info
            } else {
                Request::Tick
            },
    {
        if is_text(text, "kill") {
            Request::Kill
        } else if is_text(text, "next") {
            Request::Next
        } else if is_text(text, "reload") {
            Request::Reload
        } else if is_text(text, "info") {
            Request::Info
        } else {
            Request::Tick
        }
    }
}

} // verus!
