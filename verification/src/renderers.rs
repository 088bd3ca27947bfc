//! The wallpaper renderers and the commands that drive them.
//!
//! Running the commands is left to the caller: each operation is a plan of
//! commands, decided here from the renderer and what the process list shows.
use vstd::prelude::*;
use vstd::utf8::{encode_utf8, is_char_boundary};
use sysinfo::System;

verus! {

#[verifier::external_type_specification]
#[verifier::external_body]
pub struct ExSystem(System);

/// A program that renders wallpapers.
#[derive(Debug, Clone)]
pub enum Renderer {
    /// Not chosen yet: chosen from the running processes.
    Auto,
    Awww,
    Swaybg,
    Cosmic,
    /// Any program, given its path and the arguments before the picture.
    Other(String, Vec<String>),
}

/// A command line: the program and its arguments.
#[derive(Debug, Clone)]
pub struct Command {
    pub program: String,
    pub args: Vec<String>,
}

impl Command {
    pub open spec fn spec_args(&self) -> Seq<Seq<char>> {
        self.args@.map_values(|a: String| a@)
    }
}

/// Why a renderer cannot act.
#[derive(Debug, Clone, Copy, PartialEq, Eq, Structural)]
pub enum RendererError {
    /// The COSMIC desktop is not supported yet.
    CosmicUnsupported,
    /// The renderer is still `Auto`.
    NotInitialized,
}

impl RendererError {
    /// The message that describes the error.
    pub fn message(&self) -> (m: &'static str)
        ensures
            match self {
                RendererError::CosmicUnsupported => m@
                    == "Cosmic integration is not yet implemented!"@,
                RendererError::NotInitialized => m@ == "Renderer not initialized!"@,
            },
    {
        match self {
            RendererError::CosmicUnsupported => "Cosmic integration is not yet implemented!",
            RendererError::NotInitialized => "Renderer not initialized!",
        }
    }
}

/// How a renderer changes the wallpaper.
#[derive(Debug, Clone)]
pub enum ChangePlan {
    /// Run the command and wait for its exit status.
    Run(Command),
    /// Start the command, wait ten milliseconds, then kill the first process
    /// named `swaybg` (the one that showed the old picture).
    SpawnAndKillOld(Command),
}

/// How a renderer is stopped.
#[derive(Debug, Clone)]
pub enum KillPlan {
    /// Run the command and wait for its exit status.
    Run(Command),
    /// Nothing to run: tell the user this.
    Notice(&'static str),
}

/// The names of the processes in a process list, each as the bytes of its
/// `OsStr` (what `OsStr::as_encoded_bytes` gives).
pub uninterp spec fn process_names(list: System) -> Set<Seq<u8>>;

/// Calls `System::processes_by_exact_name`, which filters the processes of
/// the list to those whose name equals `name` as an `OsStr`, and reports
/// whether one is left. The name of a `&str` taken as an `OsStr` has the
/// string's UTF-8 bytes.
#[verifier::external_body]
fn process_listed(list: &System, name: &str) -> (r: bool)
    ensures
        r == process_names(*list).contains(encode_utf8(name@)),
{
    list.processes_by_exact_name(name.as_ref()).next().is_some()
}

/// Calls `String::split_off` on a copy of `s`. std documents that it panics
/// unless `at` is on a character boundary, and that it returns the bytes from
/// `at` to the end.
#[verifier::external_body]
fn tail_from(s: &String, at: usize) -> (r: String)
    requires
        is_char_boundary(encode_utf8(s@), at as int),
    ensures
        encode_utf8(r@) == encode_utf8(s@).subrange(at as int, encode_utf8(s@).len() as int),
{
    s.clone().split_off(at)
}

/// A command with its arguments.
fn command(program: &str, args: Vec<String>) -> (c: Command)
    ensures
        c.program@ == program@,
        c.args@ == args@,
{
    Command { program: program.to_owned(), args }
}

impl Renderer {
    /// The renderer that `Auto` stands for, given whether `swaybg` runs:
    /// `Swaybg` where it does, else `Awww`; any other renderer stays.
    pub open spec fn spec_resolve(self, swaybg_running: bool) -> Renderer {
        match self {
            Renderer::Auto => if swaybg_running {
                Renderer::Swaybg
            } else {
                Renderer::Awww
            },
            _ => self,
        }
    }

    /// The renderer that `Auto` stands for, given whether `swaybg` runs.
    pub fn resolve(self, swaybg_running: bool) -> (r: Renderer)
        ensures
            r == self.spec_resolve(swaybg_running),
    {
        match self {
            Renderer::Auto => if swaybg_running {
                Renderer::Swaybg
            } else {
                Renderer::Awww
            },
            _ => self,
        }
    }

    /// Chooses the renderer for `Auto` from the process list: `Swaybg` where
    /// a process named `swaybg` is listed, else `Awww`; any other renderer
    /// stays.
    pub fn auto(self, process_list: &mut System) -> (r: Renderer)
        ensures
            r == self.spec_resolve(
                process_names(*old(process_list)).contains(encode_utf8("swaybg"@)),
            ),
            *final(process_list) == *old(process_list),
    {
        if let Renderer::Auto = self {
            let running = process_listed(process_list, "swaybg");
            self.resolve(running)
        } else {
            self
        }
    }

    /// The process whose presence decides whether the renderer must be
    /// started.
    pub fn watched_process(&self) -> (r: Option<&'static str>)
        ensures
            match self {
                Renderer::Awww => r matches Some(n) && n@ == "awww-daemon"@,
                Renderer::Swaybg => r matches Some(n) && n@ == "swaybg"@,
                _ => r is None,
            },
    {
        match self {
            Renderer::Awww => Some("awww-daemon"),
            Renderer::Swaybg => Some("swaybg"),
            _ => None,
        }
    }

    /// What to start so that the renderer runs, given whether its process
    /// runs already: the `awww` daemon, or `swaybg` with the picture, where
    /// they do not run; nothing for any other program.
    pub fn spawn_plan(&self, picture: &String, running: bool) -> (r: Result<
        Option<Command>,
        RendererError,
    >)
        ensures
            match self {
                Renderer::Awww => r matches Ok(c) && (running ==> c is None) && (!running ==> (
                c matches Some(c) && c.program@ == "/bin/awww-daemon"@ && c.spec_args() =~= seq![])),
                Renderer::Swaybg => r matches Ok(c) && (running ==> c is None) && (!running ==> (
                c matches Some(c) && c.program@ == "/bin/swaybg"@ && c.spec_args() =~= seq![
                    "-i"@,
                    picture@,
                ])),
                Renderer::Cosmic => r == Err::<Option<Command>, _>(
                    RendererError::CosmicUnsupported,
                ),
                Renderer::Other(..) => r matches Ok(c) && c is None,
                Renderer::Auto => r == Err::<Option<Command>, _>(RendererError::NotInitialized),
            },
    {
        match self {
            Renderer::Awww => {
                if running {
                    Ok(None)
                } else {
                    let c = command("/bin/awww-daemon", Vec::new());
                    assert(c.spec_args() =~= seq![]);
                    Ok(Some(c))
                }
            },
            Renderer::Swaybg => {
                if running {
                    Ok(None)
                } else {
                    let mut args: Vec<String> = Vec::new();
                    args.push("-i".to_owned());
                    args.push(picture.clone());
                    let c = command("/bin/swaybg", args);
                    assert(c.spec_args() =~= seq!["-i"@, picture@]);
                    Ok(Some(c))
                }
            },
            Renderer::Cosmic => Err(RendererError::CosmicUnsupported),
            Renderer::Other(..) => Ok(None),
            Renderer::Auto => Err(RendererError::NotInitialized),
        }
    }

    /// How the renderer shows the picture: `awww img`, a new `swaybg` that
    /// replaces the old one, or the other program with its arguments and the
    /// picture.
    pub fn change_plan(&self, picture: &String) -> (r: Result<ChangePlan, RendererError>)
        ensures
            match self {
                Renderer::Awww => r matches Ok(ChangePlan::Run(c)) && c.program@ == "/bin/awww"@
                    && c.spec_args() =~= seq!["img"@, picture@],
                Renderer::Swaybg => r matches Ok(ChangePlan::SpawnAndKillOld(c)) && c.program@
                    == "/bin/swaybg"@ && c.spec_args() =~= seq!["-i"@, picture@],
                Renderer::Cosmic => r is Err && r->Err_0 == RendererError::CosmicUnsupported,
                Renderer::Other(path, args) => r matches Ok(ChangePlan::Run(c)) && c.program@
                    == path@ && c.spec_args() =~= args@.map_values(|a: String| a@).push(picture@),
                Renderer::Auto => r is Err && r->Err_0 == RendererError::NotInitialized,
            },
    {
        match self {
            Renderer::Awww => {
                let mut args: Vec<String> = Vec::new();
                args.push("img".to_owned());
                args.push(picture.clone());
                let c = command("/bin/awww", args);
                assert(c.spec_args() =~= seq!["img"@, picture@]);
                Ok(ChangePlan::Run(c))
            },
            Renderer::Swaybg => {
                let mut args: Vec<String> = Vec::new();
                args.push("-i".to_owned());
                args.push(picture.clone());
                let c = command("/bin/swaybg", args);
                assert(c.spec_args() =~= seq!["-i"@, picture@]);
                Ok(ChangePlan::SpawnAndKillOld(c))
            },
            Renderer::Cosmic => Err(RendererError::CosmicUnsupported),
            Renderer::Other(path, args) => {
                let mut all: Vec<String> = Vec::new();
                let mut i: usize = 0;
                while i < args.len()
                    invariant
                        i <= args.len(),
                        all@.len() == i,
                        forall|j: int| 0 <= j < i ==> #[trigger] all@[j]@ == args@[j]@,
                    decreases args.len() - i,
                {
                    all.push(args[i].clone());
                    i = i + 1;
                }
                all.push(picture.clone());
                let c = Command { program: path.clone(), args: all };
                assert(c.spec_args() =~= args@.map_values(|a: String| a@).push(picture@));
                Ok(ChangePlan::Run(c))
            },
            Renderer::Auto => Err(RendererError::NotInitialized),
        }
    }

    /// How the renderer is stopped: `awww kill`, `pkill swaybg`, a notice for
    /// COSMIC, or `pkill` with the other program's path from its sixth byte
    /// on.
    pub fn kill_plan(&self) -> (r: Result<KillPlan, RendererError>)
        requires
            self matches Renderer::Other(path, _) ==> is_char_boundary(encode_utf8(path@), 5),
        ensures
            match self {
                Renderer::Awww => r matches Ok(KillPlan::Run(c)) && c.program@ == "/bin/awww"@
                    && c.spec_args() =~= seq!["kill"@],
                Renderer::Swaybg => r matches Ok(KillPlan::Run(c)) && c.program@ == "/bin/pkill"@
                    && c.spec_args() =~= seq!["swaybg"@],
                Renderer::Cosmic => r matches Ok(KillPlan::Notice(m)) && m@
                    == "As cosmic-bg is a part of the COSMIC Desktop Enviernment, killing it is pointless. If you do actualy need to kill it, please do that manualy with pkill cosmic-bg."@,
                Renderer::Other(path, _) => r matches Ok(KillPlan::Run(c)) && c.program@
                    == "/bin/pkill"@ && c.args@.len() == 1 && encode_utf8(c.args@[0]@)
                    == encode_utf8(path@).subrange(5, encode_utf8(path@).len() as int),
                Renderer::Auto => r is Err && r->Err_0 == RendererError::NotInitialized,
            },
    {
        match self {
            Renderer::Awww => {
                let mut args: Vec<String> = Vec::new();
                args.push("kill".to_owned());
                let c = command("/bin/awww", args);
                assert(c.spec_args() =~= seq!["kill"@]);
                Ok(KillPlan::Run(c))
            },
            Renderer::Swaybg => {
                let mut args: Vec<String> = Vec::new();
                args.push("swaybg".to_owned());
                let c = command("/bin/pkill", args);
                assert(c.spec_args() =~= seq!["swaybg"@]);
                Ok(KillPlan::Run(c))
            },
            Renderer::Cosmic => Ok(
                KillPlan::Notice(
                    "As cosmic-bg is a part of the COSMIC Desktop Enviernment, killing it is pointless. If you do actualy need to kill it, please do that manualy with pkill cosmic-bg.",
                ),
            ),
            Renderer::Other(path, _) => {
                let mut args: Vec<String> = Vec::new();
                args.push(tail_from(path, 5));
                Ok(KillPlan::Run(command("/bin/pkill", args)))
            },
            Renderer::Auto => Err(RendererError::NotInitialized),
        }
    }
}

} // verus!
