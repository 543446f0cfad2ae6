//! The command line: which command the arguments ask for.
use vstd::prelude::*;
use crate::exec::{Step, StepView};
use crate::text::{str_eq, views};

verus! {

/// A command of the tool.
#[derive(Debug, Clone, PartialEq, Eq)]
pub enum Command {
    Help,
    Ps,
    Dist,
    Images,
    Nmap,
    Launch,
    DownloadConf,
    DownloadAuth,
    Setup,
    Pull,
    NmapInf,
    Wg0ip,
    Logs,
    Nodes,
    Restart,
    Servers,
    AddWorker,
    Kill,
    Connect,
    Update,
    Rmi,
    Version,
    Vars,
    Workers,
    RemoveContainer,
    /// Run this command inside `zk0`.
    Zk0(String),
    /// Push this image.
    Push(String),
    /// Set the context to this path.
    Context(String),
    /// Build the images named by these arguments (the whole command line).
    Build(Vec<String>),
}

/// A command, as plain values.
pub enum CommandView {
    Help,
    Ps,
    Dist,
    Images,
    Nmap,
    Launch,
    DownloadConf,
    DownloadAuth,
    Setup,
    Pull,
    NmapInf,
    Wg0ip,
    Logs,
    Nodes,
    Restart,
    Servers,
    AddWorker,
    Kill,
    Connect,
    Update,
    Rmi,
    Version,
    Vars,
    Workers,
    RemoveContainer,
    Zk0(Seq<char>),
    Push(Seq<char>),
    Context(Seq<char>),
    Build(Seq<Seq<char>>),
}

impl View for Command {
    type V = CommandView;

    open spec fn view(&self) -> CommandView {
        match self {
            Command::Help => CommandView::Help,
            Command::Ps => CommandView::Ps,
            Command::Dist => CommandView::Dist,
            Command::Images => CommandView::Images,
            Command::Nmap => CommandView::Nmap,
            Command::Launch => CommandView::Launch,
            Command::DownloadConf => CommandView::DownloadConf,
            Command::DownloadAuth => CommandView::DownloadAuth,
            Command::Setup => CommandView::Setup,
            Command::Pull => CommandView::Pull,
            Command::NmapInf => CommandView::NmapInf,
            Command::Wg0ip => CommandView::Wg0ip,
            Command::Logs => CommandView::Logs,
            Command::Nodes => CommandView::Nodes,
            Command::Restart => CommandView::Restart,
            Command::Servers => CommandView::Servers,
            Command::AddWorker => CommandView::AddWorker,
            Command::Kill => CommandView::Kill,
            Command::Connect => CommandView::Connect,
            Command::Update => CommandView::Update,
            Command::Rmi => CommandView::Rmi,
            Command::Version => CommandView::Version,
            Command::Vars => CommandView::Vars,
            Command::Workers => CommandView::Workers,
            Command::RemoveContainer => CommandView::RemoveContainer,
            Command::Zk0(s) => CommandView::Zk0(s@),
            Command::Push(s) => CommandView::Push(s@),
            Command::Context(s) => CommandView::Context(s@),
            Command::Build(v) => CommandView::Build(views(v@)),
        }
    }
}

/// The command a single word asks for.
pub open spec fn word_command(w: Seq<char>) -> CommandView {
    if w == "-h"@ || w == "--help"@ {
        CommandView::Help
    } else if w == "ps"@ {
        CommandView::Ps
    } else if w == "dist"@ {
        CommandView::Dist
    } else if w == "images"@ {
        CommandView::Images
    } else if w == "nmap"@ {
        CommandView::Nmap
    } else if w == "launch"@ {
        CommandView::Launch
    } else if w == "download_conf"@ {
        CommandView::DownloadConf
    } else if w == "download_auth"@ {
        CommandView::DownloadAuth
    } else if w == "setup"@ {
        CommandView::Setup
    } else if w == "pull"@ {
        CommandView::Pull
    } else if w == "nmap_inf"@ {
        CommandView::NmapInf
    } else if w == "wg0ip"@ {
        CommandView::Wg0ip
    } else if w == "logs"@ {
        CommandView::Logs
    } else if w == "nodes"@ {
        CommandView::Nodes
    } else if w == "restart"@ {
        CommandView::Restart
    } else if w == "servers"@ {
        CommandView::Servers
    } else if w == "add_worker"@ {
        CommandView::AddWorker
    } else if w == "kill"@ {
        CommandView::Kill
    } else if w == "connect"@ {
        CommandView::Connect
    } else if w == "update"@ {
        CommandView::Update
    } else if w == "rmi"@ {
        CommandView::Rmi
    } else if w == "--version"@ || w == "-v"@ {
        CommandView::Version
    } else if w == "vars"@ {
        CommandView::Vars
    } else if w == "workers"@ {
        CommandView::Workers
    } else {
        CommandView::Help
    }
}

/// The command that the command line `args` (program name first) asks for.
pub open spec fn command_for(args: Seq<Seq<char>>) -> CommandView {
    if args.len() <= 1 {
        CommandView::Help
    } else if args.len() == 2 {
        word_command(args[1])
    } else if args.len() == 3 {
        let a0 = args[1];
        let a1 = args[2];
        if a0 == "--docker"@ || a0 == "-d"@ {
            if a1 == "rm"@ {
                CommandView::RemoveContainer
            } else {
                CommandView::Zk0(a1)
            }
        } else if a0 == "push"@ {
            CommandView::Push(a1)
        } else if a0 == "context"@ {
            CommandView::Context(a1)
        } else if a0 == "build"@ {
            CommandView::Build(args)
        } else {
            CommandView::Help
        }
    } else if args[1] == "build"@ {
        CommandView::Build(args)
    } else {
        CommandView::Help
    }
}

fn word_command_exec(w: &str) -> (r: Command)
    ensures
        r@ == word_command(w@),
{
    if str_eq(w, "-h") || str_eq(w, "--help") {
        Command::Help
    } else if str_eq(w, "ps") {
        Command::Ps
    } else if str_eq(w, "dist") {
        Command::Dist
    } else if str_eq(w, "images") {
        Command::Images
    } else if str_eq(w, "nmap") {
        Command::Nmap
    } else if str_eq(w, "launch") {
        Command::Launch
    } else if str_eq(w, "download_conf") {
        Command::DownloadConf
    } else if str_eq(w, "download_auth") {
        Command::DownloadAuth
    } else if str_eq(w, "setup") {
        Command::Setup
    } else if str_eq(w, "pull") {
        Command::Pull
    } else if str_eq(w, "nmap_inf") {
        Command::NmapInf
    } else if str_eq(w, "wg0ip") {
        Command::Wg0ip
    } else if str_eq(w, "logs") {
        Command::Logs
    } else if str_eq(w, "nodes") {
        Command::Nodes
    } else if str_eq(w, "restart") {
        Command::Restart
    } else if str_eq(w, "servers") {
        Command::Servers
    } else if str_eq(w, "add_worker") {
        Command::AddWorker
    } else if str_eq(w, "kill") {
        Command::Kill
    } else if str_eq(w, "connect") {
        Command::Connect
    } else if str_eq(w, "update") {
        Command::Update
    } else if str_eq(w, "rmi") {
        Command::Rmi
    } else if str_eq(w, "--version") || str_eq(w, "-v") {
        Command::Version
    } else if str_eq(w, "vars") {
        Command::Vars
    } else if str_eq(w, "workers") {
        Command::Workers
    } else {
        Command::Help
    }
}

/// Reads the command line `args` (program name first).
pub fn parse_command(args: &Vec<String>) -> (r: Command)
    requires
        args@.len() >= 1,
    ensures
        r@ == command_for(views(args@)),
{
    let n = args.len();
    if n == 1 {
        Command::Help
    } else if n == 2 {
        word_command_exec(args[1].as_str())
    } else if n == 3 {
        let a0 = args[1].as_str();
        let a1 = args[2].as_str();
        if str_eq(a0, "--docker") || str_eq(a0, "-d") {
            if str_eq(a1, "rm") {
                Command::RemoveContainer
            } else {
                Command::Zk0(String::from_str(a1))
            }
        } else if str_eq(a0, "push") {
            Command::Push(String::from_str(a1))
        } else if str_eq(a0, "context") {
            Command::Context(String::from_str(a1))
        } else if str_eq(a0, "build") {
            Command::Build(args.clone())
        } else {
            Command::Help
        }
    } else if str_eq(args[1].as_str(), "build") {
        Command::Build(args.clone())
    } else {
        Command::Help
    }
}

/// The commands that `launch` runs: pull the images, kill the containers,
/// restart them.
pub fn launch() -> (r: Vec<Command>)
    ensures
        r@.map_values(|c: Command| c@) == seq![CommandView::Pull, CommandView::Kill, CommandView::Restart],
{
    let r = vec![Command::Pull, Command::Kill, Command::Restart];
    assert(r@.map_values(|c: Command| c@) =~= seq![CommandView::Pull, CommandView::Kill, CommandView::Restart]);
    r
}

/// The commands that `setup` runs: fetch the credentials and the
/// configuration, then launch.
pub fn setup() -> (r: Vec<Command>)
    ensures
        r@.map_values(|c: Command| c@) == seq![
            CommandView::DownloadAuth,
            CommandView::DownloadConf,
            CommandView::Pull,
            CommandView::Kill,
            CommandView::Restart,
        ],
{
    let mut r = vec![Command::DownloadAuth, Command::DownloadConf];
    let mut l = launch();
    let ghost lv = l@;
    let ghost rv = r@;
    assert(lv.map_values(|c: Command| c@).len() == lv.len());
    assert(lv.len() == 3);
    r.append(&mut l);
    assert(r@ =~= rv + lv);
    assert(lv.map_values(|c: Command| c@)[0] == CommandView::Pull);
    assert(lv.map_values(|c: Command| c@)[1] == CommandView::Kill);
    assert(lv.map_values(|c: Command| c@)[2] == CommandView::Restart);
    assert(rv[0]@ == CommandView::DownloadAuth);
    assert(rv[1]@ == CommandView::DownloadConf);
    assert(r@[2] == lv[0]);
    assert(r@[3] == lv[1]);
    assert(r@[4] == lv[2]);
    assert(r@.map_values(|c: Command| c@) =~= seq![
        CommandView::DownloadAuth,
        CommandView::DownloadConf,
        CommandView::Pull,
        CommandView::Kill,
        CommandView::Restart,
    ]);
    r
}

/// Updating the tool: its install script, run from the web.
pub fn update() -> (r: Step)
    ensures
        r@ == StepView::Cmd("curl https://get.zakuro.ai/zc | sh"@, None),
{
    Step::Cmd(String::from_str("curl https://get.zakuro.ai/zc | sh"), None)
}

} // verus!

verus! {

/// `--docker` and `-d` are the same option: with any word other than `rm`
/// after them, the command line asks to run that word inside `zk0`; with
/// `rm`, to remove the container.
pub proof fn lemma_docker_option(p: Seq<char>, a1: Seq<char>)
    ensures
        command_for(seq![p, "--docker"@, a1]) == command_for(seq![p, "-d"@, a1]),
        a1 != "rm"@ ==> command_for(seq![p, "--docker"@, a1]) == CommandView::Zk0(a1),
        a1 == "rm"@ ==> command_for(seq![p, "--docker"@, a1]) == CommandView::RemoveContainer,
{
    let a = seq![p, "--docker"@, a1];
    let b = seq![p, "-d"@, a1];
    assert(a.len() == 3 && a[1] == "--docker"@ && a[2] == a1);
    assert(b.len() == 3 && b[1] == "-d"@ && b[2] == a1);
}

} // verus!
