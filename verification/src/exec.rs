//! The processes the tool runs: what each step asks for, and how the output
//! of a finished process becomes a result.
use vstd::prelude::*;
use crate::envs::{evaluated, evaluate_expr, Env};
use crate::text::{trim, trim_exec};

verus! {

/// One thing for the tool to do.
#[derive(Debug, Clone, PartialEq, Eq)]
pub enum Step {
    /// Print the line.
    Echo(String),
    /// Run the command with `bash -c`, attached to the terminal.
    Tty(String),
    /// Run the command with `bash -c` and capture its output; with
    /// `Some(true)` the command is expanded first (see `cmd`).
    Cmd(String, Option<bool>),
    /// Run the command inside the `zk0` container.
    Zk0(String),
}

/// What a step is, as plain text.
pub enum StepView {
    Echo(Seq<char>),
    Tty(Seq<char>),
    Cmd(Seq<char>, Option<bool>),
    Zk0(Seq<char>),
}

impl View for Step {
    type V = StepView;

    open spec fn view(&self) -> StepView {
        match self {
            Step::Echo(s) => StepView::Echo(s@),
            Step::Tty(s) => StepView::Tty(s@),
            Step::Cmd(s, e) => StepView::Cmd(s@, *e),
            Step::Zk0(s) => StepView::Zk0(s@),
        }
    }
}

/// The views of a sequence of steps.
pub open spec fn steps_view(v: Seq<Step>) -> Seq<StepView> {
    v.map_values(|s: Step| s@)
}

/// How a process that was asked for ended.
#[derive(Debug, PartialEq, Eq)]
pub enum Outcome {
    /// The process could not be started; the error's text.
    SpawnFailed(String),
    /// The process ran. `status` is the text of its exit status; `stdout` and
    /// `stderr` are its output, or the text of the UTF-8 decoding error.
    Exited { success: bool, status: String, stdout: Result<String, String>, stderr: Result<String, String> },
}

/// The command line that `exec::cmd` hands to `bash -c`: expanded as a path
/// list (see `evaluate_expr`) when `evaluate` is `Some(true)`.
pub open spec fn cmd_line(command: Seq<char>, evaluate: Option<bool>, env: Map<Seq<char>, Seq<char>>) -> Seq<char> {
    if evaluate == Some(true) {
        evaluated(command, env)
    } else {
        command
    }
}

/// The command line to run for `command`.
pub fn cmd(command: &str, evaluate: Option<bool>, env: &Env) -> (r: String)
    ensures
        r@ == cmd_line(command@, evaluate, env@),
{
    let e = match evaluate {
        Some(b) => b,
        None => false,
    };
    if e {
        evaluate_expr(command, env)
    } else {
        String::from_str(command)
    }
}

/// The command line for a captured run without expansion: the command itself.
pub fn stdout(command: &str) -> (r: String)
    ensures
        r@ == command@,
{
    String::from_str(command)
}

/// What a captured run (`exec::cmd`) answers for an outcome.
pub open spec fn cmd_answer(o: Outcome) -> Result<Seq<char>, Seq<char>> {
    match o {
        Outcome::SpawnFailed(e) => Err("Error spawning subprocess: "@ + e@),
        Outcome::Exited { success, status, stdout, stderr } => if success {
            match stdout {
                Ok(s) => Ok(trim(s@)),
                Err(_) => Err("Error converting output to string"@),
            }
        } else {
            Err("Command failed with error: "@ + status@)
        },
    }
}

/// The result of a captured run: the trimmed output on success, a message
/// otherwise.
pub fn cmd_result(o: &Outcome) -> (r: Result<String, String>)
    ensures
        match (r, cmd_answer(*o)) {
            (Ok(a), Ok(b)) => a@ == b,
            (Err(a), Err(b)) => a@ == b,
            _ => false,
        },
{
    match o {
        Outcome::SpawnFailed(e) => {
            let mut m = String::from_str("Error spawning subprocess: ");
            m.append(e.as_str());
            Err(m)
        },
        Outcome::Exited { success, status, stdout, stderr } => {
            if *success {
                match stdout {
                    Ok(s) => Ok(trim_exec(s.as_str())),
                    Err(_) => Err(String::from_str("Error converting output to string")),
                }
            } else {
                let mut m = String::from_str("Command failed with error: ");
                m.append(status.as_str());
                Err(m)
            }
        },
    }
}

/// The arguments of `docker` that run `last_arg` inside `zk0`.
pub fn zk0(last_arg: &str) -> (r: Vec<String>)
    ensures
        r@.len() == 6,
        r@[0]@ == "exec"@,
        r@[1]@ == "-i"@,
        r@[2]@ == "zk0"@,
        r@[3]@ == "bash"@,
        r@[4]@ == "-c"@,
        r@[5]@ == last_arg@,
{
    vec![
        String::from_str("exec"),
        String::from_str("-i"),
        String::from_str("zk0"),
        String::from_str("bash"),
        String::from_str("-c"),
        String::from_str(last_arg),
    ]
}

/// What a run inside `zk0` answers: the trimmed output on success, nothing on
/// failure (its error output is shown), and the error's text when the process
/// could not start or its output is not UTF-8.
pub open spec fn zk0_answer(o: Outcome) -> Result<Option<Seq<char>>, Seq<char>> {
    match o {
        Outcome::SpawnFailed(e) => Err(e@),
        Outcome::Exited { success, status, stdout, stderr } => if success {
            match stdout {
                Ok(s) => Ok(Some(trim(s@))),
                Err(e) => Err(e@),
            }
        } else {
            match stderr {
                Ok(_) => Ok(None),
                Err(e) => Err(e@),
            }
        },
    }
}

/// The result of a run inside `zk0`.
pub fn zk0_result(o: &Outcome) -> (r: Result<Option<String>, String>)
    ensures
        match (r, zk0_answer(*o)) {
            (Ok(Some(a)), Ok(Some(b))) => a@ == b,
            (Ok(None), Ok(None)) => true,
            (Err(a), Err(b)) => a@ == b,
            _ => false,
        },
{
    match o {
        Outcome::SpawnFailed(e) => Err(e.clone()),
        Outcome::Exited { success, status, stdout, stderr } => {
            if *success {
                match stdout {
                    Ok(s) => Ok(Some(trim_exec(s.as_str()))),
                    Err(e) => Err(e.clone()),
                }
            } else {
                match stderr {
                    Ok(_) => Ok(None),
                    Err(e) => Err(e.clone()),
                }
            }
        },
    }
}

} // verus!
