//! External commands and what becomes of them.
//!
//! A `Job` describes one run of an outside command; whoever runs it reports back a
//! `ProcessExit`, or the reason the command could not be started, and
//! `Outcome::from_process` turns that report into the single outcome of the job.
use vstd::prelude::*;

verus! {

broadcast use vstd::string::group_string_axioms;

/// One run of an outside command: the program and its arguments.
pub struct Job {
    pub program: String,
    pub args: Vec<String>,
}

pub struct JobView {
    pub program: Seq<char>,
    pub args: Seq<Seq<char>>,
}

impl View for Job {
    type V = JobView;

    open spec fn view(&self) -> JobView {
        JobView { program: self.program@, args: self.args@.map_values(|a: String| a@) }
    }
}

/// How a command that was started ended.
pub struct ProcessExit {
    /// Whether it exited with status zero.
    pub success: bool,
    pub stdout: String,
    pub stderr: String,
}

#[derive(PartialEq, Eq, Structural, Clone, Copy, Debug)]
pub enum FailureKind {
    /// The command could not be started.
    LaunchError,
    /// The command ran and exited with a status other than zero.
    NonzeroExit,
}

/// The single result of a job.
pub enum Outcome {
    Success { stdout: String, stderr: String },
    Failure { kind: FailureKind, detail: String },
}

impl Outcome {
    pub open spec fn is_success(&self) -> bool {
        self is Success
    }

    /// Classifies a run: a command that could not be started is a launch failure carrying the
    /// reason; one that exited with a status other than zero is a failure carrying its
    /// standard error; any other run is a success carrying both outputs.
    pub fn from_process(run: Result<ProcessExit, String>) -> (r: Outcome)
        ensures
            match run {
                Err(reason) => r == (Outcome::Failure {
                    kind: FailureKind::LaunchError,
                    detail: reason,
                }),
                Ok(p) => if p.success {
                    r == (Outcome::Success { stdout: p.stdout, stderr: p.stderr })
                } else {
                    r == (Outcome::Failure { kind: FailureKind::NonzeroExit, detail: p.stderr })
                },
            },
    {
        match run {
            Err(reason) => Outcome::Failure { kind: FailureKind::LaunchError, detail: reason },
            Ok(p) => if p.success {
                Outcome::Success { stdout: p.stdout, stderr: p.stderr }
            } else {
                Outcome::Failure { kind: FailureKind::NonzeroExit, detail: p.stderr }
            },
        }
    }

    pub fn succeeded(&self) -> (r: bool)
        ensures
            r == self.is_success(),
    {
        match self {
            Outcome::Success { .. } => true,
            Outcome::Failure { .. } => false,
        }
    }
}

/// The program that lists pending updates, one per line.
pub open spec fn scan_program() -> Seq<char> {
    "checkupdates"@
}

/// The program that runs the package manager with raised privileges.
pub open spec fn elevate_program() -> Seq<char> {
    "pkexec"@
}

/// Arguments that install or upgrade one package without asking for confirmation.
pub open spec fn install_args(pkg: Seq<char>) -> Seq<Seq<char>> {
    seq!["pacman"@, "-y"@, "-S"@, "--noconfirm"@, pkg]
}

/// Arguments that synchronise and upgrade every package without asking for confirmation.
pub open spec fn upgrade_all_args() -> Seq<Seq<char>> {
    seq!["pacman"@, "-Syu"@, "--noconfirm"@]
}

/// The commands the updater runs.
pub struct UpdateManager;

impl UpdateManager {
    /// The job that lists pending updates: the scan program, with no arguments.
    pub fn check_updates() -> (j: Job)
        ensures
            j@.program == scan_program(),
            j@.args == Seq::<Seq<char>>::empty(),
    {
        let j = Job { program: "checkupdates".to_string(), args: Vec::new() };
        assert(j@.args =~= Seq::<Seq<char>>::empty());
        j
    }

    /// The job that installs or upgrades the package `pkg`, named as the last argument.
    pub fn install_package(pkg: &str) -> (j: Job)
        ensures
            j@.program == elevate_program(),
            j@.args == install_args(pkg@),
    {
        let mut args: Vec<String> = Vec::new();
        args.push("pacman".to_string());
        args.push("-y".to_string());
        args.push("-S".to_string());
        args.push("--noconfirm".to_string());
        args.push(pkg.to_string());
        let j = Job { program: "pkexec".to_string(), args };
        assert(j@.args =~= install_args(pkg@));
        j
    }

    /// The job that upgrades every package at once.
    pub fn upgrade_all() -> (j: Job)
        ensures
            j@.program == elevate_program(),
            j@.args == upgrade_all_args(),
    {
        let mut args: Vec<String> = Vec::new();
        args.push("pacman".to_string());
        args.push("-Syu".to_string());
        args.push("--noconfirm".to_string());
        let j = Job { program: "pkexec".to_string(), args };
        assert(j@.args =~= upgrade_all_args());
        j
    }
}

} // verus!
