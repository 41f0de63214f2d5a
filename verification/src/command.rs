//! The outcome of running a helper program, and how its output is read.
use crate::text::push_str;
use std::time::Duration;
use vstd::prelude::*;

verus! {

/// How a helper program ended.
#[derive(Debug, Clone, Copy, PartialEq, Eq, Structural)]
pub enum CommandStatus {
    Success,
    NonZero,
    Timeout,
    Missing,
}

/// What a helper program produced.
#[derive(Debug)]
pub struct CommandResult {
    pub status: CommandStatus,
    pub code: i32,
    pub stdout: String,
    pub stderr: String,
    pub duration: Duration,
}

/// Standard output and standard error, joined by a newline when both are
/// present.
pub open spec fn combined_spec(stdout: Seq<char>, stderr: Seq<char>) -> Seq<char> {
    if stderr.len() == 0 {
        stdout
    } else if stdout.len() == 0 {
        stderr
    } else {
        stdout + seq!['\n'] + stderr
    }
}

impl CommandResult {
    /// The program ran and exited successfully.
    pub fn ok(&self) -> (r: bool)
        ensures
            r == (self.status == CommandStatus::Success),
    {
        self.status == CommandStatus::Success
    }

    /// The program ran to its end, successfully or not.
    pub fn completed(&self) -> (r: bool)
        ensures
            r == !(self.status == CommandStatus::Timeout || self.status == CommandStatus::Missing),
    {
        !(self.status == CommandStatus::Timeout || self.status == CommandStatus::Missing)
    }

    /// Both output streams as one text.
    pub fn combined(&self) -> (r: String)
        ensures
            r@ == combined_spec(self.stdout@, self.stderr@),
    {
        if self.stderr.as_str().is_empty() {
            self.stdout.clone()
        } else if self.stdout.as_str().is_empty() {
            self.stderr.clone()
        } else {
            let mut text = self.stdout.clone();
            push_str(&mut text, "\n");
            push_str(&mut text, self.stderr.as_str());
            proof {
                reveal_strlit("\n");
            }
            assert(text@ =~= combined_spec(self.stdout@, self.stderr@));
            text
        }
    }
}

/// The standard output of a successful run, or nothing.
pub fn output(result: CommandResult) -> (r: String)
    ensures
        r@ == (if result.status == CommandStatus::Success {
            result.stdout@
        } else {
            Seq::empty()
        }),
{
    if result.ok() {
        result.stdout
    } else {
        String::new()
    }
}

} // verus!
