//! Processes and the states they pass through.

use vstd::prelude::*;

verus! {

/// What a process is doing.
#[derive(Debug, Clone, Copy, PartialEq, Eq, Structural)]
pub enum State {
    Ready,
    Running,
    Blocked,
    Terminated,
}

/// A process: its name, its number, and its state.
#[derive(Debug, Clone)]
pub struct Process {
    pub name: String,
    pub pid: usize,
    pub state: State,
}

impl Process {
    /// A process that is ready to run.
    pub fn new(name: String, pid: usize) -> (p: Self)
        ensures
            p.name == name,
            p.pid == pid,
            p.state == State::Ready,
    {
        Self { name, pid, state: State::Ready }
    }

    /// The process gets the processor.
    pub fn run(&mut self)
        ensures
            final(self).state == State::Running,
            final(self).name == old(self).name,
            final(self).pid == old(self).pid,
    {
        self.state = State::Running;
    }

    /// The process waits for something.
    pub fn block(&mut self)
        ensures
            final(self).state == State::Blocked,
            final(self).name == old(self).name,
            final(self).pid == old(self).pid,
    {
        self.state = State::Blocked;
    }

    /// The process ends.
    pub fn terminate(&mut self)
        ensures
            final(self).state == State::Terminated,
            final(self).name == old(self).name,
            final(self).pid == old(self).pid,
    {
        self.state = State::Terminated;
    }

    /// Whether the process is ready to run.
    pub fn is_ready(&self) -> (r: bool)
        ensures
            r == (self.state == State::Ready),
    {
        self.state == State::Ready
    }
}

} // verus!
