//! The per-request execution state machine and the error taxonomy: a
//! request moves from context creation through binding, compiling and
//! running to its outcome, and the machine enforces the protocol — the
//! host functions are bound before anything compiles, and the watchdog
//! is armed before any script code runs.

use vstd::prelude::*;
use vstd::pervasive::unreached;
use vstd::string::StringExecFns;

verus! {

/// How one run of a successfully compiled script came back from the
/// engine.
pub enum RunResult {
    /// The script ran to completion: its stringified result.
    Value(String),
    /// The script raised during execution: the engine's best-effort
    /// message.
    Error(String),
    /// The run was aborted by the watchdog's termination signal.
    Killed,
}

/// What a request answers: a computed value, or one of the recoverable
/// failures, each reported distinctly so a caller can tell a script's
/// value from a killed script.
pub enum Outcome {
    /// The script's stringified result.
    Completed(String),
    /// The source was malformed; no script code ever ran.
    CompileError(String),
    /// The script raised during execution.
    RuntimeError(String),
    /// The watchdog forced an abort: the script overran its deadline.
    Terminated,
}

/// The outcome a finished run maps to: a value completes the request,
/// a script failure is a runtime error, a forced abort is reported as
/// terminated.
pub open spec fn run_outcome(r: RunResult) -> Outcome {
    match r {
        RunResult::Value(s) => Outcome::Completed(s),
        RunResult::Error(m) => Outcome::RuntimeError(m),
        RunResult::Killed => Outcome::Terminated,
    }
}

/// Where one request stands.
pub enum Phase {
    /// The isolated context exists; nothing is bound into it yet.
    Created,
    /// The host functions are installed in the context's global scope.
    Bound,
    /// The submitted source is being compiled.
    Compiling,
    /// Compilation succeeded; the script has not started running.
    Compiled,
    /// Script code is running under an armed watchdog.
    Running,
    /// The request is over, with this outcome.
    Finished(Outcome),
}

/// One request's execution, from context creation to outcome.
pub struct Execution {
    phase: Phase,
    watchdog_armed: bool,
}

impl Execution {
    /// Where this execution stands.
    pub closed spec fn phase_of(self) -> Phase {
        self.phase
    }

    /// Whether a watchdog timer has been armed for this execution.
    pub closed spec fn armed(self) -> bool {
        self.watchdog_armed
    }

    #[verifier::type_invariant]
    spec fn wf(self) -> bool {
        match self.phase {
            Phase::Created => !self.watchdog_armed,
            Phase::Bound => !self.watchdog_armed,
            Phase::Compiling => !self.watchdog_armed,
            Phase::Compiled => true,
            Phase::Running => self.watchdog_armed,
            Phase::Finished(o) => o is CompileError ==> !self.watchdog_armed,
        }
    }

    /// A fresh, isolated execution context: nothing bound, nothing
    /// armed.
    pub fn create() -> (e: Execution)
        ensures
            e.phase_of() is Created,
            !e.armed(),
    {
        Execution { phase: Phase::Created, watchdog_armed: false }
    }

    /// Install the host functions into the context's global scope:
    /// done exactly once, before anything compiles.
    pub fn bind_host_api(&mut self)
        requires
            old(self).phase_of() is Created,
        ensures
            final(self).phase_of() is Bound,
            !final(self).armed(),
    {
        proof {
            use_type_invariant(&*self);
        }
        self.phase = Phase::Bound;
    }

    /// Start compiling the submitted source.
    pub fn begin_compile(&mut self)
        requires
            old(self).phase_of() is Bound,
        ensures
            final(self).phase_of() is Compiling,
            !final(self).armed(),
    {
        proof {
            use_type_invariant(&*self);
        }
        self.phase = Phase::Compiling;
    }

    /// The source was malformed: the request ends with a compile
    /// error, and no watchdog was ever armed for it.
    pub fn fail_compile(&mut self, message: String)
        requires
            old(self).phase_of() is Compiling,
        ensures
            final(self).phase_of() == Phase::Finished(Outcome::CompileError(message)),
            !final(self).armed(),
    {
        proof {
            use_type_invariant(&*self);
        }
        self.phase = Phase::Finished(Outcome::CompileError(message));
    }

    /// Compilation succeeded.
    pub fn finish_compile(&mut self)
        requires
            old(self).phase_of() is Compiling,
        ensures
            final(self).phase_of() is Compiled,
            !final(self).armed(),
    {
        proof {
            use_type_invariant(&*self);
        }
        self.phase = Phase::Compiled;
    }

    /// Arm the watchdog timer for this execution.
    pub fn arm_watchdog(&mut self)
        requires
            old(self).phase_of() is Compiled,
        ensures
            final(self).phase_of() is Compiled,
            final(self).armed(),
    {
        proof {
            use_type_invariant(&*self);
        }
        self.watchdog_armed = true;
    }

    /// Enter the run. The machine demands an armed watchdog first, so
    /// there is no window in which an unbounded script runs unwatched.
    pub fn begin_run(&mut self)
        requires
            old(self).phase_of() is Compiled,
            old(self).armed(),
        ensures
            final(self).phase_of() is Running,
            final(self).armed(),
    {
        proof {
            use_type_invariant(&*self);
        }
        self.phase = Phase::Running;
    }

    /// The run came back, normally, with a script failure, or aborted
    /// by the watchdog: record the outcome it maps to.
    pub fn finish_run(&mut self, result: RunResult)
        requires
            old(self).phase_of() is Running,
        ensures
            final(self).phase_of() == Phase::Finished(run_outcome(result)),
            final(self).armed() == old(self).armed(),
    {
        proof {
            use_type_invariant(&*self);
        }
        let o = match result {
            RunResult::Value(s) => Outcome::Completed(s),
            RunResult::Error(m) => Outcome::RuntimeError(m),
            RunResult::Killed => Outcome::Terminated,
        };
        self.phase = Phase::Finished(o);
    }

    /// Take the outcome of a finished execution; the context is
    /// destroyed with the machine, on every exit path.
    pub fn into_outcome(self) -> (o: Outcome)
        requires
            self.phase_of() matches Phase::Finished(_),
        ensures
            self.phase_of() == Phase::Finished(o),
    {
        match self.phase {
            Phase::Finished(o) => o,
            _ => unreached(),
        }
    }

    /// Whether the watchdog was armed, with what the machine's
    /// invariant guarantees of it: a run in progress always has one
    /// armed, and a request that ended in a compile error never armed
    /// one, so none is left dangling.
    pub fn watchdog_state(&self) -> (b: bool)
        ensures
            b == self.armed(),
            self.phase_of() is Running ==> b,
            (self.phase_of() matches Phase::Finished(Outcome::CompileError(_))) ==> !b,
    {
        proof {
            use_type_invariant(self);
        }
        self.watchdog_armed
    }
}

/// The response body the caller sees for each outcome: the script's
/// value as-is, and each failure behind its distinct marker.
pub open spec fn response_of(o: Outcome) -> Seq<char> {
    match o {
        Outcome::Completed(s) => s@,
        Outcome::CompileError(m) => "compile error: "@ + m@,
        Outcome::RuntimeError(m) => "runtime error: "@ + m@,
        Outcome::Terminated => "script terminated"@,
    }
}

/// Turn an outcome into the response body sent back to the caller.
pub fn render_response(o: &Outcome) -> (r: String)
    ensures
        r@ == response_of(*o),
{
    match o {
        Outcome::Completed(s) => s.clone(),
        Outcome::CompileError(m) => {
            let mut r = String::from_str("compile error: ");
            r.append(m.as_str());
            r
        },
        Outcome::RuntimeError(m) => {
            let mut r = String::from_str("runtime error: ");
            r.append(m.as_str());
            r
        },
        Outcome::Terminated => String::from_str("script terminated"),
    }
}

} // verus!
