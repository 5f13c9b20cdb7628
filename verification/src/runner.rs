//! Runners: executor capabilities dispatched by runner-type string, and
//! the per-step execution record.
use vstd::prelude::*;

use crate::value::Value;
use crate::value::ValueV;

verus! {

/// The closed set of script executor capabilities the engine knows.
#[derive(Clone, Copy, PartialEq, Eq, Structural, Debug)]
pub enum RunnerKind {
    /// Renders a shell script and runs it through `bash`.
    Bash,
}

/// A registered executor: the runner-type string a step names, and the
/// capability behind it.
pub struct Runner {
    pub type_: String,
    pub kind: RunnerKind,
}

/// Mathematical model of a `Runner`.
pub struct RunnerV {
    pub type_: Seq<char>,
    pub kind: RunnerKind,
}

impl View for Runner {
    type V = RunnerV;

    open spec fn view(&self) -> RunnerV {
        RunnerV { type_: self.type_@, kind: self.kind }
    }
}

impl DeepView for Runner {
    type V = RunnerV;

    open spec fn deep_view(&self) -> RunnerV {
        self.view()
    }
}

/// What one step's execution produced. A non-zero exit code is data, not
/// an error; empty captured streams are carried as `None`.
pub struct RunnerResult {
    pub exit_code: i32,
    pub duration_ms: u128,
    pub stdout: Option<String>,
    pub stderr: Option<String>,
    pub outputs: Option<Vec<(String, Value)>>,
}

/// Mathematical model of a `RunnerResult`.
pub struct RunnerResultV {
    pub exit_code: int,
    pub duration_ms: int,
    pub stdout: Option<Seq<char>>,
    pub stderr: Option<Seq<char>>,
    pub outputs: Option<Seq<(Seq<char>, ValueV)>>,
}

impl View for RunnerResult {
    type V = RunnerResultV;

    open spec fn view(&self) -> RunnerResultV {
        RunnerResultV {
            exit_code: self.exit_code as int,
            duration_ms: self.duration_ms as int,
            stdout: match self.stdout {
                Option::Some(ref s) => Option::Some(s@),
                Option::None => Option::None,
            },
            stderr: match self.stderr {
                Option::Some(ref s) => Option::Some(s@),
                Option::None => Option::None,
            },
            outputs: match self.outputs {
                Option::Some(ref v) => Option::Some(
                    v@.map_values(|p: (String, Value)| (p.0@, p.1@)),
                ),
                Option::None => Option::None,
            },
        }
    }
}

impl DeepView for RunnerResult {
    type V = RunnerResultV;

    open spec fn deep_view(&self) -> RunnerResultV {
        self.view()
    }
}

} // verus!
