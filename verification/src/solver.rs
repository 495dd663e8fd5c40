//! The solver driver's reading side: what an external solver printed, read
//! as a verdict.

use crate::text::{
    contains, contains_text, join2, join_from, joined, lines, lines_of, rest_from, same_text,
};
use vstd::prelude::*;
use vstd::string::StringExecFns;

verus! {

/// What a solver run comes to: a model where the script is satisfiable, none
/// where it is not, or the reason why there is no verdict.
pub type SolverAnswer = Result<Option<String>, String>;

/// What a solver run comes to, as a value of mathematics.
pub open spec fn answer_view(answer: SolverAnswer) -> Result<Option<Seq<char>>, Seq<char>> {
    match answer {
        Ok(Some(model)) => Ok(Some(model@)),
        Ok(None) => Ok(None),
        Err(reason) => Err(reason@),
    }
}

/// Whether the run failed: the process did not end well, or it printed an
/// error.
pub open spec fn run_failed(ended_well: bool, stdout: Seq<char>) -> bool {
    !ended_well || contains_text(stdout, "ERROR:"@)
}

/// The verdict that the output of a run stands for: a failed run is an
/// error; a first line `SAT` gives the lines behind it as the model; a first
/// line `UNSAT` gives no model; anything else is an error.
pub open spec fn verdict_of(ended_well: bool, stdout: Seq<char>, stderr: Seq<char>) -> Result<
    Option<Seq<char>>,
    Seq<char>,
> {
    let all = lines_of(stdout);
    if run_failed(ended_well, stdout) {
        Err("Z3 Error: "@ + stdout + "\nStderr: "@ + stderr)
    } else if all.len() > 0 && all[0] == "SAT"@ {
        Ok(Some(joined(rest_from(all, 1), "\n"@)))
    } else if all.len() > 0 && all[0] == "UNSAT"@ {
        Ok(None)
    } else {
        Err("Z3 returned UNKNOWN or unexpected output: "@ + stdout)
    }
}

/// The reader of solver output. It holds nothing.
pub struct Z3Solver;

impl Z3Solver {
    /// A reader.
    pub fn new() -> Self {
        Z3Solver
    }

    /// The verdict that the output of a run stands for.
    pub fn read_output(&self, ended_well: bool, stdout: &str, stderr: &str) -> (r: SolverAnswer)
        ensures
            answer_view(r) == verdict_of(ended_well, stdout@, stderr@),
    {
        if !ended_well || contains(stdout, "ERROR:") {
            let mut message = join2("Z3 Error: ", stdout);
            message.append("\nStderr: ");
            message.append(stderr);
            return Err(message);
        }
        let all = lines(stdout);
        if all.len() > 0 && same_text(all[0].as_str(), "SAT") {
            Ok(Some(join_from(&all, 1, "\n")))
        } else if all.len() > 0 && same_text(all[0].as_str(), "UNSAT") {
            Ok(None)
        } else {
            Err(join2("Z3 returned UNKNOWN or unexpected output: ", stdout))
        }
    }
}

} // verus!
