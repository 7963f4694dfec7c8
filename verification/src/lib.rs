pub mod compile;
pub mod error;
pub mod runtime;
pub mod rx;

use vstd::prelude::*;

use compile::{compile, compile_spec};
use error::Error;
use runtime::{exec, program_output};

verus! {

/// Compiles a whole program text and runs it over the given input lines:
/// the printed output lines, or the first error on the way there.
pub fn run_program(pgm: &str, input: Vec<String>) -> (r: Result<Vec<String>, Error>)
    ensures
        match (r, compile_spec(pgm@)) {
            (Ok(out), Ok(v)) => out.deep_view() == program_output(v, input.deep_view()),
            (Err(err), Err(v)) => err@ == v,
            _ => false,
        },
{
    let expr_tree = match compile(pgm) {
        Ok(e) => e,
        Err(err) => {
            return Err(err);
        },
    };
    Ok(exec(&expr_tree, input))
}

} // verus!
