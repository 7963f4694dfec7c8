pub mod parse;
pub mod token;
pub mod types;

use vstd::prelude::*;

use crate::error::{Error, ErrorV};
use parse::{parse, parse_spec, patterns_ok_expr, Expr, ExprV};
use token::ParsePos;
use types::{formattable, program_check, tc_wf, typecheck_program};

verus! {

/// Anything that can point back into the source text.
pub trait Position {
    /// Which values of the type carry a position.
    spec fn pos_wf(&self) -> bool;

    /// The span the value points back to.
    spec fn spec_position(&self) -> ParsePos;

    /// The span of source text this value came from.
    fn position(&self) -> (r: ParsePos)
        requires
            self.pos_wf(),
        ensures
            r == self.spec_position(),
    ;
}

/// The whole front end over a program text: its parsed, resolved tree, with
/// a formattable program type, or the first error on the way there.
pub open spec fn compile_spec(s: Seq<char>) -> Result<ExprV, ErrorV> {
    match parse_spec(s) {
        Err(err) => Err(err),
        Ok(tree) => match program_check(tree) {
            Err(err) => Err(err),
            Ok(_) => Ok(tree),
        },
    }
}

/// Parses, resolves and type checks a program text. What comes back is
/// ready for lowering: well formed, every pattern accepted by the engine,
/// and typed as a printable stream.
pub fn compile(pgm: &str) -> (r: Result<Expr, Error>)
    ensures
        match (r, compile_spec(pgm@)) {
            (Ok(e), Ok(v)) => {
                &&& e@ == v
                &&& tc_wf(v)
                &&& patterns_ok_expr(v)
                &&& program_check(v) is Ok
                &&& formattable(program_check(v)->Ok_0)
            },
            (Err(err), Err(v)) => err@ == v,
            _ => false,
        },
{
    let expr_tree = match parse(pgm) {
        Ok(tree) => tree,
        Err(err) => {
            return Err(err);
        },
    };
    match typecheck_program(&expr_tree) {
        Ok(_) => Ok(expr_tree),
        Err(err) => Err(err),
    }
}

} // verus!
