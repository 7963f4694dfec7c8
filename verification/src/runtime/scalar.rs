use vstd::prelude::*;

use crate::compile::parse::{Builtin, BuiltinV, Expr, ExprV};
use crate::runtime::{str_of, RtVal, RtValV, StreamVar};
use crate::rx::{regex_matches, regex_ok, regex_replace_all, CompiledRegex};

verus! {

/// A runtime component that produces one scalar value per evaluation,
/// reading the current stream element out of the channel at its single leaf.
pub enum ScalarNode {
    RegexMatch { regex: CompiledRegex, argument: Box<ScalarNode> },
    RegexSubst { search: CompiledRegex, replace: String, argument: Box<ScalarNode> },
    ReadStreamVar,
}

/// How many channel reads one evaluation performs: one per leaf.
pub open spec fn scalar_reads(n: ScalarNode) -> nat
    decreases n,
{
    match n {
        ScalarNode::ReadStreamVar => 1,
        ScalarNode::RegexMatch { argument, .. } => scalar_reads(*argument),
        ScalarNode::RegexSubst { argument, .. } => scalar_reads(*argument),
    }
}

/// The value one evaluation yields, as a function of the value in the
/// channel.
pub open spec fn scalar_denote(n: ScalarNode, v: RtValV) -> RtValV
    decreases n,
{
    match n {
        ScalarNode::ReadStreamVar => v,
        ScalarNode::RegexMatch { regex, argument } => RtValV::B(
            regex_matches(regex.pattern(), str_of(scalar_denote(*argument, v))),
        ),
        ScalarNode::RegexSubst { search, replace, argument } => RtValV::S(
            regex_replace_all(search.pattern(), replace@, str_of(scalar_denote(*argument, v))),
        ),
    }
}

/// Whether the channel value feeds text into every operator of the tree, as
/// the type checker guarantees for every graph it lets through.
pub open spec fn scalar_accepts(n: ScalarNode, v: RtValV) -> bool
    decreases n,
{
    match n {
        ScalarNode::ReadStreamVar => true,
        ScalarNode::RegexMatch { argument, .. } => scalar_accepts(*argument, v) && scalar_denote(
            *argument,
            v,
        ) is S,
        ScalarNode::RegexSubst { argument, .. } => scalar_accepts(*argument, v) && scalar_denote(
            *argument,
            v,
        ) is S,
    }
}

impl ScalarNode {
    /// Evaluates the tree over the value waiting in the channel, reading the
    /// channel exactly once, at the single leaf.
    pub fn eval(&self, chan: &mut StreamVar) -> (r: RtVal)
        requires
            old(chan).wf(),
            old(chan).full(),
            scalar_reads(*self) == 1,
            scalar_accepts(*self, old(chan).value()),
        ensures
            final(chan).wf(),
            !final(chan).full(),
            final(chan).reads() == old(chan).reads() + 1,
            final(chan).writes() == old(chan).writes(),
            r@ == scalar_denote(*self, old(chan).value()),
        decreases *self,
    {
        match self {
            ScalarNode::ReadStreamVar => chan.read(),
            ScalarNode::RegexMatch { regex, argument } => {
                let input = argument.eval(chan);
                match input.str_ref() {
                    Some(s) => RtVal::Bool(regex.is_match(s)),
                    None => {
                        proof {
                            assert(false);
                        }
                        RtVal::Bool(false)
                    },
                }
            },
            ScalarNode::RegexSubst { search, replace, argument } => {
                let input = argument.eval(chan);
                match input.str_ref() {
                    Some(s) => RtVal::String(search.replace_all(s, replace.as_str())),
                    None => {
                        proof {
                            assert(false);
                        }
                        RtVal::Bool(false)
                    },
                }
            },
        }
    }
}

/// The `\N` backreference markers of a raw replacement template rewritten
/// into the pattern engine's own `${N}` group-reference syntax: each
/// backslash directly followed by a digit becomes `${`, the digit, `}`;
/// everything else is kept as it is.
pub open spec fn xlate(t: Seq<char>) -> Seq<char>
    decreases t.len(),
{
    if t.len() == 0 {
        Seq::empty()
    } else if t.len() >= 2 && t[0] == '\\' && is_digit(t[1]) {
        seq!['$', '{', t[1], '}'] + xlate(t.skip(2))
    } else {
        seq![t[0]] + xlate(t.skip(1))
    }
}

pub open spec fn is_digit(c: char) -> bool {
    ('0' as u32) <= (c as u32) <= ('9' as u32)
}

fn is_digit_exec(c: char) -> (b: bool)
    ensures
        b == is_digit(c),
{
    let u = c as u32;
    48 <= u && u <= 57
}

/// Relies on String::push: appends exactly the one character.
#[verifier::external_body]
fn push_char(s: &mut String, c: char)
    ensures
        final(s)@ == old(s)@.push(c),
{
    s.push(c);
}

/// Rewrites a raw replacement template once, at node construction, into the
/// engine's group-reference syntax.
fn translate_template(t: &str) -> (r: String)
    ensures
        r@ == xlate(t@),
{
    let n = t.unicode_len();
    let mut out = String::new();
    let mut i: usize = 0;
    proof {
        assert(t@.skip(0) =~= t@);
        assert(Seq::<char>::empty() + xlate(t@) =~= xlate(t@));
    }
    while i < n
        invariant
            n == t@.len(),
            0 <= i <= n,
            out@ + xlate(t@.skip(i as int)) == xlate(t@),
        decreases n - i,
    {
        let ghost rest = t@.skip(i as int);
        let c = t.get_char(i);
        proof {
            assert(rest[0] == t@[i as int]);
            assert(rest.skip(1) =~= t@.skip(i as int + 1));
        }
        if c == '\\' && i + 1 < n && is_digit_exec(t.get_char(i + 1)) {
            proof {
                assert(rest[1] == t@[i as int + 1]);
                assert(rest.skip(2) =~= t@.skip(i as int + 2));
            }
            out.append("${");
            push_char(&mut out, t.get_char(i + 1));
            out.append("}");
            proof {
                reveal_strlit("${");
                reveal_strlit("}");
                assert(out@ + xlate(t@.skip(i as int + 2)) =~= xlate(t@));
            }
            i = i + 2;
        } else {
            push_char(&mut out, c);
            proof {
                assert(out@ + xlate(t@.skip(i as int + 1)) =~= xlate(t@));
            }
            i = i + 1;
        }
    }
    proof {
        assert(t@.skip(n as int) =~= Seq::<char>::empty());
        assert(out@ + Seq::<char>::empty() =~= out@);
    }
    out
}

/// The scalar expressions the lowering accepts: the synthesized channel
/// read, or a one-argument application of a regex-match or
/// regex-substitution literal whose pattern the engine accepts.
pub open spec fn scalar_lowerable(e: ExprV) -> bool
    decreases e,
{
    match e {
        ExprV::ReadVar => true,
        ExprV::Call { function, arguments } => arguments.len() == 1 && scalar_lowerable(
            arguments[0],
        ) && (match *function {
            ExprV::Builtin(BuiltinV::RegexMatch { pattern }, _) => regex_ok(pattern),
            ExprV::Builtin(BuiltinV::RegexSubst { search, .. }, _) => regex_ok(search),
            _ => false,
        }),
        _ => false,
    }
}

/// What one step of the expression computes over the value its argument
/// produced.
pub open spec fn op_apply(op: ExprV, x: RtValV) -> RtValV {
    match op {
        ExprV::Builtin(BuiltinV::RegexMatch { pattern }, _) => RtValV::B(
            regex_matches(pattern, str_of(x)),
        ),
        ExprV::Builtin(BuiltinV::RegexSubst { search, replace }, _) => RtValV::S(
            regex_replace_all(search, xlate(replace), str_of(x)),
        ),
        _ => x,
    }
}

/// The value a lowerable scalar expression denotes over the current stream
/// element.
pub open spec fn scalar_expr_denote(e: ExprV, v: RtValV) -> RtValV
    decreases e,
{
    match e {
        ExprV::ReadVar => v,
        ExprV::Call { function, arguments } => if arguments.len() >= 1 {
            op_apply(*function, scalar_expr_denote(arguments[0], v))
        } else {
            v
        },
        _ => v,
    }
}

/// Whether the stream element feeds text into every operator of the
/// expression.
pub open spec fn scalar_expr_accepts(e: ExprV, v: RtValV) -> bool
    decreases e,
{
    match e {
        ExprV::Call { arguments, .. } => arguments.len() >= 1 ==> (scalar_expr_accepts(
            arguments[0],
            v,
        ) && scalar_expr_denote(arguments[0], v) is S),
        _ => true,
    }
}

/// Lowers a scalar expression into its runtime node, compiling each regex
/// literal once.
pub fn scalar_from(expr: &Expr) -> (r: ScalarNode)
    requires
        scalar_lowerable(expr@),
    ensures
        scalar_reads(r) == 1,
        forall|v: RtValV| #[trigger] scalar_denote(r, v) == scalar_expr_denote(expr@, v),
        forall|v: RtValV| #[trigger] scalar_accepts(r, v) == scalar_expr_accepts(expr@, v),
    decreases expr,
{
    match expr {
        Expr::ReadVar => ScalarNode::ReadStreamVar,
        Expr::FunCall(fcall) => {
            proof {
                assert(*expr == Expr::FunCall(*fcall));
                crate::compile::parse::lemma_exprs_view(fcall.arguments@);
            }
            scalar_fun_call(fcall)
        },
        _ => {
            proof {
                assert(false);
            }
            ScalarNode::ReadStreamVar
        },
    }
}

/// Lowers a one-argument application of a regex operator.
fn scalar_fun_call(fcall: &crate::compile::parse::FunCall) -> (r: ScalarNode)
    requires
        scalar_lowerable(
            ExprV::Call {
                function: Box::new((*fcall.function)@),
                arguments: crate::compile::parse::exprs_view(fcall.arguments@),
            },
        ),
    ensures
        ({
            let e = ExprV::Call {
                function: Box::new((*fcall.function)@),
                arguments: crate::compile::parse::exprs_view(fcall.arguments@),
            };
            &&& scalar_reads(r) == 1
            &&& forall|v: RtValV| #[trigger] scalar_denote(r, v) == scalar_expr_denote(e, v)
            &&& forall|v: RtValV| #[trigger] scalar_accepts(r, v) == scalar_expr_accepts(e, v)
        }),
    decreases fcall,
{
    let ghost e = ExprV::Call {
        function: Box::new((*fcall.function)@),
        arguments: crate::compile::parse::exprs_view(fcall.arguments@),
    };
    proof {
        crate::compile::parse::lemma_exprs_view(fcall.arguments@);
        assert(e->Call_arguments[0] == fcall.arguments@[0]@);
        assert(decreases_to!(*fcall => fcall.arguments));
        assert(decreases_to!(fcall.arguments => fcall.arguments[0int]));
    }
    let single_arg = scalar_from(&fcall.arguments[0]);
    let ghost argv = e->Call_arguments[0];
    match &*fcall.function {
        Expr::Builtin(Builtin::RegexMatch(pattern), _) => {
            let compiled = CompiledRegex::compile(pattern.as_str());
            match compiled {
                Some(regex) => {
                    let node = ScalarNode::RegexMatch { regex, argument: Box::new(single_arg) };
                    proof {
                        assert((*fcall.function)@ == ExprV::Builtin(
                            BuiltinV::RegexMatch { pattern: pattern@ },
                            fcall.function->Builtin_1,
                        ));
                        assert forall|v: RtValV| #[trigger] scalar_denote(node, v)
                            == scalar_expr_denote(e, v) by {
                            assert(scalar_denote(single_arg, v) == scalar_expr_denote(argv, v));
                            assert(scalar_denote(node, v) == RtValV::B(
                                regex_matches(
                                    regex.pattern(),
                                    str_of(scalar_denote(single_arg, v)),
                                ),
                            ));
                        }
                        assert forall|v: RtValV| #[trigger] scalar_accepts(node, v)
                            == scalar_expr_accepts(e, v) by {
                            assert(scalar_accepts(single_arg, v) == scalar_expr_accepts(argv, v));
                            assert(scalar_denote(single_arg, v) == scalar_expr_denote(argv, v));
                        }
                    }
                    node
                },
                None => {
                    proof {
                        assert(false);
                    }
                    ScalarNode::ReadStreamVar
                },
            }
        },
        Expr::Builtin(Builtin::RegexSubst(subst), _) => {
            let compiled = CompiledRegex::compile(subst.search.as_str());
            let replace = translate_template(subst.replace.as_str());
            match compiled {
                Some(search) => {
                    let node = ScalarNode::RegexSubst {
                        search,
                        replace,
                        argument: Box::new(single_arg),
                    };
                    proof {
                        assert((*fcall.function)@ == ExprV::Builtin(
                            BuiltinV::RegexSubst { search: subst.search@, replace: subst.replace@ },
                            fcall.function->Builtin_1,
                        ));
                        assert forall|v: RtValV| #[trigger] scalar_denote(node, v)
                            == scalar_expr_denote(e, v) by {
                            assert(scalar_denote(single_arg, v) == scalar_expr_denote(argv, v));
                            assert(scalar_denote(node, v) == RtValV::S(
                                regex_replace_all(
                                    search.pattern(),
                                    xlate(subst.replace@),
                                    str_of(scalar_denote(single_arg, v)),
                                ),
                            ));
                        }
                        assert forall|v: RtValV| #[trigger] scalar_accepts(node, v)
                            == scalar_expr_accepts(e, v) by {
                            assert(scalar_accepts(single_arg, v) == scalar_expr_accepts(argv, v));
                            assert(scalar_denote(single_arg, v) == scalar_expr_denote(argv, v));
                        }
                    }
                    node
                },
                None => {
                    proof {
                        assert(false);
                    }
                    ScalarNode::ReadStreamVar
                },
            }
        },
        _ => {
            proof {
                assert(false);
            }
            ScalarNode::ReadStreamVar
        },
    }
}

} // verus!
