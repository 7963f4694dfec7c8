use vstd::prelude::*;

use crate::compile::token::{
    lex_from, token_wf, tokenize_all, Identifier, Kind, KindV, ParsePos, RegexSubst, Token, TokenV,
};
use crate::compile::Position;
use crate::error::{Error, ErrorV};
use crate::rx::regex_ok;

verus! {

/// The mathematical form of a builtin marker.
pub enum BuiltinV {
    Stdin,
    Filter,
    MapOp,
    RegexMatch { pattern: Seq<char> },
    RegexSubst { search: Seq<char>, replace: Seq<char> },
}

/// The mathematical form of an expression tree.
pub enum ExprV {
    Builtin(BuiltinV, ParsePos),
    Unresolved { name: Seq<char>, pos: ParsePos },
    Call { function: Box<ExprV>, arguments: Seq<ExprV> },
    ReadVar,
}

/// A fixed operator or literal the compiler recognizes.
#[derive(Debug)]
pub enum Builtin {
    /* Streams */
    Stdin,
    Filter,
    MapOp,
    /* Scalars */
    RegexMatch(String),
    RegexSubst(RegexSubst),
}

/// One node of the expression tree. `ReadVar` is introduced only during
/// lowering, never by the parser: it stands for reading the current stream
/// element out of the operator's channel.
#[derive(Debug)]
pub enum Expr {
    Builtin(Builtin, ParsePos),
    UnresolvedIdentifier(Identifier),
    FunCall(FunCall),
    ReadVar,
}

/// A flat function call: a head expression applied to a list of arguments.
#[derive(Debug)]
pub struct FunCall {
    pub function: Box<Expr>,
    pub arguments: Vec<Expr>,
}

impl View for Builtin {
    type V = BuiltinV;

    open spec fn view(&self) -> BuiltinV {
        match self {
            Builtin::Stdin => BuiltinV::Stdin,
            Builtin::Filter => BuiltinV::Filter,
            Builtin::MapOp => BuiltinV::MapOp,
            Builtin::RegexMatch(pattern) => BuiltinV::RegexMatch { pattern: pattern@ },
            Builtin::RegexSubst(subst) => BuiltinV::RegexSubst {
                search: subst.search@,
                replace: subst.replace@,
            },
        }
    }
}

impl View for Expr {
    type V = ExprV;

    open spec fn view(&self) -> ExprV
        decreases self,
    {
        match self {
            Expr::Builtin(b, pos) => ExprV::Builtin(b@, *pos),
            Expr::UnresolvedIdentifier(idn) => ExprV::Unresolved {
                name: idn.name@,
                pos: idn.position,
            },
            Expr::FunCall(fcall) => ExprV::Call {
                function: Box::new((*fcall.function)@),
                arguments: exprs_view(fcall.arguments@),
            },
            Expr::ReadVar => ExprV::ReadVar,
        }
    }
}

/// The views of a sequence of expressions, in order.
pub open spec fn exprs_view(s: Seq<Expr>) -> Seq<ExprV>
    decreases s,
{
    if s.len() == 0 {
        Seq::empty()
    } else {
        seq![s[0]@] + exprs_view(s.drop_first())
    }
}

pub proof fn lemma_exprs_view(s: Seq<Expr>)
    ensures
        exprs_view(s).len() == s.len(),
        forall|i: int| 0 <= i < s.len() ==> exprs_view(s)[i] == #[trigger] s[i]@,
    decreases s.len(),
{
    if s.len() > 0 {
        lemma_exprs_view(s.drop_first());
        assert(exprs_view(s) == seq![s[0]@] + exprs_view(s.drop_first()));
        assert(exprs_view(s).len() == s.len());
        assert forall|i: int| 0 <= i < s.len() implies exprs_view(s)[i] == #[trigger] s[i]@ by {
            if i == 0 {
                assert(exprs_view(s)[0] == s[0]@);
            } else {
                assert(s.drop_first()[i - 1] == s[i]);
                assert(exprs_view(s)[i] == exprs_view(s.drop_first())[i - 1]);
            }
        }
    }
}

impl DeepView for Expr {
    type V = ExprV;

    open spec fn deep_view(&self) -> ExprV {
        self.view()
    }
}

impl FunCall {
    /// Wraps a head expression and its arguments into one call node.
    pub fn new_expr(function: Expr, arguments: Vec<Expr>) -> (r: Expr)
        ensures
            r@ == (ExprV::Call {
                function: Box::new(function@),
                arguments: exprs_view(arguments@),
            }),
    {
        Expr::FunCall(FunCall { function: Box::new(function), arguments })
    }
}

/// Whether the tree is free of lowering-only channel reads, as every tree the
/// parser builds is.
pub open spec fn no_read_var(e: ExprV) -> bool
    decreases e,
{
    match e {
        ExprV::ReadVar => false,
        ExprV::Call { function, arguments } => no_read_var(*function) && (forall|i: int|
            0 <= i < arguments.len() ==> no_read_var(#[trigger] arguments[i])),
        _ => true,
    }
}

/// Whether the pattern engine accepts every pattern the tree carries.
pub open spec fn patterns_ok_expr(e: ExprV) -> bool
    decreases e,
{
    match e {
        ExprV::Builtin(BuiltinV::RegexMatch { pattern }, _) => regex_ok(pattern),
        ExprV::Builtin(BuiltinV::RegexSubst { search, .. }, _) => regex_ok(search),
        ExprV::Call { function, arguments } => patterns_ok_expr(*function) && (forall|i: int|
            0 <= i < arguments.len() ==> patterns_ok_expr(#[trigger] arguments[i])),
        _ => true,
    }
}

/// The span an expression points back to: a call points at its head.
pub open spec fn expr_pos(e: ExprV) -> ParsePos
    decreases e,
{
    match e {
        ExprV::Builtin(_, pos) => pos,
        ExprV::Unresolved { pos, .. } => pos,
        ExprV::Call { function, .. } => expr_pos(*function),
        ExprV::ReadVar => ParsePos { start: 0, len: 0 },
    }
}

impl Position for Expr {
    open spec fn pos_wf(&self) -> bool {
        no_read_var(self@)
    }

    open spec fn spec_position(&self) -> ParsePos {
        expr_pos(self@)
    }

    fn position(&self) -> (r: ParsePos)
        decreases self,
    {
        match self {
            Expr::FunCall(fcall) => fcall.function.position(),
            Expr::UnresolvedIdentifier(idn) => idn.position,
            Expr::Builtin(_, pos) => *pos,
            Expr::ReadVar => {
                proof {
                    assert(false);
                }
                ParsePos { start: 0, len: 0 }
            },
        }
    }
}

/// The leaf expression a single token converts to.
pub open spec fn leaf_expr(t: TokenV) -> ExprV {
    match t.kind {
        KindV::Ident { name } => ExprV::Unresolved { name, pos: t.pos },
        KindV::MatchLit { pattern } => ExprV::Builtin(BuiltinV::RegexMatch { pattern }, t.pos),
        KindV::SubstLit { search, replace } => ExprV::Builtin(
            BuiltinV::RegexSubst { search, replace },
            t.pos,
        ),
    }
}

/// The leaf expressions of a token sequence, in order.
pub open spec fn leaf_exprs(toks: Seq<TokenV>) -> Seq<ExprV> {
    toks.map_values(|t: TokenV| leaf_expr(t))
}

pub proof fn lemma_leaf_exprs(toks: Seq<TokenV>)
    ensures
        leaf_exprs(toks).len() == toks.len(),
        forall|i: int| 0 <= i < toks.len() ==> leaf_exprs(toks)[i] == leaf_expr(#[trigger] toks[i]),
{
}

/// The single tree the flat-call grammar builds from a token sequence: the
/// first token is the head; every further token independently becomes a leaf
/// argument; a lone token is the whole program.
pub open spec fn tree_of(toks: Seq<TokenV>) -> Result<ExprV, ErrorV> {
    if toks.len() == 0 {
        Err(ErrorV::EmptyProgram)
    } else if toks.len() == 1 {
        Ok(leaf_expr(toks[0]))
    } else {
        Ok(ExprV::Call {
            function: Box::new(leaf_expr(toks[0])),
            arguments: leaf_exprs(toks.drop_first()),
        })
    }
}

/// Converts one token into the leaf expression it stands for.
fn trivial_expr(token: Token) -> (r: Expr)
    requires
        token_wf(token),
    ensures
        r@ == leaf_expr(token@),
{
    let pos = token.position;

    match token.kind {
        Kind::Identifier(idn) => Expr::UnresolvedIdentifier(idn),
        Kind::RegexMatch(pattern) => Expr::Builtin(Builtin::RegexMatch(pattern), pos),
        Kind::RegexSubst(subst) => Expr::Builtin(Builtin::RegexSubst(subst), pos),
    }
}

/// Builds the whole flat call from the head expression and the remaining
/// tokens, each converted independently into a leaf argument.
fn parse_fun_call(first_atom: Expr, rem_tokens: Vec<Token>) -> (r: Expr)
    requires
        forall|i: int| 0 <= i < rem_tokens.len() ==> token_wf(#[trigger] rem_tokens[i]),
    ensures
        r@ == (ExprV::Call {
            function: Box::new(first_atom@),
            arguments: leaf_exprs(rem_tokens.deep_view()),
        }),
{
    let ghost toks0 = rem_tokens.deep_view();
    let mut rem = rem_tokens;
    let mut args: Vec<Expr> = Vec::new();

    proof {
        lemma_leaf_exprs(toks0);
        assert(rem.deep_view() =~= toks0.skip(0));
        assert(exprs_view(args@) =~= leaf_exprs(toks0).take(0));
    }
    while rem.len() > 0
        invariant
            forall|i: int| 0 <= i < rem.len() ==> token_wf(#[trigger] rem[i]),
            rem.len() <= toks0.len(),
            rem.deep_view() == toks0.skip(toks0.len() - rem.len()),
            exprs_view(args@) == leaf_exprs(toks0).take(toks0.len() - rem.len()),
        decreases rem.len(),
    {
        let ghost k = toks0.len() - rem.len();
        let ghost rdeep = rem.deep_view();
        let ghost argsv = args@;
        let token = rem.remove(0);
        proof {
            assert(token@ == rdeep[0]);
            assert(rdeep[0] == toks0[k]);
            assert(rem.deep_view() =~= rdeep.drop_first());
            assert(rdeep.drop_first() =~= toks0.skip(k + 1));
        }
        let this_arg = trivial_expr(token);
        args.push(this_arg);
        proof {
            assert(args@ == argsv.push(this_arg));
            lemma_exprs_view(args@);
            lemma_exprs_view(argsv);
            lemma_leaf_exprs(toks0);
            assert forall|j: int| 0 <= j < k + 1 implies exprs_view(args@)[j] == leaf_exprs(
                toks0,
            ).take(k + 1)[j] by {
                assert(leaf_exprs(toks0).take(k + 1)[j] == leaf_exprs(toks0)[j]);
                assert(leaf_exprs(toks0)[j] == leaf_expr(toks0[j]));
                assert(exprs_view(args@)[j] == args@[j]@);
                if j < k {
                    assert(args@[j] == argsv[j]);
                    assert(exprs_view(argsv)[j] == argsv[j]@);
                    assert(exprs_view(argsv)[j] == leaf_exprs(toks0).take(k)[j]);
                    assert(leaf_exprs(toks0).take(k)[j] == leaf_exprs(toks0)[j]);
                } else {
                    assert(args@[k] == this_arg);
                    assert(this_arg@ == leaf_expr(toks0[k]));
                }
            }
            assert(exprs_view(args@) =~= leaf_exprs(toks0).take(k + 1));
        }
    }

    proof {
        lemma_leaf_exprs(toks0);
        assert(leaf_exprs(toks0).take(toks0.len() as int) =~= leaf_exprs(toks0));
    }
    FunCall::new_expr(first_atom, args)
}

/// Consumes the entire token sequence into exactly one expression tree.
fn build_exp_tree(tokens: Vec<Token>) -> (r: Result<Expr, Error>)
    requires
        forall|i: int| 0 <= i < tokens.len() ==> token_wf(#[trigger] tokens[i]),
    ensures
        match (r, tree_of(tokens.deep_view())) {
            (Ok(e), Ok(v)) => e@ == v,
            (Err(err), Err(v)) => err@ == v,
            _ => false,
        },
{
    if tokens.len() == 0 {
        return Err(Error::EmptyProgram);
    }
    let ghost toks0 = tokens.deep_view();
    let mut rest = tokens;
    let first_token = rest.remove(0);
    let first_atom = trivial_expr(first_token);
    proof {
        assert(rest.deep_view() =~= toks0.drop_first());
    }

    if rest.len() == 0 {
        // No more token: that's all we have
        Ok(first_atom)
    } else {
        // There are more tokens: we assume a function call
        Ok(parse_fun_call(first_atom, rest))
    }
}

/// The builtin a name resolves to, if any.
pub open spec fn builtin_of_name(name: Seq<char>) -> Option<BuiltinV> {
    if name == "stdin"@ {
        Some(BuiltinV::Stdin)
    } else if name == "filter"@ {
        Some(BuiltinV::Filter)
    } else if name == "map"@ {
        Some(BuiltinV::MapOp)
    } else {
        None
    }
}

/// Post-order rewrite of every identifier leaf into the builtin marker its
/// name resolves to. The first failure wins: a node before its children, the
/// call head before the arguments, arguments left to right.
pub open spec fn resolve(e: ExprV) -> Result<ExprV, ErrorV>
    decreases e,
{
    match e {
        ExprV::Unresolved { name, pos } => match builtin_of_name(name) {
            Some(b) => Ok(ExprV::Builtin(b, pos)),
            None => Err(ErrorV::CantResolve { name, pos }),
        },
        ExprV::Call { function, arguments } => match resolve(*function) {
            Ok(f) => match resolve_args(arguments) {
                Ok(rargs) => Ok(ExprV::Call { function: Box::new(f), arguments: rargs }),
                Err(err) => Err(err),
            },
            Err(err) => Err(err),
        },
        _ => Ok(e),
    }
}

pub open spec fn resolve_args(args: Seq<ExprV>) -> Result<Seq<ExprV>, ErrorV>
    decreases args,
{
    if args.len() == 0 {
        Ok(Seq::empty())
    } else {
        match resolve(args[0]) {
            Ok(a) => match resolve_args(args.drop_first()) {
                Ok(rest) => Ok(seq![a] + rest),
                Err(err) => Err(err),
            },
            Err(err) => Err(err),
        }
    }
}

/// Resolves one identifier to the builtin its name denotes.
fn resolve_builtin(starting_idn: Identifier) -> (r: Result<Builtin, Error>)
    ensures
        match (r, builtin_of_name(starting_idn.name@)) {
            (Ok(b), Some(v)) => b@ == v,
            (Err(err), None) => err@ == (ErrorV::CantResolve {
                name: starting_idn.name@,
                pos: starting_idn.position,
            }),
            _ => false,
        },
{
    if starting_idn.name == String::from_str("stdin") {
        Ok(Builtin::Stdin)
    } else if starting_idn.name == String::from_str("filter") {
        Ok(Builtin::Filter)
    } else if starting_idn.name == String::from_str("map") {
        Ok(Builtin::MapOp)
    } else {
        Err(Error::CantResolve(starting_idn))
    }
}

pub(crate) fn dup_builtin(b: &Builtin) -> (r: Builtin)
    ensures
        r@ == b@,
{
    match b {
        Builtin::Stdin => Builtin::Stdin,
        Builtin::Filter => Builtin::Filter,
        Builtin::MapOp => Builtin::MapOp,
        Builtin::RegexMatch(pattern) => Builtin::RegexMatch(pattern.clone()),
        Builtin::RegexSubst(subst) => Builtin::RegexSubst(RegexSubst {
            search: subst.search.clone(),
            replace: subst.replace.clone(),
        }),
    }
}

/// Rewrites identifier leaves into builtin markers, bottom of the tree
/// included, stopping at the first name that resolves to nothing.
fn resolve_expr(e: &Expr) -> (r: Result<Expr, Error>)
    ensures
        match (r, resolve(e@)) {
            (Ok(out), Ok(v)) => out@ == v,
            (Err(err), Err(v)) => err@ == v,
            _ => false,
        },
    decreases e,
{
    match e {
        Expr::UnresolvedIdentifier(idn) => {
            let copy = Identifier { name: idn.name.clone(), position: idn.position };
            match resolve_builtin(copy) {
                Ok(b) => Ok(Expr::Builtin(b, idn.position)),
                Err(err) => Err(err),
            }
        },
        Expr::Builtin(b, pos) => Ok(Expr::Builtin(dup_builtin(b), *pos)),
        Expr::ReadVar => Ok(Expr::ReadVar),
        Expr::FunCall(fcall) => {
            proof {
                assert(*e is FunCall);
                assert(*e == Expr::FunCall(*fcall));
            }
            let f = match resolve_expr(&*fcall.function) {
                Ok(f) => f,
                Err(err) => {
                    return Err(err);
                },
            };
            let ghost args0 = exprs_view(fcall.arguments@);
            proof {
                lemma_exprs_view(fcall.arguments@);
                assert(args0.skip(0) =~= args0);
            }
            let mut out: Vec<Expr> = Vec::new();
            let n = fcall.arguments.len();
            let mut i: usize = 0;
            while i < n
                invariant
                    *e == Expr::FunCall(*fcall),
                    resolve(fcall.function@) == Ok::<ExprV, ErrorV>(f@),
                    n == fcall.arguments.len(),
                    0 <= i <= n,
                    args0 == exprs_view(fcall.arguments@),
                    args0.len() == n,
                    forall|j: int| 0 <= j < n ==> args0[j] == #[trigger] fcall.arguments@[j]@,
                    match resolve_args(args0.skip(i as int)) {
                        Ok(rest) => resolve_args(args0) == Ok::<Seq<ExprV>, ErrorV>(
                            exprs_view(out@) + rest,
                        ),
                        Err(q) => resolve_args(args0) == Err::<Seq<ExprV>, ErrorV>(q),
                    },
                decreases n - i,
            {
                let ghost suffix = args0.skip(i as int);
                proof {
                    assert(suffix[0] == args0[i as int]);
                    assert(suffix.drop_first() =~= args0.skip(i as int + 1));
                    assert(*e == Expr::FunCall(*fcall));
                    assert(decreases_to!(*e => *fcall));
                    assert(decreases_to!(*fcall => fcall.arguments));
                    assert(decreases_to!(fcall.arguments => fcall.arguments[i as int]));
                    assert(decreases_to!(e => fcall.arguments@[i as int]));
                }
                match resolve_expr(&fcall.arguments[i]) {
                    Ok(a) => {
                        let ghost out_old = out@;
                        out.push(a);
                        proof {
                            assert(out@ == out_old.push(a));
                            lemma_exprs_view(out_old);
                            lemma_exprs_view(out@);
                            assert forall|j: int|
                                0 <= j < out@.len() implies exprs_view(out@)[j] == exprs_view(
                                out_old,
                            ).push(a@)[j] by {
                                assert(exprs_view(out@)[j] == out@[j]@);
                                if j < out_old.len() {
                                    assert(out@[j] == out_old[j]);
                                    assert(exprs_view(out_old)[j] == out_old[j]@);
                                } else {
                                    assert(out@[j] == a);
                                }
                            }
                            assert(exprs_view(out@) =~= exprs_view(out_old).push(a@));
                            assert(resolve(args0[i as int]) == Ok::<ExprV, ErrorV>(a@));
                            if resolve_args(args0.skip(i as int + 1)) is Ok {
                                let rest2 = resolve_args(args0.skip(i as int + 1))->Ok_0;
                                assert(resolve_args(suffix) == Ok::<Seq<ExprV>, ErrorV>(
                                    seq![a@] + rest2,
                                ));
                                assert((exprs_view(out_old) + (seq![a@] + rest2)) =~= (exprs_view(
                                    out_old,
                                ).push(a@) + rest2));
                            }
                        }
                    },
                    Err(err) => {
                        proof {
                            assert(resolve(args0[i as int]) == Err::<ExprV, ErrorV>(err@));
                            assert(resolve_args(suffix) == Err::<Seq<ExprV>, ErrorV>(err@));
                        }
                        return Err(err);
                    },
                }
                i = i + 1;
            }
            proof {
                assert(args0.skip(n as int) =~= Seq::<ExprV>::empty());
                assert(exprs_view(out@) + Seq::<ExprV>::empty() =~= exprs_view(out@));
            }
            Ok(FunCall::new_expr(f, out))
        },
    }
}

/// The concrete-syntax rendering of a builtin marker.
pub open spec fn builtin_text(b: BuiltinV) -> Seq<char> {
    match b {
        BuiltinV::Stdin => "stdin"@,
        BuiltinV::Filter => "filter"@,
        BuiltinV::MapOp => "map"@,
        BuiltinV::RegexMatch { pattern } => "m/"@ + pattern + "/"@,
        BuiltinV::RegexSubst { search, replace } => "s/"@ + search + "/"@ + replace + "/"@,
    }
}

/// The rendering of an expression tree: builtins in their concrete syntax,
/// unresolved names marked, a call as its head followed by its
/// space-separated arguments, and a channel read as `(read)`.
pub open spec fn pretty(e: ExprV) -> Seq<char>
    decreases e, 1int,
{
    match e {
        ExprV::Builtin(b, _) => builtin_text(b),
        ExprV::Unresolved { name, .. } => "?:"@ + name + ":?"@,
        ExprV::Call { function, arguments } => pretty(*function) + pretty_args(arguments),
        ExprV::ReadVar => "(read)"@,
    }
}

pub open spec fn pretty_args(args: Seq<ExprV>) -> Seq<char>
    decreases args, 0int,
{
    if args.len() == 0 {
        Seq::empty()
    } else {
        " "@ + pretty(args[0]) + pretty_args(args.drop_first())
    }
}

proof fn lemma_pretty_args_snoc(args: Seq<ExprV>, a: ExprV)
    ensures
        pretty_args(args.push(a)) == pretty_args(args) + " "@ + pretty(a),
    decreases args.len(),
{
    let whole = args.push(a);
    if args.len() == 0 {
        assert(whole.len() == 1);
        assert(whole[0] == a);
        assert(whole.drop_first() =~= Seq::<ExprV>::empty());
        assert(pretty_args(whole.drop_first()) == Seq::<char>::empty());
        assert(pretty_args(whole) == " "@ + pretty(a) + Seq::<char>::empty());
        assert(pretty_args(args) == Seq::<char>::empty());
        assert(" "@ + pretty(a) + Seq::<char>::empty() =~= Seq::<char>::empty() + " "@ + pretty(
            a,
        ));
    } else {
        assert(whole[0] == args[0]);
        assert(whole.drop_first() =~= args.drop_first().push(a));
        lemma_pretty_args_snoc(args.drop_first(), a);
        assert(pretty_args(whole) == " "@ + pretty(whole[0]) + pretty_args(whole.drop_first()));
        assert(pretty_args(args) == " "@ + pretty(args[0]) + pretty_args(args.drop_first()));
        assert(" "@ + pretty(args[0]) + (pretty_args(args.drop_first()) + " "@ + pretty(a)) =~= (
        " "@ + pretty(args[0]) + pretty_args(args.drop_first())) + " "@ + pretty(a));
    }
}

fn builtin_pretty(b: &Builtin) -> (r: String)
    ensures
        r@ == builtin_text(b@),
{
    match b {
        Builtin::Stdin => String::from_str("stdin"),
        Builtin::Filter => String::from_str("filter"),
        Builtin::MapOp => String::from_str("map"),
        Builtin::RegexMatch(pattern) => {
            let mut out = String::from_str("m/");
            out.append(pattern.as_str());
            out.append("/");
            out
        },
        Builtin::RegexSubst(subst) => {
            let mut out = String::from_str("s/");
            out.append(subst.search.as_str());
            out.append("/");
            out.append(subst.replace.as_str());
            out.append("/");
            out
        },
    }
}

impl Expr {
    /// Renders the tree back to program-like text, for diagnostics.
    pub fn pretty_print(&self) -> (r: String)
        ensures
            r@ == pretty(self@),
        decreases self,
    {
        match self {
            Expr::Builtin(b, _pos) => builtin_pretty(b),
            Expr::UnresolvedIdentifier(identifier) => {
                let mut out = String::from_str("?:");
                out.append(identifier.name.as_str());
                out.append(":?");
                out
            },
            Expr::FunCall(fcall) => {
                proof {
                    assert(*self == Expr::FunCall(*fcall));
                    lemma_exprs_view(fcall.arguments@);
                }
                let ghost argsv = exprs_view(fcall.arguments@);
                let mut out = fcall.function.pretty_print();
                let n = fcall.arguments.len();
                let mut i: usize = 0;
                proof {
                    assert(argsv.take(0) =~= Seq::<ExprV>::empty());
                    assert(out@ + Seq::<char>::empty() =~= out@);
                }
                while i < n
                    invariant
                        *self == Expr::FunCall(*fcall),
                        argsv == exprs_view(fcall.arguments@),
                        argsv.len() == n == fcall.arguments.len(),
                        0 <= i <= n,
                        forall|j: int| 0 <= j < n ==> argsv[j] == #[trigger] fcall.arguments@[j]@,
                        out@ == pretty(fcall.function@) + pretty_args(argsv.take(i as int)),
                    decreases n - i,
                {
                    proof {
                        assert(*self == Expr::FunCall(*fcall));
                        assert(self->FunCall_0 == *fcall);
                        assert(decreases_to!(*self => self->FunCall_0));
                        assert(decreases_to!(*fcall => fcall.arguments));
                        assert(decreases_to!(fcall.arguments => fcall.arguments[i as int]));
                    }
                    out.append(" ");
                    let piece = fcall.arguments[i].pretty_print();
                    out.append(piece.as_str());
                    proof {
                        assert(argsv.take(i as int).push(argsv[i as int]) =~= argsv.take(
                            i as int + 1,
                        ));
                        lemma_pretty_args_snoc(argsv.take(i as int), argsv[i as int]);
                    }
                    i = i + 1;
                }
                proof {
                    assert(argsv.take(n as int) =~= argsv);
                }
                out
            },
            Expr::ReadVar => String::from_str("(read)"),
        }
    }
}

/// What the parser guarantees of every tree it builds, resolution aside:
/// spans that fit the machine, no channel reads, and at least one argument
/// in every call.
pub open spec fn parser_wf(e: ExprV) -> bool
    decreases e,
{
    match e {
        ExprV::Builtin(_, pos) => pos.start + pos.len <= usize::MAX,
        ExprV::Unresolved { pos, .. } => pos.start + pos.len <= usize::MAX,
        ExprV::Call { function, arguments } => parser_wf(*function) && arguments.len() >= 1 && (
        forall|i: int| 0 <= i < arguments.len() ==> parser_wf(#[trigger] arguments[i])),
        ExprV::ReadVar => false,
    }
}

pub proof fn lemma_resolve_args_elems(args: Seq<ExprV>)
    requires
        resolve_args(args) is Ok,
    ensures
        resolve_args(args)->Ok_0.len() == args.len(),
        forall|i: int| 0 <= i < args.len() ==> resolve(#[trigger] args[i]) == Ok::<ExprV, ErrorV>(
            resolve_args(args)->Ok_0[i],
        ),
    decreases args.len(),
{
    if args.len() > 0 {
        lemma_resolve_args_elems(args.drop_first());
        let out = resolve_args(args)->Ok_0;
        let rest = resolve_args(args.drop_first())->Ok_0;
        assert(out == seq![resolve(args[0])->Ok_0] + rest);
        assert forall|i: int| 0 <= i < args.len() implies resolve(#[trigger] args[i]) == Ok::<
            ExprV,
            ErrorV,
        >(out[i]) by {
            if i > 0 {
                assert(args.drop_first()[i - 1] == args[i]);
                assert(out[i] == rest[i - 1]);
            }
        }
    }
}

/// Resolution keeps the parser's guarantees, removes every unresolved leaf,
/// and keeps every pattern the tree carries.
pub proof fn lemma_resolve_wf(e: ExprV)
    requires
        resolve(e) is Ok,
        parser_wf(e),
    ensures
        crate::compile::types::tc_wf(resolve(e)->Ok_0),
        patterns_ok_expr(e) ==> patterns_ok_expr(resolve(e)->Ok_0),
    decreases e,
{
    let out = resolve(e)->Ok_0;
    match e {
        ExprV::Unresolved { name, pos } => {
            assert(builtin_of_name(name) is Some);
        },
        ExprV::Call { function, arguments } => {
            lemma_resolve_wf(*function);
            lemma_resolve_args_elems(arguments);
            let rargs = resolve_args(arguments)->Ok_0;
            assert forall|i: int| 0 <= i < rargs.len() implies crate::compile::types::tc_wf(
                #[trigger] rargs[i],
            ) && (patterns_ok_expr(e) ==> patterns_ok_expr(rargs[i])) by {
                assert(resolve(arguments[i]) == Ok::<ExprV, ErrorV>(rargs[i]));
                assert(parser_wf(arguments[i]));
                if patterns_ok_expr(e) {
                    assert(patterns_ok_expr(arguments[i]));
                }
                lemma_resolve_wf(arguments[i]);
            }
            assert(out == (ExprV::Call {
                function: Box::new(resolve(*function)->Ok_0),
                arguments: rargs,
            }));
        },
        _ => {},
    }
}

proof fn lemma_tree_wf(toks: Seq<TokenV>)
    requires
        tree_of(toks) is Ok,
        forall|j: int| 0 <= j < toks.len() ==> {
            let t = #[trigger] toks[j];
            &&& t.pos.start + t.pos.len <= usize::MAX
            &&& crate::compile::token::kind_patterns_ok(t.kind)
        },
    ensures
        parser_wf(tree_of(toks)->Ok_0),
        patterns_ok_expr(tree_of(toks)->Ok_0),
{
    let out = tree_of(toks)->Ok_0;
    lemma_leaf_exprs(toks.drop_first());
    assert forall|j: int| 0 <= j < toks.len() implies parser_wf(leaf_expr(#[trigger] toks[j]))
        && patterns_ok_expr(leaf_expr(toks[j])) by {}
    if toks.len() > 1 {
        let args = leaf_exprs(toks.drop_first());
        assert forall|i: int| 0 <= i < args.len() implies parser_wf(#[trigger] args[i])
            && patterns_ok_expr(args[i]) by {
            assert(args[i] == leaf_expr(toks.drop_first()[i]));
            assert(toks.drop_first()[i] == toks[i + 1]);
        }
    }
}

/// The whole front half of parsing: the tree of the text's tokens, names
/// resolved, or the first error on the way there.
pub open spec fn parse_spec(s: Seq<char>) -> Result<ExprV, ErrorV> {
    match lex_from(s, 0) {
        Err(p) => Err(ErrorV::UnrecognizedToken(p)),
        Ok(toks) => match tree_of(toks) {
            Err(err) => Err(err),
            Ok(tree) => resolve(tree),
        },
    }
}

/// Tokenizes the program text, builds its one expression tree and resolves
/// every name in it.
pub fn parse(pgm: &str) -> (r: Result<Expr, Error>)
    ensures
        match (r, parse_spec(pgm@)) {
            (Ok(e), Ok(v)) => e@ == v && crate::compile::types::tc_wf(v) && patterns_ok_expr(v),
            (Err(err), Err(v)) => err@ == v,
            _ => false,
        },
{
    let tokens = match tokenize_all(pgm) {
        Ok(toks) => toks,
        Err(err) => {
            return Err(err);
        },
    };
    let parsed = match build_exp_tree(tokens) {
        Ok(tree) => tree,
        Err(err) => {
            return Err(err);
        },
    };
    proof {
        let toks = lex_from(pgm@, 0)->Ok_0;
        crate::compile::token::lemma_lex_tokens_wf(pgm@, 0);
        lemma_tree_wf(toks);
        if resolve(parsed@) is Ok {
            lemma_resolve_wf(parsed@);
        }
    }
    resolve_expr(&parsed)
}

} // verus!
