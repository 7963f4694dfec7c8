use vstd::prelude::*;

use crate::compile::parse::{
    exprs_view, expr_pos, lemma_exprs_view, no_read_var, Builtin, BuiltinV, Expr, ExprV, FunCall,
};
use crate::compile::token::ParsePos;
use crate::compile::Position;
use crate::error::{Error, ErrorV};

verus! {

/// The mathematical form of a type.
pub enum TypeV {
    Bool,
    String,
    Stream(Box<TypeV>),
    Fn { params: Seq<TypeV>, ret: Box<TypeV> },
}

/// A structural type: no subtyping, no type variables.
#[derive(Debug, PartialEq, Eq)]
pub enum Type {
    Bool,
    String,
    Stream(Box<Type>),
    Function { parameters: Vec<Type>, return_type: Box<Type> },
}

impl View for Type {
    type V = TypeV;

    open spec fn view(&self) -> TypeV
        decreases self,
    {
        match self {
            Type::Bool => TypeV::Bool,
            Type::String => TypeV::String,
            Type::Stream(item) => TypeV::Stream(Box::new((**item)@)),
            Type::Function { parameters, return_type } => TypeV::Fn {
                params: types_view(parameters@),
                ret: Box::new((**return_type)@),
            },
        }
    }
}

impl DeepView for Type {
    type V = TypeV;

    open spec fn deep_view(&self) -> TypeV {
        self.view()
    }
}

/// The views of a sequence of types, in order.
pub open spec fn types_view(s: Seq<Type>) -> Seq<TypeV>
    decreases s,
{
    if s.len() == 0 {
        Seq::empty()
    } else {
        seq![s[0]@] + types_view(s.drop_first())
    }
}

pub proof fn lemma_types_view(s: Seq<Type>)
    ensures
        types_view(s).len() == s.len(),
        forall|i: int| 0 <= i < s.len() ==> types_view(s)[i] == #[trigger] s[i]@,
    decreases s.len(),
{
    if s.len() > 0 {
        lemma_types_view(s.drop_first());
        assert(types_view(s) == seq![s[0]@] + types_view(s.drop_first()));
        assert(types_view(s).len() == s.len());
        assert forall|i: int| 0 <= i < s.len() implies types_view(s)[i] == #[trigger] s[i]@ by {
            if i == 0 {
                assert(types_view(s)[0] == s[0]@);
            } else {
                assert(s.drop_first()[i - 1] == s[i]);
                assert(types_view(s)[i] == types_view(s.drop_first())[i - 1]);
            }
        }
    }
}

fn vec1(t: Type) -> (r: Vec<Type>)
    ensures
        r@.len() == 1,
        types_view(r@) == seq![t@],
{
    let mut v: Vec<Type> = Vec::new();
    v.push(t);
    proof {
        lemma_types_view(v@);
        assert(v@ =~= seq![t]);
        assert(v@[0]@ == t@);
        assert(types_view(v@) =~= seq![t@]);
    }
    v
}

fn vec2(a: Type, b: Type) -> (r: Vec<Type>)
    ensures
        r@.len() == 2,
        types_view(r@) == seq![a@, b@],
{
    let mut v: Vec<Type> = Vec::new();
    v.push(a);
    v.push(b);
    proof {
        lemma_types_view(v@);
        assert(v@ =~= seq![a, b]);
        assert(v@[0]@ == a@);
        assert(v@[1]@ == b@);
        assert(types_view(v@) =~= seq![a@, b@]);
    }
    v
}

impl Type {
    /// A stream of the given item type.
    pub fn stream(of_what: Type) -> (r: Type)
        ensures
            r@ == TypeV::Stream(Box::new(of_what@)),
    {
        Type::Stream(Box::new(of_what))
    }

    /// A function from the given parameter types to the given result type.
    pub fn function(parameters: Vec<Type>, return_type: Type) -> (r: Type)
        ensures
            r@ == (TypeV::Fn { params: types_view(parameters@), ret: Box::new(return_type@) }),
    {
        Type::Function { parameters, return_type: Box::new(return_type) }
    }

    /// The item type, for a stream type.
    pub fn stream_item(&self) -> (r: Option<&Type>)
        ensures
            match r {
                Some(item) => self@ matches TypeV::Stream(b) && item@ == *b,
                None => !(self@ is Stream),
            },
    {
        match self {
            Type::Stream(item) => Some(item),
            _ => None,
        }
    }
}

/// Structural type equality.
fn type_eq(a: &Type, b: &Type) -> (r: bool)
    ensures
        r == (a@ == b@),
    decreases a,
{
    match (a, b) {
        (Type::Bool, Type::Bool) => true,
        (Type::String, Type::String) => true,
        (Type::Stream(x), Type::Stream(y)) => type_eq(x, y),
        (
            Type::Function { parameters: pa, return_type: ra },
            Type::Function { parameters: pb, return_type: rb },
        ) => {
            proof {
                assert(*a == Type::Function { parameters: *pa, return_type: *ra });
                assert(*b == Type::Function { parameters: *pb, return_type: *rb });
                lemma_types_view(pa@);
                lemma_types_view(pb@);
            }
            if pa.len() != pb.len() {
                proof {
                    assert(types_view(pa@).len() != types_view(pb@).len());
                }
                return false;
            }
            if !type_eq(ra, rb) {
                return false;
            }
            let n = pa.len();
            let mut i: usize = 0;
            while i < n
                invariant
                    *a == (Type::Function { parameters: *pa, return_type: *ra }),
                    *b == (Type::Function { parameters: *pb, return_type: *rb }),
                    n == pa.len() == pb.len(),
                    0 <= i <= n,
                    forall|j: int| 0 <= j < i ==> #[trigger] pa@[j]@ == pb@[j]@,
                decreases n - i,
            {
                proof {
                    assert(a->Function_parameters == *pa);
                    assert(decreases_to!(*a => a->Function_parameters));
                    assert(decreases_to!(*pa => pa[i as int]));
                }
                if !type_eq(&pa[i], &pb[i]) {
                    proof {
                        lemma_types_view(pa@);
                        lemma_types_view(pb@);
                        assert(types_view(pa@)[i as int] == pa@[i as int]@);
                        assert(types_view(pb@)[i as int] == pb@[i as int]@);
                        assert(types_view(pa@) != types_view(pb@));
                        assert(a@ == TypeV::Fn {
                            params: types_view(pa@),
                            ret: Box::new((**ra)@),
                        });
                        assert(b@ == TypeV::Fn {
                            params: types_view(pb@),
                            ret: Box::new((**rb)@),
                        });
                        assert(a@ != b@);
                    }
                    return false;
                }
                i = i + 1;
            }
            proof {
                lemma_types_view(pa@);
                lemma_types_view(pb@);
                assert forall|j: int| 0 <= j < n implies types_view(pa@)[j] == types_view(
                    pb@,
                )[j] by {
                    assert(pa@[j]@ == pb@[j]@);
                    assert(types_view(pa@)[j] == pa@[j]@);
                    assert(types_view(pb@)[j] == pb@[j]@);
                }
                assert(types_view(pa@) =~= types_view(pb@));
            }
            true
        },
        _ => false,
    }
}

fn dup_type(t: &Type) -> (r: Type)
    ensures
        r@ == t@,
    decreases t,
{
    match t {
        Type::Bool => Type::Bool,
        Type::String => Type::String,
        Type::Stream(item) => Type::Stream(Box::new(dup_type(item))),
        Type::Function { parameters, return_type } => {
            proof {
                assert(*t == Type::Function { parameters: *parameters, return_type: *return_type });
                lemma_types_view(parameters@);
            }
            let n = parameters.len();
            let mut params: Vec<Type> = Vec::new();
            let mut i: usize = 0;
            while i < n
                invariant
                    *t == (Type::Function { parameters: *parameters, return_type: *return_type }),
                    n == parameters.len(),
                    0 <= i <= n,
                    params.len() == i,
                    forall|j: int| 0 <= j < i ==> #[trigger] params@[j]@ == parameters@[j]@,
                decreases n - i,
            {
                proof {
                    assert(t->Function_parameters == *parameters);
                    assert(decreases_to!(*t => t->Function_parameters));
                    assert(decreases_to!(*parameters => parameters[i as int]));
                }
                let p = dup_type(&parameters[i]);
                params.push(p);
                i = i + 1;
            }
            proof {
                lemma_types_view(params@);
                lemma_types_view(parameters@);
                assert forall|j: int| 0 <= j < n implies types_view(params@)[j] == types_view(
                    parameters@,
                )[j] by {
                    assert(params@[j]@ == parameters@[j]@);
                    assert(types_view(params@)[j] == params@[j]@);
                    assert(types_view(parameters@)[j] == parameters@[j]@);
                }
                assert(types_view(params@) =~= types_view(parameters@));
            }
            Type::Function {
                parameters: params,
                return_type: Box::new(dup_type(return_type)),
            }
        },
    }
}

/// The rendering of a type as text: `bool`, `string`, `stream of T`,
/// `fn (T, …) -> T`.
pub open spec fn render_type(t: TypeV) -> Seq<char>
    decreases t,
{
    match t {
        TypeV::Bool => "bool"@,
        TypeV::String => "string"@,
        TypeV::Stream(item) => "stream of "@ + render_type(*item),
        TypeV::Fn { params, ret } => "fn ("@ + render_params(params) + ") -> "@ + render_type(
            *ret,
        ),
    }
}

/// The comma-separated parameter list of a function type's rendering.
pub open spec fn render_params(params: Seq<TypeV>) -> Seq<char>
    decreases params,
{
    if params.len() == 0 {
        Seq::empty()
    } else if params.len() == 1 {
        render_type(params[0])
    } else {
        render_type(params[0]) + ", "@ + render_params(params.drop_first())
    }
}

proof fn lemma_render_params_snoc(params: Seq<TypeV>, t: TypeV)
    ensures
        render_params(params.push(t)) == if params.len() == 0 {
            render_type(t)
        } else {
            render_params(params) + ", "@ + render_type(t)
        },
    decreases params.len(),
{
    let whole = params.push(t);
    if params.len() == 0 {
        assert(whole.len() == 1);
        assert(whole[0] == t);
    } else {
        assert(whole[0] == params[0]);
        assert(whole.drop_first() =~= params.drop_first().push(t));
        lemma_render_params_snoc(params.drop_first(), t);
        if params.len() == 1 {
            assert(params.drop_first().len() == 0);
            assert(render_params(whole) == render_type(params[0]) + ", "@ + render_type(t));
        } else {
            assert(render_params(whole) == render_type(params[0]) + ", "@ + (render_params(
                params.drop_first(),
            ) + ", "@ + render_type(t)));
            assert(render_type(params[0]) + ", "@ + (render_params(params.drop_first()) + ", "@
                + render_type(t)) =~= (render_type(params[0]) + ", "@ + render_params(
                params.drop_first(),
            )) + ", "@ + render_type(t));
        }
    }
}

/// Renders a type for an error message.
fn render(t: &Type) -> (r: String)
    ensures
        r@ == render_type(t@),
    decreases t,
{
    match t {
        Type::Bool => String::from_str("bool"),
        Type::String => String::from_str("string"),
        Type::Stream(item) => {
            let mut s = String::from_str("stream of ");
            let inner = render(item);
            s.append(inner.as_str());
            s
        },
        Type::Function { parameters, return_type } => {
            proof {
                assert(*t == Type::Function { parameters: *parameters, return_type: *return_type });
                lemma_types_view(parameters@);
            }
            let mut s = String::from_str("fn (");
            let n = parameters.len();
            let mut i: usize = 0;
            while i < n
                invariant
                    *t == (Type::Function { parameters: *parameters, return_type: *return_type }),
                    n == parameters.len(),
                    0 <= i <= n,
                    s@ == "fn ("@ + render_params(types_view(parameters@).take(i as int)),
                decreases n - i,
            {
                proof {
                    assert(t->Function_parameters == *parameters);
                    assert(decreases_to!(*t => t->Function_parameters));
                    assert(decreases_to!(*parameters => parameters[i as int]));
                    lemma_types_view(parameters@);
                }
                if i > 0 {
                    s.append(", ");
                }
                let piece = render(&parameters[i]);
                s.append(piece.as_str());
                proof {
                    let pv = types_view(parameters@);
                    assert(pv.take(i as int).push(pv[i as int]) =~= pv.take(i as int + 1));
                    lemma_render_params_snoc(pv.take(i as int), pv[i as int]);
                    assert(pv[i as int] == parameters@[i as int]@);
                }
                i = i + 1;
            }
            proof {
                let pv = types_view(parameters@);
                assert(pv.take(n as int) =~= pv);
            }
            s.append(") -> ");
            let ret = render(return_type);
            s.append(ret.as_str());
            s
        },
    }
}

/// Whether a whole program of this type can be printed: only streams of a
/// base type are formattable.
pub open spec fn formattable(t: TypeV) -> bool {
    match t {
        TypeV::Stream(item) => *item == TypeV::Bool || *item == TypeV::String,
        _ => false,
    }
}

fn is_formattable(typ: &Type) -> (r: bool)
    ensures
        r == formattable(typ@),
{
    match typ.stream_item() {
        Some(Type::Bool) => true,
        Some(Type::String) => true,
        _ => false,
    }
}

/// The zero-width-input marker just past a span.
pub open spec fn right_after_pos(p: ParsePos) -> ParsePos {
    ParsePos { start: (p.start + p.len) as usize, len: 1usize }
}

/// What the typechecker demands of its input: names resolved, no channel
/// reads, every call with at least one argument, and spans that fit the
/// machine. The parser establishes all of it.
pub open spec fn tc_wf(e: ExprV) -> bool
    decreases e,
{
    match e {
        ExprV::Unresolved { .. } => false,
        ExprV::ReadVar => false,
        ExprV::Builtin(_, pos) => pos.start + pos.len <= usize::MAX,
        ExprV::Call { function, arguments } => tc_wf(*function) && arguments.len() >= 1 && (forall|
            i: int,
        | 0 <= i < arguments.len() ==> tc_wf(#[trigger] arguments[i])),
    }
}

pub proof fn lemma_tc_wf_no_read_var(e: ExprV)
    requires
        tc_wf(e),
    ensures
        no_read_var(e),
    decreases e,
{
    match e {
        ExprV::Call { function, arguments } => {
            lemma_tc_wf_no_read_var(*function);
            assert forall|i: int| 0 <= i < arguments.len() implies no_read_var(
                #[trigger] arguments[i],
            ) by {
                lemma_tc_wf_no_read_var(arguments[i]);
            }
        },
        _ => {},
    }
}

pub proof fn lemma_tc_wf_pos_bounded(e: ExprV)
    requires
        tc_wf(e),
    ensures
        expr_pos(e).start + expr_pos(e).len <= usize::MAX,
    decreases e,
{
    match e {
        ExprV::Call { function, .. } => {
            lemma_tc_wf_pos_bounded(*function);
        },
        _ => {},
    }
}

/// The type a builtin marker has on its own. Filter and map carry none: their
/// types exist only at a full call site.
pub open spec fn builtin_type(b: BuiltinV, pos: ParsePos) -> Result<TypeV, ErrorV> {
    match b {
        BuiltinV::Stdin => Ok(TypeV::Stream(Box::new(TypeV::String))),
        BuiltinV::RegexMatch { .. } => Ok(TypeV::Fn {
            params: seq![TypeV::String],
            ret: Box::new(TypeV::Bool),
        }),
        BuiltinV::RegexSubst { .. } => Ok(TypeV::Fn {
            params: seq![TypeV::String],
            ret: Box::new(TypeV::String),
        }),
        BuiltinV::Filter | BuiltinV::MapOp => Err(ErrorV::NotEnoughArguments(right_after_pos(pos))),
    }
}

/// The structural type of an expression, bottom-up, or the first error found.
/// Filter and map calls bypass the generic call rule: each has its own rule
/// over the concrete element type of its source.
pub open spec fn type_of(e: ExprV) -> Result<TypeV, ErrorV>
    decreases e, 1int,
{
    match e {
        ExprV::Builtin(b, pos) => builtin_type(b, pos),
        // The resolver has already replaced every identifier; an unresolved
        // leaf can only mean resolution was skipped.
        ExprV::Unresolved { name, pos } => Err(ErrorV::CantResolve { name, pos }),
        // A channel read exists only inside the runtime, after lowering.
        ExprV::ReadVar => Err(ErrorV::NotAFunction(ParsePos { start: 0, len: 0 })),
        ExprV::Call { function, arguments } => {
            match call_fn_type(e) {
                Err(err) => Err(err),
                Ok(TypeV::Fn { params, ret }) => {
                    if arguments.len() == 0 {
                        Err(ErrorV::NotEnoughArguments(right_after_pos(expr_pos(*function))))
                    } else if arguments.len() < params.len() {
                        Err(ErrorV::NotEnoughArguments(
                            right_after_pos(expr_pos(arguments.last())),
                        ))
                    } else if arguments.len() > params.len() {
                        Err(ErrorV::TooManyArguments(expr_pos(arguments[params.len() as int])))
                    } else {
                        match check_args(params, arguments) {
                            Some(err) => Err(err),
                            None => Ok(*ret),
                        }
                    }
                },
                Ok(_) => Err(ErrorV::NotAFunction(expr_pos(*function))),
            }
        },
    }
}

/// The type the head of a call contributes: filter and map get their
/// dedicated call-site rules, everything else its own type.
pub open spec fn call_fn_type(e: ExprV) -> Result<TypeV, ErrorV>
    recommends
        e is Call,
    decreases e, 0int,
{
    match e {
        ExprV::Call { function, arguments } => match *function {
            ExprV::Builtin(BuiltinV::Filter, _) => filter_fn_type(arguments),
            ExprV::Builtin(BuiltinV::MapOp, _) => map_fn_type(arguments),
            _ => type_of(*function),
        },
        _ => Err(ErrorV::EmptyProgram),
    }
}

/// Checks each argument's type against the matching parameter type, exactly,
/// first mismatch winning.
pub open spec fn check_args(params: Seq<TypeV>, args: Seq<ExprV>) -> Option<ErrorV>
    decreases args, 0int,
{
    if args.len() == 0 {
        None
    } else {
        match type_of(args[0]) {
            Err(err) => Some(err),
            Ok(t) => if t != params[0] {
                Some(ErrorV::WrongArgType {
                    expected: render_type(params[0]),
                    found: render_type(t),
                    pos: expr_pos(args[0]),
                })
            } else {
                check_args(params.drop_first(), args.drop_first())
            },
        }
    }
}

/// The full type of `filter` at a call site: the source must be a stream, and
/// the predicate a function from the source's element type to bool. With the
/// wrong number of arguments, a placeholder two-parameter function type is
/// handed back so the generic call rule reports the arity.
pub open spec fn filter_fn_type(args: Seq<ExprV>) -> Result<TypeV, ErrorV>
    decreases args, 0int,
{
    if args.len() != 2 {
        Ok(dummy_two_arg_fn())
    } else {
        let filter_fn = args[0];
        let data_source = args[1];
        match type_of(data_source) {
            Err(err) => Err(err),
            Ok(TypeV::Stream(item)) => {
                match type_of(filter_fn) {
                    Err(err) => Err(err),
                    Ok(ft) => {
                        let expected = TypeV::Fn {
                            params: seq![*item],
                            ret: Box::new(TypeV::Bool),
                        };
                        if ft == expected {
                            Ok(TypeV::Fn {
                                params: seq![expected, TypeV::Stream(item)],
                                ret: Box::new(TypeV::Stream(item)),
                            })
                        } else {
                            Err(ErrorV::WrongArgType {
                                expected: render_type(expected),
                                found: render_type(ft),
                                pos: expr_pos(filter_fn),
                            })
                        }
                    },
                }
            },
            Ok(other) => Err(ErrorV::WrongArgType {
                expected: "any stream type"@,
                found: render_type(other),
                pos: expr_pos(data_source),
            }),
        }
    }
}

/// The full type of `map` at a call site: the source must be a stream, and
/// the transform a one-parameter function over the source's element type; the
/// result streams whatever the transform returns.
pub open spec fn map_fn_type(args: Seq<ExprV>) -> Result<TypeV, ErrorV>
    decreases args, 0int,
{
    if args.len() != 2 {
        Ok(dummy_two_arg_fn())
    } else {
        let map_fn = args[0];
        let data_source = args[1];
        match type_of(data_source) {
            Err(err) => Err(err),
            Ok(TypeV::Stream(item)) => {
                match type_of(map_fn) {
                    Err(err) => Err(err),
                    Ok(TypeV::Fn { params, ret }) => {
                        if params.len() == 1 {
                            if params[0] == *item {
                                Ok(TypeV::Fn {
                                    params: seq![
                                        TypeV::Fn { params, ret: Box::new(*ret) },
                                        TypeV::Stream(item),
                                    ],
                                    ret: Box::new(TypeV::Stream(Box::new(*ret))),
                                })
                            } else {
                                Err(ErrorV::WrongArgType {
                                    expected: "fn ("@ + render_type(*item) + ") -> anything"@,
                                    found: render_type(params[0]),
                                    pos: expr_pos(map_fn),
                                })
                            }
                        } else {
                            Err(ErrorV::WrongArgType {
                                expected: "a function of a single argument"@,
                                found: render_type(TypeV::Fn { params, ret: Box::new(*ret) }),
                                pos: expr_pos(map_fn),
                            })
                        }
                    },
                    Ok(other) => Err(ErrorV::WrongArgType {
                        expected: "any function type"@,
                        found: render_type(other),
                        pos: expr_pos(map_fn),
                    }),
                }
            },
            Ok(other) => Err(ErrorV::WrongArgType {
                expected: "any stream type"@,
                found: render_type(other),
                pos: expr_pos(data_source),
            }),
        }
    }
}

/// The placeholder type that routes a filter or map call with the wrong
/// number of arguments into the generic rule's arity errors.
pub open spec fn dummy_two_arg_fn() -> TypeV {
    TypeV::Fn { params: seq![TypeV::Bool, TypeV::Bool], ret: Box::new(TypeV::Bool) }
}

/// What the whole program must satisfy: its type, with formattability
/// enforced at the top.
pub open spec fn program_check(e: ExprV) -> Result<TypeV, ErrorV> {
    match type_of(e) {
        Err(err) => Err(err),
        Ok(t) => if formattable(t) {
            Ok(t)
        } else {
            Err(ErrorV::NonFormattable { found: render_type(t) })
        },
    }
}

/// Type checks an expression tree as a full program.
/// The top-level type is guaranteed to be formattable.
pub fn typecheck_program(program: &Expr) -> (r: Result<Type, Error>)
    requires
        tc_wf(program@),
    ensures
        match (r, program_check(program@)) {
            (Ok(t), Ok(v)) => t@ == v && formattable(t@),
            (Err(err), Err(v)) => err@ == v,
            _ => false,
        },
{
    let top_level_type = match typecheck_expr(program) {
        Ok(t) => t,
        Err(err) => {
            return Err(err);
        },
    };

    if !is_formattable(&top_level_type) {
        Err(Error::NonFormattable(render(&top_level_type)))
    } else {
        Ok(top_level_type)
    }
}

/// The type of one expression, or the first error in it.
pub fn typecheck_expr(e: &Expr) -> (r: Result<Type, Error>)
    requires
        tc_wf(e@),
    ensures
        match (r, type_of(e@)) {
            (Ok(t), Ok(v)) => t@ == v,
            (Err(err), Err(v)) => err@ == v,
            _ => false,
        },
    decreases e, 1int,
{
    match e {
        Expr::Builtin(b, pos) => b.typecheck(*pos),
        Expr::UnresolvedIdentifier(_) => {
            proof {
                assert(false);
            }
            Err(Error::EmptyProgram)
        },
        Expr::FunCall(fcall) => {
            proof {
                assert(*e == Expr::FunCall(*fcall));
            }
            fcall.typecheck()
        },
        Expr::ReadVar => {
            proof {
                assert(false);
            }
            Err(Error::EmptyProgram)
        },
    }
}

impl Builtin {
    /// The type a builtin has on its own; a bare `filter` or `map` reports
    /// its missing arguments.
    pub fn typecheck(&self, pos: ParsePos) -> (r: Result<Type, Error>)
        requires
            pos.start + pos.len <= usize::MAX,
        ensures
            match (r, builtin_type(self@, pos)) {
                (Ok(t), Ok(v)) => t@ == v,
                (Err(err), Err(v)) => err@ == v,
                _ => false,
            },
    {
        match self {
            Builtin::Stdin => Ok(Type::stream(Type::String)),
            Builtin::RegexMatch(..) => {
                Ok(Type::function(vec1(Type::String), Type::Bool))
            },
            Builtin::RegexSubst(..) => {
                Ok(Type::function(vec1(Type::String), Type::String))
            },
            Builtin::Filter | Builtin::MapOp => Err(Error::NotEnoughArguments(pos.right_after())),
        }
    }
}

impl FunCall {
    /// The spec-level call node this value stands for.
    pub open spec fn as_call(&self) -> ExprV {
        ExprV::Call {
            function: Box::new((*self.function)@),
            arguments: exprs_view(self.arguments@),
        }
    }

    /// The type of a whole call: the head's (or filter's or map's call-site)
    /// function type, held against the arguments' count and types.
    pub fn typecheck(&self) -> (r: Result<Type, Error>)
        requires
            tc_wf(self.as_call()),
        ensures
            match (r, type_of(self.as_call())) {
                (Ok(t), Ok(v)) => t@ == v,
                (Err(err), Err(v)) => err@ == v,
                _ => false,
            },
        decreases self, 0int,
    {
        let ghost callv = self.as_call();
        let ghost argsv = exprs_view(self.arguments@);
        proof {
            lemma_exprs_view(self.arguments@);
        }

        let fn_type = match &*self.function {
            Expr::Builtin(Builtin::Filter, _) => {
                match typecheck_filter(&self.arguments) {
                    Ok(t) => t,
                    Err(err) => {
                        return Err(err);
                    },
                }
            },
            Expr::Builtin(Builtin::MapOp, _) => {
                match typecheck_map(&self.arguments) {
                    Ok(t) => t,
                    Err(err) => {
                        return Err(err);
                    },
                }
            },
            _ => {
                match typecheck_expr(&*self.function) {
                    Ok(t) => t,
                    Err(err) => {
                        return Err(err);
                    },
                }
            },
        };
        proof {
            assert(call_fn_type(callv) == Ok::<TypeV, ErrorV>(fn_type@));
        }

        match fn_type {
            Type::Function { parameters, return_type } => {
                let ghost pv = types_view(parameters@);
                let ghost rv = (*return_type)@;
                proof {
                    lemma_types_view(parameters@);
                }
                let n_args = self.arguments.len();
                let n_params = parameters.len();

                // Start by checking the number of arguments provided to the function
                if n_args < n_params {
                    let last = &self.arguments[n_args - 1];
                    proof {
                        lemma_tc_wf_no_read_var(argsv[n_args - 1]);
                        lemma_tc_wf_pos_bounded(argsv[n_args - 1]);
                    }
                    return Err(Error::NotEnoughArguments(last.position().right_after()));
                } else if n_args > n_params {
                    let surplus = &self.arguments[n_params];
                    proof {
                        lemma_tc_wf_no_read_var(argsv[n_params as int]);
                        lemma_tc_wf_pos_bounded(argsv[n_params as int]);
                    }
                    return Err(Error::TooManyArguments(surplus.position()));
                }

                // Check the types of the arguments
                let mut i: usize = 0;
                proof {
                    assert(pv.skip(0) =~= pv);
                    assert(argsv.skip(0) =~= argsv);
                }
                while i < n_args
                    invariant
                        callv == self.as_call(),
                        argsv == exprs_view(self.arguments@),
                        tc_wf(callv),
                        pv.len() == argsv.len() == n_args == self.arguments.len(),
                        0 <= i <= n_args,
                        n_params == parameters.len(),
                        n_args == n_params,
                        pv == types_view(parameters@),
                        forall|j: int| 0 <= j < n_args ==> argsv[j] == #[trigger] self
                            .arguments@[j]@,
                        forall|j: int| 0 <= j < n_params ==> pv[j] == #[trigger] parameters@[j]@,
                        check_args(pv, argsv) == check_args(
                            pv.skip(i as int),
                            argsv.skip(i as int),
                        ),
                        call_fn_type(callv) == Ok::<TypeV, ErrorV>(
                            TypeV::Fn { params: pv, ret: Box::new(rv) },
                        ),
                        type_of(callv) == (match check_args(pv, argsv) {
                            Some(err) => Err::<TypeV, ErrorV>(err),
                            None => Ok::<TypeV, ErrorV>(rv),
                        }),
                    decreases n_args - i,
                {
                    let ghost psuf = pv.skip(i as int);
                    let ghost asuf = argsv.skip(i as int);
                    proof {
                        assert(asuf[0] == argsv[i as int]);
                        assert(psuf[0] == pv[i as int]);
                        assert(psuf.drop_first() =~= pv.skip(i as int + 1));
                        assert(asuf.drop_first() =~= argsv.skip(i as int + 1));
                        assert(decreases_to!(self => self.arguments));
                        assert(decreases_to!(self.arguments => self.arguments[i as int]));
                    }
                    let arg_type = match typecheck_expr(&self.arguments[i]) {
                        Ok(t) => t,
                        Err(err) => {
                            return Err(err);
                        },
                    };
                    if !type_eq(&arg_type, &parameters[i]) {
                        return Err(Error::WrongArgType {
                            expected: render(&parameters[i]),
                            found: render(&arg_type),
                            err_pos: {
                                proof {
                                    lemma_tc_wf_no_read_var(argsv[i as int]);
                                }
                                self.arguments[i].position()
                            },
                        });
                    }
                    i = i + 1;
                }
                proof {
                    assert(pv.skip(n_args as int) =~= Seq::<TypeV>::empty());
                    assert(argsv.skip(n_args as int) =~= Seq::<ExprV>::empty());
                }

                // Typecheck succeeded
                Ok(*return_type)
            },
            _ => {
                proof {
                    lemma_tc_wf_no_read_var((*self.function)@);
                }
                Err(Error::NotAFunction(self.function.position()))
            },
        }
    }
}

/// The call-site rule for `filter`. With any other count than two arguments,
/// a placeholder two-parameter function type is handed back, whose arity the
/// enclosing call check then reports.
fn typecheck_filter(arguments: &Vec<Expr>) -> (r: Result<Type, Error>)
    requires
        forall|i: int| 0 <= i < arguments.len() ==> tc_wf(#[trigger] arguments@[i]@),
    ensures
        match (r, filter_fn_type(exprs_view(arguments@))) {
            (Ok(t), Ok(v)) => t@ == v,
            (Err(err), Err(v)) => err@ == v,
            _ => false,
        },
    decreases arguments, 0int,
{
    let ghost argsv = exprs_view(arguments@);
    proof {
        lemma_exprs_view(arguments@);
    }
    if arguments.len() != 2 {
        return Ok(Type::function(vec2(Type::Bool, Type::Bool), Type::Bool));
    }

    let filter_fn = &arguments[0];
    let data_source = &arguments[1];

    let source_type = match typecheck_expr(data_source) {
        Ok(t) => t,
        Err(err) => {
            return Err(err);
        },
    };
    let source_items: &Type = match &source_type {
        Type::Stream(item_type) => item_type,
        _ => {
            proof {
                lemma_tc_wf_no_read_var(argsv[1]);
            }
            return Err(Error::WrongArgType {
                expected: String::from_str("any stream type"),
                found: render(&source_type),
                err_pos: data_source.position(),
            });
        },
    };

    // The filter function must go from the data source's item type to boolean
    let fn_type = match typecheck_expr(filter_fn) {
        Ok(t) => t,
        Err(err) => {
            return Err(err);
        },
    };
    let expected_fn_type = Type::function(vec1(dup_type(source_items)), Type::Bool);
    if !type_eq(&fn_type, &expected_fn_type) {
        proof {
            lemma_tc_wf_no_read_var(argsv[0]);
        }
        return Err(Error::WrongArgType {
            expected: render(&expected_fn_type),
            found: render(&fn_type),
            err_pos: filter_fn.position(),
        });
    }

    let source_type_copy = dup_type(&source_type);
    let params = vec2(expected_fn_type, source_type_copy);
    proof {
        assert(source_type@ matches TypeV::Stream(b) && *b == source_items@);
    }
    Ok(Type::function(params, source_type))
}

/// The call-site rule for `map`: the transform's single parameter must equal
/// the source's element type, and the call streams the transform's result
/// type. The same placeholder as filter's covers a wrong argument count.
fn typecheck_map(arguments: &Vec<Expr>) -> (r: Result<Type, Error>)
    requires
        forall|i: int| 0 <= i < arguments.len() ==> tc_wf(#[trigger] arguments@[i]@),
    ensures
        match (r, map_fn_type(exprs_view(arguments@))) {
            (Ok(t), Ok(v)) => t@ == v,
            (Err(err), Err(v)) => err@ == v,
            _ => false,
        },
    decreases arguments, 0int,
{
    let ghost argsv = exprs_view(arguments@);
    proof {
        lemma_exprs_view(arguments@);
    }
    if arguments.len() != 2 {
        return Ok(Type::function(vec2(Type::Bool, Type::Bool), Type::Bool));
    }

    let map_fn = &arguments[0];
    let data_source = &arguments[1];

    let source_type = match typecheck_expr(data_source) {
        Ok(t) => t,
        Err(err) => {
            return Err(err);
        },
    };
    let source_items: &Type = match &source_type {
        Type::Stream(item_type) => item_type,
        _ => {
            proof {
                lemma_tc_wf_no_read_var(argsv[1]);
            }
            return Err(Error::WrongArgType {
                expected: String::from_str("any stream type"),
                found: render(&source_type),
                err_pos: data_source.position(),
            });
        },
    };

    // The mapping function must take the data source's item type as argument
    let fn_type = match typecheck_expr(map_fn) {
        Ok(t) => t,
        Err(err) => {
            return Err(err);
        },
    };
    match &fn_type {
        Type::Function { parameters, return_type } => {
            proof {
                assert(fn_type == Type::Function {
                    parameters: *parameters,
                    return_type: *return_type,
                });
                lemma_types_view(parameters@);
            }
            if parameters.len() == 1 {
                let single_param = &parameters[0];
                if type_eq(single_param, source_items) {
                    // Typecheck ok: stream whatever the transform returns
                    let mapped_to = dup_type(return_type);
                    let source_type_copy = dup_type(&source_type);
                    let fn_type_copy = dup_type(&fn_type);
                    let params = vec2(fn_type_copy, source_type_copy);
                    Ok(Type::function(params, Type::stream(mapped_to)))
                } else {
                    let mut expected = String::from_str("fn (");
                    let item_str = render(source_items);
                    expected.append(item_str.as_str());
                    expected.append(") -> anything");
                    proof {
                        lemma_tc_wf_no_read_var(argsv[0]);
                    }
                    Err(Error::WrongArgType {
                        expected,
                        found: render(single_param),
                        err_pos: map_fn.position(),
                    })
                }
            } else {
                proof {
                    lemma_tc_wf_no_read_var(argsv[0]);
                }
                Err(Error::WrongArgType {
                    expected: String::from_str("a function of a single argument"),
                    found: render(&fn_type),
                    err_pos: map_fn.position(),
                })
            }
        },
        _ => {
            proof {
                lemma_tc_wf_no_read_var(argsv[0]);
            }
            Err(Error::WrongArgType {
                expected: String::from_str("any function type"),
                found: render(&fn_type),
                err_pos: map_fn.position(),
            })
        },
    }
}

} // verus!

