use vstd::prelude::*;

use crate::compile::parse::{patterns_ok_expr, Builtin, BuiltinV, Expr, ExprV, FunCall};
use crate::compile::types::{
    call_fn_type, check_args, filter_fn_type, map_fn_type, tc_wf, type_of, TypeV,
};
use crate::error::ErrorV;
use crate::runtime::scalar::{
    op_apply, scalar_accepts, scalar_denote, scalar_from, scalar_lowerable, scalar_reads,
    ScalarNode,
};
use crate::runtime::{RtVal, RtValV, StreamVar};
use crate::rx::regex_ok;

verus! {

/// The line source: the injected input lines, handed out one at a time.
pub struct StdinState {
    pub lines: Vec<String>,
    pub next_line: usize,
}

/// A filtering node: pulls from its source, hands each element through the
/// back channel to its predicate, and keeps the elements the predicate
/// approves.
pub struct StreamFilter {
    pub filter_fn: Box<ScalarNode>,
    pub back_channel: StreamVar,
    pub stream: Box<StreamNode>,
}

/// A mapping node: pulls from its source, hands each element through the
/// back channel to its transform, and emits exactly one output per input.
pub struct StreamMap {
    pub map_fn: Box<ScalarNode>,
    pub back_channel: StreamVar,
    pub stream: Box<StreamNode>,
}

/// A runtime component that behaves like a stream of runtime values.
pub enum StreamNode {
    Stdin(StdinState),
    Filter(StreamFilter),
    MapOp(StreamMap),
}

impl StdinState {
    /// The values still to come.
    pub open spec fn out(&self) -> Seq<RtValV> {
        self.lines.deep_view().skip(self.next_line as int).map_values(
            |t: Seq<char>| RtValV::S(t),
        )
    }

    pub open spec fn wf(&self) -> bool {
        self.next_line <= self.lines.len()
    }
}

impl StreamFilter {
    /// Whether the predicate approves a value.
    pub open spec fn predv(&self) -> spec_fn(RtValV) -> bool {
        |v: RtValV| scalar_denote(*self.filter_fn, v) == RtValV::B(true)
    }

    /// The values still to come: the approved elements of the source, in
    /// source order.
    pub open spec fn out(&self) -> Seq<RtValV>
        decreases self, 0int,
    {
        node_out(*self.stream).filter(self.predv())
    }

    pub open spec fn wf(&self) -> bool
        decreases self, 0int,
    {
        &&& node_wf(*self.stream)
        &&& self.back_channel.wf()
        &&& !self.back_channel.full()
        &&& scalar_reads(*self.filter_fn) == 1
        &&& forall|i: int| 0 <= i < node_out(*self.stream).len() ==> scalar_accepts(
            *self.filter_fn,
            #[trigger] node_out(*self.stream)[i],
        ) && scalar_denote(*self.filter_fn, node_out(*self.stream)[i]) is B
    }
}

impl StreamMap {
    /// What the transform turns a value into.
    pub open spec fn fv(&self) -> spec_fn(RtValV) -> RtValV {
        |v: RtValV| scalar_denote(*self.map_fn, v)
    }

    /// The values still to come: exactly one per source element, in order.
    pub open spec fn out(&self) -> Seq<RtValV>
        decreases self, 0int,
    {
        node_out(*self.stream).map_values(self.fv())
    }

    pub open spec fn wf(&self) -> bool
        decreases self, 0int,
    {
        &&& node_wf(*self.stream)
        &&& self.back_channel.wf()
        &&& !self.back_channel.full()
        &&& scalar_reads(*self.map_fn) == 1
        &&& forall|i: int| 0 <= i < node_out(*self.stream).len() ==> scalar_accepts(
            *self.map_fn,
            #[trigger] node_out(*self.stream)[i],
        )
    }
}

/// The sequence of values a stream node will emit if pulled to exhaustion.
pub open spec fn node_out(n: StreamNode) -> Seq<RtValV>
    decreases n, 1int,
{
    match n {
        StreamNode::Stdin(s) => s.out(),
        StreamNode::Filter(f) => f.out(),
        StreamNode::MapOp(m) => m.out(),
    }
}

/// Every node of the graph is in a pullable state: sources within bounds,
/// channels empty and balanced, and every element a source will hand an
/// operator acceptable to it.
pub open spec fn node_wf(n: StreamNode) -> bool
    decreases n, 1int,
{
    match n {
        StreamNode::Stdin(s) => s.wf(),
        StreamNode::Filter(f) => f.wf(),
        StreamNode::MapOp(m) => m.wf(),
    }
}

/// How many elements the graph's line source still holds: every pull that
/// yields a value consumes at least one.
pub open spec fn node_fuel(n: StreamNode) -> nat
    decreases n,
{
    match n {
        StreamNode::Stdin(s) => (s.lines.len() - s.next_line) as nat,
        StreamNode::Filter(f) => node_fuel(*f.stream),
        StreamNode::MapOp(m) => node_fuel(*m.stream),
    }
}

/// The depth of the graph: pulls never change it.
pub open spec fn node_height(n: StreamNode) -> nat
    decreases n,
{
    match n {
        StreamNode::Stdin(_) => 0,
        StreamNode::Filter(f) => node_height(*f.stream) + 1,
        StreamNode::MapOp(m) => node_height(*m.stream) + 1,
    }
}

impl StdinState {
    /// Hands out the next line, or nothing at the end of the input.
    fn next(&mut self) -> (r: Option<RtVal>)
        requires
            old(self).wf(),
        ensures
            final(self).wf(),
            final(self).lines == old(self).lines,
            match r {
                None => old(self).out().len() == 0 && *final(self) == *old(self),
                Some(v) => {
                    &&& old(self).out().len() > 0
                    &&& v@ == old(self).out()[0]
                    &&& final(self).out() == old(self).out().drop_first()
                    &&& final(self).next_line == old(self).next_line + 1
                },
            },
    {
        let ghost deep = self.lines.deep_view();
        let ghost nl = self.next_line as int;
        if self.next_line == self.lines.len() {
            proof {
                assert(deep.skip(nl) =~= Seq::<Seq<char>>::empty());
            }
            return None;
        }
        let line = self.lines[self.next_line].clone();
        self.next_line = self.next_line + 1;
        proof {
            assert(deep.skip(nl)[0] == deep[nl]);
            assert(deep[nl] == self.lines@[nl]@);
            assert(line@ == deep[nl]);
            assert(old(self).out()[0] == RtValV::S(deep[nl]));
            assert(deep.skip(nl).drop_first() =~= deep.skip(nl + 1));
            assert(final(self).out() =~= old(self).out().drop_first());
        }
        Some(RtVal::String(line))
    }
}

impl StreamFilter {
    /// Pulls source elements until one passes the predicate, and hands that
    /// one out; signals the end when the source is exhausted first.
    fn next(&mut self) -> (r: Option<RtVal>)
        requires
            old(self).wf(),
        ensures
            final(self).wf(),
            final(self).filter_fn == old(self).filter_fn,
            node_height(*final(self).stream) == node_height(*old(self).stream),
            match r {
                None => {
                    &&& old(self).out().len() == 0
                    &&& final(self).out().len() == 0
                    &&& node_fuel(*final(self).stream) <= node_fuel(*old(self).stream)
                },
                Some(v) => {
                    &&& old(self).out().len() > 0
                    &&& v@ == old(self).out()[0]
                    &&& final(self).out() == old(self).out().drop_first()
                    &&& node_fuel(*final(self).stream) < node_fuel(*old(self).stream)
                },
            },
        decreases node_height(*old(self).stream), 1int,
    {
        let ghost orig = *old(self);
        loop
            invariant
                orig == *old(self),
                self.filter_fn == orig.filter_fn,
                self.back_channel.wf(),
                !self.back_channel.full(),
                node_wf(*self.stream),
                scalar_reads(*self.filter_fn) == 1,
                forall|i: int| 0 <= i < node_out(*self.stream).len() ==> scalar_accepts(
                    *self.filter_fn,
                    #[trigger] node_out(*self.stream)[i],
                ) && scalar_denote(*self.filter_fn, node_out(*self.stream)[i]) is B,
                node_height(*self.stream) == node_height(*orig.stream),
                node_fuel(*self.stream) <= node_fuel(*orig.stream),
                self.out() == orig.out(),
                orig.wf(),
            decreases node_fuel(*self.stream),
        {
            let ghost src_before = node_out(*self.stream);
            match self.stream.next() {
                // End of the stream
                None => {
                    proof {
                        assert(src_before.filter(self.predv()) =~= Seq::<RtValV>::empty());
                    }
                    return None;
                },

                // We actually got a value from the stream
                Some(rt_val) => {
                    let ghost v0 = src_before[0];
                    proof {
                        broadcast use vstd::prelude::Seq::lemma_filter_prepend;

                        assert(src_before =~= seq![v0] + src_before.drop_first());
                        assert(src_before.filter(self.predv()) == (if self.predv()(v0) {
                            seq![v0]
                        } else {
                            Seq::<RtValV>::empty()
                        }) + src_before.drop_first().filter(self.predv()));
                    }
                    let keep = rt_val.duplicate();

                    self.back_channel.write(rt_val);

                    let predicate_eval = self.filter_fn.eval(&mut self.back_channel);
                    match predicate_eval.as_bool() {
                        Some(true) => {
                            // The value passes the filter
                            proof {
                                assert(self.out() =~= orig.out().drop_first());
                            }
                            return Some(keep);
                        },
                        Some(false) => {
                            // Value filtered out. Try the next one.
                            proof {
                                assert(Seq::<RtValV>::empty() + node_out(
                                    *self.stream,
                                ).filter(self.predv()) =~= self.out());
                            }
                        },
                        None => {
                            // The type checker only lets boolean predicates
                            // reach a filter.
                            proof {
                                assert(false);
                            }
                            return None;
                        },
                    }
                },
            }
        }
    }
}

impl StreamMap {
    /// Pulls one source element and hands out the transform's answer for it:
    /// one input always yields one output.
    fn next(&mut self) -> (r: Option<RtVal>)
        requires
            old(self).wf(),
        ensures
            final(self).wf(),
            final(self).map_fn == old(self).map_fn,
            node_height(*final(self).stream) == node_height(*old(self).stream),
            match r {
                None => {
                    &&& old(self).out().len() == 0
                    &&& final(self).out().len() == 0
                    &&& node_fuel(*final(self).stream) <= node_fuel(*old(self).stream)
                },
                Some(v) => {
                    &&& old(self).out().len() > 0
                    &&& v@ == old(self).out()[0]
                    &&& final(self).out() == old(self).out().drop_first()
                    &&& node_fuel(*final(self).stream) < node_fuel(*old(self).stream)
                },
            },
        decreases node_height(*old(self).stream), 1int,
    {
        let ghost src_before = node_out(*self.stream);
        match self.stream.next() {
            // End of the stream
            None => {
                proof {
                    assert(src_before.map_values(self.fv()) =~= Seq::<RtValV>::empty());
                }
                None
            },

            // We actually got a value from the stream
            Some(rt_val) => {
                let ghost v0 = src_before[0];
                self.back_channel.write(rt_val);

                let out_val = self.map_fn.eval(&mut self.back_channel);
                proof {
                    assert(old(self).out()[0] == self.fv()(v0));
                    assert(final(self).out() =~= old(self).out().drop_first());
                }
                Some(out_val)
            },
        }
    }
}

/// An operator literal the lowering accepts, its pattern accepted by the
/// engine.
pub open spec fn scalar_op_ok(op: ExprV) -> bool {
    match op {
        ExprV::Builtin(BuiltinV::RegexMatch { pattern }, _) => regex_ok(pattern),
        ExprV::Builtin(BuiltinV::RegexSubst { search, .. }, _) => regex_ok(search),
        _ => false,
    }
}

/// The stream expressions the lowering accepts: the line source, and filter
/// and map calls whose operator is a regex literal and whose source streams
/// text. The type checker lets exactly these through as stream-typed trees.
pub open spec fn lowerable_stream(e: ExprV) -> bool
    decreases e,
{
    match e {
        ExprV::Builtin(BuiltinV::Stdin, _) => true,
        ExprV::Call { function, arguments } => arguments.len() == 2 && (match *function {
            ExprV::Builtin(BuiltinV::Filter, _) => scalar_op_ok(arguments[0]) && (arguments[0]
                matches ExprV::Builtin(BuiltinV::RegexMatch { .. }, _)) && lowerable_stream(
                arguments[1],
            ) && elem_is_string(arguments[1]),
            ExprV::Builtin(BuiltinV::MapOp, _) => scalar_op_ok(arguments[0]) && lowerable_stream(
                arguments[1],
            ) && elem_is_string(arguments[1]),
            _ => false,
        }),
        _ => false,
    }
}

/// Whether the stream's element type is text (rather than a truth value):
/// the line source streams text, a filter keeps its source's element type,
/// and a map streams whatever its operator returns.
pub open spec fn elem_is_string(e: ExprV) -> bool
    decreases e,
{
    match e {
        ExprV::Builtin(BuiltinV::Stdin, _) => true,
        ExprV::Call { function, arguments } => arguments.len() == 2 && (match *function {
            ExprV::Builtin(BuiltinV::Filter, _) => elem_is_string(arguments[1]),
            ExprV::Builtin(BuiltinV::MapOp, _) => arguments[0] matches ExprV::Builtin(
                BuiltinV::RegexSubst { .. },
                _,
            ),
            _ => false,
        }),
        _ => false,
    }
}

/// The sequence of values a stream expression stands for, over the given
/// input lines: the lines themselves, filtered by each filter's predicate
/// and rewritten by each map's transform, in order.
pub open spec fn stream_denote(e: ExprV, input: Seq<Seq<char>>) -> Seq<RtValV>
    decreases e,
{
    match e {
        ExprV::Builtin(BuiltinV::Stdin, _) => input.map_values(|t: Seq<char>| RtValV::S(t)),
        ExprV::Call { function, arguments } => if arguments.len() == 2 {
            match *function {
                ExprV::Builtin(BuiltinV::Filter, _) => stream_denote(arguments[1], input).filter(
                    |v: RtValV| op_apply(arguments[0], v) == RtValV::B(true),
                ),
                ExprV::Builtin(BuiltinV::MapOp, _) => stream_denote(arguments[1], input).map_values(
                    |v: RtValV| op_apply(arguments[0], v),
                ),
                _ => Seq::empty(),
            }
        } else {
            Seq::empty()
        },
        _ => Seq::empty(),
    }
}

/// Filtering by predicates that agree on every element filters alike.
proof fn lemma_filter_congruence<A>(s: Seq<A>, p: spec_fn(A) -> bool, q: spec_fn(A) -> bool)
    requires
        forall|i: int| 0 <= i < s.len() ==> p(#[trigger] s[i]) == q(s[i]),
    ensures
        s.filter(p) == s.filter(q),
    decreases s.len(),
{
    reveal(Seq::filter);
    if s.len() > 0 {
        lemma_filter_congruence(s.drop_last(), p, q);
        assert(p(s.last()) == q(s.last()));
    }
}

/// Mapping by transforms that agree on every element maps alike.
proof fn lemma_map_congruence<A, B>(s: Seq<A>, f: spec_fn(A) -> B, g: spec_fn(A) -> B)
    requires
        forall|i: int| 0 <= i < s.len() ==> f(#[trigger] s[i]) == g(s[i]),
    ensures
        s.map_values(f) == s.map_values(g),
{
    assert(s.map_values(f) =~= s.map_values(g));
}

/// A text-element stream really holds only text values.
proof fn lemma_denote_string_elems(e: ExprV, input: Seq<Seq<char>>)
    requires
        lowerable_stream(e),
        elem_is_string(e),
    ensures
        forall|i: int| 0 <= i < stream_denote(e, input).len() ==> #[trigger] stream_denote(
            e,
            input,
        )[i] is S,
    decreases e,
{
    let out = stream_denote(e, input);
    match e {
        ExprV::Builtin(BuiltinV::Stdin, _) => {},
        ExprV::Call { function, arguments } => {
            let src = stream_denote(arguments[1], input);
            match *function {
                ExprV::Builtin(BuiltinV::Filter, _) => {
                    lemma_denote_string_elems(arguments[1], input);
                    let p = |v: RtValV| op_apply(arguments[0], v) == RtValV::B(true);
                    src.filter_lemma(p);
                    assert forall|i: int| 0 <= i < out.len() implies #[trigger] out[i] is S by {
                        broadcast use vstd::prelude::Seq::lemma_filter_contains_rev;

                        assert(out.contains(out[i]));
                        assert(src.contains(out[i]));
                        let j = choose|j: int| 0 <= j < src.len() && src[j] == out[i];
                        assert(src[j] is S);
                    }
                },
                ExprV::Builtin(BuiltinV::MapOp, _) => {
                    assert forall|i: int| 0 <= i < out.len() implies #[trigger] out[i] is S by {
                        assert(out[i] == op_apply(arguments[0], src[i]));
                    }
                },
                _ => {},
            }
        },
        _ => {},
    }
}

/// Lowers a checked stream expression over the given input lines into its
/// runtime graph: each operator gets a fresh channel and its scalar subtree,
/// rewritten as a one-argument call reading that channel.
pub fn stream_from(expr: &Expr, input: Vec<String>) -> (r: StreamNode)
    requires
        lowerable_stream(expr@),
    ensures
        node_wf(r),
        node_out(r) == stream_denote(expr@, input.deep_view()),
    decreases expr,
{
    let ghost inputv = input.deep_view();
    match expr {
        Expr::Builtin(Builtin::Stdin, _) => {
            let s = StdinState { lines: input, next_line: 0 };
            proof {
                assert(s.lines.deep_view().skip(0) =~= inputv);
            }
            StreamNode::Stdin(s)
        },
        Expr::FunCall(fcall) => {
            proof {
                assert(*expr == Expr::FunCall(*fcall));
                crate::compile::parse::lemma_exprs_view(fcall.arguments@);
                assert(decreases_to!(*expr => *fcall));
                assert(decreases_to!(*fcall => fcall.arguments));
                assert(decreases_to!(fcall.arguments => fcall.arguments[0 as int]));
                assert(decreases_to!(fcall.arguments => fcall.arguments[1 as int]));
            }
            let ghost opv = expr@->Call_arguments[0];
            let ghost srcv = expr@->Call_arguments[1];

            // Compile the operator as a one-argument call reading the channel
            let op = &fcall.arguments[0];
            proof {
                assert(op@ == opv);
            }
            let op_copy = match op {
                Expr::Builtin(b, pos) => Expr::Builtin(crate::compile::parse::dup_builtin(b), *pos),
                _ => {
                    proof {
                        assert(scalar_op_ok(opv));
                        assert(false);
                    }
                    Expr::ReadVar
                },
            };
            let mut synth_args: Vec<Expr> = Vec::new();
            synth_args.push(Expr::ReadVar);
            let ghost sa = synth_args@;
            let synth = FunCall::new_expr(op_copy, synth_args);
            proof {
                crate::compile::parse::lemma_exprs_view(sa);
                assert(sa =~= seq![Expr::ReadVar]);
                assert(sa[0]@ == ExprV::ReadVar);
                assert(crate::compile::parse::exprs_view(sa) =~= seq![ExprV::ReadVar]);
                assert(op_copy@ == opv);
                assert(scalar_op_ok(opv));
                assert(synth@->Call_arguments[0] == ExprV::ReadVar);
                assert(scalar_lowerable(ExprV::ReadVar));
                assert(scalar_lowerable(synth@));
            }
            let rt_fn = scalar_from(&synth);
            proof {
                assert forall|v: RtValV| #[trigger] scalar_denote(rt_fn, v) == op_apply(
                    opv,
                    v,
                ) by {
                    assert(scalar_denote(rt_fn, v) == crate::runtime::scalar::scalar_expr_denote(
                        synth@,
                        v,
                    ));
                    assert(crate::runtime::scalar::scalar_expr_denote(
                        synth@->Call_arguments[0],
                        v,
                    ) == v);
                }
                assert forall|v: RtValV| #[trigger] scalar_accepts(rt_fn, v) == (v is S) by {
                    assert(scalar_accepts(rt_fn, v) == crate::runtime::scalar::scalar_expr_accepts(
                        synth@,
                        v,
                    ));
                    assert(crate::runtime::scalar::scalar_expr_accepts(
                        synth@->Call_arguments[0],
                        v,
                    ));
                    assert(crate::runtime::scalar::scalar_expr_denote(
                        synth@->Call_arguments[0],
                        v,
                    ) == v);
                }
            }

            let back_channel = StreamVar::new();

            // Convert the data source
            let input_stream = stream_from(&fcall.arguments[1], input);

            match &*fcall.function {
                Expr::Builtin(Builtin::Filter, _) => {
                    let node = StreamFilter {
                        filter_fn: Box::new(rt_fn),
                        back_channel,
                        stream: Box::new(input_stream),
                    };
                    proof {
                        lemma_denote_string_elems(srcv, inputv);
                        assert forall|i: int|
                            0 <= i < node_out(*node.stream).len() implies scalar_accepts(
                            *node.filter_fn,
                            #[trigger] node_out(*node.stream)[i],
                        ) && scalar_denote(*node.filter_fn, node_out(*node.stream)[i]) is B by {
                            let v = node_out(*node.stream)[i];
                            assert(v is S);
                            assert(scalar_accepts(rt_fn, v) == (v is S));
                            assert(scalar_denote(rt_fn, v) == op_apply(opv, v));
                        }
                        assert forall|i: int|
                            0 <= i < node_out(*node.stream).len() implies node.predv()(
                            #[trigger] node_out(*node.stream)[i],
                        ) == (|v: RtValV| op_apply(opv, v) == RtValV::B(true))(
                            node_out(*node.stream)[i],
                        ) by {
                            let v = node_out(*node.stream)[i];
                            assert(scalar_denote(rt_fn, v) == op_apply(opv, v));
                        }
                        lemma_filter_congruence(
                            node_out(*node.stream),
                            node.predv(),
                            |v: RtValV| op_apply(opv, v) == RtValV::B(true),
                        );
                    }
                    StreamNode::Filter(node)
                },
                Expr::Builtin(Builtin::MapOp, _) => {
                    let node = StreamMap {
                        map_fn: Box::new(rt_fn),
                        back_channel,
                        stream: Box::new(input_stream),
                    };
                    proof {
                        lemma_denote_string_elems(srcv, inputv);
                        assert forall|i: int|
                            0 <= i < node_out(*node.stream).len() implies scalar_accepts(
                            *node.map_fn,
                            #[trigger] node_out(*node.stream)[i],
                        ) by {
                            let v = node_out(*node.stream)[i];
                            assert(v is S);
                            assert(scalar_accepts(rt_fn, v) == (v is S));
                        }
                        assert forall|i: int|
                            0 <= i < node_out(*node.stream).len() implies node.fv()(
                            #[trigger] node_out(*node.stream)[i],
                        ) == (|v: RtValV| op_apply(opv, v))(node_out(*node.stream)[i]) by {
                            let v = node_out(*node.stream)[i];
                            assert(scalar_denote(rt_fn, v) == op_apply(opv, v));
                        }
                        lemma_map_congruence(
                            node_out(*node.stream),
                            node.fv(),
                            |v: RtValV| op_apply(opv, v),
                        );
                    }
                    StreamNode::MapOp(node)
                },
                _ => {
                    proof {
                        assert(expr@ matches ExprV::Call { function, .. } && *function == (
                        *fcall.function)@);
                        assert((*fcall.function)@ matches ExprV::Builtin(BuiltinV::Filter, _)
                            || (*fcall.function)@ matches ExprV::Builtin(BuiltinV::MapOp, _));
                        assert(false);
                    }
                    StreamNode::Stdin(StdinState { lines: Vec::new(), next_line: 0 })
                },
            }
        },
        _ => {
            proof {
                assert(false);
            }
            StreamNode::Stdin(StdinState { lines: input, next_line: 0 })
        },
    }
}

/// Well-typed trees go wrong nowhere: a tree the type checker gives a stream
/// type is exactly one the lowering accepts, with its element type telling
/// text from truth values; a tree with a function type is an operator
/// literal; and no tree has a bare scalar type at all, which is why no
/// runtime error exists.
pub proof fn lemma_well_typed_shape(e: ExprV)
    requires
        tc_wf(e),
        patterns_ok_expr(e),
    ensures
        match type_of(e) {
            Ok(t) => match t {
                TypeV::Stream(item) => {
                    &&& lowerable_stream(e)
                    &&& (*item == TypeV::String || *item == TypeV::Bool)
                    &&& (elem_is_string(e) <==> *item == TypeV::String)
                },
                TypeV::Fn { params, ret } => (match e {
                    ExprV::Builtin(BuiltinV::RegexMatch { .. }, _) => params == seq![TypeV::String]
                        && *ret == TypeV::Bool,
                    ExprV::Builtin(BuiltinV::RegexSubst { .. }, _) => params == seq![TypeV::String]
                        && *ret == TypeV::String,
                    _ => false,
                }),
                _ => false,
            },
            Err(_) => true,
        },
    decreases e,
{
    match e {
        ExprV::Builtin(b, pos) => {},
        ExprV::Call { function, arguments } => {
            lemma_well_typed_shape(*function);
            assert forall|i: int| 0 <= i < arguments.len() implies tc_wf(#[trigger] arguments[i])
                && patterns_ok_expr(arguments[i]) by {}
            if arguments.len() >= 1 {
                lemma_well_typed_shape(arguments[0]);
            }
            if arguments.len() >= 2 {
                lemma_well_typed_shape(arguments[1]);
            }
            let ftr = call_fn_type(e);
            match *function {
                ExprV::Builtin(BuiltinV::Filter, _) => {
                    if arguments.len() == 2 && filter_fn_type(arguments) is Ok && type_of(
                        e,
                    ) is Ok {
                        let src_t = type_of(arguments[1]);
                        let op_t = type_of(arguments[0]);
                        assert(src_t is Ok && src_t->Ok_0 is Stream);
                        let item = src_t->Ok_0->Stream_0;
                        let expected = TypeV::Fn {
                            params: seq![*item],
                            ret: Box::new(TypeV::Bool),
                        };
                        assert(op_t == Ok::<TypeV, ErrorV>(expected));
                        match arguments[0] {
                            ExprV::Builtin(BuiltinV::RegexMatch { .. }, _) => {
                                assert(seq![*item] == seq![TypeV::String]);
                                assert(*item == TypeV::String);
                            },
                            ExprV::Builtin(BuiltinV::RegexSubst { .. }, _) => {
                                assert(expected->Fn_ret == Box::new(TypeV::String));
                                assert(false);
                            },
                            _ => {
                                assert(false);
                            },
                        }
                        assert(check_args(
                            seq![expected, TypeV::Stream(item)],
                            arguments,
                        ) is None ==> type_of(e) == Ok::<TypeV, ErrorV>(TypeV::Stream(item)));
                        assert(lowerable_stream(e));
                        assert(elem_is_string(e) <==> *item == TypeV::String);
                    }
                },
                ExprV::Builtin(BuiltinV::MapOp, _) => {
                    if arguments.len() == 2 && map_fn_type(arguments) is Ok && type_of(e) is Ok {
                        let src_t = type_of(arguments[1]);
                        let op_t = type_of(arguments[0]);
                        assert(src_t is Ok && src_t->Ok_0 is Stream);
                        let item = src_t->Ok_0->Stream_0;
                        assert(op_t is Ok && op_t->Ok_0 is Fn);
                        let params = op_t->Ok_0->Fn_params;
                        let ret = op_t->Ok_0->Fn_ret;
                        assert(params.len() == 1 && params[0] == *item);
                        match arguments[0] {
                            ExprV::Builtin(BuiltinV::RegexMatch { .. }, _) => {
                                assert(params == seq![TypeV::String]);
                                assert(*item == TypeV::String);
                                assert(*ret == TypeV::Bool);
                            },
                            ExprV::Builtin(BuiltinV::RegexSubst { .. }, _) => {
                                assert(params == seq![TypeV::String]);
                                assert(*item == TypeV::String);
                                assert(*ret == TypeV::String);
                            },
                            _ => {
                                assert(false);
                            },
                        }
                        assert(lowerable_stream(e));
                        assert(type_of(e) == Ok::<TypeV, ErrorV>(TypeV::Stream(Box::new(*ret))));
                        assert(elem_is_string(e) <==> *ret == TypeV::String);
                    }
                },
                _ => {
                    if type_of(e) is Ok {
                        assert(ftr == type_of(*function));
                        match ftr {
                            Ok(TypeV::Fn { params, ret }) => {
                                assert(params == seq![TypeV::String]);
                                assert(arguments.len() == 1);
                                assert(check_args(params, arguments) is None);
                                assert(type_of(arguments[0]) is Ok && type_of(arguments[0])->Ok_0
                                    == TypeV::String);
                                assert(false);
                            },
                            _ => {
                                assert(false);
                            },
                        }
                    }
                },
            }
        },
        _ => {},
    }
}

/// One sequence read in order inside another: the order of the kept
/// elements, and how often each is kept, never exceeds the source's.
pub open spec fn subsequence_of(a: Seq<RtValV>, b: Seq<RtValV>) -> bool
    decreases b.len(),
{
    if a.len() == 0 {
        true
    } else if b.len() == 0 {
        false
    } else {
        (a[0] == b[0] && subsequence_of(a.drop_first(), b.drop_first())) || subsequence_of(
            a,
            b.drop_first(),
        )
    }
}

proof fn lemma_filter_subsequence_general(s: Seq<RtValV>, p: spec_fn(RtValV) -> bool)
    ensures
        subsequence_of(s.filter(p), s),
    decreases s.len(),
{
    broadcast use vstd::prelude::Seq::lemma_filter_prepend;

    if s.len() == 0 {
        assert(s.filter(p) =~= Seq::<RtValV>::empty());
    } else {
        let h = s[0];
        let rest = s.drop_first();
        assert(s =~= seq![h] + rest);
        lemma_filter_subsequence_general(rest, p);
        assert(s.filter(p) == (if p(h) {
            seq![h]
        } else {
            Seq::<RtValV>::empty()
        }) + rest.filter(p));
        if p(h) {
            let out = s.filter(p);
            assert(out[0] == h);
            assert(out.drop_first() =~= rest.filter(p));
        } else {
            assert(Seq::<RtValV>::empty() + rest.filter(p) =~= rest.filter(p));
        }
    }
}

/// Every operator channel in the graph has had exactly as many reads as
/// writes.
pub open spec fn channels_balanced(n: StreamNode) -> bool
    decreases n,
{
    match n {
        StreamNode::Stdin(_) => true,
        StreamNode::Filter(f) => f.back_channel.writes() == f.back_channel.reads()
            && channels_balanced(*f.stream),
        StreamNode::MapOp(m) => m.back_channel.writes() == m.back_channel.reads()
            && channels_balanced(*m.stream),
    }
}

/// Law: between pulls, every channel of a well-formed graph has had exactly
/// as many writes as reads; and since a write demands an empty cell, no two
/// writes ever happen without a read between them. As `next` gives back a
/// well-formed graph after every pull, the counts match over a full run.
pub proof fn lemma_channels_balanced(n: StreamNode)
    requires
        node_wf(n),
    ensures
        channels_balanced(n),
    decreases n,
{
    match n {
        StreamNode::Stdin(_) => {},
        StreamNode::Filter(f) => {
            lemma_channels_balanced(*f.stream);
        },
        StreamNode::MapOp(m) => {
            lemma_channels_balanced(*m.stream);
        },
    }
}

/// Law: a filter node never reorders or duplicates surviving elements: what
/// it will emit is a subsequence of what its source will emit.
pub proof fn lemma_filter_keeps_order(f: StreamFilter)
    ensures
        subsequence_of(f.out(), node_out(*f.stream)),
{
    lemma_filter_subsequence_general(node_out(*f.stream), f.predv());
}

/// Law: a map node emits exactly one output per input element, in input
/// order: the value at each position is its transform's answer for the
/// source element at the same position.
pub proof fn lemma_map_one_per_input(m: StreamMap)
    ensures
        m.out().len() == node_out(*m.stream).len(),
        forall|i: int| 0 <= i < m.out().len() ==> m.out()[i] == scalar_denote(
            *m.map_fn,
            #[trigger] node_out(*m.stream)[i],
        ),
{
}

impl StreamNode {
    /// Pulls the next value this node emits, advancing the whole graph under
    /// it; nothing once the graph is exhausted.
    pub fn next(&mut self) -> (r: Option<RtVal>)
        requires
            node_wf(*old(self)),
        ensures
            node_wf(*final(self)),
            node_height(*final(self)) == node_height(*old(self)),
            match r {
                None => {
                    &&& node_out(*old(self)).len() == 0
                    &&& node_out(*final(self)).len() == 0
                    &&& node_fuel(*final(self)) <= node_fuel(*old(self))
                },
                Some(v) => {
                    &&& node_out(*old(self)).len() > 0
                    &&& v@ == node_out(*old(self))[0]
                    &&& node_out(*final(self)) == node_out(*old(self)).drop_first()
                    &&& node_fuel(*final(self)) < node_fuel(*old(self))
                },
            },
        decreases node_height(*old(self)), 0int,
    {
        match self {
            StreamNode::Stdin(s) => s.next(),
            StreamNode::Filter(f) => f.next(),
            StreamNode::MapOp(m) => m.next(),
        }
    }
}

} // verus!
