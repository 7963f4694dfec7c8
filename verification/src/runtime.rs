pub mod scalar;
pub mod stream;

use vstd::prelude::*;

use crate::compile::parse::{patterns_ok_expr, Expr, ExprV};
use crate::compile::types::{program_check, tc_wf};

verus! {

/// The mathematical form of a runtime value.
pub enum RtValV {
    S(Seq<char>),
    B(bool),
}

/// A value flowing through the pipeline at run time: a text line or a
/// predicate's answer.
#[derive(Debug)]
pub enum RtVal {
    String(String),
    Bool(bool),
}

impl View for RtVal {
    type V = RtValV;

    open spec fn view(&self) -> RtValV {
        match self {
            RtVal::String(s) => RtValV::S(s@),
            RtVal::Bool(b) => RtValV::B(*b),
        }
    }
}

impl DeepView for RtVal {
    type V = RtValV;

    open spec fn deep_view(&self) -> RtValV {
        self.view()
    }
}

/// The text of a string value; irrelevant for others.
pub open spec fn str_of(v: RtValV) -> Seq<char> {
    match v {
        RtValV::S(t) => t,
        RtValV::B(_) => Seq::empty(),
    }
}

/// How a value is printed: text verbatim, a truth value in its canonical
/// textual form.
pub open spec fn format_val(v: RtValV) -> Seq<char> {
    match v {
        RtValV::S(t) => t,
        RtValV::B(b) => if b {
            "true"@
        } else {
            "false"@
        },
    }
}

impl RtVal {
    /// The held text, for a string value.
    pub fn str_ref(&self) -> (r: Option<&str>)
        ensures
            match r {
                Some(s) => self@ matches RtValV::S(t) && s@ == t,
                None => !(self@ is S),
            },
    {
        match self {
            RtVal::String(s) => Some(s.as_str()),
            _ => None,
        }
    }

    /// The held truth value, for a bool value.
    pub fn as_bool(&self) -> (r: Option<bool>)
        ensures
            match r {
                Some(b) => self@ == RtValV::B(b),
                None => !(self@ is B),
            },
    {
        match self {
            RtVal::Bool(b) => Some(*b),
            _ => None,
        }
    }

    /// The line this value prints as.
    pub fn format(&self) -> (r: String)
        ensures
            r@ == format_val(self@),
    {
        match self {
            RtVal::String(s) => s.clone(),
            RtVal::Bool(b) => if *b {
                String::from_str("true")
            } else {
                String::from_str("false")
            },
        }
    }

    /// An equal value.
    pub fn duplicate(&self) -> (r: RtVal)
        ensures
            r@ == self@,
    {
        match self {
            RtVal::String(s) => RtVal::String(s.clone()),
            RtVal::Bool(b) => RtVal::Bool(*b),
        }
    }
}

/// A capacity-1 rendezvous cell passing the current stream element into the
/// scalar subtree standing in for an operator. The write-then-read-once
/// discipline is a checked precondition: a write demands an empty cell, a
/// read a full one, so no two writes ever happen without a read between
/// them, and the counts never drift more than one apart.
pub struct StreamVar {
    slot: Option<RtVal>,
    writes: Ghost<nat>,
    reads: Ghost<nat>,
}

impl StreamVar {
    /// Whether a value is waiting to be read.
    pub closed spec fn full(&self) -> bool {
        self.slot is Some
    }

    /// The waiting value.
    pub closed spec fn value(&self) -> RtValV {
        self.slot->0@
    }

    /// How many values were ever written into the cell.
    pub closed spec fn writes(&self) -> nat {
        self.writes@
    }

    /// How many values were ever read out of the cell.
    pub closed spec fn reads(&self) -> nat {
        self.reads@
    }

    /// The cell's invariant: the write count stays exactly one ahead of the
    /// read count while a value waits, and level with it otherwise.
    pub open spec fn wf(&self) -> bool {
        if self.full() {
            self.writes() == self.reads() + 1
        } else {
            self.writes() == self.reads()
        }
    }

    /// A fresh, empty channel.
    pub fn new() -> (r: StreamVar)
        ensures
            r.wf(),
            !r.full(),
            r.writes() == 0,
            r.reads() == 0,
    {
        StreamVar { slot: None, writes: Ghost(0), reads: Ghost(0) }
    }

    /// Removes the pending value. Reading an empty channel is an internal
    /// invariant violation, so an empty channel is left out by precondition.
    pub fn read(&mut self) -> (r: RtVal)
        requires
            old(self).wf(),
            old(self).full(),
        ensures
            final(self).wf(),
            !final(self).full(),
            r@ == old(self).value(),
            final(self).reads() == old(self).reads() + 1,
            final(self).writes() == old(self).writes(),
    {
        let taken = self.slot.take();
        proof {
            self.reads@ = self.reads@ + 1;
        }
        match taken {
            Some(v) => v,
            None => {
                proof {
                    assert(false);
                }
                RtVal::Bool(false)
            },
        }
    }

    /// Stores the next value. Every written value must be read exactly once
    /// before the next write, so a full channel is left out by precondition.
    pub fn write(&mut self, new_value: RtVal)
        requires
            old(self).wf(),
            !old(self).full(),
        ensures
            final(self).wf(),
            final(self).full(),
            final(self).value() == new_value@,
            final(self).writes() == old(self).writes() + 1,
            final(self).reads() == old(self).reads(),
    {
        self.slot = Some(new_value);
        proof {
            self.writes@ = self.writes@ + 1;
        }
    }
}

/// The lines a checked program prints over the given input lines.
pub open spec fn program_output(e: ExprV, input: Seq<Seq<char>>) -> Seq<Seq<char>> {
    stream::stream_denote(e, input).map_values(|v: RtValV| format_val(v))
}

/// Lowers a compiled program over the input lines and drives the outermost
/// stream node to exhaustion, collecting the printed form of every value it
/// emits.
pub fn exec(expr_tree: &Expr, input: Vec<String>) -> (r: Vec<String>)
    requires
        tc_wf(expr_tree@),
        patterns_ok_expr(expr_tree@),
        program_check(expr_tree@) is Ok,
    ensures
        r.deep_view() == program_output(expr_tree@, input.deep_view()),
{
    let ghost inputv = input.deep_view();
    proof {
        stream::lemma_well_typed_shape(expr_tree@);
    }
    let mut exec_tree = stream::stream_from(expr_tree, input);
    let mut out: Vec<String> = Vec::new();
    proof {
        assert(out.deep_view() + stream::node_out(exec_tree).map_values(
            |v: RtValV| format_val(v),
        ) =~= program_output(expr_tree@, inputv));
    }
    loop
        invariant
            inputv == input.deep_view(),
            stream::node_wf(exec_tree),
            out.deep_view() + stream::node_out(exec_tree).map_values(|v: RtValV| format_val(v))
                == program_output(expr_tree@, inputv),
        decreases stream::node_fuel(exec_tree),
    {
        let ghost remaining = stream::node_out(exec_tree);
        match exec_tree.next() {
            None => {
                proof {
                    assert(remaining.map_values(|v: RtValV| format_val(v))
                        =~= Seq::<Seq<char>>::empty());
                    assert(out.deep_view() + Seq::<Seq<char>>::empty() =~= out.deep_view());
                }
                return out;
            },
            Some(rt_val) => {
                let ghost out_old = out.deep_view();
                let line_to_print = rt_val.format();
                out.push(line_to_print);
                proof {
                    assert(out.deep_view() =~= out_old.push(format_val(rt_val@)));
                    assert(remaining.map_values(|v: RtValV| format_val(v)) =~= seq![
                        format_val(remaining[0]),
                    ] + remaining.drop_first().map_values(|v: RtValV| format_val(v)));
                    assert(out.deep_view() + stream::node_out(exec_tree).map_values(
                        |v: RtValV| format_val(v),
                    ) =~= out_old + remaining.map_values(|v: RtValV| format_val(v)));
                }
            },
        }
    }
}

/// Law: under the channel invariant the counts never drift: at most one
/// write is ever unread, and an idle channel has had exactly as many reads
/// as writes.
pub proof fn lemma_channel_balance(ch: StreamVar)
    requires
        ch.wf(),
    ensures
        ch.reads() <= ch.writes() <= ch.reads() + 1,
        !ch.full() ==> ch.writes() == ch.reads(),
{
}

} // verus!
