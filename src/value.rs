use vstd::prelude::*;

verus! {

/// A runtime value of the interpreted language, as far as argument binding sees it.
#[derive(Debug, PartialEq)]
pub enum Value {
    /// Stands for a parameter that received no value; never observed by a caller.
    Void,
    NoneValue,
    Bool(bool),
    Int(i64),
    Str(String),
    Tuple(Vec<Value>),
    /// A string-keyed mapping, entries in insertion order.
    Dict(Vec<(String, Value)>),
}

/// Whether `b` holds the same value as `a`: equal scalars and strings, and tuples and mappings
/// whose entries hold the same values under the same keys, in the same order.
pub open spec fn same_value(a: Value, b: Value) -> bool
    decreases a, 1nat,
{
    match a {
        Value::Tuple(xs) => b is Tuple && same_values(xs@, b->Tuple_0@),
        Value::Dict(es) => b is Dict && same_entries(es@, b->Dict_0@),
        _ => a == b,
    }
}

/// Whether the two sequences have the same length and hold the same values place by place.
pub open spec fn same_values(xs: Seq<Value>, ys: Seq<Value>) -> bool
    decreases xs, 0nat,
{
    if xs.len() == 0 {
        ys.len() == 0
    } else {
        &&& ys.len() == xs.len()
        &&& same_values(xs.drop_last(), ys.drop_last())
        &&& same_value(xs[xs.len() - 1], ys[ys.len() - 1])
    }
}

/// Whether the two sequences have the same keys and hold the same values place by place.
pub open spec fn same_entries(xs: Seq<(String, Value)>, ys: Seq<(String, Value)>) -> bool
    decreases xs, 0nat,
{
    if xs.len() == 0 {
        ys.len() == 0
    } else {
        &&& ys.len() == xs.len()
        &&& same_entries(xs.drop_last(), ys.drop_last())
        &&& xs[xs.len() - 1].0@ == ys[ys.len() - 1].0@
        &&& same_value(xs[xs.len() - 1].1, ys[ys.len() - 1].1)
    }
}

impl Value {
    /// A copy of this value: another handle that holds the same value.
    pub fn duplicate(&self) -> (r: Value)
        ensures
            same_value(*self, r),
        decreases self,
    {
        match self {
            Value::Void => Value::Void,
            Value::NoneValue => Value::NoneValue,
            Value::Bool(b) => Value::Bool(*b),
            Value::Int(n) => Value::Int(*n),
            Value::Str(s) => Value::Str(s.clone()),
            Value::Tuple(xs) => {
                let mut out: Vec<Value> = Vec::new();
                let mut i: usize = 0;
                while i < xs.len()
                    invariant
                        *self is Tuple && (*self)->Tuple_0 == *xs,
                        0 <= i <= xs@.len(),
                        same_values(xs@.take(i as int), out@),
                    decreases xs@.len() - i,
                {
                    proof {
                        assert(decreases_to!(*self => (*self)->Tuple_0));
                        assert(decreases_to!(*xs => xs@));
                        assert(decreases_to!(xs@ => xs@[i as int]));
                    }
                    let c = xs[i].duplicate();
                    let ghost before = out@;
                    out.push(c);
                    proof {
                        let t = xs@.take(i as int + 1);
                        assert(t.drop_last() =~= xs@.take(i as int));
                        assert(out@.drop_last() =~= before);
                        assert(t[t.len() - 1] == xs@[i as int]);
                    }
                    i = i + 1;
                }
                assert(xs@.take(xs@.len() as int) =~= xs@);
                Value::Tuple(out)
            },
            Value::Dict(es) => {
                let mut out: Vec<(String, Value)> = Vec::new();
                let mut i: usize = 0;
                while i < es.len()
                    invariant
                        *self is Dict && (*self)->Dict_0 == *es,
                        0 <= i <= es@.len(),
                        same_entries(es@.take(i as int), out@),
                    decreases es@.len() - i,
                {
                    proof {
                        assert(decreases_to!(*self => (*self)->Dict_0));
                        assert(decreases_to!(*es => es@));
                        assert(decreases_to!(es@ => es@[i as int]));
                        assert(decreases_to!(es@[i as int] => es@[i as int].1));
                    }
                    let c = es[i].1.duplicate();
                    let k = es[i].0.clone();
                    let ghost before = out@;
                    out.push((k, c));
                    proof {
                        let t = es@.take(i as int + 1);
                        assert(t.drop_last() =~= es@.take(i as int));
                        assert(out@.drop_last() =~= before);
                        assert(t[t.len() - 1] == es@[i as int]);
                    }
                    i = i + 1;
                }
                assert(es@.take(es@.len() as int) =~= es@);
                Value::Dict(out)
            },
        }
    }
}

/// A snapshot of the active call frames, attached to binding errors.
#[derive(Debug, PartialEq)]
pub struct CallStack {
    pub frames: Vec<String>,
}

/// Why a sequence of items does not describe a scope; each names the first such item.
#[derive(Debug, PartialEq, Eq, Structural)]
pub enum ConversionError {
    /// The item is not a two-element tuple.
    NotAPair(usize),
    /// The item's first element is not a string.
    KeyNotString(usize),
}

/// Errors that argument binding surfaces to the calling code.
#[derive(Debug, PartialEq)]
pub enum InterpreterError {
    /// More positional arguments than declared parameters, and no catch-all: (declared, given).
    WrongNumberOfArguments(usize, usize, CallStack),
    TypeError(Option<String>, CallStack),
}

} // verus!
