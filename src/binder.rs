use vstd::prelude::*;

use crate::scope::Scope;
use crate::value::{CallStack, InterpreterError, Value};

verus! {

/// A declared parameter: its name and whether it has a default expression.
pub struct Parameter {
    pub name: String,
    pub has_default: bool,
}

/// A function's declared parameters, with its optional catch-all parameters.
pub struct ParameterList {
    pub args: Vec<Parameter>,
    /// The name that collects extra positional arguments.
    pub args_var: Option<String>,
    /// The name that collects unmatched keyword arguments.
    pub kwargs_var: Option<String>,
}

/// What binding needs to know of a function.
pub struct Function {
    pub name: String,
    pub args: ParameterList,
}

/// The evaluated arguments of a call site.
pub struct ResolvedArguments {
    /// Positional values, in order.
    pub bound_args: Vec<Value>,
    /// Keyword arguments that matched no declared parameter, in order.
    pub kwargs: Vec<(String, Value)>,
}

/// More positional arguments than parameters, and nowhere to put the rest.
pub open spec fn too_many(f: Function, given: nat) -> bool {
    f.args.args@.len() < given && f.args.args_var is None
}

/// The indices below `n` of the parameters whose default is evaluated when `given`
/// positional arguments are supplied, in ascending order.
pub open spec fn default_indices(ps: Seq<Parameter>, given: nat, n: int) -> Seq<int>
    decreases n,
{
    if n <= 0 {
        Seq::empty()
    } else {
        let prev = default_indices(ps, given, n - 1);
        if n - 1 >= given && ps[n - 1].has_default {
            prev.push(n - 1)
        } else {
            prev
        }
    }
}

/// The names of the parameters below `n` that get neither an argument nor a default.
pub open spec fn missing_names(ps: Seq<Parameter>, given: nat, n: int) -> Seq<Seq<char>>
    decreases n,
{
    if n <= 0 {
        Seq::empty()
    } else {
        let prev = missing_names(ps, given, n - 1);
        if n - 1 >= given && !ps[n - 1].has_default {
            prev.push(ps[n - 1].name@)
        } else {
            prev
        }
    }
}

/// The value parameter `i` receives: its argument, else its evaluated default, else a
/// placeholder.
pub open spec fn param_value(ps: Seq<Parameter>, bound: Seq<Value>, defaults: Seq<Value>, i: int) -> Value {
    if i < bound.len() {
        bound[i]
    } else if ps[i].has_default {
        defaults[default_indices(ps, bound.len(), i).len() as int]
    } else {
        Value::Void
    }
}

/// The bindings of the parameters below `n`, a later name overriding an earlier one.
pub open spec fn param_bindings(ps: Seq<Parameter>, bound: Seq<Value>, defaults: Seq<Value>, n: int) -> Map<Seq<char>, Value>
    decreases n,
{
    if n <= 0 {
        Map::empty()
    } else {
        param_bindings(ps, bound, defaults, n - 1).insert(ps[n - 1].name@, param_value(ps, bound, defaults, n - 1))
    }
}

/// The declared parameter names are pairwise distinct.
pub open spec fn distinct_params(ps: Seq<Parameter>) -> bool {
    forall|a: int, b: int| 0 <= a < b < ps.len() ==> ps[a].name@ != ps[b].name@
}

/// Whether `name` is the name of one of the catch-all parameters.
pub open spec fn is_catch_all(ps: ParameterList, name: Seq<char>) -> bool {
    (ps.args_var is Some && ps.args_var->0@ == name) || (ps.kwargs_var is Some && ps.kwargs_var->0@ == name)
}

/// With distinct parameter names, the parameter at `i` is bound to exactly its own value.
pub proof fn lemma_param_binding(ps: Seq<Parameter>, bound: Seq<Value>, defaults: Seq<Value>, n: int, i: int)
    requires
        n <= ps.len(),
        0 <= i < n,
        distinct_params(ps),
    ensures
        param_bindings(ps, bound, defaults, n).contains_key(ps[i].name@),
        param_bindings(ps, bound, defaults, n)[ps[i].name@] == param_value(ps, bound, defaults, i),
    decreases n,
{
    if i < n - 1 {
        lemma_param_binding(ps, bound, defaults, n - 1, i);
    }
}

/// `m` without the names of the catch-all parameters.
pub open spec fn without_catch_alls(m: Map<Seq<char>, Value>, ps: ParameterList) -> Map<Seq<char>, Value> {
    let m1 = match ps.args_var {
        Some(a) => m.remove(a@),
        None => m,
    };
    match ps.kwargs_var {
        Some(k) => m1.remove(k@),
        None => m1,
    }
}

pub open spec fn digit_chars() -> Seq<char> {
    seq!['0', '1', '2', '3', '4', '5', '6', '7', '8', '9']
}

/// The decimal digits of `n`.
pub open spec fn decimal(n: nat) -> Seq<char>
    decreases n,
{
    if n < 10 {
        seq![digit_chars()[n as int]]
    } else {
        decimal(n / 10) + seq![digit_chars()[(n % 10) as int]]
    }
}

pub open spec fn quoted(name: Seq<char>) -> Seq<char> {
    seq!['\''] + name + seq!['\'']
}

/// The quoted names, with " and " between each pair.
pub open spec fn quoted_join(names: Seq<Seq<char>>) -> Seq<char>
    decreases names.len(),
{
    if names.len() == 0 {
        Seq::empty()
    } else if names.len() == 1 {
        quoted(names[0])
    } else {
        quoted_join(names.drop_last()) + " and "@ + quoted(names.last())
    }
}

/// The message of the error for missing positional arguments.
pub open spec fn missing_message(fname: Seq<char>, names: Seq<Seq<char>>) -> Seq<char> {
    fname + "() missing "@ + decimal(names.len()) + " required positional "@ + (if names.len() == 1 {
        "argument"@
    } else {
        "arguments"@
    }) + ": "@ + quoted_join(names)
}

fn digit(d: usize) -> (r: &'static str)
    requires
        d < 10,
    ensures
        r@ == seq![digit_chars()[d as int]],
{
    proof {
        reveal_strlit("0");
        reveal_strlit("1");
        reveal_strlit("2");
        reveal_strlit("3");
        reveal_strlit("4");
        reveal_strlit("5");
        reveal_strlit("6");
        reveal_strlit("7");
        reveal_strlit("8");
        reveal_strlit("9");
    }
    let r = match d {
        0 => "0",
        1 => "1",
        2 => "2",
        3 => "3",
        4 => "4",
        5 => "5",
        6 => "6",
        7 => "7",
        8 => "8",
        _ => "9",
    };
    assert(r@ =~= seq![digit_chars()[d as int]]);
    r
}

fn append_decimal(out: &mut String, n: usize)
    ensures
        final(out)@ == old(out)@ + decimal(n as nat),
    decreases n,
{
    if n >= 10 {
        append_decimal(out, n / 10);
    }
    out.append(digit(n % 10));
    assert(final(out)@ =~= old(out)@ + decimal(n as nat));
}

/// Builds the message of the error for the missing parameters `names`.
fn missing_arguments_message(fname: &String, names: &Vec<String>) -> (r: String)
    ensures
        r@ == missing_message(fname@, names@.map_values(|s: String| s@)),
{
    let ghost views = names@.map_values(|s: String| s@);
    let mut m = String::from_str(fname.as_str());
    proof {
        reveal_strlit("() missing ");
        reveal_strlit(" required positional ");
        reveal_strlit("argument");
        reveal_strlit("arguments");
        reveal_strlit(": ");
        reveal_strlit(" and ");
        reveal_strlit("'");
    }
    m.append("() missing ");
    append_decimal(&mut m, names.len());
    m.append(" required positional ");
    if names.len() == 1 {
        m.append("argument");
    } else {
        m.append("arguments");
    }
    m.append(": ");
    let ghost head = m@;
    let mut i: usize = 0;
    while i < names.len()
        invariant
            0 <= i <= names@.len(),
            views == names@.map_values(|s: String| s@),
            m@ == head + quoted_join(views.take(i as int)),
        decreases names@.len() - i,
    {
        if i > 0 {
            m.append(" and ");
        }
        m.append("'");
        m.append(names[i].as_str());
        m.append("'");
        proof {
            let t1 = views.take(i as int + 1);
            reveal_strlit("'");
            reveal_strlit(" and ");
            assert(t1.drop_last() =~= views.take(i as int));
            assert(t1.last() == names@[i as int]@);
            if i == 0 {
                assert(quoted_join(t1) == quoted(t1[0]));
                assert(m@ =~= head + quoted_join(t1));
            } else {
                assert(m@ =~= head + quoted_join(t1));
            }
        }
        i = i + 1;
    }
    assert(views.take(names@.len() as int) =~= views);
    m
}

impl Function {
    /// The indices of the parameters whose default has to be evaluated for a call with `given`
    /// positional arguments, ascending; none when the call has too many arguments.
    pub fn pending_defaults(&self, given: usize) -> (r: Vec<usize>)
        ensures
            too_many(*self, given as nat) ==> r@.len() == 0,
            !too_many(*self, given as nat) ==> r@.len() == default_indices(self.args.args@, given as nat, self.args.args@.len() as int).len()
                && forall|i: int| 0 <= i < r@.len() ==> r@[i] as int == #[trigger] default_indices(
                    self.args.args@,
                    given as nat,
                    self.args.args@.len() as int,
                )[i],
    {
        let mut out: Vec<usize> = Vec::new();
        if self.args.args.len() < given && self.args.args_var.is_none() {
            return out;
        }
        let ghost ps = self.args.args@;
        let mut i: usize = 0;
        while i < self.args.args.len()
            invariant
                ps == self.args.args@,
                0 <= i <= ps.len(),
                out@.len() == default_indices(ps, given as nat, i as int).len(),
                forall|j: int| 0 <= j < out@.len() ==> out@[j] as int == #[trigger] default_indices(ps, given as nat, i as int)[j],
            decreases ps.len() - i,
        {
            if i >= given && self.args.args[i].has_default {
                out.push(i);
            }
            i = i + 1;
        }
        out
    }
}

impl Scope {
    /// Binds the arguments of a call of `function` to its parameters.
    ///
    /// `defaults` holds the values of the defaults listed by [`Function::pending_defaults`],
    /// evaluated in that order, or the error of the first one whose evaluation failed. Extra
    /// positional arguments go to the catch-all positional parameter, keyword arguments to the
    /// catch-all keyword parameter; without one, unmatched keyword arguments are dropped.
    pub fn new(
        function: &Function,
        arguments: ResolvedArguments,
        defaults: Result<Vec<Value>, InterpreterError>,
        call_stack: CallStack,
    ) -> (r: Result<Scope, InterpreterError>)
        requires
            !too_many(*function, arguments.bound_args@.len()) ==> match defaults {
                Ok(d) => d@.len() == default_indices(
                    function.args.args@,
                    arguments.bound_args@.len(),
                    function.args.args@.len() as int,
                ).len(),
                Err(_) => default_indices(
                    function.args.args@,
                    arguments.bound_args@.len(),
                    function.args.args@.len() as int,
                ).len() > 0,
            },
        ensures
            ({
                let ps = function.args.args@;
                let bound = arguments.bound_args@;
                let k = ps.len();
                let j = bound.len();
                let missing = missing_names(ps, j, k as int);
                &&& too_many(*function, j) ==> r == Err::<Scope, InterpreterError>(
                    InterpreterError::WrongNumberOfArguments(k as usize, j as usize, call_stack),
                )
                &&& !too_many(*function, j) && defaults is Err ==> r == Err::<Scope, InterpreterError>(defaults->Err_0)
                &&& !(defaults is Err && defaults->Err_0 is WrongNumberOfArguments) ==> ((r is Err
                    && r->Err_0 is WrongNumberOfArguments) <==> too_many(*function, j))
                &&& !too_many(*function, j) && defaults is Ok && missing.len() > 0 ==> (r matches Err(
                    InterpreterError::TypeError(Some(m), cs),
                ) && m@ == missing_message(function.name@, missing) && cs == call_stack)
                &&& !too_many(*function, j) && defaults is Ok && missing.len() == 0 ==> (r matches Ok(s) && {
                    let d = defaults->Ok_0@;
                    &&& s.wf()
                    &&& s.globals().is_empty()
                    &&& s.nonlocals().is_empty()
                    &&& without_catch_alls(s.bindings(), function.args) == without_catch_alls(
                        param_bindings(ps, bound, d, k as int),
                        function.args,
                    )
                    &&& distinct_params(ps) ==> forall|i: int|
                        0 <= i < k && !is_catch_all(function.args, #[trigger] ps[i].name@) ==> s.bindings().contains_key(
                            ps[i].name@,
                        ) && s.bindings()[ps[i].name@] == param_value(ps, bound, d, i)
                    &&& match function.args.args_var {
                        Some(a) => !(function.args.kwargs_var is Some && function.args.kwargs_var->0@ == a@) ==> (s.bindings().contains_key(a@)
                            && (s.bindings()[a@] matches Value::Tuple(t)
                            && t@ == bound.subrange(if j < k { j as int } else { k as int }, j as int))),
                        None => true,
                    }
                    &&& match function.args.kwargs_var {
                        Some(kw) => s.bindings().contains_key(kw@) && (s.bindings()[kw@] matches Value::Dict(e)
                            && e@ == arguments.kwargs@),
                        None => true,
                    }
                })
            }),
    {
        let ghost ps = function.args.args@;
        let ghost bound = arguments.bound_args@;
        let params = &function.args.args;
        let k = params.len();
        let ResolvedArguments { bound_args, kwargs } = arguments;
        let mut bound_args = bound_args;
        let j = bound_args.len();
        if k < j && function.args.args_var.is_none() {
            return Err(InterpreterError::WrongNumberOfArguments(k, j, call_stack));
        }
        let mut defaults = match defaults {
            Ok(d) => d,
            Err(e) => return Err(e),
        };
        let ghost all_defaults = defaults@;
        let split = if j < k { j } else { k };
        let tail = bound_args.split_off(split);
        let mut scope = Scope::empty();
        let mut missing: Vec<String> = Vec::new();
        let mut i: usize = 0;
        while i < k
            invariant
                ps == params@,
                k == ps.len(),
                j == bound.len(),
                split == if j < k { j } else { k },
                0 <= i <= k,
                i <= split ==> bound_args@ == bound.subrange(i as int, split as int),
                i >= split ==> bound_args@.len() == 0,
                all_defaults.len() == default_indices(ps, j as nat, k as int).len(),
                defaults@ == all_defaults.subrange(
                    default_indices(ps, j as nat, i as int).len() as int,
                    all_defaults.len() as int,
                ),
                default_indices(ps, j as nat, i as int).len() <= default_indices(ps, j as nat, k as int).len(),
                missing@.map_values(|s: String| s@) == missing_names(ps, j as nat, i as int),
                scope.wf(),
                scope.globals().is_empty(),
                scope.nonlocals().is_empty(),
                scope.bindings() == param_bindings(ps, bound, all_defaults, i as int),
            decreases k - i,
        {
            proof {
                lemma_default_indices_monotone(ps, j as nat, i as int + 1, k as int);
            }
            let value = if i < j {
                bound_args.remove(0)
            } else if params[i].has_default {
                defaults.remove(0)
            } else {
                missing.push(params[i].name.clone());
                Value::Void
            };
            scope.insert(params[i].name.as_str(), value);
            proof {
                assert(missing@.map_values(|s: String| s@) =~= missing_names(ps, j as nat, i as int + 1));
                if i + 1 <= split {
                    assert(bound_args@ =~= bound.subrange(i as int + 1, split as int));
                }
                assert(defaults@ =~= all_defaults.subrange(
                    default_indices(ps, j as nat, i as int + 1).len() as int,
                    all_defaults.len() as int,
                ));
            }
            i = i + 1;
        }
        if missing.len() > 0 {
            let message = missing_arguments_message(&function.name, &missing);
            return Err(InterpreterError::TypeError(Some(message), call_stack));
        }
        let ghost base = scope.bindings();
        match &function.args.args_var {
            Some(a) => {
                scope.insert(a.as_str(), Value::Tuple(tail));
            },
            None => {},
        }
        match &function.args.kwargs_var {
            Some(kw) => {
                scope.insert(kw.as_str(), Value::Dict(kwargs));
            },
            None => {},
        }
        assert(without_catch_alls(scope.bindings(), function.args) =~= without_catch_alls(base, function.args));
        proof {
            if distinct_params(ps) {
                assert forall|i: int|
                    0 <= i < k && !is_catch_all(function.args, #[trigger] ps[i].name@) implies scope.bindings().contains_key(
                        ps[i].name@,
                    ) && scope.bindings()[ps[i].name@] == param_value(ps, bound, all_defaults, i) by {
                    lemma_param_binding(ps, bound, all_defaults, k as int, i);
                    let x = ps[i].name@;
                    assert(without_catch_alls(base, function.args).contains_key(x));
                    assert(without_catch_alls(scope.bindings(), function.args)[x] == base[x]);
                }
            }
        }
        assert(missing_names(ps, j as nat, k as int).len() == 0);
        assert(base == param_bindings(ps, bound, all_defaults, k as int));
        assert(tail@ == bound.subrange(split as int, j as int));
        Ok(scope)
    }
}

/// Defaults are evaluated at most once per call and only for parameters that received no
/// positional argument: the pending indices ascend strictly, and each names a parameter at or
/// past the last positional argument that has a default.
pub proof fn lemma_defaults_once(ps: Seq<Parameter>, given: nat, n: int)
    requires
        n <= ps.len(),
    ensures
        forall|a: int, b: int|
            0 <= a < b < default_indices(ps, given, n).len() ==> default_indices(ps, given, n)[a]
                < default_indices(ps, given, n)[b],
        forall|i: int|
            0 <= i < default_indices(ps, given, n).len() ==> given <= #[trigger] default_indices(
                ps,
                given,
                n,
            )[i] < n && ps[default_indices(ps, given, n)[i]].has_default,
    decreases n,
{
    if n > 0 {
        lemma_defaults_once(ps, given, n - 1);
        let prev = default_indices(ps, given, n - 1);
        let cur = default_indices(ps, given, n);
        if n - 1 >= given && ps[n - 1].has_default {
            assert(cur == prev.push(n - 1));
            assert forall|a: int, b: int| 0 <= a < b < cur.len() implies cur[a] < cur[b] by {
                assert(cur[a] == prev[a]);
                if b < prev.len() {
                    assert(cur[b] == prev[b]);
                }
            }
            assert forall|i: int| 0 <= i < cur.len() implies given <= #[trigger] cur[i] < n
                && ps[cur[i]].has_default by {
                if i < prev.len() {
                    assert(cur[i] == prev[i]);
                }
            }
        } else {
            assert(cur == prev);
        }
    }
}

proof fn lemma_default_indices_monotone(ps: Seq<Parameter>, given: nat, a: int, b: int)
    requires
        a <= b,
    ensures
        default_indices(ps, given, a).len() <= default_indices(ps, given, b).len(),
    decreases b - a,
{
    if a < b {
        lemma_default_indices_monotone(ps, given, a, b - 1);
    }
}

} // verus!
