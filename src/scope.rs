use vstd::prelude::*;

use crate::value::{same_value, ConversionError, Value};

verus! {

/// The names of a symbol table's entries are pairwise distinct.
pub open spec fn unique_keys(t: Seq<(String, Value)>) -> bool {
    forall|i: int, j: int| 0 <= i < j < t.len() ==> t[i].0@ != t[j].0@
}

/// The mapping that a table of distinct names denotes.
pub open spec fn table_view(t: Seq<(String, Value)>) -> Map<Seq<char>, Value> {
    Map::new(
        |k: Seq<char>| exists|i: int| 0 <= i < t.len() && t[i].0@ == k,
        |k: Seq<char>| t[choose|i: int| 0 <= i < t.len() && t[i].0@ == k].1,
    )
}

/// The set of names a list holds.
pub open spec fn name_set(v: Seq<String>) -> Set<Seq<char>> {
    Set::new(|k: Seq<char>| exists|i: int| 0 <= i < v.len() && v[i]@ == k)
}

proof fn lemma_table_at(t: Seq<(String, Value)>, i: int)
    requires
        unique_keys(t),
        0 <= i < t.len(),
    ensures
        table_view(t).contains_key(t[i].0@),
        table_view(t)[t[i].0@] == t[i].1,
{
    let k = t[i].0@;
    assert(exists|j: int| 0 <= j < t.len() && t[j].0@ == k);
    let c = choose|j: int| 0 <= j < t.len() && t[j].0@ == k;
    assert(c == i);
}


/// Whether `v` is a key/value pair: a two-element tuple whose first element is a string.
pub open spec fn is_entry(v: Value) -> bool {
    &&& v is Tuple
    &&& v->Tuple_0@.len() == 2
    &&& v->Tuple_0@[0] is Str
}

pub open spec fn entry_key(v: Value) -> Seq<char> {
    v->Tuple_0@[0]->Str_0@
}

pub open spec fn entry_value(v: Value) -> Value {
    v->Tuple_0@[1]
}

/// The bindings that the first `n` pairs of `items` denote, a later key overriding an earlier one.
pub open spec fn entries_map(items: Seq<Value>, n: int) -> Map<Seq<char>, Value>
    decreases n,
{
    if n <= 0 {
        Map::empty()
    } else {
        entries_map(items, n - 1).insert(entry_key(items[n - 1]), entry_value(items[n - 1]))
    }
}

/// The error of [`Scope::from_dict`] for the first `n` items.
pub open spec fn first_bad_entry(items: Seq<Value>, n: int) -> Option<ConversionError>
    decreases n,
{
    if n <= 0 {
        None
    } else {
        match first_bad_entry(items, n - 1) {
            Some(e) => Some(e),
            None => if !(items[n - 1] is Tuple) || items[n - 1]->Tuple_0@.len() != 2 {
                Some(ConversionError::NotAPair((n - 1) as usize))
            } else if !(items[n - 1]->Tuple_0@[0] is Str) {
                Some(ConversionError::KeyNotString((n - 1) as usize))
            } else {
                None
            },
        }
    }
}

/// The symbol table of one call frame, with its `global` and `nonlocal` directives.
pub struct Scope {
    symbol_table: Vec<(String, Value)>,
    global_vars: Vec<String>,
    nonlocal_vars: Vec<String>,
}

impl Scope {
    pub closed spec fn wf(&self) -> bool {
        unique_keys(self.symbol_table@)
    }

    /// The names bound in this scope and their values.
    pub closed spec fn bindings(&self) -> Map<Seq<char>, Value> {
        table_view(self.symbol_table@)
    }

    /// The names marked `global`.
    pub closed spec fn globals(&self) -> Set<Seq<char>> {
        name_set(self.global_vars@)
    }

    /// The names marked `nonlocal`.
    pub closed spec fn nonlocals(&self) -> Set<Seq<char>> {
        name_set(self.nonlocal_vars@)
    }

    /// An empty scope with no directives.
    pub fn empty() -> (r: Self)
        ensures
            r.wf(),
            r.bindings() == Map::<Seq<char>, Value>::empty(),
            r.globals() == Set::<Seq<char>>::empty(),
            r.nonlocals() == Set::<Seq<char>>::empty(),
    {
        let r = Scope { symbol_table: Vec::new(), global_vars: Vec::new(), nonlocal_vars: Vec::new() };
        assert(r.bindings() =~= Map::<Seq<char>, Value>::empty());
        assert(r.globals() =~= Set::<Seq<char>>::empty());
        assert(r.nonlocals() =~= Set::<Seq<char>>::empty());
        r
    }

    /// The position of `name` in the symbol table.
    fn position(&self, name: &str) -> (r: Option<usize>)
        requires
            self.wf(),
        ensures
            match r {
                Some(i) => i < self.symbol_table@.len() && self.symbol_table@[i as int].0@ == name@,
                None => !self.bindings().contains_key(name@),
            },
    {
        let key = name.to_owned();
        let mut i: usize = 0;
        while i < self.symbol_table.len()
            invariant
                key@ == name@,
                0 <= i <= self.symbol_table@.len(),
                forall|j: int| 0 <= j < i ==> self.symbol_table@[j].0@ != name@,
            decreases self.symbol_table@.len() - i,
        {
            if self.symbol_table[i].0 == key {
                return Some(i);
            }
            i = i + 1;
        }
        None
    }

    /// The value bound to `name`, if any.
    pub fn get(&self, name: &str) -> (r: Option<&Value>)
        requires
            self.wf(),
        ensures
            match r {
                Some(v) => self.bindings().contains_key(name@) && *v == self.bindings()[name@],
                None => !self.bindings().contains_key(name@),
            },
    {
        match self.position(name) {
            Some(i) => {
                proof {
                    lemma_table_at(self.symbol_table@, i as int);
                }
                Some(&self.symbol_table[i].1)
            },
            None => None,
        }
    }

    /// The names currently bound, each once.
    pub fn symbols(&self) -> (r: Vec<String>)
        requires
            self.wf(),
        ensures
            name_set(r@) == self.bindings().dom(),
            r@.len() == self.bindings().dom().len(),
    {
        let mut out: Vec<String> = Vec::new();
        let mut i: usize = 0;
        while i < self.symbol_table.len()
            invariant
                self.wf(),
                0 <= i <= self.symbol_table@.len(),
                out@.len() == i,
                forall|j: int| 0 <= j < i ==> #[trigger] out@[j]@ == self.symbol_table@[j].0@,
            decreases self.symbol_table@.len() - i,
        {
            out.push(self.symbol_table[i].0.clone());
            i = i + 1;
        }
        assert(name_set(out@) =~= self.bindings().dom()) by {
            assert forall|x: Seq<char>| name_set(out@).contains(x) implies self.bindings().dom().contains(x) by {
                let j = choose|j: int| 0 <= j < out@.len() && out@[j]@ == x;
                assert(self.symbol_table@[j].0@ == x);
            }
            assert forall|x: Seq<char>| self.bindings().dom().contains(x) implies name_set(out@).contains(x) by {
                let j = choose|j: int| 0 <= j < self.symbol_table@.len() && self.symbol_table@[j].0@ == x;
                assert(out@[j]@ == x);
            }
        }
        proof {
            lemma_names_len(self.symbol_table@, out@);
        }
        out
    }

    /// Removes the binding of `name`, returning its value.
    pub fn delete(&mut self, name: &str) -> (r: Option<Value>)
        requires
            old(self).wf(),
        ensures
            final(self).wf(),
            final(self).bindings() == old(self).bindings().remove(name@),
            final(self).globals() == old(self).globals(),
            final(self).nonlocals() == old(self).nonlocals(),
            match r {
                Some(v) => old(self).bindings().contains_key(name@) && v == old(self).bindings()[name@],
                None => !old(self).bindings().contains_key(name@),
            },
    {
        match self.position(name) {
            Some(i) => {
                proof {
                    lemma_table_at(self.symbol_table@, i as int);
                }
                let ghost before = self.symbol_table@;
                let entry = self.symbol_table.remove(i);
                proof {
                    lemma_table_remove(before, i as int);
                }
                Some(entry.1)
            },
            None => {
                assert(self.bindings() =~= self.bindings().remove(name@));
                None
            },
        }
    }

    /// Binds `name` to `value`, replacing an earlier binding.
    pub fn insert(&mut self, name: &str, value: Value) -> (r: &mut Self)
        requires
            old(self).wf(),
        ensures
            r.wf(),
            r.bindings() == old(self).bindings().insert(name@, value),
            r.globals() == old(self).globals(),
            r.nonlocals() == old(self).nonlocals(),
            *final(self) == *final(r),
    {
        let ghost before = self.symbol_table@;
        match self.position(name) {
            Some(i) => {
                self.symbol_table.set(i, (name.to_owned(), value));
                proof {
                    lemma_table_update(before, i as int, self.symbol_table@[i as int]);
                }
            },
            None => {
                self.symbol_table.push((name.to_owned(), value));
                proof {
                    lemma_table_push(before, self.symbol_table@.last());
                }
            },
        }
        self
    }

    /// Records that `name` refers to the module-level variable while this scope lives.
    pub fn mark_global(&mut self, name: &str)
        requires
            old(self).wf(),
        ensures
            final(self).wf(),
            final(self).bindings() == old(self).bindings(),
            final(self).globals() == old(self).globals().insert(name@),
            final(self).nonlocals() == old(self).nonlocals(),
    {
        let ghost before = self.global_vars@;
        self.global_vars.push(name.to_owned());
        assert(name_set(self.global_vars@) =~= name_set(before).insert(name@)) by {
            assert forall|k: Seq<char>| name_set(before).insert(name@).contains(k) implies name_set(
                self.global_vars@,
            ).contains(k) by {
                if k != name@ {
                    let j = choose|j: int| 0 <= j < before.len() && before[j]@ == k;
                    assert(self.global_vars@[j] == before[j]);
                } else {
                    assert(self.global_vars@[before.len() as int]@ == k);
                }
            }
        }
    }

    /// Records that `name` refers to the variable of the enclosing scope while this scope lives.
    pub fn mark_nonlocal(&mut self, name: &str)
        requires
            old(self).wf(),
        ensures
            final(self).wf(),
            final(self).bindings() == old(self).bindings(),
            final(self).globals() == old(self).globals(),
            final(self).nonlocals() == old(self).nonlocals().insert(name@),
    {
        let ghost before = self.nonlocal_vars@;
        self.nonlocal_vars.push(name.to_owned());
        assert(name_set(self.nonlocal_vars@) =~= name_set(before).insert(name@)) by {
            assert forall|k: Seq<char>| name_set(before).insert(name@).contains(k) implies name_set(
                self.nonlocal_vars@,
            ).contains(k) by {
                if k != name@ {
                    let j = choose|j: int| 0 <= j < before.len() && before[j]@ == k;
                    assert(self.nonlocal_vars@[j] == before[j]);
                } else {
                    assert(self.nonlocal_vars@[before.len() as int]@ == k);
                }
            }
        }
    }

    /// Whether `name` is marked `global`.
    pub fn has_global(&self, name: &str) -> (r: bool)
        ensures
            r == self.globals().contains(name@),
    {
        contains_name(&self.global_vars, name)
    }

    /// Whether `name` is marked `nonlocal`.
    pub fn has_nonlocal(&self, name: &str) -> (r: bool)
        ensures
            r == self.nonlocals().contains(name@),
    {
        contains_name(&self.nonlocal_vars, name)
    }

    /// A snapshot of the bindings as a string-keyed mapping value, each value copied; the
    /// directives are left behind and the scope is unchanged.
    pub fn as_dict(&self) -> (r: Value)
        requires
            self.wf(),
        ensures
            r is Dict,
            unique_keys(r->Dict_0@),
            table_view(r->Dict_0@).dom() == self.bindings().dom(),
            forall|k: Seq<char>|
                #[trigger] self.bindings().contains_key(k) ==> same_value(
                    self.bindings()[k],
                    table_view(r->Dict_0@)[k],
                ),
    {
        let mut out: Vec<(String, Value)> = Vec::new();
        let mut i: usize = 0;
        while i < self.symbol_table.len()
            invariant
                self.wf(),
                0 <= i <= self.symbol_table@.len(),
                out@.len() == i,
                forall|j: int| 0 <= j < i ==> #[trigger] out@[j].0@ == self.symbol_table@[j].0@,
                forall|j: int| 0 <= j < i ==> same_value(self.symbol_table@[j].1, #[trigger] out@[j].1),
            decreases self.symbol_table@.len() - i,
        {
            let c = self.symbol_table[i].1.duplicate();
            let k = self.symbol_table[i].0.clone();
            out.push((k, c));
            i = i + 1;
        }
        let ghost t = self.symbol_table@;
        let ghost o = out@;
        proof {
            assert forall|a: int, b: int| 0 <= a < b < o.len() implies o[a].0@ != o[b].0@ by {
                assert(o[a].0@ == t[a].0@);
                assert(o[b].0@ == t[b].0@);
            }
            assert(table_view(o).dom() =~= table_view(t).dom()) by {
                assert forall|x: Seq<char>| table_view(o).dom().contains(x) implies table_view(t).dom().contains(x) by {
                    let j = choose|j: int| 0 <= j < o.len() && o[j].0@ == x;
                    assert(t[j].0@ == o[j].0@);
                }
                assert forall|x: Seq<char>| table_view(t).dom().contains(x) implies table_view(o).dom().contains(x) by {
                    let j = choose|j: int| 0 <= j < t.len() && t[j].0@ == x;
                    assert(o[j].0@ == t[j].0@);
                }
            }
            assert forall|x: Seq<char>| #[trigger] table_view(t).contains_key(x) implies same_value(
                table_view(t)[x],
                table_view(o)[x],
            ) by {
                let j = choose|j: int| 0 <= j < t.len() && t[j].0@ == x;
                lemma_table_at(t, j);
                assert(o[j].0@ == x);
                lemma_table_at(o, j);
            }
        }
        Value::Dict(out)
    }

    /// A scope bound as the key/value pairs of `items` say, with no directives.
    pub fn from_dict(items: Vec<Value>) -> (r: Result<Scope, ConversionError>)
        ensures
            match first_bad_entry(items@, items@.len() as int) {
                Some(e) => r == Err::<Scope, ConversionError>(e),
                None => r matches Ok(s) && s.wf() && s.bindings() == entries_map(items@, items@.len() as int)
                    && s.globals().is_empty() && s.nonlocals().is_empty(),
            },
    {
        let ghost all = items@;
        let n = items.len();
        let mut rest = items;
        let mut scope = Scope::empty();
        let mut i: usize = 0;
        while i < n
            invariant
                n == all.len(),
                all == items@,
                0 <= i <= n,
                rest@ == all.subrange(i as int, n as int),
                first_bad_entry(all, i as int) is None,
                scope.wf(),
                scope.bindings() == entries_map(all, i as int),
                scope.globals().is_empty(),
                scope.nonlocals().is_empty(),
            decreases n - i,
        {
            let item = rest.remove(0);
            assert(item == all[i as int]);
            match item {
                Value::Tuple(mut pair) => {
                    if pair.len() != 2 {
                        proof {
                            assert(first_bad_entry(all, i as int + 1) == Some(ConversionError::NotAPair(i)));
                            lemma_first_bad_stays(all, i as int + 1, n as int);
                            assert(first_bad_entry(all, all.len() as int) == Some(ConversionError::NotAPair(i)));
                        }
                        return Err(ConversionError::NotAPair(i));
                    }
                    let ghost p = pair@;
                    let value = match pair.pop() {
                        Some(v) => v,
                        None => return Err(ConversionError::NotAPair(i)),
                    };
                    let key = match pair.pop() {
                        Some(k) => k,
                        None => return Err(ConversionError::NotAPair(i)),
                    };
                    assert(value == p[1] && key == p[0]);
                    match key {
                        Value::Str(name) => {
                            scope.insert(name.as_str(), value);
                        },
                        _ => {
                            proof {
                                assert(first_bad_entry(all, i as int + 1) == Some(ConversionError::KeyNotString(i)));
                                lemma_first_bad_stays(all, i as int + 1, n as int);
                            }
                            return Err(ConversionError::KeyNotString(i));
                        },
                    }
                },
                _ => {
                    proof {
                        assert(first_bad_entry(all, i as int + 1) == Some(ConversionError::NotAPair(i)));
                        lemma_first_bad_stays(all, i as int + 1, n as int);
                    }
                    return Err(ConversionError::NotAPair(i));
                },
            }
            proof {
                assert(rest@ =~= all.subrange(i as int + 1, n as int));
            }
            i = i + 1;
        }
        assert(all.subrange(0, n as int) =~= all);
        Ok(scope)
    }
}

/// An error, once found among the first `a` items, is the error for the first `b` items too.
proof fn lemma_first_bad_stays(items: Seq<Value>, a: int, b: int)
    requires
        0 <= a <= b,
        first_bad_entry(items, a) is Some,
    ensures
        first_bad_entry(items, b) == first_bad_entry(items, a),
    decreases b - a,
{
    if a < b {
        lemma_first_bad_stays(items, a, b - 1);
    }
}

fn contains_name(v: &Vec<String>, name: &str) -> (r: bool)
    ensures
        r == name_set(v@).contains(name@),
{
    let key = name.to_owned();
    let mut i: usize = 0;
    while i < v.len()
        invariant
            key@ == name@,
            0 <= i <= v@.len(),
            forall|j: int| 0 <= j < i ==> v@[j]@ != name@,
        decreases v@.len() - i,
    {
        if v[i] == key {
            return true;
        }
        i = i + 1;
    }
    false
}

proof fn lemma_names_len(t: Seq<(String, Value)>, names: Seq<String>)
    requires
        unique_keys(t),
        names.len() == t.len(),
        forall|j: int| 0 <= j < t.len() ==> #[trigger] names[j]@ == t[j].0@,
    ensures
        names.len() == table_view(t).dom().len(),
    decreases t.len(),
{
    if t.len() == 0 {
        assert(table_view(t).dom() =~= Set::<Seq<char>>::empty());
    } else {
        let t0 = t.drop_last();
        let n0 = names.drop_last();
        lemma_names_len(t0, n0);
        let k = t.last().0@;
        assert(table_view(t).dom() =~= table_view(t0).dom().insert(k)) by {
            assert forall|x: Seq<char>| table_view(t).dom().contains(x) implies table_view(t0).dom().insert(k).contains(x) by {
                let j = choose|j: int| 0 <= j < t.len() && t[j].0@ == x;
                if j < t0.len() {
                    assert(t0[j] == t[j]);
                }
            }
            assert forall|x: Seq<char>| table_view(t0).dom().insert(k).contains(x) implies table_view(t).dom().contains(x) by {
                if x != k {
                    let j = choose|j: int| 0 <= j < t0.len() && t0[j].0@ == x;
                    assert(t[j] == t0[j]);
                } else {
                    assert(t[t.len() - 1].0@ == x);
                }
            }
        }
        assert(!table_view(t0).dom().contains(k)) by {
            if table_view(t0).dom().contains(k) {
                let j = choose|j: int| 0 <= j < t0.len() && t0[j].0@ == k;
                assert(t[j] == t0[j]);
            }
        }
        lemma_table_finite(t0);
    }
}

proof fn lemma_table_finite(t: Seq<(String, Value)>)
    ensures
        table_view(t).dom().finite(),
    decreases t.len(),
{
    let f = |i: int| t[i].0@;
    let idx = Set::new(|i: int| 0 <= i < t.len());
    vstd::set_lib::lemma_int_range(0, t.len() as int);
    assert(idx =~= vstd::set_lib::set_int_range(0, t.len() as int));
    assert(table_view(t).dom() =~= idx.map(f)) by {
        assert forall|x: Seq<char>| table_view(t).dom().contains(x) implies idx.map(f).contains(x) by {
            let j = choose|j: int| 0 <= j < t.len() && t[j].0@ == x;
            assert(idx.contains(j));
        }
    }
    idx.lemma_map_finite(f);
}

proof fn lemma_table_remove(t: Seq<(String, Value)>, i: int)
    requires
        unique_keys(t),
        0 <= i < t.len(),
    ensures
        unique_keys(t.remove(i)),
        table_view(t.remove(i)) == table_view(t).remove(t[i].0@),
{
    let r = t.remove(i);
    assert forall|a: int, b: int| 0 <= a < b < r.len() implies r[a].0@ != r[b].0@ by {
        let a2 = if a < i { a } else { a + 1 };
        let b2 = if b < i { b } else { b + 1 };
        assert(r[a] == t[a2]);
        assert(r[b] == t[b2]);
    }
    let k = t[i].0@;
    assert forall|x: Seq<char>| #[trigger] table_view(r).contains_key(x) implies table_view(t).remove(k).contains_key(x)
        && table_view(r)[x] == table_view(t).remove(k)[x] by {
        let j = choose|j: int| 0 <= j < r.len() && r[j].0@ == x;
        let j2 = if j < i { j } else { j + 1 };
        assert(r[j] == t[j2]);
        lemma_table_at(r, j);
        lemma_table_at(t, j2);
    }
    assert forall|x: Seq<char>| #[trigger] table_view(t).remove(k).contains_key(x) implies table_view(r).contains_key(x) by {
        let j = choose|j: int| 0 <= j < t.len() && t[j].0@ == x;
        assert(j != i);
        let j2 = if j < i { j } else { j - 1 };
        assert(r[j2] == t[j]);
    }
    assert(table_view(r) =~= table_view(t).remove(k));
}

proof fn lemma_table_update(t: Seq<(String, Value)>, i: int, e: (String, Value))
    requires
        unique_keys(t),
        0 <= i < t.len(),
        e.0@ == t[i].0@,
    ensures
        unique_keys(t.update(i, e)),
        table_view(t.update(i, e)) == table_view(t).insert(e.0@, e.1),
{
    let u = t.update(i, e);
    assert forall|a: int, b: int| 0 <= a < b < u.len() implies u[a].0@ != u[b].0@ by {
        assert(u[a].0@ == t[a].0@);
        assert(u[b].0@ == t[b].0@);
    }
    assert forall|x: Seq<char>| #[trigger] table_view(u).contains_key(x) implies table_view(t).insert(e.0@, e.1).contains_key(x)
        && table_view(u)[x] == table_view(t).insert(e.0@, e.1)[x] by {
        let j = choose|j: int| 0 <= j < u.len() && u[j].0@ == x;
        lemma_table_at(u, j);
        if j != i {
            lemma_table_at(t, j);
        }
    }
    assert forall|x: Seq<char>| #[trigger] table_view(t).insert(e.0@, e.1).contains_key(x) implies table_view(u).contains_key(x) by {
        if x != e.0@ {
            let j = choose|j: int| 0 <= j < t.len() && t[j].0@ == x;
            assert(u[j] == t[j]);
        } else {
            assert(u[i] == e);
        }
    }
    assert(table_view(u) =~= table_view(t).insert(e.0@, e.1));
}

proof fn lemma_table_push(t: Seq<(String, Value)>, e: (String, Value))
    requires
        unique_keys(t),
        !table_view(t).contains_key(e.0@),
    ensures
        unique_keys(t.push(e)),
        table_view(t.push(e)) == table_view(t).insert(e.0@, e.1),
{
    let u = t.push(e);
    assert forall|a: int, b: int| 0 <= a < b < u.len() implies u[a].0@ != u[b].0@ by {
        assert(u[a] == t[a]);
        if b < t.len() {
            assert(u[b] == t[b]);
        }
    }
    assert forall|x: Seq<char>| #[trigger] table_view(u).contains_key(x) implies table_view(t).insert(e.0@, e.1).contains_key(x)
        && table_view(u)[x] == table_view(t).insert(e.0@, e.1)[x] by {
        let j = choose|j: int| 0 <= j < u.len() && u[j].0@ == x;
        lemma_table_at(u, j);
        if j < t.len() {
            assert(u[j] == t[j]);
            lemma_table_at(t, j);
        }
    }
    assert forall|x: Seq<char>| #[trigger] table_view(t).insert(e.0@, e.1).contains_key(x) implies table_view(u).contains_key(x) by {
        if x != e.0@ {
            let j = choose|j: int| 0 <= j < t.len() && t[j].0@ == x;
            assert(u[j] == t[j]);
        } else {
            assert(u[t.len() as int] == e);
        }
    }
    assert(table_view(u) =~= table_view(t).insert(e.0@, e.1));
}

impl Value {
    /// The entries of a mapping value as key/value pairs, each a two-element tuple; no pairs for
    /// any other value.
    pub fn into_items(self) -> (r: Vec<Value>)
        ensures
            self is Dict ==> r@.len() == self->Dict_0@.len() && forall|i: int|
                0 <= i < r@.len() ==> is_entry(#[trigger] r@[i]) && entry_key(r@[i]) == self->Dict_0@[i].0@
                    && entry_value(r@[i]) == self->Dict_0@[i].1,
            !(self is Dict) ==> r@.len() == 0,
    {
        let mut out: Vec<Value> = Vec::new();
        match self {
            Value::Dict(entries) => {
                let ghost all = entries@;
                let n = entries.len();
                let mut rest = entries;
                let mut i: usize = 0;
                while i < n
                    invariant
                        n == all.len(),
                        0 <= i <= n,
                        rest@ == all.subrange(i as int, n as int),
                        out@.len() == i,
                        forall|j: int|
                            0 <= j < i ==> is_entry(#[trigger] out@[j]) && entry_key(out@[j]) == all[j].0@
                                && entry_value(out@[j]) == all[j].1,
                    decreases n - i,
                {
                    let (key, value) = rest.remove(0);
                    let pair: Vec<Value> = vec![Value::Str(key), value];
                    assert(pair@.len() == 2 && pair@[0] == Value::Str(key) && pair@[1] == value);
                    out.push(Value::Tuple(pair));
                    proof {
                        assert(rest@ =~= all.subrange(i as int + 1, n as int));
                    }
                    i = i + 1;
                }
            },
            _ => {},
        }
        out
    }
}

/// Snapshotting a scope with [`Scope::as_dict`], listing the pairs with [`Value::into_items`]
/// and rebuilding with [`Scope::from_dict`] succeeds and gives back the same names bound to the
/// same values (the directives are not carried over).
pub proof fn lemma_dict_round_trip(s: Scope, d: Value, items: Seq<Value>)
    requires
        s.wf(),
        d is Dict,
        unique_keys(d->Dict_0@),
        table_view(d->Dict_0@).dom() == s.bindings().dom(),
        forall|k: Seq<char>|
            #[trigger] s.bindings().contains_key(k) ==> same_value(s.bindings()[k], table_view(d->Dict_0@)[k]),
        items.len() == d->Dict_0@.len(),
        forall|i: int|
            0 <= i < items.len() ==> is_entry(#[trigger] items[i]) && entry_key(items[i]) == d->Dict_0@[i].0@
                && entry_value(items[i]) == d->Dict_0@[i].1,
    ensures
        first_bad_entry(items, items.len() as int) is None,
        entries_map(items, items.len() as int).dom() == s.bindings().dom(),
        forall|k: Seq<char>|
            #[trigger] s.bindings().contains_key(k) ==> same_value(
                s.bindings()[k],
                entries_map(items, items.len() as int)[k],
            ),
{
    let e = d->Dict_0@;
    lemma_entries_prefix(e, items, items.len() as int);
    assert(e.take(e.len() as int) =~= e);
}

proof fn lemma_entries_prefix(e: Seq<(String, Value)>, items: Seq<Value>, n: int)
    requires
        unique_keys(e),
        0 <= n <= items.len(),
        items.len() == e.len(),
        forall|i: int|
            0 <= i < items.len() ==> is_entry(#[trigger] items[i]) && entry_key(items[i]) == e[i].0@
                && entry_value(items[i]) == e[i].1,
    ensures
        first_bad_entry(items, n) is None,
        unique_keys(e.take(n)),
        entries_map(items, n) == table_view(e.take(n)),
    decreases n,
{
    if n == 0 {
        assert(table_view(e.take(0)) =~= Map::<Seq<char>, Value>::empty());
    } else {
        lemma_entries_prefix(e, items, n - 1);
        let prev = e.take(n - 1);
        assert(e.take(n) =~= prev.push(e[n - 1]));
        assert(is_entry(items[n - 1]));
        assert(!table_view(prev).contains_key(e[n - 1].0@)) by {
            if table_view(prev).contains_key(e[n - 1].0@) {
                let j = choose|j: int| 0 <= j < prev.len() && prev[j].0@ == e[n - 1].0@;
                assert(prev[j] == e[j]);
            }
        }
        lemma_table_push(prev, e[n - 1]);
    }
}

} // verus!
