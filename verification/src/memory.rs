//! The memory that an interpreter test starts from: a value for each
//! variable and the contents of each array.

use crate::ast::names_view;
use crate::random::{random_range_i32, random_range_usize};
use rand::rngs::SmallRng;
use vstd::prelude::*;

verus! {

/// Variables and arrays with their values. The constructors give each name
/// one entry (see [`MemoryView::unique_names`]); lookups take the first.
pub struct InterpreterMemory {
    pub variables: Vec<(String, i32)>,
    pub arrays: Vec<(String, Vec<i32>)>,
}

/// The value of the first entry for `name`.
pub open spec fn lookup_variable(vars: Seq<(Seq<char>, i32)>, name: Seq<char>) -> Option<i32>
    decreases vars.len(),
{
    if vars.len() == 0 {
        None
    } else if vars[0].0 == name {
        Some(vars[0].1)
    } else {
        lookup_variable(vars.drop_first(), name)
    }
}

/// The contents of the first entry for `name`.
pub open spec fn lookup_array(arrays: Seq<(Seq<char>, Seq<i32>)>, name: Seq<char>) -> Option<
    Seq<i32>,
>
    decreases arrays.len(),
{
    if arrays.len() == 0 {
        None
    } else if arrays[0].0 == name {
        Some(arrays[0].1)
    } else {
        lookup_array(arrays.drop_first(), name)
    }
}

pub open spec fn variables_view(v: Seq<(String, i32)>) -> Seq<(Seq<char>, i32)> {
    v.map_values(|p: (String, i32)| (p.0@, p.1))
}

pub open spec fn arrays_view(v: Seq<(String, Vec<i32>)>) -> Seq<(Seq<char>, Seq<i32>)> {
    v.map_values(|p: (String, Vec<i32>)| (p.0@, p.1@))
}

/// A memory as plain values: the variables with their values, then the
/// arrays with their contents, in order.
pub struct MemoryView {
    pub variables: Seq<(Seq<char>, i32)>,
    pub arrays: Seq<(Seq<char>, Seq<i32>)>,
}

impl View for InterpreterMemory {
    type V = MemoryView;

    open spec fn view(&self) -> MemoryView {
        MemoryView {
            variables: variables_view(self.variables@),
            arrays: arrays_view(self.arrays@),
        }
    }
}

impl MemoryView {
    pub open spec fn variable(self, name: Seq<char>) -> Option<i32> {
        lookup_variable(self.variables, name)
    }

    pub open spec fn array(self, name: Seq<char>) -> Option<Seq<i32>> {
        lookup_array(self.arrays, name)
    }

    /// Each name has one entry: no two variables, and no two arrays, share
    /// a name.
    pub open spec fn unique_names(self) -> bool {
        &&& forall|i: int, j: int|
            0 <= i < j < self.variables.len() ==> #[trigger] self.variables[i].0
                != #[trigger] self.variables[j].0
        &&& forall|i: int, j: int|
            0 <= i < j < self.arrays.len() ==> #[trigger] self.arrays[i].0
                != #[trigger] self.arrays[j].0
    }
}

impl InterpreterMemory {
    /// The empty memory.
    pub fn new() -> (m: Self)
        ensures
            m.variables@.len() == 0,
            m.arrays@.len() == 0,
            m@.unique_names(),
    {
        InterpreterMemory { variables: Vec::new(), arrays: Vec::new() }
    }

    /// The value of variable `name`, if it has one.
    pub fn get_variable(&self, name: &String) -> (r: Option<i32>)
        ensures
            r == self@.variable(name@),
    {
        assert(self@.variables.skip(0) =~= self@.variables);
        let mut i: usize = 0;
        while i < self.variables.len()
            invariant
                i <= self.variables.len(),
                self@.variable(name@) == lookup_variable(self@.variables.skip(i as int), name@),
            decreases self.variables.len() - i,
        {
            proof {
                let rest = self@.variables.skip(i as int);
                assert(rest.drop_first() =~= self@.variables.skip(i + 1));
            }
            if self.variables[i].0 == *name {
                return Some(self.variables[i].1);
            }
            i = i + 1;
        }
        None
    }

    /// The contents of array `name`, if it has any.
    pub fn get_array(&self, name: &String) -> (r: Option<&Vec<i32>>)
        ensures
            r matches Some(v) ==> self@.array(name@) == Some(v@),
            r is None ==> self@.array(name@) is None,
    {
        assert(self@.arrays.skip(0) =~= self@.arrays);
        let mut i: usize = 0;
        while i < self.arrays.len()
            invariant
                i <= self.arrays.len(),
                self@.array(name@) == lookup_array(self@.arrays.skip(i as int), name@),
            decreases self.arrays.len() - i,
        {
            proof {
                let rest = self@.arrays.skip(i as int);
                assert(rest.drop_first() =~= self@.arrays.skip(i + 1));
            }
            if self.arrays[i].0 == *name {
                return Some(&self.arrays[i].1);
            }
            i = i + 1;
        }
        None
    }

    /// A copy of this memory.
    pub fn duplicate(&self) -> (m: Self)
        ensures
            m@ == self@,
    {
        let mut variables: Vec<(String, i32)> = Vec::new();
        let mut i: usize = 0;
        while i < self.variables.len()
            invariant
                i <= self.variables.len(),
                variables@.len() == i,
                variables_view(variables@) =~= self@.variables.take(i as int),
            decreases self.variables.len() - i,
        {
            let name = self.variables[i].0.clone();
            variables.push((name, self.variables[i].1));
            assert(variables_view(variables@) =~= self@.variables.take(i + 1));
            i = i + 1;
        }
        let mut arrays: Vec<(String, Vec<i32>)> = Vec::new();
        let mut j: usize = 0;
        while j < self.arrays.len()
            invariant
                j <= self.arrays.len(),
                arrays@.len() == j,
                arrays_view(arrays@) =~= self@.arrays.take(j as int),
            decreases self.arrays.len() - j,
        {
            let values = copy_values(&self.arrays[j].1);
            let name = self.arrays[j].0.clone();
            arrays.push((name, values));
            assert(arrays_view(arrays@) =~= self@.arrays.take(j + 1));
            j = j + 1;
        }
        proof {
            assert(variables_view(variables@) =~= self@.variables);
            assert(arrays_view(arrays@) =~= self@.arrays);
        }
        InterpreterMemory { variables, arrays }
    }
}

fn copy_values(v: &Vec<i32>) -> (r: Vec<i32>)
    ensures
        r@ == v@,
{
    let mut r: Vec<i32> = Vec::new();
    let mut i: usize = 0;
    while i < v.len()
        invariant
            i <= v.len(),
            r@ =~= v@.take(i as int),
        decreases v.len() - i,
    {
        r.push(v[i]);
        i = i + 1;
    }
    assert(r@ =~= v@);
    r
}

} // verus!

verus! {

/// A variable is found exactly when some entry has its name, and then its
/// value is that of such an entry.
pub proof fn lemma_lookup_variable(vars: Seq<(Seq<char>, i32)>, name: Seq<char>)
    ensures
        lookup_variable(vars, name) is Some <==> exists|j: int| 0 <= j < vars.len() && vars[j].0 == name,
        lookup_variable(vars, name) matches Some(v) ==> exists|j: int|
            0 <= j < vars.len() && vars[j] == (name, v),
    decreases vars.len(),
{
    if vars.len() > 0 {
        lemma_lookup_variable(vars.drop_first(), name);
        if vars[0].0 != name {
            assert forall|j: int| 0 <= j < vars.len() && vars[j].0 == name implies 0 <= j - 1 < vars.len()
                - 1 && vars.drop_first()[j - 1].0 == name by {}
            if let Some(v) = lookup_variable(vars, name) {
                let j = choose|j: int| 0 <= j < vars.len() - 1 && vars.drop_first()[j] == (name, v);
                assert(vars[j + 1] == (name, v));
            }
        }
    }
}

/// An array is found exactly when some entry has its name, and then its
/// contents are those of such an entry.
pub proof fn lemma_lookup_array(arrays: Seq<(Seq<char>, Seq<i32>)>, name: Seq<char>)
    ensures
        lookup_array(arrays, name) is Some <==> exists|j: int|
            0 <= j < arrays.len() && arrays[j].0 == name,
        lookup_array(arrays, name) matches Some(c) ==> exists|j: int|
            0 <= j < arrays.len() && arrays[j] == (name, c),
    decreases arrays.len(),
{
    if arrays.len() > 0 {
        lemma_lookup_array(arrays.drop_first(), name);
        if arrays[0].0 != name {
            assert forall|j: int| 0 <= j < arrays.len() && arrays[j].0 == name implies 0 <= j - 1
                < arrays.len() - 1 && arrays.drop_first()[j - 1].0 == name by {}
            if let Some(c) = lookup_array(arrays, name) {
                let j = choose|j: int|
                    0 <= j < arrays.len() - 1 && arrays.drop_first()[j] == (name, c);
                assert(arrays[j + 1] == (name, c));
            }
        }
    }
}

/// Every entry has a value in `-20..=20`.
pub open spec fn small_values(vars: Seq<(Seq<char>, i32)>) -> bool {
    forall|j: int| 0 <= j < vars.len() ==> -20 <= #[trigger] vars[j].1 <= 20
}

/// Every array holds 5 to 10 values, each in `-20..=20`.
pub open spec fn small_arrays(arrays: Seq<(Seq<char>, Seq<i32>)>) -> bool {
    forall|j: int|
        0 <= j < arrays.len() ==> {
            &&& 5 <= (#[trigger] arrays[j]).1.len() <= 10
            &&& forall|k: int| 0 <= k < arrays[j].1.len() ==> -20 <= #[trigger] arrays[j].1[k] <= 20
        }
}

/// 5 to 10 values, each in `-20..=20`.
fn random_contents(rng: &mut SmallRng) -> (v: Vec<i32>)
    ensures
        5 <= v.len() <= 10,
        forall|k: int| 0 <= k < v.len() ==> -20 <= #[trigger] v@[k] <= 20,
{
    let len = random_range_usize(rng, 5, 10);
    let mut v: Vec<i32> = Vec::new();
    let mut i: usize = 0;
    while i < len
        invariant
            i <= len <= 10,
            v.len() == i,
            forall|k: int| 0 <= k < v.len() ==> -20 <= #[trigger] v@[k] <= 20,
        decreases len - i,
    {
        v.push(random_range_i32(rng, -20, 20));
        i = i + 1;
    }
    v
}

impl InterpreterMemory {
    /// A memory that gives each of `names` a value drawn from `-20..=20`
    /// and each of `array_names` 5 to 10 values drawn from `-20..=20`, one
    /// entry per name and no others.
    pub fn from_names(names: &Vec<String>, array_names: &Vec<String>, rng: &mut SmallRng) -> (m: Self)
        ensures
            forall|i: int| 0 <= i < names.len() ==> (#[trigger] m@.variable(names@[i]@)) is Some,
            forall|i: int|
                0 <= i < array_names.len() ==> (#[trigger] m@.array(array_names@[i]@)) is Some,
            forall|j: int|
                0 <= j < m@.variables.len() ==> names_view(names@).contains((#[trigger] m@.variables[j]).0),
            forall|j: int|
                0 <= j < m@.arrays.len() ==> names_view(array_names@).contains((#[trigger] m@.arrays[j]).0),
            small_values(m@.variables),
            small_arrays(m@.arrays),
            m@.unique_names(),
    {
        let mut m = InterpreterMemory::new();
        let mut i: usize = 0;
        while i < names.len()
            invariant
                i <= names.len(),
                m@.arrays.len() == 0,
                m@.unique_names(),
                forall|k: int| 0 <= k < i ==> (#[trigger] m@.variable(names@[k]@)) is Some,
                forall|j: int|
                    0 <= j < m@.variables.len() ==> names_view(names@).contains((#[trigger] m@.variables[j]).0),
                small_values(m@.variables),
            decreases names.len() - i,
        {
            if m.get_variable(&names[i]).is_none() {
                let v = random_range_i32(rng, -20, 20);
                let ghost before = m@.variables;
                let ghost old_m = m@;
                m.variables.push((names[i].clone(), v));
                proof {
                    assert(m@.variables =~= before.push((names@[i as int]@, v)));
                    lemma_lookup_variable(before, names@[i as int]@);
                    assert forall|p: int, q: int|
                        0 <= p < q < m@.variables.len() implies #[trigger] m@.variables[p].0
                        != #[trigger] m@.variables[q].0 by {
                        if q == before.len() {
                            assert(m@.variables[p] == before[p]);
                        } else {
                            assert(m@.variables[p] == before[p]);
                            assert(m@.variables[q] == before[q]);
                        }
                    }
                    assert forall|k: int| 0 <= k <= i implies (#[trigger] m@.variable(names@[k]@)) is Some by {
                        lemma_lookup_variable(before, names@[k]@);
                        lemma_lookup_variable(m@.variables, names@[k]@);
                        if k == i {
                            assert(m@.variables[before.len() as int].0 == names@[k]@);
                        } else {
                            assert(old_m.variable(names@[k]@) is Some);
                            let j = choose|j: int| 0 <= j < before.len() && before[j].0 == names@[k]@;
                            assert(m@.variables[j].0 == names@[k]@);
                        }
                    }
                    assert forall|j: int| 0 <= j < m@.variables.len() implies names_view(names@).contains(
                        (#[trigger] m@.variables[j]).0,
                    ) by {
                        if j == before.len() {
                            assert(names_view(names@)[i as int] == m@.variables[j].0);
                        } else {
                            assert(m@.variables[j] == before[j]);
                        }
                    }
                }
            }
            i = i + 1;
        }
        let mut a: usize = 0;
        while a < array_names.len()
            invariant
                a <= array_names.len(),
                forall|k: int| 0 <= k < names.len() ==> (#[trigger] m@.variable(names@[k]@)) is Some,
                forall|j: int|
                    0 <= j < m@.variables.len() ==> names_view(names@).contains((#[trigger] m@.variables[j]).0),
                small_values(m@.variables),
                forall|k: int| 0 <= k < a ==> (#[trigger] m@.array(array_names@[k]@)) is Some,
                forall|j: int|
                    0 <= j < m@.arrays.len() ==> names_view(array_names@).contains((#[trigger] m@.arrays[j]).0),
                small_arrays(m@.arrays),
                m@.unique_names(),
            decreases array_names.len() - a,
        {
            if m.get_array(&array_names[a]).is_none() {
                let contents = random_contents(rng);
                let ghost before = m@.arrays;
                let ghost old_m = m@;
                m.arrays.push((array_names[a].clone(), contents));
                proof {
                    assert(m@.variables == old_m.variables);
                    assert forall|k: int| 0 <= k < names.len() implies (#[trigger] m@.variable(names@[k]@)) is Some by {
                        assert(old_m.variable(names@[k]@) is Some);
                    }
                    assert(m@.arrays =~= before.push((array_names@[a as int]@, contents@)));
                    lemma_lookup_array(before, array_names@[a as int]@);
                    assert forall|p: int, q: int|
                        0 <= p < q < m@.arrays.len() implies #[trigger] m@.arrays[p].0
                        != #[trigger] m@.arrays[q].0 by {
                        if q == before.len() {
                            assert(m@.arrays[p] == before[p]);
                        } else {
                            assert(m@.arrays[p] == before[p]);
                            assert(m@.arrays[q] == before[q]);
                        }
                    }
                    assert forall|k: int| 0 <= k <= a implies (#[trigger] m@.array(array_names@[k]@)) is Some by {
                        lemma_lookup_array(before, array_names@[k]@);
                        lemma_lookup_array(m@.arrays, array_names@[k]@);
                        if k == a {
                            assert(m@.arrays[before.len() as int].0 == array_names@[k]@);
                        } else {
                            assert(old_m.array(array_names@[k]@) is Some);
                            let j = choose|j: int| 0 <= j < before.len() && before[j].0 == array_names@[k]@;
                            assert(m@.arrays[j].0 == array_names@[k]@);
                        }
                    }
                    assert forall|j: int| 0 <= j < m@.arrays.len() implies names_view(array_names@).contains(
                        (#[trigger] m@.arrays[j]).0,
                    ) by {
                        if j == before.len() {
                            assert(names_view(array_names@)[a as int] == m@.arrays[j].0);
                        } else {
                            assert(m@.arrays[j] == before[j]);
                        }
                    }
                }
            }
            a = a + 1;
        }
        m
    }
}

} // verus!
