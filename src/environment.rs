use vstd::prelude::*;

use crate::expression::{expression_text, Bindings, Expression};

verus! {

/// The variables of a program and their values; each name is bound at most once.
#[derive(Debug)]
pub struct Environment {
    variables: Vec<(String, Expression)>,
}

/// `name = value`.
pub open spec fn binding_text(binding: (Seq<char>, Expression)) -> Seq<char> {
    binding.0 + " = "@ + expression_text(binding.1)
}

/// The bindings' texts, separated by `, `.
pub open spec fn bindings_text(bindings: Seq<(Seq<char>, Expression)>) -> Seq<char>
    decreases bindings.len(),
{
    if bindings.len() == 0 {
        Seq::empty()
    } else if bindings.len() == 1 {
        binding_text(bindings[0])
    } else {
        bindings_text(bindings.drop_last()) + ", "@ + binding_text(bindings.last())
    }
}

impl View for Environment {
    type V = Bindings;

    closed spec fn view(&self) -> Bindings {
        Map::new(
            |name: Seq<char>| exists|i: int| 0 <= i < self.variables.len() && #[trigger] self.variables[i].0@ == name,
            |name: Seq<char>|
                self.variables[choose|i: int|
                    0 <= i < self.variables.len() && #[trigger] self.variables[i].0@ == name].1,
        )
    }
}

impl Environment {
    /// The bindings in the order in which their names were first bound.
    pub closed spec fn entries(&self) -> Seq<(Seq<char>, Expression)> {
        self.variables@.map_values(|binding: (String, Expression)| (binding.0@, binding.1))
    }

    /// The entries list each binding once: every bound name appears in them, with its value, and
    /// no name twice.
    pub proof fn lemma_entries_list_bindings(&self)
        requires
            self.well_formed(),
        ensures
            forall|i: int|
                0 <= i < self.entries().len() ==> self@.contains_key(#[trigger] self.entries()[i].0)
                    && self@[self.entries()[i].0] == self.entries()[i].1,
            forall|i: int, j: int|
                0 <= i < self.entries().len() && 0 <= j < self.entries().len() && i != j
                    ==> #[trigger] self.entries()[i].0 != #[trigger] self.entries()[j].0,
            forall|name: Seq<char>|
                #[trigger] self@.contains_key(name) ==> exists|i: int|
                    0 <= i < self.entries().len() && #[trigger] self.entries()[i].0 == name,
    {
        let entries = self.entries();
        assert forall|i: int| 0 <= i < entries.len() implies self@.contains_key(
            #[trigger] entries[i].0,
        ) && self@[entries[i].0] == entries[i].1 by {
            assert(self.variables[i].0@ == entries[i].0);
        }
        assert forall|name: Seq<char>| #[trigger] self@.contains_key(name) implies exists|i: int|
            0 <= i < entries.len() && #[trigger] entries[i].0 == name by {
            let i = choose|i: int| 0 <= i < self.variables.len() && #[trigger] self.variables[i].0@ == name;
            assert(entries[i].0 == name);
        }
    }

    /// The text of the environment: `{ `, its bindings, ` }`.
    pub fn to_string(&self) -> (text: String)
        ensures
            text@ == "{ "@ + bindings_text(self.entries()) + " }"@,
    {
        let mut text = String::new();
        text.append("{ ");
        let mut i: usize = 0;
        while i < self.variables.len()
            invariant
                i <= self.variables.len(),
                text@ == "{ "@ + bindings_text(self.entries().subrange(0, i as int)),
            decreases self.variables.len() - i,
        {
            let ghost before = self.entries().subrange(0, i as int);
            let ghost after = self.entries().subrange(0, i + 1);
            if i > 0 {
                text.append(", ");
            }
            text.append(self.variables[i].0.as_str());
            text.append(" = ");
            self.variables[i].1.write(&mut text);
            proof {
                assert(after.drop_last() =~= before);
                assert(after.last() == self.entries()[i as int]);
                if i == 0 {
                    assert(before =~= Seq::<(Seq<char>, Expression)>::empty());
                }
            }
            assert(text@ =~= "{ "@ + bindings_text(after));
            i += 1;
        }
        assert(self.entries().subrange(0, i as int) =~= self.entries());
        text.append(" }");
        text
    }

    /// Each name is bound at most once.
    pub closed spec fn well_formed(&self) -> bool {
        forall|i: int, j: int|
            0 <= i < self.variables.len() && 0 <= j < self.variables.len() && i != j
                ==> #[trigger] self.variables[i].0@ != #[trigger] self.variables[j].0@
    }

    pub fn new() -> (environment: Self)
        ensures
            environment.well_formed(),
            environment@ == Map::<Seq<char>, Expression>::empty(),
    {
        let environment = Environment { variables: Vec::new() };
        assert(environment@ =~= Map::<Seq<char>, Expression>::empty());
        environment
    }

    fn position(&self, key: &str) -> (found: Option<usize>)
        ensures
            match found {
                Some(i) => i < self.variables.len() && self.variables[i as int].0@ == key@,
                None => !self@.contains_key(key@),
            },
    {
        let wanted = String::from_str(key);
        let mut i: usize = 0;
        while i < self.variables.len()
            invariant
                i <= self.variables.len(),
                wanted@ == key@,
                forall|j: int| 0 <= j < i ==> #[trigger] self.variables[j].0@ != key@,
            decreases self.variables.len() - i,
        {
            if self.variables[i].0 == wanted {
                return Some(i);
            }
            i += 1;
        }
        None
    }

    /// Binds `key` to `value`, in place of any earlier value.
    pub fn insert(&mut self, key: &str, value: Expression)
        requires
            old(self).well_formed(),
        ensures
            final(self).well_formed(),
            final(self)@ == old(self)@.insert(key@, value),
    {
        let ghost before = self.variables@;
        let name = String::from_str(key);
        match self.position(key) {
            Some(i) => {
                self.variables.set(i, (name, value));
                proof {
                    let after = self.variables@;
                    assert forall|j: int| 0 <= j < after.len() implies #[trigger] after[j].0@
                        == before[j].0@ by {}
                    assert forall|a: int, b: int|
                        0 <= a < after.len() && 0 <= b < after.len() && a != b implies #[trigger] after[a].0@
                            != #[trigger] after[b].0@ by {
                        assert(before[a].0@ != before[b].0@);
                    }
                    assert(self.well_formed());
                    assert forall|k: Seq<char>| #[trigger] self@.contains_key(k) == old(self)@.insert(
                        key@,
                        value,
                    ).contains_key(k) by {
                        if k == key@ {
                            assert(after[i as int].0@ == k);
                        } else if old(self)@.contains_key(k) {
                            let j = choose|j: int| 0 <= j < before.len() && #[trigger] before[j].0@ == k;
                            assert(after[j].0@ == k);
                        }
                    }
                    assert forall|k: Seq<char>| #[trigger] self@.contains_key(k) implies self@[k]
                        == old(self)@.insert(key@, value)[k] by {
                        let j = choose|j: int| 0 <= j < after.len() && #[trigger] after[j].0@ == k;
                        if k == key@ {
                            assert(j == i);
                        } else {
                            let m = choose|m: int| 0 <= m < before.len() && #[trigger] before[m].0@ == k;
                            assert(before[j].0@ == k);
                            assert(m == j);
                        }
                    }
                    assert(self@ =~= old(self)@.insert(key@, value));
                }
            },
            None => {
                self.variables.push((name, value));
                proof {
                    let after = self.variables@;
                    let n = before.len() as int;
                    assert forall|j: int| 0 <= j < n implies #[trigger] after[j] == before[j] by {}
                    assert forall|j: int| 0 <= j < n implies before[j].0@ != key@ by {
                        if before[j].0@ == key@ {
                            assert(old(self)@.contains_key(key@));
                        }
                    }
                    assert(after[n].0@ == key@);
                    assert forall|a: int, b: int|
                        0 <= a < after.len() && 0 <= b < after.len() && a != b implies #[trigger] after[a].0@
                            != #[trigger] after[b].0@ by {
                        if a < n && b < n {
                            assert(before[a].0@ != before[b].0@);
                        }
                    }
                    assert(self.well_formed());
                    assert forall|k: Seq<char>| #[trigger] self@.contains_key(k) == old(self)@.insert(
                        key@,
                        value,
                    ).contains_key(k) by {
                        if k == key@ {
                            assert(after[n].0@ == k);
                        } else {
                            if old(self)@.contains_key(k) {
                                let j = choose|j: int| 0 <= j < before.len() && #[trigger] before[j].0@ == k;
                                assert(after[j].0@ == k);
                            }
                            if self@.contains_key(k) {
                                let j = choose|j: int| 0 <= j < after.len() && #[trigger] after[j].0@ == k;
                                assert(j != n);
                                assert(before[j].0@ == k);
                            }
                        }
                    }
                    assert forall|k: Seq<char>| #[trigger] self@.contains_key(k) implies self@[k]
                        == old(self)@.insert(key@, value)[k] by {
                        let j = choose|j: int| 0 <= j < after.len() && #[trigger] after[j].0@ == k;
                        if k == key@ {
                            assert(j == n);
                        } else {
                            let m = choose|m: int| 0 <= m < before.len() && #[trigger] before[m].0@ == k;
                            assert(m == j);
                        }
                    }
                    assert(self@ =~= old(self)@.insert(key@, value));
                }
            },
        }
    }

    /// Whether `key` is bound.
    pub fn contains_key(&self, key: &str) -> (bound: bool)
        ensures
            bound == self@.contains_key(key@),
    {
        self.position(key).is_some()
    }

    /// The value bound to `key`.
    pub fn get(&self, key: &str) -> (value: Expression)
        requires
            self.well_formed(),
            self@.contains_key(key@),
        ensures
            value == self@[key@],
    {
        match self.position(key) {
            Some(i) => self.variables[i].1.duplicate(),
            None => {
                assert(false);
                Expression::Number(0)
            },
        }
    }
}

} // verus!
