//! The variables a script sees while it runs.
use vstd::prelude::*;
use crate::types::{Token, TokenV, VariableModifier, ModifierV};
use crate::text::str_is;

verus! {

/// A variable: its value, whether the host owns it (an external variable,
/// which keeps its kind), and the modifiers it was declared with.
pub struct Var {
    pub value: Token,
    pub external: bool,
    pub modifiers: Vec<VariableModifier>,
}

pub struct VarV {
    pub value: TokenV,
    pub external: bool,
    pub modifiers: Seq<ModifierV>,
}

pub open spec fn var_view(v: Var) -> VarV {
    VarV {
        value: v.value@,
        external: v.external,
        modifiers: v.modifiers@.map_values(|m: VariableModifier| m@),
    }
}

/// Named variables; no name occurs twice.
pub struct Vars {
    entries: Vec<(String, Var)>,
}

pub open spec fn names_unique(s: Seq<(String, Var)>) -> bool {
    forall|a: int, b: int| 0 <= a < b < s.len() ==> s[a].0@ != s[b].0@
}

pub open spec fn entries_map(s: Seq<(String, Var)>) -> Map<Seq<char>, VarV>
    decreases s.len(),
{
    if s.len() == 0 {
        Map::empty()
    } else {
        entries_map(s.drop_last()).insert(s.last().0@, var_view(s.last().1))
    }
}

impl View for Vars {
    type V = Map<Seq<char>, VarV>;

    closed spec fn view(&self) -> Map<Seq<char>, VarV> {
        entries_map(self.entries@)
    }
}

proof fn lemma_entries_map(s: Seq<(String, Var)>)
    requires
        names_unique(s),
    ensures
        forall|k: Seq<char>| #[trigger] entries_map(s).contains_key(k) <==> exists|i: int| 0 <= i < s.len() && s[i].0@ == k,
        forall|i: int| 0 <= i < s.len() ==> #[trigger] entries_map(s)[s[i].0@] == var_view(s[i].1),
        entries_map(s).dom().finite(),
    decreases s.len(),
{
    if s.len() > 0 {
        let f = s.drop_last();
        lemma_entries_map(f);
        assert forall|k: Seq<char>| #[trigger] entries_map(s).contains_key(k) <==> exists|i: int|
            0 <= i < s.len() && s[i].0@ == k by {
            if entries_map(s).contains_key(k) && k != s.last().0@ {
                let i = choose|i: int| 0 <= i < f.len() && f[i].0@ == k;
                assert(s[i] == f[i]);
            }
            if exists|i: int| 0 <= i < s.len() && s[i].0@ == k {
                let i = choose|i: int| 0 <= i < s.len() && s[i].0@ == k;
                if i < s.len() - 1 {
                    assert(f[i] == s[i]);
                }
            }
        }
        assert forall|i: int| 0 <= i < s.len() implies #[trigger] entries_map(s)[s[i].0@] == var_view(
            s[i].1,
        ) by {
            if i < s.len() - 1 {
                assert(f[i] == s[i]);
                assert(s[i].0@ != s.last().0@);
            }
        }
    }
}

proof fn lemma_update_entry(before: Seq<(String, Var)>, i: int, e: (String, Var))
    requires
        names_unique(before),
        0 <= i < before.len(),
        before[i].0@ == e.0@,
    ensures
        names_unique(before.update(i, e)),
        entries_map(before.update(i, e)) == entries_map(before).insert(e.0@, var_view(e.1)),
{
    let after = before.update(i, e);
    let key = e.0@;
    let vv = var_view(e.1);
    assert(names_unique(after)) by {
        assert forall|a: int, b: int| 0 <= a < b < after.len() implies after[a].0@ != after[b].0@ by {
            if a != i && b != i {
                assert(after[a] == before[a] && after[b] == before[b]);
            } else if a == i {
                assert(after[b] == before[b]);
            } else {
                assert(after[a] == before[a]);
            }
        }
    }
    lemma_entries_map(after);
    lemma_entries_map(before);
    assert forall|k: Seq<char>| #[trigger] entries_map(after).contains_key(k) == entries_map(before).insert(key, vv).contains_key(k) by {
        assert(after[i].0@ == key);
        if entries_map(after).contains_key(k) {
            let j = choose|j: int| 0 <= j < after.len() && after[j].0@ == k;
            if j != i {
                assert(after[j] == before[j]);
            }
        }
        if entries_map(before).contains_key(k) {
            let j = choose|j: int| 0 <= j < before.len() && before[j].0@ == k;
            if j != i {
                assert(after[j] == before[j]);
            }
        }
    }
    assert forall|k: Seq<char>| #[trigger] entries_map(after).contains_key(k) implies entries_map(after)[k] == entries_map(before).insert(key, vv)[k] by {
        let j = choose|j: int| 0 <= j < after.len() && after[j].0@ == k;
        if j != i {
            assert(after[j] == before[j]);
        }
    }
    assert(entries_map(after) =~= entries_map(before).insert(key, vv));
}

/// A copy of a list of modifiers.
pub fn clone_modifiers(v: &Vec<VariableModifier>) -> (r: Vec<VariableModifier>)
    ensures
        r@.map_values(|m: VariableModifier| m@) == v@.map_values(|m: VariableModifier| m@),
{
    let mut r: Vec<VariableModifier> = Vec::new();
    let mut i: usize = 0;
    while i < v.len()
        invariant
            i <= v.len(),
            r@.len() == i,
            forall|j: int| 0 <= j < i ==> #[trigger] r@[j]@ == v@[j]@,
        decreases v.len() - i,
    {
        r.push(v[i].duplicate());
        i = i + 1;
    }
    assert(r@.map_values(|m: VariableModifier| m@) =~= v@.map_values(|m: VariableModifier| m@));
    r
}

impl Var {
    /// A copy of the variable.
    pub fn duplicate(&self) -> (r: Var)
        ensures
            var_view(r) == var_view(*self),
    {
        Var { value: self.value.duplicate(), external: self.external, modifiers: clone_modifiers(&self.modifiers) }
    }
}

impl Vars {
    pub closed spec fn wf(&self) -> bool {
        names_unique(self.entries@)
    }

    /// No variables.
    pub fn new() -> (r: Vars)
        ensures
            r.wf(),
            r@ == Map::<Seq<char>, VarV>::empty(),
    {
        Vars { entries: Vec::new() }
    }

    /// Where the variable `name` is held.
    fn position(&self, name: &str) -> (r: Option<usize>)
        requires
            self.wf(),
        ensures
            match r {
                Some(i) => i < self.entries@.len() && self.entries@[i as int].0@ == name@,
                None => forall|i: int| 0 <= i < self.entries@.len() ==> self.entries@[i].0@ != name@,
            },
    {
        let mut i: usize = 0;
        while i < self.entries.len()
            invariant
                i <= self.entries@.len(),
                forall|k: int| 0 <= k < i ==> self.entries@[k].0@ != name@,
            decreases self.entries.len() - i,
        {
            if str_is(self.entries[i].0.as_str(), name) {
                return Some(i);
            }
            i = i + 1;
        }
        None
    }

    /// Whether a variable is called `name`.
    pub fn contains(&self, name: &str) -> (r: bool)
        requires
            self.wf(),
        ensures
            r == self@.contains_key(name@),
    {
        proof {
            lemma_entries_map(self.entries@);
        }
        self.position(name).is_some()
    }

    /// The variable called `name`.
    pub fn get(&self, name: &str) -> (r: Option<&Var>)
        requires
            self.wf(),
        ensures
            match r {
                Some(v) => self@.contains_key(name@) && self@[name@] == var_view(*v),
                None => !self@.contains_key(name@),
            },
    {
        proof {
            lemma_entries_map(self.entries@);
        }
        match self.position(name) {
            Some(i) => Some(&self.entries[i].1),
            None => None,
        }
    }

    /// Sets the variable called `name`, replacing one of that name.
    pub fn insert(&mut self, name: String, var: Var)
        requires
            old(self).wf(),
        ensures
            final(self).wf(),
            final(self)@ == old(self)@.insert(name@, var_view(var)),
    {
        proof {
            lemma_entries_map(self.entries@);
        }
        let ghost key = name@;
        let ghost vv = var_view(var);
        match self.position(name.as_str()) {
            Some(i) => {
                let ghost before = self.entries@;
                let ghost e = (name, var);
                self.entries.set(i, (name, var));
                proof {
                    lemma_update_entry(before, i as int, e);
                    assert(self.entries@ == before.update(i as int, e));
                }
            },
            None => {
                let ghost before = self.entries@;
                self.entries.push((name, var));
                proof {
                    let after = self.entries@;
                    assert(after.drop_last() =~= before);
                    assert(names_unique(after)) by {
                        assert forall|a: int, b: int| 0 <= a < b < after.len() implies after[a].0@ != after[b].0@ by {
                            assert(after[a] == before[a]);
                            if b < before.len() {
                                assert(after[b] == before[b]);
                            }
                        }
                    }
                }
            },
        }
    }

    /// Gives the variable called `name` a new value; whether it is external,
    /// and its modifiers, stay.
    pub fn set_value(&mut self, name: &str, value: Token)
        requires
            old(self).wf(),
            old(self)@.contains_key(name@),
        ensures
            final(self).wf(),
            final(self)@ == old(self)@.insert(name@, VarV { value: value@, ..old(self)@[name@] }),
    {
        proof {
            lemma_entries_map(self.entries@);
        }
        let i = self.position(name).unwrap();
        let ghost before = self.entries@;
        let mut e = self.entries.remove(i);
        assert(e == before[i as int]);
        e.1.value = value;
        let ghost ne = e;
        self.entries.insert(i, e);
        proof {
            assert(self.entries@ =~= before.update(i as int, ne));
            lemma_update_entry(before, i as int, ne);
            assert(var_view(ne.1) =~= VarV { value: value@, ..entries_map(before)[name@] });
        }
    }

    /// Removes the variable called `name`, if there is one.
    pub fn remove(&mut self, name: &str)
        requires
            old(self).wf(),
        ensures
            final(self).wf(),
            final(self)@ == old(self)@.remove(name@),
    {
        proof {
            lemma_entries_map(self.entries@);
        }
        match self.position(name) {
            Some(i) => {
                let ghost before = self.entries@;
                self.entries.remove(i);
                proof {
                    let after = self.entries@;
                    assert forall|j: int| 0 <= j < after.len() implies #[trigger] after[j] == before[if j < i { j } else { j + 1 }] by {}
                    assert(names_unique(after)) by {
                        assert forall|a: int, b: int| 0 <= a < b < after.len() implies after[a].0@ != after[b].0@ by {
                            assert(after[a] == before[if a < i { a } else { a + 1 }]);
                            assert(after[b] == before[if b < i { b } else { b + 1 }]);
                        }
                    }
                    lemma_entries_map(after);
                    lemma_entries_map(before);
                    let m = entries_map(before).remove(name@);
                    assert forall|k: Seq<char>| #[trigger] entries_map(after).contains_key(k) == m.contains_key(k) by {
                        if entries_map(after).contains_key(k) {
                            let j = choose|j: int| 0 <= j < after.len() && after[j].0@ == k;
                            assert(after[j] == before[if j < i { j } else { j + 1 }]);
                        }
                        if m.contains_key(k) {
                            let j = choose|j: int| 0 <= j < before.len() && before[j].0@ == k;
                            assert(j != i);
                            let j2 = if j < i { j } else { j - 1 };
                            assert(after[j2] == before[j]);
                        }
                    }
                    assert forall|k: Seq<char>| #[trigger] entries_map(after).contains_key(k) implies entries_map(after)[k] == m[k] by {
                        let j = choose|j: int| 0 <= j < after.len() && after[j].0@ == k;
                        assert(after[j] == before[if j < i { j } else { j + 1 }]);
                    }
                    assert(entries_map(after) =~= m);
                }
            },
            None => {
                proof {
                    assert(self@ =~= self@.remove(name@));
                }
            },
        }
    }

    /// A copy of the variables.
    pub fn duplicate(&self) -> (r: Vars)
        requires
            self.wf(),
        ensures
            r.wf(),
            r@ == self@,
    {
        let mut entries: Vec<(String, Var)> = Vec::new();
        let mut i: usize = 0;
        while i < self.entries.len()
            invariant
                i <= self.entries@.len(),
                names_unique(self.entries@),
                entries@.len() == i,
                forall|j: int| 0 <= j < i ==> #[trigger] entries@[j].0@ == self.entries@[j].0@
                    && var_view(entries@[j].1) == var_view(self.entries@[j].1),
            decreases self.entries.len() - i,
        {
            let e = (self.entries[i].0.clone(), self.entries[i].1.duplicate());
            entries.push(e);
            i = i + 1;
        }
        proof {
            assert(names_unique(entries@)) by {
                assert forall|a: int, b: int| 0 <= a < b < entries@.len() implies entries@[a].0@ != entries@[b].0@ by {
                    assert(entries@[a].0@ == self.entries@[a].0@);
                    assert(entries@[b].0@ == self.entries@[b].0@);
                }
            }
            lemma_entries_map(entries@);
            lemma_entries_map(self.entries@);
            assert forall|k: Seq<char>| #[trigger] entries_map(entries@).contains_key(k) == entries_map(self.entries@).contains_key(k) by {
                if entries_map(entries@).contains_key(k) {
                    let j = choose|j: int| 0 <= j < entries@.len() && entries@[j].0@ == k;
                    assert(self.entries@[j].0@ == k);
                }
                if entries_map(self.entries@).contains_key(k) {
                    let j = choose|j: int| 0 <= j < self.entries@.len() && self.entries@[j].0@ == k;
                    assert(entries@[j].0@ == k);
                }
            }
            assert forall|k: Seq<char>| #[trigger] entries_map(entries@).contains_key(k) implies entries_map(entries@)[k] == entries_map(self.entries@)[k] by {
                let j = choose|j: int| 0 <= j < entries@.len() && entries@[j].0@ == k;
                assert(self.entries@[j].0@ == k);
            }
            assert(entries_map(entries@) =~= entries_map(self.entries@));
        }
        Vars { entries }
    }

    /// The names of the variables, in the order they were first set.
    pub fn names(&self) -> (r: Vec<String>)
        requires
            self.wf(),
        ensures
            forall|k: Seq<char>| self@.contains_key(k) <==> exists|i: int| 0 <= i < r@.len() && #[trigger] r@[i]@ == k,
    {
        proof {
            lemma_entries_map(self.entries@);
        }
        let mut r: Vec<String> = Vec::new();
        let mut i: usize = 0;
        while i < self.entries.len()
            invariant
                i <= self.entries@.len(),
                r@.len() == i,
                forall|j: int| 0 <= j < i ==> #[trigger] r@[j]@ == self.entries@[j].0@,
            decreases self.entries.len() - i,
        {
            r.push(self.entries[i].0.clone());
            i = i + 1;
        }
        proof {
            assert forall|k: Seq<char>| self@.contains_key(k) <==> exists|i: int| 0 <= i < r@.len() && #[trigger] r@[i]@ == k by {
                if self@.contains_key(k) {
                    let j = choose|j: int| 0 <= j < self.entries@.len() && self.entries@[j].0@ == k;
                    assert(r@[j]@ == k);
                }
            }
        }
        r
    }
}


/// Reading a variable gives what was last set to it, and setting one
/// variable leaves every other as it was; removing it leaves it unset.
pub proof fn lemma_read_after_write(m: Map<Seq<char>, VarV>, name: Seq<char>, v: VarV, other: Seq<char>)
    ensures
        m.insert(name, v).contains_key(name),
        m.insert(name, v)[name] == v,
        other != name ==> m.insert(name, v).contains_key(other) == m.contains_key(other),
        other != name && m.contains_key(other) ==> m.insert(name, v)[other] == m[other],
        !m.remove(name).contains_key(name),
        other != name ==> m.remove(name).contains_key(other) == m.contains_key(other),
{
}

} // verus!
