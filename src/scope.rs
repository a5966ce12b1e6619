use vstd::prelude::*;
use crate::errors::{CompletionError, CrushResult};
use crate::text::{copy_strings, same_text, strings_view};

verus! {

/// A value of the shell that completion can look into.
#[derive(Debug)]
pub enum Value {
    Empty(),
    Bool(bool),
    /// A namespace: its fields are its declared names.
    Scope(Scope),
}

/// The type of a value, as far as completion distinguishes it.
#[derive(Debug, Clone, Copy, PartialEq, Eq, Structural)]
pub enum ValueType {
    Any,
    Empty,
    Bool,
    Scope,
}

/// A namespace: names bound to values, in the order they were declared.
/// Nested namespaces are values of it.
#[derive(Debug)]
pub struct Scope {
    names: Vec<String>,
    values: Vec<Value>,
    read_only: bool,
}

/// The index of the first occurrence of `name` in `names`.
pub open spec fn first_match(names: Seq<Seq<char>>, name: Seq<char>) -> Option<int> {
    if exists|i: int| #![auto] 0 <= i < names.len() && names[i] == name && (forall|k: int| 0 <= k < i ==> names[k] != name) {
        Some(choose|i: int| #![auto] 0 <= i < names.len() && names[i] == name && (forall|k: int| 0 <= k < i ==> names[k] != name))
    } else {
        None
    }
}

proof fn lemma_first_exists(names: Seq<Seq<char>>, name: Seq<char>)
    requires
        first_match(names, name) is None,
    ensures
        !names.contains(name),
{
    if names.contains(name) {
        let k = choose|k: int| 0 <= k < names.len() && names[k] == name;
        lemma_first_from(names, name, k);
    }
}

proof fn lemma_first_from(names: Seq<Seq<char>>, name: Seq<char>, k: int)
    requires
        0 <= k < names.len(),
        names[k] == name,
    ensures
        first_match(names, name) is Some,
    decreases k,
{
    if exists|m: int| 0 <= m < k && names[m] == name {
        let m = choose|m: int| 0 <= m < k && names[m] == name;
        lemma_first_from(names, name, m);
    } else {
        assert(0 <= k < names.len() && names[k] == name && (forall|m: int| 0 <= m < k ==> names[m] != name));
    }
}

impl Scope {
    /// The declared names, in order of declaration.
    pub closed spec fn spec_names(&self) -> Seq<Seq<char>> {
        strings_view(self.names@)
    }

    /// Each declared name has its value.
    pub closed spec fn wf(&self) -> bool {
        self.names@.len() == self.values@.len()
    }

    pub closed spec fn spec_read_only(&self) -> bool {
        self.read_only
    }

    /// The value bound to `name`, if any.
    pub closed spec fn lookup(&self, name: Seq<char>) -> Option<Value> {
        match first_match(self.spec_names(), name) {
            Some(i) => if i < self.values@.len() { Some(self.values@[i]) } else { None },
            None => None,
        }
    }

    pub fn create_root() -> (r: Scope)
        ensures
            r.spec_names() == Seq::<Seq<char>>::empty(),
            r.wf(),
            !r.spec_read_only(),
            forall|n: Seq<char>| r.lookup(n) is None,
    {
        let r = Scope { names: Vec::new(), values: Vec::new(), read_only: false };
        assert(r.spec_names() =~= Seq::<Seq<char>>::empty());
        r
    }

    proof fn lemma_first_match(&self, name: Seq<char>, i: int)
        requires
            0 <= i < self.names@.len(),
            self.names@[i]@ == name,
            forall|k: int| 0 <= k < i ==> self.names@[k]@ != name,
        ensures
            first_match(self.spec_names(), name) == Some(i),
    {
        let names = self.spec_names();
        assert(names[i] == name);
        assert(forall|k: int| 0 <= k < i ==> names[k] != name) by {
            assert forall|k: int| 0 <= k < i implies names[k] != name by {
                assert(names[k] == self.names@[k]@);
            }
        }
        let j = choose|j: int| #![auto] 0 <= j < names.len() && names[j] == name && (forall|k: int| 0 <= k < j ==> names[k] != name);
        if j < i {
            assert(names[j] != name);
        }
        if i < j {
            assert(names[i] != name);
        }
    }

    fn position(&self, name: &str) -> (r: Option<usize>)
        ensures
            match r {
                Some(i) => first_match(self.spec_names(), name@) == Some(i as int) && i < self.names@.len(),
                None => first_match(self.spec_names(), name@) is None && forall|k: int|
                    0 <= k < self.names@.len() ==> self.names@[k]@ != name@,
            },
    {
        let mut i: usize = 0;
        while i < self.names.len()
            invariant
                i <= self.names@.len(),
                forall|k: int| 0 <= k < i ==> self.names@[k]@ != name@,
            decreases self.names@.len() - i,
        {
            if same_text(self.names[i].as_str(), name) {
                proof {
                    self.lemma_first_match(name@, i as int);
                }
                return Some(i);
            }
            i = i + 1;
        }
        proof {
            let names = self.spec_names();
            assert forall|j: int| 0 <= j < names.len() implies names[j] != name@ by {
                assert(names[j] == self.names@[j]@);
            }
        }
        None
    }

    /// A name that was never declared is bound to nothing.
    pub proof fn lookup_absent(&self, name: Seq<char>)
        requires
            !self.spec_names().contains(name),
        ensures
            self.lookup(name) is None,
    {
        if first_match(self.spec_names(), name) is Some {
            let i = first_match(self.spec_names(), name)->Some_0;
            assert(self.spec_names()[i] == name);
        }
    }

    /// The value bound to `name` in this scope.
    pub fn get(&self, name: &str) -> (r: Option<&Value>)
        ensures
            match r {
                Some(v) => self.lookup(name@) == Some(*v),
                None => self.lookup(name@) is None,
            },
    {
        let mut i: usize = 0;
        while i < self.names.len()
            invariant
                i <= self.names@.len(),
                forall|k: int| 0 <= k < i ==> self.names@[k]@ != name@,
            decreases self.names@.len() - i,
        {
            if same_text(self.names[i].as_str(), name) {
                proof {
                    self.lemma_first_match(name@, i as int);
                }
                if i < self.values.len() {
                    return Some(&self.values[i]);
                }
                return None;
            }
            i = i + 1;
        }
        proof {
            let names = self.spec_names();
            assert forall|j: int| 0 <= j < names.len() implies names[j] != name@ by {
                assert(names[j] == self.names@[j]@);
            }
        }
        None
    }

    /// The declared names, in order of declaration.
    pub fn dump(&self) -> (r: Vec<String>)
        ensures
            strings_view(r@) == self.spec_names(),
    {
        copy_strings(&self.names)
    }

    /// Binds `name` to `value`. Fails on a read-only scope, and where the name
    /// is already bound.
    pub fn declare(&mut self, name: &str, value: Value) -> (r: CrushResult<()>)
        requires
            old(self).wf(),
        ensures
            final(self).wf(),
            old(self).spec_read_only() ==> r == Err::<(), CompletionError>(CompletionError::ReadOnlyScope),
            !old(self).spec_read_only() && old(self).lookup(name@) is Some ==> r == Err::<(), CompletionError>(
                CompletionError::AlreadyDeclared,
            ),
            r is Err ==> *final(self) == *old(self),
            !old(self).spec_read_only() && old(self).lookup(name@) is None ==> {
                &&& r is Ok
                &&& final(self).spec_names() == old(self).spec_names().push(name@)
                &&& final(self).lookup(name@) == Some(value)
                &&& !final(self).spec_read_only()
                &&& forall|n: Seq<char>| n != name@ ==> #[trigger] final(self).lookup(n) == old(self).lookup(n)
            },
    {
        if self.read_only {
            return Err(CompletionError::ReadOnlyScope);
        }
        if self.position(name).is_some() {
            return Err(CompletionError::AlreadyDeclared);
        }
        let ghost old_names = self.spec_names();
        let ghost len = self.names@.len();
        self.names.push(String::from_str(name));
        self.values.push(value);
        proof {
            assert(self.spec_names() =~= old_names.push(name@));
            assert forall|k: int| 0 <= k < len implies self.names@[k]@ != name@ by {
                assert(self.names@[k] == old(self).names@[k]);
            }
            self.lemma_first_match(name@, len as int);
            assert forall|n: Seq<char>| n != name@ implies #[trigger] self.lookup(n) == old(self).lookup(n) by {
                match first_match(old_names, n) {
                    Some(i) => {
                        assert(old_names[i] == n && forall|k: int| 0 <= k < i ==> old_names[k] != n);
                        assert forall|k: int| 0 <= k < i implies self.names@[k]@ != n by {
                            assert(self.names@[k] == old(self).names@[k]);
                            assert(old_names[k] == old(self).names@[k]@);
                        }
                        assert(self.names@[i] == old(self).names@[i]);
                        assert(old_names[i] == old(self).names@[i]@);
                        self.lemma_first_match(n, i);
                        assert(self.values@[i] == old(self).values@[i]);
                    },
                    None => {
                        lemma_first_exists(old_names, n);
                        assert(!self.spec_names().contains(n)) by {
                            if self.spec_names().contains(n) {
                                let j = choose|j: int| 0 <= j < self.spec_names().len() && self.spec_names()[j] == n;
                                if j < len {
                                    assert(old_names[j] == n);
                                }
                            }
                        }
                        self.lookup_absent(n);
                    },
                }
            }
        }
        Ok(())
    }

    /// A copy of this scope, taken at this moment: later declarations in
    /// either do not reach the other.
    pub fn snapshot(&self) -> (r: Scope)
        ensures
            r.spec_names() == self.spec_names(),
            r.wf() == self.wf(),
            r.spec_read_only() == self.spec_read_only(),
            forall|n: Seq<char>| match #[trigger] self.lookup(n) {
                Some(v) => r.lookup(n) matches Some(w) && is_copy(w, v),
                None => r.lookup(n) is None,
            },
        decreases self,
    {
        let names = copy_strings(&self.names);
        let mut values: Vec<Value> = Vec::new();
        let mut j: usize = 0;
        while j < self.values.len()
            invariant
                j <= self.values@.len(),
                values@.len() == j,
                forall|k: int| 0 <= k < j ==> is_copy(#[trigger] values@[k], self.values@[k]),
            decreases self.values@.len() - j,
        {
            values.push(self.values[j].snapshot());
            j = j + 1;
        }
        assert(strings_view(names@).len() == names@.len());
        assert(strings_view(self.names@).len() == self.names@.len());
        let r = Scope { names, values, read_only: self.read_only };
        assert forall|n: Seq<char>| match #[trigger] self.lookup(n) {
            Some(v) => r.lookup(n) matches Some(w) && is_copy(w, v),
            None => r.lookup(n) is None,
        } by {
            assert(r.spec_names() == self.spec_names());
            match first_match(self.spec_names(), n) {
                Some(i) => {
                    if i < self.values@.len() {
                        assert(is_copy(r.values@[i], self.values@[i]));
                    }
                },
                None => {},
            }
        }
        r
    }

    /// Forbids further declarations.
    pub fn set_read_only(&mut self)
        ensures
            final(self).spec_read_only(),
            final(self).wf() == old(self).wf(),
            final(self).spec_names() == old(self).spec_names(),
            forall|n: Seq<char>| final(self).lookup(n) == old(self).lookup(n),
    {
        self.read_only = true;
    }
}

/// `copy` is a snapshot of `v`: the same plain value, or a namespace with the
/// same names and read-only flag.
pub open spec fn is_copy(copy: Value, v: Value) -> bool {
    match v {
        Value::Scope(s) => match copy {
            Value::Scope(c) => c.spec_names() == s.spec_names() && c.spec_read_only() == s.spec_read_only(),
            _ => false,
        },
        _ => copy == v,
    }
}

/// The names of the fields of a value: the declared names of a namespace, and
/// none for any other value.
pub open spec fn field_names(v: Value) -> Seq<Seq<char>> {
    match v {
        Value::Scope(s) => s.spec_names(),
        _ => Seq::empty(),
    }
}

/// The field `name` of a value.
pub open spec fn field_of(v: Value, name: Seq<char>) -> Option<Value> {
    match v {
        Value::Scope(s) => s.lookup(name),
        _ => None,
    }
}

impl Value {
    pub fn fields(&self) -> (r: Vec<String>)
        ensures
            strings_view(r@) == field_names(*self),
    {
        match self {
            Value::Scope(s) => s.dump(),
            _ => {
                let r: Vec<String> = Vec::new();
                assert(strings_view(r@) =~= Seq::<Seq<char>>::empty());
                r
            },
        }
    }

    pub fn field(&self, name: &str) -> (r: Option<&Value>)
        ensures
            match r {
                Some(v) => field_of(*self, name@) == Some(*v),
                None => field_of(*self, name@) is None,
            },
    {
        match self {
            Value::Scope(s) => s.get(name),
            _ => None,
        }
    }

    /// A copy of this value; a namespace is copied as it is at this moment.
    pub fn snapshot(&self) -> (r: Value)
        ensures
            field_names(r) == field_names(*self),
            is_copy(r, *self),
        decreases self,
    {
        match self {
            Value::Empty() => Value::Empty(),
            Value::Bool(b) => Value::Bool(*b),
            Value::Scope(s) => Value::Scope(s.snapshot()),
        }
    }
}

} // verus!
