use vstd::prelude::*;
use vstd::string::*;

verus! {

/// The loop variables in force during evaluation: a stack of bindings, where
/// a later binding of a name hides the earlier ones.
pub struct Scope<V> {
    bindings: Vec<(String, V)>,
}

/// Where the binding of `name` that is in force stands in `b`: the last one.
pub open spec fn binding_index<V>(b: Seq<(String, V)>, name: Seq<char>) -> Option<int>
    decreases b.len(),
{
    if b.len() == 0 {
        None
    } else if b.last().0@ == name {
        Some(b.len() - 1)
    } else {
        binding_index(b.drop_last(), name)
    }
}

proof fn lemma_binding_index<V>(b: Seq<(String, V)>, name: Seq<char>)
    ensures
        binding_index(b, name) matches Some(i) ==> 0 <= i < b.len() && b[i].0@ == name,
    decreases b.len(),
{
    if b.len() > 0 && b.last().0@ != name {
        lemma_binding_index(b.drop_last(), name);
    }
}

impl<V> Scope<V> {
    /// The bindings, oldest first.
    pub closed spec fn bindings(&self) -> Seq<(String, V)> {
        self.bindings@
    }

    /// The value that `name` stands for, if it is bound.
    pub open spec fn value_of(&self, name: Seq<char>) -> Option<V> {
        match binding_index(self.bindings(), name) {
            Some(i) => Some(self.bindings()[i].1),
            None => None,
        }
    }

    pub fn new() -> (r: Self)
        ensures
            r.bindings() == Seq::<(String, V)>::empty(),
    {
        Scope { bindings: Vec::new() }
    }

    /// Binds `name` to `value`, hiding any earlier binding of `name`.
    pub fn push(&mut self, name: String, value: V)
        ensures
            final(self).bindings() == old(self).bindings().push((name, value)),
    {
        self.bindings.push((name, value));
    }

    /// Removes the latest binding, which brings back what it hid.
    pub fn pop(&mut self)
        ensures
            old(self).bindings().len() > 0 ==> final(self).bindings() == old(
                self,
            ).bindings().drop_last(),
            old(self).bindings().len() == 0 ==> final(self).bindings() == old(self).bindings(),
    {
        if self.bindings.len() > 0 {
            self.bindings.pop();
        }
    }

    /// The value of the latest binding of `name`.
    pub fn get(&self, name: &str) -> (r: Option<&V>)
        ensures
            match self.value_of(name@) {
                Some(v) => r matches Some(x) && *x == v,
                None => r is None,
            },
    {
        let mut i = self.bindings.len();
        assert(self.bindings@.take(i as int) =~= self.bindings@);
        while i > 0
            invariant
                i <= self.bindings@.len(),
                binding_index(self.bindings@, name@) == binding_index(
                    self.bindings@.take(i as int),
                    name@,
                ),
            decreases i,
        {
            let ghost prefix = self.bindings@.take(i as int);
            assert(prefix.drop_last() =~= self.bindings@.take(i - 1));
            if same_str(self.bindings[i - 1].0.as_str(), name) {
                proof {
                    lemma_binding_index(self.bindings@, name@);
                }
                return Some(&self.bindings[i - 1].1);
            }
            i = i - 1;
        }
        None
    }
}

/// Whether two strings hold the same characters.
fn same_str(a: &str, b: &str) -> (r: bool)
    ensures
        r == (a@ == b@),
{
    let n = a.unicode_len();
    if n != b.unicode_len() {
        return false;
    }
    let mut i: usize = 0;
    while i < n
        invariant
            i <= n,
            n == a@.len(),
            n == b@.len(),
            forall|k: int| 0 <= k < i ==> a@[k] == b@[k],
        decreases n - i,
    {
        if a.get_char(i) != b.get_char(i) {
            return false;
        }
        i = i + 1;
    }
    assert(a@ =~= b@);
    true
}

} // verus!
