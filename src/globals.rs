use vstd::prelude::*;
use crate::value::{Val, Value};

verus! {

/// The bindings held by a list of entries: a later entry for a name overrides
/// an earlier one.
pub open spec fn table_view(e: Seq<(String, Value)>) -> Map<Seq<char>, Val>
    decreases e.len(),
{
    if e.len() == 0 {
        Map::empty()
    } else {
        table_view(e.drop_last()).insert(e.last().0@, e.last().1@)
    }
}

/// No entry after `i` has the name `n`.
pub open spec fn last_with_name(e: Seq<(String, Value)>, i: int, n: Seq<char>) -> bool {
    &&& 0 <= i < e.len()
    &&& e[i].0@ == n
    &&& forall|j: int| i < j < e.len() ==> (#[trigger] e[j]).0@ != n
}

proof fn lemma_table_lookup(e: Seq<(String, Value)>, i: int, n: Seq<char>)
    requires
        last_with_name(e, i, n),
    ensures
        table_view(e).contains_key(n),
        table_view(e)[n] == e[i].1@,
    decreases e.len(),
{
    if i < e.len() - 1 {
        let d = e.drop_last();
        assert(e[e.len() - 1].0@ != n);
        assert forall|j: int| i < j < d.len() implies (#[trigger] d[j]).0@ != n by {
            assert(d[j] == e[j]);
        }
        lemma_table_lookup(d, i, n);
    }
}

proof fn lemma_table_absent(e: Seq<(String, Value)>, n: Seq<char>)
    requires
        forall|j: int| 0 <= j < e.len() ==> (#[trigger] e[j]).0@ != n,
    ensures
        !table_view(e).contains_key(n),
    decreases e.len(),
{
    if e.len() > 0 {
        let d = e.drop_last();
        assert forall|j: int| 0 <= j < d.len() implies (#[trigger] d[j]).0@ != n by {
            assert(d[j] == e[j]);
        }
        lemma_table_absent(d, n);
        assert(e[e.len() - 1].0@ != n);
    }
}

proof fn lemma_table_update(e: Seq<(String, Value)>, i: int, n: Seq<char>, x: (String, Value))
    requires
        last_with_name(e, i, n),
        x.0@ == n,
    ensures
        table_view(e.update(i, x)) == table_view(e).insert(n, x.1@),
    decreases e.len(),
{
    let u = e.update(i, x);
    let d = e.drop_last();
    if i == e.len() - 1 {
        assert(u.drop_last() =~= d);
        assert(table_view(u) =~= table_view(e).insert(n, x.1@));
    } else {
        assert forall|j: int| i < j < d.len() implies (#[trigger] d[j]).0@ != n by {
            assert(d[j] == e[j]);
        }
        lemma_table_update(d, i, n, x);
        assert(u.drop_last() =~= d.update(i, x));
        assert(e.last().0@ != n);
        assert(table_view(u) =~= table_view(e).insert(n, x.1@));
    }
}

/// A name-to-value table kept as a list of entries with distinct names.
pub struct Globals {
    entries: Vec<(String, Value)>,
}

impl View for Globals {
    type V = Map<Seq<char>, Val>;

    closed spec fn view(&self) -> Map<Seq<char>, Val> {
        table_view(self.entries@)
    }
}

impl Globals {
    /// An empty table.
    pub fn new() -> (r: Globals)
        ensures
            r@ == Map::<Seq<char>, Val>::empty(),
    {
        let r = Globals { entries: Vec::new() };
        assert(r.entries@ =~= Seq::<(String, Value)>::empty());
        r
    }

    /// The position of the last entry named `name`, if any.
    fn find(&self, name: &String) -> (r: Option<usize>)
        ensures
            r matches Some(i) ==> last_with_name(self.entries@, i as int, name@),
            r is None ==> forall|j: int|
                0 <= j < self.entries@.len() ==> (#[trigger] self.entries@[j]).0@ != name@,
    {
        let mut k: usize = self.entries.len();
        while k > 0
            invariant
                k <= self.entries@.len(),
                forall|j: int| k <= j < self.entries@.len() ==> (#[trigger] self.entries@[j]).0@ != name@,
            decreases k,
        {
            if self.entries[k - 1].0 == *name {
                return Some(k - 1);
            }
            k = k - 1;
        }
        None
    }

    /// The value bound to `name`, if any.
    pub fn get(&self, name: &String) -> (r: Option<Value>)
        ensures
            r is None <==> !self@.contains_key(name@),
            r matches Some(v) ==> v@ == self@[name@],
    {
        match self.find(name) {
            Some(i) => {
                proof {
                    lemma_table_lookup(self.entries@, i as int, name@);
                }
                Some(self.entries[i].1.duplicate())
            },
            None => {
                proof {
                    lemma_table_absent(self.entries@, name@);
                }
                None
            },
        }
    }

    /// Binds `name` to `value`, replacing any earlier binding.
    pub fn set(&mut self, name: String, value: Value)
        ensures
            final(self)@ == old(self)@.insert(name@, value@),
    {
        match self.find(&name) {
            Some(i) => {
                proof {
                    lemma_table_update(self.entries@, i as int, name@, (name, value));
                }
                self.entries.set(i, (name, value));
            },
            None => {
                let ghost e = self.entries@;
                self.entries.push((name, value));
                proof {
                    assert(self.entries@.drop_last() =~= e);
                }
            },
        }
    }
}

} // verus!
