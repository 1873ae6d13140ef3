//! Named documents: the workflows to expand and the blocks they may refer to.

use crate::value::{Node, Value};
use vstd::prelude::*;

verus! {

/// No two entries carry the same name.
pub open spec fn distinct_names(entries: Seq<(Seq<char>, Node)>) -> bool {
    forall|i: int, j: int|
        0 <= i < j < entries.len() ==> (#[trigger] entries[i]).0 != (#[trigger] entries[j]).0
}

/// Whether some entry is called `name`.
pub open spec fn has_name<T>(entries: Seq<(Seq<char>, T)>, name: Seq<char>) -> bool {
    exists|i: int| 0 <= i < entries.len() && (#[trigger] entries[i]).0 == name
}

/// The position of the first entry called `name`.
pub open spec fn position<T>(entries: Seq<(Seq<char>, T)>, name: Seq<char>) -> int {
    choose|i: int|
        0 <= i < entries.len() && (#[trigger] entries[i]).0 == name && forall|j: int|
            0 <= j < i ==> (#[trigger] entries[j]).0 != name
}

/// The entries read as a map from name to document.
pub open spec fn as_map(entries: Seq<(Seq<char>, Node)>) -> Map<Seq<char>, Node> {
    Map::new(|name: Seq<char>| has_name(entries, name), |name: Seq<char>| entries[position(entries, name)].1)
}

/// `entries` with `name` bound to `node`: replaced in place where the name is
/// already taken, added at the end otherwise.
pub open spec fn put(entries: Seq<(Seq<char>, Node)>, name: Seq<char>, node: Node) -> Seq<
    (Seq<char>, Node),
> {
    if has_name(entries, name) {
        entries.update(position(entries, name), (name, node))
    } else {
        entries.push((name, node))
    }
}

/// Where `name` occurs it has a first occurrence, and `position` is it.
pub proof fn lemma_position<T>(entries: Seq<(Seq<char>, T)>, name: Seq<char>)
    requires
        has_name(entries, name),
    ensures
        0 <= position(entries, name) < entries.len(),
        entries[position(entries, name)].0 == name,
        forall|j: int| 0 <= j < position(entries, name) ==> (#[trigger] entries[j]).0 != name,
{
    let k = choose|i: int| 0 <= i < entries.len() && (#[trigger] entries[i]).0 == name;
    lemma_first_from(entries, name, k);
}

proof fn lemma_first_from<T>(entries: Seq<(Seq<char>, T)>, name: Seq<char>, k: int)
    requires
        0 <= k < entries.len(),
        entries[k].0 == name,
    ensures
        exists|i: int|
            0 <= i < entries.len() && (#[trigger] entries[i]).0 == name && forall|j: int|
                0 <= j < i ==> (#[trigger] entries[j]).0 != name,
    decreases k,
{
    if exists|j: int| 0 <= j < k && (#[trigger] entries[j]).0 == name {
        let j = choose|j: int| 0 <= j < k && (#[trigger] entries[j]).0 == name;
        lemma_first_from(entries, name, j);
    } else {
        assert(0 <= k < entries.len() && entries[k].0 == name && forall|j: int|
            0 <= j < k ==> (#[trigger] entries[j]).0 != name);
    }
}

/// Among distinct names, the entry called `name` is where `position` says.
pub proof fn lemma_position_unique(entries: Seq<(Seq<char>, Node)>, name: Seq<char>, k: int)
    requires
        distinct_names(entries),
        0 <= k < entries.len(),
        entries[k].0 == name,
    ensures
        has_name(entries, name),
        position(entries, name) == k,
{
    lemma_position(entries, name);
    let p = position(entries, name);
    if p < k {
        assert(entries[p].0 != entries[k].0);
    } else if k < p {
        assert(entries[k].0 != entries[p].0);
    }
}

/// Binding a name keeps the names distinct, and acts on the map of the
/// entries as an insertion: the name is bound to the new document, and every
/// other name to what it was bound to.
pub proof fn lemma_put(entries: Seq<(Seq<char>, Node)>, name: Seq<char>, node: Node)
    requires
        distinct_names(entries),
    ensures
        distinct_names(put(entries, name, node)),
        as_map(put(entries, name, node)) == as_map(entries).insert(name, node),
{
    let after = put(entries, name, node);
    let at = if has_name(entries, name) {
        position(entries, name)
    } else {
        entries.len() as int
    };
    if has_name(entries, name) {
        lemma_position(entries, name);
    }
    assert(after.len() > at && after[at] == (name, node));
    assert(forall|i: int| 0 <= i < entries.len() && i != at ==> after[i] == entries[i]);
    assert(forall|i: int| 0 <= i < after.len() && i != at ==> (#[trigger] after[i]).0 != name);
    assert(distinct_names(after));
    assert forall|n: Seq<char>| has_name(after, n) <==> (n == name || has_name(entries, n)) by {
        if has_name(after, n) && n != name {
            let i = choose|i: int| 0 <= i < after.len() && (#[trigger] after[i]).0 == n;
            assert(entries[i].0 == n);
        }
        if n == name {
            assert(after[at].0 == n);
        } else if has_name(entries, n) {
            let i = choose|i: int| 0 <= i < entries.len() && (#[trigger] entries[i]).0 == n;
            assert(after[i].0 == n);
        }
    }
    assert forall|n: Seq<char>| has_name(after, n) implies after[position(after, n)].1
        == as_map(entries).insert(name, node)[n] by {
        lemma_position(after, n);
        let p = position(after, n);
        if n == name {
            lemma_position_unique(after, n, at);
        } else {
            assert(entries[p].0 == n);
            lemma_position_unique(entries, n, p);
        }
    }
    assert(as_map(after) =~= as_map(entries).insert(name, node));
}

/// An ordered collection of documents, each under a name of its own.
#[derive(Debug)]
pub struct Documents {
    entries: Vec<(String, Value)>,
}

impl View for Documents {
    type V = Seq<(Seq<char>, Node)>;

    closed spec fn view(&self) -> Seq<(Seq<char>, Node)> {
        Seq::new(self.entries@.len(), |i: int| (self.entries@[i].0@, self.entries@[i].1@))
    }
}

impl Documents {
    /// What every collection keeps: no name occurs twice.
    #[verifier::type_invariant]
    pub open spec fn well_formed(&self) -> bool {
        distinct_names(self@)
    }

    /// The documents as a map from name to content.
    pub open spec fn map(&self) -> Map<Seq<char>, Node> {
        as_map(self@)
    }

    /// An empty collection.
    pub fn new() -> (r: Self)
        ensures
            r@ == Seq::<(Seq<char>, Node)>::empty(),
    {
        Documents { entries: Vec::new() }
    }

    /// The number of documents.
    pub fn len(&self) -> (r: usize)
        ensures
            r == self@.len(),
    {
        self.entries.len()
    }

    /// The name of the document at `index`.
    pub fn name_at(&self, index: usize) -> (r: &String)
        requires
            index < self@.len(),
        ensures
            r@ == self@[index as int].0,
    {
        &self.entries[index].0
    }

    /// The content of the document at `index`.
    pub fn value_at(&self, index: usize) -> (r: &Value)
        requires
            index < self@.len(),
        ensures
            r@ == self@[index as int].1,
    {
        &self.entries[index].1
    }

    fn find(&self, name: &String) -> (r: Option<usize>)
        ensures
            match r {
                Some(i) => has_name(self@, name@) && i == position(self@, name@) && i
                    < self.entries@.len(),
                None => !has_name(self@, name@),
            },
    {
        let mut i: usize = 0;
        while i < self.entries.len()
            invariant
                i <= self.entries.len(),
                forall|j: int| 0 <= j < i ==> (#[trigger] self@[j]).0 != name@,
            decreases self.entries.len() - i,
        {
            if self.entries[i].0 == *name {
                proof {
                    assert(self@[i as int].0 == name@);
                    lemma_position(self@, name@);
                }
                return Some(i);
            }
            i += 1;
        }
        assert(!has_name(self@, name@));
        None
    }

    /// Whether a document is called `name`.
    pub fn contains_key(&self, name: &str) -> (r: bool)
        ensures
            r == has_name(self@, name@),
    {
        let key = String::from_str(name);
        self.find(&key).is_some()
    }

    /// The document called `name`.
    pub fn get(&self, name: &str) -> (r: Option<&Value>)
        ensures
            match r {
                Some(v) => self.map().contains_key(name@) && v@ == self.map()[name@],
                None => !self.map().contains_key(name@),
            },
    {
        let key = String::from_str(name);
        match self.find(&key) {
            Some(i) => Some(&self.entries[i].1),
            None => None,
        }
    }

    /// Binds `name` to `value`. A document that already had the name keeps its
    /// place and gets the new content; a new name goes to the end.
    pub fn insert(&mut self, name: String, value: Value)
        ensures
            final(self)@ == put(old(self)@, name@, value@),
            final(self).map() == old(self).map().insert(name@, value@),
    {
        proof {
            use_type_invariant(&*self);
        }
        let found = self.find(&name);
        let mut entries: Vec<(String, Value)> = Vec::new();
        core::mem::swap(&mut entries, &mut self.entries);
        match found {
            Some(i) => {
                entries.set(i, (name, value));
            },
            None => {
                entries.push((name, value));
            },
        }
        proof {
            let after = Seq::new(entries@.len(), |i: int| (entries@[i].0@, entries@[i].1@));
            assert(after =~= put(old(self)@, name@, value@));
            lemma_put(old(self)@, name@, value@);
        }
        core::mem::swap(&mut entries, &mut self.entries);
    }
}

/// The templates of one run.
#[derive(Debug)]
pub struct TemplatesData {
    /// The documents to expand.
    pub workflows: Documents,
    /// The fragments that workflows may refer to.
    pub blocks: Documents,
}

} // verus!
