//! The structured values that documents are made of.

use vstd::prelude::*;

verus! {

/// A numeric scalar.
#[derive(Clone, Copy, Debug, PartialEq, Eq, Structural)]
pub enum Number {
    /// A non-negative integer.
    PosInt(u64),
    /// A negative integer.
    NegInt(i64),
    /// A floating-point number, held as its IEEE 754 binary64 bit pattern.
    Float(u64),
}

/// A parsed document or a part of one.
///
/// A mapping keeps its entries in document order.
#[derive(Debug)]
pub enum Value {
    Null,
    Bool(bool),
    Number(Number),
    String(String),
    Sequence(Vec<Value>),
    Mapping(Vec<(Value, Value)>),
}

/// The mathematical tree that a [`Value`] stands for.
pub enum Node {
    Null,
    Bool(bool),
    Number(Number),
    String(Seq<char>),
    Sequence(Seq<Node>),
    Mapping(Seq<(Node, Node)>),
}

/// The tree of a value: the same shape, with every sequence, mapping and string
/// replaced by its mathematical counterpart.
pub open spec fn node_of(value: Value) -> Node
    decreases value,
{
    match value {
        Value::Null => Node::Null,
        Value::Bool(b) => Node::Bool(b),
        Value::Number(n) => Node::Number(n),
        Value::String(s) => Node::String(s@),
        Value::Sequence(items) => Node::Sequence(
            Seq::new(
                items@.len(),
                |i: int|
                    if 0 <= i < items@.len() {
                        node_of(items@[i])
                    } else {
                        Node::Null
                    },
            ),
        ),
        Value::Mapping(entries) => Node::Mapping(
            Seq::new(
                entries@.len(),
                |i: int|
                    if 0 <= i < entries@.len() {
                        (node_of(entries@[i].0), node_of(entries@[i].1))
                    } else {
                        (Node::Null, Node::Null)
                    },
            ),
        ),
    }
}

/// Whether no mapping in `node`, at any depth, has two entries with the same key.
pub open spec fn unique_keys(node: Node) -> bool
    decreases node,
{
    match node {
        Node::Sequence(items) => forall|i: int|
            0 <= i < items.len() ==> unique_keys(#[trigger] items[i]),
        Node::Mapping(entries) => {
            &&& forall|i: int, j: int|
                0 <= i < j < entries.len() ==> (#[trigger] entries[i]).0 != (#[trigger] entries[j]).0
            &&& forall|i: int|
                0 <= i < entries.len() ==> unique_keys((#[trigger] entries[i]).0) && unique_keys(
                    entries[i].1,
                )
        },
        _ => true,
    }
}

impl View for Value {
    type V = Node;

    open spec fn view(&self) -> Node {
        node_of(*self)
    }
}

impl Clone for Value {
    #[verifier::loop_isolation(false)]
    fn clone(&self) -> (res: Self)
        ensures
            res@ == self@,
        decreases self,
    {
        match self {
            Value::Null => Value::Null,
            Value::Bool(b) => Value::Bool(*b),
            Value::Number(n) => Value::Number(*n),
            Value::String(s) => Value::String(s.clone()),
            Value::Sequence(items) => {
                let mut out: Vec<Value> = Vec::new();
                let mut i: usize = 0;
                while i < items.len()
                    invariant
                        i <= items.len(),
                        out@.len() == i,
                        forall|j: int| 0 <= j < i ==> out@[j]@ == items@[j]@,
                    decreases items.len() - i,
                {
                    out.push(items[i].clone());
                    i += 1;
                }
                let res = Value::Sequence(out);
                assert(res@->Sequence_0 =~= self@->Sequence_0);
                res
            },
            Value::Mapping(entries) => {
                let mut out: Vec<(Value, Value)> = Vec::new();
                let mut i: usize = 0;
                while i < entries.len()
                    invariant
                        i <= entries.len(),
                        out@.len() == i,
                        forall|j: int|
                            0 <= j < i ==> out@[j].0@ == entries@[j].0@ && out@[j].1@
                                == entries@[j].1@,
                    decreases entries.len() - i,
                {
                    out.push((entries[i].0.clone(), entries[i].1.clone()));
                    i += 1;
                }
                let res = Value::Mapping(out);
                assert(res@->Mapping_0 =~= self@->Mapping_0);
                res
            },
        }
    }
}

impl PartialEq for Value {
    #[verifier::loop_isolation(false)]
    fn eq(&self, other: &Self) -> (r: bool)
        decreases self,
    {
        match self {
            Value::Null => matches!(other, Value::Null),
            Value::Bool(a) => match other {
                Value::Bool(b) => *a == *b,
                _ => false,
            },
            Value::Number(a) => match other {
                Value::Number(b) => *a == *b,
                _ => false,
            },
            Value::String(a) => match other {
                Value::String(b) => *a == *b,
                _ => false,
            },
            Value::Sequence(a) => match other {
                Value::Sequence(b) => {
                    if a.len() != b.len() {
                        assert(self@->Sequence_0.len() != other@->Sequence_0.len());
                        return false;
                    }
                    let mut i: usize = 0;
                    while i < a.len()
                        invariant
                            i <= a.len(),
                            forall|j: int| 0 <= j < i ==> a@[j]@ == b@[j]@,
                        decreases a.len() - i,
                    {
                        if !a[i].eq(&b[i]) {
                            assert(self@->Sequence_0[i as int] != other@->Sequence_0[i as int]);
                            return false;
                        }
                        i += 1;
                    }
                    assert(self@->Sequence_0 =~= other@->Sequence_0);
                    true
                },
                _ => false,
            },
            Value::Mapping(a) => match other {
                Value::Mapping(b) => {
                    if a.len() != b.len() {
                        assert(self@->Mapping_0.len() != other@->Mapping_0.len());
                        return false;
                    }
                    let mut i: usize = 0;
                    while i < a.len()
                        invariant
                            i <= a.len(),
                            forall|j: int|
                                0 <= j < i ==> a@[j].0@ == b@[j].0@ && a@[j].1@ == b@[j].1@,
                        decreases a.len() - i,
                    {
                        if !a[i].0.eq(&b[i].0) || !a[i].1.eq(&b[i].1) {
                            assert(self@->Mapping_0[i as int] != other@->Mapping_0[i as int]);
                            return false;
                        }
                        i += 1;
                    }
                    assert(self@->Mapping_0 =~= other@->Mapping_0);
                    true
                },
                _ => false,
            },
        }
    }
}

impl vstd::std_specs::cmp::PartialEqSpecImpl for Value {
    open spec fn obeys_eq_spec() -> bool {
        true
    }

    open spec fn eq_spec(&self, other: &Self) -> bool {
        self@ == other@
    }
}

} // verus!
