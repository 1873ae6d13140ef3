//! The expansion engine: every reference to a block is replaced by the block.

use crate::store::{distinct_names, has_name, Documents, TemplatesData};
use crate::value::{unique_keys, Node, Value};
use vstd::prelude::*;

verus! {

/// The block that `node` refers to: `node` is a mapping with the single entry
/// `$include`, whose value is a string, the block's name.
pub open spec fn reference(node: Node) -> Option<Seq<char>> {
    match node {
        Node::Mapping(entries) => if entries.len() == 1 && entries[0].0 == Node::String(
            "$include"@,
        ) {
            match entries[0].1 {
                Node::String(name) => Some(name),
                _ => None,
            }
        } else {
            None
        },
        _ => None,
    }
}

/// `node` with every reference that `blocks` answers replaced by its block.
///
/// A block is put in as it is; the keys of a mapping are left alone.
pub open spec fn resolve(node: Node, blocks: Map<Seq<char>, Node>) -> Node
    decreases node,
{
    match reference(node) {
        Some(name) => if blocks.contains_key(name) {
            blocks[name]
        } else {
            node
        },
        None => match node {
            Node::Sequence(items) => Node::Sequence(
                Seq::new(
                    items.len(),
                    |i: int|
                        if 0 <= i < items.len() {
                            resolve(items[i], blocks)
                        } else {
                            Node::Null
                        },
                ),
            ),
            Node::Mapping(entries) => Node::Mapping(
                Seq::new(
                    entries.len(),
                    |i: int|
                        if 0 <= i < entries.len() {
                            (entries[i].0, resolve(entries[i].1, blocks))
                        } else {
                            (Node::Null, Node::Null)
                        },
                ),
            ),
            _ => node,
        },
    }
}

/// The names of the references in `node` that `blocks` does not answer, in
/// document order.
pub open spec fn unknown(node: Node, blocks: Map<Seq<char>, Node>) -> Seq<Seq<char>>
    decreases node, 1int,
{
    match reference(node) {
        Some(name) => if blocks.contains_key(name) {
            Seq::empty()
        } else {
            seq![name]
        },
        None => unknown_within(node, blocks).flatten(),
    }
}

/// For each item of a sequence, or each value of a mapping, the names that
/// `unknown` finds in it.
pub open spec fn unknown_within(node: Node, blocks: Map<Seq<char>, Node>) -> Seq<Seq<Seq<char>>>
    decreases node, 0int,
{
    match node {
        Node::Sequence(items) => Seq::new(
            items.len(),
            |i: int|
                if 0 <= i < items.len() {
                    unknown(items[i], blocks)
                } else {
                    Seq::empty()
                },
        ),
        Node::Mapping(entries) => Seq::new(
            entries.len(),
            |i: int|
                if 0 <= i < entries.len() {
                    unknown(entries[i].1, blocks)
                } else {
                    Seq::empty()
                },
        ),
        _ => Seq::empty(),
    }
}

/// What expanding `node` gives: the resolved tree where every reference is
/// answered, else the name of the first reference that is not.
pub open spec fn expansion(node: Node, blocks: Map<Seq<char>, Node>) -> Result<Node, Seq<char>> {
    if unknown(node, blocks).len() == 0 {
        Ok(resolve(node, blocks))
    } else {
        Err(unknown(node, blocks)[0])
    }
}

/// Whether no reference can be reached in `node` through the items of
/// sequences and the values of mappings.
pub open spec fn plain(node: Node) -> bool
    decreases node,
{
    reference(node) is None && match node {
        Node::Sequence(items) => forall|i: int| 0 <= i < items.len() ==> plain(#[trigger] items[i]),
        Node::Mapping(entries) => forall|i: int|
            0 <= i < entries.len() ==> plain((#[trigger] entries[i]).1),
        _ => true,
    }
}

/// The reference to the block called `name`.
pub open spec fn reference_to(name: Seq<char>) -> Node {
    Node::Mapping(seq![(Node::String("$include"@), Node::String(name))])
}

/// Parts that are all empty flatten to nothing.
pub proof fn lemma_flatten_nothing<A>(parts: Seq<Seq<A>>)
    requires
        forall|j: int| 0 <= j < parts.len() ==> (#[trigger] parts[j]).len() == 0,
    ensures
        parts.flatten().len() == 0,
    decreases parts.len(),
{
    if parts.len() > 0 {
        assert(parts.first().len() == 0);
        lemma_flatten_nothing(parts.drop_first());
    }
}

/// The flattening starts with the first part that is not empty.
pub proof fn lemma_flatten_first<A>(parts: Seq<Seq<A>>, k: int)
    requires
        0 <= k < parts.len(),
        forall|j: int| 0 <= j < k ==> (#[trigger] parts[j]).len() == 0,
        parts[k].len() > 0,
    ensures
        parts.flatten().len() > 0,
        parts.flatten()[0] == parts[k][0],
    decreases k,
{
    if k > 0 {
        assert(parts.first().len() == 0);
        let rest = parts.drop_first();
        assert(forall|j: int| 0 <= j < k - 1 ==> (#[trigger] rest[j]) == parts[j + 1]);
        lemma_flatten_first(rest, k - 1);
        assert(parts.flatten() =~= rest.flatten());
    }
}

/// Where the flattening is empty, so is every part.
pub proof fn lemma_flatten_nothing_parts<A>(parts: Seq<Seq<A>>, k: int)
    requires
        parts.flatten().len() == 0,
        0 <= k < parts.len(),
    ensures
        parts[k].len() == 0,
    decreases k,
{
    if k > 0 {
        let rest = parts.drop_first();
        assert(rest[k - 1] == parts[k]);
        lemma_flatten_nothing_parts(rest, k - 1);
    }
}

/// A reference to a block, read from a value.
#[derive(Debug)]
pub struct TemplateAction {
    /// The name of the block.
    pub block: String,
}

impl TemplateAction {
    /// Reads `value` as a reference to a block, where it has that shape.
    pub fn decode(value: &Value) -> (r: Option<TemplateAction>)
        ensures
            match r {
                Some(action) => reference(value@) == Some(action.block@),
                None => reference(value@) is None,
            },
    {
        match value {
            Value::Mapping(entries) => {
                if entries.len() != 1 {
                    return None;
                }
                assert(value@->Mapping_0[0] == (entries@[0].0@, entries@[0].1@));
                match &entries[0].0 {
                    Value::String(key) => {
                        if !(*key == String::from_str("$include")) {
                            return None;
                        }
                    },
                    _ => {
                        return None;
                    },
                }
                match &entries[0].1 {
                    Value::String(name) => Some(TemplateAction { block: name.clone() }),
                    _ => None,
                }
            },
            _ => None,
        }
    }
}

/// A reference names a block that does not exist.
#[derive(Debug)]
pub struct UnknownInclude {
    /// The name that no block has.
    pub name: String,
}

impl UnknownInclude {
    /// The failure in words.
    pub fn message(&self) -> (r: String)
        ensures
            r@ == "unknown $include: "@ + self.name@,
    {
        String::from_str("unknown $include: ").concat(self.name.as_str())
    }
}

/// Expands `value`: every reference to a block is replaced by a copy of the
/// block. Fails on the first reference, in document order, that no block
/// answers.
#[verifier::loop_isolation(false)]
pub fn expand_value(value: &Value, blocks: &Documents) -> (r: Result<Value, UnknownInclude>)
    ensures
        match r {
            Ok(expanded) => expansion(value@, blocks.map()) == Ok::<Node, Seq<char>>(expanded@),
            Err(e) => expansion(value@, blocks.map()) == Err::<Node, Seq<char>>(e.name@),
        },
    decreases value,
{
    if let Some(action) = TemplateAction::decode(value) {
        return match blocks.get(action.block.as_str()) {
            Some(block) => Ok(block.clone()),
            None => Err(UnknownInclude { name: action.block }),
        };
    }
    let ghost known = blocks.map();
    match value {
        Value::Mapping(entries) => {
            let ghost parts = unknown_within(value@, known);
            assert(value@->Mapping_0.len() == entries@.len());
            assert(forall|i: int|
                0 <= i < entries@.len() ==> (#[trigger] value@->Mapping_0[i]) == (
                    entries@[i].0@,
                    entries@[i].1@,
                ));
            assert(parts.len() == entries@.len());
            assert(forall|i: int|
                0 <= i < entries@.len() ==> (#[trigger] parts[i]) == unknown(
                    entries@[i].1@,
                    known,
                ));
            let mut out: Vec<(Value, Value)> = Vec::new();
            let mut i: usize = 0;
            while i < entries.len()
                invariant
                    i <= entries.len(),
                    out@.len() == i,
                    forall|j: int| 0 <= j < i ==> (#[trigger] parts[j]).len() == 0,
                    forall|j: int|
                        0 <= j < i ==> out@[j].0@ == entries@[j].0@ && out@[j].1@ == resolve(
                            entries@[j].1@,
                            known,
                        ),
                decreases entries.len() - i,
            {
                match expand_value(&entries[i].1, blocks) {
                    Ok(v) => {
                        out.push((entries[i].0.clone(), v));
                    },
                    Err(e) => {
                        proof {
                            lemma_flatten_first(parts, i as int);
                        }
                        return Err(e);
                    },
                }
                i += 1;
            }
            proof {
                lemma_flatten_nothing(parts);
            }
            let res = Value::Mapping(out);
            assert(res@->Mapping_0 =~= resolve(value@, known)->Mapping_0);
            Ok(res)
        },
        Value::Sequence(items) => {
            let ghost parts = unknown_within(value@, known);
            assert(value@->Sequence_0.len() == items@.len());
            assert(forall|i: int|
                0 <= i < items@.len() ==> (#[trigger] value@->Sequence_0[i]) == items@[i]@);
            assert(parts.len() == items@.len());
            assert(forall|i: int|
                0 <= i < items@.len() ==> (#[trigger] parts[i]) == unknown(items@[i]@, known));
            let mut out: Vec<Value> = Vec::new();
            let mut i: usize = 0;
            while i < items.len()
                invariant
                    i <= items.len(),
                    out@.len() == i,
                    forall|j: int| 0 <= j < i ==> (#[trigger] parts[j]).len() == 0,
                    forall|j: int| 0 <= j < i ==> out@[j]@ == resolve(items@[j]@, known),
                decreases items.len() - i,
            {
                match expand_value(&items[i], blocks) {
                    Ok(v) => {
                        out.push(v);
                    },
                    Err(e) => {
                        proof {
                            lemma_flatten_first(parts, i as int);
                        }
                        return Err(e);
                    },
                }
                i += 1;
            }
            proof {
                lemma_flatten_nothing(parts);
            }
            let res = Value::Sequence(out);
            assert(res@->Sequence_0 =~= resolve(value@, known)->Sequence_0);
            Ok(res)
        },
        _ => {
            assert(unknown_within(value@, known).len() == 0);
            Ok(value.clone())
        },
    }
}

/// The expansion of one workflow failed.
#[derive(Debug)]
pub struct WorkflowError {
    /// The name of the workflow.
    pub workflow: String,
    /// What went wrong in it.
    pub cause: UnknownInclude,
}

impl WorkflowError {
    /// The failure in words, without its cause.
    pub fn message(&self) -> (r: String)
        ensures
            r@ == "Error in workflow "@ + self.workflow@,
    {
        String::from_str("Error in workflow ").concat(self.workflow.as_str())
    }
}

/// Every workflow with its content resolved, under the same name and in the
/// same place.
pub open spec fn resolve_all(
    workflows: Seq<(Seq<char>, Node)>,
    blocks: Map<Seq<char>, Node>,
) -> Seq<(Seq<char>, Node)> {
    Seq::new(workflows.len(), |i: int| (workflows[i].0, resolve(workflows[i].1, blocks)))
}

/// Workflow `k` has a reference that no block answers, and no workflow before
/// it has one.
pub open spec fn first_failure(
    workflows: Seq<(Seq<char>, Node)>,
    blocks: Map<Seq<char>, Node>,
    k: int,
) -> bool {
    &&& 0 <= k < workflows.len()
    &&& unknown(workflows[k].1, blocks).len() > 0
    &&& forall|j: int| 0 <= j < k ==> unknown((#[trigger] workflows[j]).1, blocks).len() == 0
}

/// Expands every workflow against the blocks. The result holds the expanded
/// workflows under their names, in the order of the templates; the first
/// workflow that cannot be expanded fails the whole run.
pub fn expand_templates(templates: &TemplatesData) -> (r: Result<Documents, WorkflowError>)
    ensures
        match r {
            Ok(expanded) => {
                &&& forall|i: int|
                    0 <= i < templates.workflows@.len() ==> unknown(
                        (#[trigger] templates.workflows@[i]).1,
                        templates.blocks.map(),
                    ).len() == 0
                &&& expanded@ == resolve_all(templates.workflows@, templates.blocks.map())
            },
            Err(e) => exists|k: int|
                {
                    &&& #[trigger] first_failure(templates.workflows@, templates.blocks.map(), k)
                    &&& e.workflow@ == templates.workflows@[k].0
                    &&& e.cause.name@ == unknown(
                        templates.workflows@[k].1,
                        templates.blocks.map(),
                    )[0]
                },
        },
{
    let workflows = &templates.workflows;
    let ghost known = templates.blocks.map();
    proof {
        use_type_invariant(workflows);
    }
    let mut expanded = Documents::new();
    let mut i: usize = 0;
    while i < workflows.len()
        invariant
            i <= workflows@.len(),
            known == templates.blocks.map(),
            workflows == &templates.workflows,
            distinct_names(workflows@),
            forall|j: int| 0 <= j < i ==> unknown((#[trigger] workflows@[j]).1, known).len() == 0,
            expanded@ == resolve_all(workflows@, known).take(i as int),
        decreases workflows@.len() - i,
    {
        match expand_value(workflows.value_at(i), &templates.blocks) {
            Ok(value) => {
                let ghost before = expanded@;
                let ghost name = workflows@[i as int].0;
                assert(!has_name(before, name)) by {
                    if has_name(before, name) {
                        let j = choose|j: int| 0 <= j < before.len() && (#[trigger] before[j]).0 == name;
                        assert(workflows@[j].0 == workflows@[i as int].0);
                    }
                }
                expanded.insert(workflows.name_at(i).clone(), value);
                assert(expanded@ =~= resolve_all(workflows@, known).take(i + 1));
            },
            Err(cause) => {
                assert(first_failure(workflows@, known, i as int));
                return Err(WorkflowError { workflow: workflows.name_at(i).clone(), cause });
            },
        }
        i += 1;
    }
    assert(expanded@ =~= resolve_all(workflows@, known));
    Ok(expanded)
}

/// A document without references expands to itself, whatever the blocks.
pub proof fn lemma_plain_expands_to_itself(node: Node, blocks: Map<Seq<char>, Node>)
    requires
        plain(node),
    ensures
        expansion(node, blocks) == Ok::<Node, Seq<char>>(node),
    decreases node,
{
    match node {
        Node::Sequence(items) => {
            assert forall|i: int| 0 <= i < items.len() implies expansion(
                #[trigger] items[i],
                blocks,
            ) == Ok::<Node, Seq<char>>(items[i]) by {
                lemma_plain_expands_to_itself(items[i], blocks);
            }
            assert forall|i: int| 0 <= i < items.len() implies (#[trigger] unknown_within(
                node,
                blocks,
            )[i]).len() == 0 by {
                assert(expansion(items[i], blocks) is Ok);
            }
            lemma_flatten_nothing(unknown_within(node, blocks));
            assert(resolve(node, blocks)->Sequence_0 =~= items);
        },
        Node::Mapping(entries) => {
            assert forall|i: int| 0 <= i < entries.len() implies expansion(
                (#[trigger] entries[i]).1,
                blocks,
            ) == Ok::<Node, Seq<char>>(entries[i].1) by {
                lemma_plain_expands_to_itself(entries[i].1, blocks);
            }
            assert forall|i: int| 0 <= i < entries.len() implies (#[trigger] unknown_within(
                node,
                blocks,
            )[i]).len() == 0 by {
                assert(expansion(entries[i].1, blocks) is Ok);
            }
            lemma_flatten_nothing(unknown_within(node, blocks));
            assert(resolve(node, blocks)->Mapping_0 =~= entries);
        },
        _ => {
            assert(unknown_within(node, blocks).len() == 0);
        },
    }
}

/// A reference to a block that exists expands to exactly that block.
pub proof fn lemma_reference_expands_to_block(name: Seq<char>, blocks: Map<Seq<char>, Node>)
    requires
        blocks.contains_key(name),
    ensures
        expansion(reference_to(name), blocks) == Ok::<Node, Seq<char>>(blocks[name]),
{
    assert(reference(reference_to(name)) == Some(name));
}

/// A reference to a block that does not exist fails, and the failure names
/// the block asked for.
pub proof fn lemma_missing_block_fails(name: Seq<char>, blocks: Map<Seq<char>, Node>)
    requires
        !blocks.contains_key(name),
    ensures
        expansion(reference_to(name), blocks) == Err::<Node, Seq<char>>(name),
{
    assert(reference(reference_to(name)) == Some(name));
}

/// Expanding a mapping that is no reference keeps its keys and their order,
/// and puts in the place of each value that value's own expansion.
pub proof fn lemma_mapping_keeps_shape(entries: Seq<(Node, Node)>, blocks: Map<Seq<char>, Node>)
    requires
        reference(Node::Mapping(entries)) is None,
    ensures
        resolve(Node::Mapping(entries), blocks) is Mapping,
        resolve(Node::Mapping(entries), blocks)->Mapping_0.len() == entries.len(),
        forall|i: int|
            0 <= i < entries.len() ==> (#[trigger] resolve(
                Node::Mapping(entries),
                blocks,
            )->Mapping_0[i]) == (entries[i].0, resolve(entries[i].1, blocks)),
{
}

/// Expanding a sequence keeps its length, and puts in the place of each item
/// that item's own expansion.
pub proof fn lemma_sequence_keeps_shape(items: Seq<Node>, blocks: Map<Seq<char>, Node>)
    ensures
        resolve(Node::Sequence(items), blocks) is Sequence,
        resolve(Node::Sequence(items), blocks)->Sequence_0.len() == items.len(),
        forall|i: int|
            0 <= i < items.len() ==> (#[trigger] resolve(Node::Sequence(items), blocks)->Sequence_0[i])
                == resolve(items[i], blocks),
{
}

/// A mapping or a sequence without references is expanded to a mapping or a
/// sequence of the same length that holds, at every position, the entry or
/// item that stood there.
pub proof fn lemma_plain_collection_keeps_order(node: Node, blocks: Map<Seq<char>, Node>)
    requires
        plain(node),
        node is Mapping || node is Sequence,
    ensures
        match node {
            Node::Mapping(entries) => {
                &&& resolve(node, blocks) is Mapping
                &&& resolve(node, blocks)->Mapping_0.len() == entries.len()
                &&& forall|i: int|
                    0 <= i < entries.len() ==> (#[trigger] resolve(node, blocks)->Mapping_0[i])
                        == entries[i]
            },
            Node::Sequence(items) => {
                &&& resolve(node, blocks) is Sequence
                &&& resolve(node, blocks)->Sequence_0.len() == items.len()
                &&& forall|i: int|
                    0 <= i < items.len() ==> (#[trigger] resolve(node, blocks)->Sequence_0[i])
                        == items[i]
            },
            _ => true,
        },
{
    lemma_plain_expands_to_itself(node, blocks);
}

/// The expansion of a document holds no reference, where every reference of
/// the document is answered, no block holds a reference, and no block is a
/// string.
///
/// A block that holds a reference would bring it along, since blocks are put
/// in as they are. A block that is a string, put in as the value of a lone
/// `$include` key, would make of the mapping around it a reference.
pub proof fn lemma_expansion_is_plain(node: Node, blocks: Map<Seq<char>, Node>)
    requires
        unknown(node, blocks).len() == 0,
        forall|name: Seq<char>|
            blocks.contains_key(name) ==> plain(#[trigger] blocks[name]) && !(blocks[name] is String),
    ensures
        plain(resolve(node, blocks)),
    decreases node,
{
    if reference(node) is None {
        let parts = unknown_within(node, blocks);
        match node {
            Node::Sequence(items) => {
                let out = resolve(node, blocks)->Sequence_0;
                assert forall|i: int| 0 <= i < out.len() implies plain(#[trigger] out[i]) by {
                    lemma_flatten_nothing_parts(parts, i);
                    lemma_expansion_is_plain(items[i], blocks);
                }
            },
            Node::Mapping(entries) => {
                let out = resolve(node, blocks)->Mapping_0;
                assert forall|i: int| 0 <= i < out.len() implies plain((#[trigger] out[i]).1) by {
                    lemma_flatten_nothing_parts(parts, i);
                    lemma_expansion_is_plain(entries[i].1, blocks);
                }
                if entries.len() == 1 {
                    lemma_flatten_nothing_parts(parts, 0);
                    lemma_resolved_string(entries[0].1, blocks);
                }
            },
            _ => {},
        }
    }
}

/// Only a string, or a reference to a block that is a string, resolves to a
/// string.
proof fn lemma_resolved_string(node: Node, blocks: Map<Seq<char>, Node>)
    requires
        unknown(node, blocks).len() == 0,
    ensures
        resolve(node, blocks) is String ==> node is String || (reference(node) matches Some(name)
            && blocks.contains_key(name) && blocks[name] is String),
{
}

/// Expansion keeps the keys of every mapping distinct, where the blocks do.
pub proof fn lemma_expansion_keeps_keys_unique(node: Node, blocks: Map<Seq<char>, Node>)
    requires
        unique_keys(node),
        forall|name: Seq<char>| blocks.contains_key(name) ==> unique_keys(#[trigger] blocks[name]),
    ensures
        unique_keys(resolve(node, blocks)),
    decreases node,
{
    if reference(node) is None {
        match node {
            Node::Sequence(items) => {
                let out = resolve(node, blocks)->Sequence_0;
                assert forall|i: int| 0 <= i < out.len() implies unique_keys(#[trigger] out[i]) by {
                    assert(unique_keys(items[i]));
                    lemma_expansion_keeps_keys_unique(items[i], blocks);
                }
            },
            Node::Mapping(entries) => {
                let out = resolve(node, blocks)->Mapping_0;
                assert forall|i: int| 0 <= i < out.len() implies unique_keys(
                    (#[trigger] out[i]).0,
                ) && unique_keys(out[i].1) by {
                    assert(unique_keys(entries[i].0) && unique_keys(entries[i].1));
                    lemma_expansion_keeps_keys_unique(entries[i].1, blocks);
                }
                assert forall|i: int, j: int| 0 <= i < j < out.len() implies (#[trigger] out[i]).0
                    != (#[trigger] out[j]).0 by {
                    assert(entries[i].0 != entries[j].0);
                }
            },
            _ => {},
        }
    }
}

/// Workflows without references come out of the expansion as they went in:
/// the same names, the same order, the same content.
pub proof fn lemma_plain_workflows_unchanged(
    workflows: Seq<(Seq<char>, Node)>,
    blocks: Map<Seq<char>, Node>,
)
    requires
        forall|i: int| 0 <= i < workflows.len() ==> plain((#[trigger] workflows[i]).1),
    ensures
        forall|i: int|
            0 <= i < workflows.len() ==> unknown((#[trigger] workflows[i]).1, blocks).len() == 0,
        resolve_all(workflows, blocks) == workflows,
{
    assert forall|i: int| 0 <= i < workflows.len() implies unknown(
        (#[trigger] workflows[i]).1,
        blocks,
    ).len() == 0 && resolve(workflows[i].1, blocks) == workflows[i].1 by {
        lemma_plain_expands_to_itself(workflows[i].1, blocks);
    }
    assert(resolve_all(workflows, blocks) =~= workflows);
}

} // verus!
