//! From the files of a templates directory to the documents they hold.

use crate::names::{document_name, is_document, stem};
use crate::store::{has_name, lemma_position, put, Documents, TemplatesData};
use crate::value::{Node, Value};
use vstd::prelude::*;

verus! {

/// The files of a directory as plain data: the name and the parsed content of
/// each, in the order of the listing.
pub open spec fn sources(files: Seq<(String, Value)>) -> Seq<(Seq<char>, Node)> {
    Seq::new(files.len(), |i: int| (files[i].0@, files[i].1@))
}

/// The documents that a directory holds. Each file with the extension `yaml`
/// gives one, named by the file's stem; other files are passed over. Of two
/// files with the same stem the later one gives the content.
pub open spec fn loaded(files: Seq<(Seq<char>, Node)>) -> Seq<(Seq<char>, Node)>
    decreases files.len(),
{
    if files.len() == 0 {
        Seq::empty()
    } else {
        let before = loaded(files.drop_last());
        let file = files.last();
        if is_document(file.0) {
            put(before, stem(file.0), file.1)
        } else {
            before
        }
    }
}

/// Every document has a name that is not empty.
pub open spec fn named(entries: Seq<(Seq<char>, Node)>) -> bool {
    forall|i: int| 0 <= i < entries.len() ==> (#[trigger] entries[i]).0.len() > 0
}

/// Binding a name that is not empty keeps every name not empty.
pub proof fn lemma_put_keeps_named(entries: Seq<(Seq<char>, Node)>, name: Seq<char>, node: Node)
    requires
        named(entries),
        name.len() > 0,
    ensures
        named(put(entries, name, node)),
{
    if has_name(entries, name) {
        lemma_position(entries, name);
    }
}

/// Collects the documents among `files`, the name and parsed content of each
/// file of a directory.
pub fn load_yamls(files: &Vec<(String, Value)>) -> (r: Documents)
    ensures
        r@ == loaded(sources(files@)),
        named(r@),
{
    let ghost all = sources(files@);
    let mut values = Documents::new();
    let mut i: usize = 0;
    assert(all.take(0) =~= Seq::empty());
    while i < files.len()
        invariant
            i <= files@.len(),
            all == sources(files@),
            values@ == loaded(all.take(i as int)),
            named(values@),
        decreases files@.len() - i,
    {
        proof {
            assert(all.take(i + 1).drop_last() =~= all.take(i as int));
            assert(all.take(i + 1).last() == (files@[i as int].0@, files@[i as int].1@));
        }
        if let Some(name) = document_name(files[i].0.as_str()) {
            proof {
                lemma_put_keeps_named(values@, name@, files@[i as int].1@);
            }
            values.insert(name, files[i].1.clone());
        }
        i += 1;
    }
    assert(all.take(files@.len() as int) =~= all);
    values
}

/// Collects the templates of one run: the workflows among the files of the
/// templates directory, the blocks among those of its blocks directory.
pub fn load_templates_data(
    workflow_files: &Vec<(String, Value)>,
    block_files: &Vec<(String, Value)>,
) -> (r: TemplatesData)
    ensures
        r.workflows@ == loaded(sources(workflow_files@)),
        r.blocks@ == loaded(sources(block_files@)),
        named(r.workflows@),
        named(r.blocks@),
{
    let workflows = load_yamls(workflow_files);
    let blocks = load_yamls(block_files);
    TemplatesData { workflows, blocks }
}

} // verus!
