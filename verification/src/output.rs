//! The output directory: what it holds, what it should hold, and how the two
//! are compared.

use crate::names::{
    file_name_of, file_stem, lemma_file_name_injective, lemma_file_name_round_trip, stem,
    workflow_file_name,
};
use crate::store::{distinct_names, has_name, lemma_position, position, Documents};
use crate::value::{Node, Value};
use vstd::prelude::*;

verus! {

/// A file of the output directory.
#[derive(Debug)]
pub struct OutputFile {
    /// The name of the file within the directory.
    pub file_name: String,
    /// The document that the file holds; `None` where it could not be read as one.
    pub document: Option<Value>,
}

impl View for OutputFile {
    type V = (Seq<char>, Option<Node>);

    open spec fn view(&self) -> (Seq<char>, Option<Node>) {
        (
            self.file_name@,
            match self.document {
                Some(value) => Some(value@),
                None => None,
            },
        )
    }
}

/// The files of a directory as plain data, in the order of the listing.
pub open spec fn listing(files: Seq<OutputFile>) -> Seq<(Seq<char>, Option<Node>)> {
    Seq::new(files.len(), |i: int| files[i]@)
}

/// A way in which the output directory differs from the expanded workflows.
/// Each carries the name of the file concerned.
pub enum Drift {
    /// The file of a workflow is missing.
    NotExists(Seq<char>),
    /// The file of a workflow cannot be read as a document.
    Unreadable(Seq<char>),
    /// The file of a workflow holds another document than the expansion.
    Outdated(Seq<char>),
    /// The file belongs to no workflow.
    ShouldNotExist(Seq<char>),
}

/// The output directory is not what the templates expand to.
#[derive(Debug)]
pub enum CompareError {
    /// The file of a workflow is missing.
    NotExists(String),
    /// The file of a workflow cannot be read as a document.
    Unreadable(String),
    /// The file of a workflow holds another document than the expansion.
    Outdated(String),
    /// The file belongs to no workflow.
    ShouldNotExist(String),
}

impl View for CompareError {
    type V = Drift;

    open spec fn view(&self) -> Drift {
        match self {
            CompareError::NotExists(file) => Drift::NotExists(file@),
            CompareError::Unreadable(file) => Drift::Unreadable(file@),
            CompareError::Outdated(file) => Drift::Outdated(file@),
            CompareError::ShouldNotExist(file) => Drift::ShouldNotExist(file@),
        }
    }
}

impl CompareError {
    /// The name of the file that the finding is about.
    pub fn file_name(&self) -> (r: &String)
        ensures
            self@ == Drift::NotExists(r@) || self@ == Drift::Unreadable(r@) || self@
                == Drift::Outdated(r@) || self@ == Drift::ShouldNotExist(r@),
    {
        match self {
            CompareError::NotExists(file) => file,
            CompareError::Unreadable(file) => file,
            CompareError::Outdated(file) => file,
            CompareError::ShouldNotExist(file) => file,
        }
    }

    /// The finding in words, about the file shown as `path`.
    pub fn message(&self, path: &str) -> (r: String)
        ensures
            r@ == "File "@ + path@ + match self@ {
                Drift::NotExists(_) => " not exists"@,
                Drift::Unreadable(_) => " is not readable"@,
                Drift::Outdated(_) => " is outdated"@,
                Drift::ShouldNotExist(_) => " should not exist"@,
            },
    {
        let subject = String::from_str("File ").concat(path);
        match self {
            CompareError::NotExists(_) => subject.concat(" not exists"),
            CompareError::Unreadable(_) => subject.concat(" is not readable"),
            CompareError::Outdated(_) => subject.concat(" is outdated"),
            CompareError::ShouldNotExist(_) => subject.concat(" should not exist"),
        }
    }
}

/// What is wrong with the file of the workflow `name`, which expands to
/// `node`: nothing, where the first file of that name holds `node`.
pub open spec fn drift_of(
    files: Seq<(Seq<char>, Option<Node>)>,
    name: Seq<char>,
    node: Node,
) -> Option<Drift> {
    let file = file_name_of(name);
    if !has_name(files, file) {
        Some(Drift::NotExists(file))
    } else {
        match files[position(files, file)].1 {
            None => Some(Drift::Unreadable(file)),
            Some(found) => if found == node {
                None
            } else {
                Some(Drift::Outdated(file))
            },
        }
    }
}

/// The first thing wrong with the files of the workflows from position `from` on.
pub open spec fn first_drift(
    expanded: Seq<(Seq<char>, Node)>,
    files: Seq<(Seq<char>, Option<Node>)>,
    from: int,
) -> Option<Drift>
    decreases expanded.len() - from,
{
    if 0 <= from < expanded.len() {
        match drift_of(files, expanded[from].0, expanded[from].1) {
            Some(drift) => Some(drift),
            None => first_drift(expanded, files, from + 1),
        }
    } else {
        None
    }
}

/// Whether the file called `file_name` belongs to no workflow.
pub open spec fn stray(expanded: Seq<(Seq<char>, Node)>, file_name: Seq<char>) -> bool {
    !has_name(expanded, stem(file_name))
}

/// The first file from position `from` on that belongs to no workflow.
pub open spec fn first_stray(
    expanded: Seq<(Seq<char>, Node)>,
    files: Seq<(Seq<char>, Option<Node>)>,
    from: int,
) -> Option<Drift>
    decreases files.len() - from,
{
    if 0 <= from < files.len() {
        if stray(expanded, files[from].0) {
            Some(Drift::ShouldNotExist(files[from].0))
        } else {
            first_stray(expanded, files, from + 1)
        }
    } else {
        None
    }
}

/// How the comparison ends: with the first workflow, in their order, whose
/// file is missing, unreadable or outdated; where there is none, with the
/// first file, in the order of the listing, that belongs to no workflow;
/// where there is none either, well.
pub open spec fn outcome(
    expanded: Seq<(Seq<char>, Node)>,
    files: Seq<(Seq<char>, Option<Node>)>,
) -> Result<(), Drift> {
    match first_drift(expanded, files, 0) {
        Some(drift) => Err(drift),
        None => match first_stray(expanded, files, 0) {
            Some(drift) => Err(drift),
            None => Ok(()),
        },
    }
}

/// The files that hold exactly the expanded workflows, one each, in their order.
pub open spec fn written(expanded: Seq<(Seq<char>, Node)>) -> Seq<(Seq<char>, Option<Node>)> {
    Seq::new(expanded.len(), |i: int| (file_name_of(expanded[i].0), Some(expanded[i].1)))
}

/// The current directory is not the root of a repository.
#[derive(Debug)]
pub struct NotRepositoryRoot;

impl NotRepositoryRoot {
    /// The failure in words, about the output directory shown as `output_dir`.
    pub fn message(&self, output_dir: &str) -> (r: String)
        ensures
            r@ == "It seems that current dir is not repository root: "@ + output_dir@
                + " directory missing"@,
    {
        String::from_str("It seems that current dir is not repository root: ").concat(
            output_dir,
        ).concat(" directory missing")
    }
}

/// Checks that the run started where the output directory is.
pub fn verify_current_dir(output_dir_exists: bool) -> (r: Result<(), NotRepositoryRoot>)
    ensures
        r is Ok <==> output_dir_exists,
{
    if !output_dir_exists {
        return Err(NotRepositoryRoot);
    }
    Ok(())
}

/// The position of the first file called `file_name`.
fn find_file(files: &Vec<OutputFile>, file_name: &String) -> (r: Option<usize>)
    ensures
        match r {
            Some(i) => has_name(listing(files@), file_name@) && i == position(
                listing(files@),
                file_name@,
            ) && i < files@.len(),
            None => !has_name(listing(files@), file_name@),
        },
{
    let mut i: usize = 0;
    while i < files.len()
        invariant
            i <= files@.len(),
            forall|j: int| 0 <= j < i ==> (#[trigger] listing(files@)[j]).0 != file_name@,
        decreases files@.len() - i,
    {
        if files[i].file_name == *file_name {
            proof {
                assert(listing(files@)[i as int].0 == file_name@);
                lemma_position(listing(files@), file_name@);
            }
            return Some(i);
        }
        i += 1;
    }
    assert(!has_name(listing(files@), file_name@));
    None
}

/// Compares the output directory with the expanded workflows.
///
/// Each workflow must have its file, and the file must hold the expansion;
/// no other file may be there. The first difference found ends the
/// comparison: see `outcome`.
pub fn compare(expanded: &Documents, files: &Vec<OutputFile>) -> (r: Result<(), CompareError>)
    ensures
        match r {
            Ok(()) => outcome(expanded@, listing(files@)) == Ok::<(), Drift>(()),
            Err(e) => outcome(expanded@, listing(files@)) == Err::<(), Drift>(e@),
        },
{
    let ghost docs = expanded@;
    let ghost held = listing(files@);
    let mut i: usize = 0;
    while i < expanded.len()
        invariant
            i <= docs.len(),
            docs == expanded@,
            held == listing(files@),
            first_drift(docs, held, 0) == first_drift(docs, held, i as int),
        decreases docs.len() - i,
    {
        let file = workflow_file_name(expanded.name_at(i).as_str());
        match find_file(files, &file) {
            None => {
                return Err(CompareError::NotExists(file));
            },
            Some(at) => {
                assert(held[at as int] == files@[at as int]@);
                match &files[at].document {
                    None => {
                        return Err(CompareError::Unreadable(file));
                    },
                    Some(found) => {
                        if !(*found == *expanded.value_at(i)) {
                            return Err(CompareError::Outdated(file));
                        }
                    },
                }
            },
        }
        i += 1;
    }
    let mut j: usize = 0;
    while j < files.len()
        invariant
            j <= held.len(),
            docs == expanded@,
            held == listing(files@),
            first_drift(docs, held, 0) is None,
            first_stray(docs, held, 0) == first_stray(docs, held, j as int),
        decreases held.len() - j,
    {
        assert(held[j as int] == files@[j as int]@);
        let name = file_stem(files[j].file_name.as_str());
        if !expanded.contains_key(name.as_str()) {
            return Err(CompareError::ShouldNotExist(files[j].file_name.clone()));
        }
        j += 1;
    }
    Ok(())
}

/// The files that modify mode writes: one for each workflow, in their order,
/// named after the workflow and holding its expansion.
pub fn workflow_files(expanded: &Documents) -> (r: Vec<OutputFile>)
    ensures
        listing(r@) == written(expanded@),
{
    let mut out: Vec<OutputFile> = Vec::new();
    let mut i: usize = 0;
    while i < expanded.len()
        invariant
            i <= expanded@.len(),
            out@.len() == i,
            forall|j: int| 0 <= j < i ==> (#[trigger] out@[j])@ == written(expanded@)[j],
        decreases expanded@.len() - i,
    {
        out.push(
            OutputFile {
                file_name: workflow_file_name(expanded.name_at(i).as_str()),
                document: Some(expanded.value_at(i).clone()),
            },
        );
        i += 1;
    }
    assert(listing(out@) =~= written(expanded@));
    out
}

/// From position `from` up to `to`, nothing is wrong with the workflows' files:
/// then what is first wrong from `from` on is what is first wrong from `to` on.
pub proof fn lemma_no_drift_before(
    expanded: Seq<(Seq<char>, Node)>,
    files: Seq<(Seq<char>, Option<Node>)>,
    from: int,
    to: int,
)
    requires
        0 <= from <= to <= expanded.len(),
        forall|i: int|
            from <= i < to ==> drift_of(files, (#[trigger] expanded[i]).0, expanded[i].1) is None,
    ensures
        first_drift(expanded, files, from) == first_drift(expanded, files, to),
    decreases to - from,
{
    if from < to {
        assert(drift_of(files, expanded[from].0, expanded[from].1) is None);
        lemma_no_drift_before(expanded, files, from + 1, to);
    }
}

/// From position `from` up to `to`, every file belongs to a workflow: then the
/// first stray file from `from` on is the first from `to` on.
pub proof fn lemma_no_stray_before(
    expanded: Seq<(Seq<char>, Node)>,
    files: Seq<(Seq<char>, Option<Node>)>,
    from: int,
    to: int,
)
    requires
        0 <= from <= to <= files.len(),
        forall|j: int| from <= j < to ==> !stray(expanded, (#[trigger] files[j]).0),
    ensures
        first_stray(expanded, files, from) == first_stray(expanded, files, to),
    decreases to - from,
{
    if from < to {
        assert(!stray(expanded, files[from].0));
        lemma_no_stray_before(expanded, files, from + 1, to);
    }
}

/// A directory that holds every workflow's expansion under the workflow's
/// file name, and no file that belongs to no workflow, passes the comparison.
pub proof fn lemma_matching_output_passes(
    expanded: Seq<(Seq<char>, Node)>,
    files: Seq<(Seq<char>, Option<Node>)>,
)
    requires
        forall|i: int|
            0 <= i < expanded.len() ==> drift_of(files, (#[trigger] expanded[i]).0, expanded[i].1)
                is None,
        forall|j: int| 0 <= j < files.len() ==> !stray(expanded, (#[trigger] files[j]).0),
    ensures
        outcome(expanded, files) == Ok::<(), Drift>(()),
{
    lemma_no_drift_before(expanded, files, 0, expanded.len() as int);
    lemma_no_stray_before(expanded, files, 0, files.len() as int);
}

/// Where the file of workflow `k` holds another document than the workflow's
/// expansion, and the files of the workflows before it are in order, the
/// comparison fails and reports that file as outdated.
pub proof fn lemma_changed_document_is_outdated(
    expanded: Seq<(Seq<char>, Node)>,
    files: Seq<(Seq<char>, Option<Node>)>,
    k: int,
)
    requires
        0 <= k < expanded.len(),
        forall|i: int|
            0 <= i < k ==> drift_of(files, (#[trigger] expanded[i]).0, expanded[i].1) is None,
        has_name(files, file_name_of(expanded[k].0)),
        files[position(files, file_name_of(expanded[k].0))].1 matches Some(found) && found
            != expanded[k].1,
    ensures
        outcome(expanded, files) == Err::<(), Drift>(
            Drift::Outdated(file_name_of(expanded[k].0)),
        ),
{
    lemma_no_drift_before(expanded, files, 0, k);
}

/// Where the file of workflow `k` is not in the directory, and the files of
/// the workflows before it are in order, the comparison fails and reports
/// that file as missing.
pub proof fn lemma_missing_file_is_reported(
    expanded: Seq<(Seq<char>, Node)>,
    files: Seq<(Seq<char>, Option<Node>)>,
    k: int,
)
    requires
        0 <= k < expanded.len(),
        forall|i: int|
            0 <= i < k ==> drift_of(files, (#[trigger] expanded[i]).0, expanded[i].1) is None,
        !has_name(files, file_name_of(expanded[k].0)),
    ensures
        outcome(expanded, files) == Err::<(), Drift>(
            Drift::NotExists(file_name_of(expanded[k].0)),
        ),
{
    lemma_no_drift_before(expanded, files, 0, k);
}

/// Where every workflow's file is in order and file `k` is the first that
/// belongs to no workflow, the comparison fails and reports that file as one
/// that should not exist.
pub proof fn lemma_extra_file_is_refused(
    expanded: Seq<(Seq<char>, Node)>,
    files: Seq<(Seq<char>, Option<Node>)>,
    k: int,
)
    requires
        forall|i: int|
            0 <= i < expanded.len() ==> drift_of(files, (#[trigger] expanded[i]).0, expanded[i].1)
                is None,
        0 <= k < files.len(),
        forall|j: int| 0 <= j < k ==> !stray(expanded, (#[trigger] files[j]).0),
        stray(expanded, files[k].0),
    ensures
        outcome(expanded, files) == Err::<(), Drift>(Drift::ShouldNotExist(files[k].0)),
{
    lemma_no_drift_before(expanded, files, 0, expanded.len() as int);
    lemma_no_stray_before(expanded, files, 0, k);
}

/// What modify mode writes passes the comparison that check mode makes, for
/// workflows whose names are not empty.
pub proof fn lemma_written_output_passes(expanded: Seq<(Seq<char>, Node)>)
    requires
        distinct_names(expanded),
        forall|i: int| 0 <= i < expanded.len() ==> (#[trigger] expanded[i]).0.len() > 0,
    ensures
        outcome(expanded, written(expanded)) == Ok::<(), Drift>(()),
{
    let files = written(expanded);
    assert forall|i: int| 0 <= i < expanded.len() implies drift_of(
        files,
        (#[trigger] expanded[i]).0,
        expanded[i].1,
    ) is None by {
        let file = file_name_of(expanded[i].0);
        assert(files[i].0 == file);
        lemma_position(files, file);
        let at = position(files, file);
        lemma_file_name_injective(expanded[at].0, expanded[i].0);
        assert(at == i);
    }
    assert forall|j: int| 0 <= j < files.len() implies !stray(expanded, (#[trigger] files[j]).0) by {
        lemma_file_name_round_trip(expanded[j].0);
        assert(expanded[j].0 == stem(files[j].0));
    }
    lemma_matching_output_passes(expanded, files);
}

} // verus!
