//! How documents are named after their files.

use vstd::prelude::*;

verus! {

/// Position `k` holds the last dot of `name`.
pub open spec fn last_dot(name: Seq<char>, k: int) -> bool {
    &&& 0 <= k < name.len()
    &&& name[k] == '.'
    &&& forall|j: int| k < j < name.len() ==> name[j] != '.'
}

/// Position `k` parts `name` into stem and extension: it holds the last dot,
/// and that dot does not begin the name.
pub open spec fn parts_at(name: Seq<char>, k: int) -> bool {
    k > 0 && last_dot(name, k)
}

/// Whether `name` has an extension.
pub open spec fn has_extension(name: Seq<char>) -> bool {
    exists|k: int| parts_at(name, k)
}

/// The file name without its extension: what stands before the last dot, or
/// the whole name where it has no dot or only the one that begins it.
pub open spec fn stem(name: Seq<char>) -> Seq<char> {
    if has_extension(name) {
        name.take(choose|k: int| parts_at(name, k))
    } else {
        name
    }
}

/// What follows the last dot of `name`, where `name` has an extension.
pub open spec fn extension(name: Seq<char>) -> Option<Seq<char>> {
    if has_extension(name) {
        Some(name.skip((choose|k: int| parts_at(name, k)) + 1))
    } else {
        None
    }
}

/// The name of the file that holds the document called `name`.
pub open spec fn file_name_of(name: Seq<char>) -> Seq<char> {
    name + ".yaml"@
}

/// Whether `file_name` is that of a document: its extension is `yaml`.
pub open spec fn is_document(file_name: Seq<char>) -> bool {
    extension(file_name) == Some("yaml"@)
}

/// A name has at most one last dot.
pub proof fn lemma_last_dot_unique(name: Seq<char>, k: int, l: int)
    requires
        last_dot(name, k),
        last_dot(name, l),
    ensures
        k == l,
{
}

/// Where the last dot stands at `k > 0`, stem and extension are the two sides of it.
pub proof fn lemma_parts(name: Seq<char>, k: int)
    requires
        parts_at(name, k),
    ensures
        has_extension(name),
        stem(name) == name.take(k),
        extension(name) == Some(name.skip(k + 1)),
{
    let c = choose|c: int| parts_at(name, c);
    lemma_last_dot_unique(name, k, c);
}

/// The file of a document leads back to the document: it has the extension
/// `yaml`, and its stem is the document's name.
pub proof fn lemma_file_name_round_trip(name: Seq<char>)
    requires
        name.len() > 0,
    ensures
        is_document(file_name_of(name)),
        stem(file_name_of(name)) == name,
{
    reveal_strlit(".yaml");
    reveal_strlit("yaml");
    let file = file_name_of(name);
    let k = name.len() as int;
    assert(file.len() == k + 5);
    assert(file[k] == '.');
    assert(file[k + 1] == 'y' && file[k + 2] == 'a' && file[k + 3] == 'm' && file[k + 4] == 'l');
    assert(parts_at(file, k));
    lemma_parts(file, k);
    assert(file.take(k) =~= name);
    assert(file.skip(k + 1) =~= "yaml"@);
}

/// Two documents whose files have the same name are the same document.
pub proof fn lemma_file_name_injective(a: Seq<char>, b: Seq<char>)
    requires
        file_name_of(a) == file_name_of(b),
    ensures
        a == b,
{
    let s = ".yaml"@;
    assert((a + s).len() == a.len() + s.len());
    assert((b + s).len() == b.len() + s.len());
    assert(a =~= (a + s).take(a.len() as int));
    assert(b =~= (b + s).take(b.len() as int));
}

/// The position of the last dot of `name`, if it has one.
fn find_last_dot(name: &str) -> (r: Option<usize>)
    ensures
        match r {
            Some(k) => last_dot(name@, k as int),
            None => forall|j: int| 0 <= j < name@.len() ==> name@[j] != '.',
        },
{
    let n = name.unicode_len();
    let mut found: Option<usize> = None;
    let mut i: usize = 0;
    while i < n
        invariant
            i <= n,
            n == name@.len(),
            match found {
                Some(k) => k < i && name@[k as int] == '.' && forall|j: int|
                    k < j < i ==> name@[j] != '.',
                None => forall|j: int| 0 <= j < i ==> name@[j] != '.',
            },
        decreases n - i,
    {
        if name.get_char(i) == '.' {
            found = Some(i);
        }
        i += 1;
    }
    found
}

/// The stem of a file name: the name without its extension.
pub fn file_stem(file_name: &str) -> (r: String)
    ensures
        r@ == stem(file_name@),
{
    match find_last_dot(file_name) {
        Some(k) => {
            if k > 0 {
                proof {
                    lemma_parts(file_name@, k as int);
                }
                String::from_str(file_name.substring_char(0, k))
            } else {
                proof {
                    lemma_no_parts(file_name@, 0);
                }
                String::from_str(file_name)
            }
        },
        None => {
            assert(!has_extension(file_name@));
            String::from_str(file_name)
        },
    }
}

/// A name whose last dot begins it has no extension.
proof fn lemma_no_parts(name: Seq<char>, k: int)
    requires
        last_dot(name, k),
        k == 0,
    ensures
        !has_extension(name),
{
    if has_extension(name) {
        let c = choose|c: int| parts_at(name, c);
        lemma_last_dot_unique(name, k, c);
    }
}

/// The name of the document that the file called `file_name` holds; `None`
/// where the file is no document.
pub fn document_name(file_name: &str) -> (r: Option<String>)
    ensures
        match r {
            Some(name) => is_document(file_name@) && name@ == stem(file_name@) && name@.len() > 0,
            None => !is_document(file_name@),
        },
{
    match find_last_dot(file_name) {
        Some(k) => {
            if k > 0 {
                proof {
                    lemma_parts(file_name@, k as int);
                }
                let n = file_name.unicode_len();
                let ext = String::from_str(file_name.substring_char(k + 1, n));
                if ext == String::from_str("yaml") {
                    Some(String::from_str(file_name.substring_char(0, k)))
                } else {
                    None
                }
            } else {
                proof {
                    lemma_no_parts(file_name@, 0);
                }
                None
            }
        },
        None => {
            assert(!has_extension(file_name@));
            None
        },
    }
}

/// The name of the file that the workflow called `name` is written to.
pub fn workflow_file_name(name: &str) -> (r: String)
    ensures
        r@ == file_name_of(name@),
{
    String::from_str(name).concat(".yaml")
}

} // verus!
