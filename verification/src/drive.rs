use vstd::prelude::*;
use vstd::string::*;
use crate::errors::{Errors, Res};
use crate::numbers::{decimal, decimal_string};

verus! {

/// The search query for files named `file_name`.
pub fn name_query(file_name: &str) -> (r: String)
    ensures
        r@ == "name = '"@ + file_name@ + "'"@,
{
    String::from_str("name = '").concat(file_name).concat("'")
}

/// The search query for the files in folder `folder_id`.
pub fn parents_query(folder_id: &str) -> (r: String)
    ensures
        r@ == "'"@ + folder_id@ + "' in parents"@,
{
    String::from_str("'").concat(folder_id).concat("' in parents")
}

/// The text of the error given when the storage answered no file list.
pub open spec fn empty_answer_text() -> Seq<char> {
    "Could not get files, response body is empty"@
}

/// What a search for the files named `file_name` gives, from the ids of
/// the files found: the id of the only file found, or the text of the
/// problem.
pub open spec fn single_file_outcome(file_name: Seq<char>, ids: Option<Seq<Option<String>>>) -> Result<Seq<char>, Seq<char>> {
    match ids {
        None => Err(empty_answer_text()),
        Some(ids) => if ids.len() == 0 {
            Err("File '"@ + file_name + "' not found"@)
        } else if ids.len() == 1 {
            match ids[0] {
                Some(id) => Ok(id@),
                None => Err("Field 'id' not found"@),
            }
        } else {
            Err("There are "@ + decimal(ids.len()) + " items found for '"@ + file_name + "'"@)
        },
    }
}

/// The ids of an optional list of ids.
pub open spec fn ids_view(ids: Option<Vec<Option<String>>>) -> Option<Seq<Option<String>>> {
    match ids {
        Some(v) => Some(v@),
        None => None,
    }
}

/// The id of the only file named `file_name`, from the ids of the files
/// that the search found; a `StorageError` when the search found none, or
/// more than one, or the file has no id.
pub fn single_file_id(file_name: &str, ids: Option<Vec<Option<String>>>) -> (r: Res<String>)
    ensures
        match r {
            Ok(id) => single_file_outcome(file_name@, ids_view(ids)) == Ok::<Seq<char>, Seq<char>>(id@),
            Err(Errors::StorageError(m)) => single_file_outcome(file_name@, ids_view(ids)) == Err::<Seq<char>, Seq<char>>(m@),
            Err(_) => false,
        },
{
    let ghost given = ids_view(ids);
    let mut ids = match ids {
        Some(ids) => ids,
        None => {
            return Err(Errors::StorageError(String::from_str("Could not get files, response body is empty")));
        },
    };
    let n = ids.len();
    if n == 0 {
        let msg = String::from_str("File '").concat(file_name).concat("' not found");
        Err(Errors::StorageError(msg))
    } else if n == 1 {
        match ids.pop() {
            Some(Some(id)) => Ok(id),
            _ => Err(Errors::StorageError(String::from_str("Field 'id' not found"))),
        }
    } else {
        let msg = String::from_str("There are ").concat(decimal_string(n as u64).as_str()).concat(
            " items found for '",
        ).concat(file_name).concat("'");
        Err(Errors::StorageError(msg))
    }
}

/// A file of the storage, as far as the choice of the latest dump reads it.
#[derive(Debug)]
pub struct DriveFile {
    pub id: Option<String>,
    pub name: Option<String>,
    /// When the file was created: seconds and nanoseconds since the epoch.
    pub created_time: Option<(i64, u32)>,
}

/// Whether time `a` is after time `b`.
pub open spec fn later(a: (i64, u32), b: (i64, u32)) -> bool {
    a.0 > b.0 || (a.0 == b.0 && a.1 > b.1)
}

/// `b` is the first of the files with the latest creation time.
pub open spec fn first_latest(files: Seq<DriveFile>, b: int) -> bool {
    &&& 0 <= b < files.len()
    &&& forall|j: int| 0 <= j < files.len() ==> !later(files[j].created_time->0, files[b].created_time->0)
    &&& forall|j: int| 0 <= j < b ==> later(files[b].created_time->0, files[j].created_time->0)
}

/// A list of two or more files has a creation time for each file.
pub open spec fn all_dated_if_several(files: Option<Vec<DriveFile>>) -> bool {
    match files {
        Some(fs) => fs.len() >= 2 ==> forall|i: int| 0 <= i < fs.len() ==> (#[trigger] fs@[i]).created_time is Some,
        None => true,
    }
}

fn is_later(a: (i64, u32), b: (i64, u32)) -> (r: bool)
    ensures
        r == later(a, b),
{
    a.0 > b.0 || (a.0 == b.0 && a.1 > b.1)
}

/// The latest file of a listing: the first of the files created last. A
/// `StorageError` when the storage answered no file or no list. Every
/// file of a list of two or more must have a creation time.
pub fn latest_file(files: Option<Vec<DriveFile>>) -> (r: Res<DriveFile>)
    requires
        all_dated_if_several(files),
    ensures
        match files {
            Some(fs) if fs.len() > 0 => exists|b: int| first_latest(fs@, b) && r == Ok::<DriveFile, Errors>(fs@[b]),
            _ => r matches Err(Errors::StorageError(m)) && m@ == empty_answer_text(),
        },
{
    let mut fs = match files {
        Some(fs) => fs,
        None => {
            return Err(Errors::StorageError(String::from_str("Could not get files, response body is empty")));
        },
    };
    let n = fs.len();
    if n == 0 {
        return Err(Errors::StorageError(String::from_str("Could not get files, response body is empty")));
    }
    let ghost orig = fs@;
    let mut best: usize = 0;
    let mut i: usize = 1;
    while i < n
        invariant
            fs@ == orig,
            n == orig.len(),
            n >= 2 ==> forall|q: int| 0 <= q < n ==> (#[trigger] orig[q]).created_time is Some,
            0 <= best < i <= n,
            forall|j: int| 0 <= j < i ==> !later(orig[j].created_time->0, orig[best as int].created_time->0),
            forall|j: int| 0 <= j < best ==> later(orig[best as int].created_time->0, orig[j].created_time->0),
        decreases n - i,
    {
        assert(orig[i as int].created_time is Some && orig[best as int].created_time is Some);
        let ci = fs[i].created_time.unwrap();
        let cb = fs[best].created_time.unwrap();
        if is_later(ci, cb) {
            best = i;
        }
        i = i + 1;
    }
    let chosen = fs.remove(best);
    assert(first_latest(orig, best as int));
    Ok(chosen)
}

/// The text that stands for the id of an uploaded file that the storage
/// did not name.
pub open spec fn undefined_id() -> Seq<char> {
    "undefined"@
}

/// What an upload gives, from the storage's reply: when the reply is not a
/// success, a `StorageError` with `failure`, the text made of the reply;
/// otherwise the id of the new file, or `undefined` when the reply names
/// none.
pub fn upload_outcome(succeeded: bool, failure: String, id: Option<String>) -> (r: Res<String>)
    ensures
        !succeeded ==> r == Err::<String, Errors>(Errors::StorageError(failure)),
        succeeded ==> match id {
            Some(i) => r == Ok::<String, Errors>(i),
            None => r matches Ok(s) && s@ == undefined_id(),
        },
{
    if !succeeded {
        return Err(Errors::StorageError(failure));
    }
    match id {
        Some(i) => Ok(i),
        None => Ok(String::from_str("undefined")),
    }
}

/// The path a downloaded dump is written to: the file's name after
/// `prefix`.
pub fn download_path(prefix: &str, file_name: &str) -> (r: String)
    ensures
        r@ == prefix@ + file_name@,
{
    String::from_str(prefix).concat(file_name)
}

/// The seconds part of a file's creation time.
pub open spec fn created_secs(f: DriveFile) -> int {
    let t = f.created_time->0;
    t.0 as int
}

/// The nanoseconds part of a file's creation time.
pub open spec fn created_nanos(f: DriveFile) -> int {
    let t = f.created_time->0;
    t.1 as int
}

/// The file that `latest_file` picks is the newest: no file was created
/// at a later second, nor at the same second with more nanoseconds; and
/// every file listed before it was created strictly earlier.
pub proof fn law_latest_is_newest(files: Seq<DriveFile>, b: int)
    requires
        first_latest(files, b),
    ensures
        forall|j: int|
            0 <= j < files.len() ==> created_secs(#[trigger] files[j]) < created_secs(files[b]) || (
            created_secs(files[j]) == created_secs(files[b]) && created_nanos(files[j]) <= created_nanos(
                files[b],
            )),
        forall|j: int|
            0 <= j < b ==> created_secs(#[trigger] files[j]) < created_secs(files[b]) || (created_secs(
                files[j],
            ) == created_secs(files[b]) && created_nanos(files[j]) < created_nanos(files[b])),
{
    assert forall|j: int| 0 <= j < files.len() implies created_secs(#[trigger] files[j]) < created_secs(
        files[b],
    ) || (created_secs(files[j]) == created_secs(files[b]) && created_nanos(files[j]) <= created_nanos(
        files[b],
    )) by {
        assert(!later(files[j].created_time->0, files[b].created_time->0));
    }
    assert forall|j: int| 0 <= j < b implies created_secs(#[trigger] files[j]) < created_secs(files[b])
        || (created_secs(files[j]) == created_secs(files[b]) && created_nanos(files[j]) < created_nanos(
        files[b],
    )) by {
        assert(later(files[b].created_time->0, files[j].created_time->0));
    }
}

/// A search succeeds exactly when it found one file and that file has an
/// id, and then it gives that id: two or more files found are always an
/// error.
pub proof fn law_single_file_needs_one_match(file_name: Seq<char>, ids: Option<Seq<Option<String>>>)
    ensures
        (single_file_outcome(file_name, ids) is Ok) == (ids is Some && ids->0.len() == 1 && ids->0[0] is Some),
        single_file_outcome(file_name, ids) is Ok ==> single_file_outcome(file_name, ids)->Ok_0
            == ids->0[0]->0@,
        ids matches Some(s) && s.len() >= 2 ==> single_file_outcome(file_name, ids) is Err,
{
}

} // verus!
