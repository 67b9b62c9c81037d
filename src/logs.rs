use vstd::prelude::*;
use vstd::string::StrSliceExecFns;
use crate::error::{ProgramError, error_message};

verus! {

/// An entry found by listing a job directory.
pub struct FileEntry {
    pub name: String,
    pub path: String,
    pub is_file: bool,
}

/// The position of the last `.` among the first `i` characters of `n`, or -1.
pub open spec fn last_dot_before(n: Seq<char>, i: int) -> int
    decreases i,
{
    if i <= 0 {
        -1
    } else if n[i - 1] == '.' {
        i - 1
    } else {
        last_dot_before(n, i - 1)
    }
}

/// The extension of a file name: what follows its last `.`, where that dot is
/// not the first character; a name without such a dot, and `..`, have none.
pub open spec fn extension_of(n: Seq<char>) -> Option<Seq<char>> {
    let d = last_dot_before(n, n.len() as int);
    if n == ".."@ || d <= 0 {
        None
    } else {
        Some(n.subrange(d + 1, n.len() as int))
    }
}

/// The extension of the file name `name`.
pub fn extension(name: &String) -> (r: Option<String>)
    ensures
        r is Some <==> extension_of(name@) is Some,
        r is Some ==> r->Some_0@ == extension_of(name@)->Some_0,
{
    let dots = String::from_str("..");
    proof {
        reveal_strlit("..");
    }
    if *name == dots {
        return None;
    }
    assert(name@ != ".."@);
    let s = name.as_str();
    let n = s.unicode_len();
    let mut i: usize = n;
    while i > 0
        invariant
            n == name@.len(),
            s@ == name@,
            name@ != ".."@,
            0 <= i <= n,
            last_dot_before(name@, n as int) == last_dot_before(name@, i as int),
        decreases i,
    {
        if s.get_char(i - 1) == '.' {
            if i - 1 == 0 {
                return None;
            }
            let ext = s.substring_char(i, n);
            return Some(String::from_str(ext));
        }
        i = i - 1;
    }
    None
}

/// The entry is a regular file whose extension is exactly `ending`.
pub open spec fn is_log(e: FileEntry, ending: Seq<char>) -> bool {
    e.is_file && extension_of(e.name@) == Some(ending)
}

/// Resolves the log of a job directory: the first regular file of the
/// listing of `dir` whose extension is `ending`. A directory that could not be
/// listed (`None`) and one without such a file both give `LogNotFound`.
pub fn get_log_pathbuf(dir: &String, listing: &Option<Vec<FileEntry>>, ending: &String) -> (r:
    Result<String, ProgramError>)
    ensures
        r is Ok <==> (listing is Some && exists|i: int|
            0 <= i < listing->Some_0@.len() && is_log(#[trigger] listing->Some_0@[i], ending@)),
        r is Ok ==> exists|i: int|
            0 <= i < listing->Some_0@.len() && is_log(listing->Some_0@[i], ending@)
                && r->Ok_0@ == listing->Some_0@[i].path@ && forall|j: int|
                0 <= j < i ==> !is_log(#[trigger] listing->Some_0@[j], ending@),
        r is Err ==> r->Err_0 is LogNotFound && r->Err_0->dir@ == dir@ && r->Err_0->ending@
            == ending@,
{
    if let Some(entries) = listing {
        let n = entries.len();
        let mut i: usize = 0;
        while i < n
            invariant
                n == entries.len(),
                0 <= i <= n,
                *listing == Some(*entries),
                forall|j: int| 0 <= j < i ==> !is_log(#[trigger] entries@[j], ending@),
            decreases n - i,
        {
            let e = &entries[i];
            if e.is_file {
                match extension(&e.name) {
                    Some(x) => {
                        if x == *ending {
                            assert(is_log(listing->Some_0@[i as int], ending@));
                            return Ok(e.path.clone());
                        }
                    },
                    None => {},
                }
            }
            i = i + 1;
        }
    }
    Err(ProgramError::LogNotFound { dir: dir.clone(), ending: ending.clone() })
}

/// The text displayed for a job's log: the error's message where the log
/// could not be resolved, a fixed notice where its content could not be read,
/// and the content itself otherwise. It never fails.
pub fn get_log_content_or_error_msg(log: &Result<String, ProgramError>, content: Option<String>) -> (r:
    String)
    ensures
        match *log {
            Err(e) => r@ == error_message(e),
            Ok(_) => match content {
                Some(c) => r@ == c@,
                None => r@ == "Could not read log."@,
            },
        },
{
    match log {
        Err(e) => e.message(),
        Ok(_) => match content {
            Some(c) => c,
            None => String::from_str("Could not read log."),
        },
    }
}

} // verus!
