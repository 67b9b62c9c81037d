use vstd::prelude::*;
use crate::error::ProgramError;
use crate::index::{JobIndex, map_of, keys_unique, lemma_map_of_push, lemma_map_of_len};

verus! {

/// A subdirectory found by listing a directory: its base name and its full path.
pub struct DirEntry {
    pub name: String,
    pub path: String,
}

impl View for DirEntry {
    type V = (Seq<char>, Seq<char>);

    open spec fn view(&self) -> (Seq<char>, Seq<char>) {
        (self.name@, self.path@)
    }
}

/// What was found at the metadata subdirectory of a time directory.
pub enum MetaDir {
    /// There is no such subdirectory.
    Absent,
    /// It exists but could not be listed.
    Unreadable,
    /// Its subdirectories: one per job.
    Listed(Vec<DirEntry>),
}

/// A time-level directory and its metadata subdirectory.
pub struct TimeDir {
    pub path: String,
    pub meta: MetaDir,
}

/// A date-level directory and its subdirectories (`None`: it could not be listed).
pub struct DateDir {
    pub path: String,
    pub times: Option<Vec<TimeDir>>,
}

/// The root of the job tree and its subdirectories (`None`: it could not be listed).
pub struct RootDir {
    pub path: String,
    pub dates: Option<Vec<DateDir>>,
}

/// The name of the metadata subdirectory of a time directory.
pub open spec fn meta_name() -> Seq<char> {
    ".submitit"@
}

/// The path of the metadata subdirectory of the time directory `time`.
pub open spec fn meta_path(time: Seq<char>) -> Seq<char> {
    time + "/"@ + meta_name()
}

/// The path of the metadata subdirectory of the time directory at `time`.
pub fn metadata_dir(time: &String) -> (r: String)
    ensures
        r@ == meta_path(time@),
{
    let mut r = time.clone();
    r.append("/");
    r.append(".submitit");
    r
}

/// The jobs of a time directory, in listing order.
pub open spec fn time_jobs(t: TimeDir) -> Seq<(Seq<char>, Seq<char>)> {
    match t.meta {
        MetaDir::Listed(v) => v@.map_values(|e: DirEntry| e@),
        _ => Seq::empty(),
    }
}

/// The directory that could not be listed in a time directory, if any.
pub open spec fn time_error(t: TimeDir) -> Option<Seq<char>> {
    match t.meta {
        MetaDir::Unreadable => Some(meta_path(t.path@)),
        _ => None,
    }
}

/// The jobs of a sequence of time directories, in walk order.
pub open spec fn times_jobs(ts: Seq<TimeDir>) -> Seq<(Seq<char>, Seq<char>)>
    decreases ts.len(),
{
    if ts.len() == 0 {
        Seq::empty()
    } else {
        times_jobs(ts.drop_last()) + time_jobs(ts.last())
    }
}

/// The first directory of a sequence of time directories that could not be listed.
pub open spec fn times_error(ts: Seq<TimeDir>) -> Option<Seq<char>>
    decreases ts.len(),
{
    if ts.len() == 0 {
        None
    } else {
        match times_error(ts.drop_last()) {
            Some(p) => Some(p),
            None => time_error(ts.last()),
        }
    }
}

pub open spec fn date_jobs(d: DateDir) -> Seq<(Seq<char>, Seq<char>)> {
    match d.times {
        Some(v) => times_jobs(v@),
        None => Seq::empty(),
    }
}

pub open spec fn date_error(d: DateDir) -> Option<Seq<char>> {
    match d.times {
        Some(v) => times_error(v@),
        None => Some(d.path@),
    }
}

pub open spec fn dates_jobs(ds: Seq<DateDir>) -> Seq<(Seq<char>, Seq<char>)>
    decreases ds.len(),
{
    if ds.len() == 0 {
        Seq::empty()
    } else {
        dates_jobs(ds.drop_last()) + date_jobs(ds.last())
    }
}

pub open spec fn dates_error(ds: Seq<DateDir>) -> Option<Seq<char>>
    decreases ds.len(),
{
    if ds.len() == 0 {
        None
    } else {
        match dates_error(ds.drop_last()) {
            Some(p) => Some(p),
            None => date_error(ds.last()),
        }
    }
}

/// Every job directory of the tree, as (identifier, path), in walk order.
pub open spec fn tree_jobs(r: RootDir) -> Seq<(Seq<char>, Seq<char>)> {
    match r.dates {
        Some(v) => dates_jobs(v@),
        None => Seq::empty(),
    }
}

/// The first directory of the walk that could not be listed, if any.
pub open spec fn tree_error(r: RootDir) -> Option<Seq<char>> {
    match r.dates {
        Some(v) => dates_error(v@),
        None => Some(r.path@),
    }
}

proof fn lemma_take_last<T>(s: Seq<T>, i: int)
    requires
        0 <= i < s.len(),
    ensures
        s.take(i + 1).drop_last() == s.take(i),
        s.take(i + 1).last() == s[i],
{
    assert(s.take(i + 1).drop_last() =~= s.take(i));
}

proof fn lemma_times_error_prefix(ts: Seq<TimeDir>, m: int)
    requires
        0 <= m <= ts.len(),
        times_error(ts.take(m)) is Some,
    ensures
        times_error(ts) == times_error(ts.take(m)),
    decreases ts.len(),
{
    if m < ts.len() {
        assert(ts.drop_last().take(m) =~= ts.take(m));
        lemma_times_error_prefix(ts.drop_last(), m);
    } else {
        assert(ts.take(m) =~= ts);
    }
}

proof fn lemma_dates_error_prefix(ds: Seq<DateDir>, m: int)
    requires
        0 <= m <= ds.len(),
        dates_error(ds.take(m)) is Some,
    ensures
        dates_error(ds) == dates_error(ds.take(m)),
    decreases ds.len(),
{
    if m < ds.len() {
        assert(ds.drop_last().take(m) =~= ds.take(m));
        lemma_dates_error_prefix(ds.drop_last(), m);
    } else {
        assert(ds.take(m) =~= ds);
    }
}

/// When no two job directories of a tree share a name, the index built from it
/// holds exactly as many entries as the tree has job directories, however many
/// date or time directories are empty or lack the metadata subdirectory.
pub proof fn lemma_index_counts_every_job(root: RootDir)
    requires
        keys_unique(tree_jobs(root)),
    ensures
        map_of(tree_jobs(root)).dom().finite(),
        map_of(tree_jobs(root)).len() == tree_jobs(root).len(),
{
    lemma_map_of_len(tree_jobs(root));
}

/// A time directory without the metadata subdirectory, wherever it stands among
/// the time directories of a date, adds no job and no error to that date.
pub proof fn lemma_absent_metadata_ignored(ts: Seq<TimeDir>, i: int, t: TimeDir)
    requires
        t.meta is Absent,
        0 <= i <= ts.len(),
    ensures
        times_jobs(ts.insert(i, t)) == times_jobs(ts),
        times_error(ts.insert(i, t)) == times_error(ts),
    decreases ts.len(),
{
    let u = ts.insert(i, t);
    if i == ts.len() {
        assert(u.drop_last() =~= ts);
        assert(times_jobs(u) =~= times_jobs(ts));
    } else {
        let d = ts.drop_last();
        assert(u.drop_last() =~= d.insert(i, t));
        assert(u.last() == ts.last());
        lemma_absent_metadata_ignored(d, i, t);
    }
}

proof fn lemma_dates_same_contribution(ds: Seq<DateDir>, k: int, x: DateDir)
    requires
        0 <= k < ds.len(),
        date_jobs(x) == date_jobs(ds[k]),
        date_error(x) == date_error(ds[k]),
    ensures
        dates_jobs(ds.update(k, x)) == dates_jobs(ds),
        dates_error(ds.update(k, x)) == dates_error(ds),
    decreases ds.len(),
{
    let u = ds.update(k, x);
    if k == ds.len() - 1 {
        assert(u.drop_last() =~= ds.drop_last());
    } else {
        assert(u.drop_last() =~= ds.drop_last().update(k, x));
        lemma_dates_same_contribution(ds.drop_last(), k, x);
    }
}

/// Adding a time directory without the metadata subdirectory to any date
/// directory of a tree changes neither the jobs that the walk finds nor its
/// error: the index built from the tree stays the same.
pub proof fn lemma_absent_metadata_ignored_in_tree(
    root: RootDir,
    dates: Seq<DateDir>,
    k: int,
    times: Seq<TimeDir>,
    i: int,
    t: TimeDir,
    grown: RootDir,
)
    requires
        root.dates is Some,
        root.dates->Some_0@ == dates,
        0 <= k < dates.len(),
        dates[k].times is Some,
        dates[k].times->Some_0@ == times,
        0 <= i <= times.len(),
        t.meta is Absent,
        grown.path == root.path,
        grown.dates is Some,
        grown.dates->Some_0@.len() == dates.len(),
        forall|j: int| 0 <= j < dates.len() && j != k ==> grown.dates->Some_0@[j] == dates[j],
        grown.dates->Some_0@[k].path == dates[k].path,
        grown.dates->Some_0@[k].times is Some,
        grown.dates->Some_0@[k].times->Some_0@ == times.insert(i, t),
    ensures
        tree_jobs(grown) == tree_jobs(root),
        tree_error(grown) == tree_error(root),
{
    lemma_absent_metadata_ignored(times, i, t);
    let x = grown.dates->Some_0@[k];
    assert(grown.dates->Some_0@ =~= dates.update(k, x));
    lemma_dates_same_contribution(dates, k, x);
}

/// Builds the index of the jobs of a walked tree: each job directory's name
/// maps to its path, a later directory of the walk replacing an earlier one of
/// the same name. The first directory that could not be listed is the error.
pub fn build_job_map(root: &RootDir) -> (r: Result<JobIndex, ProgramError>)
    ensures
        match r {
            Ok(idx) => tree_error(*root) is None && idx.wf() && idx.view() == map_of(
                tree_jobs(*root),
            ),
            Err(e) => tree_error(*root) is Some && e is FileNotFound && e->path@ == tree_error(
                *root,
            )->Some_0,
        },
{
    let dates = match &root.dates {
        None => {
            return Err(ProgramError::FileNotFound { path: root.path.clone() });
        },
        Some(v) => v,
    };
    let mut idx = JobIndex::new();
    let nd = dates.len();
    let mut i: usize = 0;
    assert(dates@.take(0) =~= Seq::<DateDir>::empty());
    while i < nd
        invariant
            nd == dates.len(),
            0 <= i <= nd,
            root.dates == Some(*dates),
            idx.wf(),
            dates_error(dates@.take(i as int)) is None,
            idx.view() == map_of(dates_jobs(dates@.take(i as int))),
        decreases nd - i,
    {
        proof {
            lemma_take_last(dates@, i as int);
        }
        let date = &dates[i];
        let times = match &date.times {
            None => {
                proof {
                    lemma_dates_error_prefix(dates@, i + 1);
                }
                return Err(ProgramError::FileNotFound { path: date.path.clone() });
            },
            Some(v) => v,
        };
        let ghost before = dates_jobs(dates@.take(i as int));
        let nt = times.len();
        let mut j: usize = 0;
        assert(times@.take(0) =~= Seq::<TimeDir>::empty());
        assert(before + times_jobs(times@.take(0)) =~= before);
        while j < nt
            invariant
                nt == times.len(),
                0 <= j <= nt,
                i < nd,
                nd == dates.len(),
                root.dates == Some(*dates),
                dates_error(dates@.take(i as int)) is None,
                dates_error(dates@.take(i + 1)) == date_error(dates@[i as int]),
                dates@[i as int].times == Some(*times),
                idx.wf(),
                times_error(times@.take(j as int)) is None,
                idx.view() == map_of(before + times_jobs(times@.take(j as int))),
            decreases nt - j,
        {
            proof {
                lemma_take_last(times@, j as int);
            }
            let time = &times[j];
            let ghost before_t = before + times_jobs(times@.take(j as int));
            match &time.meta {
                MetaDir::Absent => {
                    assert(times_jobs(times@.take(j + 1)) =~= times_jobs(times@.take(j as int)));
                },
                MetaDir::Unreadable => {
                    proof {
                        lemma_times_error_prefix(times@, j + 1);
                        lemma_dates_error_prefix(dates@, i + 1);
                    }
                    return Err(ProgramError::FileNotFound { path: metadata_dir(&time.path) });
                },
                MetaDir::Listed(jobs) => {
                    let nj = jobs.len();
                    let mut k: usize = 0;
                    assert(before_t + jobs@.take(0).map_values(|e: DirEntry| e@) =~= before_t);
                    while k < nj
                        invariant
                            nj == jobs.len(),
                            0 <= k <= nj,
                            idx.wf(),
                            idx.view() == map_of(
                                before_t + jobs@.take(k as int).map_values(|e: DirEntry| e@),
                            ),
                        decreases nj - k,
                    {
                        let ghost s = before_t + jobs@.take(k as int).map_values(
                            |e: DirEntry| e@,
                        );
                        let job = &jobs[k];
                        idx.insert(job.name.clone(), job.path.clone());
                        assert(before_t + jobs@.take(k + 1).map_values(|e: DirEntry| e@) =~= s.push(
                            job@,
                        ));
                        proof {
                            lemma_map_of_push(s, job@);
                        }
                        k = k + 1;
                    }
                    assert(jobs@.take(nj as int) =~= jobs@);
                    assert(before + times_jobs(times@.take(j + 1)) =~= before_t + jobs@.map_values(
                        |e: DirEntry| e@,
                    ));
                },
            }
            j = j + 1;
        }
        assert(times@.take(nt as int) =~= times@);
        assert(dates_jobs(dates@.take(i + 1)) =~= before + times_jobs(times@));
        i = i + 1;
    }
    assert(dates@.take(nd as int) =~= dates@);
    Ok(idx)
}

} // verus!
