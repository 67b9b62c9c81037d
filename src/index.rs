use vstd::prelude::*;
use crate::error::ProgramError;

verus! {

/// One job of the index: its identifier and its directory.
pub struct JobEntry {
    pub id: String,
    pub dir: String,
}

impl View for JobEntry {
    type V = (Seq<char>, Seq<char>);

    open spec fn view(&self) -> (Seq<char>, Seq<char>) {
        (self.id@, self.dir@)
    }
}

/// The map that a sequence of insertions builds, a later key overwriting an earlier one.
pub open spec fn map_of(s: Seq<(Seq<char>, Seq<char>)>) -> Map<Seq<char>, Seq<char>>
    decreases s.len(),
{
    if s.len() == 0 {
        Map::empty()
    } else {
        map_of(s.drop_last()).insert(s.last().0, s.last().1)
    }
}

/// No two pairs of the sequence share a key.
pub open spec fn keys_unique(s: Seq<(Seq<char>, Seq<char>)>) -> bool {
    forall|i: int, j: int| 0 <= i < j < s.len() ==> s[i].0 != s[j].0
}

pub proof fn lemma_map_of_push(s: Seq<(Seq<char>, Seq<char>)>, x: (Seq<char>, Seq<char>))
    ensures
        map_of(s.push(x)) == map_of(s).insert(x.0, x.1),
{
    assert(s.push(x).drop_last() =~= s);
}

pub proof fn lemma_map_of_dom(s: Seq<(Seq<char>, Seq<char>)>)
    ensures
        map_of(s).dom().finite(),
        forall|k: Seq<char>| #[trigger]
            map_of(s).contains_key(k) <==> exists|i: int| 0 <= i < s.len() && s[i].0 == k,
    decreases s.len(),
{
    if s.len() > 0 {
        lemma_map_of_dom(s.drop_last());
        assert forall|k: Seq<char>| #[trigger]
            map_of(s).contains_key(k) <==> exists|i: int| 0 <= i < s.len() && s[i].0 == k by {
            if map_of(s).contains_key(k) && k != s.last().0 {
                let i = choose|i: int| 0 <= i < s.len() - 1 && s.drop_last()[i].0 == k;
                assert(s[i].0 == k);
            }
            if exists|i: int| 0 <= i < s.len() && s[i].0 == k {
                let i = choose|i: int| 0 <= i < s.len() && s[i].0 == k;
                if i < s.len() - 1 {
                    assert(s.drop_last()[i].0 == k);
                }
            }
        }
    }
}

pub proof fn lemma_map_of_index(s: Seq<(Seq<char>, Seq<char>)>, i: int)
    requires
        keys_unique(s),
        0 <= i < s.len(),
    ensures
        map_of(s).contains_key(s[i].0),
        map_of(s)[s[i].0] == s[i].1,
    decreases s.len(),
{
    if i < s.len() - 1 {
        lemma_map_of_index(s.drop_last(), i);
    }
}

pub proof fn lemma_map_of_len(s: Seq<(Seq<char>, Seq<char>)>)
    requires
        keys_unique(s),
    ensures
        map_of(s).dom().finite(),
        map_of(s).len() == s.len(),
    decreases s.len(),
{
    lemma_map_of_dom(s);
    if s.len() > 0 {
        let t = s.drop_last();
        lemma_map_of_len(t);
        lemma_map_of_dom(t);
        assert(!map_of(t).contains_key(s.last().0)) by {
            if map_of(t).contains_key(s.last().0) {
                let i = choose|i: int| 0 <= i < t.len() && t[i].0 == s.last().0;
                assert(s[i].0 == s[s.len() - 1].0);
            }
        }
    }
}

pub proof fn lemma_map_of_update(s: Seq<(Seq<char>, Seq<char>)>, i: int, v: Seq<char>)
    requires
        keys_unique(s),
        0 <= i < s.len(),
    ensures
        map_of(s.update(i, (s[i].0, v))) == map_of(s).insert(s[i].0, v),
    decreases s.len(),
{
    let u = s.update(i, (s[i].0, v));
    if i == s.len() - 1 {
        assert(u.drop_last() =~= s.drop_last());
        assert(map_of(u) =~= map_of(s).insert(s[i].0, v));
    } else {
        let t = s.drop_last();
        assert(u.drop_last() =~= t.update(i, (t[i].0, v)));
        lemma_map_of_update(t, i, v);
        assert(s.last().0 != s[i].0);
        assert(map_of(u) =~= map_of(s).insert(s[i].0, v));
    }
}

/// The index from job identifier to job directory.
pub struct JobIndex {
    entries: Vec<JobEntry>,
}

impl JobIndex {
    /// The entries, in the order in which their keys were first inserted.
    pub closed spec fn pairs(&self) -> Seq<(Seq<char>, Seq<char>)> {
        self.entries@.map_values(|e: JobEntry| e@)
    }

    pub open spec fn wf(&self) -> bool {
        keys_unique(self.pairs())
    }

    pub open spec fn view(&self) -> Map<Seq<char>, Seq<char>> {
        map_of(self.pairs())
    }

    /// An index with no job.
    pub fn new() -> (r: JobIndex)
        ensures
            r.wf(),
            r.view() == Map::<Seq<char>, Seq<char>>::empty(),
    {
        let r = JobIndex { entries: Vec::new() };
        assert(r.pairs() =~= Seq::<(Seq<char>, Seq<char>)>::empty());
        r
    }

    /// Maps `id` to `dir`, replacing an earlier directory of the same identifier.
    pub fn insert(&mut self, id: String, dir: String)
        requires
            old(self).wf(),
        ensures
            final(self).wf(),
            final(self).view() == old(self).view().insert(id@, dir@),
    {
        let n = self.entries.len();
        let mut i: usize = 0;
        while i < n
            invariant
                n == self.entries.len(),
                0 <= i <= n,
                self == old(self),
                self.wf(),
                forall|j: int| 0 <= j < i ==> self.entries@[j].id@ != id@,
            decreases n - i,
        {
            if self.entries[i].id == id {
                let ghost s = self.pairs();
                proof {
                    lemma_map_of_update(s, i as int, dir@);
                }
                self.entries.set(i, JobEntry { id, dir });
                assert(self.pairs() =~= s.update(i as int, (s[i as int].0, dir@)));
                return;
            }
            i = i + 1;
        }
        let ghost s = self.pairs();
        let e = JobEntry { id, dir };
        let ghost x = e@;
        self.entries.push(e);
        assert(self.pairs() =~= s.push(x));
        proof {
            lemma_map_of_push(s, x);
            assert forall|a: int, b: int| 0 <= a < b < s.push(x).len() implies s.push(x)[a].0
                != s.push(x)[b].0 by {
                if b == s.len() {
                    assert(s[a].0 == self.entries@[a].id@);
                }
            }
        }
    }

    /// The directory of job `id`, if the index holds it.
    pub fn get(&self, id: &String) -> (r: Option<String>)
        requires
            self.wf(),
        ensures
            r is Some <==> self.view().contains_key(id@),
            r is Some ==> r->Some_0@ == self.view()[id@],
    {
        let n = self.entries.len();
        let mut i: usize = 0;
        proof {
            lemma_map_of_dom(self.pairs());
        }
        while i < n
            invariant
                n == self.entries.len(),
                0 <= i <= n,
                self.wf(),
                forall|j: int| 0 <= j < i ==> self.entries@[j].id@ != id@,
            decreases n - i,
        {
            if self.entries[i].id == *id {
                proof {
                    lemma_map_of_index(self.pairs(), i as int);
                }
                return Some(self.entries[i].dir.clone());
            }
            i = i + 1;
        }
        assert(!self.view().contains_key(id@)) by {
            if self.view().contains_key(id@) {
                let j = choose|j: int| 0 <= j < self.pairs().len() && self.pairs()[j].0 == id@;
                assert(self.entries@[j].id@ == id@);
            }
        }
        None
    }

    /// The directory of job `id`; an identifier that the index lacks gives `UnknownJob`.
    pub fn lookup(&self, id: &String) -> (r: Result<String, ProgramError>)
        requires
            self.wf(),
        ensures
            r is Ok <==> self.view().contains_key(id@),
            r is Ok ==> r->Ok_0@ == self.view()[id@],
            r is Err ==> r->Err_0 is UnknownJob && r->Err_0->id@ == id@,
    {
        match self.get(id) {
            Some(d) => Ok(d),
            None => Err(ProgramError::UnknownJob { id: id.clone() }),
        }
    }

    /// The number of jobs.
    pub fn len(&self) -> (r: usize)
        requires
            self.wf(),
        ensures
            r == self.view().len(),
    {
        proof {
            lemma_map_of_len(self.pairs());
        }
        self.entries.len()
    }

    /// The entries, each job once, in no particular order.
    pub fn entries(&self) -> (r: &Vec<JobEntry>)
        ensures
            r@.map_values(|e: JobEntry| e@) == self.pairs(),
    {
        &self.entries
    }
}

} // verus!
