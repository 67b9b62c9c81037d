use vstd::prelude::*;
use vstd::string::StrSliceExecFns;
use crate::index::{JobEntry, JobIndex, keys_unique, map_of, lemma_map_of_dom, lemma_map_of_index};
use crate::search::{Segment, line_view};

verus! {

/// `a` and `b` agree on their first `i` characters, and there `a` ends
/// while `b` goes on, or `a` holds the smaller character.
pub open spec fn lex_lt_at(a: Seq<char>, b: Seq<char>, i: int) -> bool {
    &&& 0 <= i <= a.len()
    &&& i <= b.len()
    &&& forall|j: int| 0 <= j < i ==> a[j] == b[j]
    &&& if i == a.len() {
        i < b.len()
    } else {
        i < b.len() && (a[i] as u32) < (b[i] as u32)
    }
}

/// `a` comes strictly before `b` in lexicographic order of characters.
pub open spec fn lex_lt(a: Seq<char>, b: Seq<char>) -> bool {
    exists|i: int| #[trigger] lex_lt_at(a, b, i)
}

proof fn lemma_lex_witness(a: Seq<char>, b: Seq<char>, i: int)
    requires
        lex_lt_at(a, b, i),
    ensures
        lex_lt(a, b),
{
}

/// The order of identifiers is transitive.
pub proof fn lemma_lex_transitive(a: Seq<char>, b: Seq<char>, c: Seq<char>)
    requires
        lex_lt(a, b),
        lex_lt(b, c),
    ensures
        lex_lt(a, c),
{
    let i = choose|i: int| #[trigger] lex_lt_at(a, b, i);
    let j = choose|j: int| #[trigger] lex_lt_at(b, c, j);
    if i <= j {
        assert forall|k: int| 0 <= k < i implies a[k] == c[k] by {
            assert(a[k] == b[k]);
            assert(b[k] == c[k]);
        }
        if i < j {
            assert(i < a.len() ==> b[i] == c[i]);
        }
        assert(lex_lt_at(a, c, i));
    } else {
        assert forall|k: int| 0 <= k < j implies a[k] == c[k] by {
            assert(a[k] == b[k]);
            assert(b[k] == c[k]);
        }
        assert(a[j] == b[j]);
        assert(lex_lt_at(a, c, j));
    }
}

/// Compares two job identifiers: negative when `a` comes first, zero when they
/// are equal, positive when `b` comes first.
pub fn compare_ids(a: &String, b: &String) -> (r: i8)
    ensures
        r < 0 ==> lex_lt(a@, b@),
        r == 0 ==> a@ == b@,
        r > 0 ==> lex_lt(b@, a@),
{
    let sa = a.as_str();
    let sb = b.as_str();
    let la = sa.unicode_len();
    let lb = sb.unicode_len();
    let mut i: usize = 0;
    while i < la && i < lb
        invariant
            la == a@.len(),
            lb == b@.len(),
            sa@ == a@,
            sb@ == b@,
            0 <= i <= la,
            i <= lb,
            forall|j: int| 0 <= j < i ==> a@[j] == b@[j],
        decreases la - i,
    {
        let ca = sa.get_char(i);
        let cb = sb.get_char(i);
        if (ca as u32) < (cb as u32) {
            proof {
                assert(lex_lt_at(a@, b@, i as int));
                lemma_lex_witness(a@, b@, i as int);
            }
            return -1;
        }
        if (cb as u32) < (ca as u32) {
            proof {
                assert(lex_lt_at(b@, a@, i as int));
                lemma_lex_witness(b@, a@, i as int);
            }
            return 1;
        }
        assert(ca == cb) by {
            assert((ca as u32) == (cb as u32));
        }
        i = i + 1;
    }
    if la == lb {
        assert(a@ =~= b@);
        0
    } else if la < lb {
        proof {
            lemma_lex_witness(a@, b@, i as int);
        }
        -1
    } else {
        proof {
            lemma_lex_witness(b@, a@, i as int);
        }
        1
    }
}

/// The identifier `k` passes the filter: there is none, or it lists `k`.
pub open spec fn admitted(active: Option<Seq<Seq<char>>>, k: Seq<char>) -> bool {
    match active {
        None => true,
        Some(v) => exists|j: int| 0 <= j < v.len() && v[j] == k,
    }
}

/// The view of an optional list of identifiers.
pub open spec fn active_view(active: Option<Vec<String>>) -> Option<Seq<Seq<char>>> {
    match active {
        None => None,
        Some(v) => Some(v@.map_values(|s: String| s@)),
    }
}

fn is_listed(v: &Vec<String>, k: &String) -> (r: bool)
    ensures
        r == exists|j: int| 0 <= j < v@.len() && v@[j]@ == k@,
{
    let mut i: usize = 0;
    while i < v.len()
        invariant
            0 <= i <= v.len(),
            forall|j: int| 0 <= j < i ==> v@[j]@ != k@,
        decreases v.len() - i,
    {
        if v[i] == *k {
            return true;
        }
        i = i + 1;
    }
    false
}

/// The identifiers of `s` descend strictly from each entry to the next.
pub open spec fn descending(s: Seq<JobEntry>) -> bool {
    forall|a: int| 0 <= a < s.len() - 1 ==> lex_lt(s[a + 1].id@, #[trigger] s[a].id@)
}

/// In a sequence whose identifiers descend from each entry to the next, every
/// entry's identifier comes strictly after that of every later entry.
pub proof fn lemma_descending_pairwise(s: Seq<JobEntry>, i: int, j: int)
    requires
        descending(s),
        0 <= i < j < s.len(),
    ensures
        lex_lt(s[j].id@, s[i].id@),
    decreases j - i,
{
    if j > i + 1 {
        lemma_descending_pairwise(s, i + 1, j);
        assert(lex_lt(s[i + 1].id@, s[i].id@));
        lemma_lex_transitive(s[j].id@, s[i + 1].id@, s[i].id@);
    }
}

fn insert_descending(out: &mut Vec<JobEntry>, e: JobEntry)
    requires
        descending(old(out)@),
        forall|a: int| 0 <= a < old(out)@.len() ==> old(out)@[a].id@ != e.id@,
    ensures
        descending(final(out)@),
        exists|pos: int| 0 <= pos <= old(out)@.len() && final(out)@ == old(out)@.insert(pos, e),
{
    let m = out.len();
    let mut j: usize = 0;
    let mut found = false;
    while j < m && !found
        invariant
            m == out.len(),
            0 <= j <= m,
            *out == *old(out),
            forall|a: int| 0 <= a < out@.len() ==> out@[a].id@ != e.id@,
            !found ==> forall|b: int| 0 <= b < j ==> lex_lt(e.id@, #[trigger] out@[b].id@),
            found ==> 0 < j && lex_lt(out@[j - 1].id@, e.id@) && forall|b: int|
                0 <= b < j - 1 ==> lex_lt(e.id@, #[trigger] out@[b].id@),
        decreases m - j,
    {
        let c = compare_ids(&out[j].id, &e.id);
        assert(c != 0);
        if c < 0 {
            found = true;
        }
        j = j + 1;
    }
    let pos = if found {
        j - 1
    } else {
        j
    };
    let ghost old_out = out@;
    let ghost eid = e.id@;
    out.insert(pos, e);
    assert forall|a: int| 0 <= a < out@.len() - 1 implies lex_lt(
        out@[a + 1].id@,
        #[trigger] out@[a].id@,
    ) by {
        if a + 1 < pos {
            assert(out@[a] == old_out[a] && out@[a + 1] == old_out[a + 1]);
        } else if a + 1 == pos {
            assert(out@[a] == old_out[a]);
        } else if a == pos {
            assert(out@[a + 1] == old_out[a]);
        } else {
            assert(out@[a] == old_out[a - 1] && out@[a + 1] == old_out[a]);
        }
    }
}

/// No two entries of `out` share an identifier.
pub open spec fn distinct_ids(out: Seq<JobEntry>) -> bool {
    forall|a: int, b: int| 0 <= a < b < out.len() ==> out[a].id@ != out[b].id@
}

/// Each entry of `out` is one of the first `i` of `ps`, and passes the filter.
pub open spec fn drawn_from(out: Seq<JobEntry>, ps: Seq<(Seq<char>, Seq<char>)>, act: Option<Seq<Seq<char>>>, i: int) -> bool {
    forall|a: int| 0 <= a < out.len() ==> #[trigger] drawn_one(out, ps, act, i, a)
}

/// Entry `a` of `out` is one of the first `i` of `ps`, and passes the filter.
pub open spec fn drawn_one(
    out: Seq<JobEntry>,
    ps: Seq<(Seq<char>, Seq<char>)>,
    act: Option<Seq<Seq<char>>>,
    i: int,
    a: int,
) -> bool {
    exists|t: int| #[trigger] drawn_at(out, ps, act, i, a, t)
}

/// Entry `a` of `out` is entry `t` of `ps`, among its first `i`, and passes the filter.
pub open spec fn drawn_at(
    out: Seq<JobEntry>,
    ps: Seq<(Seq<char>, Seq<char>)>,
    act: Option<Seq<Seq<char>>>,
    i: int,
    a: int,
    t: int,
) -> bool {
    0 <= t < i && t < ps.len() && out[a]@ == ps[t] && admitted(act, ps[t].0)
}

proof fn lemma_drawn_from_wider(
    out: Seq<JobEntry>,
    ps: Seq<(Seq<char>, Seq<char>)>,
    act: Option<Seq<Seq<char>>>,
    i: int,
)
    requires
        drawn_from(out, ps, act, i),
        0 <= i < ps.len(),
    ensures
        drawn_from(out, ps, act, i + 1),
{
    assert forall|a: int| 0 <= a < out.len() implies #[trigger] drawn_one(out, ps, act, i + 1, a) by {
        assert(drawn_one(out, ps, act, i, a));
        let t = choose|t: int| #[trigger] drawn_at(out, ps, act, i, a, t);
        assert(drawn_at(out, ps, act, i + 1, a, t));
    }
}

/// Each of the first `i` entries of `ps` that passes the filter is in `out`.
pub open spec fn covers(out: Seq<JobEntry>, ps: Seq<(Seq<char>, Seq<char>)>, act: Option<Seq<Seq<char>>>, i: int) -> bool {
    forall|t: int|
        0 <= t < i && admitted(act, #[trigger] ps[t].0) ==> exists|a: int|
            0 <= a < out.len() && out[a]@ == ps[t]
}

/// `out` holds, each once, the entries among the first `i` of `ps` whose
/// identifier passes the filter `act`.
#[verifier::opaque]
spec fn selected_upto(
    out: Seq<JobEntry>,
    ps: Seq<(Seq<char>, Seq<char>)>,
    act: Option<Seq<Seq<char>>>,
    i: int,
) -> bool {
    &&& distinct_ids(out)
    &&& drawn_from(out, ps, act, i)
    &&& covers(out, ps, act, i)
}

proof fn lemma_selected_start(ps: Seq<(Seq<char>, Seq<char>)>, act: Option<Seq<Seq<char>>>)
    ensures
        selected_upto(Seq::empty(), ps, act, 0),
{
    reveal(selected_upto);
}

proof fn lemma_selected_fresh(
    out: Seq<JobEntry>,
    ps: Seq<(Seq<char>, Seq<char>)>,
    act: Option<Seq<Seq<char>>>,
    i: int,
)
    requires
        selected_upto(out, ps, act, i),
        keys_unique(ps),
        0 <= i < ps.len(),
    ensures
        forall|a: int| 0 <= a < out.len() ==> out[a].id@ != ps[i].0,
{
    reveal(selected_upto);
    assert forall|a: int| 0 <= a < out.len() implies out[a].id@ != ps[i].0 by {
        assert(drawn_one(out, ps, act, i, a));
        let t = choose|t: int| #[trigger] drawn_at(out, ps, act, i, a, t);
    }
}

proof fn lemma_selected_skip(
    out: Seq<JobEntry>,
    ps: Seq<(Seq<char>, Seq<char>)>,
    act: Option<Seq<Seq<char>>>,
    i: int,
)
    requires
        selected_upto(out, ps, act, i),
        0 <= i < ps.len(),
        !admitted(act, ps[i].0),
    ensures
        selected_upto(out, ps, act, i + 1),
{
    reveal(selected_upto);
    lemma_drawn_from_wider(out, ps, act, i);

    assert forall|t: int| 0 <= t < i + 1 && admitted(act, #[trigger] ps[t].0) implies exists|a: int|
        0 <= a < out.len() && out[a]@ == ps[t] by {
        if t == i {
            assert(false);
        }
    }
    assert(covers(out, ps, act, i + 1));
}

proof fn lemma_insert_distinct(old_out: Seq<JobEntry>, pos: int, x: JobEntry)
    requires
        0 <= pos <= old_out.len(),
        distinct_ids(old_out),
        forall|a: int| 0 <= a < old_out.len() ==> old_out[a].id@ != x.id@,
    ensures
        distinct_ids(old_out.insert(pos, x)),
{
    let out = old_out.insert(pos, x);
    assert forall|a: int, b: int| 0 <= a < b < out.len() implies out[a].id@ != out[b].id@ by {
        if a != pos && b != pos {
            let a2 = if a < pos { a } else { a - 1 };
            let b2 = if b < pos { b } else { b - 1 };
            assert(out[a] == old_out[a2] && out[b] == old_out[b2]);
        } else if a == pos {
            assert(out[b] == old_out[b - 1]);
        } else if a < pos {
            assert(out[a] == old_out[a]);
        } else {
            assert(out[a] == old_out[a - 1]);
        }
    }
}

proof fn lemma_insert_sources(
    old_out: Seq<JobEntry>,
    pos: int,
    x: JobEntry,
    ps: Seq<(Seq<char>, Seq<char>)>,
    act: Option<Seq<Seq<char>>>,
    i: int,
)
    requires
        0 <= i < ps.len(),
        0 <= pos <= old_out.len(),
        x@ == ps[i],
        admitted(act, ps[i].0),
        drawn_from(old_out, ps, act, i),
    ensures
        drawn_from(old_out.insert(pos, x), ps, act, i + 1),
{
    let out = old_out.insert(pos, x);
    assert forall|a: int| 0 <= a < out.len() implies #[trigger] drawn_one(out, ps, act, i + 1, a) by {
        if a < pos {
            assert(out[a] == old_out[a]);
            assert(drawn_one(old_out, ps, act, i, a));
            let t = choose|t: int| #[trigger] drawn_at(old_out, ps, act, i, a, t);
            assert(drawn_at(out, ps, act, i + 1, a, t));
        } else if a > pos {
            assert(out[a] == old_out[a - 1]);
            assert(drawn_one(old_out, ps, act, i, a - 1));
            let t = choose|t: int| #[trigger] drawn_at(old_out, ps, act, i, a - 1, t);
            assert(drawn_at(out, ps, act, i + 1, a, t));
        } else {
            assert(drawn_at(out, ps, act, i + 1, a, i));
        }
    }
}

proof fn lemma_insert_covers(
    old_out: Seq<JobEntry>,
    pos: int,
    x: JobEntry,
    ps: Seq<(Seq<char>, Seq<char>)>,
    act: Option<Seq<Seq<char>>>,
    i: int,
)
    requires
        0 <= i < ps.len(),
        0 <= pos <= old_out.len(),
        x@ == ps[i],
        covers(old_out, ps, act, i),
    ensures
        covers(old_out.insert(pos, x), ps, act, i + 1),
{
    let out = old_out.insert(pos, x);
    assert forall|t: int| 0 <= t < i + 1 && admitted(act, #[trigger] ps[t].0) implies exists|a: int|
        0 <= a < out.len() && out[a]@ == ps[t] by {
        if t < i {
            let a = choose|a: int| 0 <= a < old_out.len() && old_out[a]@ == ps[t];
            if a < pos {
                assert(out[a] == old_out[a]);
            } else {
                assert(out[a + 1] == old_out[a]);
            }
        } else {
            assert(out[pos]@ == ps[t]);
        }
    }
}

proof fn lemma_selected_insert(
    old_out: Seq<JobEntry>,
    pos: int,
    x: JobEntry,
    ps: Seq<(Seq<char>, Seq<char>)>,
    act: Option<Seq<Seq<char>>>,
    i: int,
)
    requires
        selected_upto(old_out, ps, act, i),
        0 <= i < ps.len(),
        0 <= pos <= old_out.len(),
        x@ == ps[i],
        admitted(act, ps[i].0),
        forall|a: int| 0 <= a < old_out.len() ==> old_out[a].id@ != ps[i].0,
    ensures
        selected_upto(old_out.insert(pos, x), ps, act, i + 1),
{
    reveal(selected_upto);
    lemma_insert_distinct(old_out, pos, x);
    lemma_insert_sources(old_out, pos, x, ps, act, i);
    lemma_insert_covers(old_out, pos, x, ps, act, i);
}

proof fn lemma_selected_done(
    out: Seq<JobEntry>,
    ps: Seq<(Seq<char>, Seq<char>)>,
    act: Option<Seq<Seq<char>>>,
)
    requires
        selected_upto(out, ps, act, ps.len() as int),
        keys_unique(ps),
    ensures
        forall|i: int, j: int| 0 <= i < j < out.len() ==> out[i].id@ != out[j].id@,
        forall|i: int|
            0 <= i < out.len() ==> map_of(ps).contains_key(#[trigger] out[i].id@)
                && map_of(ps)[out[i].id@] == out[i].dir@ && admitted(act, out[i].id@),
        forall|k: Seq<char>|
            map_of(ps).contains_key(k) && admitted(act, k) ==> exists|i: int|
                0 <= i < out.len() && #[trigger] out[i].id@ == k,
{
    reveal(selected_upto);
    lemma_map_of_dom(ps);
    assert forall|a: int| 0 <= a < out.len() implies map_of(ps).contains_key(#[trigger] out[a].id@)
        && map_of(ps)[out[a].id@] == out[a].dir@ && admitted(act, out[a].id@) by {
        assert(drawn_one(out, ps, act, ps.len() as int, a));
        let t = choose|t: int| #[trigger] drawn_at(out, ps, act, ps.len() as int, a, t);
        lemma_map_of_index(ps, t);
    }
    assert forall|k: Seq<char>| map_of(ps).contains_key(k) && admitted(act, k) implies exists|a: int|
        0 <= a < out.len() && #[trigger] out[a].id@ == k by {
        let t = choose|t: int| 0 <= t < ps.len() && ps[t].0 == k;
        let a = choose|a: int| 0 <= a < out.len() && out[a]@ == ps[t];
        assert(out[a].id@ == k);
    }
}

/// The jobs that a search visits, in strictly descending order of identifier:
/// every job of the index whose identifier the active list holds, or every
/// job where there is no active list. An empty active list selects nothing.
pub fn search_order(index: &JobIndex, active: &Option<Vec<String>>) -> (r: Vec<JobEntry>)
    requires
        index.wf(),
    ensures
        descending(r@),
        forall|i: int, j: int| 0 <= i < j < r@.len() ==> r@[i].id@ != r@[j].id@,
        forall|i: int|
            0 <= i < r@.len() ==> index.view().contains_key(#[trigger] r@[i].id@)
                && index.view()[r@[i].id@] == r@[i].dir@ && admitted(active_view(*active), r@[i].id@),
        forall|k: Seq<char>|
            index.view().contains_key(k) && admitted(active_view(*active), k) ==> exists|i: int|
                0 <= i < r@.len() && #[trigger] r@[i].id@ == k,
        active is Some && active->Some_0@.len() == 0 ==> r@.len() == 0,
{
    let entries = index.entries();
    let ghost ps = index.pairs();
    let ghost act = active_view(*active);
    let n = entries.len();
    let mut out: Vec<JobEntry> = Vec::new();
    let mut i: usize = 0;
    proof {
        lemma_selected_start(ps, act);
        assert(out@ =~= Seq::<JobEntry>::empty());
    }
    while i < n
        invariant
            n == entries.len(),
            0 <= i <= n,
            keys_unique(ps),
            act == active_view(*active),
            entries@.map_values(|e: JobEntry| e@) == ps,
            descending(out@),
            selected_upto(out@, ps, act, i as int),
        decreases n - i,
    {
        let e = &entries[i];
        assert(e@ == ps[i as int]);
        let keep = match active {
            None => true,
            Some(v) => is_listed(v, &e.id),
        };
        proof {
            if let Some(v) = active {
                if keep {
                    let j = choose|j: int| 0 <= j < v@.len() && v@[j]@ == e.id@;
                    assert(act->Some_0[j] == e.id@);
                } else {
                    assert forall|j: int| 0 <= j < v@.len() implies act->Some_0[j] != e.id@ by {
                        assert(act->Some_0[j] == v@[j]@);
                    }
                }
            }
        }
        assert(keep == admitted(act, ps[i as int].0));
        if keep {
            let ghost old_out = out@;
            proof {
                lemma_selected_fresh(old_out, ps, act, i as int);
            }
            let x = JobEntry { id: e.id.clone(), dir: e.dir.clone() };
            let ghost gx = x;
            insert_descending(&mut out, x);
            proof {
                let pos = choose|pos: int| 0 <= pos <= old_out.len() && out@ == old_out.insert(pos, gx);
                lemma_selected_insert(old_out, pos, gx, ps, act, i as int);
            }
        } else {
            proof {
                lemma_selected_skip(out@, ps, act, i as int);
            }
        }
        i = i + 1;
    }
    proof {
        lemma_selected_done(out@, ps, act);
        if active is Some && active->Some_0@.len() == 0 && out@.len() > 0 {
            assert(admitted(act, out@[0].id@));
        }
    }
    out
}

/// What a search prints for a job.
pub enum Report {
    /// The job's identifier alone.
    Id(String),
    /// The job's directory and its matching lines.
    Lines { dir: String, lines: Vec<Vec<Segment>> },
}

/// What a search reports for a job with the given matching lines: nothing when
/// no line matched; otherwise the identifier alone where `ids_only` is set, and
/// the directory with the lines where it is not.
pub fn report_for(job: &JobEntry, lines: Vec<Vec<Segment>>, ids_only: bool) -> (r: Option<Report>)
    ensures
        lines@.len() == 0 <==> r is None,
        r is Some && ids_only ==> r->Some_0 is Id && r->Some_0->Id_0@ == job.id@,
        r is Some && !ids_only ==> r->Some_0 is Lines && r->Some_0->dir@ == job.dir@
            && r->Some_0->lines@.map_values(|l: Vec<Segment>| line_view(l)) == lines@.map_values(
            |l: Vec<Segment>| line_view(l),
        ),
{
    if lines.len() == 0 {
        None
    } else if ids_only {
        Some(Report::Id(job.id.clone()))
    } else {
        Some(Report::Lines { dir: job.dir.clone(), lines })
    }
}

} // verus!
