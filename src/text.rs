use vstd::prelude::*;
use vstd::string::StrSliceExecFns;
use vstd::std_specs::iter::IteratorSpec;

verus! {

broadcast use vstd::string::group_string_axioms;

/// The characters of `s`, in order.
pub fn chars_of(s: &str) -> (r: Vec<char>)
    ensures
        r@ == s@,
{
    let mut it = s.chars();
    let mut r: Vec<char> = Vec::new();
    loop
        invariant
            it.obeys_prophetic_iter_laws(),
            it.decrease() is Some,
            r@ + it.remaining() == s@,
        decreases it.decrease()->0,
    {
        match it.next() {
            Some(c) => {
                r.push(c);
            },
            None => {
                assert(r@ =~= s@);
                return r;
            },
        }
    }
}

/// The position of the first newline of `s` at or after `i`, or the length of `s`.
pub open spec fn next_nl(s: Seq<char>, i: int) -> int
    decreases s.len() - i,
{
    if i >= s.len() || i < 0 {
        s.len() as int
    } else if s[i] == '\n' {
        i
    } else {
        next_nl(s, i + 1)
    }
}

/// The line of `s` from `start` up to the end `e`, without the carriage
/// return of a `\r\n` ending.
pub open spec fn line_at(s: Seq<char>, start: int, e: int) -> Seq<char> {
    if e < s.len() && e > start && s[e - 1] == '\r' {
        s.subrange(start, e - 1)
    } else {
        s.subrange(start, e)
    }
}

/// The lines of `s` from position `start` on.
pub open spec fn lines_from(s: Seq<char>, start: int) -> Seq<Seq<char>>
    decreases s.len() - start,
{
    let e = next_nl(s, start);
    if start >= s.len() || start < 0 || e < start {
        Seq::empty()
    } else {
        if e >= s.len() {
            seq![line_at(s, start, e)]
        } else {
            seq![line_at(s, start, e)] + lines_from(s, e + 1)
        }
    }
}

/// The lines of a text: split at each `\n`, a `\r` before it removed, and no
/// empty line after a final newline.
pub open spec fn lines_of(s: Seq<char>) -> Seq<Seq<char>> {
    lines_from(s, 0)
}

proof fn lemma_next_nl_bounds(s: Seq<char>, i: int)
    requires
        0 <= i <= s.len(),
    ensures
        i <= next_nl(s, i) <= s.len(),
    decreases s.len() - i,
{
    if i < s.len() && s[i] != '\n' {
        lemma_next_nl_bounds(s, i + 1);
    }
}

/// The lines of `s`.
pub fn split_lines(s: &str) -> (r: Vec<String>)
    ensures
        r@.map_values(|l: String| l@) == lines_of(s@),
{
    let cs = chars_of(s);
    let n = cs.len();
    let mut out: Vec<String> = Vec::new();
    let mut start: usize = 0;
    while start < n
        invariant
            cs@ == s@,
            n == cs.len(),
            0 <= start <= n,
            out@.map_values(|l: String| l@) + lines_from(s@, start as int) == lines_of(s@),
        decreases n - start,
    {
        let mut e: usize = start;
        while e < n && cs[e] != '\n'
            invariant
                cs@ == s@,
                n == cs.len(),
                start <= e <= n,
                next_nl(s@, start as int) == next_nl(s@, e as int),
            decreases n - e,
        {
            e = e + 1;
        }
        proof {
            lemma_next_nl_bounds(s@, start as int);
        }
        assert(next_nl(s@, start as int) == e);
        let stop = if e < n && e > start && cs[e - 1] == '\r' {
            e - 1
        } else {
            e
        };
        let line = String::from_str(s.substring_char(start, stop));
        assert(line@ == line_at(s@, start as int, e as int));
        let ghost before = out@.map_values(|l: String| l@);
        out.push(line);
        assert(out@.map_values(|l: String| l@) =~= before.push(line@));
        if e >= n {
            assert(lines_from(s@, n as int) =~= Seq::<Seq<char>>::empty());
            assert(out@.map_values(|l: String| l@) + lines_from(s@, n as int) =~= before + lines_from(
                s@,
                start as int,
            ));
            start = n;
        } else {
            assert(out@.map_values(|l: String| l@) + lines_from(s@, e + 1) =~= before + lines_from(
                s@,
                start as int,
            ));
            start = e + 1;
        }
    }
    assert(lines_from(s@, start as int) =~= Seq::<Seq<char>>::empty());
    assert(out@.map_values(|l: String| l@) =~= lines_of(s@));
    out
}

} // verus!
