use vstd::prelude::*;
use regex::Regex;
use crate::error::ProgramError;
use crate::text::{split_lines, lines_of};

verus! {

#[verifier::external_type_specification]
#[verifier::external_body]
pub struct ExRegex(regex::Regex);

#[verifier::external_type_specification]
#[verifier::external_body]
pub struct ExRegexError(regex::Error);

/// Whether the regex crate compiles the pattern `p`.
pub uninterp spec fn regex_accepts(p: Seq<char>) -> bool;

/// The successive matches of the pattern `p` in `hay`, as the regex crate finds them.
pub uninterp spec fn regex_matches(p: Seq<char>, hay: Seq<char>) -> Seq<Seq<char>>;

/// The parts of `hay` between the matches of the pattern `p`, as the regex crate splits it.
pub uninterp spec fn regex_gaps(p: Seq<char>, hay: Seq<char>) -> Seq<Seq<char>>;

/// A compiled search pattern; its view is the pattern's text.
pub struct Pattern {
    source: String,
    re: Regex,
}

impl View for Pattern {
    type V = Seq<char>;

    closed spec fn view(&self) -> Seq<char> {
        self.source@
    }
}

/// Relies on regex::Regex::new: it compiles `p` or fails, depending on `p` alone.
#[verifier::external_body]
fn compile_regex(p: &str) -> (r: Result<Pattern, regex::Error>)
    ensures
        r is Ok <==> regex_accepts(p@),
        r is Ok ==> r->Ok_0@ == p@,
{
    match Regex::new(p) {
        Ok(re) => Ok(Pattern { source: p.to_string(), re }),
        Err(e) => Err(e),
    }
}

/// Relies on regex::Regex::find_iter: the text of each successive match in `hay`.
#[verifier::external_body]
fn find_matches(pat: &Pattern, hay: &str) -> (r: Vec<String>)
    ensures
        r@.map_values(|m: String| m@) == regex_matches(pat@, hay@),
{
    pat.re.find_iter(hay).map(|m| m.as_str().to_string()).collect()
}

/// Relies on regex::Regex::split: the parts of `hay` between successive matches.
#[verifier::external_body]
fn split_gaps(pat: &Pattern, hay: &str) -> (r: Vec<String>)
    ensures
        r@.map_values(|g: String| g@) == regex_gaps(pat@, hay@),
{
    pat.re.split(hay).map(|g| g.to_string()).collect()
}

impl Pattern {
    /// Compiles a search pattern; a pattern that is not a valid regular
    /// expression gives `InvalidPattern`.
    pub fn new(p: &String) -> (r: Result<Pattern, ProgramError>)
        ensures
            r is Ok <==> regex_accepts(p@),
            r is Ok ==> r->Ok_0@ == p@,
            r is Err ==> r->Err_0 is InvalidPattern && r->Err_0->pattern@ == p@,
    {
        match compile_regex(p.as_str()) {
            Ok(pat) => Ok(pat),
            Err(_) => Err(ProgramError::InvalidPattern { pattern: p.clone() }),
        }
    }
}

/// A piece of a reported line; `marked` pieces are matches of the pattern.
pub struct Segment {
    pub text: String,
    pub marked: bool,
}

impl View for Segment {
    type V = (Seq<char>, bool);

    open spec fn view(&self) -> (Seq<char>, bool) {
        (self.text@, self.marked)
    }
}

/// The segments of a line from its first `n` gaps, each gap after the first
/// preceded by the match that ends before it.
pub open spec fn interleave(gaps: Seq<Seq<char>>, marks: Seq<Seq<char>>, n: nat) -> Seq<
    (Seq<char>, bool),
>
    decreases n,
{
    if n == 0 {
        Seq::empty()
    } else {
        let k = n - 1;
        let prev = interleave(gaps, marks, k as nat);
        let with_mark = if k > 0 && k - 1 < marks.len() {
            prev.push((marks[k - 1], true))
        } else {
            prev
        };
        with_mark.push((gaps[k], false))
    }
}

/// The segments of a line given the parts between matches and the matches.
pub open spec fn highlighted(gaps: Seq<Seq<char>>, marks: Seq<Seq<char>>) -> Seq<(Seq<char>, bool)> {
    interleave(gaps, marks, gaps.len())
}

/// The view of a reported line.
pub open spec fn line_view(l: Vec<Segment>) -> Seq<(Seq<char>, bool)> {
    l@.map_values(|s: Segment| s@)
}

/// Marks the matches of a line: the gaps between matches, unmarked, alternate
/// with the matches, marked.
pub fn highlight_segments(gaps: &Vec<String>, marks: &Vec<String>) -> (r: Vec<Segment>)
    ensures
        line_view(r) == highlighted(gaps@.map_values(|g: String| g@), marks@.map_values(|m: String| m@)),
{
    let ghost gs = gaps@.map_values(|g: String| g@);
    let ghost ms = marks@.map_values(|m: String| m@);
    let mut out: Vec<Segment> = Vec::new();
    let mut i: usize = 0;
    while i < gaps.len()
        invariant
            0 <= i <= gaps.len(),
            gs == gaps@.map_values(|g: String| g@),
            ms == marks@.map_values(|m: String| m@),
            line_view(out) == interleave(gs, ms, i as nat),
        decreases gaps.len() - i,
    {
        if i > 0 && i - 1 < marks.len() {
            let ghost before = line_view(out);
            out.push(Segment { text: marks[i - 1].clone(), marked: true });
            assert(line_view(out) =~= before.push((ms[i - 1], true)));
        }
        let ghost before = line_view(out);
        out.push(Segment { text: gaps[i].clone(), marked: false });
        assert(line_view(out) =~= before.push((gs[i as int], false)));
        i = i + 1;
    }
    out
}

/// The lines among `lines` with a match of `p`, each with its matches marked.
pub open spec fn matching_lines(p: Seq<char>, lines: Seq<Seq<char>>) -> Seq<Seq<(Seq<char>, bool)>>
    decreases lines.len(),
{
    if lines.len() == 0 {
        Seq::empty()
    } else {
        let prev = matching_lines(p, lines.drop_last());
        let l = lines.last();
        if regex_matches(p, l).len() > 0 {
            prev.push(highlighted(regex_gaps(p, l), regex_matches(p, l)))
        } else {
            prev
        }
    }
}

/// The lines of a job's log that match the pattern, with their matches
/// marked. A log that could not be resolved reports nothing; one whose content
/// could not be read counts as empty.
pub fn search_log(pat: &Pattern, log: &Result<String, ProgramError>, content: &Option<String>) -> (r:
    Vec<Vec<Segment>>)
    ensures
        log is Err ==> r@.len() == 0,
        log is Ok ==> r@.map_values(|l: Vec<Segment>| line_view(l)) == matching_lines(
            pat@,
            lines_of(
                match content {
                    Some(c) => c@,
                    None => Seq::empty(),
                },
            ),
        ),
{
    let mut out: Vec<Vec<Segment>> = Vec::new();
    if log.is_err() {
        return out;
    }
    let empty = String::new();
    let text = match content {
        Some(c) => c,
        None => &empty,
    };
    let lines = split_lines(text.as_str());
    let ghost ls = lines@.map_values(|l: String| l@);
    let mut i: usize = 0;
    assert(ls.take(0) =~= Seq::<Seq<char>>::empty());
    while i < lines.len()
        invariant
            0 <= i <= lines.len(),
            ls == lines@.map_values(|l: String| l@),
            out@.map_values(|l: Vec<Segment>| line_view(l)) == matching_lines(pat@, ls.take(i as int)),
        decreases lines.len() - i,
    {
        let line = lines[i].as_str();
        let marks = find_matches(pat, line);
        assert(ls.take(i + 1).drop_last() =~= ls.take(i as int));
        if marks.len() > 0 {
            let gaps = split_gaps(pat, line);
            let segs = highlight_segments(&gaps, &marks);
            let ghost before = out@.map_values(|l: Vec<Segment>| line_view(l));
            out.push(segs);
            assert(out@.map_values(|l: Vec<Segment>| line_view(l)) =~= before.push(line_view(segs)));
        }
        i = i + 1;
    }
    assert(ls.take(lines.len() as int) =~= ls);
    out
}

} // verus!
