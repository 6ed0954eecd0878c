//! The request/response protocol matcher for peer discovery: it sends one
//! outbound command, waits a bounded time for the start of the response,
//! collects response lines and their continuations inside a fixed wall-clock
//! window, and distils the collected lines into a deduplicated set of
//! display names, resolved against the peer roster.

use vstd::prelude::*;
use crate::CoordError;
use crate::text::{
    strip_color_spec, strip_color, starts_with_ci_spec, starts_with_ci, starts_with, match_at,
    contains_sub, find_sub, find_sub_from, find_from, split_spec, split_sub, subvec,
    append_chars, lemma_first_match_unique, chars_eq,
};

verus! {

/// Ticks of the logical clock are milliseconds.
/// How long the start of the response may take to appear.
pub const START_WINDOW: u64 = 3000;

/// The fixed wall-clock span, from the start marker, during which response
/// lines are collected (it does not reset when a line arrives).
pub const COLLECT_WINDOW: u64 = 3000;

/// The bound on one whole query run.
pub const QUERY_WINDOW: u64 = 30000;

/// The outbound command that opens a query.
pub open spec fn query_command() -> Seq<char> {
    seq!['/', 'c', 'l', 'i', 'e', 'n', 't', 's']
}

pub fn query_command_chars() -> (r: Vec<char>)
    ensures
        r@ == query_command(),
{
    let mut v: Vec<char> = Vec::new();
    v.push('/');
    v.push('c');
    v.push('l');
    v.push('i');
    v.push('e');
    v.push('n');
    v.push('t');
    v.push('s');
    proof {
        assert(v@ =~= query_command());
    }
    v
}

/// The marker that opens the response, compared case-insensitively on the
/// colour-stripped line.
pub open spec fn start_marker() -> Seq<char> {
    seq!['p', 'l', 'a', 'y', 'e', 'r', 's', ' ', 'u', 's', 'i', 'n', 'g']
}

fn start_marker_chars() -> (r: Vec<char>)
    ensures
        r@ == start_marker(),
{
    let mut v: Vec<char> = Vec::new();
    v.push('p');
    v.push('l');
    v.push('a');
    v.push('y');
    v.push('e');
    v.push('r');
    v.push('s');
    v.push(' ');
    v.push('u');
    v.push('s');
    v.push('i');
    v.push('n');
    v.push('g');
    proof {
        assert(v@ =~= start_marker());
    }
    v
}

/// The fixed prefix that marks a continuation line.
pub open spec fn cont_marker() -> Seq<char> {
    seq!['>', ' ', '&', 'f']
}

fn cont_marker_chars() -> (r: Vec<char>)
    ensures
        r@ == cont_marker(),
{
    let mut v: Vec<char> = Vec::new();
    v.push('>');
    v.push(' ');
    v.push('&');
    v.push('f');
    proof {
        assert(v@ =~= cont_marker());
    }
    v
}

/// The delimiter between the software description and the name list in one
/// response line.
pub open spec fn delim() -> Seq<char> {
    seq![':', ' ', '&', 'f']
}

fn delim_chars() -> (r: Vec<char>)
    ensures
        r@ == delim(),
{
    let mut v: Vec<char> = Vec::new();
    v.push(':');
    v.push(' ');
    v.push('&');
    v.push('f');
    proof {
        assert(v@ =~= delim());
    }
    v
}

/// The separator between display names in a response line.
pub open spec fn name_sep() -> Seq<char> {
    seq![',', ' ']
}

fn name_sep_chars() -> (r: Vec<char>)
    ensures
        r@ == name_sep(),
{
    let mut v: Vec<char> = Vec::new();
    v.push(',');
    v.push(' ');
    proof {
        assert(v@ =~= name_sep());
    }
    v
}

/// Whether a line opens the response.
pub open spec fn is_start_line(line: Seq<char>) -> bool {
    starts_with_ci_spec(strip_color_spec(line), start_marker())
}

pub fn check_start_line(line: &Vec<char>) -> (r: bool)
    ensures
        r == is_start_line(line@),
{
    let stripped = strip_color(line);
    let marker = start_marker_chars();
    starts_with_ci(&stripped, &marker)
}

/// The payload of a continuation line: what follows the marker.
pub open spec fn continuation_rest(line: Seq<char>) -> Option<Seq<char>> {
    if cont_marker().is_prefix_of(line) {
        Some(line.skip(cont_marker().len() as int))
    } else {
        None
    }
}

pub fn continuation_payload(line: &Vec<char>) -> (r: Option<Vec<char>>)
    ensures
        match r {
            Some(rest) => continuation_rest(line@) == Some(rest@),
            None => continuation_rest(line@) is None,
        },
{
    let marker = cont_marker_chars();
    if starts_with(line, &marker) {
        Some(subvec(line, 4, line.len()))
    } else {
        None
    }
}

/// Whether a line is (part of) the response proper: it carries the
/// delimiter. Unrelated chat interleaved with the response does not.
pub open spec fn is_response_line(line: Seq<char>) -> bool {
    contains_sub(line, delim())
}

pub fn check_response_line(line: &Vec<char>) -> (r: bool)
    ensures
        r == is_response_line(line@),
{
    let d = delim_chars();
    match find_sub(line, &d) {
        Some(_) => true,
        None => false,
    }
}

/// The views of collected lines.
pub open spec fn lines_view(lines: Seq<Vec<char>>) -> Seq<Seq<char>> {
    lines.map_values(|l: Vec<char>| l@)
}

/// The phases of one query run. The response windows close on a wall-clock
/// deadline, never by going idle: unrelated chat in the middle of a response
/// neither aborts nor prolongs collection.
#[derive(Debug)]
pub enum QueryMatcher {
    /// The command is out; the start marker has not been seen yet.
    AwaitStart { deadline: u64 },
    /// The start marker was seen; response lines are being collected.
    Collecting { deadline: u64, lines: Vec<Vec<char>>, last_was_response: bool },
    /// The run ended: the collected lines, or the failure.
    Done { outcome: Result<Vec<Vec<char>>, CoordError> },
}

impl QueryMatcher {
    /// A matcher never extends a continuation onto an empty collection.
    pub open spec fn wf(self) -> bool {
        self matches QueryMatcher::Collecting { lines, last_was_response, .. }
            ==> (last_was_response ==> lines@.len() >= 1)
    }

    /// Opens a run at tick `now`: the caller has just sent
    /// `query_command_chars()`. The response must start before the deadline.
    pub fn start(now: u64) -> (m: QueryMatcher)
        requires
            now <= u64::MAX - START_WINDOW,
        ensures
            m == (QueryMatcher::AwaitStart { deadline: (now + START_WINDOW) as u64 }),
            m.wf(),
    {
        QueryMatcher::AwaitStart { deadline: now + START_WINDOW }
    }

    /// Feeds one chat line at tick `now`. Returns the successor state and
    /// whether the line was consumed as protocol traffic (and should be
    /// suppressed from the default chat rendering).
    pub fn on_line(self, line: &Vec<char>, now: u64) -> (r: (QueryMatcher, bool))
        requires
            self.wf(),
            now <= u64::MAX - COLLECT_WINDOW,
        ensures
            r.0.wf(),
            match self {
                QueryMatcher::AwaitStart { deadline } => if now >= deadline {
                    r.0 == (QueryMatcher::Done { outcome: Err::<Vec<Vec<char>>, CoordError>(
                        CoordError::Timeout,
                    ) }) && !r.1
                } else if is_start_line(line@) {
                    &&& r.0 matches QueryMatcher::Collecting {
                        deadline: d2,
                        lines: l2,
                        last_was_response: w2,
                    } && d2 == now + COLLECT_WINDOW && lines_view(l2@)
                        == Seq::<Seq<char>>::empty() && !w2
                    &&& r.1
                } else {
                    r.0 == self && !r.1
                },
                QueryMatcher::Collecting { deadline, lines, last_was_response } => if now
                    >= deadline {
                    r.0 == (QueryMatcher::Done { outcome: Ok::<Vec<Vec<char>>, CoordError>(
                        lines,
                    ) }) && !r.1
                } else if last_was_response && continuation_rest(line@) is Some {
                    &&& r.0 matches QueryMatcher::Collecting {
                        deadline: d2,
                        lines: l2,
                        last_was_response: w2,
                    } && d2 == deadline && w2 && lines_view(l2@) == lines_view(lines@).update(
                        lines@.len() - 1,
                        lines_view(lines@).last() + seq![' '] + continuation_rest(line@)->Some_0,
                    )
                    &&& r.1
                } else if is_response_line(line@) {
                    &&& r.0 matches QueryMatcher::Collecting {
                        deadline: d2,
                        lines: l2,
                        last_was_response: w2,
                    } && d2 == deadline && w2 && lines_view(l2@) == lines_view(lines@).push(
                        line@,
                    )
                    &&& r.1
                } else {
                    &&& r.0 matches QueryMatcher::Collecting {
                        deadline: d2,
                        lines: l2,
                        last_was_response: w2,
                    } && d2 == deadline && !w2 && lines_view(l2@) == lines_view(lines@)
                    &&& !r.1
                },
                QueryMatcher::Done { .. } => r.0 == self && !r.1,
            },
    {
        match self {
            QueryMatcher::AwaitStart { deadline } => {
                if now >= deadline {
                    (QueryMatcher::Done { outcome: Err(CoordError::Timeout) }, false)
                } else if check_start_line(line) {
                    let m = QueryMatcher::Collecting {
                        deadline: now + COLLECT_WINDOW,
                        lines: Vec::new(),
                        last_was_response: false,
                    };
                    proof {
                        assert(lines_view(Seq::<Vec<char>>::empty())
                            =~= Seq::<Seq<char>>::empty());
                    }
                    (m, true)
                } else {
                    (QueryMatcher::AwaitStart { deadline }, false)
                }
            },
            QueryMatcher::Collecting { deadline, mut lines, last_was_response } => {
                if now >= deadline {
                    (QueryMatcher::Done { outcome: Ok(lines) }, false)
                } else {
                    let cont = continuation_payload(line);
                    match cont {
                        Some(rest) if last_was_response => {
                            let ghost l0 = lines@;
                            let idx = lines.len() - 1;
                            let last = &mut lines[idx];
                            last.push(' ');
                            append_chars(last, &rest);
                            proof {
                                assert(lines@ == l0.update(
                                    idx as int,
                                    lines@[idx as int],
                                ));
                                assert(lines@[idx as int]@ == l0[idx as int]@ + seq![' ']
                                    + rest@);
                                assert(lines_view(lines@) =~= lines_view(l0).update(
                                    idx as int,
                                    lines_view(l0).last() + seq![' ']
                                        + continuation_rest(line@)->Some_0,
                                ));
                            }
                            (
                                QueryMatcher::Collecting {
                                    deadline,
                                    lines,
                                    last_was_response: true,
                                },
                                true,
                            )
                        },
                        _ => {
                            if check_response_line(line) {
                                let ghost l0 = lines@;
                                let copy = subvec(line, 0, line.len());
                                proof {
                                    assert(copy@ =~= line@);
                                }
                                lines.push(copy);
                                proof {
                                    assert(lines_view(lines@) =~= lines_view(l0).push(line@));
                                }
                                (
                                    QueryMatcher::Collecting {
                                        deadline,
                                        lines,
                                        last_was_response: true,
                                    },
                                    true,
                                )
                            } else {
                                (
                                    QueryMatcher::Collecting {
                                        deadline,
                                        lines,
                                        last_was_response: false,
                                    },
                                    false,
                                )
                            }
                        },
                    }
                }
            },
            QueryMatcher::Done { outcome } => (QueryMatcher::Done { outcome }, false),
        }
    }

    /// Observes the clock at tick `now`: an expired start window fails the
    /// run with `Timeout`; an expired collection window closes it with
    /// whatever was collected.
    pub fn on_tick(self, now: u64) -> (r: QueryMatcher)
        requires
            self.wf(),
        ensures
            r.wf(),
            match self {
                QueryMatcher::AwaitStart { deadline } => if now >= deadline {
                    r == (QueryMatcher::Done { outcome: Err::<Vec<Vec<char>>, CoordError>(
                        CoordError::Timeout,
                    ) })
                } else {
                    r == self
                },
                QueryMatcher::Collecting { deadline, lines, .. } => if now >= deadline {
                    r == (QueryMatcher::Done { outcome: Ok::<Vec<Vec<char>>, CoordError>(
                        lines,
                    ) })
                } else {
                    r == self
                },
                QueryMatcher::Done { .. } => r == self,
            },
    {
        match self {
            QueryMatcher::AwaitStart { deadline } => {
                if now >= deadline {
                    QueryMatcher::Done { outcome: Err(CoordError::Timeout) }
                } else {
                    QueryMatcher::AwaitStart { deadline }
                }
            },
            QueryMatcher::Collecting { deadline, lines, last_was_response } => {
                if now >= deadline {
                    QueryMatcher::Done { outcome: Ok(lines) }
                } else {
                    QueryMatcher::Collecting { deadline, lines, last_was_response }
                }
            },
            QueryMatcher::Done { outcome } => QueryMatcher::Done { outcome },
        }
    }
}

/// The protocol tag that marks a response line as one of ours: the first two
/// dot-separated segments of the software name, with a trailing dot, so that
/// any patch release of the same minor version matches.
pub open spec fn version_tag_spec(app: Seq<char>) -> Seq<char> {
    match find_from(app, seq!['.'], 0) {
        None => app + seq!['.'],
        Some(i) => match find_from(app, seq!['.'], i + 1) {
            None => app + seq!['.'],
            Some(j) => app.subrange(0, j) + seq!['.'],
        },
    }
}

pub fn version_tag(app: &Vec<char>) -> (r: Vec<char>)
    ensures
        r@ == version_tag_spec(app@),
{
    let mut dot: Vec<char> = Vec::new();
    dot.push('.');
    proof {
        assert(dot@ =~= seq!['.']);
    }
    match find_sub(app, &dot) {
        None => {
            proof {
                lemma_first_match_unique(app@, seq!['.'], 0, None);
            }
            let mut r = subvec(app, 0, app.len());
            r.push('.');
            proof {
                assert(app@.subrange(0, app@.len() as int) =~= app@);
                assert(r@ =~= app@ + seq!['.']);
            }
            r
        },
        Some(i) => {
            let app_len = app.len();
            proof {
                lemma_first_match_unique(app@, seq!['.'], 0, Some(i as int));
                assert(match_at(app@, dot@, i as int));
                assert(i + 1 <= app_len);
            }
            match find_sub_from(app, &dot, i + 1) {
                None => {
                    proof {
                        lemma_first_match_unique(app@, seq!['.'], i + 1, None);
                    }
                    let mut r = subvec(app, 0, app.len());
                    r.push('.');
                    proof {
                        assert(app@.subrange(0, app@.len() as int) =~= app@);
                        assert(r@ =~= app@ + seq!['.']);
                    }
                    r
                },
                Some(j) => {
                    proof {
                        lemma_first_match_unique(app@, seq!['.'], i + 1, Some(j as int));
                    }
                    let mut r = subvec(app, 0, j);
                    r.push('.');
                    proof {
                        assert(r@ =~= app@.subrange(0, j as int) + seq!['.']);
                    }
                    r
                },
            }
        },
    }
}

/// What one collected response line contributes: `None` when the line lacks
/// the delimiter (a parse failure); the names on its right side when its
/// colour-stripped left side carries the tag; nothing otherwise.
pub open spec fn line_names(line: Seq<char>, tag: Seq<char>) -> Option<Seq<Seq<char>>> {
    match find_from(line, delim(), 0) {
        None => None,
        Some(i) => {
            let left = strip_color_spec(line.subrange(0, i));
            let right = strip_color_spec(line.subrange(i + delim().len(), line.len() as int));
            if contains_sub(left, tag) {
                Some(split_spec(right, name_sep()))
            } else {
                Some(Seq::<Seq<char>>::empty())
            }
        },
    }
}

/// Splits one collected line at the first delimiter, strips colour codes
/// from both sides, and returns the comma-separated names on the right when
/// the left side carries the tag.
pub fn parse_response_line(line: &Vec<char>, tag: &Vec<char>) -> (r: Result<
    Vec<Vec<char>>,
    CoordError,
>)
    ensures
        match r {
            Ok(names) => line_names(line@, tag@) == Some(lines_view(names@)),
            Err(e) => e is ParseFailure && line_names(line@, tag@) is None,
        },
{
    let d = delim_chars();
    match find_sub(line, &d) {
        None => {
            proof {
                lemma_first_match_unique(line@, delim(), 0, None);
            }
            Err(CoordError::ParseFailure)
        },
        Some(i) => {
            proof {
                lemma_first_match_unique(line@, delim(), 0, Some(i as int));
                assert(match_at(line@, delim(), i as int));
                assert(i + 4 <= line@.len());
            }
            let line_len = line.len();
            let left_raw = subvec(line, 0, i);
            let right_raw = subvec(line, i + 4, line_len);
            let left = strip_color(&left_raw);
            let right = strip_color(&right_raw);
            let tag_found = match find_sub(&left, tag) {
                Some(_) => true,
                None => false,
            };
            if tag_found {
                let sepv = name_sep_chars();
                let names = split_sub(&right, &sepv);
                proof {
                    assert(lines_view(names@) == names@.map_values(|p: Vec<char>| p@));
                }
                Ok(names)
            } else {
                proof {
                    assert(lines_view(Seq::<Vec<char>>::empty()) =~= Seq::<Seq<char>>::empty());
                }
                Ok(Vec::new())
            }
        },
    }
}

/// Membership in the union of the names of the first `upto` lines whose left
/// side carries the tag.
/// The contribution `o` of a line carries `name`.
pub open spec fn names_has(o: Option<Seq<Seq<char>>>, name: Seq<char>) -> bool {
    o matches Some(ns) && ns.contains(name)
}

pub open spec fn in_union_upto(
    lines: Seq<Seq<char>>,
    tag: Seq<char>,
    upto: int,
    name: Seq<char>,
) -> bool {
    exists|k: int| 0 <= k < upto && names_has(#[trigger] line_names(lines[k], tag), name)
}

/// Every line carries the delimiter.
pub open spec fn all_parse(lines: Seq<Seq<char>>, tag: Seq<char>) -> bool {
    forall|k: int| 0 <= k < lines.len() ==> (#[trigger] line_names(lines[k], tag)) is Some
}

proof fn lemma_push_contains(s: Seq<Seq<char>>, x: Seq<char>, n: Seq<char>)
    ensures
        s.push(x).contains(n) <==> s.contains(n) || n == x,
{
    if s.push(x).contains(n) {
        let w = choose|w: int| 0 <= w < s.push(x).len() && s.push(x)[w] == n;
        if w < s.len() {
            assert(s[w] == n);
        }
    }
    if s.contains(n) {
        let w = choose|w: int| 0 <= w < s.len() && s[w] == n;
        assert(s.push(x)[w] == n);
    }
    assert(s.push(x)[s.len() as int] == x);
}

/// Whether some collected name equals `x`.
fn contains_line(names: &Vec<Vec<char>>, x: &Vec<char>) -> (r: bool)
    ensures
        r == lines_view(names@).contains(x@),
{
    let mut k: usize = 0;
    while k < names.len()
        invariant
            k <= names@.len(),
            forall|j: int| 0 <= j < k ==> lines_view(names@)[j] != x@,
        decreases names@.len() - k,
    {
        if chars_eq(&names[k], x) {
            proof {
                assert(lines_view(names@)[k as int] == x@);
            }
            return true;
        }
        k = k + 1;
    }
    proof {
        if lines_view(names@).contains(x@) {
            let w = choose|w: int|
                0 <= w < lines_view(names@).len() && lines_view(names@)[w] == x@;
            assert(lines_view(names@)[w] != x@);
        }
    }
    false
}

/// Unions the name lists of all collected lines that carry the tag into one
/// deduplicated list (first occurrence kept). Fails with `ParseFailure`
/// exactly when some collected line lacks the delimiter.
pub fn collect_names(lines: &Vec<Vec<char>>, tag: &Vec<char>) -> (r: Result<
    Vec<Vec<char>>,
    CoordError,
>)
    ensures
        match r {
            Ok(names) => {
                &&& all_parse(lines_view(lines@), tag@)
                &&& lines_view(names@).no_duplicates()
                &&& forall|n: Seq<char>| #[trigger] lines_view(names@).contains(n)
                    <==> in_union_upto(lines_view(lines@), tag@, lines@.len() as int, n)
            },
            Err(e) => e is ParseFailure && !all_parse(lines_view(lines@), tag@),
        },
{
    let ghost lv = lines_view(lines@);
    let mut names: Vec<Vec<char>> = Vec::new();
    let mut i: usize = 0;
    while i < lines.len()
        invariant
            lv == lines_view(lines@),
            i <= lines@.len(),
            forall|k: int| 0 <= k < i ==> (#[trigger] line_names(lv[k], tag@)) is Some,
            lines_view(names@).no_duplicates(),
            forall|n: Seq<char>| #[trigger] lines_view(names@).contains(n) <==> in_union_upto(
                lv,
                tag@,
                i as int,
                n,
            ),
        decreases lines@.len() - i,
    {
        proof {
            assert(lv[i as int] == lines@[i as int]@);
        }
        match parse_response_line(&lines[i], tag) {
            Err(_) => {
                proof {
                    assert(line_names(lv[i as int], tag@) is None);
                }
                return Err(CoordError::ParseFailure);
            },
            Ok(parsed) => {
                let ghost pv = lines_view(parsed@);
                let mut j: usize = 0;
                proof {
                    assert(pv.take(0) =~= Seq::<Seq<char>>::empty());
                }
                while j < parsed.len()
                    invariant
                        lv == lines_view(lines@),
                        pv == lines_view(parsed@),
                        i < lines@.len(),
                        line_names(lv[i as int], tag@) == Some(pv),
                        j <= parsed@.len(),
                        lines_view(names@).no_duplicates(),
                        forall|n: Seq<char>| #[trigger] lines_view(names@).contains(n) <==> (
                        in_union_upto(lv, tag@, i as int, n) || pv.take(j as int).contains(n)),
                    decreases parsed@.len() - j,
                {
                    let nm = &parsed[j];
                    proof {
                        assert(pv[j as int] == nm@);
                        assert(pv.take(j + 1) =~= pv.take(j as int).push(nm@));
                    }
                    let ghost names0 = lines_view(names@);
                    if !contains_line(&names, nm) {
                        let copy = subvec(nm, 0, nm.len());
                        proof {
                            assert(copy@ =~= nm@);
                        }
                        names.push(copy);
                        proof {
                            assert(lines_view(names@) =~= names0.push(nm@));
                            assert forall|n: Seq<char>|
                                #[trigger] lines_view(names@).contains(n) <==> (names0.contains(
                                n,
                            ) || n == nm@) by {
                                lemma_push_contains(names0, nm@, n);
                            }
                            assert forall|k1: int, k2: int|
                                0 <= k1 < k2 < lines_view(names@).len() implies lines_view(
                                names@,
                            )[k1] != lines_view(names@)[k2] by {
                                if k2 < names0.len() {
                                    assert(names0[k1] != names0[k2]);
                                } else {
                                    assert(lines_view(names@)[k2] == nm@);
                                    assert(names0[k1] == lines_view(names@)[k1]);
                                    if names0[k1] == nm@ {
                                        assert(names0.contains(nm@));
                                    }
                                }
                            }
                        }
                    }
                    proof {
                        assert forall|n: Seq<char>|
                            pv.take(j + 1).contains(n) <==> (pv.take(j as int).contains(n) || n
                                == nm@) by {
                            lemma_push_contains(pv.take(j as int), nm@, n);
                        }
                    }
                    j = j + 1;
                }
                proof {
                    assert(pv.take(parsed@.len() as int) =~= pv);
                    assert forall|n: Seq<char>|
                        in_union_upto(lv, tag@, i + 1, n) <==> (in_union_upto(
                        lv,
                        tag@,
                        i as int,
                        n,
                    ) || pv.contains(n)) by {
                        if in_union_upto(lv, tag@, i + 1, n) {
                            let k = choose|k: int|
                                0 <= k < i + 1 && names_has(
                                    #[trigger] line_names(lv[k], tag@),
                                    n,
                                );
                            if k < i {
                                assert(in_union_upto(lv, tag@, i as int, n));
                            }
                        }
                        if in_union_upto(lv, tag@, i as int, n) {
                            let k = choose|k: int|
                                0 <= k < i && names_has(#[trigger] line_names(lv[k], tag@), n);
                            assert(0 <= k < i + 1);
                            assert(in_union_upto(lv, tag@, i + 1, n));
                        }
                        if pv.contains(n) {
                            assert(names_has(line_names(lv[i as int], tag@), n));
                            assert(in_union_upto(lv, tag@, i + 1, n));
                        }
                    }
                }
            },
        }
        i = i + 1;
    }
    Ok(names)
}

/// One entry of the read-only peer roster snapshot.
pub struct RosterEntry {
    /// The stable player id.
    pub id: u8,
    /// The display/nick name as it appears in chat.
    pub nick: Vec<char>,
    /// The account name, if the roster knows it.
    pub real_name: Option<Vec<char>>,
}

/// The roster resolution of one display name: the first entry whose nick
/// matches, kept only if it has a real name.
pub open spec fn resolve_name(roster: Seq<RosterEntry>, name: Seq<char>) -> Option<(u8, Seq<char>)>
    decreases roster.len(),
{
    if roster.len() == 0 {
        None
    } else if roster[0].nick@ == name {
        match roster[0].real_name {
            Some(rn) => Some((roster[0].id, rn@)),
            None => None,
        }
    } else {
        resolve_name(roster.skip(1), name)
    }
}

/// All resolutions of a name list, in order, dropping unresolved names and
/// the local player's own id.
pub open spec fn resolve_all(
    names: Seq<Seq<char>>,
    roster: Seq<RosterEntry>,
    self_id: u8,
) -> Seq<(u8, Seq<char>)>
    decreases names.len(),
{
    if names.len() == 0 {
        Seq::empty()
    } else {
        let rest = resolve_all(names.skip(1), roster, self_id);
        match resolve_name(roster, names[0]) {
            Some(p) => if p.0 != self_id {
                seq![p] + rest
            } else {
                rest
            },
            None => rest,
        }
    }
}

/// Looks one display name up in the roster.
fn resolve_one(roster: &Vec<RosterEntry>, name: &Vec<char>) -> (r: Option<(u8, Vec<char>)>)
    ensures
        match r {
            Some(p) => resolve_name(roster@, name@) == Some((p.0, p.1@)),
            None => resolve_name(roster@, name@) is None,
        },
{
    let mut k: usize = 0;
    proof {
        assert(roster@.skip(0) =~= roster@);
    }
    while k < roster.len()
        invariant
            k <= roster@.len(),
            resolve_name(roster@.skip(k as int), name@) == resolve_name(roster@, name@),
        decreases roster@.len() - k,
    {
        proof {
            assert(roster@.skip(k as int)[0] == roster@[k as int]);
            assert(roster@.skip(k as int).skip(1) =~= roster@.skip(k + 1));
        }
        if chars_eq(&roster[k].nick, name) {
            match &roster[k].real_name {
                Some(rn) => {
                    let rc = subvec(rn, 0, rn.len());
                    proof {
                        assert(rc@ =~= rn@);
                    }
                    return Some((roster[k].id, rc));
                },
                None => {
                    return None;
                },
            }
        }
        k = k + 1;
    }
    proof {
        assert(roster@.skip(roster@.len() as int) =~= Seq::<RosterEntry>::empty());
    }
    None
}

/// The view of a resolved peer list.
pub open spec fn peers_view(peers: Seq<(u8, Vec<char>)>) -> Seq<(u8, Seq<char>)> {
    peers.map_values(|p: (u8, Vec<char>)| (p.0, p.1@))
}

/// Resolves every collected display name against the roster: unresolved
/// names are silently dropped, and the local player is never its own peer.
pub fn resolve_peers(names: &Vec<Vec<char>>, roster: &Vec<RosterEntry>, self_id: u8) -> (r: Vec<
    (u8, Vec<char>),
>)
    ensures
        peers_view(r@) == resolve_all(lines_view(names@), roster@, self_id),
{
    let ghost nv = lines_view(names@);
    let mut out: Vec<(u8, Vec<char>)> = Vec::new();
    let mut i: usize = 0;
    proof {
        assert(nv.skip(0) =~= nv);
        assert(peers_view(out@) + resolve_all(nv, roster@, self_id) =~= resolve_all(
            nv,
            roster@,
            self_id,
        ));
    }
    while i < names.len()
        invariant
            nv == lines_view(names@),
            i <= names@.len(),
            resolve_all(nv, roster@, self_id) == peers_view(out@) + resolve_all(
                nv.skip(i as int),
                roster@,
                self_id,
            ),
        decreases names@.len() - i,
    {
        proof {
            assert(nv.skip(i as int)[0] == nv[i as int]);
            assert(nv.skip(i as int).skip(1) =~= nv.skip(i + 1));
            assert(nv[i as int] == names@[i as int]@);
        }
        let ghost out0 = peers_view(out@);
        match resolve_one(roster, &names[i]) {
            Some(p) => {
                let ghost gp = (p.0, p.1@);
                let keep = p.0 != self_id;
                if keep {
                    out.push(p);
                    proof {
                        assert(peers_view(out@) =~= out0.push(gp));
                        assert(out0.push(gp) + resolve_all(nv.skip(i + 1), roster@, self_id)
                            =~= out0 + (seq![gp] + resolve_all(nv.skip(i + 1), roster@, self_id)));
                    }
                }
            },
            None => {},
        }
        i = i + 1;
    }
    proof {
        assert(nv.skip(names@.len() as int) =~= Seq::<Seq<char>>::empty());
        assert(peers_view(out@) + Seq::<(u8, Seq<char>)>::empty() =~= peers_view(out@));
    }
    out
}

/// The one-time local notification guard: fires at most once per process.
pub struct NotifyOnce {
    fired: bool,
}

impl NotifyOnce {
    pub closed spec fn fired_spec(self) -> bool {
        self.fired
    }

    pub fn new() -> (r: Self)
        ensures
            !r.fired_spec(),
    {
        NotifyOnce { fired: false }
    }

    /// True exactly on the first call: the caller prints the notification
    /// then, and never again.
    pub fn fire(&mut self) -> (r: bool)
        ensures
            final(self).fired_spec(),
            r == !old(self).fired_spec(),
    {
        let r = !self.fired;
        self.fired = true;
        r
    }
}

} // verus!
