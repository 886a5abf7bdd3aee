//! Request routing: how a route pattern scores against a request path, and
//! which of an application's routes serves a request.

use vstd::prelude::*;
use crate::app::Route;
use crate::text::{chars_of, lemma_split_at_nonempty, same_chars, split_at, split_chars};

verus! {

/// The non-empty `/`-separated segments of a path.
pub open spec fn path_segments(text: Seq<char>) -> Seq<Seq<char>> {
    split_at(text, '/').filter(|piece: Seq<char>| piece.len() > 0)
}

/// A path without its query: what precedes the first `?`.
pub open spec fn without_query(text: Seq<char>) -> Seq<char> {
    split_at(text, '?')[0]
}

pub open spec fn starts_with_char(segment: Seq<char>, c: char) -> bool {
    segment.len() > 0 && segment[0] == c
}

/// How well pattern segments match path segments: `None` when they do not
/// match; otherwise the number of literal segments matched and the number
/// of segments matched in all. `:name` matches any one segment and `*rest`
/// matches whatever is left.
pub open spec fn segment_score(pattern: Seq<Seq<char>>, path: Seq<Seq<char>>) -> Option<(nat, nat)>
    decreases pattern.len(),
{
    if pattern.len() == 0 {
        if path.len() == 0 {
            Some((0nat, 0nat))
        } else {
            None
        }
    } else if starts_with_char(pattern[0], '*') {
        Some((0nat, 0nat))
    } else if path.len() == 0 {
        None
    } else {
        match segment_score(pattern.drop_first(), path.drop_first()) {
            None => None,
            Some((literal, segments)) => if starts_with_char(pattern[0], ':') {
                Some((literal, segments + 1))
            } else if pattern[0] == path[0] {
                Some((literal + 1, segments + 1))
            } else {
                None
            },
        }
    }
}

/// The score of a route pattern against a request path (its query ignored).
pub open spec fn route_score_of(pattern: Seq<char>, path: Seq<char>) -> Option<(nat, nat)> {
    segment_score(path_segments(pattern), path_segments(without_query(path)))
}

pub open spec fn score_view(score: Option<(usize, usize)>) -> Option<(nat, nat)> {
    match score {
        Some((literal, segments)) => Some((literal as nat, segments as nat)),
        None => None,
    }
}

/// The non-empty segments of a path, in order.
fn segments_of(text: &[char]) -> (out: Vec<Vec<char>>)
    ensures
        out@.map_values(|piece: Vec<char>| piece@) == path_segments(text@),
{
    let pieces = split_chars(text, '/');
    let ghost all = split_at(text@, '/');
    let mut out: Vec<Vec<char>> = Vec::new();
    let mut k: usize = 0;
    assert(all.take(0) =~= Seq::<Seq<char>>::empty());
    proof {
        reveal(Seq::filter);
    }
    while k < pieces.len()
        invariant
            pieces@.map_values(|piece: Vec<char>| piece@) == all,
            all == split_at(text@, '/'),
            k <= pieces@.len(),
            out@.map_values(|piece: Vec<char>| piece@) == all.take(k as int).filter(
                |piece: Seq<char>| piece.len() > 0,
            ),
        decreases pieces@.len() - k,
    {
        proof {
            assert(all.take(k + 1) =~= all.take(k as int).push(all[k as int]));
            all.take(k as int).lemma_filter_push(all[k as int], |piece: Seq<char>| piece.len() > 0);
        }
        if pieces[k].len() > 0 {
            out.push(pieces[k].clone());
            assert(out@.map_values(|piece: Vec<char>| piece@) =~= all.take(k + 1).filter(
                |piece: Seq<char>| piece.len() > 0,
            ));
        }
        k = k + 1;
    }
    assert(all.take(k as int) =~= all);
    out
}

fn first_char_is(segment: &Vec<char>, c: char) -> (r: bool)
    ensures
        r == starts_with_char(segment@, c),
{
    segment.len() > 0 && segment[0] == c
}

/// The score of a route pattern against a request path: the number of
/// literal segments and of all segments matched, or `None` where the path
/// does not match the pattern.
pub fn route_score(pattern: &str, path: &str) -> (r: Option<(usize, usize)>)
    ensures
        score_view(r) == route_score_of(pattern@, path@),
{
    let pattern_chars = chars_of(pattern);
    let path_chars = chars_of(path);
    let queries = split_chars(path_chars.as_slice(), '?');
    proof {
        lemma_split_at_nonempty(path@, '?');
    }
    let request = &queries[0];
    let expected = segments_of(pattern_chars.as_slice());
    let actual = segments_of(request.as_slice());
    let ghost p = path_segments(pattern@);
    let ghost q = path_segments(without_query(path@));
    assert(expected@.map_values(|piece: Vec<char>| piece@) == p);
    assert(actual@.map_values(|piece: Vec<char>| piece@) == q);
    let mut literal: usize = 0;
    let mut segments: usize = 0;
    let mut i: usize = 0;
    assert(p.skip(0) =~= p);
    assert(q.skip(0) =~= q);
    while i < expected.len()
        invariant
            expected@.map_values(|piece: Vec<char>| piece@) == p,
            actual@.map_values(|piece: Vec<char>| piece@) == q,
            p == path_segments(pattern@),
            q == path_segments(without_query(path@)),
            i <= expected@.len(),
            i <= actual@.len(),
            literal <= i,
            segments == i,
            route_score_of(pattern@, path@) == match segment_score(p.skip(i as int), q.skip(i as int)) {
                None => None,
                Some((l, s)) => Some(((l + literal) as nat, (s + segments) as nat)),
            },
        decreases expected@.len() - i,
    {
        assert(p.skip(i as int)[0] == p[i as int]);
        assert(p.skip(i as int).drop_first() =~= p.skip(i + 1));
        assert(expected@[i as int]@ == p[i as int]);
        if first_char_is(&expected[i], '*') {
            return Some((literal, segments));
        }
        if i >= actual.len() {
            assert(q.skip(i as int).len() == 0);
            return None;
        }
        assert(q.skip(i as int)[0] == q[i as int]);
        assert(q.skip(i as int).drop_first() =~= q.skip(i + 1));
        assert(actual@[i as int]@ == q[i as int]);
        if !first_char_is(&expected[i], ':') {
            if !same_chars(expected[i].as_slice(), actual[i].as_slice()) {
                return None;
            }
            literal = literal + 1;
        }
        segments = segments + 1;
        i = i + 1;
    }
    if i < actual.len() {
        assert(p.skip(i as int).len() == 0);
        None
    } else {
        assert(p.skip(i as int).len() == 0);
        assert(q.skip(i as int).len() == 0);
        Some((literal, segments))
    }
}

/// Whether one score orders before another: fewer literal segments, or as
/// many and fewer segments in all.
pub open spec fn score_less(a: (nat, nat), b: (nat, nat)) -> bool {
    a.0 < b.0 || (a.0 == b.0 && a.1 < b.1)
}

pub open spec fn upper_char(c: char) -> char {
    if 'a' <= c && c <= 'z' {
        ((c as u32) - 32) as char
    } else {
        c
    }
}

/// A method name with its ASCII letters in upper case.
pub open spec fn ascii_upper(text: Seq<char>) -> Seq<char> {
    text.map_values(|c: char| upper_char(c))
}

/// The score of a route for a request, where its method admits the request.
pub open spec fn route_key(route: Route, method: Seq<char>, path: Seq<char>) -> Option<(nat, nat)> {
    if route.method@ == "ANY"@ || route.method@ == ascii_upper(method) {
        route_score_of(route.path@, path)
    } else {
        None
    }
}

/// The route that serves a request: among the routes whose method admits
/// it and whose pattern matches its path, one with the highest score; of
/// several with that score, the last.
pub open spec fn chosen_route(routes: Seq<Route>, method: Seq<char>, path: Seq<char>, index: int) -> bool {
    &&& 0 <= index < routes.len()
    &&& route_key(routes[index], method, path) is Some
    &&& forall|j: int| 0 <= j < routes.len() && (#[trigger] route_key(routes[j], method, path)) is Some
        ==> !score_less(route_key(routes[index], method, path)->0, route_key(routes[j], method, path)->0)
            && (j > index ==> score_less(route_key(routes[j], method, path)->0, route_key(routes[index], method, path)->0))
}

fn upper_ascii(text: &str) -> (out: Vec<char>)
    ensures
        out@ == ascii_upper(text@),
{
    let chars = chars_of(text);
    let mut out: Vec<char> = Vec::new();
    let mut i: usize = 0;
    while i < chars.len()
        invariant
            chars@ == text@,
            i <= chars@.len(),
            out@ == ascii_upper(chars@.take(i as int)),
        decreases chars@.len() - i,
    {
        let c = chars[i];
        let upper = if 'a' <= c && c <= 'z' {
            let code: u8 = (c as u8) - 32;
            code as char
        } else {
            c
        };
        out.push(upper);
        assert(chars@.take(i + 1) =~= chars@.take(i as int).push(c));
        assert(out@ =~= ascii_upper(chars@.take(i + 1)));
        i = i + 1;
    }
    assert(chars@.take(i as int) =~= chars@);
    out
}

fn method_admits(route: &Route, method: &[char]) -> (r: bool)
    ensures
        r == (route.method@ == "ANY"@ || route.method@ == method@),
{
    let own = chars_of(route.method.as_str());
    let any = chars_of("ANY");
    same_chars(own.as_slice(), any.as_slice()) || same_chars(own.as_slice(), method)
}

fn exec_less(a: (usize, usize), b: (usize, usize)) -> (r: bool)
    ensures
        r == score_less((a.0 as nat, a.1 as nat), (b.0 as nat, b.1 as nat)),
{
    a.0 < b.0 || (a.0 == b.0 && a.1 < b.1)
}

/// The index of the route that serves a request with this method and path,
/// or `None` when no route admits it.
pub fn select_route(routes: &Vec<Route>, method: &str, path: &str) -> (r: Option<usize>)
    ensures
        match r {
            Some(index) => chosen_route(routes@, method@, path@, index as int),
            None => forall|j: int| 0 <= j < routes@.len() ==> (#[trigger] route_key(routes@[j], method@, path@)) is None,
        },
{
    let upper = upper_ascii(method);
    let mut best: Option<(usize, (usize, usize))> = None;
    let mut i: usize = 0;
    while i < routes.len()
        invariant
            upper@ == ascii_upper(method@),
            i <= routes@.len(),
            match best {
                None => forall|j: int| 0 <= j < i ==> (#[trigger] route_key(routes@[j], method@, path@)) is None,
                Some((b, score)) => b < i && route_key(routes@[b as int], method@, path@) == Some(
                    (score.0 as nat, score.1 as nat),
                ) && forall|j: int| 0 <= j < i && (#[trigger] route_key(routes@[j], method@, path@)) is Some
                    ==> !score_less((score.0 as nat, score.1 as nat), route_key(routes@[j], method@, path@)->0)
                        && (j > b ==> score_less(route_key(routes@[j], method@, path@)->0, (score.0 as nat, score.1 as nat))),
            },
        decreases routes@.len() - i,
    {
        let route = &routes[i];
        if method_admits(route, upper.as_slice()) {
            match route_score(route.path.as_str(), path) {
                None => {},
                Some(score) => {
                    let replace = match best {
                        None => true,
                        Some((_, current)) => !exec_less(score, current),
                    };
                    if replace {
                        best = Some((i, score));
                    }
                },
            }
        }
        i = i + 1;
    }
    match best {
        None => None,
        Some((b, _)) => Some(b),
    }
}


/// Literal pattern segments (those not starting with `:` or `*`) that come
/// before any `*` segment each match their path segment exactly.
proof fn lemma_literal_segments_equal(pattern: Seq<Seq<char>>, path: Seq<Seq<char>>)
    requires
        segment_score(pattern, path) is Some,
    ensures
        forall|i: int|
            0 <= i < pattern.len() && (forall|j: int| 0 <= j <= i ==> !(pattern[j].len() > 0 && pattern[j][0] == '*'))
                && !(pattern[i].len() > 0 && pattern[i][0] == ':') ==> i < path.len() && #[trigger] pattern[i] == path[i],
    decreases pattern.len(),
{
    if pattern.len() > 0 && !starts_with_char(pattern[0], '*') {
        lemma_literal_segments_equal(pattern.drop_first(), path.drop_first());
        assert forall|i: int|
            0 <= i < pattern.len() && (forall|j: int| 0 <= j <= i ==> !(pattern[j].len() > 0 && pattern[j][0] == '*'))
                && !(pattern[i].len() > 0 && pattern[i][0] == ':') implies i < path.len() && #[trigger] pattern[i] == path[i] by {
            if i > 0 {
                assert(pattern.drop_first()[i - 1] == pattern[i]);
                assert forall|j: int| 0 <= j <= i - 1 implies !(pattern.drop_first()[j].len() > 0
                    && pattern.drop_first()[j][0] == '*') by {
                    assert(pattern.drop_first()[j] == pattern[j + 1]);
                }
                assert(path.drop_first()[i - 1] == path[i]);
            }
        }
    }
}

/// A route matches only where its literal segments are the request's: if
/// `route_score(pattern, path)` is `Some`, every segment of the pattern not
/// starting with `:` or `*`, and not after a `*` segment, is the same text
/// as the path segment at its position (the query left out).
pub proof fn law_literal_segments_match_exactly(pattern: Seq<char>, path: Seq<char>)
    ensures
        route_score_of(pattern, path) is Some ==> {
            let p = path_segments(pattern);
            let q = path_segments(without_query(path));
            forall|i: int|
                0 <= i < p.len() && (forall|j: int| 0 <= j <= i ==> !(p[j].len() > 0 && p[j][0] == '*'))
                    && !(p[i].len() > 0 && p[i][0] == ':') ==> i < q.len() && #[trigger] p[i] == q[i]
        },
{
    if route_score_of(pattern, path) is Some {
        lemma_literal_segments_equal(path_segments(pattern), path_segments(without_query(path)));
    }
}


proof fn lemma_plain_pattern_score(pattern: Seq<Seq<char>>, path: Seq<Seq<char>>)
    requires
        forall|j: int| 0 <= j < pattern.len() ==> !(#[trigger] pattern[j].len() > 0 && pattern[j][0] == '*'),
    ensures
        (segment_score(pattern, path) is Some) <==> (pattern.len() == path.len() && forall|i: int|
            0 <= i < pattern.len() && !(pattern[i].len() > 0 && pattern[i][0] == ':') ==> #[trigger] pattern[i]
                == path[i]),
        segment_score(pattern, path) matches Some((literal, segments)) ==> segments == pattern.len(),
    decreases pattern.len(),
{
    if pattern.len() > 0 {
        assert forall|j: int| 0 <= j < pattern.drop_first().len() implies !(#[trigger] pattern.drop_first()[j].len() > 0
            && pattern.drop_first()[j][0] == '*') by {
            assert(pattern.drop_first()[j] == pattern[j + 1]);
        }
        assert(!(pattern[0].len() > 0 && pattern[0][0] == '*'));
        if path.len() > 0 {
            lemma_plain_pattern_score(pattern.drop_first(), path.drop_first());
            if pattern.len() == path.len() && (forall|i: int|
                0 <= i < pattern.len() && !(pattern[i].len() > 0 && pattern[i][0] == ':') ==> #[trigger] pattern[i]
                    == path[i]) {
                assert forall|i: int|
                    0 <= i < pattern.drop_first().len() && !(pattern.drop_first()[i].len() > 0
                        && pattern.drop_first()[i][0] == ':') implies #[trigger] pattern.drop_first()[i]
                    == path.drop_first()[i] by {
                    assert(pattern.drop_first()[i] == pattern[i + 1]);
                    assert(path.drop_first()[i] == path[i + 1]);
                }
                if !(pattern[0].len() > 0 && pattern[0][0] == ':') {
                    assert(pattern[0] == path[0]);
                }
            }
            if segment_score(pattern, path) is Some {
                assert forall|i: int|
                    0 <= i < pattern.len() && !(pattern[i].len() > 0 && pattern[i][0] == ':') implies #[trigger] pattern[i]
                        == path[i] by {
                    if i > 0 {
                        assert(pattern.drop_first()[i - 1] == pattern[i]);
                        assert(path.drop_first()[i - 1] == path[i]);
                    }
                }
            }
        }
    }
}

/// A pattern without a `*` segment matches a path exactly when both have
/// the same number of segments and each segment of the pattern not
/// starting with `:` is the path's segment at its position; the match then
/// counts every segment of the pattern.
pub proof fn law_plain_patterns_match_segment_by_segment(pattern: Seq<char>, path: Seq<char>)
    ensures
        ({
            let p = path_segments(pattern);
            let q = path_segments(without_query(path));
            (forall|j: int| 0 <= j < p.len() ==> !(#[trigger] p[j].len() > 0 && p[j][0] == '*')) ==> {
                &&& (route_score_of(pattern, path) is Some) <==> (p.len() == q.len() && forall|i: int|
                    0 <= i < p.len() && !(p[i].len() > 0 && p[i][0] == ':') ==> #[trigger] p[i] == q[i])
                &&& route_score_of(pattern, path) matches Some((literal, segments)) ==> segments == p.len()
            }
        }),
{
    let p = path_segments(pattern);
    let q = path_segments(without_query(path));
    if forall|j: int| 0 <= j < p.len() ==> !(#[trigger] p[j].len() > 0 && p[j][0] == '*') {
        lemma_plain_pattern_score(p, q);
    }
}

} // verus!
