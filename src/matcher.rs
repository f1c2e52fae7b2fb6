//! The path matcher: `route_recognizer::Router`, keyed by handler index.
use route_recognizer::Router;
use vstd::prelude::*;

verus! {

#[verifier::external_type_specification]
#[verifier::external_body]
#[verifier::reject_recursive_types(T)]
pub struct ExRouter<T>(Router<T>);

/// The routes added to a router, as (pattern, handler index), oldest first.
pub uninterp spec fn routes_of(r: Router<usize>) -> Seq<(Seq<char>, usize)>;

/// What the router built from `routes` (added in that order) recognizes in
/// `path`: the handler index and the captured (name, value) parameters.
pub uninterp spec fn recognized(routes: Seq<(Seq<char>, usize)>, path: Seq<char>) -> Option<
    (usize, Seq<(Seq<char>, Seq<char>)>),
>;

/// The pattern with a single leading `/` removed, as the router reads it.
pub open spec fn pattern_body(pattern: Seq<char>) -> Seq<char> {
    if pattern.len() > 0 && pattern[0] == '/' {
        pattern.drop_first()
    } else {
        pattern
    }
}

/// The router slices its first segment after one byte, so a pattern is
/// accepted when that segment does not open with a multi-byte character.
pub open spec fn pattern_accepted(pattern: Seq<char>) -> bool {
    pattern_body(pattern).len() > 0 ==> (pattern_body(pattern)[0] as u32) < 0x80
}

/// The router's character classes compute `c as u32 - 1` for every
/// character they are built from or tested against, so NUL is refused.
pub open spec fn free_of_nul(s: Seq<char>) -> bool {
    forall|i: int| 0 <= i < s.len() ==> s[i] != '\0'
}

/// (name, value) pairs seen as character sequences.
pub open spec fn pairs_view(pairs: Seq<(String, String)>) -> Seq<(Seq<char>, Seq<char>)> {
    pairs.map_values(|p: (String, String)| (p.0@, p.1@))
}

/// Relies on `Router::new`: a fresh router holds no route.
#[verifier::external_body]
pub(crate) fn router_new() -> (r: Router<usize>)
    ensures
        routes_of(r) == Seq::<(Seq<char>, usize)>::empty(),
{
    Router::new()
}

/// Relies on `Router::add`: the route is recorded after those already held.
/// `add` slices the pattern's first segment after its first byte, and turns
/// each character of a literal segment into a character class, hence the
/// requirements.
#[verifier::external_body]
pub(crate) fn router_add(r: &mut Router<usize>, pattern: &str, handler: usize)
    requires
        pattern_accepted(pattern@),
        free_of_nul(pattern@),
    ensures
        routes_of(*final(r)) == routes_of(*old(r)).push((pattern@, handler)),
{
    r.add(pattern, handler)
}

/// Relies on `Router::recognize`: the result depends on the routes added and
/// the path alone, and a recognized handler is one that was added. Each path
/// character is tested against character classes, hence the requirement.
#[verifier::external_body]
pub(crate) fn router_recognize(r: &Router<usize>, path: &str) -> (res: Option<
    (usize, Vec<(String, String)>),
>)
    requires
        free_of_nul(path@),
    ensures
        match res {
            Some((h, ps)) => recognized(routes_of(*r), path@) == Some((h, pairs_view(ps@))),
            None => recognized(routes_of(*r), path@).is_none(),
        },
        res matches Some((h, _)) ==> exists|i: int|
            0 <= i < routes_of(*r).len() && (#[trigger] routes_of(*r)[i]).1 == h,
{
    match r.recognize(path) {
        Ok(m) => Some(
            (
                **m.handler(),
                m.params().iter().map(|(k, v)| (k.to_string(), v.to_string())).collect(),
            ),
        ),
        Err(_) => None,
    }
}

} // verus!
