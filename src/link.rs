//! Links that stand for interactive components: `interactive:name?k=v&k2=v2`.
use vstd::prelude::*;
use crate::text::{chars_of, slice_chars, string_of};
use crate::url::{Params, decoded, percent_decode_chars};

verus! {

/// The first index of `c` in `s`.
pub open spec fn first_index(s: Seq<char>, c: char) -> Option<int> {
    if exists|i: int| 0 <= i < s.len() && s[i] == c {
        Some(choose|i: int| 0 <= i < s.len() && s[i] == c && forall|j: int| 0 <= j < i ==> s[j] != c)
    } else {
        None
    }
}

/// `s` without `prefix` where it starts with it.
pub open spec fn without_prefix(s: Seq<char>, prefix: Seq<char>) -> Seq<char> {
    if prefix.len() <= s.len() && s.subrange(0, prefix.len() as int) == prefix {
        s.subrange(prefix.len() as int, s.len() as int)
    } else {
        s
    }
}

/// The link target without the `interactive:` scheme.
pub open spec fn link_body(url: Seq<char>) -> Seq<char> {
    without_prefix(url, "interactive:"@)
}

/// The component name: the body up to its first `?`.
pub open spec fn component_of(url: Seq<char>) -> Seq<char> {
    match first_index(link_body(url), '?') {
        Some(q) => link_body(url).subrange(0, q),
        None => link_body(url),
    }
}

/// One `key=value` piece of the query: recorded, with its value decoded,
/// where it holds a `=`; else skipped.
pub open spec fn apply_piece(m: Map<Seq<char>, Seq<char>>, piece: Seq<char>) -> Map<Seq<char>, Seq<char>> {
    match first_index(piece, '=') {
        Some(e) => m.insert(piece.subrange(0, e), decoded(piece.subrange(e + 1, piece.len() as int))),
        None => m,
    }
}

/// The parameters recorded from a query read up to the end of `q`, and the
/// piece still open there.
pub open spec fn query_scan(m: Map<Seq<char>, Seq<char>>, q: Seq<char>) -> (Map<Seq<char>, Seq<char>>, Seq<char>)
    decreases q.len(),
{
    if q.len() == 0 {
        (m, Seq::empty())
    } else {
        let (done, piece) = query_scan(m, q.drop_last());
        if q.last() == '&' {
            (apply_piece(done, piece), Seq::empty())
        } else {
            (done, piece.push(q.last()))
        }
    }
}

/// The parameters of an interactive link: `label` is the link text, then
/// each `key=value` piece of the query, split at `&`, in order.
pub open spec fn link_params(url: Seq<char>, link_text: Seq<char>) -> Map<Seq<char>, Seq<char>> {
    let start = Map::<Seq<char>, Seq<char>>::empty().insert("label"@, link_text);
    match first_index(link_body(url), '?') {
        Some(q) => {
            let (done, piece) = query_scan(start, link_body(url).subrange(q + 1, link_body(url).len() as int));
            apply_piece(done, piece)
        },
        None => start,
    }
}

/// The first index of `c` in `v` from `from` on.
fn find_char(v: &Vec<char>, c: char) -> (r: Option<usize>)
    ensures
        r matches Some(i) ==> first_index(v@, c) == Some(i as int) && i < v@.len(),
        r is None ==> first_index(v@, c) is None,
{
    let mut i: usize = 0;
    while i < v.len()
        invariant
            i <= v@.len(),
            forall|j: int| 0 <= j < i ==> v@[j] != c,
        decreases v@.len() - i,
    {
        if v[i] == c {
            proof {
                let k = choose|k: int| 0 <= k < v@.len() && v@[k] == c && forall|j: int| 0 <= j < k ==> v@[j] != c;
                assert(k == i);
            }
            return Some(i);
        }
        i = i + 1;
    }
    None
}

/// Records one `key=value` piece.
fn add_piece(params: &mut Params, piece: &Vec<char>)
    ensures
        final(params)@ == apply_piece(old(params)@, piece@),
{
    match find_char(piece, '=') {
        Some(e) => {
            assert(e < piece.len());
            let key = slice_chars(piece, 0, e);
            let value = percent_decode_chars(&slice_chars(piece, e + 1, piece.len()));
            params.insert_chars(key, value);
        },
        None => {},
    }
}

/// The link target without the `interactive:` scheme.
fn body_of(url: &str) -> (r: Vec<char>)
    ensures
        r@ == link_body(url@),
{
    let u = chars_of(url);
    let prefix = chars_of("interactive:");
    assert(u@.subrange(0, u@.len() as int) =~= u@);
    if prefix.len() <= u.len() && crate::text::same_chars(&slice_chars(&u, 0, prefix.len()), &prefix) {
        slice_chars(&u, prefix.len(), u.len())
    } else {
        slice_chars(&u, 0, u.len())
    }
}

/// Records the pieces of a query, split at `&`.
fn add_query(params: &mut Params, query: &Vec<char>)
    ensures
        final(params)@ == apply_piece(query_scan(old(params)@, query@).0, query_scan(old(params)@, query@).1),
{
    let ghost start = params@;
    let mut piece: Vec<char> = Vec::new();
    let mut i: usize = 0;
    while i < query.len()
        invariant
            i <= query@.len(),
            query_scan(start, query@.take(i as int)) == (params@, piece@),
        decreases query@.len() - i,
    {
        assert(query@.take(i + 1).drop_last() =~= query@.take(i as int));
        if query[i] == '&' {
            add_piece(params, &piece);
            piece = Vec::new();
            assert(piece@ =~= Seq::<char>::empty());
        } else {
            piece.push(query[i]);
        }
        i = i + 1;
    }
    assert(query@.take(i as int) =~= query@);
    add_piece(params, &piece);
}

/// The component name of an interactive link and its
/// parameters.
pub fn parse_interactive_params(url: &str, link_text: String) -> (r: (String, Params))
    ensures
        r.0@ == component_of(url@),
        r.1@ == link_params(url@, link_text@),
{
    let mut params = Params::new();
    params.insert("label", link_text.as_str());
    let body = body_of(url);
    match find_char(&body, '?') {
        Some(q) => {
            assert(q < body.len());
            let name = string_of(&slice_chars(&body, 0, q));
            let query = slice_chars(&body, q + 1, body.len());
            add_query(&mut params, &query);
            (name, params)
        },
        None => (string_of(&body), params),
    }
}

} // verus!
