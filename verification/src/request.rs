//! Reading requests: query parameters, path parameters, page numbers and the
//! request URL.
use crate::http::{bad_request, PathParam, PluginError, Request};
use crate::text::{chars_of, push_chars, split, split_chars, split_once, split_once_chars, string_of};
use vstd::prelude::*;
use vstd::utf8::{decode_utf8, encode_utf8, valid_utf8};

verus! {

/// The key of a query parameter: the text before the first `=`.
pub open spec fn param_key(p: Seq<char>) -> Seq<char> {
    match split_once(p, '=') {
        Some((k, _)) => k,
        None => p,
    }
}

/// The raw value of a query parameter: the text after the first `=`.
pub open spec fn param_value(p: Seq<char>) -> Seq<char> {
    match split_once(p, '=') {
        Some((_, v)) => v,
        None => Seq::<char>::empty(),
    }
}

/// The raw value of the first parameter called `name`.
pub open spec fn find_param(ps: Seq<Seq<char>>, name: Seq<char>) -> Option<Seq<char>>
    decreases ps.len(),
{
    if ps.len() == 0 {
        None
    } else {
        match find_param(ps.drop_last(), name) {
            Some(v) => Some(v),
            None => if param_key(ps.last()) == name {
                Some(param_value(ps.last()))
            } else {
                None
            },
        }
    }
}

pub open spec fn raw_query_param(query: Option<Seq<char>>, name: Seq<char>) -> Option<Seq<char>> {
    match query {
        Some(q) => find_param(split(q, '&'), name),
        None => None,
    }
}

/// `+` stands for a space in form-encoded values.
pub open spec fn plus_to_space(s: Seq<char>) -> Seq<char> {
    Seq::new(s.len(), |i: int| if s[i] == '+' { ' ' } else { s[i] })
}

pub open spec fn is_hex_byte(b: u8) -> bool {
    (48 <= b <= 57) || (65 <= b <= 70) || (97 <= b <= 102)
}

pub open spec fn hex_value(b: u8) -> int {
    if 48 <= b <= 57 {
        b - 48
    } else if 65 <= b <= 70 {
        b - 55
    } else {
        b - 87
    }
}

/// Percent-decoding: every `%` followed by two hex digits becomes the byte
/// they denote; other bytes, and a `%` without two hex digits, stay.
pub open spec fn percent_decode(bs: Seq<u8>) -> Seq<u8>
    decreases bs.len(),
{
    if bs.len() == 0 {
        Seq::<u8>::empty()
    } else if bs[0] == 37 && bs.len() >= 3 && is_hex_byte(bs[1]) && is_hex_byte(bs[2]) {
        seq![(hex_value(bs[1]) * 16 + hex_value(bs[2])) as u8] + percent_decode(bs.skip(3))
    } else {
        seq![bs[0]] + percent_decode(bs.skip(1))
    }
}

/// The bytes that a raw parameter value decodes to.
pub open spec fn decoded_bytes(raw: Seq<char>) -> Seq<u8> {
    percent_decode(encode_utf8(plus_to_space(raw)))
}

/// Percent-decodes the bytes of `value` with percent_encoding's
/// `percent_decode_str` and reads them as UTF-8 (`decode_utf8`): the result
/// is the decoded text when the decoded bytes are valid UTF-8, else none.
#[verifier::external_body]
fn percent_decode_text(value: &str) -> (r: Option<String>)
    ensures
        r is Some <==> valid_utf8(percent_decode(encode_utf8(value@))),
        r matches Some(s) ==> s@ == decode_utf8(percent_decode(encode_utf8(value@))),
{
    match percent_encoding::percent_decode_str(value).decode_utf8() {
        Ok(text) => Some(text.into_owned()),
        Err(_) => None,
    }
}

/// Whether the query holds a parameter called `name` whose value does not
/// decode to UTF-8.
pub open spec fn query_param_invalid(query: Option<Seq<char>>, name: Seq<char>) -> bool {
    match raw_query_param(query, name) {
        Some(raw) => !valid_utf8(decoded_bytes(raw)),
        None => false,
    }
}

/// The decoded value of the first query parameter called `name`.
pub open spec fn query_param(query: Option<Seq<char>>, name: Seq<char>) -> Option<Seq<char>> {
    match raw_query_param(query, name) {
        Some(raw) => Some(decode_utf8(decoded_bytes(raw))),
        None => None,
    }
}

pub open spec fn opt_view(o: Option<&str>) -> Option<Seq<char>> {
    match o {
        Some(s) => Some(s@),
        None => None,
    }
}

/// The decoded value of the first query parameter called `name`; `+` reads
/// as a space and percent escapes are decoded.
/// The raw value of the first query parameter called `name`.
fn find_raw_param(q: &str, name: &str) -> (r: Option<Vec<char>>)
    ensures
        match r {
            Some(v) => raw_query_param(Some(q@), name@) == Some(v@),
            None => raw_query_param(Some(q@), name@) is None,
        },
{
    let v = chars_of(q);
    let pieces = split_chars(v.as_slice(), '&');
    let ghost ps = split(q@, '&');
    let mut i: usize = 0;
    assert(ps.take(0) =~= Seq::<Seq<char>>::empty());
    while i < pieces.len()
        invariant
            i <= pieces@.len(),
            pieces@.len() == ps.len(),
            ps == split(q@, '&'),
            forall|k: int| 0 <= k < pieces@.len() ==> #[trigger] pieces@[k]@ == ps[k],
            find_param(ps.take(i as int), name@) is None,
        decreases pieces.len() - i,
    {
        let p = &pieces[i];
        assert(p@ == ps[i as int]);
        assert(ps.take(i + 1).drop_last() =~= ps.take(i as int));
        assert(ps.take(i + 1).last() == ps[i as int]);
        let (key, value) = match split_once_chars(p.as_slice(), '=') {
            Some((k, val)) => (k, val),
            None => (crate::text::slice_chars(p.as_slice(), 0, p.len()), Vec::new()),
        };
        assert(key@ =~= param_key(p@));
        assert(value@ =~= param_value(p@));
        if crate::text::eq_chars(string_of(key.as_slice()).as_str(), name) {
            proof {
                lemma_find_param_prefix(ps, name@, i + 1);
            }
            return Some(value);
        }
        i = i + 1;
    }
    assert(ps.take(ps.len() as int) =~= ps);
    None
}

/// The decoded value of the first query parameter called `name`; `+` reads
/// as a space and percent escapes are decoded.
pub fn query_parameter(query: Option<&str>, name: &str) -> (r: Result<Option<String>, PluginError>)
    ensures
        query_param_invalid(opt_view(query), name@) ==> (r matches Err(PluginError::BadRequest(m))
            && m@ == "query string is not valid UTF-8"@),
        !query_param_invalid(opt_view(query), name@) ==> match query_param(opt_view(query), name@) {
            Some(v) => r matches Ok(Some(s)) && s@ == v,
            None => r matches Ok(None),
        },
{
    let q = match query {
        Some(q) => q,
        None => {
            return Ok(None);
        },
    };
    let raw = match find_raw_param(q, name) {
        Some(raw) => raw,
        None => {
            return Ok(None);
        },
    };
    let mut spaced: Vec<char> = Vec::new();
    let mut j: usize = 0;
    while j < raw.len()
        invariant
            j <= raw@.len(),
            spaced@ == plus_to_space(raw@).take(j as int),
        decreases raw.len() - j,
    {
        if raw[j] == '+' {
            spaced.push(' ');
        } else {
            spaced.push(raw[j]);
        }
        j = j + 1;
        assert(spaced@ =~= plus_to_space(raw@).take(j as int));
    }
    assert(spaced@ =~= plus_to_space(raw@));
    let text = string_of(spaced.as_slice());
    match percent_decode_text(text.as_str()) {
        Some(s) => Ok(Some(s)),
        None => Err(bad_request("query string is not valid UTF-8")),
    }
}

proof fn lemma_find_param_prefix(ps: Seq<Seq<char>>, name: Seq<char>, k: int)
    requires
        0 <= k <= ps.len(),
        find_param(ps.take(k), name) is Some,
    ensures
        find_param(ps, name) == find_param(ps.take(k), name),
    decreases ps.len() - k,
{
    if k < ps.len() {
        assert(ps.take(k + 1).drop_last() =~= ps.take(k));
        lemma_find_param_prefix(ps, name, k + 1);
    } else {
        assert(ps.take(k) =~= ps);
    }
}

/// The value of the first path parameter called `name`.
pub open spec fn path_param_value(ps: Seq<PathParam>, name: Seq<char>) -> Option<Seq<char>>
    decreases ps.len(),
{
    if ps.len() == 0 {
        None
    } else {
        match path_param_value(ps.drop_last(), name) {
            Some(v) => Some(v),
            None => if ps.last().name@ == name {
                Some(ps.last().value@)
            } else {
                None
            },
        }
    }
}

proof fn lemma_path_param_prefix(ps: Seq<PathParam>, name: Seq<char>, k: int)
    requires
        0 <= k <= ps.len(),
        path_param_value(ps.take(k), name) is Some,
    ensures
        path_param_value(ps, name) == path_param_value(ps.take(k), name),
    decreases ps.len() - k,
{
    if k < ps.len() {
        assert(ps.take(k + 1).drop_last() =~= ps.take(k));
        lemma_path_param_prefix(ps, name, k + 1);
    } else {
        assert(ps.take(k) =~= ps);
    }
}

/// The value of the path parameter called `name`; a missing parameter means
/// the route does not match.
pub fn path_param<'a>(request: &'a Request, name: &str) -> (r: Result<&'a str, PluginError>)
    ensures
        match path_param_value(request.path_params@, name@) {
            Some(v) => r matches Ok(s) && s@ == v,
            None => r matches Err(e) && e is NotFound,
        },
{
    let ghost ps = request.path_params@;
    let mut i: usize = 0;
    assert(ps.take(0) =~= Seq::<PathParam>::empty());
    while i < request.path_params.len()
        invariant
            i <= ps.len(),
            ps == request.path_params@,
            path_param_value(ps.take(i as int), name@) is None,
        decreases request.path_params.len() - i,
    {
        let p: &PathParam = &request.path_params[i];
        assert(ps.take(i + 1).drop_last() =~= ps.take(i as int));
        assert(ps.take(i + 1).last() == ps[i as int]);
        if crate::text::eq_chars(p.name.as_str(), name) {
            proof {
                lemma_path_param_prefix(ps, name@, i + 1);
            }
            return Ok(p.value.as_str());
        }
        i = i + 1;
    }
    assert(ps.take(ps.len() as int) =~= ps);
    Err(PluginError::NotFound)
}

/// The value of an all-digit string.
pub open spec fn digits_value(s: Seq<char>) -> nat
    decreases s.len(),
{
    if s.len() == 0 {
        0
    } else {
        digits_value(s.drop_last()) * 10 + ((s.last() as u32) - 48) as nat
    }
}

pub open spec fn all_digits(s: Seq<char>) -> bool {
    forall|i: int| 0 <= i < s.len() ==> crate::text::is_ascii_digit(#[trigger] s[i])
}

/// The digits of a page number: an optional leading `+` is accepted, as
/// `usize::from_str` does.
pub open spec fn page_digits(s: Seq<char>) -> Seq<char> {
    if s.len() > 0 && s[0] == '+' {
        s.drop_first()
    } else {
        s
    }
}

/// Whether `s` is a page number the blog serves: 1 to 166667.
pub open spec fn is_page_number(s: Seq<char>) -> bool {
    let d = page_digits(s);
    d.len() > 0 && all_digits(d) && 1 <= digits_value(d) <= 166667
}

/// A page number from the URL; anything else is not found.
pub fn parse_page_number(value: &str) -> (r: Result<usize, PluginError>)
    ensures
        is_page_number(value@) ==> r == Ok::<usize, PluginError>(
            digits_value(page_digits(value@)) as usize,
        ),
        !is_page_number(value@) ==> (r matches Err(e) && e is NotFound),
{
    let v = chars_of(value);
    let start: usize = if v.len() > 0 && v[0] == '+' {
        1
    } else {
        0
    };
    let d = crate::text::slice_chars(v.as_slice(), start, v.len());
    assert(d@ =~= page_digits(value@));
    if d.len() == 0 {
        return Err(PluginError::NotFound);
    }
    let mut acc: usize = 0;
    let mut i: usize = 0;
    assert(d@.take(0) =~= Seq::<char>::empty());
    while i < d.len()
        invariant
            i <= d@.len(),
            d@ == page_digits(value@),
            all_digits(d@.take(i as int)),
            digits_value(d@.take(i as int)) <= 166667 ==> acc == digits_value(d@.take(i as int)),
            digits_value(d@.take(i as int)) > 166667 ==> acc > 166667,
            acc <= 1666679,
        decreases d.len() - i,
    {
        let c = d[i];
        if !crate::text::is_digit(c) {
            assert(!all_digits(d@)) by {
                assert(!crate::text::is_ascii_digit(d@[i as int]));
            }
            return Err(PluginError::NotFound);
        }
        assert(d@.take(i + 1).drop_last() =~= d@.take(i as int));
        assert(d@.take(i + 1).last() == c);
        let digit = (c as u32 - 48) as usize;
        assert(digit < 10);
        if acc <= 166667 {
            acc = acc * 10 + digit;
        }
        i = i + 1;
        assert(all_digits(d@.take(i as int))) by {
            assert forall|k: int| 0 <= k < i implies crate::text::is_ascii_digit(
                #[trigger] d@.take(i as int)[k],
            ) by {
                if k < i - 1 {
                    assert(d@.take(i as int)[k] == d@.take(i - 1)[k]);
                }
            }
        }
    }
    assert(d@.take(d@.len() as int) =~= d@);
    if acc >= 1 && acc <= 166667 {
        Ok(acc)
    } else {
        Err(PluginError::NotFound)
    }
}

/// The URL of the current request: its path, with the query when there is
/// one.
pub open spec fn request_url_of(r: Request) -> Seq<char> {
    match r.query {
        Some(q) => if q@.len() > 0 {
            r.path@.push('?') + q@
        } else {
            r.path@
        },
        None => r.path@,
    }
}

/// The URL of the current request.
pub fn request_url(request: &Request) -> (r: String)
    ensures
        r@ == request_url_of(*request),
{
    match &request.query {
        Some(q) => {
            if q.as_str().is_empty() {
                request.path.clone()
            } else {
                let mut url = request.path.clone();
                crate::text::push_char(&mut url, '?');
                url.append(q.as_str());
                url
            }
        },
        None => request.path.clone(),
    }
}

} // verus!
