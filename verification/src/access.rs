//! Who may ask, and under which path.
use vstd::prelude::*;
use vstd::utf8::*;
use crate::text::{
    after, has_prefix, joined, joined3, option_slice_view, option_view, same, strip_prefix,
};

verus! {

broadcast use vstd::string::group_string_axioms;

/// Or-ing in a byte leaves zero only where both were.
proof fn lemma_or_zero(a: u8, b: u8)
    ensures
        (a | b) == 0 <==> a == 0 && b == 0,
{
    assert((a | b) == 0 <==> a == 0 && b == 0) by (bit_vector);
}

/// Two bytes differ in no bit only where they are the same.
proof fn lemma_xor_zero(a: u8, b: u8)
    ensures
        (a ^ b) == 0 <==> a == b,
{
    assert((a ^ b) == 0 <==> a == b) by (bit_vector);
}

/// Whether two tokens are the same.
///
/// Every byte is looked at whatever the others are, so that the time taken does
/// not tell how much of a guess was right. Only the length shows.
pub fn constant_time_eq(a: &str, b: &str) -> (r: bool)
    ensures
        r == (a@ == b@),
{
    let x = a.as_bytes();
    let y = b.as_bytes();
    if x.len() != y.len() {
        return false;
    }
    let mut seen: u8 = 0;
    let mut i: usize = 0;
    while i < x.len()
        invariant
            x@ == encode_utf8(a@),
            y@ == encode_utf8(b@),
            x.len() == y.len(),
            i <= x.len(),
            seen == 0 <==> forall|j: int| 0 <= j < i ==> x@[j] == y@[j],
        decreases x.len() - i,
    {
        let d: u8 = x[i] ^ y[i];
        proof {
            lemma_xor_zero(x@[i as int], y@[i as int]);
            lemma_or_zero(seen, d);
        }
        seen = seen | d;
        i += 1;
    }
    proof {
        if seen == 0 {
            assert(x@ =~= y@);
            encode_utf8_decode_utf8(a@);
            encode_utf8_decode_utf8(b@);
        }
    }
    seen == 0
}

/// Whether a request may be answered: a token is asked for only where one is
/// set, and not of a preflight, of the health probe or of the API's own
/// description.
pub open spec fn authorized(
    expected: Option<Seq<char>>,
    is_options: bool,
    path: Seq<char>,
    header: Option<Seq<char>>,
) -> bool {
    match expected {
        None => true,
        Some(token) => is_options || path == "/api/health"@ || path == "/api/openapi.json"@ || (
        header matches Some(h) && h == "Bearer "@ + token),
    }
}

/// Whether a request may be answered. `header` is its `authorization` header,
/// where it has one that is text.
pub fn is_request_authorized(
    expected: Option<&str>,
    is_options: bool,
    path: &str,
    header: Option<&str>,
) -> (r: bool)
    ensures
        r == authorized(
            option_slice_view(expected),
            is_options,
            path@,
            option_slice_view(header),
        ),
{
    let token = match expected {
        None => return true,
        Some(t) => t,
    };
    if is_options || same(path, "/api/health") || same(path, "/api/openapi.json") {
        return true;
    }
    match header {
        None => false,
        Some(h) => {
            proof {
                crate::marks::lemma_prefixed(h@, "Bearer "@, token@);
            }
            match strip_prefix(h, "Bearer ") {
                Some(t) => constant_time_eq(t, token),
                None => false,
            }
        },
    }
}

/// The path and query that a versioned path stands for.
pub open spec fn unversioned(path: Seq<char>, query: Seq<char>) -> Option<Seq<char>> {
    if has_prefix(path, "/api/v1/"@) {
        let rest = "/api/"@ + after(path, "/api/v1/"@.len() as int);
        if query.len() == 0 {
            Some(rest)
        } else {
            Some(rest + "?"@ + query)
        }
    } else {
        None
    }
}

/// The path and query that a versioned path stands for: the stable version is
/// an alias of the paths without one. Other paths are left alone.
pub fn rewrite_v1_alias(path: &str, query: &str) -> (r: Option<String>)
    ensures
        option_view(r) == unversioned(path@, query@),
{
    match strip_prefix(path, "/api/v1/") {
        None => None,
        Some(rest) => {
            let target = joined("/api/", rest);
            if query.is_empty() {
                Some(target)
            } else {
                Some(joined3(target.as_str(), "?", query))
            }
        },
    }
}

/// Where no token is set, everyone may ask.
pub proof fn no_token_disables_the_gate(is_options: bool, path: Seq<char>, header: Option<Seq<char>>)
    ensures
        authorized(None, is_options, path, header),
{
}

/// Elsewhere only the one token lets a request through: any other header is as
/// good as none.
pub proof fn only_the_token_opens_the_gate(
    token: Seq<char>,
    path: Seq<char>,
    header: Option<Seq<char>>,
)
    requires
        path != "/api/health"@,
        path != "/api/openapi.json"@,
    ensures
        authorized(Some(token), false, path, header) <==> header == Some("Bearer "@ + token),
{
}

/// The health probe is open under its versioned path too: that path stands for
/// the open one.
pub proof fn the_versioned_probe_is_open(token: Seq<char>)
    ensures
        unversioned("/api/v1/health"@, seq![]) == Some("/api/health"@),
        authorized(Some(token), false, "/api/health"@, None),
{
    reveal_strlit("/api/v1/health");
    reveal_strlit("/api/v1/");
    reveal_strlit("/api/");
    reveal_strlit("/api/health");
    assert("/api/v1/health"@.subrange(0, 8) =~= "/api/v1/"@);
    assert("/api/"@ + after("/api/v1/health"@, 8) =~= "/api/health"@);
}

/// A request is let through where no token is set, before a call across origins,
/// on the two open paths, and with the token behind the word `Bearer`; no other is.
pub proof fn who_is_let_through(
    expected: Option<Seq<char>>,
    is_options: bool,
    path: Seq<char>,
    header: Option<Seq<char>>,
)
    ensures
        authorized(expected, is_options, path, header) <==> expected is None || is_options || path
            == "/api/health"@ || path == "/api/openapi.json"@ || header == Some(
            "Bearer "@ + expected->0,
        ),
{
}

/// A path under the first version is that without the version, and keeps its
/// query; any other path stays.
pub proof fn a_versioned_path_is_an_alias(rest: Seq<char>, query: Seq<char>, path: Seq<char>)
    ensures
        unversioned("/api/v1/"@ + rest, seq![]) == Some("/api/"@ + rest),
        query.len() > 0 ==> unversioned("/api/v1/"@ + rest, query) == Some(
            "/api/"@ + rest + "?"@ + query,
        ),
        (forall|tail: Seq<char>| path != "/api/v1/"@ + tail) ==> unversioned(path, query) is None,
{
    reveal_strlit("/api/v1/");
    let prefix = "/api/v1/"@;
    let full = prefix + rest;
    assert(full.subrange(0, prefix.len() as int) =~= prefix);
    assert(after(full, prefix.len() as int) =~= rest);
    if has_prefix(path, prefix) {
        let tail = after(path, prefix.len() as int);
        assert(path =~= path.subrange(0, prefix.len() as int) + tail);
        assert(path == prefix + tail);
    }
}

} // verus!
