//! Bytes that are incomplete may still become a request: for each place at
//! which the grammar can be cut short, bytes that carry it on to the end of
//! a head.

use crate::byte_class::{lemma_run_end, lemma_run_end_is, run_end, ByteClass};
use crate::request_laws::{
    extends, lemma_first_delimiter_is, lemma_header_extends, lemma_headers_bounds,
    lemma_line_break_extends, lemma_method_extends, lemma_method_found, lemma_more_headers_bounds,
    lemma_more_pairs_bounds, lemma_pair_extends, lemma_params_bounds, lemma_params_extends,
    lemma_protocol_extends, lemma_protocol_found, lemma_protocol_keywords, lemma_run_extends,
    lemma_value_extends,
};
use crate::request_parser::{
    begins_method, begins_no_case, begins_protocol, byte_matches, delimiter_at, first_delimiter,
    header_open, headers_open, lemma_first_delimiter, lemma_header_advances,
    lemma_more_values_advance, lemma_pair_advances, lemma_value_advances, matches_no_case,
    params_open, spec_head, spec_header, spec_headers, spec_line_break, spec_method,
    spec_more_headers, spec_more_pairs, spec_more_values, spec_pair, spec_pairs, spec_params,
    spec_parse_request, spec_prefix, spec_protocol, spec_value, spec_values, Method, ParseError,
    Protocol, RequestView,
};
use vstd::prelude::*;

verus! {

// ---------------------------------------------------------------------------
// Headers: a value that runs up to the end of the input, and one more byte
// ---------------------------------------------------------------------------

/// `h` is `s` and one more byte, a `b`.
pub open spec fn with_value_byte(h: Seq<u8>, s: Seq<u8>) -> bool {
    extends(h, s) && h.len() == s.len() + 1 && h[s.len() as int] == 98
}

proof fn lemma_value_grows(s: Seq<u8>, h: Seq<u8>, at: int)
    requires
        with_value_byte(h, s),
        0 <= at <= s.len(),
        spec_value(s, at).1 == s.len(),
    ensures
        spec_value(h, at).1 == h.len(),
{
    lemma_run_end(s, at, ByteClass::Whitespace);
    lemma_run_extends(s, h, at, ByteClass::Whitespace);
    let from = run_end(s, at, ByteClass::Whitespace);
    lemma_run_end(s, from, ByteClass::HeaderValue);
    let len = s.len() as int;
    if from == len {
        assert forall|k: int| at <= k < len implies ByteClass::Whitespace.spec_contains(
            #[trigger] h[k],
        ) by {
            assert(s[k] == h[k]);
        }
        lemma_run_end_is(h, at, len, ByteClass::Whitespace);
    }
    let start = run_end(h, at, ByteClass::Whitespace);
    assert(start == from);
    assert forall|k: int| start <= k < h.len() implies ByteClass::HeaderValue.spec_contains(
        #[trigger] h[k],
    ) by {
        if k < len {
            assert(s[k] == h[k]);
        }
    }
    lemma_run_end_is(h, start, h.len() as int, ByteClass::HeaderValue);
}

proof fn lemma_more_values_grow(s: Seq<u8>, h: Seq<u8>, at: int)
    requires
        with_value_byte(h, s),
        0 <= at < s.len(),
        spec_more_values(s, at).1 == s.len(),
    ensures
        spec_more_values(h, at).1 == h.len(),
    decreases s.len() - at,
{
    assert(s[at] == h[at]);
    lemma_value_advances(s, at + 1);
    let value = spec_value(s, at + 1);
    lemma_more_values_advance(s, value.1);
    if value.1 < s.len() {
        lemma_value_extends(s, h, at + 1);
        lemma_more_values_grow(s, h, value.1);
    } else {
        lemma_value_grows(s, h, at + 1);
        assert(spec_more_values(h, h.len() as int).1 == h.len());
    }
}

proof fn lemma_values_grow(s: Seq<u8>, h: Seq<u8>, at: int)
    requires
        with_value_byte(h, s),
        0 <= at <= s.len(),
        spec_values(s, at).1 == s.len(),
    ensures
        spec_values(h, at).1 == h.len(),
{
    lemma_value_advances(s, at);
    let value = spec_value(s, at);
    lemma_more_values_advance(s, value.1);
    if value.1 < s.len() {
        lemma_value_extends(s, h, at);
        lemma_more_values_grow(s, h, value.1);
    } else {
        lemma_value_grows(s, h, at);
    }
}

proof fn lemma_header_grows(s: Seq<u8>, h: Seq<u8>, at: int)
    requires
        with_value_byte(h, s),
        0 <= at <= s.len(),
        spec_header(s, at) matches Some((_, end)) && end == s.len(),
    ensures
        spec_header(h, at) matches Some((_, end)) && end == h.len(),
{
    lemma_run_end(s, at, ByteClass::Whitespace);
    let from = run_end(s, at, ByteClass::Whitespace);
    lemma_run_end(s, from, ByteClass::HeaderName);
    let to = run_end(s, from, ByteClass::HeaderName);
    lemma_run_extends(s, h, at, ByteClass::Whitespace);
    lemma_run_extends(s, h, from, ByteClass::HeaderName);
    assert(s[to] == h[to]);
    lemma_values_grow(s, h, to + 1);
}

proof fn lemma_more_headers_grow(s: Seq<u8>, h: Seq<u8>, at: int)
    requires
        with_value_byte(h, s),
        0 <= at < s.len(),
        spec_more_headers(s, at).1 == s.len(),
    ensures
        spec_more_headers(h, at).1 == h.len(),
    decreases s.len() - at,
{
    let br = spec_line_break(s, at);
    lemma_line_break_extends(s, h, at);
    lemma_header_advances(s, at + br);
    match spec_header(s, at + br) {
        Some((header, next)) => {
            lemma_more_headers_bounds(s, next);
            if next < s.len() {
                lemma_header_extends(s, h, at + br);
                lemma_more_headers_grow(s, h, next);
            } else {
                lemma_header_grows(s, h, at + br);
                assert(spec_more_headers(h, h.len() as int).1 == h.len());
            }
        },
        None => {},
    }
}

/// Headers whose last value runs up to the end of the input reach the end
/// of the input again when one more byte of that value follows.
pub proof fn lemma_headers_grow(s: Seq<u8>, h: Seq<u8>, at: int)
    requires
        with_value_byte(h, s),
        0 <= at <= s.len(),
        spec_headers(s, at) matches Some((_, end)) && end == s.len(),
    ensures
        spec_headers(h, at) matches Some((_, end)) && end == h.len(),
{
    lemma_header_advances(s, at);
    match spec_header(s, at) {
        Some((header, next)) => {
            lemma_more_headers_bounds(s, next);
            if next < s.len() {
                lemma_header_extends(s, h, at);
                lemma_more_headers_grow(s, h, next);
            } else {
                lemma_header_grows(s, h, at);
            }
        },
        None => {},
    }
}

// ---------------------------------------------------------------------------
// Headers: one more header
// ---------------------------------------------------------------------------

/// `h` is `s` and after it `A:b`, a header.
pub open spec fn with_header(h: Seq<u8>, s: Seq<u8>) -> bool {
    &&& extends(h, s)
    &&& h.len() == s.len() + 3
    &&& h[s.len() as int] == 65
    &&& h[s.len() as int + 1] == 58
    &&& h[s.len() as int + 2] == 98
}

/// A header that is cut short by the end of the input is whole once `A:b`
/// follows, and ends where the input ends then.
pub proof fn lemma_header_completes(s: Seq<u8>, h: Seq<u8>, at: int)
    requires
        with_header(h, s),
        0 <= at <= s.len(),
        header_open(s, at),
    ensures
        spec_header(h, at) matches Some((_, end)) && end == h.len(),
        spec_more_headers(h, h.len() as int).1 == h.len(),
{
    let len = s.len() as int;
    lemma_run_end(s, at, ByteClass::Whitespace);
    lemma_run_extends(s, h, at, ByteClass::Whitespace);
    let from = run_end(s, at, ByteClass::Whitespace);
    lemma_run_end(s, from, ByteClass::HeaderName);
    if from == len {
        assert forall|k: int| at <= k < len implies ByteClass::Whitespace.spec_contains(
            #[trigger] h[k],
        ) by {
            assert(s[k] == h[k]);
        }
        lemma_run_end_is(h, at, len, ByteClass::Whitespace);
    }
    let start = run_end(h, at, ByteClass::Whitespace);
    assert(start == from);
    assert forall|k: int| start <= k < len + 1 implies ByteClass::HeaderName.spec_contains(
        #[trigger] h[k],
    ) by {
        if k < len {
            assert(s[k] == h[k]);
        }
    }
    lemma_run_end_is(h, start, len + 1, ByteClass::HeaderName);
    lemma_run_end_is(h, len + 2, len + 2, ByteClass::Whitespace);
    assert forall|k: int| len + 2 <= k < len + 3 implies ByteClass::HeaderValue.spec_contains(
        #[trigger] h[k],
    ) by {}
    lemma_run_end_is(h, len + 2, len + 3, ByteClass::HeaderValue);
    assert(spec_more_values(h, len + 3).1 == len + 3);
}

/// The rest of a list of headers that ends at `end` reaches the end of the
/// longer input `h`, if the rest of the list from `end` does.
proof fn lemma_more_headers_carry(s: Seq<u8>, h: Seq<u8>, at: int, end: int)
    requires
        extends(h, s),
        0 <= at <= end < s.len(),
        spec_more_headers(s, at).1 == end,
        spec_more_headers(h, end).1 == h.len(),
    ensures
        spec_more_headers(h, at).1 == h.len(),
    decreases s.len() - at,
{
    if at < end {
        let br = spec_line_break(s, at);
        lemma_header_advances(s, at + br);
        match spec_header(s, at + br) {
            Some((header, next)) => {
                lemma_more_headers_bounds(s, next);
                lemma_line_break_extends(s, h, at);
                lemma_header_extends(s, h, at + br);
                lemma_more_headers_carry(s, h, next, end);
            },
            None => {},
        }
    }
}

/// The piece that carries headers cut short by the end of the input on to
/// the end of a head.
pub open spec fn headers_piece(s: Seq<u8>, at: int) -> Seq<u8> {
    match spec_headers(s, at) {
        None => seq![65u8, 58, 98],
        Some((_, end)) => if end == s.len() {
            seq![98u8]
        } else if s[end] == 13 && end + 1 == s.len() {
            seq![10u8, 65, 58, 98]
        } else {
            seq![65u8, 58, 98]
        },
    }
}

/// Headers that are cut short by the end of the input are whole, and reach
/// the end of the input, once the piece for them follows.
pub proof fn lemma_headers_complete(s: Seq<u8>, at: int)
    requires
        0 <= at <= s.len(),
        headers_open(s, at),
    ensures
        spec_headers(s + headers_piece(s, at), at) matches Some((_, end)) && end == (s
            + headers_piece(s, at)).len(),
{
    let piece = headers_piece(s, at);
    let h = s + piece;
    assert(extends(h, s));
    lemma_header_advances(s, at);
    match spec_headers(s, at) {
        None => {
            assert(with_header(h, s));
            lemma_header_completes(s, h, at);
        },
        Some((_, end)) => {
            let first = spec_header(s, at).unwrap();
            lemma_more_headers_bounds(s, first.1);
            if end == s.len() {
                assert(with_value_byte(h, s));
                lemma_headers_grow(s, h, at);
            } else {
                if s[end] == 13 && end + 1 == s.len() {
                    let mid = s.push(10);
                    assert(extends(h, mid));
                    assert(with_header(h, mid));
                    assert(spec_line_break(h, end) == 2);
                    lemma_run_end_is(mid, mid.len() as int, mid.len() as int, ByteClass::Whitespace);
                    lemma_run_end_is(mid, mid.len() as int, mid.len() as int, ByteClass::HeaderName);
                    assert(header_open(mid, end + 2));
                    lemma_header_completes(mid, h, end + 2);
                } else {
                    let br = spec_line_break(s, end);
                    assert(with_header(h, s));
                    lemma_line_break_extends(s, h, end);
                    lemma_header_completes(s, h, end + br);
                }
                assert(spec_more_headers(h, end).1 == h.len());
                lemma_header_extends(s, h, at);
                lemma_more_headers_carry(s, h, first.1, end);
            }
        },
    }
}

// ---------------------------------------------------------------------------
// The head up to its headers
// ---------------------------------------------------------------------------

/// Where the headers begin, if all that stands before them is there: the
/// method, whitespace, the path, the parameters, whitespace and the
/// protocol, each ended by a byte of the input.
pub open spec fn headers_from(s: Seq<u8>) -> Option<int> {
    match spec_method(s) {
        None => None,
        Some(method) => {
            let named = method.spec_keyword().len() as int;
            let path_from = run_end(s, named, ByteClass::Whitespace);
            let path_to = run_end(s, path_from, ByteClass::Path);
            let params = spec_params(s, path_to);
            let protocol_from = run_end(s, params.1, ByteClass::Whitespace);
            match spec_protocol(s, protocol_from) {
                None => None,
                Some(protocol) => {
                    if named < path_from && path_to < s.len() && !params_open(s, path_to)
                        && params.1 < protocol_from {
                        Some(protocol_from + protocol.spec_keyword().len())
                    } else {
                        None
                    }
                },
            }
        },
    }
}

/// A head that is there up to its headers, and whose headers are cut short
/// by the end of the input, is whole once the piece for the headers
/// follows.
pub proof fn lemma_head_completes(s: Seq<u8>, body: Seq<u8>)
    requires
        headers_from(s) is Some,
        headers_open(s, headers_from(s).unwrap()),
    ensures
        spec_head(s + headers_piece(s, headers_from(s).unwrap()), body) is Some,
{
    let at = headers_from(s).unwrap();
    let h = s + headers_piece(s, at);
    assert(extends(h, s));
    let method = spec_method(s).unwrap();
    lemma_method_extends(s, h);
    lemma_method_found(s, method);
    let named = method.spec_keyword().len() as int;
    lemma_run_end(s, named, ByteClass::Whitespace);
    lemma_run_extends(s, h, named, ByteClass::Whitespace);
    let path_from = run_end(s, named, ByteClass::Whitespace);
    lemma_run_end(s, path_from, ByteClass::Path);
    lemma_run_extends(s, h, path_from, ByteClass::Path);
    let path_to = run_end(s, path_from, ByteClass::Path);
    lemma_params_bounds(s, path_to);
    lemma_params_extends(s, h, path_to);
    let params = spec_params(s, path_to);
    lemma_run_end(s, params.1, ByteClass::Whitespace);
    let protocol_from = run_end(s, params.1, ByteClass::Whitespace);
    let protocol = spec_protocol(s, protocol_from).unwrap();
    lemma_protocol_found(s, protocol_from, protocol);
    lemma_protocol_keywords();
    lemma_run_extends(s, h, params.1, ByteClass::Whitespace);
    lemma_protocol_extends(s, h, protocol_from);
    lemma_headers_complete(s, at);
}

// ---------------------------------------------------------------------------
// From each place before the headers to the next
// ---------------------------------------------------------------------------

/// No byte of `piece` is a carriage return or a line feed.
pub open spec fn one_line(piece: Seq<u8>) -> bool {
    forall|i: int| 0 <= i < piece.len() ==> (#[trigger] piece[i]) != 13 && piece[i] != 10
}

/// What is left of `keyword` once the bytes of `s` from `at` are taken as
/// its beginning.
pub open spec fn rest_of_keyword(s: Seq<u8>, at: int, keyword: Seq<u8>) -> Seq<u8> {
    keyword.subrange(s.len() - at, keyword.len() as int)
}

/// A keyword that is begun is there once the rest of it follows.
pub proof fn lemma_keyword_completes(s: Seq<u8>, at: int, keyword: Seq<u8>)
    requires
        begins_no_case(s, at, keyword),
    ensures
        matches_no_case(s + rest_of_keyword(s, at, keyword), at, keyword),
        (s + rest_of_keyword(s, at, keyword)).len() == at + keyword.len(),
{
    let h = s + rest_of_keyword(s, at, keyword);
    assert forall|k: int| 0 <= k < keyword.len() implies #[trigger] byte_matches(
        h,
        at,
        keyword,
        k,
    ) by {
        if k < s.len() - at {
            assert(byte_matches(s, at, keyword, k));
            assert(h[at + k] == s[at + k]);
        } else {
            assert(h[at + k] == keyword[k]);
        }
    }
}

/// The method whose name `s` begins.
pub open spec fn method_begun(s: Seq<u8>) -> Method {
    if begins_no_case(s, 0, Method::Connect.spec_keyword()) {
        Method::Connect
    } else if begins_no_case(s, 0, Method::Delete.spec_keyword()) {
        Method::Delete
    } else if begins_no_case(s, 0, Method::Get.spec_keyword()) {
        Method::Get
    } else if begins_no_case(s, 0, Method::Head.spec_keyword()) {
        Method::Head
    } else if begins_no_case(s, 0, Method::Options.spec_keyword()) {
        Method::Options
    } else if begins_no_case(s, 0, Method::Patch.spec_keyword()) {
        Method::Patch
    } else if begins_no_case(s, 0, Method::Post.spec_keyword()) {
        Method::Post
    } else if begins_no_case(s, 0, Method::Put.spec_keyword()) {
        Method::Put
    } else {
        Method::Trace
    }
}

/// The protocol whose name `s` begins at `at`.
pub open spec fn protocol_begun(s: Seq<u8>, at: int) -> Protocol {
    if begins_no_case(s, at, Protocol::Http10.spec_keyword()) {
        Protocol::Http10
    } else {
        Protocol::Http11
    }
}

/// The names of the methods and of the protocols hold no carriage return
/// and no line feed.
pub proof fn lemma_keywords_one_line(method: Method, protocol: Protocol)
    ensures
        one_line(method.spec_keyword()),
        one_line(protocol.spec_keyword()),
{
    reveal_strlit("connect");
    reveal_strlit("delete");
    reveal_strlit("get");
    reveal_strlit("head");
    reveal_strlit("options");
    reveal_strlit("patch");
    reveal_strlit("post");
    reveal_strlit("put");
    reveal_strlit("trace");
    reveal_strlit("http/1.0");
    reveal_strlit("http/1.1");
    vstd::string::is_ascii_spec_bytes("connect");
    vstd::string::is_ascii_spec_bytes("delete");
    vstd::string::is_ascii_spec_bytes("get");
    vstd::string::is_ascii_spec_bytes("head");
    vstd::string::is_ascii_spec_bytes("options");
    vstd::string::is_ascii_spec_bytes("patch");
    vstd::string::is_ascii_spec_bytes("post");
    vstd::string::is_ascii_spec_bytes("put");
    vstd::string::is_ascii_spec_bytes("trace");
    vstd::string::is_ascii_spec_bytes("http/1.0");
    vstd::string::is_ascii_spec_bytes("http/1.1");
}

/// The method is named, and whitespace runs from the name to the end of the
/// input.
pub open spec fn after_method(s: Seq<u8>) -> bool {
    spec_method(s) matches Some(method) && run_end(
        s,
        method.spec_keyword().len() as int,
        ByteClass::Whitespace,
    ) == s.len()
}

/// The method is named, whitespace follows, and the path runs to the end of
/// the input.
pub open spec fn in_path(s: Seq<u8>) -> bool {
    spec_method(s) matches Some(method) && {
        let named = method.spec_keyword().len() as int;
        let path_from = run_end(s, named, ByteClass::Whitespace);
        named < path_from < s.len() && run_end(s, path_from, ByteClass::Path) == s.len()
    }
}

/// The method, the path and the parameters are there, and whitespace runs
/// from them to the end of the input.
pub open spec fn before_protocol(s: Seq<u8>) -> bool {
    spec_method(s) matches Some(method) && {
        let named = method.spec_keyword().len() as int;
        let path_from = run_end(s, named, ByteClass::Whitespace);
        let path_to = run_end(s, path_from, ByteClass::Path);
        let params = spec_params(s, path_to);
        &&& named < path_from
        &&& path_to < s.len()
        &&& !params_open(s, path_to)
        &&& params.1 < s.len()
        &&& run_end(s, params.1, ByteClass::Whitespace) == s.len()
    }
}

/// All that stands before the headers is there, the headers begin where
/// the input ends or before, and they are cut short by the end of the input.
pub open spec fn in_headers(s: Seq<u8>) -> bool {
    headers_from(s) matches Some(at) && at <= s.len() && headers_open(s, at)
}

/// A method's name that is begun is there once the rest of it follows.
pub proof fn lemma_method_completes(s: Seq<u8>)
    requires
        spec_method(s) is None,
        begins_method(s),
    ensures
        after_method(s + rest_of_keyword(s, 0, method_begun(s).spec_keyword())),
        one_line(rest_of_keyword(s, 0, method_begun(s).spec_keyword())),
{
    let method = method_begun(s);
    let keyword = method.spec_keyword();
    let h = s + rest_of_keyword(s, 0, keyword);
    lemma_keyword_completes(s, 0, keyword);
    lemma_method_found(h, method);
    lemma_run_end(h, h.len() as int, ByteClass::Whitespace);
    lemma_keywords_one_line(method, Protocol::Http10);
    assert forall|i: int| 0 <= i < rest_of_keyword(s, 0, keyword).len() implies (
    #[trigger] rest_of_keyword(s, 0, keyword)[i]) != 13 && rest_of_keyword(s, 0, keyword)[i]
        != 10 by {
        assert(rest_of_keyword(s, 0, keyword)[i] == keyword[s.len() + i]);
    }
}

/// After the method and whitespace, a space and a `/` begin the path.
pub proof fn lemma_path_begins(s: Seq<u8>)
    requires
        after_method(s),
    ensures
        in_path(s + seq![32u8, 47u8]),
{
    let h = s + seq![32u8, 47u8];
    let len = s.len() as int;
    assert(extends(h, s));
    lemma_method_extends(s, h);
    let method = spec_method(s).unwrap();
    lemma_method_found(s, method);
    let named = method.spec_keyword().len() as int;
    lemma_run_end(s, named, ByteClass::Whitespace);
    assert forall|k: int| named <= k < len + 1 implies ByteClass::Whitespace.spec_contains(
        #[trigger] h[k],
    ) by {
        if k < len {
            assert(s[k] == h[k]);
        }
    }
    lemma_run_end_is(h, named, len + 1, ByteClass::Whitespace);
    assert forall|k: int| len + 1 <= k < len + 2 implies ByteClass::Path.spec_contains(
        #[trigger] h[k],
    ) by {}
    lemma_run_end_is(h, len + 1, len + 2, ByteClass::Path);
}

/// After the path, a space ends it and begins the whitespace before the
/// protocol.
pub proof fn lemma_path_ends(s: Seq<u8>)
    requires
        in_path(s),
    ensures
        before_protocol(s + seq![32u8]),
{
    let h = s + seq![32u8];
    let len = s.len() as int;
    assert(extends(h, s));
    lemma_method_extends(s, h);
    let method = spec_method(s).unwrap();
    lemma_method_found(s, method);
    let named = method.spec_keyword().len() as int;
    lemma_run_end(s, named, ByteClass::Whitespace);
    lemma_run_extends(s, h, named, ByteClass::Whitespace);
    let path_from = run_end(s, named, ByteClass::Whitespace);
    lemma_run_end(s, path_from, ByteClass::Path);
    assert forall|k: int| path_from <= k < len implies ByteClass::Path.spec_contains(
        #[trigger] h[k],
    ) by {
        assert(s[k] == h[k]);
    }
    lemma_run_end_is(h, path_from, len, ByteClass::Path);
    assert forall|k: int| len <= k < len + 1 implies ByteClass::Whitespace.spec_contains(
        #[trigger] h[k],
    ) by {}
    lemma_run_end_is(h, len, len + 1, ByteClass::Whitespace);
}

/// The bytes `HTTP/1.1`.
pub open spec fn protocol_piece() -> Seq<u8> {
    seq![72u8, 84, 84, 80, 47, 49, 46, 49]
}

/// After the whitespace that follows the path and the parameters, the name
/// of a protocol leads to the headers.
pub proof fn lemma_protocol_follows(s: Seq<u8>)
    requires
        before_protocol(s),
    ensures
        in_headers(s + protocol_piece()),
{
    let h = s + protocol_piece();
    let len = s.len() as int;
    assert(extends(h, s));
    lemma_method_extends(s, h);
    let method = spec_method(s).unwrap();
    lemma_method_found(s, method);
    let named = method.spec_keyword().len() as int;
    lemma_run_end(s, named, ByteClass::Whitespace);
    lemma_run_extends(s, h, named, ByteClass::Whitespace);
    let path_from = run_end(s, named, ByteClass::Whitespace);
    lemma_run_end(s, path_from, ByteClass::Path);
    lemma_run_extends(s, h, path_from, ByteClass::Path);
    let path_to = run_end(s, path_from, ByteClass::Path);
    lemma_params_bounds(s, path_to);
    lemma_params_extends(s, h, path_to);
    let params = spec_params(s, path_to);
    lemma_run_end(s, params.1, ByteClass::Whitespace);
    assert forall|k: int| params.1 <= k < len implies ByteClass::Whitespace.spec_contains(
        #[trigger] h[k],
    ) by {
        assert(s[k] == h[k]);
    }
    lemma_run_end_is(h, params.1, len, ByteClass::Whitespace);
    let keyword = Protocol::Http11.spec_keyword();
    assert(matches_no_case(h, len, keyword)) by {
        reveal_strlit("http/1.1");
        vstd::string::is_ascii_spec_bytes("http/1.1");
        assert forall|k: int| 0 <= k < keyword.len() implies #[trigger] byte_matches(
            h,
            len,
            keyword,
            k,
        ) by {
            assert(h[len + k] == protocol_piece()[k]);
        }
    }
    lemma_protocol_found(h, len, Protocol::Http11);
    lemma_protocol_keywords();
    lemma_run_end(h, h.len() as int, ByteClass::Whitespace);
    lemma_run_end(h, h.len() as int, ByteClass::HeaderName);
}

/// A protocol's name that is begun leads to the headers once the rest of
/// it follows.
pub proof fn lemma_protocol_completes(s: Seq<u8>)
    requires
        spec_method(s) is Some,
        ({
            let named = spec_method(s).unwrap().spec_keyword().len() as int;
            let path_from = run_end(s, named, ByteClass::Whitespace);
            let path_to = run_end(s, path_from, ByteClass::Path);
            let params = spec_params(s, path_to);
            let protocol_from = run_end(s, params.1, ByteClass::Whitespace);
            &&& named < path_from
            &&& path_to < s.len()
            &&& !params_open(s, path_to)
            &&& params.1 < protocol_from < s.len()
            &&& spec_protocol(s, protocol_from) is None
            &&& begins_protocol(s, protocol_from)
        }),
    ensures
        ({
            let named = spec_method(s).unwrap().spec_keyword().len() as int;
            let path_from = run_end(s, named, ByteClass::Whitespace);
            let path_to = run_end(s, path_from, ByteClass::Path);
            let params = spec_params(s, path_to);
            let protocol_from = run_end(s, params.1, ByteClass::Whitespace);
            let piece = rest_of_keyword(
                s,
                protocol_from,
                protocol_begun(s, protocol_from).spec_keyword(),
            );
            in_headers(s + piece) && one_line(piece)
        }),
{
    let method = spec_method(s).unwrap();
    lemma_method_found(s, method);
    let named = method.spec_keyword().len() as int;
    lemma_run_end(s, named, ByteClass::Whitespace);
    let path_from = run_end(s, named, ByteClass::Whitespace);
    lemma_run_end(s, path_from, ByteClass::Path);
    let path_to = run_end(s, path_from, ByteClass::Path);
    lemma_params_bounds(s, path_to);
    let params = spec_params(s, path_to);
    lemma_run_end(s, params.1, ByteClass::Whitespace);
    let protocol_from = run_end(s, params.1, ByteClass::Whitespace);
    let protocol = protocol_begun(s, protocol_from);
    let keyword = protocol.spec_keyword();
    let piece = rest_of_keyword(s, protocol_from, keyword);
    let h = s + piece;
    assert(extends(h, s));
    lemma_method_extends(s, h);
    lemma_run_extends(s, h, named, ByteClass::Whitespace);
    lemma_run_extends(s, h, path_from, ByteClass::Path);
    lemma_params_extends(s, h, path_to);
    lemma_run_extends(s, h, params.1, ByteClass::Whitespace);
    lemma_keyword_completes(s, protocol_from, keyword);
    lemma_protocol_found(h, protocol_from, protocol);
    lemma_run_end(h, h.len() as int, ByteClass::Whitespace);
    lemma_run_end(h, h.len() as int, ByteClass::HeaderName);
    lemma_keywords_one_line(method, protocol);
    assert forall|i: int| 0 <= i < piece.len() implies (#[trigger] piece[i]) != 13 && piece[i]
        != 10 by {
        assert(piece[i] == keyword[s.len() - protocol_from + i]);
    }
}

// ---------------------------------------------------------------------------
// Parameters that are cut short by the end of the input
// ---------------------------------------------------------------------------

/// `h` is `s` and a space.
pub open spec fn with_space(h: Seq<u8>, s: Seq<u8>) -> bool {
    extends(h, s) && h.len() == s.len() + 1 && h[s.len() as int] == 32
}

/// `h` is `s` and after it `k=v` and a space: the rest of a pair.
pub open spec fn with_pair(h: Seq<u8>, s: Seq<u8>) -> bool {
    &&& extends(h, s)
    &&& h.len() == s.len() + 4
    &&& h[s.len() as int] == 107
    &&& h[s.len() as int + 1] == 61
    &&& h[s.len() as int + 2] == 118
    &&& h[s.len() as int + 3] == 32
}

proof fn lemma_pair_closes(s: Seq<u8>, h: Seq<u8>, at: int)
    requires
        with_space(h, s),
        0 <= at <= s.len(),
        spec_pair(s, at) matches Some((_, end)) && end == s.len(),
    ensures
        spec_pair(h, at) matches Some((_, end)) && end == s.len(),
{
    lemma_run_end(s, at, ByteClass::Key);
    lemma_run_extends(s, h, at, ByteClass::Key);
    let k = run_end(s, at, ByteClass::Key);
    assert(s[k] == h[k]);
    lemma_run_end(s, k + 1, ByteClass::ParamValue);
    assert forall|i: int| k + 1 <= i < s.len() implies ByteClass::ParamValue.spec_contains(
        #[trigger] h[i],
    ) by {
        assert(s[i] == h[i]);
    }
    lemma_run_end_is(h, k + 1, s.len() as int, ByteClass::ParamValue);
}

proof fn lemma_more_pairs_close(s: Seq<u8>, h: Seq<u8>, at: int)
    requires
        with_space(h, s),
        0 <= at < s.len(),
        spec_more_pairs(s, at).1 == s.len(),
    ensures
        spec_more_pairs(h, at).1 == s.len(),
    decreases s.len() - at,
{
    assert(s[at] == h[at]);
    lemma_pair_advances(s, at + 1);
    match spec_pair(s, at + 1) {
        Some((pair, end)) => {
            lemma_more_pairs_bounds(s, end);
            if end < s.len() {
                lemma_pair_extends(s, h, at + 1);
                lemma_more_pairs_close(s, h, end);
            } else {
                lemma_pair_closes(s, h, at + 1);
                assert(spec_more_pairs(h, s.len() as int).1 == s.len());
            }
        },
        None => {},
    }
}

proof fn lemma_pairs_close(s: Seq<u8>, h: Seq<u8>, at: int)
    requires
        with_space(h, s),
        0 <= at <= s.len(),
        spec_pairs(s, at).1 == s.len(),
    ensures
        spec_pairs(h, at).1 == s.len(),
{
    lemma_pair_advances(s, at);
    match spec_pair(s, at) {
        Some((pair, end)) => {
            lemma_more_pairs_bounds(s, end);
            if end < s.len() {
                lemma_pair_extends(s, h, at);
                lemma_more_pairs_close(s, h, end);
            } else {
                lemma_pair_closes(s, h, at);
            }
        },
        None => {
            lemma_run_end_is(h, at, at, ByteClass::Key);
        },
    }
}

proof fn lemma_pair_completes(s: Seq<u8>, h: Seq<u8>, at: int)
    requires
        with_pair(h, s),
        0 <= at <= s.len(),
        run_end(s, at, ByteClass::Key) == s.len(),
    ensures
        spec_pair(h, at) matches Some((_, end)) && end == s.len() + 3,
        spec_more_pairs(h, s.len() as int + 3).1 == s.len() + 3,
{
    let len = s.len() as int;
    lemma_run_end(s, at, ByteClass::Key);
    assert forall|i: int| at <= i < len + 1 implies ByteClass::Key.spec_contains(
        #[trigger] h[i],
    ) by {
        if i < len {
            assert(s[i] == h[i]);
        }
    }
    lemma_run_end_is(h, at, len + 1, ByteClass::Key);
    assert forall|i: int| len + 2 <= i < len + 3 implies ByteClass::ParamValue.spec_contains(
        #[trigger] h[i],
    ) by {}
    lemma_run_end_is(h, len + 2, len + 3, ByteClass::ParamValue);
}

proof fn lemma_more_pairs_carry(s: Seq<u8>, h: Seq<u8>, at: int, end: int)
    requires
        with_pair(h, s),
        0 <= at <= end < s.len(),
        spec_more_pairs(s, at).1 == end,
        s[end] == 38,
        run_end(s, end + 1, ByteClass::Key) == s.len(),
    ensures
        spec_more_pairs(h, at).1 == s.len() + 3,
    decreases s.len() - at,
{
    assert(s[at] == h[at]);
    if at < end {
        lemma_pair_advances(s, at + 1);
        match spec_pair(s, at + 1) {
            Some((pair, next)) => {
                lemma_more_pairs_bounds(s, next);
                lemma_pair_extends(s, h, at + 1);
                lemma_more_pairs_carry(s, h, next, end);
            },
            None => {},
        }
    } else {
        lemma_pair_completes(s, h, end + 1);
    }
}

/// The piece that carries parameters cut short by the end of the input on
/// to the whitespace before the protocol: a space where the last value runs
/// up to the end, and else the rest of a pair and a space.
pub open spec fn params_piece(s: Seq<u8>, at: int) -> Seq<u8> {
    if spec_pairs(s, at + 1).1 == s.len() {
        seq![32u8]
    } else {
        seq![107u8, 61, 118, 32]
    }
}

/// Parameters that are cut short by the end of the input are whole once
/// the piece for them follows, and whitespace runs from them to the end of
/// the input then.
pub proof fn lemma_params_complete(s: Seq<u8>)
    requires
        spec_method(s) is Some,
        ({
            let named = spec_method(s).unwrap().spec_keyword().len() as int;
            let path_from = run_end(s, named, ByteClass::Whitespace);
            let path_to = run_end(s, path_from, ByteClass::Path);
            named < path_from && path_to < s.len() && params_open(s, path_to)
        }),
    ensures
        ({
            let named = spec_method(s).unwrap().spec_keyword().len() as int;
            let path_from = run_end(s, named, ByteClass::Whitespace);
            let path_to = run_end(s, path_from, ByteClass::Path);
            before_protocol(s + params_piece(s, path_to))
        }),
{
    let method = spec_method(s).unwrap();
    lemma_method_found(s, method);
    let named = method.spec_keyword().len() as int;
    lemma_run_end(s, named, ByteClass::Whitespace);
    let path_from = run_end(s, named, ByteClass::Whitespace);
    lemma_run_end(s, path_from, ByteClass::Path);
    let path_to = run_end(s, path_from, ByteClass::Path);
    let piece = params_piece(s, path_to);
    let h = s + piece;
    let len = s.len() as int;
    assert(extends(h, s));
    lemma_method_extends(s, h);
    lemma_run_extends(s, h, named, ByteClass::Whitespace);
    lemma_run_extends(s, h, path_from, ByteClass::Path);
    assert(s[path_to] == h[path_to]);
    let pairs = spec_pairs(s, path_to + 1);
    lemma_pair_advances(s, path_to + 1);
    if pairs.1 == len {
        assert(with_space(h, s));
        lemma_pairs_close(s, h, path_to + 1);
        lemma_run_end_is(h, len, len, ByteClass::Key);
        assert forall|i: int| len <= i < len + 1 implies ByteClass::Whitespace.spec_contains(
            #[trigger] h[i],
        ) by {}
        lemma_run_end_is(h, len, len + 1, ByteClass::Whitespace);
    } else {
        assert(with_pair(h, s));
        match spec_pair(s, path_to + 1) {
            Some((pair, next)) => {
                lemma_more_pairs_bounds(s, next);
                lemma_pair_extends(s, h, path_to + 1);
                lemma_more_pairs_carry(s, h, next, pairs.1);
            },
            None => {
                lemma_pair_completes(s, h, path_to + 1);
            },
        }
        lemma_run_end_is(h, len + 3, len + 3, ByteClass::Key);
        assert forall|i: int| len + 3 <= i < len + 4 implies ByteClass::Whitespace.spec_contains(
            #[trigger] h[i],
        ) by {}
        lemma_run_end_is(h, len + 3, len + 4, ByteClass::Whitespace);
    }
}

// ---------------------------------------------------------------------------
// Blank lines
// ---------------------------------------------------------------------------

/// Bytes without a blank line have none when bytes of one line follow.
pub proof fn lemma_no_blank_line(s: Seq<u8>, piece: Seq<u8>)
    requires
        first_delimiter(s, 0) is None,
        one_line(piece),
    ensures
        first_delimiter(s + piece, 0) is None,
{
    let h = s + piece;
    lemma_first_delimiter(s, 0);
    lemma_first_delimiter(h, 0);
    if first_delimiter(h, 0) is Some {
        let j = first_delimiter(h, 0).unwrap();
        if j + 4 <= s.len() {
            assert(h[j] == s[j] && h[j + 1] == s[j + 1] && h[j + 2] == s[j + 2] && h[j + 3] == s[j
                + 3]);
            assert(delimiter_at(s, j));
        } else {
            assert(h[j + 3] == piece[j + 3 - s.len()]);
        }
    }
}

/// Bytes without a blank line that end in a carriage return after a byte
/// that is no line feed have none when a line feed and `A:b` follow.
proof fn lemma_no_blank_line_after_break(s: Seq<u8>)
    requires
        first_delimiter(s, 0) is None,
        s.len() >= 2,
        s[s.len() - 2] != 10,
    ensures
        first_delimiter(s + seq![10u8, 65, 58, 98], 0) is None,
{
    let piece = seq![10u8, 65, 58, 98];
    let h = s + piece;
    lemma_first_delimiter(s, 0);
    lemma_first_delimiter(h, 0);
    if first_delimiter(h, 0) is Some {
        let j = first_delimiter(h, 0).unwrap();
        if j + 4 <= s.len() {
            assert(h[j] == s[j] && h[j + 1] == s[j + 1] && h[j + 2] == s[j + 2] && h[j + 3] == s[j
                + 3]);
            assert(delimiter_at(s, j));
        } else if j + 3 == s.len() {
            assert(h[j + 1] == s[j + 1]);
        } else {
            assert(h[j + 3] == piece[j + 3 - s.len()]);
        }
    }
}

/// After bytes without a blank line that end in a `b`, a blank line is the
/// first.
proof fn lemma_blank_line_follows(h: Seq<u8>)
    requires
        first_delimiter(h, 0) is None,
        h.len() > 0,
        h[h.len() - 1] == 98,
    ensures
        first_delimiter(h + seq![13u8, 10, 13, 10], 0) == Some(h.len() as int),
{
    let u = h + seq![13u8, 10, 13, 10];
    let d = h.len() as int;
    lemma_first_delimiter(h, 0);
    assert(delimiter_at(u, d));
    assert forall|j: int| 0 <= j < d implies !delimiter_at(u, j) by {
        if j + 4 <= d {
            assert(u[j] == h[j] && u[j + 1] == h[j + 1] && u[j + 2] == h[j + 2] && u[j + 3] == h[j
                + 3]);
            assert(!delimiter_at(h, j));
        } else {
            assert(u[d - 1] == h[d - 1]);
        }
    }
    lemma_first_delimiter_is(u, 0, d);
}

/// Where a value ends at whitespace, the byte before is a byte of the
/// value.
pub open spec fn ends_a_value(s: Seq<u8>, end: int) -> bool {
    0 <= end < s.len() && ByteClass::Whitespace.spec_contains(s[end]) ==> end >= 1
        && ByteClass::HeaderValue.spec_contains(s[end - 1])
}

proof fn lemma_value_ends(s: Seq<u8>, at: int)
    requires
        0 <= at <= s.len(),
    ensures
        ends_a_value(s, spec_value(s, at).1),
{
    lemma_run_end(s, at, ByteClass::Whitespace);
    let from = run_end(s, at, ByteClass::Whitespace);
    lemma_run_end(s, from, ByteClass::HeaderValue);
    let to = run_end(s, from, ByteClass::HeaderValue);
    if to < s.len() && from < to {
        assert(ByteClass::HeaderValue.spec_contains(s[to - 1]));
    }
}

proof fn lemma_more_values_end(s: Seq<u8>, at: int)
    requires
        0 <= at <= s.len(),
        ends_a_value(s, at),
    ensures
        ends_a_value(s, spec_more_values(s, at).1),
    decreases s.len() - at,
{
    if at < s.len() && s[at] == 44 {
        lemma_value_advances(s, at + 1);
        lemma_value_ends(s, at + 1);
        lemma_more_values_end(s, spec_value(s, at + 1).1);
    }
}

proof fn lemma_header_ends(s: Seq<u8>, at: int)
    requires
        0 <= at <= s.len(),
    ensures
        spec_header(s, at) matches Some((_, end)) ==> ends_a_value(s, end),
{
    lemma_run_end(s, at, ByteClass::Whitespace);
    let from = run_end(s, at, ByteClass::Whitespace);
    lemma_run_end(s, from, ByteClass::HeaderName);
    let to = run_end(s, from, ByteClass::HeaderName);
    if to < s.len() {
        lemma_value_advances(s, to + 1);
        lemma_value_ends(s, to + 1);
        lemma_more_values_end(s, spec_value(s, to + 1).1);
    }
}

proof fn lemma_more_headers_end(s: Seq<u8>, at: int)
    requires
        0 <= at <= s.len(),
        ends_a_value(s, at),
    ensures
        ends_a_value(s, spec_more_headers(s, at).1),
    decreases s.len() - at,
{
    let br = spec_line_break(s, at);
    if br > 0 {
        lemma_header_advances(s, at + br);
        lemma_header_ends(s, at + br);
        match spec_header(s, at + br) {
            Some((_, next)) => {
                lemma_more_headers_end(s, next);
            },
            None => {},
        }
    }
}

proof fn lemma_headers_end(s: Seq<u8>, at: int)
    requires
        0 <= at <= s.len(),
    ensures
        spec_headers(s, at) matches Some((_, end)) ==> ends_a_value(s, end),
{
    lemma_header_advances(s, at);
    lemma_header_ends(s, at);
    match spec_header(s, at) {
        Some((_, next)) => {
            lemma_more_headers_end(s, next);
        },
        None => {},
    }
}

// ---------------------------------------------------------------------------
// From bytes that are incomplete to a request
// ---------------------------------------------------------------------------

/// The method and the path are there, and the parameters are cut short by
/// the end of the input.
pub open spec fn in_params(s: Seq<u8>) -> bool {
    spec_method(s) matches Some(method) && {
        let named = method.spec_keyword().len() as int;
        let path_from = run_end(s, named, ByteClass::Whitespace);
        let path_to = run_end(s, path_from, ByteClass::Path);
        named < path_from && path_to < s.len() && params_open(s, path_to)
    }
}

/// All that stands before the protocol is there, and the name of a protocol
/// is begun.
pub open spec fn in_protocol(s: Seq<u8>) -> bool {
    spec_method(s) matches Some(method) && {
        let named = method.spec_keyword().len() as int;
        let path_from = run_end(s, named, ByteClass::Whitespace);
        let path_to = run_end(s, path_from, ByteClass::Path);
        let params = spec_params(s, path_to);
        let protocol_from = run_end(s, params.1, ByteClass::Whitespace);
        &&& named < path_from
        &&& path_to < s.len()
        &&& !params_open(s, path_to)
        &&& params.1 < protocol_from < s.len()
        &&& spec_protocol(s, protocol_from) is None
        &&& begins_protocol(s, protocol_from)
    }
}

/// Where the path of `s` ends.
pub open spec fn path_end(s: Seq<u8>) -> int {
    let named = spec_method(s).unwrap().spec_keyword().len() as int;
    run_end(s, run_end(s, named, ByteClass::Whitespace), ByteClass::Path)
}

/// Where the protocol of `s` begins.
pub open spec fn protocol_start(s: Seq<u8>) -> int {
    run_end(s, spec_params(s, path_end(s)).1, ByteClass::Whitespace)
}

/// Bytes that may still become a request are at one of the places at which
/// the grammar can be cut short.
pub proof fn lemma_prefix_places(s: Seq<u8>)
    requires
        spec_prefix(s),
    ensures
        (spec_method(s) is None && begins_method(s)) || after_method(s) || in_path(s) || in_params(
            s,
        ) || before_protocol(s) || in_protocol(s) || in_headers(s),
{
    match spec_method(s) {
        None => {},
        Some(method) => {
            lemma_method_found(s, method);
            let named = method.spec_keyword().len() as int;
            lemma_run_end(s, named, ByteClass::Whitespace);
            let path_from = run_end(s, named, ByteClass::Whitespace);
            lemma_run_end(s, path_from, ByteClass::Path);
            let path_to = run_end(s, path_from, ByteClass::Path);
            lemma_params_bounds(s, path_to);
            let params = spec_params(s, path_to);
            lemma_run_end(s, params.1, ByteClass::Whitespace);
            let protocol_from = run_end(s, params.1, ByteClass::Whitespace);
            match spec_protocol(s, protocol_from) {
                None => {},
                Some(protocol) => {
                    lemma_protocol_found(s, protocol_from, protocol);
                },
            }
        },
    }
}

/// The method is named, and the bytes are at one of the places after it.
#[verifier::opaque]
pub open spec fn past_method(s: Seq<u8>) -> bool {
    after_method(s) || in_path(s) || in_params(s) || before_protocol(s) || in_protocol(s)
        || in_headers(s)
}

/// The path is begun, and the bytes are at one of the places from there on.
#[verifier::opaque]
pub open spec fn past_whitespace(s: Seq<u8>) -> bool {
    in_path(s) || in_params(s) || before_protocol(s) || in_protocol(s) || in_headers(s)
}

/// The path and the parameters are there, and the bytes are at one of the
/// places after them.
#[verifier::opaque]
pub open spec fn past_params(s: Seq<u8>) -> bool {
    before_protocol(s) || in_protocol(s) || in_headers(s)
}

/// The bytes are in the headers: see `in_headers`.
#[verifier::opaque]
pub open spec fn at_headers(s: Seq<u8>) -> bool {
    in_headers(s)
}

proof fn lemma_reach_method(s: Seq<u8>) -> (piece: Seq<u8>)
    requires
        first_delimiter(s, 0) is None,
        spec_prefix(s),
    ensures
        first_delimiter(s + piece, 0) is None,
        past_method(s + piece),
{
    reveal(past_method);
    lemma_prefix_places(s);
    if spec_method(s) is None {
        let piece = rest_of_keyword(s, 0, method_begun(s).spec_keyword());
        lemma_method_completes(s);
        lemma_no_blank_line(s, piece);
        piece
    } else {
        assert(s + Seq::<u8>::empty() =~= s);
        Seq::empty()
    }
}

proof fn lemma_reach_path(s: Seq<u8>) -> (piece: Seq<u8>)
    requires
        first_delimiter(s, 0) is None,
        past_method(s),
    ensures
        first_delimiter(s + piece, 0) is None,
        past_whitespace(s + piece),
{
    reveal(past_method);
    reveal(past_whitespace);
    if after_method(s) {
        let piece = seq![32u8, 47u8];
        lemma_path_begins(s);
        lemma_no_blank_line(s, piece);
        piece
    } else {
        assert(s + Seq::<u8>::empty() =~= s);
        Seq::empty()
    }
}

proof fn lemma_reach_protocol(s: Seq<u8>) -> (piece: Seq<u8>)
    requires
        first_delimiter(s, 0) is None,
        past_whitespace(s),
    ensures
        first_delimiter(s + piece, 0) is None,
        past_params(s + piece),
{
    reveal(past_whitespace);
    reveal(past_params);
    if in_path(s) {
        let piece = seq![32u8];
        lemma_path_ends(s);
        lemma_no_blank_line(s, piece);
        piece
    } else if in_params(s) {
        let piece = params_piece(s, path_end(s));
        lemma_params_complete(s);
        lemma_no_blank_line(s, piece);
        piece
    } else {
        assert(s + Seq::<u8>::empty() =~= s);
        Seq::empty()
    }
}

proof fn lemma_reach_headers(s: Seq<u8>) -> (piece: Seq<u8>)
    requires
        first_delimiter(s, 0) is None,
        past_params(s),
    ensures
        first_delimiter(s + piece, 0) is None,
        at_headers(s + piece),
{
    reveal(past_params);
    reveal(at_headers);
    if before_protocol(s) {
        let piece = protocol_piece();
        lemma_protocol_follows(s);
        lemma_no_blank_line(s, piece);
        piece
    } else if in_protocol(s) {
        let piece = rest_of_keyword(
            s,
            protocol_start(s),
            protocol_begun(s, protocol_start(s)).spec_keyword(),
        );
        lemma_protocol_completes(s);
        lemma_no_blank_line(s, piece);
        piece
    } else {
        assert(s + Seq::<u8>::empty() =~= s);
        Seq::empty()
    }
}

/// The piece for the headers ends in a `b`, and brings no blank line.
proof fn lemma_headers_piece_is_clean(s: Seq<u8>, at: int)
    requires
        first_delimiter(s, 0) is None,
        0 <= at <= s.len(),
        headers_open(s, at),
    ensures
        first_delimiter(s + headers_piece(s, at), 0) is None,
        (s + headers_piece(s, at)).len() > 0,
        (s + headers_piece(s, at))[(s + headers_piece(s, at)).len() - 1] == 98,
{
    let piece = headers_piece(s, at);
    lemma_headers_bounds(s, at);
    match spec_headers(s, at) {
        None => {
            assert(piece =~= seq![65u8, 58, 98]);
            lemma_no_blank_line(s, piece);
        },
        Some((_, end)) => {
            if end == s.len() {
                assert(piece =~= seq![98u8]);
                lemma_no_blank_line(s, piece);
            } else if s[end] == 13 && end + 1 == s.len() {
                assert(piece =~= seq![10u8, 65, 58, 98]);
                lemma_headers_end(s, at);
                lemma_no_blank_line_after_break(s);
            } else {
                assert(piece =~= seq![65u8, 58, 98]);
                lemma_no_blank_line(s, piece);
            }
        },
    }
}

/// A head without a blank line that ends in a `b` is a request once a blank
/// line follows.
#[verifier::rlimit(50)]
proof fn lemma_head_is_request(head: Seq<u8>)
    requires
        first_delimiter(head, 0) is None,
        head.len() > 0,
        head[head.len() - 1] == 98,
        spec_head(head, Seq::empty()) is Some,
    ensures
        spec_parse_request(head + seq![13u8, 10, 13, 10]) is Ok,
{
    let blank = seq![13u8, 10, 13, 10];
    let u = head + blank;
    lemma_blank_line_follows(head);
    assert(u.subrange(0, head.len() as int) =~= head);
    assert(u.subrange(head.len() as int + 4, u.len() as int) =~= Seq::<u8>::empty());
}

proof fn lemma_reach_end(s: Seq<u8>) -> (piece: Seq<u8>)
    requires
        first_delimiter(s, 0) is None,
        at_headers(s),
    ensures
        spec_parse_request(s + piece) is Ok,
{
    reveal(at_headers);
    let at = headers_from(s).unwrap();
    let last = headers_piece(s, at);
    let blank = seq![13u8, 10, 13, 10];
    lemma_head_completes(s, Seq::empty());
    lemma_headers_piece_is_clean(s, at);
    lemma_head_is_request(s + last);
    assert(s + (last + blank) =~= (s + last) + blank);
    last + blank
}

/// Bytes that follow bytes that follow `x` follow `x`.
proof fn lemma_append(x: Seq<u8>, y: Seq<u8>, z: Seq<u8>)
    ensures
        x + (y + z) == (x + y) + z,
{
    assert(x + (y + z) =~= (x + y) + z);
}

/// Bytes that are incomplete may still become a request: there are bytes
/// that, read after them, make one.
pub proof fn lemma_incomplete_can_complete(s: Seq<u8>) -> (t: Seq<u8>)
    requires
        spec_parse_request(s) == Err::<RequestView, ParseError>(ParseError::Incomplete),
    ensures
        spec_parse_request(s + t) is Ok,
{
    assert(first_delimiter(s, 0) is None && spec_prefix(s));
    let a = lemma_reach_method(s);
    let b = lemma_reach_path(s + a);
    let c = lemma_reach_protocol(s + a + b);
    let d = lemma_reach_headers(s + a + b + c);
    let e = lemma_reach_end(s + a + b + c + d);
    lemma_append(s, a, b);
    lemma_append(s, a + b, c);
    lemma_append(s, a + b + c, d);
    lemma_append(s, a + b + c + d, e);
    a + b + c + d + e
}

} // verus!
