//! What reading on does to the verdict on the bytes read so far: bytes that
//! are malformed stay malformed, and a request that is there stays there.

use crate::byte_class::{lemma_run_end, lemma_run_end_is, run_end, spec_lowercase, ByteClass};
use crate::request_parser::{
    begins_method, begins_no_case, begins_protocol, byte_matches, delimiter_at, first_delimiter,
    header_list_open, header_open, headers_open, lemma_first_delimiter, lemma_header_advances,
    lemma_more_values_advance, lemma_pair_advances, lemma_value_advances, lemma_values_advance,
    matches_no_case, params_open, spec_head, spec_header, spec_headers, spec_line_break,
    spec_method, spec_more_headers, spec_more_pairs, spec_more_values, spec_pair, spec_pairs,
    spec_params, spec_parse_request, spec_prefix, spec_protocol, spec_value, spec_values, Method,
    ParseError, Protocol, RequestView,
};
use vstd::prelude::*;

verus! {

/// `z` begins with all of `x`.
pub open spec fn extends(z: Seq<u8>, x: Seq<u8>) -> bool {
    &&& x.len() <= z.len()
    &&& forall|i: int| 0 <= i < x.len() ==> #[trigger] x[i] == z[i]
}

/// A run that ends before the input does ends at the same place when more
/// input follows, and a run that reaches the end of the input still reaches
/// that far.
pub proof fn lemma_run_extends(x: Seq<u8>, z: Seq<u8>, start: int, class: ByteClass)
    requires
        extends(z, x),
        0 <= start <= x.len(),
    ensures
        run_end(x, start, class) < x.len() ==> run_end(z, start, class) == run_end(
            x,
            start,
            class,
        ),
        run_end(x, start, class) == x.len() ==> run_end(z, start, class) >= x.len(),
    decreases x.len() - start,
{
    if start < x.len() {
        assert(x[start] == z[start]);
        if class.spec_contains(x[start]) {
            lemma_run_extends(x, z, start + 1, class);
        }
    } else {
        lemma_run_end(z, start, class);
    }
}

/// A keyword that is there stays there, and a keyword that a byte of the
/// input rules out stays ruled out.
pub proof fn lemma_keyword_extends(x: Seq<u8>, z: Seq<u8>, at: int, keyword: Seq<u8>)
    requires
        extends(z, x),
        0 <= at <= x.len(),
    ensures
        matches_no_case(x, at, keyword) ==> matches_no_case(z, at, keyword),
        !matches_no_case(x, at, keyword) && !begins_no_case(x, at, keyword) ==> !matches_no_case(
            z,
            at,
            keyword,
        ) && !begins_no_case(z, at, keyword),
{
    if matches_no_case(x, at, keyword) {
        assert forall|k: int| 0 <= k < keyword.len() implies #[trigger] byte_matches(
            z,
            at,
            keyword,
            k,
        ) by {
            assert(byte_matches(x, at, keyword, k));
            assert(x[at + k] == z[at + k]);
        }
    }
    if matches_no_case(z, at, keyword) || begins_no_case(z, at, keyword) {
        if at + keyword.len() <= x.len() {
            assert forall|k: int| 0 <= k < keyword.len() implies #[trigger] byte_matches(
                x,
                at,
                keyword,
                k,
            ) by {
                assert(byte_matches(z, at, keyword, k));
                assert(x[at + k] == z[at + k]);
            }
        } else {
            assert forall|k: int| 0 <= k < x.len() - at implies #[trigger] byte_matches(
                x,
                at,
                keyword,
                k,
            ) by {
                assert(byte_matches(z, at, keyword, k));
                assert(x[at + k] == z[at + k]);
            }
        }
    }
}

/// The first two letters of a method's name, in small letters.
pub open spec fn method_initials(method: Method) -> (u8, u8) {
    match method {
        Method::Connect => (99, 111),
        Method::Delete => (100, 101),
        Method::Get => (103, 101),
        Method::Head => (104, 101),
        Method::Options => (111, 112),
        Method::Patch => (112, 97),
        Method::Post => (112, 111),
        Method::Put => (112, 117),
        Method::Trace => (116, 114),
    }
}

/// Every method's name has three letters or more and begins with its
/// initials.
pub proof fn lemma_method_keywords(method: Method)
    ensures
        3 <= method.spec_keyword().len() <= 7,
        spec_lowercase(method.spec_keyword()[0]) == method_initials(method).0,
        spec_lowercase(method.spec_keyword()[1]) == method_initials(method).1,
{
    reveal_strlit("connect");
    reveal_strlit("delete");
    reveal_strlit("get");
    reveal_strlit("head");
    reveal_strlit("options");
    reveal_strlit("patch");
    reveal_strlit("post");
    reveal_strlit("put");
    reveal_strlit("trace");
    vstd::string::is_ascii_spec_bytes("connect");
    vstd::string::is_ascii_spec_bytes("delete");
    vstd::string::is_ascii_spec_bytes("get");
    vstd::string::is_ascii_spec_bytes("head");
    vstd::string::is_ascii_spec_bytes("options");
    vstd::string::is_ascii_spec_bytes("patch");
    vstd::string::is_ascii_spec_bytes("post");
    vstd::string::is_ascii_spec_bytes("put");
    vstd::string::is_ascii_spec_bytes("trace");
}

/// Both protocol names have eight letters, and they differ in the last.
pub proof fn lemma_protocol_keywords()
    ensures
        Protocol::Http10.spec_keyword().len() == 8,
        Protocol::Http11.spec_keyword().len() == 8,
        spec_lowercase(Protocol::Http10.spec_keyword()[7]) == 48,
        spec_lowercase(Protocol::Http11.spec_keyword()[7]) == 49,
{
    reveal_strlit("http/1.0");
    reveal_strlit("http/1.1");
    vstd::string::is_ascii_spec_bytes("http/1.0");
    vstd::string::is_ascii_spec_bytes("http/1.1");
}

/// The method found is one whose name is there, and a method is found
/// wherever the name of one is there.
pub proof fn lemma_method_found(s: Seq<u8>, method: Method)
    ensures
        spec_method(s) == Some(method) ==> matches_no_case(s, 0, method.spec_keyword()),
        matches_no_case(s, 0, method.spec_keyword()) ==> spec_method(s) == Some(method),
{
    if matches_no_case(s, 0, method.spec_keyword()) {
        let found = spec_method(s).unwrap();
        lemma_method_keywords(method);
        lemma_method_keywords(found);
        assert(byte_matches(s, 0, method.spec_keyword(), 0));
        assert(byte_matches(s, 0, method.spec_keyword(), 1));
        assert(byte_matches(s, 0, found.spec_keyword(), 0));
        assert(byte_matches(s, 0, found.spec_keyword(), 1));
    }
}

/// The protocol found is one whose name is there, and a protocol is found
/// wherever the name of one is there.
pub proof fn lemma_protocol_found(s: Seq<u8>, at: int, protocol: Protocol)
    ensures
        spec_protocol(s, at) == Some(protocol) ==> matches_no_case(
            s,
            at,
            protocol.spec_keyword(),
        ),
        matches_no_case(s, at, protocol.spec_keyword()) ==> spec_protocol(s, at) == Some(protocol),
{
    if matches_no_case(s, at, protocol.spec_keyword()) {
        let found = spec_protocol(s, at).unwrap();
        lemma_protocol_keywords();
        assert(byte_matches(s, at, protocol.spec_keyword(), 7));
        assert(byte_matches(s, at, found.spec_keyword(), 7));
    }
}

/// A method that is found stays found, and input that cannot begin a
/// method's name still cannot when more follows.
pub proof fn lemma_method_extends(x: Seq<u8>, z: Seq<u8>)
    requires
        extends(z, x),
    ensures
        spec_method(x) is Some ==> spec_method(z) == spec_method(x),
        spec_method(x) is None && !begins_method(x) ==> spec_method(z) is None && !begins_method(z),
{
    lemma_keyword_extends(x, z, 0, Method::Connect.spec_keyword());
    lemma_keyword_extends(x, z, 0, Method::Delete.spec_keyword());
    lemma_keyword_extends(x, z, 0, Method::Get.spec_keyword());
    lemma_keyword_extends(x, z, 0, Method::Head.spec_keyword());
    lemma_keyword_extends(x, z, 0, Method::Options.spec_keyword());
    lemma_keyword_extends(x, z, 0, Method::Patch.spec_keyword());
    lemma_keyword_extends(x, z, 0, Method::Post.spec_keyword());
    lemma_keyword_extends(x, z, 0, Method::Put.spec_keyword());
    lemma_keyword_extends(x, z, 0, Method::Trace.spec_keyword());
    if spec_method(x) is Some {
        let method = spec_method(x).unwrap();
        lemma_method_found(x, method);
        lemma_method_found(z, method);
    }
}

/// A protocol that is found stays found, and input that cannot begin a
/// protocol's name still cannot when more follows.
pub proof fn lemma_protocol_extends(x: Seq<u8>, z: Seq<u8>, at: int)
    requires
        extends(z, x),
        0 <= at <= x.len(),
    ensures
        spec_protocol(x, at) is Some ==> spec_protocol(z, at) == spec_protocol(x, at),
        spec_protocol(x, at) is None && !begins_protocol(x, at) ==> spec_protocol(z, at) is None
            && !begins_protocol(z, at),
{
    lemma_keyword_extends(x, z, at, Protocol::Http10.spec_keyword());
    lemma_keyword_extends(x, z, at, Protocol::Http11.spec_keyword());
    if spec_protocol(x, at) is Some {
        let protocol = spec_protocol(x, at).unwrap();
        lemma_protocol_found(x, at, protocol);
        lemma_protocol_found(z, at, protocol);
    }
}

// ---------------------------------------------------------------------------
// Lists that end on account of a byte that is there
// ---------------------------------------------------------------------------

/// A pair that ends before the input does is the same when more input
/// follows, and so is the lack of one that a byte of the input rules out.
pub proof fn lemma_pair_extends(x: Seq<u8>, z: Seq<u8>, at: int)
    requires
        extends(z, x),
        0 <= at <= x.len(),
    ensures
        spec_pair(x, at) matches Some((_, end)) && end < x.len() ==> spec_pair(z, at) == spec_pair(
            x,
            at,
        ),
        spec_pair(x, at) is None && run_end(x, at, ByteClass::Key) < x.len() ==> spec_pair(z, at)
            is None,
{
    lemma_run_end(x, at, ByteClass::Key);
    let k = run_end(x, at, ByteClass::Key);
    lemma_run_extends(x, z, at, ByteClass::Key);
    if k < x.len() {
        assert(x[k] == z[k]);
        if spec_pair(x, at) is Some {
            lemma_run_end(x, k + 1, ByteClass::ParamValue);
            lemma_run_extends(x, z, k + 1, ByteClass::ParamValue);
            let v = run_end(x, k + 1, ByteClass::ParamValue);
            if v < x.len() {
                assert(x.subrange(at, k) =~= z.subrange(at, k));
                assert(x.subrange(k + 1, v) =~= z.subrange(k + 1, v));
            }
        }
    }
}

/// The rest of a list of pairs ends at or after the place where it begins,
/// inside the input.
pub proof fn lemma_more_pairs_bounds(s: Seq<u8>, at: int)
    requires
        0 <= at <= s.len(),
    ensures
        at <= spec_more_pairs(s, at).1 <= s.len(),
    decreases s.len() - at,
{
    if at < s.len() && s[at] == 38 {
        lemma_pair_advances(s, at + 1);
        match spec_pair(s, at + 1) {
            Some((_, end)) => {
                lemma_more_pairs_bounds(s, end);
            },
            None => {},
        }
    }
}

/// The rest of a list of pairs that ends on account of a byte of the input
/// is the same when more input follows.
pub proof fn lemma_more_pairs_extends(x: Seq<u8>, z: Seq<u8>, at: int)
    requires
        extends(z, x),
        0 <= at <= x.len(),
        spec_more_pairs(x, at).1 < x.len(),
        !(x[spec_more_pairs(x, at).1] == 38 && run_end(
            x,
            spec_more_pairs(x, at).1 + 1,
            ByteClass::Key,
        ) == x.len()),
    ensures
        spec_more_pairs(z, at) == spec_more_pairs(x, at),
    decreases x.len() - at,
{
    lemma_more_pairs_bounds(x, at);
    assert(x[at] == z[at]);
    if x[at] == 38 {
        lemma_pair_advances(x, at + 1);
        lemma_pair_extends(x, z, at + 1);
        lemma_run_end(x, at + 1, ByteClass::Key);
        match spec_pair(x, at + 1) {
            Some((pair, end)) => {
                lemma_more_pairs_bounds(x, end);
                lemma_more_pairs_extends(x, z, end);
            },
            None => {},
        }
    }
}

/// Parameters that are not cut short by the end of the input are the same
/// when more input follows.
pub proof fn lemma_params_extends(x: Seq<u8>, z: Seq<u8>, at: int)
    requires
        extends(z, x),
        0 <= at < x.len(),
        !params_open(x, at),
    ensures
        spec_params(z, at) == spec_params(x, at),
        !params_open(z, at),
{
    assert(x[at] == z[at]);
    if x[at] == 63 {
        let pairs = spec_pairs(x, at + 1);
        lemma_pair_advances(x, at + 1);
        lemma_pair_extends(x, z, at + 1);
        lemma_run_end(x, at + 1, ByteClass::Key);
        match spec_pair(x, at + 1) {
            Some((pair, end)) => {
                lemma_more_pairs_bounds(x, end);
                assert(pairs.0.len() > 0);
                lemma_more_pairs_extends(x, z, end);
                lemma_run_end(x, pairs.1 + 1, ByteClass::Key);
                lemma_run_extends(x, z, pairs.1 + 1, ByteClass::Key);
                assert(x[pairs.1] == z[pairs.1]);
            },
            None => {
                lemma_run_extends(x, z, at + 1, ByteClass::Key);
            },
        }
    }
}

/// A value that ends before the input does is the same when more input
/// follows.
pub proof fn lemma_value_extends(x: Seq<u8>, z: Seq<u8>, at: int)
    requires
        extends(z, x),
        0 <= at <= x.len(),
        spec_value(x, at).1 < x.len(),
    ensures
        spec_value(z, at) == spec_value(x, at),
{
    lemma_run_end(x, at, ByteClass::Whitespace);
    let from = run_end(x, at, ByteClass::Whitespace);
    lemma_run_end(x, from, ByteClass::HeaderValue);
    let to = run_end(x, from, ByteClass::HeaderValue);
    lemma_run_extends(x, z, at, ByteClass::Whitespace);
    lemma_run_extends(x, z, from, ByteClass::HeaderValue);
    assert(x.subrange(from, to) =~= z.subrange(from, to));
}

/// The rest of a list of values that ends before the input does is the same
/// when more input follows.
pub proof fn lemma_more_values_extends(x: Seq<u8>, z: Seq<u8>, at: int)
    requires
        extends(z, x),
        0 <= at <= x.len(),
        spec_more_values(x, at).1 < x.len(),
    ensures
        spec_more_values(z, at) == spec_more_values(x, at),
    decreases x.len() - at,
{
    lemma_more_values_advance(x, at);
    assert(x[at] == z[at]);
    if x[at] == 44 {
        lemma_value_advances(x, at + 1);
        let value = spec_value(x, at + 1);
        lemma_more_values_advance(x, value.1);
        lemma_value_extends(x, z, at + 1);
        lemma_more_values_extends(x, z, value.1);
    }
}

/// A list of values that ends before the input does is the same when more
/// input follows.
pub proof fn lemma_values_extends(x: Seq<u8>, z: Seq<u8>, at: int)
    requires
        extends(z, x),
        0 <= at <= x.len(),
        spec_values(x, at).1 < x.len(),
    ensures
        spec_values(z, at) == spec_values(x, at),
{
    lemma_value_advances(x, at);
    let value = spec_value(x, at);
    lemma_more_values_advance(x, value.1);
    lemma_value_extends(x, z, at);
    lemma_more_values_extends(x, z, value.1);
}

/// A header that ends before the input does is the same when more input
/// follows, and so is the lack of one that a byte of the input rules out.
pub proof fn lemma_header_extends(x: Seq<u8>, z: Seq<u8>, at: int)
    requires
        extends(z, x),
        0 <= at <= x.len(),
    ensures
        spec_header(x, at) matches Some((_, end)) && end < x.len() ==> spec_header(z, at)
            == spec_header(x, at),
        spec_header(x, at) is None && !header_open(x, at) ==> spec_header(z, at) is None
            && !header_open(z, at),
{
    lemma_run_end(x, at, ByteClass::Whitespace);
    let from = run_end(x, at, ByteClass::Whitespace);
    lemma_run_end(x, from, ByteClass::HeaderName);
    let to = run_end(x, from, ByteClass::HeaderName);
    lemma_run_extends(x, z, at, ByteClass::Whitespace);
    lemma_run_extends(x, z, from, ByteClass::HeaderName);
    if to < x.len() {
        assert(x[to] == z[to]);
        if spec_header(x, at) is Some {
            lemma_values_advance(x, to + 1);
            if spec_values(x, to + 1).1 < x.len() {
                lemma_values_extends(x, z, to + 1);
                assert(x.subrange(from, to) =~= z.subrange(from, to));
            }
        }
    }
}

/// A line break, or the lack of one, is the same when more input follows,
/// unless the input ends in a carriage return.
pub proof fn lemma_line_break_extends(x: Seq<u8>, z: Seq<u8>, at: int)
    requires
        extends(z, x),
        0 <= at < x.len(),
        !(x[at] == 13 && at + 1 == x.len()),
    ensures
        spec_line_break(z, at) == spec_line_break(x, at),
        at + spec_line_break(x, at) <= x.len(),
{
    assert(x[at] == z[at]);
    if at + 1 < x.len() {
        assert(x[at + 1] == z[at + 1]);
    }
}

/// The rest of a list of headers ends at or after the place where it
/// begins, inside the input.
pub proof fn lemma_more_headers_bounds(s: Seq<u8>, at: int)
    requires
        0 <= at <= s.len(),
    ensures
        at <= spec_more_headers(s, at).1 <= s.len(),
    decreases s.len() - at,
{
    let br = spec_line_break(s, at);
    if br > 0 {
        lemma_header_advances(s, at + br);
        match spec_header(s, at + br) {
            Some((_, end)) => {
                lemma_more_headers_bounds(s, end);
            },
            None => {},
        }
    }
}

/// The rest of a list of headers that ends on account of a byte of the
/// input is the same when more input follows.
pub proof fn lemma_more_headers_extends(x: Seq<u8>, z: Seq<u8>, at: int)
    requires
        extends(z, x),
        0 <= at <= x.len(),
        !header_list_open(x, spec_more_headers(x, at).1),
    ensures
        spec_more_headers(z, at) == spec_more_headers(x, at),
        !header_list_open(z, spec_more_headers(x, at).1),
    decreases x.len() - at,
{
    lemma_more_headers_bounds(x, at);
    let end = spec_more_headers(x, at).1;
    let br = spec_line_break(x, at);
    if br > 0 {
        lemma_header_advances(x, at + br);
        match spec_header(x, at + br) {
            Some((header, next)) => {
                lemma_more_headers_bounds(x, next);
                lemma_line_break_extends(x, z, at);
                lemma_header_extends(x, z, at + br);
                lemma_more_headers_extends(x, z, next);
            },
            None => {
                lemma_line_break_extends(x, z, at);
                lemma_header_extends(x, z, at + br);
            },
        }
    } else {
        lemma_line_break_extends(x, z, at);
    }
}

/// Headers that are not cut short by the end of the input are the same when
/// more input follows.
pub proof fn lemma_headers_extends(x: Seq<u8>, z: Seq<u8>, at: int)
    requires
        extends(z, x),
        0 <= at <= x.len(),
        !headers_open(x, at),
    ensures
        spec_headers(z, at) == spec_headers(x, at),
        !headers_open(z, at),
{
    lemma_header_advances(x, at);
    lemma_header_extends(x, z, at);
    match spec_header(x, at) {
        Some((header, next)) => {
            lemma_more_headers_bounds(x, next);
            lemma_more_headers_extends(x, z, next);
        },
        None => {},
    }
}

/// Parameters end at or after the place where they begin, inside the input.
pub proof fn lemma_params_bounds(s: Seq<u8>, at: int)
    requires
        0 <= at <= s.len(),
    ensures
        at <= spec_params(s, at).1 <= s.len(),
{
    if at < s.len() && s[at] == 63 {
        lemma_pair_advances(s, at + 1);
        match spec_pair(s, at + 1) {
            Some((_, end)) => {
                lemma_more_pairs_bounds(s, end);
            },
            None => {},
        }
    }
}

/// A list of headers takes up a byte or more, and ends inside the input.
pub proof fn lemma_headers_bounds(s: Seq<u8>, at: int)
    requires
        0 <= at <= s.len(),
    ensures
        spec_headers(s, at) matches Some((_, end)) ==> at < end <= s.len(),
{
    lemma_header_advances(s, at);
    match spec_header(s, at) {
        Some((_, next)) => {
            lemma_more_headers_bounds(s, next);
        },
        None => {},
    }
}

// ---------------------------------------------------------------------------
// Bytes that break the grammar
// ---------------------------------------------------------------------------

/// Bytes that break the grammar break it whatever follows them: they do not
/// begin a request, and they do not begin the head of one.
pub proof fn lemma_prefix_extends(x: Seq<u8>, z: Seq<u8>, body: Seq<u8>)
    requires
        extends(z, x),
        !spec_prefix(x),
    ensures
        !spec_prefix(z),
        spec_head(z, body) is None,
{
    lemma_method_extends(x, z);
    match spec_method(x) {
        None => {},
        Some(method) => {
            lemma_method_found(x, method);
            let named = method.spec_keyword().len() as int;
            lemma_run_end(x, named, ByteClass::Whitespace);
            lemma_run_extends(x, z, named, ByteClass::Whitespace);
            let path_from = run_end(x, named, ByteClass::Whitespace);
            if path_from != named {
                lemma_run_end(x, path_from, ByteClass::Path);
                lemma_run_extends(x, z, path_from, ByteClass::Path);
                let path_to = run_end(x, path_from, ByteClass::Path);
                lemma_params_bounds(x, path_to);
                lemma_params_extends(x, z, path_to);
                let params = spec_params(x, path_to);
                lemma_run_end(x, params.1, ByteClass::Whitespace);
                lemma_run_extends(x, z, params.1, ByteClass::Whitespace);
                let protocol_from = run_end(x, params.1, ByteClass::Whitespace);
                if protocol_from != params.1 {
                    lemma_protocol_extends(x, z, protocol_from);
                    match spec_protocol(x, protocol_from) {
                        None => {},
                        Some(protocol) => {
                            lemma_protocol_found(x, protocol_from, protocol);
                            let at = protocol_from + protocol.spec_keyword().len();
                            lemma_headers_bounds(x, at);
                            lemma_headers_extends(x, z, at);
                        },
                    }
                }
            }
        },
    }
}

// ---------------------------------------------------------------------------
// A head that is followed by the beginning of a blank line
// ---------------------------------------------------------------------------

/// From `at` to its end, `s` holds the beginning of a blank line, and not
/// all of it.
pub open spec fn blank_line_begins(s: Seq<u8>, at: int) -> bool {
    &&& 0 <= at < s.len()
    &&& s.len() - at <= 3
    &&& s[at] == 13
    &&& (at + 1 < s.len() ==> s[at + 1] == 10)
    &&& (at + 2 < s.len() ==> s[at + 2] == 13)
}

proof fn lemma_tail_is_whitespace(s: Seq<u8>, d: int, from: int)
    requires
        blank_line_begins(s, d),
        0 <= from <= d,
        forall|k: int| from <= k < d ==> ByteClass::Whitespace.spec_contains(#[trigger] s[k]),
    ensures
        run_end(s, from, ByteClass::Whitespace) == s.len(),
        run_end(s, s.len() as int, ByteClass::HeaderValue) == s.len(),
        run_end(s, s.len() as int, ByteClass::HeaderName) == s.len(),
{
    assert forall|k: int| from <= k < s.len() implies ByteClass::Whitespace.spec_contains(
        #[trigger] s[k],
    ) by {
        if k >= d {
            assert(k == d || k == d + 1 || k == d + 2);
        }
    }
    lemma_run_end_is(s, from, s.len() as int, ByteClass::Whitespace);
}

proof fn lemma_value_straddles(s: Seq<u8>, d: int, at: int)
    requires
        blank_line_begins(s, d),
        0 <= at <= d,
        spec_value(s.subrange(0, d), at).1 == d,
    ensures
        spec_value(s, at).1 == d || spec_value(s, at).1 == s.len(),
{
    let y = s.subrange(0, d);
    assert(extends(s, y));
    lemma_run_end(y, at, ByteClass::Whitespace);
    lemma_run_extends(y, s, at, ByteClass::Whitespace);
    let from = run_end(y, at, ByteClass::Whitespace);
    lemma_run_end(y, from, ByteClass::HeaderValue);
    if from < d {
        assert forall|k: int| from <= k < d implies ByteClass::HeaderValue.spec_contains(
            #[trigger] s[k],
        ) by {
            assert(y[k] == s[k]);
        }
        lemma_run_end_is(s, from, d, ByteClass::HeaderValue);
    } else {
        assert forall|k: int| at <= k < d implies ByteClass::Whitespace.spec_contains(
            #[trigger] s[k],
        ) by {
            assert(y[k] == s[k]);
        }
        lemma_tail_is_whitespace(s, d, at);
    }
}

proof fn lemma_more_values_straddle(s: Seq<u8>, d: int, at: int)
    requires
        blank_line_begins(s, d),
        0 <= at <= d,
        spec_more_values(s.subrange(0, d), at).1 == d,
    ensures
        spec_more_values(s, at).1 == d || spec_more_values(s, at).1 == s.len(),
    decreases d - at,
{
    let y = s.subrange(0, d);
    assert(extends(s, y));
    if at < d {
        assert(y[at] == s[at]);
        lemma_value_advances(y, at + 1);
        let value = spec_value(y, at + 1);
        lemma_more_values_advance(y, value.1);
        if value.1 < d {
            lemma_value_extends(y, s, at + 1);
            lemma_more_values_straddle(s, d, value.1);
        } else {
            lemma_value_straddles(s, d, at + 1);
            if spec_value(s, at + 1).1 == d {
                lemma_more_values_straddle(s, d, d);
            } else {
                assert(spec_more_values(s, s.len() as int).1 == s.len());
            }
        }
    }
}

proof fn lemma_values_straddle(s: Seq<u8>, d: int, at: int)
    requires
        blank_line_begins(s, d),
        0 <= at <= d,
        spec_values(s.subrange(0, d), at).1 == d,
    ensures
        spec_values(s, at).1 == d || spec_values(s, at).1 == s.len(),
{
    let y = s.subrange(0, d);
    assert(extends(s, y));
    lemma_value_advances(y, at);
    let value = spec_value(y, at);
    lemma_more_values_advance(y, value.1);
    if value.1 < d {
        lemma_value_extends(y, s, at);
        lemma_more_values_straddle(s, d, value.1);
    } else {
        lemma_value_straddles(s, d, at);
        if spec_value(s, at).1 == d {
            lemma_more_values_straddle(s, d, d);
        }
    }
}

proof fn lemma_header_straddles(s: Seq<u8>, d: int, at: int)
    requires
        blank_line_begins(s, d),
        0 <= at <= d,
        spec_header(s.subrange(0, d), at) matches Some((_, end)) && end == d,
    ensures
        spec_header(s, at) matches Some((_, end)) && (end == d || end == s.len()),
{
    let y = s.subrange(0, d);
    assert(extends(s, y));
    lemma_run_end(y, at, ByteClass::Whitespace);
    let from = run_end(y, at, ByteClass::Whitespace);
    lemma_run_end(y, from, ByteClass::HeaderName);
    let to = run_end(y, from, ByteClass::HeaderName);
    lemma_run_extends(y, s, at, ByteClass::Whitespace);
    lemma_run_extends(y, s, from, ByteClass::HeaderName);
    assert(y[to] == s[to]);
    lemma_values_straddle(s, d, to + 1);
}

proof fn lemma_list_opens_at_blank_line(s: Seq<u8>, d: int)
    requires
        blank_line_begins(s, d),
    ensures
        spec_more_headers(s, d).1 == d,
        header_list_open(s, d),
        spec_more_headers(s, s.len() as int).1 == s.len(),
{
    if d + 1 < s.len() {
        assert(spec_line_break(s, d) == 2);
        assert forall|k: int| d + 2 <= k < s.len() implies ByteClass::Whitespace.spec_contains(
            #[trigger] s[k],
        ) by {
            assert(k == d + 2);
        }
        lemma_run_end_is(s, d + 2, s.len() as int, ByteClass::Whitespace);
        assert(header_open(s, d + 2));
        assert(spec_header(s, d + 2) is None);
    }
}

proof fn lemma_more_headers_straddle(s: Seq<u8>, d: int, at: int)
    requires
        blank_line_begins(s, d),
        0 <= at <= d,
        spec_more_headers(s.subrange(0, d), at).1 == d,
    ensures
        header_list_open(s, spec_more_headers(s, at).1),
    decreases d - at,
{
    let y = s.subrange(0, d);
    assert(extends(s, y));
    lemma_list_opens_at_blank_line(s, d);
    if at < d {
        let br = spec_line_break(y, at);
        lemma_line_break_extends(y, s, at);
        lemma_header_advances(y, at + br);
        match spec_header(y, at + br) {
            Some((header, next)) => {
                lemma_more_headers_bounds(y, next);
                if next < d {
                    lemma_header_extends(y, s, at + br);
                    lemma_more_headers_straddle(s, d, next);
                } else {
                    lemma_header_straddles(s, d, at + br);
                }
            },
            None => {},
        }
    }
}

proof fn lemma_headers_straddle(s: Seq<u8>, d: int, at: int)
    requires
        blank_line_begins(s, d),
        0 <= at <= d,
        spec_headers(s.subrange(0, d), at) matches Some((_, end)) && end == d,
    ensures
        headers_open(s, at),
{
    let y = s.subrange(0, d);
    assert(extends(s, y));
    lemma_list_opens_at_blank_line(s, d);
    lemma_header_advances(y, at);
    match spec_header(y, at) {
        Some((header, next)) => {
            lemma_more_headers_bounds(y, next);
            if next < d {
                lemma_header_extends(y, s, at);
                lemma_more_headers_straddle(s, d, next);
            } else {
                lemma_header_straddles(s, d, at);
            }
        },
        None => {},
    }
}

/// A head, and after it the beginning of a blank line, may still become a
/// request.
pub proof fn lemma_head_before_blank_line(s: Seq<u8>, d: int, body: Seq<u8>)
    requires
        blank_line_begins(s, d),
        spec_head(s.subrange(0, d), body) is Some,
    ensures
        spec_prefix(s),
{
    let y = s.subrange(0, d);
    assert(extends(s, y));
    lemma_method_extends(y, s);
    let method = spec_method(y).unwrap();
    lemma_method_found(y, method);
    let named = method.spec_keyword().len() as int;
    lemma_run_end(y, named, ByteClass::Whitespace);
    let path_from = run_end(y, named, ByteClass::Whitespace);
    lemma_run_end(y, path_from, ByteClass::Path);
    let path_to = run_end(y, path_from, ByteClass::Path);
    lemma_params_bounds(y, path_to);
    let params = spec_params(y, path_to);
    lemma_run_end(y, params.1, ByteClass::Whitespace);
    let protocol_from = run_end(y, params.1, ByteClass::Whitespace);
    let protocol = spec_protocol(y, protocol_from).unwrap();
    lemma_protocol_found(y, protocol_from, protocol);
    lemma_protocol_keywords();
    lemma_run_extends(y, s, named, ByteClass::Whitespace);
    lemma_run_extends(y, s, path_from, ByteClass::Path);
    assert(!params_open(y, path_to)) by {
        if y[path_to] == 63 {
            let pairs = spec_pairs(y, path_to + 1);
            assert(ByteClass::Whitespace.spec_contains(y[pairs.1]));
            assert(run_end(y, pairs.1, ByteClass::Key) == pairs.1);
        }
    }
    lemma_params_extends(y, s, path_to);
    lemma_run_extends(y, s, params.1, ByteClass::Whitespace);
    lemma_protocol_extends(y, s, protocol_from);
    lemma_headers_straddle(s, d, protocol_from + protocol.spec_keyword().len());
}

// ---------------------------------------------------------------------------
// The verdict as bytes arrive
// ---------------------------------------------------------------------------

/// A blank line with none before it is the first.
pub proof fn lemma_first_delimiter_is(s: Seq<u8>, from: int, d: int)
    requires
        0 <= from <= d,
        delimiter_at(s, d),
        forall|j: int| from <= j < d ==> !delimiter_at(s, j),
    ensures
        first_delimiter(s, from) == Some(d),
    decreases d - from,
{
    if from < d {
        lemma_first_delimiter_is(s, from + 1, d);
    }
}

/// Bytes that are malformed stay malformed whatever is read after them: no
/// request is turned away that more bytes would have completed.
pub proof fn lemma_malformed_is_final(s: Seq<u8>, t: Seq<u8>)
    requires
        spec_parse_request(s) == Err::<RequestView, ParseError>(ParseError::Malformed),
    ensures
        spec_parse_request(s + t) == Err::<RequestView, ParseError>(ParseError::Malformed),
{
    let u = s + t;
    assert(extends(u, s));
    lemma_first_delimiter(s, 0);
    lemma_first_delimiter(u, 0);
    match first_delimiter(s, 0) {
        Some(d) => {
            assert(delimiter_at(u, d)) by {
                assert(s[d] == u[d] && s[d + 1] == u[d + 1] && s[d + 2] == u[d + 2] && s[d + 3]
                    == u[d + 3]);
            }
            assert forall|j: int| 0 <= j < d implies !delimiter_at(u, j) by {
                assert(s[j] == u[j] && s[j + 1] == u[j + 1] && s[j + 2] == u[j + 2] && s[j + 3]
                    == u[j + 3]);
                assert(!delimiter_at(s, j));
            }
            lemma_first_delimiter_is(u, 0, d);
            assert(u.subrange(0, d) =~= s.subrange(0, d));
        },
        None => {
            match first_delimiter(u, 0) {
                None => {
                    lemma_prefix_extends(s, u, Seq::empty());
                },
                Some(d) => {
                    let body = u.subrange(d + 4, u.len() as int);
                    let head = u.subrange(0, d);
                    if d + 4 <= s.len() {
                        assert(s[d] == u[d] && s[d + 1] == u[d + 1] && s[d + 2] == u[d + 2] && s[d
                            + 3] == u[d + 3]);
                        assert(delimiter_at(s, d));
                    } else if d >= s.len() {
                        assert(extends(head, s)) by {
                            assert forall|i: int| 0 <= i < s.len() implies #[trigger] s[i]
                                == head[i] by {
                                assert(s[i] == u[i]);
                            }
                        }
                        lemma_prefix_extends(s, head, body);
                    } else {
                        assert(blank_line_begins(s, d)) by {
                            assert(s[d] == u[d]);
                            if d + 1 < s.len() {
                                assert(s[d + 1] == u[d + 1]);
                            }
                            if d + 2 < s.len() {
                                assert(s[d + 2] == u[d + 2]);
                            }
                        }
                        assert(head =~= s.subrange(0, d)) by {
                            assert forall|i: int| 0 <= i < d implies head[i] == s.subrange(
                                0,
                                d,
                            )[i] by {
                                assert(s[i] == u[i]);
                            }
                        }
                        if spec_head(head, body) is Some {
                            lemma_head_before_blank_line(s, d, body);
                        }
                    }
                },
            }
        },
    }
}

/// A request that is there stays there: bytes read after it lengthen its
/// body and change nothing else.
pub proof fn lemma_complete_is_stable(s: Seq<u8>, t: Seq<u8>)
    requires
        spec_parse_request(s) is Ok,
    ensures
        spec_parse_request(s + t) == Ok::<RequestView, ParseError>(
            RequestView {
                method: spec_parse_request(s).unwrap().method,
                path: spec_parse_request(s).unwrap().path,
                params: spec_parse_request(s).unwrap().params,
                protocol: spec_parse_request(s).unwrap().protocol,
                headers: spec_parse_request(s).unwrap().headers,
                body: spec_parse_request(s).unwrap().body + t,
            },
        ),
{
    let u = s + t;
    lemma_first_delimiter(s, 0);
    let d = first_delimiter(s, 0).unwrap();
    assert(delimiter_at(u, d)) by {
        assert(s[d] == u[d] && s[d + 1] == u[d + 1] && s[d + 2] == u[d + 2] && s[d + 3] == u[d
            + 3]);
    }
    assert forall|j: int| 0 <= j < d implies !delimiter_at(u, j) by {
        assert(s[j] == u[j] && s[j + 1] == u[j + 1] && s[j + 2] == u[j + 2] && s[j + 3] == u[j
            + 3]);
        assert(!delimiter_at(s, j));
    }
    lemma_first_delimiter_is(u, 0, d);
    assert(u.subrange(0, d) =~= s.subrange(0, d));
    assert(u.subrange(d + 4, u.len() as int) =~= s.subrange(d + 4, s.len() as int) + t);
}

} // verus!
