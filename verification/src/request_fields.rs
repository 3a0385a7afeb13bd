//! What the fields of a request hold: each is made of the bytes that the
//! grammar lets it have, whatever the input was.

use crate::byte_class::{lemma_run_end, run_end, spec_is_multispace, ByteClass};
use crate::request_parser::{
    first_delimiter, lemma_first_delimiter, lemma_header_advances, lemma_pair_advances,
    lemma_value_advances, spec_head, spec_header, spec_headers, spec_line_break, spec_method,
    spec_more_headers, spec_more_pairs, spec_more_values, spec_pair, spec_pairs, spec_params,
    spec_parse_request, spec_protocol, spec_value, spec_values, RequestView,
};
use vstd::prelude::*;

verus! {

/// Every byte of `s` is of `class`.
pub open spec fn all_of(s: Seq<u8>, class: ByteClass) -> bool {
    forall|i: int| 0 <= i < s.len() ==> class.spec_contains(#[trigger] s[i])
}

/// A key of one or more letters and digits, and a value without space, tab
/// and `&`.
pub open spec fn pair_follows_grammar(pair: (Seq<u8>, Seq<u8>)) -> bool {
    &&& pair.0.len() >= 1
    &&& all_of(pair.0, ByteClass::Key)
    &&& all_of(pair.1, ByteClass::ParamValue)
}

/// A value without `,`, carriage return and line feed, and without
/// whitespace at its beginning.
pub open spec fn value_follows_grammar(value: Seq<u8>) -> bool {
    &&& all_of(value, ByteClass::HeaderValue)
    &&& value.len() > 0 ==> !spec_is_multispace(value[0])
}

/// A name without whitespace and `:`, and one or more values.
pub open spec fn header_follows_grammar(header: (Seq<u8>, Seq<Seq<u8>>)) -> bool {
    &&& all_of(header.0, ByteClass::HeaderName)
    &&& header.1.len() >= 1
    &&& forall|j: int| 0 <= j < header.1.len() ==> value_follows_grammar(#[trigger] header.1[j])
}

/// Every pair follows the grammar.
pub open spec fn pairs_follow_grammar(pairs: Seq<(Seq<u8>, Seq<u8>)>) -> bool {
    forall|j: int| 0 <= j < pairs.len() ==> pair_follows_grammar(#[trigger] pairs[j])
}

/// Every value follows the grammar.
pub open spec fn values_follow_grammar(values: Seq<Seq<u8>>) -> bool {
    forall|j: int| 0 <= j < values.len() ==> value_follows_grammar(#[trigger] values[j])
}

/// Every header follows the grammar.
pub open spec fn headers_follow_grammar(headers: Seq<(Seq<u8>, Seq<Seq<u8>>)>) -> bool {
    forall|j: int| 0 <= j < headers.len() ==> header_follows_grammar(#[trigger] headers[j])
}

/// The path holds no space, tab or `?`; every parameter has a key of one or
/// more letters and digits and a value without space, tab and `&`; there is
/// a header; every header has a name without whitespace and `:` and one or
/// more values; and every value of a header is without `,`, carriage return
/// and line feed, and does not begin with whitespace.
pub open spec fn fields_follow_grammar(request: RequestView) -> bool {
    &&& all_of(request.path, ByteClass::Path)
    &&& request.params matches Some(pairs) ==> pairs_follow_grammar(pairs)
    &&& request.headers.len() >= 1
    &&& headers_follow_grammar(request.headers)
}

/// A run holds bytes of its class only.
pub proof fn lemma_run_is_of_class(s: Seq<u8>, start: int, class: ByteClass)
    requires
        0 <= start <= s.len(),
    ensures
        all_of(s.subrange(start, run_end(s, start, class)), class),
{
    lemma_run_end(s, start, class);
    let run = s.subrange(start, run_end(s, start, class));
    assert forall|i: int| 0 <= i < run.len() implies class.spec_contains(#[trigger] run[i]) by {
        assert(run[i] == s[start + i]);
    }
}

proof fn lemma_pair_follows(s: Seq<u8>, at: int)
    requires
        0 <= at <= s.len(),
    ensures
        spec_pair(s, at) matches Some((pair, _)) ==> pair_follows_grammar(pair),
{
    lemma_run_end(s, at, ByteClass::Key);
    lemma_run_is_of_class(s, at, ByteClass::Key);
    let k = run_end(s, at, ByteClass::Key);
    if k < s.len() {
        lemma_run_is_of_class(s, k + 1, ByteClass::ParamValue);
    }
}

proof fn lemma_more_pairs_follow(s: Seq<u8>, at: int)
    requires
        0 <= at <= s.len(),
    ensures
        pairs_follow_grammar(spec_more_pairs(s, at).0),
    decreases s.len() - at,
{
    if at < s.len() && s[at] == 38 {
        lemma_pair_advances(s, at + 1);
        lemma_pair_follows(s, at + 1);
        match spec_pair(s, at + 1) {
            Some((pair, end)) => {
                lemma_more_pairs_follow(s, end);
                let more = spec_more_pairs(s, end).0;
                let all = seq![pair] + more;
                assert forall|j: int| 0 <= j < all.len() implies pair_follows_grammar(
                    #[trigger] all[j],
                ) by {
                    if j > 0 {
                        assert(all[j] == more[j - 1]);
                    }
                }
            },
            None => {},
        }
    }
}

proof fn lemma_params_follow(s: Seq<u8>, at: int)
    requires
        0 <= at <= s.len(),
    ensures
        spec_params(s, at).0 matches Some(pairs) ==> pairs_follow_grammar(pairs),
{
    if at < s.len() && s[at] == 63 {
        lemma_pair_advances(s, at + 1);
        lemma_pair_follows(s, at + 1);
        match spec_pair(s, at + 1) {
            Some((pair, end)) => {
                lemma_more_pairs_follow(s, end);
                let more = spec_more_pairs(s, end).0;
                let all = seq![pair] + more;
                assert forall|j: int| 0 <= j < all.len() implies pair_follows_grammar(
                    #[trigger] all[j],
                ) by {
                    if j > 0 {
                        assert(all[j] == more[j - 1]);
                    }
                }
                assert(spec_pairs(s, at + 1).0 == all);
            },
            None => {},
        }
    }
}

proof fn lemma_value_follows(s: Seq<u8>, at: int)
    requires
        0 <= at <= s.len(),
    ensures
        value_follows_grammar(spec_value(s, at).0),
{
    lemma_run_end(s, at, ByteClass::Whitespace);
    let from = run_end(s, at, ByteClass::Whitespace);
    lemma_run_end(s, from, ByteClass::HeaderValue);
    lemma_run_is_of_class(s, from, ByteClass::HeaderValue);
    let value = spec_value(s, at).0;
    if value.len() > 0 {
        assert(value[0] == s[from]);
    }
}

proof fn lemma_more_values_follow(s: Seq<u8>, at: int)
    requires
        0 <= at <= s.len(),
    ensures
        values_follow_grammar(spec_more_values(s, at).0),
    decreases s.len() - at,
{
    if at < s.len() && s[at] == 44 {
        lemma_value_advances(s, at + 1);
        lemma_value_follows(s, at + 1);
        let value = spec_value(s, at + 1);
        lemma_more_values_follow(s, value.1);
        let more = spec_more_values(s, value.1).0;
        let all = seq![value.0] + more;
        assert forall|j: int| 0 <= j < all.len() implies value_follows_grammar(
            #[trigger] all[j],
        ) by {
            if j > 0 {
                assert(all[j] == more[j - 1]);
            }
        }
    }
}

proof fn lemma_values_follow(s: Seq<u8>, at: int)
    requires
        0 <= at <= s.len(),
    ensures
        values_follow_grammar(spec_values(s, at).0),
        spec_values(s, at).0.len() >= 1,
{
    lemma_value_advances(s, at);
    lemma_value_follows(s, at);
    let value = spec_value(s, at);
    lemma_more_values_follow(s, value.1);
    let more = spec_more_values(s, value.1).0;
    let all = seq![value.0] + more;
    assert forall|j: int| 0 <= j < all.len() implies value_follows_grammar(#[trigger] all[j]) by {
        if j > 0 {
            assert(all[j] == more[j - 1]);
        }
    }
}

proof fn lemma_header_follows(s: Seq<u8>, at: int)
    requires
        0 <= at <= s.len(),
    ensures
        spec_header(s, at) matches Some((header, _)) ==> header_follows_grammar(header),
{
    lemma_run_end(s, at, ByteClass::Whitespace);
    let from = run_end(s, at, ByteClass::Whitespace);
    lemma_run_end(s, from, ByteClass::HeaderName);
    lemma_run_is_of_class(s, from, ByteClass::HeaderName);
    let to = run_end(s, from, ByteClass::HeaderName);
    if to < s.len() {
        lemma_values_follow(s, to + 1);
    }
}

proof fn lemma_more_headers_follow(s: Seq<u8>, at: int)
    requires
        0 <= at <= s.len(),
    ensures
        headers_follow_grammar(spec_more_headers(s, at).0),
    decreases s.len() - at,
{
    let br = spec_line_break(s, at);
    if br > 0 {
        lemma_header_advances(s, at + br);
        lemma_header_follows(s, at + br);
        match spec_header(s, at + br) {
            Some((header, end)) => {
                lemma_more_headers_follow(s, end);
                let more = spec_more_headers(s, end).0;
                let all = seq![header] + more;
                assert forall|j: int| 0 <= j < all.len() implies header_follows_grammar(
                    #[trigger] all[j],
                ) by {
                    if j > 0 {
                        assert(all[j] == more[j - 1]);
                    }
                }
            },
            None => {},
        }
    }
}

proof fn lemma_headers_follow(s: Seq<u8>, at: int)
    requires
        0 <= at <= s.len(),
    ensures
        spec_headers(s, at) matches Some((headers, _)) ==> headers.len() >= 1
            && headers_follow_grammar(headers),
{
    lemma_header_advances(s, at);
    lemma_header_follows(s, at);
    match spec_header(s, at) {
        Some((header, end)) => {
            lemma_more_headers_follow(s, end);
            let more = spec_more_headers(s, end).0;
            let all = seq![header] + more;
            assert forall|j: int| 0 <= j < all.len() implies header_follows_grammar(
                #[trigger] all[j],
            ) by {
                if j > 0 {
                    assert(all[j] == more[j - 1]);
                }
            }
        },
        None => {},
    }
}

/// The fields of a head that follows the grammar are made of the bytes
/// that the grammar lets them have.
pub proof fn lemma_head_fields(head: Seq<u8>, body: Seq<u8>)
    ensures
        spec_head(head, body) matches Some(request) ==> fields_follow_grammar(request),
{
    match spec_method(head) {
        None => {},
        Some(method) => {
            if spec_head(head, body) is Some {
                let named = method.spec_keyword().len() as int;
                lemma_run_end(head, named, ByteClass::Whitespace);
                let path_from = run_end(head, named, ByteClass::Whitespace);
                lemma_run_end(head, path_from, ByteClass::Path);
                lemma_run_is_of_class(head, path_from, ByteClass::Path);
                let path_to = run_end(head, path_from, ByteClass::Path);
                lemma_params_follow(head, path_to);
                let params = spec_params(head, path_to);
                let protocol_from = run_end(head, params.1, ByteClass::Whitespace);
                let protocol = spec_protocol(head, protocol_from).unwrap();
                let at = protocol_from + protocol.spec_keyword().len();
                lemma_headers_follow(head, at);
            }
        },
    }
}

/// Whenever the bytes read so far are a request, its fields are made of the
/// bytes that the grammar lets them have: see `fields_follow_grammar`. In
/// particular no name of a header holds a `:` or whitespace.
pub proof fn lemma_request_fields(s: Seq<u8>)
    ensures
        spec_parse_request(s) matches Ok(request) ==> fields_follow_grammar(request),
{
    lemma_first_delimiter(s, 0);
    match first_delimiter(s, 0) {
        Some(d) => {
            lemma_head_fields(s.subrange(0, d), s.subrange(d + 4, s.len() as int));
        },
        None => {},
    }
}

} // verus!
