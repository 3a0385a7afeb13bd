//! The request grammar: a function from the bytes read so far to a request
//! that borrows from them, or to the reason why there is none yet.

use crate::byte_class::{lemma_run_end, lowercase, run_end, scan, spec_lowercase, ByteClass};
use crate::request_fields::{fields_follow_grammar, lemma_request_fields};
use vstd::prelude::*;
use vstd::slice::slice_subrange;
use vstd::string::StringSliceAdditionalSpecFns;

verus! {

/// The methods of a request.
#[derive(PartialEq, Eq, Structural, Debug, Clone, Copy)]
pub enum Method {
    Connect,
    Delete,
    Get,
    Head,
    Options,
    Patch,
    Post,
    Put,
    Trace,
}

/// The versions of the protocol.
#[derive(PartialEq, Eq, Structural, Debug, Clone, Copy)]
pub enum Protocol {
    Http10,
    Http11,
}

/// Why the bytes read so far gave no request.
#[derive(PartialEq, Eq, Structural, Debug, Clone, Copy)]
pub enum ParseError {
    /// The blank line that ends the head has not arrived, and the bytes may
    /// still become a request: read on.
    Incomplete,
    /// The bytes break the grammar.
    Malformed,
}

/// A parsed request. Every slice in it borrows from the parsed buffer.
#[derive(PartialEq, Debug)]
pub struct HttpRequest<'a> {
    pub method: Method,
    pub path: &'a [u8],
    pub params: Option<Vec<(&'a [u8], &'a [u8])>>,
    pub protocol: Protocol,
    pub headers: Vec<(&'a [u8], Vec<&'a [u8]>)>,
    pub body: &'a [u8],
}

/// What a request says, apart from where its bytes lie.
pub struct RequestView {
    pub method: Method,
    pub path: Seq<u8>,
    pub params: Option<Seq<(Seq<u8>, Seq<u8>)>>,
    pub protocol: Protocol,
    pub headers: Seq<(Seq<u8>, Seq<Seq<u8>>)>,
    pub body: Seq<u8>,
}

/// The parameters as sequences of bytes.
pub open spec fn pairs_view<'a>(v: Seq<(&'a [u8], &'a [u8])>) -> Seq<(Seq<u8>, Seq<u8>)> {
    Seq::new(v.len(), |i: int| (v[i].0@, v[i].1@))
}

/// The values of a header as sequences of bytes.
pub open spec fn values_view<'a>(v: Seq<&'a [u8]>) -> Seq<Seq<u8>> {
    Seq::new(v.len(), |i: int| v[i]@)
}

/// The headers as sequences of bytes.
pub open spec fn headers_view<'a>(v: Seq<(&'a [u8], Vec<&'a [u8]>)>) -> Seq<(Seq<u8>, Seq<Seq<u8>>)> {
    Seq::new(v.len(), |i: int| (v[i].0@, values_view(v[i].1@)))
}

impl<'a> View for HttpRequest<'a> {
    type V = RequestView;

    /// What the request says.
    open spec fn view(&self) -> RequestView {
        RequestView {
            method: self.method,
            path: self.path@,
            params: match self.params {
                Some(v) => Some(pairs_view(v@)),
                None => None,
            },
            protocol: self.protocol,
            headers: headers_view(self.headers@),
            body: self.body@,
        }
    }
}

// ---------------------------------------------------------------------------
// Keywords
// ---------------------------------------------------------------------------

/// The byte of `s` at `at + k` is the `k`-th byte of `keyword`, but for
/// the case of a letter.
pub open spec fn byte_matches(s: Seq<u8>, at: int, keyword: Seq<u8>, k: int) -> bool {
    spec_lowercase(s[at + k]) == spec_lowercase(keyword[k])
}

/// `keyword` stands in `s` at `at`, letters compared without regard to case.
pub open spec fn matches_no_case(s: Seq<u8>, at: int, keyword: Seq<u8>) -> bool {
    &&& 0 <= at
    &&& at + keyword.len() <= s.len()
    &&& forall|k: int| 0 <= k < keyword.len() ==> #[trigger] byte_matches(s, at, keyword, k)
}

/// Whether `keyword` stands in `input` at `at`, letters compared without
/// regard to case.
fn tag_no_case(input: &[u8], at: usize, keyword: &[u8]) -> (r: bool)
    requires
        at <= input@.len(),
    ensures
        r == matches_no_case(input@, at as int, keyword@),
{
    if keyword.len() > input.len() - at {
        return false;
    }
    let mut k: usize = 0;
    while k < keyword.len()
        invariant
            at + keyword@.len() <= input@.len() <= usize::MAX,
            k <= keyword@.len(),
            forall|j: int| 0 <= j < k ==> #[trigger] byte_matches(input@, at as int, keyword@, j),
        decreases keyword@.len() - k,
    {
        if lowercase(input[at + k]) != lowercase(keyword[k]) {
            assert(!byte_matches(input@, at as int, keyword@, k as int));
            return false;
        }
        k = k + 1;
    }
    true
}

impl Method {
    /// The method's name as the grammar spells it.
    pub open spec fn spec_keyword(self) -> Seq<u8> {
        match self {
            Method::Connect => "connect".spec_bytes(),
            Method::Delete => "delete".spec_bytes(),
            Method::Get => "get".spec_bytes(),
            Method::Head => "head".spec_bytes(),
            Method::Options => "options".spec_bytes(),
            Method::Patch => "patch".spec_bytes(),
            Method::Post => "post".spec_bytes(),
            Method::Put => "put".spec_bytes(),
            Method::Trace => "trace".spec_bytes(),
        }
    }

    /// The method's name as the grammar spells it.
    pub fn keyword(self) -> (r: &'static [u8])
        ensures
            r@ == self.spec_keyword(),
    {
        match self {
            Method::Connect => "connect".as_bytes(),
            Method::Delete => "delete".as_bytes(),
            Method::Get => "get".as_bytes(),
            Method::Head => "head".as_bytes(),
            Method::Options => "options".as_bytes(),
            Method::Patch => "patch".as_bytes(),
            Method::Post => "post".as_bytes(),
            Method::Put => "put".as_bytes(),
            Method::Trace => "trace".as_bytes(),
        }
    }
}

impl Protocol {
    /// The protocol's name as the grammar spells it.
    pub open spec fn spec_keyword(self) -> Seq<u8> {
        match self {
            Protocol::Http10 => "http/1.0".spec_bytes(),
            Protocol::Http11 => "http/1.1".spec_bytes(),
        }
    }

    /// The protocol's name as the grammar spells it.
    pub fn keyword(self) -> (r: &'static [u8])
        ensures
            r@ == self.spec_keyword(),
    {
        match self {
            Protocol::Http10 => "http/1.0".as_bytes(),
            Protocol::Http11 => "http/1.1".as_bytes(),
        }
    }
}

/// The method whose name stands at the start of `s`, if one does.
pub open spec fn spec_method(s: Seq<u8>) -> Option<Method> {
    if matches_no_case(s, 0, Method::Connect.spec_keyword()) {
        Some(Method::Connect)
    } else if matches_no_case(s, 0, Method::Delete.spec_keyword()) {
        Some(Method::Delete)
    } else if matches_no_case(s, 0, Method::Get.spec_keyword()) {
        Some(Method::Get)
    } else if matches_no_case(s, 0, Method::Head.spec_keyword()) {
        Some(Method::Head)
    } else if matches_no_case(s, 0, Method::Options.spec_keyword()) {
        Some(Method::Options)
    } else if matches_no_case(s, 0, Method::Patch.spec_keyword()) {
        Some(Method::Patch)
    } else if matches_no_case(s, 0, Method::Post.spec_keyword()) {
        Some(Method::Post)
    } else if matches_no_case(s, 0, Method::Put.spec_keyword()) {
        Some(Method::Put)
    } else if matches_no_case(s, 0, Method::Trace.spec_keyword()) {
        Some(Method::Trace)
    } else {
        None
    }
}

/// The protocol whose name stands in `s` at `at`, if one does.
pub open spec fn spec_protocol(s: Seq<u8>, at: int) -> Option<Protocol> {
    if matches_no_case(s, at, Protocol::Http10.spec_keyword()) {
        Some(Protocol::Http10)
    } else if matches_no_case(s, at, Protocol::Http11.spec_keyword()) {
        Some(Protocol::Http11)
    } else {
        None
    }
}

fn method_at(input: &[u8]) -> (r: Option<Method>)
    ensures
        r == spec_method(input@),
{
    if tag_no_case(input, 0, Method::Connect.keyword()) {
        Some(Method::Connect)
    } else if tag_no_case(input, 0, Method::Delete.keyword()) {
        Some(Method::Delete)
    } else if tag_no_case(input, 0, Method::Get.keyword()) {
        Some(Method::Get)
    } else if tag_no_case(input, 0, Method::Head.keyword()) {
        Some(Method::Head)
    } else if tag_no_case(input, 0, Method::Options.keyword()) {
        Some(Method::Options)
    } else if tag_no_case(input, 0, Method::Patch.keyword()) {
        Some(Method::Patch)
    } else if tag_no_case(input, 0, Method::Post.keyword()) {
        Some(Method::Post)
    } else if tag_no_case(input, 0, Method::Put.keyword()) {
        Some(Method::Put)
    } else if tag_no_case(input, 0, Method::Trace.keyword()) {
        Some(Method::Trace)
    } else {
        None
    }
}

fn protocol_at(input: &[u8], at: usize) -> (r: Option<Protocol>)
    requires
        at <= input@.len(),
    ensures
        r == spec_protocol(input@, at as int),
{
    if tag_no_case(input, at, Protocol::Http10.keyword()) {
        Some(Protocol::Http10)
    } else if tag_no_case(input, at, Protocol::Http11.keyword()) {
        Some(Protocol::Http11)
    } else {
        None
    }
}

/// A method name, then any whitespace after it.
pub fn parse_method<'a>(input: &'a [u8]) -> (res: Result<(&'a [u8], Method), ParseError>)
    ensures
        match spec_method(input@) {
            Some(m) => res matches Ok((rest, method)) && method == m && rest@ == input@.skip(
                run_end(input@, m.spec_keyword().len() as int, ByteClass::Whitespace),
            ),
            None => res == Err::<(&[u8], Method), ParseError>(ParseError::Malformed),
        },
{
    match method_at(input) {
        Some(m) => {
            let end = scan(input, m.keyword().len(), ByteClass::Whitespace);
            Ok((slice_subrange(input, end, input.len()), m))
        },
        None => Err(ParseError::Malformed),
    }
}

/// A protocol name.
pub fn parse_protocol<'a>(input: &'a [u8]) -> (res: Result<(&'a [u8], Protocol), ParseError>)
    ensures
        match spec_protocol(input@, 0) {
            Some(p) => res matches Ok((rest, protocol)) && protocol == p && rest@ == input@.skip(
                p.spec_keyword().len() as int,
            ),
            None => res == Err::<(&[u8], Protocol), ParseError>(ParseError::Malformed),
        },
{
    match protocol_at(input, 0) {
        Some(p) => Ok((slice_subrange(input, p.keyword().len(), input.len()), p)),
        None => Err(ParseError::Malformed),
    }
}

/// The longest run of bytes that are neither space, tab nor `?`.
pub fn parse_path<'a>(input: &'a [u8]) -> (res: Result<(&'a [u8], &'a [u8]), ParseError>)
    ensures
        res matches Ok((rest, path)) && path@ == input@.take(run_end(input@, 0, ByteClass::Path))
            && rest@ == input@.skip(run_end(input@, 0, ByteClass::Path)),
{
    let end = scan(input, 0, ByteClass::Path);
    Ok((slice_subrange(input, end, input.len()), slice_subrange(input, 0, end)))
}

// ---------------------------------------------------------------------------
// Query parameters
// ---------------------------------------------------------------------------

/// One `key=value` at `at`: a key of one or more letters and digits, `=`, and
/// a value that runs to the next space, tab or `&`. With it, where it ends.
pub open spec fn spec_pair(s: Seq<u8>, at: int) -> Option<((Seq<u8>, Seq<u8>), int)> {
    let k = run_end(s, at, ByteClass::Key);
    if at < k && k < s.len() && s[k] == 61 {
        let v = run_end(s, k + 1, ByteClass::ParamValue);
        Some(((s.subrange(at, k), s.subrange(k + 1, v)), v))
    } else {
        None
    }
}

/// A pair takes up two bytes or more, and ends inside the input.
pub proof fn lemma_pair_advances(s: Seq<u8>, at: int)
    requires
        0 <= at <= s.len(),
    ensures
        spec_pair(s, at) matches Some((_, end)) ==> at + 2 <= end <= s.len(),
{
    lemma_run_end(s, at, ByteClass::Key);
    let k = run_end(s, at, ByteClass::Key);
    if at < k && k < s.len() {
        lemma_run_end(s, k + 1, ByteClass::ParamValue);
    }
}

/// The pairs that follow one that ended at `at`, each after an `&`. With
/// them, where the list ends: before an `&` that no pair follows.
pub open spec fn spec_more_pairs(s: Seq<u8>, at: int) -> (Seq<(Seq<u8>, Seq<u8>)>, int)
    decreases s.len() - at,
{
    if 0 <= at < s.len() && s[at] == 38 {
        match spec_pair(s, at + 1) {
            Some((pair, end)) => {
                proof {
                    lemma_pair_advances(s, at + 1);
                }
                let more = spec_more_pairs(s, end);
                (seq![pair] + more.0, more.1)
            },
            None => (Seq::empty(), at),
        }
    } else {
        (Seq::empty(), at)
    }
}

/// Zero or more pairs separated by `&`, from `at`.
pub open spec fn spec_pairs(s: Seq<u8>, at: int) -> (Seq<(Seq<u8>, Seq<u8>)>, int) {
    match spec_pair(s, at) {
        Some((pair, end)) => {
            let more = spec_more_pairs(s, end);
            (seq![pair] + more.0, more.1)
        },
        None => (Seq::empty(), at),
    }
}

/// The optional block of parameters at `at`: a `?` and its pairs.
pub open spec fn spec_params(s: Seq<u8>, at: int) -> (Option<Seq<(Seq<u8>, Seq<u8>)>>, int) {
    if 0 <= at < s.len() && s[at] == 63 {
        let pairs = spec_pairs(s, at + 1);
        (Some(pairs.0), pairs.1)
    } else {
        (None, at)
    }
}

fn pair_at<'a>(input: &'a [u8], at: usize) -> (r: Option<((&'a [u8], &'a [u8]), usize)>)
    requires
        at <= input@.len(),
    ensures
        match r {
            Some((pair, end)) => spec_pair(input@, at as int) == Some(
                ((pair.0@, pair.1@), end as int),
            ) && at < end <= input@.len(),
            None => spec_pair(input@, at as int) is None,
        },
{
    let k = scan(input, at, ByteClass::Key);
    if at < k && k < input.len() && input[k] == 61 {
        let v = scan(input, k + 1, ByteClass::ParamValue);
        Some(((slice_subrange(input, at, k), slice_subrange(input, k + 1, v)), v))
    } else {
        None
    }
}

fn pairs_at<'a>(input: &'a [u8], at: usize) -> (r: (Vec<(&'a [u8], &'a [u8])>, usize))
    requires
        at <= input@.len(),
    ensures
        pairs_view(r.0@) == spec_pairs(input@, at as int).0,
        r.1 == spec_pairs(input@, at as int).1,
        at <= r.1 <= input@.len(),
{
    let mut out: Vec<(&'a [u8], &'a [u8])> = Vec::new();
    let mut pos: usize = at;
    match pair_at(input, at) {
        None => {
            assert(pairs_view(out@) =~= Seq::empty());
            return (out, at);
        },
        Some((pair, end)) => {
            out.push(pair);
            pos = end;
            assert(pairs_view(out@) =~= seq![(pair.0@, pair.1@)]);
        },
    }
    let mut more: bool = true;
    while more
        invariant
            at <= pos <= input@.len(),
            spec_pairs(input@, at as int).0 == pairs_view(out@) + spec_more_pairs(
                input@,
                pos as int,
            ).0,
            spec_pairs(input@, at as int).1 == spec_more_pairs(input@, pos as int).1,
            !more ==> spec_more_pairs(input@, pos as int) == (
                Seq::<(Seq<u8>, Seq<u8>)>::empty(),
                pos as int,
            ),
        decreases input@.len() - pos, more as int,
    {
        more = false;
        if pos < input.len() && input[pos] == 38 {
            match pair_at(input, pos + 1) {
                Some((pair, end)) => {
                    let ghost before = pairs_view(out@);
                    out.push(pair);
                    proof {
                        let tail = spec_more_pairs(input@, end as int);
                        assert(pairs_view(out@) =~= before.push((pair.0@, pair.1@)));
                        assert(before + (seq![(pair.0@, pair.1@)] + tail.0) =~= pairs_view(out@)
                            + tail.0);
                    }
                    pos = end;
                    more = true;
                },
                None => {},
            }
        }
    }
    proof {
        assert(pairs_view(out@) + Seq::<(Seq<u8>, Seq<u8>)>::empty() =~= pairs_view(out@));
    }
    (out, pos)
}

fn params_at<'a>(input: &'a [u8], at: usize) -> (r: (Option<Vec<(&'a [u8], &'a [u8])>>, usize))
    requires
        at <= input@.len(),
    ensures
        match r.0 {
            Some(v) => spec_params(input@, at as int).0 == Some(pairs_view(v@)),
            None => spec_params(input@, at as int).0 is None,
        },
        r.1 == spec_params(input@, at as int).1,
        at <= r.1 <= input@.len(),
{
    if at < input.len() && input[at] == 63 {
        let (pairs, end) = pairs_at(input, at + 1);
        (Some(pairs), end)
    } else {
        (None, at)
    }
}

/// The optional `?` and the `key=value` pairs after it, separated by `&`.
pub fn parse_params<'a>(input: &'a [u8]) -> (res: Result<
    (&'a [u8], Option<Vec<(&'a [u8], &'a [u8])>>),
    ParseError,
>)
    ensures
        res matches Ok((rest, params)) && rest@ == input@.skip(spec_params(input@, 0).1) && (
        match params {
            Some(v) => spec_params(input@, 0).0 == Some(pairs_view(v@)),
            None => spec_params(input@, 0).0 is None,
        }),
{
    let (params, end) = params_at(input, 0);
    Ok((slice_subrange(input, end, input.len()), params))
}

// ---------------------------------------------------------------------------
// Headers
// ---------------------------------------------------------------------------

/// One header value at `at`: leading whitespace is dropped, and the value
/// runs to the next `,`, carriage return or line feed.
pub open spec fn spec_value(s: Seq<u8>, at: int) -> (Seq<u8>, int) {
    let from = run_end(s, at, ByteClass::Whitespace);
    let to = run_end(s, from, ByteClass::HeaderValue);
    (s.subrange(from, to), to)
}

/// A value ends at or after the place where it begins, inside the input.
pub proof fn lemma_value_advances(s: Seq<u8>, at: int)
    requires
        0 <= at <= s.len(),
    ensures
        at <= spec_value(s, at).1 <= s.len(),
{
    lemma_run_end(s, at, ByteClass::Whitespace);
    lemma_run_end(s, run_end(s, at, ByteClass::Whitespace), ByteClass::HeaderValue);
}

/// The values that follow one that ended at `at`, each after a `,`.
pub open spec fn spec_more_values(s: Seq<u8>, at: int) -> (Seq<Seq<u8>>, int)
    decreases s.len() - at,
{
    if 0 <= at < s.len() && s[at] == 44 {
        proof {
            lemma_value_advances(s, at + 1);
        }
        let value = spec_value(s, at + 1);
        let more = spec_more_values(s, value.1);
        (seq![value.0] + more.0, more.1)
    } else {
        (Seq::empty(), at)
    }
}

/// One or more values separated by `,`, from `at`.
pub open spec fn spec_values(s: Seq<u8>, at: int) -> (Seq<Seq<u8>>, int) {
    let value = spec_value(s, at);
    let more = spec_more_values(s, value.1);
    (seq![value.0] + more.0, more.1)
}

/// A list of values ends at or after the place where it begins, inside the
/// input.
pub proof fn lemma_values_advance(s: Seq<u8>, at: int)
    requires
        0 <= at <= s.len(),
    ensures
        at <= spec_values(s, at).1 <= s.len(),
{
    lemma_value_advances(s, at);
    lemma_more_values_advance(s, spec_value(s, at).1);
}

/// The rest of a list of values ends at or after the place where it begins,
/// inside the input.
pub proof fn lemma_more_values_advance(s: Seq<u8>, at: int)
    requires
        0 <= at <= s.len(),
    ensures
        at <= spec_more_values(s, at).1 <= s.len(),
    decreases s.len() - at,
{
    if at < s.len() && s[at] == 44 {
        lemma_value_advances(s, at + 1);
        lemma_more_values_advance(s, spec_value(s, at + 1).1);
    }
}

/// One header at `at`: leading whitespace is dropped, the name runs to the
/// next whitespace or `:`, a `:` follows, and then the values. A name holds
/// no space, tab, carriage return or line feed: a line without a `:` is no
/// header.
pub open spec fn spec_header(s: Seq<u8>, at: int) -> Option<((Seq<u8>, Seq<Seq<u8>>), int)> {
    let from = run_end(s, at, ByteClass::Whitespace);
    let to = run_end(s, from, ByteClass::HeaderName);
    if to < s.len() && s[to] == 58 {
        let values = spec_values(s, to + 1);
        Some(((s.subrange(from, to), values.0), values.1))
    } else {
        None
    }
}

/// A header takes up a byte or more, and ends inside the input.
pub proof fn lemma_header_advances(s: Seq<u8>, at: int)
    requires
        0 <= at <= s.len(),
    ensures
        spec_header(s, at) matches Some((_, end)) ==> at < end <= s.len(),
{
    lemma_run_end(s, at, ByteClass::Whitespace);
    let from = run_end(s, at, ByteClass::Whitespace);
    lemma_run_end(s, from, ByteClass::HeaderName);
    let to = run_end(s, from, ByteClass::HeaderName);
    if to < s.len() {
        lemma_values_advance(s, to + 1);
    }
}

/// The length of the line break at `at`: 2 for a carriage return and a line
/// feed, 1 for a line feed, 0 where there is neither.
pub open spec fn spec_line_break(s: Seq<u8>, at: int) -> int {
    if 0 <= at && at + 1 < s.len() && s[at] == 13 && s[at + 1] == 10 {
        2
    } else if 0 <= at < s.len() && s[at] == 10 {
        1
    } else {
        0
    }
}

/// The headers that follow one that ended at `at`, each after a line break.
/// With them, where the list ends: before a line break that no header follows.
pub open spec fn spec_more_headers(s: Seq<u8>, at: int) -> (Seq<(Seq<u8>, Seq<Seq<u8>>)>, int)
    decreases s.len() - at,
{
    let br = spec_line_break(s, at);
    if br > 0 {
        match spec_header(s, at + br) {
            Some((header, end)) => {
                proof {
                    lemma_header_advances(s, at + br);
                }
                let more = spec_more_headers(s, end);
                (seq![header] + more.0, more.1)
            },
            None => (Seq::empty(), at),
        }
    } else {
        (Seq::empty(), at)
    }
}

/// One or more headers separated by line breaks, from `at`.
pub open spec fn spec_headers(s: Seq<u8>, at: int) -> Option<(Seq<(Seq<u8>, Seq<Seq<u8>>)>, int)> {
    match spec_header(s, at) {
        Some((header, end)) => {
            let more = spec_more_headers(s, end);
            Some((seq![header] + more.0, more.1))
        },
        None => None,
    }
}

fn value_at<'a>(input: &'a [u8], at: usize) -> (r: (&'a [u8], usize))
    requires
        at <= input@.len(),
    ensures
        (r.0@, r.1 as int) == spec_value(input@, at as int),
        at <= r.1 <= input@.len(),
{
    let from = scan(input, at, ByteClass::Whitespace);
    let to = scan(input, from, ByteClass::HeaderValue);
    (slice_subrange(input, from, to), to)
}

fn values_at<'a>(input: &'a [u8], at: usize) -> (r: (Vec<&'a [u8]>, usize))
    requires
        at <= input@.len(),
    ensures
        values_view(r.0@) == spec_values(input@, at as int).0,
        r.1 == spec_values(input@, at as int).1,
        at <= r.1 <= input@.len(),
{
    let mut out: Vec<&'a [u8]> = Vec::new();
    let (first, end) = value_at(input, at);
    out.push(first);
    assert(values_view(out@) =~= seq![first@]);
    let mut pos: usize = end;
    while pos < input.len() && input[pos] == 44
        invariant
            at <= pos <= input@.len(),
            spec_values(input@, at as int).0 == values_view(out@) + spec_more_values(
                input@,
                pos as int,
            ).0,
            spec_values(input@, at as int).1 == spec_more_values(input@, pos as int).1,
        decreases input@.len() - pos,
    {
        let (value, end) = value_at(input, pos + 1);
        let ghost before = values_view(out@);
        out.push(value);
        proof {
            let tail = spec_more_values(input@, end as int);
            assert(values_view(out@) =~= before.push(value@));
            assert(before + (seq![value@] + tail.0) =~= values_view(out@) + tail.0);
        }
        pos = end;
    }
    proof {
        assert(values_view(out@) + Seq::<Seq<u8>>::empty() =~= values_view(out@));
    }
    (out, pos)
}

fn header_at<'a>(input: &'a [u8], at: usize) -> (r: Option<((&'a [u8], Vec<&'a [u8]>), usize)>)
    requires
        at <= input@.len(),
    ensures
        match r {
            Some((header, end)) => spec_header(input@, at as int) == Some(
                ((header.0@, values_view(header.1@)), end as int),
            ) && at < end <= input@.len(),
            None => spec_header(input@, at as int) is None,
        },
{
    let from = scan(input, at, ByteClass::Whitespace);
    let to = scan(input, from, ByteClass::HeaderName);
    if to < input.len() && input[to] == 58 {
        let (values, end) = values_at(input, to + 1);
        Some(((slice_subrange(input, from, to), values), end))
    } else {
        None
    }
}

fn line_break_at(input: &[u8], at: usize) -> (r: usize)
    requires
        at <= input@.len(),
    ensures
        r == spec_line_break(input@, at as int),
        at + r <= input@.len(),
{
    if at < input.len() && input[at] == 13 {
        if input.len() - at >= 2 && input[at + 1] == 10 {
            2
        } else {
            0
        }
    } else if at < input.len() && input[at] == 10 {
        1
    } else {
        0
    }
}

fn headers_at<'a>(input: &'a [u8], at: usize) -> (r: Option<
    (Vec<(&'a [u8], Vec<&'a [u8]>)>, usize),
>)
    requires
        at <= input@.len(),
    ensures
        match r {
            Some((headers, end)) => spec_headers(input@, at as int) == Some(
                (headers_view(headers@), end as int),
            ) && at < end <= input@.len(),
            None => spec_headers(input@, at as int) is None,
        },
{
    let mut out: Vec<(&'a [u8], Vec<&'a [u8]>)> = Vec::new();
    let mut pos: usize = at;
    let len: usize = input.len();
    match header_at(input, at) {
        None => {
            return None;
        },
        Some((header, end)) => {
            let ghost name = header.0@;
            let ghost values = values_view(header.1@);
            out.push(header);
            pos = end;
            assert(headers_view(out@) =~= seq![(name, values)]);
        },
    }
    let mut more: bool = true;
    while more
        invariant
            at < pos <= input@.len() == len,
            spec_headers(input@, at as int) is Some,
            spec_headers(input@, at as int).unwrap().0 == headers_view(out@) + spec_more_headers(
                input@,
                pos as int,
            ).0,
            spec_headers(input@, at as int).unwrap().1 == spec_more_headers(input@, pos as int).1,
            !more ==> spec_more_headers(input@, pos as int) == (
                Seq::<(Seq<u8>, Seq<Seq<u8>>)>::empty(),
                pos as int,
            ),
        decreases input@.len() - pos, more as int,
    {
        more = false;
        let br = line_break_at(input, pos);
        if br > 0 {
            match header_at(input, pos + br) {
                Some((header, end)) => {
                    let ghost before = headers_view(out@);
                    let ghost name = header.0@;
                    let ghost values = values_view(header.1@);
                    out.push(header);
                    proof {
                        let tail = spec_more_headers(input@, end as int);
                        assert(headers_view(out@) =~= before.push((name, values)));
                        assert(before + (seq![(name, values)] + tail.0) =~= headers_view(out@)
                            + tail.0);
                    }
                    pos = end;
                    more = true;
                },
                None => {},
            }
        }
    }
    proof {
        assert(headers_view(out@) + Seq::<(Seq<u8>, Seq<Seq<u8>>)>::empty() =~= headers_view(
            out@,
        ));
    }
    Some((out, pos))
}

/// One or more values separated by `,`, each without its leading whitespace.
pub fn parse_header_value<'a>(input: &'a [u8]) -> (res: Result<
    (&'a [u8], Vec<&'a [u8]>),
    ParseError,
>)
    ensures
        res matches Ok((rest, values)) && rest@ == input@.skip(spec_values(input@, 0).1)
            && values_view(values@) == spec_values(input@, 0).0,
{
    let (values, end) = values_at(input, 0);
    Ok((slice_subrange(input, end, input.len()), values))
}

/// One or more `name: values` lines separated by line breaks.
pub fn parse_headers<'a>(input: &'a [u8]) -> (res: Result<
    (&'a [u8], Vec<(&'a [u8], Vec<&'a [u8]>)>),
    ParseError,
>)
    ensures
        match spec_headers(input@, 0) {
            Some((headers, end)) => res matches Ok((rest, found)) && rest@ == input@.skip(end)
                && headers_view(found@) == headers,
            None => res == Err::<(&[u8], Vec<(&[u8], Vec<&[u8]>)>), ParseError>(
                ParseError::Malformed,
            ),
        },
{
    match headers_at(input, 0) {
        Some((headers, end)) => Ok((slice_subrange(input, end, input.len()), headers)),
        None => Err(ParseError::Malformed),
    }
}

// ---------------------------------------------------------------------------
// The whole request
// ---------------------------------------------------------------------------

/// The blank line that ends the head stands at `at`: carriage return, line
/// feed, carriage return, line feed.
pub open spec fn delimiter_at(s: Seq<u8>, at: int) -> bool {
    &&& 0 <= at
    &&& at + 4 <= s.len()
    &&& s[at] == 13
    &&& s[at + 1] == 10
    &&& s[at + 2] == 13
    &&& s[at + 3] == 10
}

/// Where the first blank line at or after `from` stands.
pub open spec fn first_delimiter(s: Seq<u8>, from: int) -> Option<int>
    decreases s.len() - from,
{
    if from < 0 || from + 4 > s.len() {
        None
    } else if delimiter_at(s, from) {
        Some(from)
    } else {
        first_delimiter(s, from + 1)
    }
}

/// What `first_delimiter` finds is the first blank line, and it finds one
/// wherever there is one.
pub proof fn lemma_first_delimiter(s: Seq<u8>, from: int)
    requires
        0 <= from,
    ensures
        match first_delimiter(s, from) {
            Some(d) => from <= d && delimiter_at(s, d) && forall|j: int|
                from <= j < d ==> !delimiter_at(s, j),
            None => forall|j: int| from <= j ==> !delimiter_at(s, j),
        },
    decreases s.len() - from,
{
    if from + 4 <= s.len() && !delimiter_at(s, from) {
        lemma_first_delimiter(s, from + 1);
    }
}

/// The head of a request: everything before the blank line. A method name,
/// whitespace, the path, the optional parameters, whitespace, a protocol
/// name, and one or more headers that reach the end of the head.
pub open spec fn spec_head(head: Seq<u8>, body: Seq<u8>) -> Option<RequestView> {
    match spec_method(head) {
        None => None,
        Some(method) => {
            let named = method.spec_keyword().len() as int;
            let path_from = run_end(head, named, ByteClass::Whitespace);
            let path_to = run_end(head, path_from, ByteClass::Path);
            let params = spec_params(head, path_to);
            let protocol_from = run_end(head, params.1, ByteClass::Whitespace);
            match spec_protocol(head, protocol_from) {
                None => None,
                Some(protocol) => {
                    match spec_headers(head, protocol_from + protocol.spec_keyword().len()) {
                        None => None,
                        Some((headers, end)) => {
                            if named < path_from && params.1 < protocol_from && end == head.len() {
                                Some(
                                    RequestView {
                                        method,
                                        path: head.subrange(path_from, path_to),
                                        params: params.0,
                                        protocol,
                                        headers,
                                        body,
                                    },
                                )
                            } else {
                                None
                            }
                        },
                    }
                },
            }
        },
    }
}

/// `s` ends at `at` or inside `keyword`, as far as it goes: more bytes can
/// still spell the keyword out.
pub open spec fn begins_no_case(s: Seq<u8>, at: int, keyword: Seq<u8>) -> bool {
    &&& 0 <= at <= s.len()
    &&& s.len() - at < keyword.len()
    &&& forall|k: int| 0 <= k < s.len() - at ==> #[trigger] byte_matches(s, at, keyword, k)
}

/// `s` is the beginning of a method name, and not yet all of it.
pub open spec fn begins_method(s: Seq<u8>) -> bool {
    ||| begins_no_case(s, 0, Method::Connect.spec_keyword())
    ||| begins_no_case(s, 0, Method::Delete.spec_keyword())
    ||| begins_no_case(s, 0, Method::Get.spec_keyword())
    ||| begins_no_case(s, 0, Method::Head.spec_keyword())
    ||| begins_no_case(s, 0, Method::Options.spec_keyword())
    ||| begins_no_case(s, 0, Method::Patch.spec_keyword())
    ||| begins_no_case(s, 0, Method::Post.spec_keyword())
    ||| begins_no_case(s, 0, Method::Put.spec_keyword())
    ||| begins_no_case(s, 0, Method::Trace.spec_keyword())
}

/// What stands in `s` from `at` is the beginning of a protocol name, and not
/// yet all of it.
pub open spec fn begins_protocol(s: Seq<u8>, at: int) -> bool {
    ||| begins_no_case(s, at, Protocol::Http10.spec_keyword())
    ||| begins_no_case(s, at, Protocol::Http11.spec_keyword())
}

/// The parameters at `at` are cut short by the end of the input: the last
/// value runs up to it, or the key of one more pair does.
pub open spec fn params_open(s: Seq<u8>, at: int) -> bool {
    if 0 <= at < s.len() && s[at] == 63 {
        let pairs = spec_pairs(s, at + 1);
        let key_from = if pairs.0.len() == 0 {
            pairs.1
        } else {
            pairs.1 + 1
        };
        pairs.1 == s.len() || ((pairs.0.len() == 0 || s[pairs.1] == 38) && run_end(
            s,
            key_from,
            ByteClass::Key,
        ) == s.len())
    } else {
        false
    }
}

/// A header at `at` is cut short by the end of the input: its name, or the
/// whitespace before it, runs up to it.
pub open spec fn header_open(s: Seq<u8>, at: int) -> bool {
    run_end(s, run_end(s, at, ByteClass::Whitespace), ByteClass::HeaderName) == s.len()
}

/// A list of headers that ends at `end` ends there because the input does:
/// the last value runs up to the end of the input, or a line break does, or
/// one more header after a line break.
pub open spec fn header_list_open(s: Seq<u8>, end: int) -> bool {
    ||| end == s.len()
    ||| (s[end] == 13 && end + 1 == s.len())
    ||| (spec_line_break(s, end) > 0 && header_open(s, end + spec_line_break(s, end)))
}

/// The headers at `at` are cut short by the end of the input.
pub open spec fn headers_open(s: Seq<u8>, at: int) -> bool {
    match spec_headers(s, at) {
        None => header_open(s, at),
        Some((_, end)) => header_list_open(s, end),
    }
}

/// Whether bytes without a blank line may still become a request: nothing
/// in them breaks the grammar, and they end where the grammar goes on. The
/// bytes are read as a head is, and every part of the grammar that is found
/// wanting is wanting only because the bytes end.
pub open spec fn spec_prefix(s: Seq<u8>) -> bool {
    match spec_method(s) {
        None => begins_method(s),
        Some(method) => {
            let named = method.spec_keyword().len() as int;
            let path_from = run_end(s, named, ByteClass::Whitespace);
            let path_to = run_end(s, path_from, ByteClass::Path);
            let params = spec_params(s, path_to);
            let protocol_from = run_end(s, params.1, ByteClass::Whitespace);
            if path_from == s.len() {
                true
            } else if path_from == named {
                false
            } else if path_to == s.len() || params_open(s, path_to) {
                true
            } else if protocol_from == s.len() {
                true
            } else if protocol_from == params.1 {
                false
            } else {
                match spec_protocol(s, protocol_from) {
                    None => begins_protocol(s, protocol_from),
                    Some(protocol) => headers_open(
                        s,
                        protocol_from + protocol.spec_keyword().len(),
                    ),
                }
            }
        },
    }
}

/// What the bytes read so far amount to. With a blank line among them, the
/// bytes before the first are the head and the bytes after it the body: the
/// request is there if the head follows the grammar, and malformed if it
/// does not. Without a blank line the head is not over: more bytes are
/// needed if those read may still become a request, and they are malformed
/// if they break the grammar already.
pub open spec fn spec_parse_request(s: Seq<u8>) -> Result<RequestView, ParseError> {
    match first_delimiter(s, 0) {
        None => if spec_prefix(s) {
            Err(ParseError::Incomplete)
        } else {
            Err(ParseError::Malformed)
        },
        Some(d) => match spec_head(s.subrange(0, d), s.subrange(d + 4, s.len() as int)) {
            Some(request) => Ok(request),
            None => Err(ParseError::Malformed),
        },
    }
}

fn find_delimiter(input: &[u8]) -> (r: Option<usize>)
    ensures
        match r {
            Some(d) => first_delimiter(input@, 0) == Some(d as int) && d + 4 <= input@.len(),
            None => first_delimiter(input@, 0) is None,
        },
{
    let len: usize = input.len();
    if len < 4 {
        return None;
    }
    let mut i: usize = 0;
    while i <= len - 4
        invariant
            4 <= len == input@.len(),
            i <= len - 3,
            first_delimiter(input@, 0) == first_delimiter(input@, i as int),
        decreases len - i,
    {
        if input[i] == 13 && input[i + 1] == 10 && input[i + 2] == 13 && input[i + 3] == 10 {
            return Some(i);
        }
        i = i + 1;
    }
    None
}

fn head_at<'a>(head: &'a [u8], body: &'a [u8]) -> (r: Option<HttpRequest<'a>>)
    ensures
        match r {
            Some(request) => spec_head(head@, body@) == Some(request@),
            None => spec_head(head@, body@) is None,
        },
{
    let method = match method_at(head) {
        Some(m) => m,
        None => {
            return None;
        },
    };
    let len: usize = head.len();
    let named: usize = method.keyword().len();
    let path_from = scan(head, named, ByteClass::Whitespace);
    let path_to = scan(head, path_from, ByteClass::Path);
    let (params, params_to) = params_at(head, path_to);
    let protocol_from = scan(head, params_to, ByteClass::Whitespace);
    let protocol = match protocol_at(head, protocol_from) {
        Some(p) => p,
        None => {
            return None;
        },
    };
    let (headers, end) = match headers_at(head, protocol_from + protocol.keyword().len()) {
        Some(found) => found,
        None => {
            return None;
        },
    };
    if named < path_from && params_to < protocol_from && end == len {
        Some(
            HttpRequest {
                method,
                path: slice_subrange(head, path_from, path_to),
                params,
                protocol,
                headers,
                body,
            },
        )
    } else {
        None
    }
}

fn begins_tag_no_case(input: &[u8], at: usize, keyword: &[u8]) -> (r: bool)
    requires
        at <= input@.len(),
    ensures
        r == begins_no_case(input@, at as int, keyword@),
{
    let rest: usize = input.len() - at;
    if rest >= keyword.len() {
        return false;
    }
    let mut k: usize = 0;
    while k < rest
        invariant
            at + rest == input@.len() <= usize::MAX,
            rest < keyword@.len(),
            k <= rest,
            forall|j: int| 0 <= j < k ==> #[trigger] byte_matches(input@, at as int, keyword@, j),
        decreases rest - k,
    {
        if lowercase(input[at + k]) != lowercase(keyword[k]) {
            assert(!byte_matches(input@, at as int, keyword@, k as int));
            return false;
        }
        k = k + 1;
    }
    true
}

fn begins_method_at(input: &[u8]) -> (r: bool)
    ensures
        r == begins_method(input@),
{
    begins_tag_no_case(input, 0, Method::Connect.keyword()) || begins_tag_no_case(
        input,
        0,
        Method::Delete.keyword(),
    ) || begins_tag_no_case(input, 0, Method::Get.keyword()) || begins_tag_no_case(
        input,
        0,
        Method::Head.keyword(),
    ) || begins_tag_no_case(input, 0, Method::Options.keyword()) || begins_tag_no_case(
        input,
        0,
        Method::Patch.keyword(),
    ) || begins_tag_no_case(input, 0, Method::Post.keyword()) || begins_tag_no_case(
        input,
        0,
        Method::Put.keyword(),
    ) || begins_tag_no_case(input, 0, Method::Trace.keyword())
}

fn begins_protocol_at(input: &[u8], at: usize) -> (r: bool)
    requires
        at <= input@.len(),
    ensures
        r == begins_protocol(input@, at as int),
{
    begins_tag_no_case(input, at, Protocol::Http10.keyword()) || begins_tag_no_case(
        input,
        at,
        Protocol::Http11.keyword(),
    )
}

fn header_open_at(input: &[u8], at: usize) -> (r: bool)
    requires
        at <= input@.len(),
    ensures
        r == header_open(input@, at as int),
{
    let from = scan(input, at, ByteClass::Whitespace);
    scan(input, from, ByteClass::HeaderName) == input.len()
}

fn headers_open_at(input: &[u8], at: usize) -> (r: bool)
    requires
        at <= input@.len(),
    ensures
        r == headers_open(input@, at as int),
{
    let len: usize = input.len();
    match headers_at(input, at) {
        None => header_open_at(input, at),
        Some((_, end)) => {
            if end == len {
                true
            } else if input[end] == 13 && end + 1 == len {
                true
            } else {
                let br = line_break_at(input, end);
                br > 0 && header_open_at(input, end + br)
            }
        },
    }
}

fn params_open_at(input: &[u8], at: usize) -> (r: bool)
    requires
        at <= input@.len(),
    ensures
        r == params_open(input@, at as int),
{
    let len: usize = input.len();
    if at < len && input[at] == 63 {
        let (pairs, end) = pairs_at(input, at + 1);
        if end == len {
            true
        } else if pairs.len() == 0 {
            scan(input, end, ByteClass::Key) == len
        } else if input[end] == 38 {
            scan(input, end + 1, ByteClass::Key) == len
        } else {
            false
        }
    } else {
        false
    }
}

fn prefix_at(input: &[u8]) -> (r: bool)
    ensures
        r == spec_prefix(input@),
{
    let len: usize = input.len();
    let method = match method_at(input) {
        Some(m) => m,
        None => {
            return begins_method_at(input);
        },
    };
    let named: usize = method.keyword().len();
    let path_from = scan(input, named, ByteClass::Whitespace);
    if path_from == len {
        return true;
    }
    if path_from == named {
        return false;
    }
    let path_to = scan(input, path_from, ByteClass::Path);
    if path_to == len || params_open_at(input, path_to) {
        return true;
    }
    let (_, params_to) = params_at(input, path_to);
    let protocol_from = scan(input, params_to, ByteClass::Whitespace);
    if protocol_from == len {
        return true;
    }
    if protocol_from == params_to {
        return false;
    }
    match protocol_at(input, protocol_from) {
        None => begins_protocol_at(input, protocol_from),
        Some(protocol) => headers_open_at(input, protocol_from + protocol.keyword().len()),
    }
}

/// Parses the bytes read so far. Nothing is copied: the request borrows
/// its path, parameters, headers and body from `req`.
pub fn parse_request<'a>(req: &'a [u8]) -> (res: Result<HttpRequest<'a>, ParseError>)
    ensures
        match res {
            Ok(request) => spec_parse_request(req@) == Ok::<RequestView, ParseError>(request@),
            Err(e) => spec_parse_request(req@) == Err::<RequestView, ParseError>(e),
        },
        res matches Ok(request) ==> fields_follow_grammar(request@),
{
    proof {
        lemma_request_fields(req@);
    }
    match find_delimiter(req) {
        None => {
            if prefix_at(req) {
                Err(ParseError::Incomplete)
            } else {
                Err(ParseError::Malformed)
            }
        },
        Some(d) => {
            let len: usize = req.len();
            let head = slice_subrange(req, 0, d);
            let body = slice_subrange(req, d + 4, len);
            match head_at(head, body) {
                Some(request) => Ok(request),
                None => Err(ParseError::Malformed),
            }
        },
    }
}

// ---------------------------------------------------------------------------
// Looking a parameter up
// ---------------------------------------------------------------------------

/// The value of the first pair at or after `from` whose key is `key`.
pub open spec fn spec_lookup(pairs: Seq<(Seq<u8>, Seq<u8>)>, key: Seq<u8>, from: int) -> Option<
    Seq<u8>,
>
    decreases pairs.len() - from,
{
    if from < 0 || from >= pairs.len() {
        None
    } else if pairs[from].0 == key {
        Some(pairs[from].1)
    } else {
        spec_lookup(pairs, key, from + 1)
    }
}

impl RequestView {
    /// The value of the first parameter named `key`.
    pub open spec fn parameter(self, key: Seq<u8>) -> Option<Seq<u8>> {
        match self.params {
            Some(pairs) => spec_lookup(pairs, key, 0),
            None => None,
        }
    }
}

/// Whether two slices hold the same bytes.
pub fn bytes_eq(a: &[u8], b: &[u8]) -> (r: bool)
    ensures
        r == (a@ == b@),
{
    if a.len() != b.len() {
        return false;
    }
    let mut i: usize = 0;
    while i < a.len()
        invariant
            a@.len() == b@.len(),
            i <= a@.len(),
            forall|j: int| 0 <= j < i ==> a@[j] == b@[j],
        decreases a@.len() - i,
    {
        if a[i] != b[i] {
            return false;
        }
        i = i + 1;
    }
    assert(a@ =~= b@);
    true
}

impl<'a> HttpRequest<'a> {
    /// Parses the bytes read so far: see `spec_parse_request`.
    pub fn parse_request(req: &'a [u8]) -> (res: Result<HttpRequest<'a>, ParseError>)
        ensures
            match res {
                Ok(request) => spec_parse_request(req@) == Ok::<RequestView, ParseError>(request@),
                Err(e) => spec_parse_request(req@) == Err::<RequestView, ParseError>(e),
            },
            res matches Ok(request) ==> fields_follow_grammar(request@),
    {
        parse_request(req)
    }

    /// The value of the first parameter named `key`, if the request has one.
    pub fn get_parameter(&self, key: &str) -> (r: Option<&'a [u8]>)
        ensures
            match r {
                Some(value) => self@.parameter(key.spec_bytes()) == Some(value@),
                None => self@.parameter(key.spec_bytes()) is None,
            },
    {
        match &self.params {
            Some(params) => {
                let wanted = key.as_bytes();
                let mut i: usize = 0;
                while i < params.len()
                    invariant
                        i <= params@.len(),
                        wanted@ == key.spec_bytes(),
                        self@.params == Some(pairs_view(params@)),
                        spec_lookup(pairs_view(params@), wanted@, 0) == spec_lookup(
                            pairs_view(params@),
                            wanted@,
                            i as int,
                        ),
                    decreases params@.len() - i,
                {
                    let pair = &params[i];
                    assert(pairs_view(params@)[i as int] == (pair.0@, pair.1@));
                    if bytes_eq(pair.0, wanted) {
                        return Some(pair.1);
                    }
                    i = i + 1;
                }
                None
            },
            None => None,
        }
    }
}

// ---------------------------------------------------------------------------
// Letter case
// ---------------------------------------------------------------------------

/// Two inputs that differ only in the case of their letters hold the same
/// keywords at the same places.
pub proof fn lemma_keyword_ignores_case(a: Seq<u8>, b: Seq<u8>, at: int, keyword: Seq<u8>)
    requires
        a.len() == b.len(),
        forall|k: int| 0 <= k < a.len() ==> spec_lowercase(a[k]) == spec_lowercase(b[k]),
    ensures
        matches_no_case(a, at, keyword) == matches_no_case(b, at, keyword),
{
    if 0 <= at && at + keyword.len() <= a.len() {
        assert forall|k: int| 0 <= k < keyword.len() implies byte_matches(a, at, keyword, k)
            == byte_matches(b, at, keyword, k) by {
            assert(spec_lowercase(a[at + k]) == spec_lowercase(b[at + k]));
        }
    }
}

/// The method that an input names does not depend on the case of its
/// letters: `put`, `PUT` and `Put` name the same method.
pub proof fn lemma_method_ignores_case(a: Seq<u8>, b: Seq<u8>)
    requires
        a.len() == b.len(),
        forall|k: int| 0 <= k < a.len() ==> spec_lowercase(a[k]) == spec_lowercase(b[k]),
    ensures
        spec_method(a) == spec_method(b),
{
    lemma_keyword_ignores_case(a, b, 0, Method::Connect.spec_keyword());
    lemma_keyword_ignores_case(a, b, 0, Method::Delete.spec_keyword());
    lemma_keyword_ignores_case(a, b, 0, Method::Get.spec_keyword());
    lemma_keyword_ignores_case(a, b, 0, Method::Head.spec_keyword());
    lemma_keyword_ignores_case(a, b, 0, Method::Options.spec_keyword());
    lemma_keyword_ignores_case(a, b, 0, Method::Patch.spec_keyword());
    lemma_keyword_ignores_case(a, b, 0, Method::Post.spec_keyword());
    lemma_keyword_ignores_case(a, b, 0, Method::Put.spec_keyword());
    lemma_keyword_ignores_case(a, b, 0, Method::Trace.spec_keyword());
}

/// The protocol that an input names at `at` does not depend on the case of
/// its letters: `http/1.1` and `HTTP/1.1` name the same protocol.
pub proof fn lemma_protocol_ignores_case(a: Seq<u8>, b: Seq<u8>, at: int)
    requires
        a.len() == b.len(),
        forall|k: int| 0 <= k < a.len() ==> spec_lowercase(a[k]) == spec_lowercase(b[k]),
    ensures
        spec_protocol(a, at) == spec_protocol(b, at),
{
    lemma_keyword_ignores_case(a, b, at, Protocol::Http10.spec_keyword());
    lemma_keyword_ignores_case(a, b, at, Protocol::Http11.spec_keyword());
}

} // verus!
