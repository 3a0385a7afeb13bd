use finne::request_parser::{
    parse_header_value, parse_headers, parse_method, parse_params, parse_path, parse_protocol,
    parse_request, HttpRequest, Method, ParseError, Protocol,
};

fn join(parts: &[&[u8]]) -> Vec<u8> {
    let mut out = Vec::new();
    for part in parts {
        out.extend_from_slice(part);
    }
    out
}

#[test]
fn test_parse_method() {
    let expected: Result<(&[u8], Method), ParseError> = Ok((b"", Method::Put));
    assert_eq!(parse_method(b"PUT"), expected);
}

#[test]
fn test_parse_protocol() {
    let expected: Result<(&[u8], Protocol), ParseError> = Ok((b"", Protocol::Http11));
    assert!(parse_protocol(b"HTTP/1.1") == expected);
}

#[test]
fn test_parse_path() {
    let res = parse_path(b"/test/ext?one=1&two=2");
    let expected: Result<(&[u8], &[u8]), ParseError> = Ok((b"?one=1&two=2", b"/test/ext"));
    assert_eq!(res, expected);
}

#[test]
fn test_parse_params() {
    let res = parse_params(b"?one=1&two=2");
    let expected: Result<(&[u8], Option<Vec<(&[u8], &[u8])>>), ParseError> =
        Ok((b"", Some(vec![(b"one", b"1"), (b"two", b"2")])));
    assert_eq!(res, expected);
}

#[test]
fn test_parse_headers() {
    let input = b"Content-Length: length\r\nAccept-Language: en-us, en-gb";
    let expected: Result<(&[u8], Vec<(&[u8], Vec<&[u8]>)>), ParseError> = Ok((
        b"",
        vec![
            (b"Content-Length", vec![b"length"]),
            (b"Accept-Language", vec![b"en-us", b"en-gb"]),
        ],
    ));
    assert_eq!(parse_headers(input), expected);
}

#[test]
fn test_parse_header_value() {
    let input = b" en-us, en-gb";
    let expected: Result<(&[u8], Vec<&[u8]>), ParseError> = Ok((b"", vec![b"en-us", b"en-gb"]));
    assert_eq!(parse_header_value(input), expected)
}

#[test]
fn test_parse_request() {
    let test_arr = join(&[
        b"POST /cgi-bin/process.cgi?test=1&two=2 HTTP/1.1\r\n",
        b"User-Agent: Mozilla/4.0 (compatible; MSIE5.01; Windows NT)\r\n",
        b"Host: www.tutorialspoint.com\r\n",
        b"Content-Type: application/x-www-form-urlencoded\r\n",
        b"Content-Length: length\r\n",
        b"Accept-Language: en-us\r\n",
        b"Accept-Encoding: gzip, deflate\r\n",
        b"Connection: Keep-Alive",
        b"\r\n\r\n",
        b"licenseID=string&content=string&/paramsXML=string",
    ]);
    let res = parse_request(&test_arr);
    let expected_params: Option<Vec<(&[u8], &[u8])>> = Some(vec![(b"test", b"1"), (b"two", b"2")]);
    assert_eq!(
        res,
        Ok(HttpRequest {
            method: Method::Post,
            path: b"/cgi-bin/process.cgi",
            params: expected_params,
            protocol: Protocol::Http11,
            headers: vec![
                (
                    b"User-Agent",
                    vec![b"Mozilla/4.0 (compatible; MSIE5.01; Windows NT)"]
                ),
                (b"Host", vec![b"www.tutorialspoint.com"]),
                (b"Content-Type", vec![b"application/x-www-form-urlencoded"]),
                (b"Content-Length", vec![b"length"]),
                (b"Accept-Language", vec![b"en-us"]),
                (b"Accept-Encoding", vec![b"gzip", b"deflate"]),
                (b"Connection", vec![b"Keep-Alive"]),
            ],
            body: b"licenseID=string&content=string&/paramsXML=string",
        })
    );
}

#[test]
fn test_parse_firefox_request() {
    let test_arr = join(&[
        b"GET /s?q=su:dog HTTP/1.1\r\n",
        b"Host: localhost:3000\r\n",
        b"User-Agent: Mozilla/5.0 (Windows NT 10.0; Win64; x64; rv:109.0) Gecko/20100101 Firefox/114.0\r\n",
        b"Accept: text/html,application/xhtml+xml,application/xml;q=0.9,image/avif,image/webp,*/*;q=0.8\r\n",
        b"Accept-Language: en-US,en;q=0.5\r\n",
        b"Accept-Encoding: gzip, deflate, br\r\n",
        b"Connection: keep-alive\r\n",
        b"Cookie: Clion-bcf0c5d2=c123866b-c839-4af5-bd38-5fa78bcfea64\r\n",
        b"Upgrade-Insecure-Requests: 1\r\n",
        b"Sec-Fetch-Dest: document\r\n",
        b"Sec-Fetch-Mode: navigate\r\n",
        b"Sec-Fetch-Site: none\r\n",
        b"Sec-Fetch-User: ?1\r\n\r\n",
    ]);
    let res = parse_request(&test_arr);
    let params: Option<Vec<(&[u8], &[u8])>> = Some(vec![(b"q", b"su:dog")]);
    assert_eq!(
        res,
        Ok(HttpRequest {
            method: Method::Get,
            path: b"/s",
            params,
            protocol: Protocol::Http11,
            headers: vec![
                (b"Host", vec![b"localhost:3000"]),
                (
                    b"User-Agent",
                    vec![b"Mozilla/5.0 (Windows NT 10.0; Win64; x64; rv:109.0) Gecko/20100101 Firefox/114.0"]
                ),
                (
                    b"Accept",
                    vec![b"text/html", b"application/xhtml+xml", b"application/xml;q=0.9", b"image/avif", b"image/webp", b"*/*;q=0.8"]
                ),
                (b"Accept-Language", vec![b"en-US", b"en;q=0.5"]),
                (b"Accept-Encoding", vec![b"gzip", b"deflate", b"br"]),
                (b"Connection", vec![b"keep-alive"]),
                (b"Cookie", vec![b"Clion-bcf0c5d2=c123866b-c839-4af5-bd38-5fa78bcfea64"]),
                (b"Upgrade-Insecure-Requests", vec![b"1"]),
                (b"Sec-Fetch-Dest", vec![b"document"]),
                (b"Sec-Fetch-Mode", vec![b"navigate"]),
                (b"Sec-Fetch-Site", vec![b"none"]),
                (b"Sec-Fetch-User", vec![b"?1"]),
            ],
            body: b"",
        })
    );
}

#[test]
fn round_trip_of_a_search_request() {
    let input = b"GET /s?q=su:dog HTTP/1.1\r\nHost: localhost:3000\r\n\r\n";
    let request = parse_request(input).unwrap();
    assert_eq!(request.method, Method::Get);
    assert_eq!(request.path, b"/s");
    assert_eq!(request.get_parameter("q"), Some(&b"su:dog"[..]));
    assert_eq!(request.protocol, Protocol::Http11);
    let host: (&[u8], Vec<&[u8]>) = (b"Host", vec![b"localhost:3000"]);
    assert_eq!(request.headers, vec![host]);
    assert_eq!(request.body, b"");
}

#[test]
fn associated_function_parses_like_the_free_one() {
    let input = b"GET /s?q=su:dog HTTP/1.1\r\nHost: localhost:3000\r\n\r\n";
    assert_eq!(HttpRequest::parse_request(input), parse_request(input));
    assert_eq!(HttpRequest::parse_request(b"GET"), Err(ParseError::Incomplete));
}

#[test]
fn multi_value_header_is_split_and_trimmed() {
    let expected: Result<(&[u8], Vec<(&[u8], Vec<&[u8]>)>), ParseError> = Ok((
        b"\r\n\r\n",
        vec![(b"Accept-Encoding", vec![b"gzip", b"deflate", b"br"])],
    ));
    assert_eq!(parse_headers(b"Accept-Encoding: gzip, deflate, br\r\n\r\n"), expected);
}

#[test]
fn split_read_is_incomplete_then_complete() {
    let first: &[u8] = b"GET / HTTP/1.1\r\n";
    let second: &[u8] = b"Host: x\r\n\r\n";
    assert_eq!(parse_request(first), Err(ParseError::Incomplete));
    let both = join(&[first, second]);
    let whole = b"GET / HTTP/1.1\r\nHost: x\r\n\r\n";
    assert_eq!(parse_request(&both), parse_request(whole));
    let request = parse_request(&both).unwrap();
    assert_eq!(request.method, Method::Get);
    assert_eq!(request.path, b"/");
    assert_eq!(request.params, None);
    let host: (&[u8], Vec<&[u8]>) = (b"Host", vec![b"x"]);
    assert_eq!(request.headers, vec![host]);
}

#[test]
fn method_names_ignore_case() {
    let expected: Result<(&[u8], Method), ParseError> = Ok((b"", Method::Put));
    assert_eq!(parse_method(b"put"), expected);
    assert_eq!(parse_method(b"PUT"), expected);
    assert_eq!(parse_method(b"Put"), expected);
}

#[test]
fn protocol_names_ignore_case() {
    let expected: Result<(&[u8], Protocol), ParseError> = Ok((b"", Protocol::Http11));
    assert_eq!(parse_protocol(b"http/1.1"), expected);
    assert_eq!(parse_protocol(b"HTTP/1.1"), expected);
    let old: Result<(&[u8], Protocol), ParseError> = Ok((b"\r\n", Protocol::Http10));
    assert_eq!(parse_protocol(b"hTTp/1.0\r\n"), old);
}

#[test]
fn every_method_is_known() {
    let cases: Vec<(&[u8], Method)> = vec![
        (b"CONNECT x", Method::Connect),
        (b"DELETE x", Method::Delete),
        (b"GET x", Method::Get),
        (b"HEAD x", Method::Head),
        (b"OPTIONS x", Method::Options),
        (b"PATCH x", Method::Patch),
        (b"POST x", Method::Post),
        (b"PUT x", Method::Put),
        (b"TRACE x", Method::Trace),
    ];
    for (input, method) in cases {
        let expected: Result<(&[u8], Method), ParseError> = Ok((b"x", method));
        assert_eq!(parse_method(input), expected);
    }
}

#[test]
fn method_consumes_all_whitespace_after_it() {
    let expected: Result<(&[u8], Method), ParseError> = Ok((b"/", Method::Get));
    assert_eq!(parse_method(b"GET \t\r\n /"), expected);
}

#[test]
fn unknown_method_is_malformed() {
    assert_eq!(parse_method(b"FETCH /"), Err(ParseError::Malformed));
    assert_eq!(parse_method(b"PU"), Err(ParseError::Malformed));
    assert_eq!(parse_method(b""), Err(ParseError::Malformed));
}

#[test]
fn unknown_protocol_is_malformed() {
    assert_eq!(parse_protocol(b"HTTP/2.0"), Err(ParseError::Malformed));
    assert_eq!(parse_protocol(b"HTTP/1."), Err(ParseError::Malformed));
}

#[test]
fn path_stops_at_space_tab_and_question_mark() {
    let at_space: Result<(&[u8], &[u8]), ParseError> = Ok((b" rest", b"/a/b"));
    assert_eq!(parse_path(b"/a/b rest"), at_space);
    let at_tab: Result<(&[u8], &[u8]), ParseError> = Ok((b"\trest", b"/a/b"));
    assert_eq!(parse_path(b"/a/b\trest"), at_tab);
    let whole: Result<(&[u8], &[u8]), ParseError> = Ok((b"", b"/a/b\r\n"));
    assert_eq!(parse_path(b"/a/b\r\n"), whole);
    let empty: Result<(&[u8], &[u8]), ParseError> = Ok((b"?x=1", b""));
    assert_eq!(parse_path(b"?x=1"), empty);
}

#[test]
fn params_are_optional() {
    let none: Result<(&[u8], Option<Vec<(&[u8], &[u8])>>), ParseError> = Ok((b" HTTP/1.1", None));
    assert_eq!(parse_params(b" HTTP/1.1"), none);
    let empty: Result<(&[u8], Option<Vec<(&[u8], &[u8])>>), ParseError> =
        Ok((b" HTTP/1.1", Some(vec![])));
    assert_eq!(parse_params(b"? HTTP/1.1"), empty);
}

#[test]
fn params_stop_before_an_ampersand_that_no_pair_follows() {
    let res: Result<(&[u8], Option<Vec<(&[u8], &[u8])>>), ParseError> =
        Ok((b"&&b=2", Some(vec![(b"a", b"1")])));
    assert_eq!(parse_params(b"?a=1&&b=2"), res);
    let key_needs_letters: Result<(&[u8], Option<Vec<(&[u8], &[u8])>>), ParseError> =
        Ok((b"a-b=1", Some(vec![])));
    assert_eq!(parse_params(b"?a-b=1"), key_needs_letters);
    let empty_value: Result<(&[u8], Option<Vec<(&[u8], &[u8])>>), ParseError> =
        Ok((b" x", Some(vec![(b"a", b""), (b"b", b"2")])));
    assert_eq!(parse_params(b"?a=&b=2 x"), empty_value);
}

#[test]
fn get_parameter_returns_the_first_match() {
    let input = b"GET /s?q=one&r=two&q=three HTTP/1.1\r\nHost: x\r\n\r\n";
    let request = parse_request(input).unwrap();
    assert_eq!(request.get_parameter("q"), Some(&b"one"[..]));
    assert_eq!(request.get_parameter("r"), Some(&b"two"[..]));
    assert_eq!(request.get_parameter("s"), None);
    let plain = parse_request(b"GET /s HTTP/1.1\r\nHost: x\r\n\r\n").unwrap();
    assert_eq!(plain.get_parameter("q"), None);
}

#[test]
fn header_names_keep_their_case_and_their_order() {
    let input = b"GET / HTTP/1.1\r\nx-a: 1\r\nX-A: 2\nx-a: 3\r\n\r\n";
    let request = parse_request(input).unwrap();
    let expected: Vec<(&[u8], Vec<&[u8]>)> =
        vec![(b"x-a", vec![b"1"]), (b"X-A", vec![b"2"]), (b"x-a", vec![b"3"])];
    assert_eq!(request.headers, expected);
}

#[test]
fn headers_without_a_colon_are_malformed() {
    assert_eq!(parse_headers(b"no colon here"), Err(ParseError::Malformed));
    assert_eq!(parse_headers(b""), Err(ParseError::Malformed));
}

#[test]
fn header_list_stops_before_a_line_that_is_no_header() {
    let expected: Result<(&[u8], Vec<(&[u8], Vec<&[u8]>)>), ParseError> =
        Ok((b"\r\nnot a header", vec![(b"A", vec![b"b"])]));
    assert_eq!(parse_headers(b"A: b\r\nnot a header"), expected);
}

#[test]
fn body_is_everything_after_the_blank_line() {
    let input = b"POST /create HTTP/1.1\r\nHost: x\r\n\r\n{\"name\":\"docs\",\"indexes\":{}}";
    let request = parse_request(input).unwrap();
    assert_eq!(request.method, Method::Post);
    assert_eq!(request.path, b"/create");
    assert_eq!(request.body, b"{\"name\":\"docs\",\"indexes\":{}}");
    let spaced = parse_request(b"GET / HTTP/1.1\r\nHost: x\r\n\r\n  body").unwrap();
    assert_eq!(spaced.body, b"  body");
    let second_blank_line = parse_request(b"GET / HTTP/1.1\r\nHost: x\r\n\r\na\r\n\r\nb").unwrap();
    assert_eq!(second_blank_line.body, b"a\r\n\r\nb");
}

#[test]
fn request_without_a_blank_line_is_incomplete() {
    assert_eq!(parse_request(b""), Err(ParseError::Incomplete));
    assert_eq!(parse_request(b"GET"), Err(ParseError::Incomplete));
    assert_eq!(parse_request(b"GET / HTTP/1.1\r\nHost: x\r\n"), Err(ParseError::Incomplete));
    assert_eq!(parse_request(b"GET / HTTP/1.1\r\nHost: x\r\n\r"), Err(ParseError::Incomplete));
    assert_eq!(parse_request(b"GET / HTTP/1.1\nHost: x\n\n"), Err(ParseError::Incomplete));
}

#[test]
fn head_that_breaks_the_grammar_is_malformed() {
    assert_eq!(parse_request(b"FETCH / HTTP/1.1\r\nHost: x\r\n\r\n"), Err(ParseError::Malformed));
    assert_eq!(parse_request(b"GET / HTTP/3.0\r\nHost: x\r\n\r\n"), Err(ParseError::Malformed));
    assert_eq!(parse_request(b"GET / HTTP/1.1\r\n\r\n"), Err(ParseError::Malformed));
    assert_eq!(parse_request(b"GET / HTTP/1.1\r\nHost x\r\n\r\n"), Err(ParseError::Malformed));
    assert_eq!(parse_request(b"\r\n\r\n"), Err(ParseError::Malformed));
    assert_eq!(
        parse_request(b"GET /?a=1&& HTTP/1.1\r\nHost: x\r\n\r\n"),
        Err(ParseError::Malformed)
    );
    assert_eq!(
        parse_request(b"GET / HTTP/1.1\r\nHost: x\r\nbroken\r\n\r\n"),
        Err(ParseError::Malformed)
    );
}

#[test]
fn whitespace_is_required_around_the_path() {
    assert_eq!(parse_request(b"GET/ HTTP/1.1\r\nHost: x\r\n\r\n"), Err(ParseError::Malformed));
    assert_eq!(parse_request(b"GET /?HTTP/1.1\r\nHost: x\r\n\r\n"), Err(ParseError::Malformed));
    let tabbed = parse_request(b"GET\t/\tHTTP/1.1\r\nHost: x\r\n\r\n").unwrap();
    assert_eq!(tabbed.path, b"/");
}

#[test]
fn slices_of_a_request_lie_in_the_parsed_buffer() {
    let input = b"GET /s?q=dog HTTP/1.1\r\nHost: here\r\n\r\nbody".to_vec();
    let range = input.as_ptr_range();
    let request = parse_request(&input).unwrap();
    let inside = |s: &[u8]| range.start <= s.as_ptr() && s.as_ptr_range().end <= range.end;
    assert!(inside(request.path));
    assert!(inside(request.body));
    assert!(inside(request.get_parameter("q").unwrap()));
    assert!(inside(request.headers[0].0));
    assert!(inside(request.headers[0].1[0]));
}

#[test]
fn bytes_that_cannot_become_a_request_are_malformed_at_once() {
    let cases: Vec<&[u8]> = vec![
        b"GEX",
        b"FETCH ",
        b"GET/",
        b"GETS /",
        b"GET /?a=1&& HTTP",
        b"GET /?a=1&b HTTP",
        b"GET /?-=1 HTTP",
        b"GET / HTTX",
        b"GET / HTTP/1.2",
        b"GET / HTTP/1.1\r\nHost x",
        b"GET / HTTP/1.1\r\nHost: x\rY",
        b"GET / HTTP/1.1\r\nHost: x\r\nbroken line",
        b"\r\n",
        b" GET",
    ];
    for input in cases {
        assert_eq!(parse_request(input), Err(ParseError::Malformed));
    }
}

#[test]
fn beginnings_that_end_where_the_grammar_goes_on_are_incomplete() {
    let cases: Vec<&[u8]> = vec![
        b"",
        b"g",
        b"OPTION",
        b"GET",
        b"GET \r\n\r",
        b"GET /",
        b"GET /?",
        b"GET /?a",
        b"GET /?a=",
        b"GET /?a=1",
        b"GET /?a=1&",
        b"GET /?a=1&b",
        b"GET /?a=1 ",
        b"GET / h",
        b"GET / HTTP/1.",
        b"GET / HTTP/1.1",
        b"GET / HTTP/1.1\r",
        b"GET / HTTP/1.1\r\n",
        b"GET / HTTP/1.1\r\nHost",
        b"GET / HTTP/1.1\r\nHost:",
        b"GET / HTTP/1.1\r\nHost: x",
        b"GET / HTTP/1.1\r\nHost: x,",
        b"GET / HTTP/1.1\r\nHost: x\r",
        b"GET / HTTP/1.1\r\nHost: x\n",
        b"GET / HTTP/1.1\r\nHost: x\r\n",
        b"GET / HTTP/1.1\r\nHost: x\r\n\r",
        b"GET / HTTP/1.1\r\nHost: x\r\nNext",
    ];
    for input in cases {
        assert_eq!(parse_request(input), Err(ParseError::Incomplete));
    }
}

#[test]
fn every_beginning_of_a_request_is_incomplete() {
    let requests: Vec<&[u8]> = vec![
        b"POST /cgi-bin/process.cgi?test=1&two=2 HTTP/1.1\r\nUser-Agent: Mozilla/4.0 (compatible; MSIE5.01; Windows NT)\r\nHost: www.tutorialspoint.com\r\nAccept-Encoding: gzip, deflate\r\nConnection: Keep-Alive\r\n\r\n",
        b"GET /s?q=su:dog HTTP/1.1\r\nHost: localhost:3000\r\nAccept: text/html,application/xhtml+xml,*/*;q=0.8\r\nSec-Fetch-User: ?1\r\n\r\n",
        b"delete\t/d \t http/1.0\nA:b\nC:\td , e\r\n\r\n",
        b"PUT ?a= HTTP/1.1 :\r\n\r\n",
    ];
    for whole in requests {
        assert!(parse_request(whole).is_ok());
        for n in 0..whole.len() {
            assert_eq!(parse_request(&whole[..n]), Err(ParseError::Incomplete));
        }
    }
}

fn is_whitespace(b: &u8) -> bool {
    matches!(*b, b' ' | b'\t' | b'\r' | b'\n')
}

fn fields_are_as_the_grammar_has_them(request: &HttpRequest) {
    assert!(!request.path.iter().any(|b| matches!(*b, b' ' | b'\t' | b'?')));
    if let Some(params) = &request.params {
        for (key, value) in params {
            assert!(!key.is_empty() && key.iter().all(|b| b.is_ascii_alphanumeric()));
            assert!(!value.iter().any(|b| matches!(*b, b' ' | b'\t' | b'&')));
        }
    }
    assert!(!request.headers.is_empty());
    for (name, values) in &request.headers {
        assert!(!name.iter().any(|b| *b == b':' || is_whitespace(b)));
        assert!(!values.is_empty());
        for value in values {
            assert!(!value.iter().any(|b| matches!(*b, b',' | b'\r' | b'\n')));
            assert!(!value.first().is_some_and(is_whitespace));
        }
    }
}

fn verdicts_hold_as_bytes_arrive(whole: &[u8]) {
    let mut malformed = false;
    let mut complete = false;
    for n in 0..=whole.len() {
        let result = parse_request(&whole[..n]);
        if malformed {
            assert_eq!(result, Err(ParseError::Malformed));
        }
        if complete {
            assert!(result.is_ok());
        }
        match result {
            Ok(request) => {
                fields_are_as_the_grammar_has_them(&request);
                complete = true;
            }
            Err(ParseError::Malformed) => malformed = true,
            Err(ParseError::Incomplete) => {}
        }
    }
}

#[test]
fn malformed_stays_malformed_and_complete_stays_complete() {
    let seeds: Vec<&[u8]> = vec![
        b"POST /c?test=1&two=2 HTTP/1.1\r\nUser-Agent: a (b; c)\r\nHost: w\r\nAccept: x, y\r\n\r\nbody",
        b"GET /s?q=su:dog HTTP/1.1\r\nHost: localhost:3000\r\n\r\n",
        b"delete\t/d \t http/1.0\nA:b\nC:\td , e\r\n\r\n",
    ];
    let alphabet: &[u8] = b"GET /?=&:,\r\n\tHP1.ax-";
    let mut state: u64 = 0x2545_f491_4f6c_dd1d;
    let mut next = |bound: usize| {
        state = state.wrapping_mul(6364136223846793005).wrapping_add(1442695040888963407);
        ((state >> 33) as usize) % bound
    };
    for seed in seeds {
        verdicts_hold_as_bytes_arrive(seed);
        for _ in 0..1500 {
            let mut bytes = seed.to_vec();
            for _ in 0..1 + next(3) {
                let at = next(bytes.len());
                match next(3) {
                    0 => bytes[at] = alphabet[next(alphabet.len())],
                    1 => bytes.insert(at, alphabet[next(alphabet.len())]),
                    _ => {
                        bytes.remove(at);
                    }
                }
            }
            verdicts_hold_as_bytes_arrive(&bytes);
        }
    }
}

#[test]
fn header_line_without_a_colon_is_malformed() {
    assert_eq!(
        parse_request(b"GET / HTTP/1.1\r\nX\nY: v\r\n\r\n"),
        Err(ParseError::Malformed)
    );
    assert_eq!(
        parse_request(b"GET / HTTP/1.1\r\nX\r\nY: v\r\n\r\n"),
        Err(ParseError::Malformed)
    );
    assert_eq!(
        parse_request(b"GET / HTTP/1.1\r\nA: b\r\nX\nY: v\r\n\r\n"),
        Err(ParseError::Malformed)
    );
    assert_eq!(parse_request(b"GET / HTTP/1.1\r\nX\n"), Err(ParseError::Malformed));
    assert_eq!(parse_request(b"GET / HTTP/1.1\r\nX\r"), Err(ParseError::Malformed));
    assert_eq!(parse_request(b"GET / HTTP/1.1\r\nA: b\r\nX\r"), Err(ParseError::Malformed));
    assert_eq!(parse_request(b"GET / HTTP/1.1\r\nX"), Err(ParseError::Incomplete));
    assert_eq!(parse_headers(b"X\nY: v"), Err(ParseError::Malformed));
    assert_eq!(parse_headers(b"X\r\nY: v"), Err(ParseError::Malformed));
}

#[test]
fn header_names_hold_no_whitespace() {
    let stops: Result<(&[u8], Vec<(&[u8], Vec<&[u8]>)>), ParseError> =
        Ok((b"\r\nC\r: d", vec![(b"A", vec![b"b"])]));
    assert_eq!(parse_headers(b"A: b\r\nC\r: d"), stops);
    let request = parse_request(b"GET / HTTP/1.1\r\n \tX-Y:v\nZ:w\r\n\r\n").unwrap();
    let expected: Vec<(&[u8], Vec<&[u8]>)> = vec![(b"X-Y", vec![b"v"]), (b"Z", vec![b"w"])];
    assert_eq!(request.headers, expected);
    fields_are_as_the_grammar_has_them(&request);
}
