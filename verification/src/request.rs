//! The request parser: turns the raw text read from a connection into a
//! structured request, together with path-parameter helpers.
use crate::method::{is_method, spec_is_method};
use crate::numbers::parse_int_val;
use crate::text::{
    contains_pat, contains_str, find_first, find_str, join_with, lemma_find_from_some,
    lemma_join_char_structure, lemma_split_join, occurs_at, split_pat, split_str, substr_copy,
    trim_leading, trim_leading_str, trim_trailing, trim_trailing_str,
};
use vstd::prelude::*;

verus! {

/// Errors surfaced while reading and interpreting one request.
#[derive(Debug, PartialEq, Eq, Structural, Clone, Copy)]
pub enum RequestError {
    /// The transport read itself failed; no payload was obtained.
    ReadStream,
    /// A path segment did not hold the number it was expected to hold.
    InvalidId,
    /// A path segment was asked for beyond the end of the path.
    IndexOutOfRange,
    /// The payload was read but its request line is not well formed.
    MalformRequest,
}

impl RequestError {
    /// A short description of the error, for logging and responses.
    pub fn message(&self) -> (r: String)
        ensures
            r@ == match self {
                RequestError::ReadStream => "error reading stream"@,
                RequestError::InvalidId => "invalid id"@,
                RequestError::IndexOutOfRange => "index out of range"@,
                RequestError::MalformRequest => "invalid request"@,
            },
            r@.len() > 0,
    {
        let m = match self {
            RequestError::ReadStream => String::from_str("error reading stream"),
            RequestError::InvalidId => String::from_str("invalid id"),
            RequestError::IndexOutOfRange => String::from_str("index out of range"),
            RequestError::MalformRequest => String::from_str("invalid request"),
        };
        proof {
            reveal_strlit("error reading stream");
            reveal_strlit("invalid id");
            reveal_strlit("index out of range");
            reveal_strlit("invalid request");
        }
        m
    }
}

/// The header mapping described by a sequence of header lines:
/// later entries overwrite earlier ones of the same name.
pub open spec fn headers_map(hs: Seq<(Seq<char>, Seq<char>)>) -> Map<Seq<char>, Seq<char>>
    decreases hs.len(),
{
    if hs.len() == 0 {
        Map::empty()
    } else {
        headers_map(hs.drop_last()).insert(hs.last().0, hs.last().1)
    }
}

/// Mathematical content of a parsed request.
pub struct ReqView {
    pub method: Seq<char>,
    pub uri: Seq<char>,
    pub protocol: Seq<char>,
    pub headers: Map<Seq<char>, Seq<char>>,
    pub body: Seq<char>,
}

/// A parsed HTTP request: the request-line tokens, the header mapping
/// and the body text.
#[derive(Debug)]
pub struct Request {
    method: String,
    uri: String,
    protocol: String,
    headers: Vec<(String, String)>,
    body: String,
}

impl View for Request {
    type V = ReqView;

    closed spec fn view(&self) -> ReqView {
        ReqView {
            method: self.method@,
            uri: self.uri@,
            protocol: self.protocol@,
            headers: headers_map(self.headers.deep_view()),
            body: self.body@,
        }
    }
}

/// Parser state while walking the head lines: the request-line tokens
/// seen so far, whether a request line was found, the headers collected,
/// and the body text.
pub struct ParseState {
    pub method: Seq<char>,
    pub uri: Seq<char>,
    pub protocol: Seq<char>,
    pub found: bool,
    pub headers: Map<Seq<char>, Seq<char>>,
    pub body: Seq<char>,
}

/// Effect of one head line on the parser state. A request-line candidate
/// must split into exactly three tokens, none of them empty; a line free
/// of braces is a header line, split at the first `": "`; a line with
/// braces is taken as body content.
pub open spec fn step_line(st: ParseState, line: Seq<char>) -> Option<ParseState> {
    if spec_is_method(line) {
        let toks = split_pat(line, " "@);
        if toks.len() != 3 || toks[1].len() == 0 || toks[2].len() == 0 {
            None
        } else {
            Some(
                ParseState {
                    method: toks[0],
                    uri: toks[1],
                    protocol: toks[2],
                    found: true,
                    ..st
                },
            )
        }
    } else if !contains_pat(line, "{"@) && !contains_pat(line, "}"@) {
        match find_first(line, ": "@) {
            None => Some(ParseState { headers: st.headers.insert(line, line), ..st }),
            Some(i) => Some(
                ParseState {
                    headers: st.headers.insert(
                        line.subrange(0, i),
                        line.subrange(i + 2, line.len() as int),
                    ),
                    ..st
                },
            ),
        }
    } else {
        Some(ParseState { body: trim_leading(line, '\u{0}'), ..st })
    }
}

/// The parser state after walking all of `lines` from state `st`.
pub open spec fn run_lines(lines: Seq<Seq<char>>, st: ParseState) -> Option<ParseState>
    decreases lines.len(),
{
    if lines.len() == 0 {
        Some(st)
    } else {
        match step_line(st, lines[0]) {
            None => None,
            Some(st2) => run_lines(lines.drop_first(), st2),
        }
    }
}

/// Initial parser state: no request line yet, no headers, and the body
/// taken from the section after the blank-line boundary.
pub open spec fn initial_state(body: Seq<char>) -> ParseState {
    ParseState {
        method: Seq::empty(),
        uri: Seq::empty(),
        protocol: Seq::empty(),
        found: false,
        headers: Map::empty(),
        body: body,
    }
}

/// The head section: everything before the first blank-line boundary;
/// the whole text when there is no boundary.
pub open spec fn head_of(s: Seq<char>) -> Seq<char> {
    match find_first(s, "\r\n\r\n"@) {
        None => s,
        Some(i) => s.subrange(0, i),
    }
}

/// The raw body section: everything after the first blank-line
/// boundary; the whole text when there is no boundary.
pub open spec fn raw_body_of(s: Seq<char>) -> Seq<char> {
    match find_first(s, "\r\n\r\n"@) {
        None => s,
        Some(i) => s.subrange(i + 4, s.len() as int),
    }
}

/// What parsing the raw request text yields: `None` when the text is
/// malformed (a request-line candidate that does not split into three
/// tokens, or no request line at all), otherwise the parsed request.
pub open spec fn spec_parse(raw: Seq<char>) -> Option<ReqView> {
    let t = trim_trailing(raw, '\u{0}');
    match run_lines(split_pat(head_of(t), "\r\n"@), initial_state(raw_body_of(t))) {
        None => None,
        Some(st) => if st.found {
            Some(
                ReqView {
                    method: st.method,
                    uri: st.uri,
                    protocol: st.protocol,
                    headers: st.headers,
                    body: st.body,
                },
            )
        } else {
            None
        },
    }
}

/// Split raw request text at the blank-line boundary, returning the head
/// section and the body section.
pub fn parse_body(raw_body: String) -> (r: (String, String))
    ensures
        r.0@ == head_of(raw_body@),
        r.1@ == raw_body_of(raw_body@),
{
    proof {
        reveal_strlit("\r\n\r\n");
    }
    let len = raw_body.as_str().unicode_len();
    match find_str(raw_body.as_str(), "\r\n\r\n") {
        None => {
            proof {
                assert(raw_body@.subrange(0, raw_body@.len() as int) =~= raw_body@);
            }
            let head = substr_copy(raw_body.as_str(), 0, len);
            (head, raw_body)
        },
        Some(i) => {
            proof {
                lemma_find_from_some(raw_body@, "\r\n\r\n"@, 0, i as int);
            }
            let head = substr_copy(raw_body.as_str(), 0, i);
            let body = substr_copy(raw_body.as_str(), i + 4, len);
            (head, body)
        },
    }
}

impl Request {
    /// Pack the given parts into a request.
    pub fn new(
        method: String,
        uri: String,
        protocol: String,
        headers: Vec<(String, String)>,
        body: String,
    ) -> (r: Request)
        ensures
            r@.method == method@,
            r@.uri == uri@,
            r@.protocol == protocol@,
            r@.headers == headers_map(headers.deep_view()),
            r@.body == body@,
    {
        Request { method, uri, protocol, headers, body }
    }

    /// The request method token.
    pub fn method(&self) -> (r: &str)
        ensures
            r@ == self@.method,
    {
        self.method.as_str()
    }

    /// The request path.
    pub fn uri(&self) -> (r: &str)
        ensures
            r@ == self@.uri,
    {
        self.uri.as_str()
    }

    /// The protocol token of the request line.
    pub fn protocol(&self) -> (r: &str)
        ensures
            r@ == self@.protocol,
    {
        self.protocol.as_str()
    }

    /// The header lines, in the order they were seen; the mapping they
    /// describe is the request's header view.
    pub fn headers(&self) -> (r: &Vec<(String, String)>)
        ensures
            headers_map(r.deep_view()) == self@.headers,
    {
        &self.headers
    }

    /// The body text.
    pub fn body(&self) -> (r: &str)
        ensures
            r@ == self@.body,
    {
        self.body.as_str()
    }

    /// Parse raw request text: trim the trailing padding left by a
    /// fixed-size read buffer, split off the body at the blank-line
    /// boundary, and walk the head lines. Yields `MalformRequest` when a
    /// request-line candidate does not split into exactly three tokens,
    /// or when no request line is present at all.
    #[verifier::loop_isolation(false)]
    pub fn parse(raw: &str) -> (r: Result<Request, RequestError>)
        ensures
            match r {
                Ok(req) => spec_parse(raw@) == Some(req@),
                Err(e) => spec_parse(raw@) is None && e == RequestError::MalformRequest,
            },
            r matches Ok(req) ==> req@.method.len() > 0 && req@.uri.len() > 0
                && req@.protocol.len() > 0,
    {
        proof {
            reveal_strlit("\r\n");
            reveal_strlit(" ");
            reveal_strlit("{");
            reveal_strlit("}");
            reveal_strlit(": ");
        }
        let trimmed = trim_trailing_str(raw, '\u{0}');
        let (head, body0) = parse_body(trimmed);
        let lines = split_str(head.as_str(), "\r\n");
        let ghost lines_v = lines.deep_view();
        let ghost st0 = initial_state(body0@);

        let mut method = String::new();
        let mut uri = String::new();
        let mut protocol = String::new();
        let mut found = false;
        let mut headers: Vec<(String, String)> = Vec::new();
        let mut body = body0;

        proof {
            assert(lines_v.skip(0) =~= lines_v);
        }
        let mut i: usize = 0;
        while i < lines.len()
            invariant
                0 <= i <= lines.len(),
                lines_v == lines.deep_view(),
                run_lines(lines_v, st0) == run_lines(
                    lines_v.skip(i as int),
                    ParseState {
                        method: method@,
                        uri: uri@,
                        protocol: protocol@,
                        found: found,
                        headers: headers_map(headers.deep_view()),
                        body: body@,
                    },
                ),
            decreases lines.len() - i,
        {
            let ghost st_in = ParseState {
                method: method@,
                uri: uri@,
                protocol: protocol@,
                found: found,
                headers: headers_map(headers.deep_view()),
                body: body@,
            };
            proof {
                assert(lines_v.skip(i as int)[0] == lines_v[i as int]);
                assert(lines_v.skip(i as int).drop_first() =~= lines_v.skip(i + 1));
            }
            let line = &lines[i];
            if is_method(line.clone()) {
                let toks = split_str(line.as_str(), " ");
                if toks.len() != 3 || toks[1].as_str().is_empty() || toks[2].as_str().is_empty() {
                    return Err(RequestError::MalformRequest);
                }
                method = toks[0].clone();
                uri = toks[1].clone();
                protocol = toks[2].clone();
                found = true;
            } else if !contains_str(line.as_str(), "{") && !contains_str(line.as_str(), "}") {
                let ghost prev_hdv = headers.deep_view();
                let line_len = line.as_str().unicode_len();
                match find_str(line.as_str(), ": ") {
                    None => {
                        headers.push((line.clone(), line.clone()));
                    },
                    Some(p) => {
                        proof {
                            lemma_find_from_some(line@, ": "@, 0, p as int);
                        }
                        let name = substr_copy(line.as_str(), 0, p);
                        let value = substr_copy(line.as_str(), p + 2, line_len);
                        headers.push((name, value));
                    },
                }
                proof {
                    assert(headers.deep_view().drop_last() =~= prev_hdv);
                    assert(headers_map(headers.deep_view()) == headers_map(prev_hdv).insert(
                        headers.deep_view().last().0,
                        headers.deep_view().last().1,
                    ));
                }
            } else {
                body = trim_leading_str(line.as_str(), '\u{0}');
            }
            proof {
                let st_out = ParseState {
                    method: method@,
                    uri: uri@,
                    protocol: protocol@,
                    found: found,
                    headers: headers_map(headers.deep_view()),
                    body: body@,
                };
                assert(step_line(st_in, lines_v[i as int]) == Some(st_out));
            }
            i = i + 1;
        }
        proof {
            assert(lines_v.skip(lines_v.len() as int) =~= Seq::<Seq<char>>::empty());
        }
        if !found {
            return Err(RequestError::MalformRequest);
        }
        proof {
            lemma_parse_nonempty_tokens(raw@);
        }
        Ok(Request { method, uri, protocol, headers, body })
    }

    /// The value of the one path segment where `self`'s path differs
    /// from `pattern`; empty when the two have different segment counts
    /// or do not differ at all.
    pub fn get_param(&self, pattern: &str) -> (r: String)
        ensures
            r@ == spec_get_param(self@.uri, pattern@),
    {
        proof {
            reveal_strlit("/");
        }
        let u = split_str(self.uri.as_str(), "/");
        let p = split_str(pattern, "/");
        if u.len() != p.len() {
            return String::new();
        }
        let mut i: usize = 0;
        while i < u.len()
            invariant
                0 <= i <= u.len(),
                u.len() == p.len(),
                u.deep_view() == uri_segments(self@.uri),
                p.deep_view() == uri_segments(pattern@),
                first_mismatch(u.deep_view(), p.deep_view(), 0) == first_mismatch(
                    u.deep_view(),
                    p.deep_view(),
                    i as int,
                ),
            decreases u.len() - i,
        {
            if !(u[i] == p[i]) {
                return u[i].clone();
            }
            i = i + 1;
        }
        String::new()
    }

    /// The path segment at distance `offset` from the end of the path;
    /// for a path of fewer than three segments, the last segment.
    pub fn param(&self, offset: usize) -> (r: String)
        requires
            uri_segments(self@.uri).len() >= 3 ==> offset < uri_segments(self@.uri).len(),
        ensures
            r@ == spec_param(self@.uri, offset as int),
    {
        proof {
            reveal_strlit("/");
            crate::text::lemma_split_pat_basic(self@.uri, "/"@);
        }
        let u = split_str(self.uri.as_str(), "/");
        let l = u.len();
        if l < 3 {
            u[l - 1].clone()
        } else {
            u[l - 1 - offset].clone()
        }
    }

    /// The numeric value of the path segment at distance `index` from
    /// the end of the path, as an `i32`.
    pub fn get_int32(&self, index: usize) -> (r: Result<i32, RequestError>)
        ensures
            index >= uri_segments(self@.uri).len() ==> r == Err::<i32, RequestError>(
                RequestError::IndexOutOfRange,
            ),
            index < uri_segments(self@.uri).len() ==> match parse_int_val(
                uri_segments(self@.uri)[uri_segments(self@.uri).len() - 1 - index],
            ) {
                Some(v) => if i32::MIN <= v <= i32::MAX {
                    r == Ok::<i32, RequestError>(v as i32)
                } else {
                    r == Err::<i32, RequestError>(RequestError::InvalidId)
                },
                None => r == Err::<i32, RequestError>(RequestError::InvalidId),
            },
    {
        proof {
            reveal_strlit("/");
            crate::text::lemma_split_pat_basic(self@.uri, "/"@);
        }
        let u = split_str(self.uri.as_str(), "/");
        let l = u.len();
        if index > l - 1 {
            return Err(RequestError::IndexOutOfRange);
        }
        match crate::numbers::parse_i32_str(u[l - 1 - index].as_str()) {
            Some(v) => Ok(v),
            None => Err(RequestError::InvalidId),
        }
    }

    /// The numeric value of the path segment at distance `index` from
    /// the end of the path, as an `i64`.
    pub fn get_int64(&self, index: usize) -> (r: Result<i64, RequestError>)
        ensures
            index >= uri_segments(self@.uri).len() ==> r == Err::<i64, RequestError>(
                RequestError::IndexOutOfRange,
            ),
            index < uri_segments(self@.uri).len() ==> match parse_int_val(
                uri_segments(self@.uri)[uri_segments(self@.uri).len() - 1 - index],
            ) {
                Some(v) => if i64::MIN <= v <= i64::MAX {
                    r == Ok::<i64, RequestError>(v as i64)
                } else {
                    r == Err::<i64, RequestError>(RequestError::InvalidId)
                },
                None => r == Err::<i64, RequestError>(RequestError::InvalidId),
            },
    {
        proof {
            reveal_strlit("/");
            crate::text::lemma_split_pat_basic(self@.uri, "/"@);
        }
        let u = split_str(self.uri.as_str(), "/");
        let l = u.len();
        if index > l - 1 {
            return Err(RequestError::IndexOutOfRange);
        }
        match crate::numbers::parse_i64_str(u[l - 1 - index].as_str()) {
            Some(v) => Ok(v),
            None => Err(RequestError::InvalidId),
        }
    }
}

/// Walking lines that include a request-line candidate which does not
/// split into three tokens never yields a state.
proof fn lemma_run_lines_malformed(lines: Seq<Seq<char>>, st: ParseState)
    requires
        exists|k: int|
            0 <= k < lines.len() && spec_is_method(#[trigger] lines[k]) && split_pat(
                lines[k],
                " "@,
            ).len() != 3,
    ensures
        run_lines(lines, st) is None,
    decreases lines.len(),
{
    let k = choose|k: int|
        0 <= k < lines.len() && spec_is_method(#[trigger] lines[k]) && split_pat(
            lines[k],
            " "@,
        ).len() != 3;
    match step_line(st, lines[0]) {
        None => {},
        Some(st2) => {
            assert(k != 0);
            assert(lines.drop_first()[k - 1] == lines[k]);
            lemma_run_lines_malformed(lines.drop_first(), st2);
        },
    }
}

/// A malformed request line is fatal: when any head line mentions a
/// method name but does not split into exactly three space-separated
/// tokens, parsing yields no request — neither a partial one nor any
/// other outcome.
pub proof fn lemma_parse_malformed_request_line(raw: Seq<char>)
    requires
        ({
            let lines = split_pat(head_of(trim_trailing(raw, '\u{0}')), "\r\n"@);
            exists|k: int|
                0 <= k < lines.len() && spec_is_method(#[trigger] lines[k]) && split_pat(
                    lines[k],
                    " "@,
                ).len() != 3
        }),
    ensures
        spec_parse(raw) is None,
{
    let t = trim_trailing(raw, '\u{0}');
    lemma_run_lines_malformed(
        split_pat(head_of(t), "\r\n"@),
        initial_state(raw_body_of(t)),
    );
}

/// Walking lines preserves that once a request line was found, its
/// three tokens are non-empty: a request-line candidate is accepted only
/// with a method-name first token and non-empty path and protocol.
proof fn lemma_run_lines_nonempty(lines: Seq<Seq<char>>, st: ParseState)
    requires
        st.found ==> st.method.len() > 0 && st.uri.len() > 0 && st.protocol.len() > 0,
    ensures
        match run_lines(lines, st) {
            Some(st2) => st2.found ==> st2.method.len() > 0 && st2.uri.len() > 0
                && st2.protocol.len() > 0,
            None => true,
        },
    decreases lines.len(),
{
    if lines.len() > 0 {
        match step_line(st, lines[0]) {
            None => {},
            Some(st2) => {
                if spec_is_method(lines[0]) {
                    reveal_strlit("GET");
                    reveal_strlit("POST");
                    reveal_strlit("PUT");
                    reveal_strlit("PATCH");
                    reveal_strlit("DELETE");
                    reveal_strlit("OPTIONS");
                }
                lemma_run_lines_nonempty(lines.drop_first(), st2);
            },
        }
    }
}

/// Parsing succeeds only with non-empty method, path and protocol
/// tokens.
pub proof fn lemma_parse_nonempty_tokens(raw: Seq<char>)
    ensures
        match spec_parse(raw) {
            Some(v) => v.method.len() > 0 && v.uri.len() > 0 && v.protocol.len() > 0,
            None => true,
        },
{
    let t = trim_trailing(raw, '\u{0}');
    lemma_run_lines_nonempty(
        split_pat(head_of(t), "\r\n"@),
        initial_state(raw_body_of(t)),
    );
}

/// The request line assembled from its three tokens.
pub open spec fn request_line(m: Seq<char>, u: Seq<char>, p: Seq<char>) -> Seq<char> {
    m + " "@ + u + " "@ + p
}

/// The header line a name/value pair is written as.
pub open spec fn header_line(h: (Seq<char>, Seq<char>)) -> Seq<char> {
    h.0 + ": "@ + h.1
}

/// The head lines of a request: the request line, then one line per
/// header.
pub open spec fn head_lines(
    m: Seq<char>,
    u: Seq<char>,
    p: Seq<char>,
    hs: Seq<(Seq<char>, Seq<char>)>,
) -> Seq<Seq<char>> {
    seq![request_line(m, u, p)] + Seq::new(hs.len(), |i: int| header_line(hs[i]))
}

/// The raw text of a whole request: the head lines joined by `\r\n`,
/// the blank-line boundary, then the body.
pub open spec fn assembled(
    m: Seq<char>,
    u: Seq<char>,
    p: Seq<char>,
    hs: Seq<(Seq<char>, Seq<char>)>,
    b: Seq<char>,
) -> Seq<char> {
    join_with(head_lines(m, u, p, hs), "\r\n"@) + "\r\n\r\n"@ + b
}

/// A head line that can be written on the wire: nonempty and free of
/// carriage returns and line feeds.
pub open spec fn clean_line(l: Seq<char>) -> bool {
    l.len() > 0 && forall|pos: int| 0 <= pos < l.len() ==> l[pos] != '\r' && #[trigger] l[pos] != '\n'
}

/// A header pair whose line parses back to the pair: the line is clean,
/// is no request-line candidate, holds no brace, and its first `": "`
/// sits exactly between name and value.
pub open spec fn clean_header(h: (Seq<char>, Seq<char>)) -> bool {
    &&& clean_line(header_line(h))
    &&& !spec_is_method(header_line(h))
    &&& !contains_pat(header_line(h), "{"@)
    &&& !contains_pat(header_line(h), "}"@)
    &&& find_first(header_line(h), ": "@) == Some(h.0.len() as int)
}

/// The map `mp` extended by the pairs of `hs`, in order.
pub open spec fn insert_all(
    mp: Map<Seq<char>, Seq<char>>,
    hs: Seq<(Seq<char>, Seq<char>)>,
) -> Map<Seq<char>, Seq<char>>
    decreases hs.len(),
{
    if hs.len() == 0 {
        mp
    } else {
        insert_all(mp.insert(hs[0].0, hs[0].1), hs.drop_first())
    }
}

proof fn lemma_insert_all_push(
    mp: Map<Seq<char>, Seq<char>>,
    hs: Seq<(Seq<char>, Seq<char>)>,
    h: (Seq<char>, Seq<char>),
)
    ensures
        insert_all(mp, hs.push(h)) == insert_all(mp, hs).insert(h.0, h.1),
    decreases hs.len(),
{
    reveal_with_fuel(insert_all, 3);
    if hs.len() == 0 {
        assert(hs.push(h).drop_first() =~= Seq::<(Seq<char>, Seq<char>)>::empty());
        assert(hs.push(h)[0] == h);
    } else {
        assert(hs.push(h).drop_first() =~= hs.drop_first().push(h));
        assert(hs.push(h)[0] == hs[0]);
        lemma_insert_all_push(mp.insert(hs[0].0, hs[0].1), hs.drop_first(), h);
    }
}

proof fn lemma_insert_all_headers_map(hs: Seq<(Seq<char>, Seq<char>)>)
    ensures
        insert_all(Map::empty(), hs) == headers_map(hs),
    decreases hs.len(),
{
    if hs.len() > 0 {
        lemma_insert_all_headers_map(hs.drop_last());
        lemma_insert_all_push(Map::empty(), hs.drop_last(), hs.last());
        assert(hs.drop_last().push(hs.last()) =~= hs);
    }
}

/// Walking clean header lines only extends the header map by the pairs,
/// in order, and touches nothing else.
proof fn lemma_run_clean_headers(hs: Seq<(Seq<char>, Seq<char>)>, st: ParseState)
    requires
        forall|i: int| 0 <= i < hs.len() ==> clean_header(#[trigger] hs[i]),
    ensures
        run_lines(Seq::new(hs.len(), |i: int| header_line(hs[i])), st) == Some(
            ParseState { headers: insert_all(st.headers, hs), ..st },
        ),
    decreases hs.len(),
{
    let lines = Seq::new(hs.len(), |i: int| header_line(hs[i]));
    if hs.len() == 0 {
        assert(ParseState { headers: insert_all(st.headers, hs), ..st } == st);
    } else {
        reveal_strlit(": ");
        let h = hs[0];
        let line = header_line(h);
        assert(clean_header(h));
        crate::text::lemma_find_from_some(line, ": "@, 0, h.0.len() as int);
        let st2 = ParseState {
            headers: st.headers.insert(
                line.subrange(0, h.0.len() as int),
                line.subrange((h.0.len() + 2) as int, line.len() as int),
            ),
            ..st
        };
        assert(step_line(st, line) == Some(st2));
        assert(line.subrange(0, h.0.len() as int) =~= h.0);
        assert(line.subrange((h.0.len() + 2) as int, line.len() as int) =~= h.1);
        assert(st2 == ParseState { headers: st.headers.insert(h.0, h.1), ..st });
        lemma_run_clean_headers(hs.drop_first(), st2);
        assert(lines.drop_first() =~= Seq::new(
            hs.drop_first().len(),
            |i: int| header_line(hs.drop_first()[i]),
        ));
        assert(insert_all(st.headers, hs) == insert_all(st2.headers, hs.drop_first()));
    }
}

/// A well-formed request parses to exactly its parts: the request-line
/// tokens come back as method, path and protocol, the header mapping is
/// the mapping of the header pairs, and the body comes back whole.
pub proof fn lemma_parse_well_formed(
    m: Seq<char>,
    u: Seq<char>,
    p: Seq<char>,
    hs: Seq<(Seq<char>, Seq<char>)>,
    b: Seq<char>,
)
    requires
        spec_is_method(request_line(m, u, p)),
        clean_line(request_line(m, u, p)),
        !contains_pat(m, " "@),
        !contains_pat(u, " "@),
        !contains_pat(p, " "@),
        u.len() > 0,
        p.len() > 0,
        forall|i: int| 0 <= i < hs.len() ==> clean_header(#[trigger] hs[i]),
        b.len() > 0 ==> b.last() != '\u{0}',
    ensures
        spec_parse(assembled(m, u, p, hs, b)) == Some(
            ReqView { method: m, uri: u, protocol: p, headers: headers_map(hs), body: b },
        ),
{
    reveal_strlit(" ");
    reveal_strlit("\r\n");
    reveal_strlit("\r\n\r\n");
    let rl = request_line(m, u, p);
    let lines = head_lines(m, u, p, hs);
    let head = join_with(lines, "\r\n"@);
    let raw = assembled(m, u, p, hs, b);
    let sep2 = "\r\n"@;
    let sep4 = "\r\n\r\n"@;

    assert(forall|i: int| 0 <= i < lines.len() ==> (#[trigger] lines[i]).len() > 0 && clean_line(
        lines[i],
    )) by {
        assert(lines[0] == rl);
        assert(forall|i: int|
            1 <= i < lines.len() ==> #[trigger] lines[i] == header_line(hs[i - 1]));
    }
    assert(forall|i: int, pos: int|
        0 <= i < lines.len() && 0 <= pos < lines[i].len() ==> #[trigger] lines[i][pos] != sep2[0]);

    // The blank-line boundary is the first `\r\n\r\n` of the raw text.
    lemma_join_char_structure(lines, sep2);
    assert(occurs_at(raw, sep4, head.len() as int)) by {
        assert(raw.subrange(head.len() as int, (head.len() + 4) as int) =~= sep4);
    }
    assert forall|j: int| 0 <= j < head.len() implies !occurs_at(raw, sep4, j) by {
        if occurs_at(raw, sep4, j) {
            assert(raw.subrange(j, j + 4)[0] == sep4[0]);
            assert(raw.subrange(j, j + 4)[2] == sep4[2]);
            assert(head[j] == '\r');
            assert(j + 2 < head.len() && head[j + 2] != '\r');
            assert(raw[j + 2] == head[j + 2]);
        }
    }
    crate::text::lemma_find_from_exact(raw, sep4, 0, head.len() as int);
    assert(raw.subrange(0, head.len() as int) =~= head);
    assert(raw.subrange((head.len() + 4) as int, raw.len() as int) =~= b);
    assert(head_of(raw) == head);
    assert(raw_body_of(raw) == b);

    // Trailing padding: the raw text ends with the body or with `\n`.
    assert(trim_trailing(raw, '\u{0}') == raw) by {
        if b.len() > 0 {
            assert(raw.last() == b.last());
        } else {
            assert(raw.last() == sep4[3]);
        }
    }

    // The head splits back into its lines.
    lemma_split_join(lines, sep2);

    // The request line splits back into its three tokens.
    let toks = seq![m, u, p];
    assert(forall|i: int, pos: int|
        0 <= i < toks.len() && 0 <= pos < toks[i].len() ==> #[trigger] toks[i][pos] != " "@[0])
        by {
        assert forall|i: int, pos: int|
            0 <= i < toks.len() && 0 <= pos < toks[i].len() implies #[trigger] toks[i][pos]
            != " "@[0] by {
            if toks[i][pos] == " "@[0] {
                assert(toks[i].subrange(pos, pos + 1) =~= " "@);
                assert(occurs_at(toks[i], " "@, pos));
            }
        }
    }
    lemma_split_join(toks, " "@);
    assert(join_with(toks, " "@) =~= rl) by {
        reveal_with_fuel(join_with, 4);
        assert(toks.drop_first() =~= seq![u, p]);
        assert(seq![u, p].drop_first() =~= seq![p]);
        assert(join_with(seq![u, p], " "@) == u + " "@ + p);
    }
    assert(split_pat(rl, " "@) == toks);

    // Walk the head lines: the request line, then the clean headers.
    let st0 = initial_state(b);
    let st1 = ParseState {
        method: m,
        uri: u,
        protocol: p,
        found: true,
        headers: st0.headers,
        body: b,
    };
    assert(step_line(st0, rl) == Some(st1));
    assert(lines[0] == rl);
    lemma_run_clean_headers(hs, st1);
    assert(lines.drop_first() =~= Seq::new(hs.len(), |i: int| header_line(hs[i])));
    lemma_insert_all_headers_map(hs);
    assert(run_lines(lines, st0) == Some(
        ParseState { method: m, uri: u, protocol: p, found: true, headers: headers_map(hs), body: b },
    ));
}

/// The segments of a path, split on `/`.
pub open spec fn uri_segments(uri: Seq<char>) -> Seq<Seq<char>> {
    split_pat(uri, "/"@)
}

/// Index of the first position at or after `i` where `u` and `p`
/// differ.
pub open spec fn first_mismatch(u: Seq<Seq<char>>, p: Seq<Seq<char>>, i: int) -> Option<int>
    decreases u.len() - i,
{
    if i < 0 || i >= u.len() || i >= p.len() {
        None
    } else if u[i] != p[i] {
        Some(i)
    } else {
        first_mismatch(u, p, i + 1)
    }
}

/// The parameter value a path carries for a pattern: the segment at the
/// first position where the two differ.
pub open spec fn spec_get_param(uri: Seq<char>, pattern: Seq<char>) -> Seq<char> {
    let u = uri_segments(uri);
    let p = uri_segments(pattern);
    if u.len() != p.len() {
        Seq::empty()
    } else {
        match first_mismatch(u, p, 0) {
            Some(i) => u[i],
            None => Seq::empty(),
        }
    }
}

/// The path segment at distance `offset` from the end; for a path of
/// fewer than three segments, the last segment.
pub open spec fn spec_param(uri: Seq<char>, offset: int) -> Seq<char> {
    let u = uri_segments(uri);
    if u.len() < 3 {
        u.last()
    } else {
        u[u.len() - 1 - offset]
    }
}

} // verus!
