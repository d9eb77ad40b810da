//! Parsing of a request's lines: the request line, then header lines up to
//! the first empty line.
use vstd::prelude::*;
use crate::headers::Headers;
use crate::text::{
    find_colon, first_colon, has_colon, is_first_colon, lemma_first_colon_exists,
    lemma_first_colon_unique, split_words, string_views, words,
};

verus! {

/// Why a request was refused.
#[derive(Clone, Copy, Debug, PartialEq, Eq, Structural)]
pub enum ParseError {
    InvalidHeader,
    InvalidMethod,
    InvalidURI,
    InvalidVersion,
    InvalidRequest,
}

/// The name of a header line: what precedes its first colon.
pub open spec fn header_name(line: Seq<char>) -> Seq<char> {
    line.subrange(0, first_colon(line))
}

/// The raw value of a header line: from its first colon, included, to the end.
pub open spec fn header_value(line: Seq<char>) -> Seq<char> {
    line.subrange(first_colon(line), line.len() as int)
}

/// Reads header lines into `acc` until the lines run out or an empty line
/// ends them; a non-empty line without a colon refuses the whole block.
pub open spec fn headers_from(lines: Seq<Seq<char>>, acc: Map<Seq<char>, Seq<char>>) -> Result<
    Map<Seq<char>, Seq<char>>,
    ParseError,
>
    decreases lines.len(),
{
    if lines.len() == 0 || lines[0].len() == 0 {
        Ok(acc)
    } else if !has_colon(lines[0]) {
        Err(ParseError::InvalidHeader)
    } else {
        headers_from(lines.drop_first(), acc.insert(header_name(lines[0]), header_value(lines[0])))
    }
}

/// The header table that a block of header lines denotes.
pub open spec fn parse_headers(lines: Seq<Seq<char>>) -> Result<
    Map<Seq<char>, Seq<char>>,
    ParseError,
> {
    headers_from(lines, Map::empty())
}

/// Reads the header lines of a request into a table.
pub fn get_headers(lines: &[String]) -> (r: Result<Headers, ParseError>)
    ensures
        match r {
            Ok(h) => h.wf() && parse_headers(string_views(lines@)) == Ok::<
                Map<Seq<char>, Seq<char>>,
                ParseError,
            >(h@),
            Err(e) => parse_headers(string_views(lines@)) == Err::<
                Map<Seq<char>, Seq<char>>,
                ParseError,
            >(e),
        },
{
    let ghost all = string_views(lines@);
    let n = lines.len();
    let mut headers = Headers::new();
    let mut i: usize = 0;
    assert(all.subrange(0, n as int) =~= all);
    while i < n
        invariant
            n == lines@.len(),
            all == string_views(lines@),
            i <= n,
            headers.wf(),
            parse_headers(all) == headers_from(all.subrange(i as int, n as int), headers@),
        decreases n - i,
    {
        let line = lines[i].as_str();
        let ghost rest = all.subrange(i as int, n as int);
        assert(rest[0] == line@);
        assert(rest.drop_first() =~= all.subrange(i + 1, n as int));
        if line.is_empty() {
            return Ok(headers);
        }
        match find_colon(line) {
            Some(p) => {
                proof {
                    lemma_first_colon_unique(line@, p as int);
                }
                let len = line.unicode_len();
                let name = line.substring_char(0, p).to_owned();
                let value = line.substring_char(p, len).to_owned();
                headers.insert(name, value);
            },
            None => {
                return Err(ParseError::InvalidHeader);
            },
        }
        i = i + 1;
    }
    Ok(headers)
}

/// The abstract content of a request.
pub struct RequestView {
    pub method: Seq<char>,
    pub uri: Seq<char>,
    pub version: Seq<char>,
    pub headers: Map<Seq<char>, Seq<char>>,
}

/// A parsed request: method `GET`, a target that starts with `/`, a
/// supported protocol version, and the header table.
#[derive(Debug)]
pub struct Request {
    method: String,
    uri: String,
    version: String,
    headers: Headers,
}

impl View for Request {
    type V = RequestView;

    closed spec fn view(&self) -> RequestView {
        RequestView {
            method: self.method@,
            uri: self.uri@,
            version: self.version@,
            headers: self.headers@,
        }
    }
}

/// The protocol versions that are served.
pub open spec fn supported_version(v: Seq<char>) -> bool {
    v == "HTTP/1.1"@ || v == "HTTP/1.0"@
}

/// `s` starts with `/`.
pub open spec fn starts_with_slash(s: Seq<char>) -> bool {
    s.len() > 0 && s[0] == '/'
}

/// The request target after the default-document rule: `/` stands for
/// `/index.html`.
pub open spec fn default_target(t: Seq<char>) -> Seq<char> {
    if t == "/"@ {
        "/index.html"@
    } else {
        t
    }
}

/// What every successfully parsed request satisfies.
pub open spec fn valid_request(r: RequestView) -> bool {
    &&& r.method == "GET"@
    &&& starts_with_slash(r.uri)
    &&& supported_version(r.version)
}

/// The words of the request line, the first of `lines`.
pub open spec fn request_words(lines: Seq<Seq<char>>) -> Seq<Seq<char>> {
    if lines.len() == 0 {
        Seq::empty()
    } else {
        words(lines[0])
    }
}

/// The outcome of parsing the lines of a request. The checks run in this
/// order and the first that fails decides: three words on the request line,
/// method, target, version, a line after the request line, header lines.
pub open spec fn parse(lines: Seq<Seq<char>>) -> Result<RequestView, ParseError> {
    let w = request_words(lines);
    if w.len() < 3 {
        Err(ParseError::InvalidRequest)
    } else {
        let method = w[0];
        let uri = default_target(w[1]);
        let version = w[2];
        if method != "GET"@ {
            Err(ParseError::InvalidMethod)
        } else if !starts_with_slash(uri) {
            Err(ParseError::InvalidURI)
        } else if !supported_version(version) {
            Err(ParseError::InvalidVersion)
        } else if lines.len() < 2 {
            Err(ParseError::InvalidRequest)
        } else {
            match parse_headers(lines.drop_first()) {
                Ok(headers) => Ok(RequestView { method, uri, version, headers }),
                Err(e) => Err(e),
            }
        }
    }
}

/// Parses the lines of one request: the request line first, header lines
/// after it.
pub fn parse_request(text: Vec<String>) -> (r: Result<Request, ParseError>)
    ensures
        match r {
            Ok(req) => req.wf() && parse(string_views(text@)) == Ok::<RequestView, ParseError>(
                req@,
            ),
            Err(e) => parse(string_views(text@)) == Err::<RequestView, ParseError>(e),
        },
{
    let ghost lines = string_views(text@);
    if text.len() == 0 {
        return Err(ParseError::InvalidRequest);
    }
    let first = split_words(text[0].as_str());
    if first.len() < 3 {
        return Err(ParseError::InvalidRequest);
    }
    let method = first[0].clone();
    let target = first[1].clone();
    let version = first[2].clone();
    let uri = if target == String::from_str("/") {
        String::from_str("/index.html")
    } else {
        target
    };
    if method != String::from_str("GET") {
        return Err(ParseError::InvalidMethod);
    }
    if !(uri.as_str().unicode_len() > 0 && uri.as_str().get_char(0) == '/') {
        return Err(ParseError::InvalidURI);
    }
    if version != String::from_str("HTTP/1.1") && version != String::from_str("HTTP/1.0") {
        return Err(ParseError::InvalidVersion);
    }
    if text.len() < 2 {
        return Err(ParseError::InvalidRequest);
    }
    let rest = vstd::slice::slice_subrange(text.as_slice(), 1, text.len());
    assert(string_views(rest@) =~= lines.drop_first());
    match get_headers(rest) {
        Ok(headers) => Ok(Request { method, uri, version, headers }),
        Err(e) => Err(e),
    }
}

impl Request {
    /// The request is well formed: its header table is, and it meets
    /// `valid_request`.
    pub closed spec fn wf(&self) -> bool {
        self.headers.wf() && valid_request(self@)
    }

    /// Every well-formed request satisfies `valid_request`.
    pub proof fn lemma_valid(&self)
        requires
            self.wf(),
        ensures
            valid_request(self@),
    {
    }

    /// The method.
    pub fn method(&self) -> (r: &str)
        ensures
            r@ == self@.method,
    {
        self.method.as_str()
    }

    /// The request target, after the default-document rule.
    pub fn uri(&self) -> (r: &str)
        ensures
            r@ == self@.uri,
    {
        self.uri.as_str()
    }

    /// The protocol version.
    pub fn version(&self) -> (r: &str)
        ensures
            r@ == self@.version,
    {
        self.version.as_str()
    }

    /// The header table.
    pub fn headers(&self) -> (r: &Headers)
        requires
            self.wf(),
        ensures
            r.wf(),
            r@ == self@.headers,
    {
        &self.headers
    }
}

/// A request line whose method is not `GET` is refused with
/// `InvalidMethod`, before any other check but the count of its words.
pub proof fn lemma_method_checked(lines: Seq<Seq<char>>)
    requires
        request_words(lines).len() >= 3,
        request_words(lines)[0] != "GET"@,
    ensures
        parse(lines) == Err::<RequestView, ParseError>(ParseError::InvalidMethod),
{
}

/// A `GET` request whose target does not start with `/` is refused with
/// `InvalidURI`.
pub proof fn lemma_target_checked(lines: Seq<Seq<char>>)
    requires
        request_words(lines).len() >= 3,
        request_words(lines)[0] == "GET"@,
        !starts_with_slash(request_words(lines)[1]),
    ensures
        parse(lines) == Err::<RequestView, ParseError>(ParseError::InvalidURI),
{
    reveal_strlit("/");
}

/// A `GET` request with a target that starts with `/` and a version other
/// than `HTTP/1.0` and `HTTP/1.1` is refused with `InvalidVersion`.
pub proof fn lemma_version_checked(lines: Seq<Seq<char>>)
    requires
        request_words(lines).len() >= 3,
        request_words(lines)[0] == "GET"@,
        starts_with_slash(request_words(lines)[1]),
        !supported_version(request_words(lines)[2]),
    ensures
        parse(lines) == Err::<RequestView, ParseError>(ParseError::InvalidVersion),
{
    reveal_strlit("/index.html");
}

/// A header line with a colon at `p`, its first, stores the text before `p`
/// as the name and the text from `p` on, colon included, as the value; the
/// lines after it are read into the table so extended. Every line that holds
/// a colon has such a first one. A non-empty line without a colon refuses the
/// whole block with `InvalidHeader`.
pub proof fn lemma_header_line(
    line: Seq<char>,
    rest: Seq<Seq<char>>,
    acc: Map<Seq<char>, Seq<char>>,
    p: int,
)
    ensures
        has_colon(line) ==> is_first_colon(line, first_colon(line)),
        is_first_colon(line, p) ==> headers_from(seq![line] + rest, acc) == headers_from(
            rest,
            acc.insert(line.subrange(0, p), line.subrange(p, line.len() as int)),
        ),
        line.len() > 0 && !has_colon(line) ==> headers_from(seq![line] + rest, acc) == Err::<
            Map<Seq<char>, Seq<char>>,
            ParseError,
        >(ParseError::InvalidHeader),
{
    let all = seq![line] + rest;
    assert(all[0] == line);
    assert(all.drop_first() =~= rest);
    if has_colon(line) {
        lemma_first_colon_exists(line);
    }
    if is_first_colon(line, p) {
        lemma_first_colon_unique(line, p);
    }
}

/// The lines of `ls` before `j` are all non-empty.
pub open spec fn in_block(ls: Seq<Seq<char>>, j: int) -> bool {
    forall|k: int| 0 <= k < j ==> #[trigger] ls[k].len() > 0
}

proof fn lemma_bad_line_refuses(ls: Seq<Seq<char>>, acc: Map<Seq<char>, Seq<char>>, j: int)
    requires
        0 <= j < ls.len(),
        in_block(ls, j),
        ls[j].len() > 0,
        !has_colon(ls[j]),
    ensures
        headers_from(ls, acc) == Err::<Map<Seq<char>, Seq<char>>, ParseError>(
            ParseError::InvalidHeader,
        ),
    decreases j,
{
    if j > 0 && has_colon(ls[0]) {
        let t = ls.drop_first();
        assert(ls[0].len() > 0);
        assert forall|k: int| 0 <= k < j - 1 implies #[trigger] t[k].len() > 0 by {
            assert(ls[k + 1].len() > 0);
        }
        lemma_bad_line_refuses(t, acc.insert(header_name(ls[0]), header_value(ls[0])), j - 1);
    }
}

/// No line of `ls` from `from` on, up to the first empty one, is named `n`.
pub open spec fn name_absent_after(ls: Seq<Seq<char>>, from: int, n: Seq<char>) -> bool {
    forall|k: int|
        from <= k < ls.len() && (forall|t: int| from <= t <= k ==> #[trigger] ls[t].len() > 0)
            ==> !(has_colon(ls[k]) && #[trigger] header_name(ls[k]) == n)
}

proof fn lemma_name_kept(
    ls: Seq<Seq<char>>,
    acc: Map<Seq<char>, Seq<char>>,
    n: Seq<char>,
    m: Map<Seq<char>, Seq<char>>,
)
    requires
        headers_from(ls, acc) == Ok::<Map<Seq<char>, Seq<char>>, ParseError>(m),
        acc.contains_key(n),
        name_absent_after(ls, 0, n),
    ensures
        m.contains_key(n),
        m[n] == acc[n],
    decreases ls.len(),
{
    if ls.len() > 0 && ls[0].len() > 0 {
        let t = ls.drop_first();
        assert(header_name(ls[0]) != n);
        assert forall|k: int|
            0 <= k < t.len() && (forall|u: int| 0 <= u <= k ==> #[trigger] t[u].len() > 0)
                implies !(has_colon(t[k]) && #[trigger] header_name(t[k]) == n) by {
            assert forall|u: int| 0 <= u <= k + 1 implies #[trigger] ls[u].len() > 0 by {
                if u > 0 {
                    assert(ls[u] == t[u - 1]);
                }
            }
            assert(ls[k + 1] == t[k]);
        }
        lemma_name_kept(t, acc.insert(header_name(ls[0]), header_value(ls[0])), n, m);
    }
}

proof fn lemma_line_stored(
    ls: Seq<Seq<char>>,
    acc: Map<Seq<char>, Seq<char>>,
    j: int,
    m: Map<Seq<char>, Seq<char>>,
)
    requires
        headers_from(ls, acc) == Ok::<Map<Seq<char>, Seq<char>>, ParseError>(m),
        0 <= j < ls.len(),
        in_block(ls, j + 1),
        has_colon(ls[j]),
        name_absent_after(ls, j + 1, header_name(ls[j])),
    ensures
        m.contains_key(header_name(ls[j])),
        m[header_name(ls[j])] == header_value(ls[j]),
    decreases j,
{
    assert(ls[0].len() > 0);
    let t = ls.drop_first();
    let acc2 = acc.insert(header_name(ls[0]), header_value(ls[0]));
    if j == 0 {
        assert forall|k: int|
            0 <= k < t.len() && (forall|u: int| 0 <= u <= k ==> #[trigger] t[u].len() > 0)
                implies !(has_colon(t[k]) && #[trigger] header_name(t[k]) == header_name(ls[0])) by {
            assert forall|u: int| 1 <= u <= k + 1 implies #[trigger] ls[u].len() > 0 by {
                assert(ls[u] == t[u - 1]);
            }
            assert(ls[k + 1] == t[k]);
        }
        lemma_name_kept(t, acc2, header_name(ls[0]), m);
    } else {
        assert(has_colon(ls[0]));
        assert forall|k: int| 0 <= k < j implies #[trigger] t[k].len() > 0 by {
            assert(ls[k + 1].len() > 0);
        }
        assert forall|k: int|
            j <= k < t.len() && (forall|u: int| j <= u <= k ==> #[trigger] t[u].len() > 0)
                implies !(has_colon(t[k]) && #[trigger] header_name(t[k]) == header_name(t[j - 1])) by {
            assert forall|u: int| j + 1 <= u <= k + 1 implies #[trigger] ls[u].len() > 0 by {
                assert(ls[u] == t[u - 1]);
            }
            assert(ls[k + 1] == t[k]);
        }
        lemma_line_stored(t, acc2, j - 1, m);
    }
}

/// The request line is well formed: three words, method `GET`, a target
/// that starts with `/`, a supported version.
pub open spec fn valid_request_line(lines: Seq<Seq<char>>) -> bool {
    let w = request_words(lines);
    &&& w.len() >= 3
    &&& w[0] == "GET"@
    &&& starts_with_slash(w[1])
    &&& supported_version(w[2])
}

/// In a request with a valid request line, a header line without a colon
/// that comes before the first empty line refuses the whole request with
/// `InvalidHeader`.
pub proof fn lemma_header_without_colon_refuses(lines: Seq<Seq<char>>, j: int)
    requires
        valid_request_line(lines),
        1 <= j < lines.len(),
        forall|k: int| 1 <= k <= j ==> #[trigger] lines[k].len() > 0,
        !has_colon(lines[j]),
    ensures
        parse(lines) == Err::<RequestView, ParseError>(ParseError::InvalidHeader),
{
    reveal_strlit("/index.html");
    let t = lines.drop_first();
    assert forall|k: int| 0 <= k < j - 1 implies #[trigger] t[k].len() > 0 by {
        assert(lines[k + 1].len() > 0);
    }
    assert(t[j - 1] == lines[j]);
    lemma_bad_line_refuses(t, Map::empty(), j - 1);
}

/// In a parsed request, a header line before the first empty line whose
/// first colon is at `p` has its value stored under its name: the name is
/// the text before `p`, the value the text from `p` on, colon included;
/// unless a later header line of the block repeats the name.
pub proof fn lemma_header_stored(lines: Seq<Seq<char>>, j: int, p: int)
    requires
        parse(lines) is Ok,
        1 <= j < lines.len(),
        forall|k: int| 1 <= k <= j ==> #[trigger] lines[k].len() > 0,
        is_first_colon(lines[j], p),
        name_absent_after(lines, j + 1, lines[j].subrange(0, p)),
    ensures
        parse(lines)->Ok_0.headers.contains_key(lines[j].subrange(0, p)),
        parse(lines)->Ok_0.headers[lines[j].subrange(0, p)] == lines[j].subrange(
            p,
            lines[j].len() as int,
        ),
{
    lemma_first_colon_unique(lines[j], p);
    let t = lines.drop_first();
    let m = parse(lines)->Ok_0.headers;
    assert(lines.len() >= 2);
    assert(parse_headers(t) == Ok::<Map<Seq<char>, Seq<char>>, ParseError>(m));
    assert forall|k: int| 0 <= k < j implies #[trigger] t[k].len() > 0 by {
        assert(lines[k + 1].len() > 0);
    }
    assert forall|k: int|
        j <= k < t.len() && (forall|u: int| j <= u <= k ==> #[trigger] t[u].len() > 0)
            implies !(has_colon(t[k]) && #[trigger] header_name(t[k]) == header_name(t[j - 1])) by {
        assert forall|u: int| j + 1 <= u <= k + 1 implies #[trigger] lines[u].len() > 0 by {
            assert(lines[u] == t[u - 1]);
        }
        assert(lines[k + 1] == t[k]);
    }
    lemma_line_stored(t, Map::empty(), j - 1, m);
}

} // verus!
