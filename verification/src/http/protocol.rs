use vstd::prelude::*;
use vstd::string::*;
use crate::error::Error;
use crate::http::codes::HTTPStatus;
use crate::http::{inserted, lookup, Encoding, TextMap};
use crate::text::{
    after, before, decimal, decimal_bytes, find_blank, find_byte, find_space, first_blank,
    first_index, first_space, is_space_byte, lower, lower_bytes, pieces_view, split, split_bytes,
    trim, trim_bytes, trim_start, without, without_byte, AMPERSAND, COLON, COMMA, CR, EQUALS, LF,
    QUESTION,
};
use crate::utils::{bytes_equal, concat_all, copy_bytes, copy_range, lemma_concat_all_push, push_all};

verus! {

/// The request methods that the server knows.
#[derive(Debug, Clone, Copy, PartialEq, Eq, Structural)]
pub enum Method {
    GET,
    HEAD,
    POST,
    Unknown,
}

impl Method {
    /// The method's name; an unknown method has none.
    pub open spec fn name(self) -> Option<&'static str> {
        match self {
            Method::GET => Some("GET"),
            Method::HEAD => Some("HEAD"),
            Method::POST => Some("POST"),
            Method::Unknown => None,
        }
    }

    /// The method that a token of a request line names.
    pub open spec fn of(token: Seq<u8>) -> Method {
        if token == "GET".spec_bytes() {
            Method::GET
        } else if token == "HEAD".spec_bytes() {
            Method::HEAD
        } else if token == "POST".spec_bytes() {
            Method::POST
        } else {
            Method::Unknown
        }
    }

    pub fn to_string(&self) -> (r: Option<String>)
        ensures
            r is Some <==> *self != Method::Unknown,
            r matches Some(s) ==> s@ == self.name()->0@,
    {
        match self {
            Method::GET => Some("GET".to_owned()),
            Method::HEAD => Some("HEAD".to_owned()),
            Method::POST => Some("POST".to_owned()),
            Method::Unknown => None,
        }
    }

    /// The method that `token` names; any other token is `Unknown`.
    pub fn from_token(token: &[u8]) -> (m: Method)
        ensures
            m == Method::of(token@),
    {
        if bytes_equal(token, "GET".as_bytes()) {
            Method::GET
        } else if bytes_equal(token, "HEAD".as_bytes()) {
            Method::HEAD
        } else if bytes_equal(token, "POST".as_bytes()) {
            Method::POST
        } else {
            Method::Unknown
        }
    }
}

/// The first word of `s`: what stands between the white space that `s`
/// starts with and the next white space.
pub open spec fn word(s: Seq<u8>) -> Seq<u8> {
    trim_start(s).take(first_space(trim_start(s)))
}

/// What follows the first word of `s`.
pub open spec fn after_word(s: Seq<u8>) -> Seq<u8> {
    trim_start(s).skip(first_space(trim_start(s)))
}

/// The headers that a run of lines gives. A line is split at its first
/// colon into a name, which is trimmed and put in lower case, and a value,
/// which is trimmed; a line without a colon is skipped. Of two lines with one
/// name the later wins.
pub open spec fn headers_of(lines: Seq<Seq<u8>>) -> Seq<(Seq<u8>, Seq<u8>)>
    decreases lines.len(),
{
    if lines.len() == 0 {
        Seq::empty()
    } else {
        let earlier = headers_of(lines.drop_last());
        let line = lines.last();
        if first_index(line, COLON) < line.len() {
            inserted(earlier, lower(trim(before(line, COLON))), trim(after(line, COLON)))
        } else {
            earlier
        }
    }
}

/// The parameters that the pieces of a query string give. A piece is split
/// at its first `=` into a key and a value, which ends at the next `=`; a
/// piece without `=` has an empty value, and an empty piece is skipped. Of
/// two pieces with one key the later wins.
pub open spec fn query_of(pieces: Seq<Seq<u8>>) -> Seq<(Seq<u8>, Seq<u8>)>
    decreases pieces.len(),
{
    if pieces.len() == 0 {
        Seq::empty()
    } else {
        let earlier = query_of(pieces.drop_last());
        let piece = pieces.last();
        if piece.len() > 0 {
            inserted(earlier, before(piece, EQUALS), before(after(piece, EQUALS), EQUALS))
        } else {
            earlier
        }
    }
}

/// A request as a value.
pub ghost struct RequestSpec {
    pub remote_address: Seq<u8>,
    pub time_received: i64,
    pub method: Method,
    pub path: Seq<u8>,
    pub uri: Seq<u8>,
    pub body: Seq<u8>,
    pub query_string: Seq<u8>,
    pub query: Seq<(Seq<u8>, Seq<u8>)>,
    pub http_info: Seq<u8>,
    pub headers: Seq<(Seq<u8>, Seq<u8>)>,
    pub params: Seq<(Seq<u8>, Seq<u8>)>,
}

/// The message in the form in which it is read: trimmed, and without
/// carriage returns.
pub open spec fn normalized(raw: Seq<u8>) -> Seq<u8> {
    without(trim(raw), CR)
}

/// The head of a message: what stands before the first empty line.
pub open spec fn head_of(text: Seq<u8>) -> Seq<u8> {
    text.take(first_blank(text))
}

/// The body of a message: what stands after the first empty line.
pub open spec fn body_of(text: Seq<u8>) -> Seq<u8> {
    if first_blank(text) < text.len() {
        text.skip(first_blank(text) + 2)
    } else {
        Seq::empty()
    }
}

/// The request line of a message.
pub open spec fn request_line(raw: Seq<u8>) -> Seq<u8> {
    split(head_of(normalized(raw)), LF)[0]
}

/// Whether a message is read as a request: its request line has three
/// words.
pub open spec fn well_formed(raw: Seq<u8>) -> bool {
    word(after_word(after_word(request_line(raw)))).len() > 0
}

/// What a message is read as: the request line gives the method, the URI and
/// the version; the other lines of the head give the headers; the URI is
/// split at its first `?` into the path and the query string, whose pieces
/// between `&` give the parameters.
pub open spec fn parsed(raw: Seq<u8>, remote_address: Seq<u8>, time_received: i64) -> RequestSpec {
    let text = normalized(raw);
    let lines = split(head_of(text), LF);
    let uri = word(after_word(lines[0]));
    RequestSpec {
        remote_address,
        time_received,
        method: Method::of(word(lines[0])),
        path: before(uri, QUESTION),
        uri,
        body: body_of(text),
        query_string: after(uri, QUESTION),
        query: query_of(split(after(uri, QUESTION), AMPERSAND)),
        http_info: word(after_word(after_word(lines[0]))),
        headers: headers_of(lines.skip(1)),
        params: Seq::empty(),
    }
}

/// One request, as it was read from a message.
#[derive(Debug)]
pub struct Request {
    pub remote_address: Vec<u8>,
    pub time_received: i64,
    pub method: Method,
    pub path: Vec<u8>,
    pub uri: Vec<u8>,
    pub body: Vec<u8>,
    pub query_string: Vec<u8>,
    pub query: TextMap,
    pub http_info: Vec<u8>,
    pub headers: TextMap,
    pub params: TextMap,
}

impl View for Request {
    type V = RequestSpec;

    open spec fn view(&self) -> RequestSpec {
        RequestSpec {
            remote_address: self.remote_address@,
            time_received: self.time_received,
            method: self.method,
            path: self.path@,
            uri: self.uri@,
            body: self.body@,
            query_string: self.query_string@,
            query: self.query@,
            http_info: self.http_info@,
            headers: self.headers@,
            params: self.params@,
        }
    }
}

/// The first word of `s` and what follows it.
fn next_word(s: &[u8]) -> (r: (Vec<u8>, Vec<u8>))
    ensures
        r.0@ == word(s@),
        r.1@ == after_word(s@),
{
    let mut start: usize = 0;
    proof {
        assert(s@.skip(0) =~= s@);
    }
    while start < s.len() && is_space_byte(s[start])
        invariant
            start <= s@.len(),
            trim_start(s@) == trim_start(s@.skip(start as int)),
        decreases s@.len() - start,
    {
        proof {
            assert(s@.skip(start as int).skip(1) =~= s@.skip(start + 1));
        }
        start += 1;
    }
    let rest = vstd::slice::slice_subrange(s, start, s.len());
    proof {
        assert(rest@ =~= s@.skip(start as int));
    }
    let end = find_space(rest);
    let word = copy_range(rest, 0, end);
    let after = copy_range(rest, end, rest.len());
    proof {
        assert(word@ =~= rest@.take(end as int));
        assert(after@ =~= rest@.skip(end as int));
    }
    (word, after)
}

/// Splits `s` at the first `b`.
fn split_once(s: &[u8], b: u8) -> (r: (Vec<u8>, Vec<u8>))
    ensures
        r.0@ == before(s@, b),
        r.1@ == after(s@, b),
{
    let i = find_byte(s, b);
    let head = copy_range(s, 0, i);
    proof {
        assert(head@ =~= s@.take(i as int));
    }
    if i < s.len() {
        let tail = copy_range(s, i + 1, s.len());
        proof {
            assert(tail@ =~= s@.skip(i + 1));
        }
        (head, tail)
    } else {
        (head, Vec::new())
    }
}

fn read_headers(lines: &Vec<Vec<u8>>) -> (headers: TextMap)
    requires
        lines@.len() >= 1,
    ensures
        headers@ == headers_of(pieces_view(lines@).skip(1)),
        headers.wf(),
{
    let mut headers = TextMap::new();
    let ghost all = pieces_view(lines@).skip(1);
    let mut i: usize = 1;
    proof {
        assert(all.take(0) =~= Seq::<Seq<u8>>::empty());
    }
    while i < lines.len()
        invariant
            1 <= i <= lines@.len(),
            all == pieces_view(lines@).skip(1),
            headers@ == headers_of(all.take(i - 1)),
            headers.wf(),
        decreases lines@.len() - i,
    {
        let line = &lines[i];
        proof {
            assert(all.take(i as int).drop_last() =~= all.take(i - 1));
            assert(all.take(i as int).last() == line@);
        }
        let colon = find_byte(line.as_slice(), COLON);
        if colon < line.len() {
            let (name, value) = split_once(line.as_slice(), COLON);
            let name = trim_bytes(name.as_slice());
            let name = lower_bytes(name.as_slice());
            let value = trim_bytes(value.as_slice());
            headers.insert(name, value);
        }
        i += 1;
    }
    proof {
        assert(all.take(i - 1) =~= all);
    }
    headers
}

fn read_query(query_string: &[u8]) -> (query: TextMap)
    ensures
        query@ == query_of(split(query_string@, AMPERSAND)),
        query.wf(),
{
    let pieces = split_bytes(query_string, AMPERSAND);
    let ghost all = pieces_view(pieces@);
    let mut query = TextMap::new();
    let mut i: usize = 0;
    proof {
        assert(all.take(0) =~= Seq::<Seq<u8>>::empty());
    }
    while i < pieces.len()
        invariant
            i <= pieces@.len(),
            all == pieces_view(pieces@),
            query@ == query_of(all.take(i as int)),
            query.wf(),
        decreases pieces@.len() - i,
    {
        let piece = &pieces[i];
        proof {
            assert(all.take(i + 1).drop_last() =~= all.take(i as int));
            assert(all.take(i + 1).last() == piece@);
        }
        if piece.len() > 0 {
            let (key, rest) = split_once(piece.as_slice(), EQUALS);
            let (value, _) = split_once(rest.as_slice(), EQUALS);
            query.insert(key, value);
        }
        i += 1;
    }
    proof {
        assert(all.take(i as int) =~= all);
    }
    query
}

impl Request {
    /// Reads a message as a request. A message whose request line does not
    /// have three words is refused with code 2001. The peer's address and the
    /// time of receipt are taken as they are given.
    pub fn new(req_data: Vec<u8>, remote_address: Vec<u8>, time_received: i64) -> (r: Result<
        Request,
        Error,
    >)
        ensures
            r is Ok <==> well_formed(req_data@),
            r matches Ok(req) ==> req@ == parsed(req_data@, remote_address@, time_received)
                && req.headers.wf() && req.query.wf() && req.params.wf(),
            r matches Err(e) ==> e.code == 2001,
    {
        let trimmed = trim_bytes(req_data.as_slice());
        let text = without_byte(trimmed.as_slice(), CR);
        let blank = find_blank(text.as_slice());
        let head = copy_range(text.as_slice(), 0, blank);
        let body = if blank < text.len() {
            copy_range(text.as_slice(), blank + 2, text.len())
        } else {
            Vec::new()
        };
        proof {
            assert(head@ =~= head_of(text@));
            assert(body@ =~= body_of(text@));
        }
        let lines = split_bytes(head.as_slice(), LF);
        let (method_token, rest) = next_word(lines[0].as_slice());
        let (uri, rest) = next_word(rest.as_slice());
        let (http_info, _) = next_word(rest.as_slice());
        if http_info.len() == 0 {
            return Err(Error::new("Invalid request", 2001));
        }
        let headers = read_headers(&lines);
        let (path, query_string) = split_once(uri.as_slice(), QUESTION);
        let query = read_query(query_string.as_slice());
        let req = Request {
            remote_address,
            time_received,
            method: Method::from_token(method_token.as_slice()),
            path,
            uri,
            body,
            query,
            query_string,
            http_info,
            headers,
            params: TextMap::new(),
        };
        Ok(req)
    }

    /// The address of the connected peer.
    pub fn remote_addr(&self) -> (a: &Vec<u8>)
        ensures
            a == self.remote_address,
    {
        &self.remote_address
    }

    /// The time at which the request was received.
    pub fn time_received(&self) -> (t: i64)
        ensures
            t == self.time_received,
    {
        self.time_received
    }

    /// The time that has passed since the request was received, at `now`;
    /// saturating at the ends of the range.
    pub fn duration(&self, now: i64) -> (d: i64)
        ensures
            d as int == if now - self.time_received > i64::MAX {
                i64::MAX as int
            } else if now - self.time_received < i64::MIN {
                i64::MIN as int
            } else {
                now - self.time_received
            },
    {
        if self.time_received < 0 && now > i64::MAX + self.time_received {
            i64::MAX
        } else if self.time_received > 0 && now < i64::MIN + self.time_received {
            i64::MIN
        } else {
            now - self.time_received
        }
    }
}

} // verus!

verus! {

/// What DEFLATE makes of `data` with the encoder's default options.
pub uninterp spec fn deflated(data: Seq<u8>) -> Seq<u8>;

/// Calls `libflate::deflate::Encoder::new`, writes the data and calls
/// `finish`: the stream depends on the data alone.
#[verifier::external_body]
fn deflate_bytes(data: &[u8]) -> (r: Option<Vec<u8>>)
    ensures
        r matches Some(out) ==> out@ == deflated(data@),
{
    let mut encoder = libflate::deflate::Encoder::new(Vec::new());
    match std::io::copy(&mut &data[..], &mut encoder) {
        Ok(_) => encoder.finish().into_result().ok(),
        Err(_) => None,
    }
}

/// Calls `libflate::gzip::Encoder::new`, writes the data and calls `finish`.
/// The header of the stream holds the time of the call, so nothing is said
/// of the bytes.
#[verifier::external_body]
fn gzip_bytes(data: &[u8]) -> (r: Option<Vec<u8>>) {
    let mut encoder = match libflate::gzip::Encoder::new(Vec::new()) {
        Ok(encoder) => encoder,
        Err(_) => return None,
    };
    match std::io::copy(&mut &data[..], &mut encoder) {
        Ok(_) => encoder.finish().into_result().ok(),
        Err(_) => None,
    }
}

/// A response as a value.
pub ghost struct ResponseSpec {
    pub req: RequestSpec,
    pub sent: bool,
    pub body: Seq<u8>,
    pub headers: Seq<(Seq<u8>, Seq<u8>)>,
    pub status: HTTPStatus,
}

/// The response to one request, built up until it is sent.
#[derive(Debug)]
pub struct Response {
    pub req: Request,
    pub sent: bool,
    pub body: Vec<u8>,
    pub headers: TextMap,
    pub status: HTTPStatus,
}

impl View for Response {
    type V = ResponseSpec;

    open spec fn view(&self) -> ResponseSpec {
        ResponseSpec {
            req: self.req@,
            sent: self.sent,
            body: self.body@,
            headers: self.headers@,
            status: self.status,
        }
    }
}

/// The status line: `HTTP/1.1`, the code and the reason phrase.
pub open spec fn status_line(status: HTTPStatus) -> Seq<u8> {
    "HTTP/1.1 ".spec_bytes() + decimal(status.code() as nat) + " ".spec_bytes()
        + status.phrase().spec_bytes() + "\n".spec_bytes()
}

/// One header on a line of its own; a header without a value is its name
/// alone.
pub open spec fn header_line(e: (Seq<u8>, Seq<u8>)) -> Seq<u8> {
    if e.1.len() > 0 {
        e.0 + ": ".spec_bytes() + e.1 + "\n".spec_bytes()
    } else {
        e.0 + "\n".spec_bytes()
    }
}

/// The header block: the headers in their order, a line each.
pub open spec fn header_block(es: Seq<(Seq<u8>, Seq<u8>)>) -> Seq<u8> {
    concat_all(es.map_values(|e: (Seq<u8>, Seq<u8>)| header_line(e)))
}

/// Whether `accept`, a list with commas, names `name`: one of its items,
/// trimmed and in lower case, is `name`.
pub open spec fn accepts(accept: Seq<u8>, name: Seq<u8>) -> bool {
    exists|i: int| 0 <= i < split(accept, COMMA).len() && lower(trim(#[trigger] split(accept, COMMA)[i])) == name
}

/// The encoding in which a body is sent: gzip where it is accepted and the
/// body has more than 1000 bytes, else deflate where that is accepted, else
/// none. None either where compression is off or the request has no
/// `accept-encoding`.
pub open spec fn chosen_encoding(accept: Option<Seq<u8>>, body_len: nat, use_compression: bool) -> Option<
    Encoding,
> {
    if !use_compression || accept is None {
        None
    } else if body_len > 1000 && accepts(accept->0, "gzip".spec_bytes()) {
        Some(Encoding::Gzip)
    } else if accepts(accept->0, "deflate".spec_bytes()) {
        Some(Encoding::Deflate)
    } else {
        None
    }
}

/// The headers with which a response is sent: its own, then `Date`,
/// `Connection` (`close` on the last response of a connection, else
/// `keep-alive`), `Content-Encoding` where the body is encoded, and
/// `Content-Length` with the length of the body as it is sent.
pub open spec fn final_headers(
    headers: Seq<(Seq<u8>, Seq<u8>)>,
    date: Seq<u8>,
    is_last: bool,
    encoding: Option<Encoding>,
    body_len: nat,
) -> Seq<(Seq<u8>, Seq<u8>)> {
    let dated = inserted(headers, "Date".spec_bytes(), date);
    let connected = inserted(
        dated,
        "Connection".spec_bytes(),
        if is_last {
            "close".spec_bytes()
        } else {
            "keep-alive".spec_bytes()
        },
    );
    let encoded = match encoding {
        Some(Encoding::Gzip) => inserted(
            connected,
            "Content-Encoding".spec_bytes(),
            "gzip".spec_bytes(),
        ),
        Some(Encoding::Deflate) => inserted(
            connected,
            "Content-Encoding".spec_bytes(),
            "deflate".spec_bytes(),
        ),
        None => connected,
    };
    inserted(encoded, "Content-Length".spec_bytes(), decimal(body_len))
}

/// A response on the wire: the status line, the header block, an empty line
/// and the body. The answer to a HEAD request has no body.
pub open spec fn response_wire(
    status: HTTPStatus,
    headers: Seq<(Seq<u8>, Seq<u8>)>,
    method: Method,
    body: Seq<u8>,
) -> Seq<u8> {
    status_line(status) + header_block(headers) + "\n".spec_bytes() + (if method == Method::HEAD {
        Seq::<u8>::empty()
    } else {
        body
    })
}

/// What a response is once it is sent with the given date, either as it
/// stands or with its body encoded.
pub open spec fn sent_response(
    res: ResponseSpec,
    date: Seq<u8>,
    is_last: bool,
    encoded: Option<(Encoding, Seq<u8>)>,
) -> ResponseSpec {
    let body = match encoded {
        Some((_, bytes)) => bytes,
        None => res.body,
    };
    let encoding = match encoded {
        Some((encoding, _)) => Some(encoding),
        None => None,
    };
    ResponseSpec {
        sent: true,
        body,
        headers: final_headers(res.headers, date, is_last, encoding, body.len()),
        ..res
    }
}

/// A response that is sent says under `Content-Length` how long its body
/// is, and its bytes end with that body unless it answers a HEAD request.
pub proof fn lemma_content_length(
    res: ResponseSpec,
    date: Seq<u8>,
    is_last: bool,
    encoded: Option<(Encoding, Seq<u8>)>,
)
    ensures
        ({
            let sent = sent_response(res, date, is_last, encoded);
            let wire = response_wire(sent.status, sent.headers, sent.req.method, sent.body);
            &&& lookup(sent.headers, "Content-Length".spec_bytes()) == Some(decimal(sent.body.len()))
            &&& sent.req.method != Method::HEAD ==> wire.len() >= sent.body.len() && wire.skip(
                wire.len() - sent.body.len(),
            ) == sent.body
        }),
{
    let sent = sent_response(res, date, is_last, encoded);
    let wire = response_wire(sent.status, sent.headers, sent.req.method, sent.body);
    let encoding = match encoded {
        Some((encoding, _)) => Some(encoding),
        None => None,
    };
    let dated = inserted(res.headers, "Date".spec_bytes(), date);
    let connected = inserted(
        dated,
        "Connection".spec_bytes(),
        if is_last {
            "close".spec_bytes()
        } else {
            "keep-alive".spec_bytes()
        },
    );
    let before_length = match encoding {
        Some(Encoding::Gzip) => inserted(
            connected,
            "Content-Encoding".spec_bytes(),
            "gzip".spec_bytes(),
        ),
        Some(Encoding::Deflate) => inserted(
            connected,
            "Content-Encoding".spec_bytes(),
            "deflate".spec_bytes(),
        ),
        None => connected,
    };
    crate::http::lemma_insert_lookup(
        before_length,
        "Content-Length".spec_bytes(),
        decimal(sent.body.len()),
        "Content-Length".spec_bytes(),
    );
    if sent.req.method != Method::HEAD {
        assert(wire.skip(wire.len() - sent.body.len()) =~= sent.body);
    }
}

proof fn lemma_header_names_differ()
    ensures
        "Connection".spec_bytes() != "Content-Encoding".spec_bytes(),
        "Connection".spec_bytes() != "Content-Length".spec_bytes(),
{
    reveal_strlit("Connection");
    reveal_strlit("Content-Encoding");
    reveal_strlit("Content-Length");
    assert(is_ascii("Connection"));
    assert(is_ascii("Content-Encoding"));
    assert(is_ascii("Content-Length"));
    is_ascii_spec_bytes("Connection");
    is_ascii_spec_bytes("Content-Encoding");
    is_ascii_spec_bytes("Content-Length");
    assert("Connection".spec_bytes().len() == 10);
    assert("Content-Encoding".spec_bytes().len() == 16);
    assert("Content-Length".spec_bytes().len() == 14);
}

/// The last response of a connection says `Connection: close`, and any
/// other says `Connection: keep-alive`.
pub proof fn lemma_connection_header(
    res: ResponseSpec,
    date: Seq<u8>,
    is_last: bool,
    encoded: Option<(Encoding, Seq<u8>)>,
)
    ensures
        lookup(sent_response(res, date, is_last, encoded).headers, "Connection".spec_bytes())
            == Some(
            if is_last {
                "close".spec_bytes()
            } else {
                "keep-alive".spec_bytes()
            },
        ),
{
    let sent = sent_response(res, date, is_last, encoded);
    let value = if is_last {
        "close".spec_bytes()
    } else {
        "keep-alive".spec_bytes()
    };
    let dated = inserted(res.headers, "Date".spec_bytes(), date);
    let connected = inserted(dated, "Connection".spec_bytes(), value);
    lemma_header_names_differ();
    crate::http::lemma_insert_lookup(dated, "Connection".spec_bytes(), value, "Connection".spec_bytes());
    let before_length = match encoded {
        Some((Encoding::Gzip, _)) => inserted(
            connected,
            "Content-Encoding".spec_bytes(),
            "gzip".spec_bytes(),
        ),
        Some((Encoding::Deflate, _)) => inserted(
            connected,
            "Content-Encoding".spec_bytes(),
            "deflate".spec_bytes(),
        ),
        None => connected,
    };
    crate::http::lemma_insert_lookup(
        connected,
        "Content-Encoding".spec_bytes(),
        "gzip".spec_bytes(),
        "Connection".spec_bytes(),
    );
    crate::http::lemma_insert_lookup(
        connected,
        "Content-Encoding".spec_bytes(),
        "deflate".spec_bytes(),
        "Connection".spec_bytes(),
    );
    crate::http::lemma_insert_lookup(
        before_length,
        "Content-Length".spec_bytes(),
        decimal(sent.body.len()),
        "Connection".spec_bytes(),
    );
}

fn names(accept: &[u8], name: &[u8]) -> (r: bool)
    ensures
        r == accepts(accept@, name@),
{
    let items = split_bytes(accept, COMMA);
    let mut i: usize = 0;
    while i < items.len()
        invariant
            i <= items@.len(),
            pieces_view(items@) == split(accept@, COMMA),
            forall|j: int| 0 <= j < i ==> lower(trim(#[trigger] split(accept@, COMMA)[j])) != name@,
        decreases items@.len() - i,
    {
        let item = trim_bytes(items[i].as_slice());
        let item = lower_bytes(item.as_slice());
        proof {
            assert(pieces_view(items@)[i as int] == items@[i as int]@);
        }
        if bytes_equal(item.as_slice(), name) {
            return true;
        }
        i += 1;
    }
    false
}

/// Computes [`chosen_encoding`].
pub fn choose_encoding(accept: Option<&Vec<u8>>, body_len: usize, use_compression: bool) -> (r: Option<
    Encoding,
>)
    ensures
        r == chosen_encoding(
            match accept {
                Some(a) => Some(a@),
                None => None,
            },
            body_len as nat,
            use_compression,
        ),
{
    if !use_compression {
        return None;
    }
    match accept {
        None => None,
        Some(accept) => {
            if body_len > 1000 && names(accept.as_slice(), "gzip".as_bytes()) {
                Some(Encoding::Gzip)
            } else if names(accept.as_slice(), "deflate".as_bytes()) {
                Some(Encoding::Deflate)
            } else {
                None
            }
        },
    }
}

impl Response {
    /// Whether the response can be built on: its headers hold no name twice.
    pub open spec fn wf(&self) -> bool {
        self.headers.wf()
    }

    /// A new response to a request: status 202 Accepted until it is set,
    /// no headers, no body, not sent.
    pub fn new(req: Request) -> (res: Response)
        ensures
            res@ == (ResponseSpec {
                req: req@,
                sent: false,
                body: Seq::empty(),
                headers: Seq::empty(),
                status: HTTPStatus::Accepted,
            }),
            res.wf(),
    {
        Response {
            req,
            sent: false,
            headers: TextMap::new(),
            body: Vec::new(),
            status: HTTPStatus::Accepted,
        }
    }

    /// Whether the response has been sent.
    pub fn is_fulfilled(&self) -> (sent: bool)
        ensures
            sent == self@.sent,
    {
        self.sent
    }

    /// All headers, a line each.
    pub fn get_headers(&self) -> (block: Vec<u8>)
        ensures
            block@ == header_block(self@.headers),
    {
        let mut block: Vec<u8> = Vec::new();
        let ghost lines = self@.headers.map_values(|e: (Seq<u8>, Seq<u8>)| header_line(e));
        let mut i: usize = 0;
        proof {
            assert(lines.take(0) =~= Seq::<Seq<u8>>::empty());
        }
        while i < self.headers.entries.len()
            invariant
                i <= self.headers.entries@.len(),
                lines == self@.headers.map_values(|e: (Seq<u8>, Seq<u8>)| header_line(e)),
                block@ == concat_all(lines.take(i as int)),
            decreases self.headers.entries@.len() - i,
        {
            let entry = &self.headers.entries[i];
            let ghost start = block@;
            proof {
                assert(lines.take(i + 1) =~= lines.take(i as int).push(lines[i as int]));
                lemma_concat_all_push(lines.take(i as int), lines[i as int]);
                assert(self@.headers[i as int] == (entry.0@, entry.1@));
            }
            push_all(&mut block, entry.0.as_slice());
            if entry.1.len() > 0 {
                push_all(&mut block, ": ".as_bytes());
            }
            push_all(&mut block, entry.1.as_slice());
            push_all(&mut block, "\n".as_bytes());
            proof {
                assert(block@ =~= start + header_line((entry.0@, entry.1@)));
            }
            i += 1;
        }
        proof {
            assert(lines.take(i as int) =~= lines);
        }
        block
    }

    /// The body as it stands.
    pub fn get_body(&self) -> (body: &Vec<u8>)
        ensures
            body == self.body,
    {
        &self.body
    }

    /// The body as it stands.
    pub fn read_body(&self) -> (body: &Vec<u8>)
        ensures
            body == self.body,
    {
        &self.body
    }

    /// Appends data to the body. A response that has been sent takes no
    /// more: code 2000.
    pub fn write(&mut self, data: &[u8]) -> (r: Result<(), Error>)
        ensures
            r is Ok <==> !old(self)@.sent,
            r is Ok ==> final(self)@ == (ResponseSpec {
                body: old(self)@.body + data@,
                ..old(self)@
            }),
            r matches Err(e) ==> e.code == 2000 && final(self)@ == old(self)@,
            final(self).wf() == old(self).wf(),
    {
        if self.sent {
            return Err(
                Error::new("Cannot write to a response that has already been sent.", 2000),
            );
        }
        push_all(&mut self.body, data);
        Ok(())
    }

    /// The header under `key`.
    pub fn get_header(&self, key: &[u8]) -> (r: Option<&Vec<u8>>)
        ensures
            match lookup(self@.headers, key@) {
                Some(value) => r is Some && r->0@ == value,
                None => r is None,
            },
    {
        self.headers.get(key)
    }

    /// Adds a header; one that stands under the same key is replaced.
    pub fn set_header(&mut self, key: &[u8], value: &[u8])
        requires
            old(self).wf(),
        ensures
            final(self)@ == (ResponseSpec {
                headers: inserted(old(self)@.headers, key@, value@),
                ..old(self)@
            }),
            final(self).wf(),
    {
        self.headers.insert(copy_bytes(key), copy_bytes(value));
    }

    /// Removes the header under `key`.
    pub fn remove_header(&mut self, key: &[u8])
        requires
            old(self).wf(),
        ensures
            final(self)@ == (ResponseSpec {
                headers: crate::http::removed(old(self)@.headers, key@),
                ..old(self)@
            }),
            final(self).wf(),
    {
        self.headers.remove(key);
    }

    /// The status as it stands.
    pub fn get_status(&self) -> (status: HTTPStatus)
        ensures
            status == self@.status,
    {
        self.status
    }

    /// Sets the status.
    pub fn set_status(&mut self, status: HTTPStatus)
        ensures
            final(self)@ == (ResponseSpec { status, ..old(self)@ }),
            final(self).wf() == old(self).wf(),
    {
        self.status = status;
    }

    /// Sends the response with a body that is either its own or, where
    /// `encoded` is given, the encoded one: sets the headers of
    /// [`final_headers`], marks the response as sent and returns its bytes.
    /// A response is sent once: code 2000 on a second time.
    pub fn finish(&mut self, date: &[u8], is_last: bool, encoded: Option<(Encoding, Vec<u8>)>) -> (r:
        Result<Vec<u8>, Error>)
        requires
            old(self).wf(),
        ensures
            final(self).wf(),
            r is Ok <==> !old(self)@.sent,
            r matches Ok(bytes) ==> {
                let encoded_spec = match encoded {
                    Some((encoding, body)) => Some((encoding, body@)),
                    None => None,
                };
                &&& final(self)@ == sent_response(old(self)@, date@, is_last, encoded_spec)
                &&& bytes@ == response_wire(
                    final(self)@.status,
                    final(self)@.headers,
                    final(self)@.req.method,
                    final(self)@.body,
                )
                &&& lookup(final(self)@.headers, "Content-Length".spec_bytes()) == Some(
                    decimal(final(self)@.body.len()),
                )
            },
            r matches Err(e) ==> e.code == 2000 && final(self)@ == old(self)@,
    {
        if self.sent {
            return Err(
                Error::new("Cannot write to a response that has already been sent.", 2000),
            );
        }
        self.headers.insert(copy_bytes("Date".as_bytes()), copy_bytes(date));
        let connection = if is_last {
            "close"
        } else {
            "keep-alive"
        };
        self.headers.insert(copy_bytes("Connection".as_bytes()), copy_bytes(connection.as_bytes()));
        match encoded {
            Some((Encoding::Gzip, body)) => {
                self.headers.insert(
                    copy_bytes("Content-Encoding".as_bytes()),
                    copy_bytes("gzip".as_bytes()),
                );
                self.body = body;
            },
            Some((Encoding::Deflate, body)) => {
                self.headers.insert(
                    copy_bytes("Content-Encoding".as_bytes()),
                    copy_bytes("deflate".as_bytes()),
                );
                self.body = body;
            },
            None => {},
        }
        proof {
            crate::http::lemma_insert_lookup(
                self@.headers,
                "Content-Length".spec_bytes(),
                decimal(self@.body.len()),
                "Content-Length".spec_bytes(),
            );
        }
        self.headers.insert(
            copy_bytes("Content-Length".as_bytes()),
            decimal_bytes(self.body.len()),
        );
        let (code, phrase) = self.status.code_and_phrase();
        let mut out: Vec<u8> = copy_bytes("HTTP/1.1 ".as_bytes());
        let digits = decimal_bytes(code as usize);
        push_all(&mut out, digits.as_slice());
        push_all(&mut out, " ".as_bytes());
        push_all(&mut out, phrase.as_bytes());
        push_all(&mut out, "\n".as_bytes());
        proof {
            assert(phrase.spec_bytes() == self@.status.phrase().spec_bytes());
            assert(out@ =~= status_line(self@.status));
        }
        let block = self.get_headers();
        push_all(&mut out, block.as_slice());
        push_all(&mut out, "\n".as_bytes());
        match self.req.method {
            Method::HEAD => {},
            _ => {
                push_all(&mut out, self.body.as_slice());
            },
        }
        self.sent = true;
        proof {
            assert(out@ =~= response_wire(
                self@.status,
                self@.headers,
                self@.req.method,
                self@.body,
            ));
        }
        Ok(out)
    }

    /// Sends the response: chooses the encoding by the request's
    /// `accept-encoding`, encodes the body and finishes. The encoding that was
    /// used is returned with the bytes; where the encoder fails, the body is
    /// sent as it is.
    pub fn send(&mut self, date: &[u8], is_last: bool, use_compression: bool) -> (r: Result<
        (Vec<u8>, Option<Encoding>),
        Error,
    >)
        requires
            old(self).wf(),
        ensures
            final(self).wf(),
            r is Ok <==> !old(self)@.sent,
            r matches Ok((bytes, used)) ==> {
                let chosen = chosen_encoding(
                    lookup(old(self)@.req.headers, "accept-encoding".spec_bytes()),
                    old(self)@.body.len(),
                    use_compression,
                );
                &&& (used is None || used == chosen)
                &&& (used is None ==> final(self)@.body == old(self)@.body)
                &&& (used == Some(Encoding::Deflate) ==> final(self)@.body == deflated(
                    old(self)@.body,
                ))
                &&& (chosen is None ==> used is None)
                &&& final(self)@ == sent_response(
                    old(self)@,
                    date@,
                    is_last,
                    match used {
                        Some(encoding) => Some((encoding, final(self)@.body)),
                        None => None,
                    },
                )
                &&& bytes@ == response_wire(
                    final(self)@.status,
                    final(self)@.headers,
                    final(self)@.req.method,
                    final(self)@.body,
                )
                &&& lookup(final(self)@.headers, "Content-Length".spec_bytes()) == Some(
                    decimal(final(self)@.body.len()),
                )
            },
            r matches Err(e) ==> e.code == 2000 && final(self)@ == old(self)@,
    {
        if self.sent {
            return Err(
                Error::new("Cannot write to a response that has already been sent.", 2000),
            );
        }
        let chosen = choose_encoding(
            self.req.headers.get("accept-encoding".as_bytes()),
            self.body.len(),
            use_compression,
        );
        let encoded = match chosen {
            Some(Encoding::Gzip) => match gzip_bytes(self.body.as_slice()) {
                Some(body) => Some((Encoding::Gzip, body)),
                None => None,
            },
            Some(Encoding::Deflate) => match deflate_bytes(self.body.as_slice()) {
                Some(body) => Some((Encoding::Deflate, body)),
                None => None,
            },
            None => None,
        };
        let used = match &encoded {
            Some((encoding, _)) => Some(*encoding),
            None => None,
        };
        let bytes = self.finish(date, is_last, encoded)?;
        Ok((bytes, used))
    }
}

} // verus!
