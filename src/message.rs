use vstd::prelude::*;
use vstd::string::StringExecFns;

use crate::number::{decimal, i32_value, parse_i32, push_decimal};
use crate::text::{crlf, join, lemma_join_push};

verus! {

/// A header as plain text: its key and its value.
pub type HeaderView = (Seq<char>, Seq<char>);

/// What a request holds.
pub struct RequestView {
    pub method: Seq<char>,
    pub path: Seq<char>,
    pub headers: Seq<HeaderView>,
    pub body: Seq<char>,
}

/// What a response holds.
pub struct ResponseView {
    pub protocol: Seq<char>,
    pub status: int,
    pub message: Seq<char>,
    pub headers: Seq<HeaderView>,
    pub body: Seq<char>,
}

/// The separator between a header's key and its value.
pub open spec fn colon_space() -> Seq<char> {
    seq![':', ' ']
}

/// `<key>: <value>`
pub open spec fn header_line(h: HeaderView) -> Seq<char> {
    h.0 + colon_space() + h.1
}

pub open spec fn headers_view(hs: Seq<HttpHeader>) -> Seq<HeaderView> {
    hs.map_values(|h: HttpHeader| h@)
}

/// The lines of a message: its first line, one line per header, an empty
/// line, and the body.
pub open spec fn message_lines(
    first: Seq<char>,
    headers: Seq<HeaderView>,
    body: Seq<char>,
) -> Seq<Seq<char>> {
    seq![first] + headers.map_values(|h: HeaderView| header_line(h)) + seq![Seq::empty(), body]
}

/// `<METHOD> <PATH> HTTP/1.1`
pub open spec fn request_line(r: RequestView) -> Seq<char> {
    r.method + seq![' '] + r.path + seq![' ', 'H', 'T', 'T', 'P', '/', '1', '.', '1']
}

/// The wire text of a request: its lines joined with CRLF.
pub open spec fn request_text(r: RequestView) -> Seq<char> {
    join(message_lines(request_line(r), r.headers, r.body), crlf())
}

/// `<protocol> <status> <message>`
pub open spec fn status_line(m: ResponseView) -> Seq<char> {
    m.protocol + seq![' '] + decimal(m.status) + seq![' '] + m.message
}

/// The display text of a response: its lines joined with a newline.
pub open spec fn response_text(m: ResponseView) -> Seq<char> {
    join(message_lines(status_line(m), m.headers, m.body), seq!['\n'])
}

/// The wire text of a response: its lines joined with CRLF.
pub open spec fn response_wire_text(m: ResponseView) -> Seq<char> {
    join(message_lines(status_line(m), m.headers, m.body), crlf())
}

/// One header field; any text is taken verbatim.
pub struct HttpHeader {
    pub key: String,
    pub value: String,
}

impl View for HttpHeader {
    type V = HeaderView;

    open spec fn view(&self) -> HeaderView {
        (self.key@, self.value@)
    }
}

impl HttpHeader {
    pub fn new(key: &str, value: &str) -> (r: HttpHeader)
        ensures
            r@ == (key@, value@),
    {
        HttpHeader { key: key.to_owned(), value: value.to_owned() }
    }

    /// `<key>: <value>`
    pub fn to_string(&self) -> (r: String)
        ensures
            r@ == header_line(self@),
    {
        let mut out = self.key.clone();
        proof {
            reveal_strlit(": ");
        }
        out.append(": ");
        out.append(self.value.as_str());
        out
    }

    /// A header with the same key and value.
    pub fn duplicate(&self) -> (r: HttpHeader)
        ensures
            r@ == self@,
    {
        HttpHeader { key: self.key.clone(), value: self.value.clone() }
    }
}

/// A new vector holding the same headers in the same order.
pub fn copy_headers(hs: &Vec<HttpHeader>) -> (r: Vec<HttpHeader>)
    ensures
        headers_view(r@) == headers_view(hs@),
{
    let mut r: Vec<HttpHeader> = Vec::new();
    let mut i: usize = 0;
    while i < hs.len()
        invariant
            i <= hs@.len(),
            headers_view(r@) == headers_view(hs@.take(i as int)),
        decreases hs@.len() - i,
    {
        let ghost before = r@;
        let h = hs[i].duplicate();
        r.push(h);
        assert(hs@.take(i + 1) =~= hs@.take(i as int).push(hs@[i as int]));
        assert(headers_view(r@) =~= headers_view(before).push(h@));
        assert(headers_view(hs@.take(i + 1)) =~= headers_view(hs@.take(i as int)).push(
            hs@[i as int]@,
        ));
        i = i + 1;
    }
    assert(hs@.take(i as int) =~= hs@);
    r
}

/// The lines of a message joined with `sep`.
fn render_lines(first: String, headers: &Vec<HttpHeader>, body: &str, sep: &str) -> (r: String)
    ensures
        r@ == join(message_lines(first@, headers_view(headers@), body@), sep@),
{
    let ghost hv = headers_view(headers@);
    let ghost lines = message_lines(first@, hv, body@);
    let mut out = first;
    let mut i: usize = 0;
    assert(seq![first@] + hv.take(0).map_values(|h: HeaderView| header_line(h)) =~= seq![
        first@,
    ]);
    while i < headers.len()
        invariant
            i <= headers@.len(),
            hv == headers_view(headers@),
            out@ == join(
                seq![first@] + hv.take(i as int).map_values(|h: HeaderView| header_line(h)),
                sep@,
            ),
        decreases headers@.len() - i,
    {
        let line = headers[i].to_string();
        out.append(sep);
        out.append(line.as_str());
        proof {
            let before = seq![first@] + hv.take(i as int).map_values(
                |h: HeaderView| header_line(h),
            );
            let after = seq![first@] + hv.take(i + 1).map_values(|h: HeaderView| header_line(h));
            assert(after =~= before.push(line@));
            lemma_join_push(before, sep@, line@);
        }
        i = i + 1;
    }
    let ghost all = seq![first@] + hv.map_values(|h: HeaderView| header_line(h));
    assert(hv.take(i as int) =~= hv);
    proof {
        lemma_join_push(all, sep@, Seq::empty());
        lemma_join_push(all.push(Seq::empty()), sep@, body@);
        assert(lines =~= all.push(Seq::empty()).push(body@));
    }
    out.append(sep);
    out.append(sep);
    out.append(body);
    proof {
        assert(out@ =~= join(all, sep@) + sep@ + Seq::empty() + sep@ + body@);
    }
    out
}

/// An HTTP/1.1 request, produced by `RequestBuilder::finalize`.
pub struct Request {
    pub method: String,
    pub path: String,
    pub headers: Vec<HttpHeader>,
    pub body: String,
}

impl View for Request {
    type V = RequestView;

    open spec fn view(&self) -> RequestView {
        RequestView {
            method: self.method@,
            path: self.path@,
            headers: headers_view(self.headers@),
            body: self.body@,
        }
    }
}

impl Request {
    /// The headers, in the order they were added.
    pub fn get_headers(&self) -> (r: Vec<HttpHeader>)
        ensures
            headers_view(r@) == self@.headers,
    {
        copy_headers(&self.headers)
    }

    /// The wire text: request line, headers, an empty line and the body,
    /// joined with CRLF.
    pub fn to_string(&self) -> (r: String)
        ensures
            r@ == request_text(self@),
    {
        let mut first = self.method.clone();
        proof {
            reveal_strlit(" ");
            reveal_strlit(" HTTP/1.1");
            reveal_strlit("\r\n");
        }
        first.append(" ");
        first.append(self.path.as_str());
        first.append(" HTTP/1.1");
        assert(first@ =~= request_line(self@));
        let r = render_lines(first, &self.headers, self.body.as_str(), "\r\n");
        assert("\r\n"@ =~= crlf());
        r
    }
}

/// A persistent builder of requests: each setter returns a new builder with
/// one field replaced and leaves the receiver as it was.
pub struct RequestBuilder {
    pub method: String,
    pub path: String,
    pub headers: Vec<HttpHeader>,
    pub body: String,
}

impl View for RequestBuilder {
    type V = RequestView;

    open spec fn view(&self) -> RequestView {
        RequestView {
            method: self.method@,
            path: self.path@,
            headers: headers_view(self.headers@),
            body: self.body@,
        }
    }
}

impl RequestBuilder {
    /// Empty method, path, headers and body.
    pub fn new() -> (r: RequestBuilder)
        ensures
            r@ == (RequestView {
                method: Seq::empty(),
                path: Seq::empty(),
                headers: Seq::empty(),
                body: Seq::empty(),
            }),
    {
        let r = RequestBuilder {
            method: String::new(),
            path: String::new(),
            headers: Vec::new(),
            body: String::new(),
        };
        assert(r@.headers =~= Seq::empty());
        r
    }

    pub fn method(&self, method: &str) -> (r: RequestBuilder)
        ensures
            r@ == (RequestView { method: method@, ..self@ }),
    {
        RequestBuilder {
            method: method.to_owned(),
            path: self.path.clone(),
            headers: copy_headers(&self.headers),
            body: self.body.clone(),
        }
    }

    pub fn path(&self, path: &str) -> (r: RequestBuilder)
        ensures
            r@ == (RequestView { path: path@, ..self@ }),
    {
        RequestBuilder {
            method: self.method.clone(),
            path: path.to_owned(),
            headers: copy_headers(&self.headers),
            body: self.body.clone(),
        }
    }

    /// Appends one header after those already there; equal keys are kept.
    pub fn add_header(&self, key: &str, value: &str) -> (r: RequestBuilder)
        ensures
            r@ == (RequestView { headers: self@.headers.push((key@, value@)), ..self@ }),
    {
        let mut headers = copy_headers(&self.headers);
        headers.push(HttpHeader::new(key, value));
        let r = RequestBuilder {
            method: self.method.clone(),
            path: self.path.clone(),
            headers,
            body: self.body.clone(),
        };
        assert(r@.headers =~= self@.headers.push((key@, value@)));
        r
    }

    pub fn body(&self, body: &str) -> (r: RequestBuilder)
        ensures
            r@ == (RequestView { body: body@, ..self@ }),
    {
        RequestBuilder {
            method: self.method.clone(),
            path: self.path.clone(),
            headers: copy_headers(&self.headers),
            body: body.to_owned(),
        }
    }

    /// A request holding the builder's current fields.
    pub fn finalize(&self) -> (r: Request)
        ensures
            r@ == self@,
    {
        Request {
            method: self.method.clone(),
            path: self.path.clone(),
            headers: copy_headers(&self.headers),
            body: self.body.clone(),
        }
    }
}

/// Why a response could not be read.
#[derive(Debug, Clone, Copy, PartialEq, Eq, Structural)]
pub enum ResponseError {
    /// No empty line after the head, a status line with fewer than three
    /// parts, or a header line without `": "`.
    MalformedResponse,
    /// The status code is not an `i32` in decimal.
    ParseError,
}

/// An HTTP/1.1 response.
pub struct Response {
    pub protocol: String,
    pub status: i32,
    pub message: String,
    pub headers: Vec<HttpHeader>,
    pub body: String,
}

impl View for Response {
    type V = ResponseView;

    open spec fn view(&self) -> ResponseView {
        ResponseView {
            protocol: self.protocol@,
            status: self.status as int,
            message: self.message@,
            headers: headers_view(self.headers@),
            body: self.body@,
        }
    }
}

impl Response {
    /// The display text: status line, headers, an empty line and the body,
    /// joined with a newline.
    pub fn to_string(&self) -> (r: String)
        ensures
            r@ == response_text(self@),
    {
        let mut first = self.protocol.clone();
        proof {
            reveal_strlit(" ");
            reveal_strlit("\n");
        }
        first.append(" ");
        push_decimal(&mut first, self.status);
        first.append(" ");
        first.append(self.message.as_str());
        assert(first@ =~= status_line(self@));
        let r = render_lines(first, &self.headers, self.body.as_str(), "\n");
        assert("\n"@ =~= seq!['\n']);
        r
    }
}

/// A persistent builder of responses: each setter returns a new builder with
/// one field replaced and leaves the receiver as it was.
pub struct ResponseBuilder {
    pub protocol: String,
    pub status: i32,
    pub message: String,
    pub headers: Vec<HttpHeader>,
    pub body: String,
}

impl View for ResponseBuilder {
    type V = ResponseView;

    open spec fn view(&self) -> ResponseView {
        ResponseView {
            protocol: self.protocol@,
            status: self.status as int,
            message: self.message@,
            headers: headers_view(self.headers@),
            body: self.body@,
        }
    }
}

impl ResponseBuilder {
    /// Empty protocol, message, headers and body; status zero.
    pub fn new() -> (r: ResponseBuilder)
        ensures
            r@ == (ResponseView {
                protocol: Seq::empty(),
                status: 0,
                message: Seq::empty(),
                headers: Seq::empty(),
                body: Seq::empty(),
            }),
    {
        let r = ResponseBuilder {
            protocol: String::new(),
            status: 0,
            message: String::new(),
            headers: Vec::new(),
            body: String::new(),
        };
        assert(r@.headers =~= Seq::empty());
        r
    }

    pub fn protocol(&self, protocol: &str) -> (r: ResponseBuilder)
        ensures
            r@ == (ResponseView { protocol: protocol@, ..self@ }),
    {
        ResponseBuilder {
            protocol: protocol.to_owned(),
            status: self.status,
            message: self.message.clone(),
            headers: copy_headers(&self.headers),
            body: self.body.clone(),
        }
    }

    /// Sets the status from its decimal text; fails with `ParseError` where
    /// the text is not an `i32`.
    pub fn status(&self, status: &str) -> (r: Result<ResponseBuilder, ResponseError>)
        ensures
            match i32_value(status@) {
                Some(v) => r matches Ok(b) && b@ == (ResponseView { status: v, ..self@ }),
                None => r == Err::<ResponseBuilder, ResponseError>(ResponseError::ParseError),
            },
    {
        match parse_i32(status) {
            Some(v) => Ok(
                ResponseBuilder {
                    protocol: self.protocol.clone(),
                    status: v,
                    message: self.message.clone(),
                    headers: copy_headers(&self.headers),
                    body: self.body.clone(),
                },
            ),
            None => Err(ResponseError::ParseError),
        }
    }

    pub fn message(&self, message: &str) -> (r: ResponseBuilder)
        ensures
            r@ == (ResponseView { message: message@, ..self@ }),
    {
        ResponseBuilder {
            protocol: self.protocol.clone(),
            status: self.status,
            message: message.to_owned(),
            headers: copy_headers(&self.headers),
            body: self.body.clone(),
        }
    }

    /// Appends one header after those already there; equal keys are kept.
    pub fn add_header(&self, key: &str, value: &str) -> (r: ResponseBuilder)
        ensures
            r@ == (ResponseView { headers: self@.headers.push((key@, value@)), ..self@ }),
    {
        let mut headers = copy_headers(&self.headers);
        headers.push(HttpHeader::new(key, value));
        let r = ResponseBuilder {
            protocol: self.protocol.clone(),
            status: self.status,
            message: self.message.clone(),
            headers,
            body: self.body.clone(),
        };
        assert(r@.headers =~= self@.headers.push((key@, value@)));
        r
    }

    pub fn body(&self, body: &str) -> (r: ResponseBuilder)
        ensures
            r@ == (ResponseView { body: body@, ..self@ }),
    {
        ResponseBuilder {
            protocol: self.protocol.clone(),
            status: self.status,
            message: self.message.clone(),
            headers: copy_headers(&self.headers),
            body: body.to_owned(),
        }
    }

    /// A response holding the builder's current fields.
    pub fn finalize(&self) -> (r: Response)
        ensures
            r@ == self@,
    {
        Response {
            protocol: self.protocol.clone(),
            status: self.status,
            message: self.message.clone(),
            headers: copy_headers(&self.headers),
            body: self.body.clone(),
        }
    }
}

} // verus!
