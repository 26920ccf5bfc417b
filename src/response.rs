//! Responses: a builder that accumulates status, headers and body, and turns
//! them into wire bytes, compressing the body with gzip where that pays.
use vstd::prelude::*;
use vstd::utf8::encode_utf8;

use crate::request::bytes_of;
use crate::text::{chars_of, find, find_in, lower_of, lowercase, str_eq, string_of};

verus! {

/// The decimal digit for `d`.
pub open spec fn digit(d: nat) -> char {
    if d == 0 {
        '0'
    } else if d == 1 {
        '1'
    } else if d == 2 {
        '2'
    } else if d == 3 {
        '3'
    } else if d == 4 {
        '4'
    } else if d == 5 {
        '5'
    } else if d == 6 {
        '6'
    } else if d == 7 {
        '7'
    } else if d == 8 {
        '8'
    } else {
        '9'
    }
}

/// The decimal representation of `n`, without leading zeros.
pub open spec fn dec(n: nat) -> Seq<char>
    decreases n,
{
    if n < 10 {
        seq![digit(n)]
    } else {
        dec(n / 10).push(digit(n % 10))
    }
}

fn digit_char(d: usize) -> (r: char)
    requires
        d < 10,
    ensures
        r == digit(d as nat),
{
    if d == 0 {
        '0'
    } else if d == 1 {
        '1'
    } else if d == 2 {
        '2'
    } else if d == 3 {
        '3'
    } else if d == 4 {
        '4'
    } else if d == 5 {
        '5'
    } else if d == 6 {
        '6'
    } else if d == 7 {
        '7'
    } else if d == 8 {
        '8'
    } else {
        '9'
    }
}

/// Appends the decimal digits of `n`.
pub fn push_decimal(out: &mut Vec<char>, n: usize)
    ensures
        final(out)@ == old(out)@ + dec(n as nat),
    decreases n,
{
    if n >= 10 {
        push_decimal(out, n / 10);
    }
    out.push(digit_char(n % 10));
    assert(final(out)@ =~= old(out)@ + dec(n as nat));
}

/// The decimal representation of `n`.
pub fn decimal(n: usize) -> (r: String)
    ensures
        r@ == dec(n as nat),
{
    let mut v: Vec<char> = Vec::new();
    push_decimal(&mut v, n);
    assert(v@ =~= dec(n as nat));
    string_of(v.as_slice())
}

/// What a response builder holds, as mathematical values.
pub ghost struct ResponseView {
    pub status_line: Seq<char>,
    pub headers: Seq<(Seq<char>, Seq<char>)>,
    pub body: Seq<u8>,
}

/// The status line for a code and its reason phrase.
pub open spec fn status_line_of(code: u16, reason: Seq<char>) -> Seq<char> {
    "HTTP/1.1 "@ + dec(code as nat) + seq![' '] + reason
}

/// The body size above which a response may be compressed.
pub const MIN_COMPRESS_SIZE: usize = 1400;

/// The content types whose bodies may be compressed.
pub open spec fn compressible(v: Seq<char>) -> bool {
    v == "text/plain"@ || v == "text/html"@ || v == "text/css"@ || v == "application/json"@
}

/// A `Content-Type` header with a compressible type was set.
pub open spec fn has_compressible_type(hs: Seq<(Seq<char>, Seq<char>)>) -> bool {
    exists|i: int| 0 <= i < hs.len() && (#[trigger] hs[i]).0 == "Content-Type"@ && compressible(hs[i].1)
}

/// The value of the first header named `k`.
pub open spec fn first_value(hs: Seq<(Seq<char>, Seq<char>)>, k: Seq<char>) -> Option<Seq<char>>
    decreases hs.len(),
{
    if hs.len() == 0 {
        None
    } else if hs[0].0 == k {
        Some(hs[0].1)
    } else {
        first_value(hs.drop_first(), k)
    }
}

/// The first `Accept-Encoding` header mentions gzip, in any letter case.
pub open spec fn accepts_gzip(hs: Seq<(Seq<char>, Seq<char>)>) -> bool {
    match first_value(hs, "Accept-Encoding"@) {
        Some(v) => find(lower_of(v), "gzip"@) >= 0,
        None => false,
    }
}

/// The response is eligible for compression.
pub open spec fn should_compress(v: ResponseView) -> bool {
    has_compressible_type(v.headers) && v.body.len() > MIN_COMPRESS_SIZE && accepts_gzip(v.headers)
}

/// The headers without those named `k`.
pub open spec fn without_key(hs: Seq<(Seq<char>, Seq<char>)>, k: Seq<char>) -> Seq<(Seq<char>, Seq<char>)>
    decreases hs.len(),
{
    if hs.len() == 0 {
        seq![]
    } else if hs.last().0 == k {
        without_key(hs.drop_last(), k)
    } else {
        without_key(hs.drop_last(), k).push(hs.last())
    }
}

/// The response with its body replaced by the compressed bytes `c`.
pub open spec fn compressed_view(v: ResponseView, c: Seq<u8>) -> ResponseView {
    ResponseView {
        status_line: v.status_line,
        headers: without_key(v.headers.push(("Content-Encoding"@, "gzip"@)), "Content-Length"@).push(
            ("Content-Length"@, dec(c.len())),
        ),
        body: c,
    }
}

/// The response that is sent, given what compression produced: the
/// compressed form only where the response is eligible and the compressed
/// body is strictly smaller.
pub open spec fn sent_view(v: ResponseView, compressed: Option<Seq<u8>>) -> ResponseView {
    match compressed {
        Some(c) => if should_compress(v) && c.len() < v.body.len() {
            compressed_view(v, c)
        } else {
            v
        },
        None => v,
    }
}

pub open spec fn crlf() -> Seq<u8> {
    seq![13u8, 10u8]
}

/// The header lines on the wire, in order.
pub open spec fn header_bytes(hs: Seq<(Seq<char>, Seq<char>)>) -> Seq<u8>
    decreases hs.len(),
{
    if hs.len() == 0 {
        seq![]
    } else {
        header_bytes(hs.drop_last()) + encode_utf8(hs.last().0) + seq![58u8, 32u8] + encode_utf8(
            hs.last().1,
        ) + crlf()
    }
}

/// A response on the wire: status line, header lines, a blank line, the body.
pub open spec fn wire(v: ResponseView) -> Seq<u8> {
    encode_utf8(v.status_line) + crlf() + header_bytes(v.headers) + crlf() + v.body
}

/// A name for the gzip stream that flate2 writes for the given bytes.
pub uninterp spec fn gzip_of(b: Seq<u8>) -> Seq<u8>;

/// Relies on flate2's `GzEncoder` at the default level, writing into a
/// `Vec`: the gzip stream for the bytes, with a header that holds no time
/// stamp. Writing into a `Vec` does not fail, and a fresh compressor reports
/// an error only for a corrupt stream, so a stream always comes back.
#[verifier::external_body]
fn gzip(b: &[u8]) -> (r: Option<Vec<u8>>)
    ensures
        r is Some,
        r->0@ == gzip_of(b@),
{
    let mut encoder = flate2::write::GzEncoder::new(Vec::new(), flate2::Compression::default());
    std::io::Write::write_all(&mut encoder, b).and_then(|_| encoder.finish()).ok()
}

/// Appends the bytes of `b`.
fn append_bytes(out: &mut Vec<u8>, b: &Vec<u8>)
    ensures
        final(out)@ == old(out)@ + b@,
{
    let mut i: usize = 0;
    while i < b.len()
        invariant
            i <= b@.len(),
            out@ == old(out)@ + b@.subrange(0, i as int),
        decreases b.len() - i,
    {
        out.push(b[i]);
        i = i + 1;
        assert(out@ =~= old(out)@ + b@.subrange(0, i as int));
    }
    assert(b@.subrange(0, b@.len() as int) =~= b@);
}

pub struct ResponseBuilder {
    status_line: String,
    headers: Vec<(String, String)>,
    body: Vec<u8>,
}

/// The headers as character sequences.
pub open spec fn header_view(hs: Seq<(String, String)>) -> Seq<(Seq<char>, Seq<char>)> {
    hs.map_values(|p: (String, String)| (p.0@, p.1@))
}

impl View for ResponseBuilder {
    type V = ResponseView;

    closed spec fn view(&self) -> ResponseView {
        ResponseView {
            status_line: self.status_line@,
            headers: header_view(self.headers@),
            body: self.body@,
        }
    }
}

/// The view after a header is added.
pub open spec fn with_header(v: ResponseView, k: Seq<char>, val: Seq<char>) -> ResponseView {
    ResponseView { headers: v.headers.push((k, val)), ..v }
}

/// The view after the body is set: the body, and a `Content-Length` header
/// with its length.
pub open spec fn with_body(v: ResponseView, b: Seq<u8>) -> ResponseView {
    ResponseView { headers: v.headers.push(("Content-Length"@, dec(b.len()))), body: b, ..v }
}

/// A plain-text response with the given status and message.
pub open spec fn text_view(code: u16, reason: Seq<char>, content_type: Seq<char>, msg: Seq<char>) -> ResponseView {
    with_body(
        with_header(
            ResponseView { status_line: status_line_of(code, reason), headers: seq![], body: seq![] },
            "Content-Type"@,
            content_type,
        ),
        encode_utf8(msg),
    )
}

/// A response that carries only a `Content-Type` and a `Content-Length`
/// header has no `Accept-Encoding` header, so it is never compressed.
pub proof fn lemma_typed_body_plain(status_line: Seq<char>, content_type: Seq<char>, body: Seq<u8>)
    ensures
        !should_compress(
            with_body(
                with_header(
                    ResponseView { status_line, headers: seq![], body: seq![] },
                    "Content-Type"@,
                    content_type,
                ),
                body,
            ),
        ),
{
    let hs = with_body(
        with_header(
            ResponseView { status_line, headers: seq![], body: seq![] },
            "Content-Type"@,
            content_type,
        ),
        body,
    ).headers;
    reveal_strlit("Content-Type");
    reveal_strlit("Content-Length");
    reveal_strlit("Accept-Encoding");
    assert(hs[0].0 != "Accept-Encoding"@) by {
        assert(hs[0].0[0] != "Accept-Encoding"@[0]);
    }
    assert(hs[1].0 != "Accept-Encoding"@) by {
        assert(hs[1].0[0] != "Accept-Encoding"@[0]);
    }
    assert(hs.drop_first()[0] == hs[1]);
    assert(hs.drop_first().drop_first().len() == 0);
    assert(first_value(hs.drop_first().drop_first(), "Accept-Encoding"@) is None);
    assert(first_value(hs.drop_first(), "Accept-Encoding"@) is None);
}

/// A response made by `text`, `json` or `html` on a fresh builder is never
/// compressed.
pub proof fn lemma_text_view_plain(code: u16, reason: Seq<char>, content_type: Seq<char>, msg: Seq<char>)
    ensures
        !should_compress(text_view(code, reason, content_type, msg)),
{
    lemma_typed_body_plain(status_line_of(code, reason), content_type, encode_utf8(msg));
}

/// Dropping the headers named `k` leaves none of them and keeps the others.
pub proof fn lemma_without_key(hs: Seq<(Seq<char>, Seq<char>)>, k: Seq<char>)
    ensures
        forall|i: int| 0 <= i < without_key(hs, k).len() ==> (#[trigger] without_key(hs, k)[i]).0 != k,
        forall|j: int| 0 <= j < hs.len() && (#[trigger] hs[j]).0 != k ==> without_key(hs, k).contains(hs[j]),
    decreases hs.len(),
{
    if hs.len() > 0 {
        let d = hs.drop_last();
        lemma_without_key(d, k);
        assert forall|j: int| 0 <= j < hs.len() && (#[trigger] hs[j]).0 != k implies without_key(hs, k).contains(hs[j]) by {
            if j < d.len() {
                assert(d[j] == hs[j]);
                let w = without_key(d, k);
                let x = choose|x: int| 0 <= x < w.len() && w[x] == d[j];
                if hs.last().0 != k {
                    assert(without_key(hs, k)[x] == w[x]);
                }
            } else {
                assert(without_key(hs, k).last() == hs[j]);
            }
        }
    }
}

/// Compression is applied exactly when the response is eligible (a
/// compressible `Content-Type`, a body over the threshold, gzip accepted)
/// and the compressed body is strictly smaller. Then the body is the
/// compressed one, `Content-Encoding: gzip` is set, and the one
/// `Content-Length` header, the last, gives the compressed length.
/// Otherwise the response is sent as it was built.
pub proof fn lemma_compression_rule(v: ResponseView, c: Seq<u8>)
    ensures
        !(should_compress(v) && c.len() < v.body.len()) ==> sent_view(v, Some(c)) == v,
        should_compress(v) && c.len() < v.body.len() ==> ({
            let s = sent_view(v, Some(c));
            &&& s.body == c
            &&& s.status_line == v.status_line
            &&& s.headers.contains(("Content-Encoding"@, "gzip"@))
            &&& s.headers.last() == ("Content-Length"@, dec(c.len()))
            &&& forall|i: int| 0 <= i < s.headers.len() - 1 ==> (#[trigger] s.headers[i]).0 != "Content-Length"@
        }),
{
    if should_compress(v) && c.len() < v.body.len() {
        let hs = v.headers.push(("Content-Encoding"@, "gzip"@));
        lemma_without_key(hs, "Content-Length"@);
        let w = without_key(hs, "Content-Length"@);
        let s = sent_view(v, Some(c));
        assert(s.headers == w.push(("Content-Length"@, dec(c.len()))));
        reveal_strlit("Content-Encoding");
        reveal_strlit("Content-Length");
        assert(hs[hs.len() - 1].0 != "Content-Length"@) by {
            assert(hs[hs.len() - 1].0[8] != "Content-Length"@[8]);
        }
        let x = choose|x: int| 0 <= x < w.len() && w[x] == hs[hs.len() - 1];
        assert(s.headers[x] == ("Content-Encoding"@, "gzip"@));
        assert forall|i: int| 0 <= i < s.headers.len() - 1 implies (#[trigger] s.headers[i]).0 != "Content-Length"@ by {
            assert(s.headers[i] == w[i]);
        }
    }
}

impl ResponseBuilder {
    pub const OK: (u16, &'static str) = (200, "OK");
    pub const CREATED: (u16, &'static str) = (201, "Created");
    pub const UPDATED: (u16, &'static str) = (200, "Success");
    pub const NO_CONTENT: (u16, &'static str) = (204, "No Content");
    pub const DELETED: (u16, &'static str) = (200, "Success");
    pub const NOT_FOUND: (u16, &'static str) = (404, "Not Found");
    pub const BAD_REQUEST: (u16, &'static str) = (400, "Bad Request");
    pub const INTERNAL_SERVER_ERROR: (u16, &'static str) = (500, "Internal Server Error");
    pub const PLAIN: &'static str = "text/plain";
    pub const HTML: &'static str = "text/html";
    pub const JSON: &'static str = "application/json";

    /// A builder with no status line, no headers and no body.
    pub fn new() -> (r: ResponseBuilder)
        ensures
            r@ == (ResponseView { status_line: seq![], headers: seq![], body: seq![] }),
    {
        let r = ResponseBuilder { status_line: String::new(), headers: Vec::new(), body: Vec::new() };
        assert(header_view(r.headers@) =~= seq![]);
        r
    }

    /// Sets the status line from a code and its reason phrase.
    pub fn status(self, status: (u16, &str)) -> (r: ResponseBuilder)
        ensures
            r@ == (ResponseView { status_line: status_line_of(status.0, status.1@), ..self@ }),
    {
        let mut line = chars_of("HTTP/1.1 ");
        push_decimal(&mut line, status.0 as usize);
        line.push(' ');
        let reason = chars_of(status.1);
        let ghost start = line@;
        let mut i: usize = 0;
        while i < reason.len()
            invariant
                i <= reason@.len(),
                line@ == start + reason@.subrange(0, i as int),
            decreases reason.len() - i,
        {
            line.push(reason[i]);
            i = i + 1;
            assert(line@ =~= start + reason@.subrange(0, i as int));
        }
        assert(line@ =~= status_line_of(status.0, status.1@));
        ResponseBuilder { status_line: string_of(line.as_slice()), headers: self.headers, body: self.body }
    }

    /// Adds a header after those already set.
    pub fn header(self, key: &str, value: &str) -> (r: ResponseBuilder)
        ensures
            r@ == with_header(self@, key@, value@),
    {
        let mut headers = self.headers;
        let ghost before = headers@;
        headers.push((string_of(chars_of(key).as_slice()), string_of(chars_of(value).as_slice())));
        assert(header_view(headers@) =~= header_view(before).push((key@, value@)));
        ResponseBuilder { status_line: self.status_line, headers, body: self.body }
    }

    /// Adds a `Content-Type` header.
    pub fn content_type(self, content_type: &str) -> (r: ResponseBuilder)
        ensures
            r@ == with_header(self@, "Content-Type"@, content_type@),
    {
        self.header("Content-Type", content_type)
    }

    /// Sets the body and adds a `Content-Length` header with its length.
    pub fn body(self, body: Vec<u8>) -> (r: ResponseBuilder)
        ensures
            r@ == with_body(self@, body@),
    {
        let length = decimal(body.len());
        let b = ResponseBuilder { status_line: self.status_line, headers: self.headers, body };
        b.header("Content-Length", length.as_str())
    }

    /// A `text/plain` body.
    pub fn text(self, body: &str) -> (r: ResponseBuilder)
        ensures
            r@ == with_body(with_header(self@, "Content-Type"@, "text/plain"@), encode_utf8(body@)),
    {
        self.content_type(Self::PLAIN).body(bytes_of(body))
    }

    /// An `application/json` body.
    pub fn json(self, body: &str) -> (r: ResponseBuilder)
        ensures
            r@ == with_body(with_header(self@, "Content-Type"@, "application/json"@), encode_utf8(body@)),
    {
        self.content_type(Self::JSON).body(bytes_of(body))
    }

    /// A `text/html` body.
    pub fn html(self, body: &str) -> (r: ResponseBuilder)
        ensures
            r@ == with_body(with_header(self@, "Content-Type"@, "text/html"@), encode_utf8(body@)),
    {
        self.content_type(Self::HTML).body(bytes_of(body))
    }

    /// The value of the first `Accept-Encoding` header.
    fn get_accepted_encoding(&self) -> (r: Option<&String>)
        ensures
            r is None ==> first_value(self@.headers, "Accept-Encoding"@) is None,
            r is Some ==> first_value(self@.headers, "Accept-Encoding"@) == Some(r->0@),
    {
        let ghost hs = self@.headers;
        let mut i: usize = 0;
        assert(hs.skip(0) =~= hs);
        while i < self.headers.len()
            invariant
                i <= self.headers@.len(),
                hs == self@.headers,
                first_value(hs, "Accept-Encoding"@) == first_value(hs.skip(i as int), "Accept-Encoding"@),
            decreases self.headers.len() - i,
        {
            assert(hs.skip(i as int)[0] == hs[i as int]);
            if str_eq(self.headers[i].0.as_str(), "Accept-Encoding") {
                return Some(&self.headers[i].1);
            }
            assert(hs.skip(i as int).drop_first() =~= hs.skip(i + 1));
            i = i + 1;
        }
        assert(hs.skip(i as int) =~= seq![]);
        None
    }

    /// Whether a `Content-Type` header with a compressible type was set.
    fn has_compressible_type(&self) -> (r: bool)
        ensures
            r == has_compressible_type(self@.headers),
    {
        let ghost hs = self@.headers;
        let mut i: usize = 0;
        while i < self.headers.len()
            invariant
                i <= self.headers@.len(),
                hs == self@.headers,
                forall|j: int| 0 <= j < i ==> !((#[trigger] hs[j]).0 == "Content-Type"@ && compressible(hs[j].1)),
            decreases self.headers.len() - i,
        {
            let k = self.headers[i].0.as_str();
            let v = self.headers[i].1.as_str();
            assert(hs[i as int] == (k@, v@));
            if str_eq(k, "Content-Type") && (str_eq(v, "text/plain") || str_eq(v, "text/html")
                || str_eq(v, "text/css") || str_eq(v, "application/json")) {
                return true;
            }
            i = i + 1;
        }
        false
    }

    /// Whether the response is eligible for compression.
    fn should_compress(&self) -> (r: bool)
        ensures
            r == should_compress(self@),
    {
        if !self.has_compressible_type() || self.body.len() <= MIN_COMPRESS_SIZE {
            return false;
        }
        match self.get_accepted_encoding() {
            Some(enc) => {
                let low = lowercase(enc.as_str());
                let cs = chars_of(low.as_str());
                let pat = chars_of("gzip");
                assert(cs@.subrange(0, cs@.len() as int) =~= cs@);
                find_in(&cs, 0, cs.len(), &pat).is_some()
            },
            None => false,
        }
    }

    /// The headers without those named `k`.
    fn drop_header(headers: Vec<(String, String)>, k: &str) -> (r: Vec<(String, String)>)
        ensures
            header_view(r@) == without_key(header_view(headers@), k@),
    {
        let ghost hs = header_view(headers@);
        let mut out: Vec<(String, String)> = Vec::new();
        let mut i: usize = 0;
        while i < headers.len()
            invariant
                i <= headers@.len(),
                hs == header_view(headers@),
                header_view(out@) == without_key(hs.take(i as int), k@),
            decreases headers.len() - i,
        {
            let a = &headers[i].0;
            let b = &headers[i].1;
            let ghost before = out@;
            proof {
                let t = hs.take(i + 1);
                assert(t.drop_last() =~= hs.take(i as int));
                assert(t.last() == (a@, b@));
            }
            if !str_eq(a.as_str(), k) {
                out.push((a.clone(), b.clone()));
                assert(header_view(out@) =~= header_view(before).push((a@, b@)));
            }
            i = i + 1;
        }
        assert(hs.take(headers@.len() as int) =~= hs);
        out
    }

    /// Appends the header lines to `out`.
    fn put_headers(out: &mut Vec<u8>, headers: &Vec<(String, String)>)
        ensures
            final(out)@ == old(out)@ + header_bytes(header_view(headers@)),
    {
        let ghost hs = header_view(headers@);
        let mut i: usize = 0;
        while i < headers.len()
            invariant
                i <= headers@.len(),
                hs == header_view(headers@),
                out@ == old(out)@ + header_bytes(hs.take(i as int)),
            decreases headers.len() - i,
        {
            let ghost before = out@;
            append_bytes(out, &bytes_of(headers[i].0.as_str()));
            out.push(58u8);
            out.push(32u8);
            append_bytes(out, &bytes_of(headers[i].1.as_str()));
            out.push(13u8);
            out.push(10u8);
            proof {
                let t = hs.take(i + 1);
                assert(t.drop_last() =~= hs.take(i as int));
                assert(t.last() == (headers@[i as int].0@, headers@[i as int].1@));
                assert(out@ =~= old(out)@ + header_bytes(t));
            }
            i = i + 1;
        }
        assert(hs.take(headers@.len() as int) =~= hs);
    }

    /// The wire bytes of the response, with the compressed body `compressed`
    /// put in where the response is eligible and the compressed body is
    /// strictly smaller.
    pub fn finish_with(self, compressed: Option<Vec<u8>>) -> (r: Vec<u8>)
        ensures
            r@ == wire(
                sent_view(
                    self@,
                    match compressed {
                        Some(c) => Some(c@),
                        None => None,
                    },
                ),
            ),
    {
        let eligible = self.should_compress();
        let ghost v = self@;
        let ResponseBuilder { status_line, headers, body } = self;
        let mut hs = headers;
        let mut bd = body;
        match compressed {
            Some(c) => {
                if eligible && c.len() < bd.len() {
                    let clen = c.len();
                    let ghost h0 = hs@;
                    hs.push(("Content-Encoding".to_owned(), "gzip".to_owned()));
                    assert(header_view(hs@) =~= header_view(h0).push(("Content-Encoding"@, "gzip"@)));
                    hs = Self::drop_header(hs, "Content-Length");
                    let ghost h1 = hs@;
                    hs.push(("Content-Length".to_owned(), decimal(clen)));
                    assert(header_view(hs@) =~= header_view(h1).push(("Content-Length"@, dec(clen as nat))));
                    bd = c;
                }
            },
            None => {},
        }
        let mut out = bytes_of(status_line.as_str());
        out.push(13u8);
        out.push(10u8);
        Self::put_headers(&mut out, &hs);
        out.push(13u8);
        out.push(10u8);
        append_bytes(&mut out, &bd);
        assert(out@ =~= wire(ResponseView { status_line: status_line@, headers: header_view(hs@), body: bd@ }));
        out
    }

    /// The wire bytes of the response. Where the response is eligible for
    /// compression and the gzip stream of the body is strictly smaller than
    /// the body, that stream is sent in its place, under `Content-Encoding:
    /// gzip` and a `Content-Length` that gives its length.
    pub fn build(self) -> (r: Vec<u8>)
        ensures
            r@ == wire(sent_view(self@, Some(gzip_of(self@.body)))),
    {
        if self.should_compress() {
            let compressed = gzip(self.body.as_slice());
            self.finish_with(compressed)
        } else {
            self.finish_with(None)
        }
    }

    /// A `200 OK` plain-text response.
    pub fn ok_response(message: &str) -> (r: Vec<u8>)
        ensures
            r@ == wire(text_view(200, "OK"@, "text/plain"@, message@)),
    {
        proof {
            lemma_text_view_plain(200, "OK"@, "text/plain"@, message@);
        }
        Self::new().status(Self::OK).text(message).build()
    }

    /// A `201 Created` plain-text response.
    pub fn created_response(message: &str) -> (r: Vec<u8>)
        ensures
            r@ == wire(text_view(201, "Created"@, "text/plain"@, message@)),
    {
        proof {
            lemma_text_view_plain(201, "Created"@, "text/plain"@, message@);
        }
        Self::new().status(Self::CREATED).text(message).build()
    }

    /// A `404 Not Found` plain-text response.
    pub fn not_found_response(message: &str) -> (r: Vec<u8>)
        ensures
            r@ == wire(text_view(404, "Not Found"@, "text/plain"@, message@)),
    {
        proof {
            lemma_text_view_plain(404, "Not Found"@, "text/plain"@, message@);
        }
        Self::new().status(Self::NOT_FOUND).text(message).build()
    }

    /// A `400 Bad Request` plain-text response.
    pub fn bad_request_response(message: &str) -> (r: Vec<u8>)
        ensures
            r@ == wire(text_view(400, "Bad Request"@, "text/plain"@, message@)),
    {
        proof {
            lemma_text_view_plain(400, "Bad Request"@, "text/plain"@, message@);
        }
        Self::new().status(Self::BAD_REQUEST).text(message).build()
    }

    /// A `500 Internal Server Error` plain-text response.
    pub fn server_error_response(message: &str) -> (r: Vec<u8>)
        ensures
            r@ == wire(text_view(500, "Internal Server Error"@, "text/plain"@, message@)),
    {
        proof {
            lemma_text_view_plain(500, "Internal Server Error"@, "text/plain"@, message@);
        }
        Self::new().status(Self::INTERNAL_SERVER_ERROR).text(message).build()
    }

    /// A `200 OK` JSON response.
    pub fn ok_json(json: &str) -> (r: Vec<u8>)
        ensures
            r@ == wire(text_view(200, "OK"@, "application/json"@, json@)),
    {
        proof {
            lemma_text_view_plain(200, "OK"@, "application/json"@, json@);
        }
        Self::new().status(Self::OK).json(json).build()
    }

    /// A `404 Not Found` JSON response.
    pub fn not_found_json(json: &str) -> (r: Vec<u8>)
        ensures
            r@ == wire(text_view(404, "Not Found"@, "application/json"@, json@)),
    {
        proof {
            lemma_text_view_plain(404, "Not Found"@, "application/json"@, json@);
        }
        Self::new().status(Self::NOT_FOUND).json(json).build()
    }

    /// `404 Not Found` with the message `Resource not found`.
    pub fn default_not_found() -> (r: Vec<u8>)
        ensures
            r@ == wire(text_view(404, "Not Found"@, "text/plain"@, "Resource not found"@)),
    {
        Self::not_found_response("Resource not found")
    }

    /// `400 Bad Request` with the message `Bad request`.
    pub fn default_bad_request() -> (r: Vec<u8>)
        ensures
            r@ == wire(text_view(400, "Bad Request"@, "text/plain"@, "Bad request"@)),
    {
        Self::bad_request_response("Bad request")
    }

    /// `500 Internal Server Error` with the message `Internal server error`.
    pub fn default_server_error() -> (r: Vec<u8>)
        ensures
            r@ == wire(text_view(500, "Internal Server Error"@, "text/plain"@, "Internal server error"@)),
    {
        Self::server_error_response("Internal server error")
    }

    /// A builder with the status `200 OK`.
    pub fn ok() -> (r: ResponseBuilder)
        ensures
            r@ == (ResponseView { status_line: status_line_of(200, "OK"@), headers: seq![], body: seq![] }),
    {
        Self::new().status(Self::OK)
    }

    /// A builder with the status `200 Success`.
    pub fn deleted() -> (r: ResponseBuilder)
        ensures
            r@ == (ResponseView { status_line: status_line_of(200, "Success"@), headers: seq![], body: seq![] }),
    {
        Self::new().status(Self::DELETED)
    }

    /// A builder with the status `201 Created`.
    pub fn created() -> (r: ResponseBuilder)
        ensures
            r@ == (ResponseView { status_line: status_line_of(201, "Created"@), headers: seq![], body: seq![] }),
    {
        Self::new().status(Self::CREATED)
    }

    /// A builder with the status `404 Not Found`.
    pub fn not_found() -> (r: ResponseBuilder)
        ensures
            r@ == (ResponseView { status_line: status_line_of(404, "Not Found"@), headers: seq![], body: seq![] }),
    {
        Self::new().status(Self::NOT_FOUND)
    }

    /// A builder with the status `400 Bad Request`.
    pub fn bad_request() -> (r: ResponseBuilder)
        ensures
            r@ == (ResponseView { status_line: status_line_of(400, "Bad Request"@), headers: seq![], body: seq![] }),
    {
        Self::new().status(Self::BAD_REQUEST)
    }

    /// A builder with the status `500 Internal Server Error`.
    pub fn server_error() -> (r: ResponseBuilder)
        ensures
            r@ == (ResponseView {
                status_line: status_line_of(500, "Internal Server Error"@),
                headers: seq![],
                body: seq![],
            }),
    {
        Self::new().status(Self::INTERNAL_SERVER_ERROR)
    }
}

} // verus!
