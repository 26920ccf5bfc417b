//! HTTP requests: the method, and the parser from raw bytes.
use vstd::prelude::*;
use vstd::utf8::{decode_utf8, valid_utf8, encode_utf8};

use crate::strmap::StrMap;
use crate::text::{
    char_is_space, chars_of, find, find_in, is_ascii_upper, is_space, lemma_find_bounds, lower_of,
    lowercase, spans, split, str_eq, substring, trim, trimmed, upper_of, uppercase, words,
};

verus! {

#[derive(Debug, Clone, Copy, PartialEq, Eq, Structural)]
pub enum HttpMethod {
    Get,
    Post,
    Put,
    Patch,
    Delete,
    Unknown,
}

/// The method that an upper-cased method token names.
pub open spec fn method_of(s: Seq<char>) -> HttpMethod {
    if s == "GET"@ {
        HttpMethod::Get
    } else if s == "POST"@ {
        HttpMethod::Post
    } else if s == "PUT"@ {
        HttpMethod::Put
    } else if s == "PATCH"@ {
        HttpMethod::Patch
    } else if s == "DELETE"@ {
        HttpMethod::Delete
    } else {
        HttpMethod::Unknown
    }
}

/// The name of a method as it is written on the wire.
pub open spec fn method_name(m: HttpMethod) -> Seq<char> {
    match m {
        HttpMethod::Get => "GET"@,
        HttpMethod::Post => "POST"@,
        HttpMethod::Put => "PUT"@,
        HttpMethod::Patch => "PATCH"@,
        HttpMethod::Delete => "DELETE"@,
        HttpMethod::Unknown => "UNKNOWN"@,
    }
}

/// The method that a token names, in any letter case: a token already in
/// ASCII capitals is read as it stands, any other through upper-casing.
pub open spec fn method_of_token(s: Seq<char>) -> HttpMethod {
    if is_ascii_upper(s) {
        method_of(s)
    } else {
        method_of(upper_of(s))
    }
}

impl HttpMethod {
    /// The method named by `s`, in any letter case; `Unknown` for any other token.
    pub fn from_token(s: &str) -> (r: HttpMethod)
        ensures
            r == method_of_token(s@),
    {
        let up = uppercase(s);
        let u = up.as_str();
        if str_eq(u, "GET") {
            HttpMethod::Get
        } else if str_eq(u, "POST") {
            HttpMethod::Post
        } else if str_eq(u, "PUT") {
            HttpMethod::Put
        } else if str_eq(u, "PATCH") {
            HttpMethod::Patch
        } else if str_eq(u, "DELETE") {
            HttpMethod::Delete
        } else {
            HttpMethod::Unknown
        }
    }

    /// The method's name in capitals.
    pub fn as_str(&self) -> (r: &'static str)
        ensures
            r@ == method_name(*self),
    {
        match self {
            HttpMethod::Get => "GET",
            HttpMethod::Post => "POST",
            HttpMethod::Put => "PUT",
            HttpMethod::Patch => "PATCH",
            HttpMethod::Delete => "DELETE",
            HttpMethod::Unknown => "UNKNOWN",
        }
    }
}

impl core::str::FromStr for HttpMethod {
    type Err = ();

    fn from_str(s: &str) -> Result<HttpMethod, ()> {
        Ok(HttpMethod::from_token(s))
    }
}

/// What a parsed request holds, as mathematical values.
pub ghost struct RequestView {
    pub method: HttpMethod,
    pub path: Seq<char>,
    pub headers: Map<Seq<char>, Seq<char>>,
    pub body: Seq<u8>,
    pub query_params: Map<Seq<char>, Seq<char>>,
    pub path_params: Map<Seq<char>, Seq<char>>,
    pub cookies: Map<Seq<char>, Seq<char>>,
}

pub open spec fn blank_line() -> Seq<char> {
    seq!['\r', '\n', '\r', '\n']
}

/// A line without the carriage return that ends it.
pub open spec fn strip_cr(l: Seq<char>) -> Seq<char> {
    if l.len() > 0 && l.last() == '\r' {
        l.drop_last()
    } else {
        l
    }
}

/// The text before the first blank line, or all of it.
pub open spec fn head_of(t: Seq<char>) -> Seq<char> {
    let i = find(t, blank_line());
    if i >= 0 {
        t.take(i)
    } else {
        t
    }
}

/// The text after the first blank line, or nothing.
pub open spec fn body_text_of(t: Seq<char>) -> Seq<char> {
    let i = find(t, blank_line());
    if i >= 0 {
        t.skip(i + 4)
    } else {
        Seq::empty()
    }
}

/// The lines of the header section.
pub open spec fn lines_of(t: Seq<char>) -> Seq<Seq<char>> {
    split(head_of(t), seq!['\n'])
}

/// The request line: the first line of the header section.
pub open spec fn request_line_of(t: Seq<char>) -> Seq<char> {
    strip_cr(lines_of(t)[0])
}

/// A header line `Name: value` recorded in `m` under the lower-cased name;
/// a line without `": "` leaves `m` as it is.
pub open spec fn add_header(m: Map<Seq<char>, Seq<char>>, line: Seq<char>) -> Map<
    Seq<char>,
    Seq<char>,
> {
    let l = strip_cr(line);
    let j = find(l, seq![':', ' ']);
    if j >= 0 {
        m.insert(lower_of(l.take(j)), l.skip(j + 2))
    } else {
        m
    }
}

pub open spec fn add_headers(m: Map<Seq<char>, Seq<char>>, ls: Seq<Seq<char>>) -> Map<
    Seq<char>,
    Seq<char>,
>
    decreases ls.len(),
{
    if ls.len() == 0 {
        m
    } else {
        add_headers(add_header(m, ls[0]), ls.drop_first())
    }
}

/// A `key=value` piece recorded in `m` with both sides trimmed; a piece
/// without `=` leaves `m` as it is.
pub open spec fn add_pair(m: Map<Seq<char>, Seq<char>>, p: Seq<char>) -> Map<
    Seq<char>,
    Seq<char>,
> {
    let j = find(p, seq!['=']);
    if j >= 0 {
        m.insert(trim(p.take(j)), trim(p.skip(j + 1)))
    } else {
        m
    }
}

pub open spec fn add_pairs(m: Map<Seq<char>, Seq<char>>, ps: Seq<Seq<char>>) -> Map<
    Seq<char>,
    Seq<char>,
>
    decreases ps.len(),
{
    if ps.len() == 0 {
        m
    } else {
        add_pairs(add_pair(m, ps[0]), ps.drop_first())
    }
}

/// The `key=value` pairs of `t` cut at `sep`; a later key wins.
pub open spec fn pairs_of(t: Seq<char>, sep: char) -> Map<Seq<char>, Seq<char>> {
    add_pairs(Map::empty(), split(t, seq![sep]))
}

/// The query parameters of a path: the pairs after the first `?`, cut at `&`.
pub open spec fn query_of(path: Seq<char>) -> Map<Seq<char>, Seq<char>> {
    let q = find(path, seq!['?']);
    if q >= 0 {
        pairs_of(path.skip(q + 1), '&')
    } else {
        Map::empty()
    }
}

/// The cookies of a header map: the pairs of its `cookie` header, cut at `;`.
pub open spec fn cookies_of(h: Map<Seq<char>, Seq<char>>) -> Map<Seq<char>, Seq<char>> {
    if h.contains_key("cookie"@) {
        pairs_of(h["cookie"@], ';')
    } else {
        Map::empty()
    }
}

/// Whether the request line of `t` holds a method and a path.
pub open spec fn has_request_line(t: Seq<char>) -> bool {
    words(request_line_of(t)).len() >= 2
}

/// The request that the text `t` describes.
pub open spec fn request_of(t: Seq<char>) -> RequestView {
    let ws = words(request_line_of(t));
    let headers = add_headers(Map::empty(), lines_of(t).drop_first());
    RequestView {
        method: method_of_token(ws[0]),
        path: ws[1],
        headers,
        body: encode_utf8(body_text_of(t)),
        query_params: query_of(ws[1]),
        path_params: Map::empty(),
        cookies: cookies_of(headers),
    }
}

/// No White_Space character in `s`.
pub open spec fn no_space(s: Seq<char>) -> bool {
    forall|i: int| 0 <= i < s.len() ==> !is_space(#[trigger] s[i])
}

proof fn lemma_words_nonempty(t: Seq<char>)
    requires
        t.len() > 0,
        !is_space(t.last()),
    ensures
        words(t).len() > 0,
{
}

proof fn lemma_words_solid(m: Seq<char>)
    requires
        m.len() > 0,
        no_space(m),
    ensures
        words(m) == seq![m],
    decreases m.len(),
{
    if m.len() > 1 {
        let d = m.drop_last();
        assert(no_space(d)) by {
            assert forall|i: int| 0 <= i < d.len() implies !is_space(#[trigger] d[i]) by {
                assert(d[i] == m[i]);
            }
        }
        lemma_words_solid(d);
        assert(!is_space(m[m.len() - 2]));
        assert(!is_space(m.last()));
        assert(d.push(m.last()) =~= m);
        assert(words(d).update(0, d.push(m.last())) =~= seq![m]);
        assert(words(m) == words(d).update(0, words(d).last().push(m.last())));
    } else {
        let e = m.drop_last();
        assert(e =~= Seq::<char>::empty());
        assert(words(e) == Seq::<Seq<char>>::empty());
        assert(!is_space(m.last()));
        assert(seq![m.last()] =~= m);
        assert(words(m) == words(e).push(seq![m.last()]));
        assert(words(e).push(seq![m.last()]) =~= seq![m]);
    }
}

proof fn lemma_words_concat(s: Seq<char>, x: Seq<char>)
    requires
        s.len() == 0 || x.len() == 0 || is_space(s.last()) || is_space(x[0]),
    ensures
        words(s + x) == words(s) + words(x),
    decreases x.len(),
{
    if x.len() == 0 {
        assert(s + x =~= s);
        assert(words(x) =~= Seq::<Seq<char>>::empty());
        assert(words(s) + words(x) =~= words(s));
    } else {
        let y = x.drop_last();
        let c = x.last();
        let t = s + x;
        assert(t.drop_last() =~= s + y);
        assert(t.last() == c);
        if y.len() > 0 {
            assert(y[0] == x[0]);
        }
        lemma_words_concat(s, y);
        let ws = words(s);
        let wy = words(y);
        if is_space(c) {
        } else if t.len() >= 2 && !is_space(t[t.len() - 2]) && words(s + y).len() > 0 {
            if y.len() > 0 {
                assert(t[t.len() - 2] == y.last());
                assert(y.len() >= 1);
                lemma_words_nonempty(y);
                assert(x.len() >= 2 && x[x.len() - 2] == y.last());
                assert((ws + wy).update((ws + wy).len() - 1, (ws + wy).last().push(c)) =~= ws + wy.update(
                    wy.len() - 1,
                    wy.last().push(c),
                ));
            } else {
                assert(t[t.len() - 2] == s.last());
                assert(x.len() == 1);
                assert(is_space(s.last()) || is_space(x[0]));
            }
        } else {
            if y.len() > 0 && !is_space(y.last()) {
                lemma_words_nonempty(y);
                assert(t[t.len() - 2] == y.last());
                assert(words(s + y).len() > 0);
            }
            if y.len() > 0 {
                assert(x[x.len() - 2] == y.last());
            }
            assert((ws + wy).push(seq![c]) =~= ws + wy.push(seq![c]));
        }
    }
}

/// Where the first `l` characters of `t` hold no carriage return and no line
/// feed and the last of them is not a carriage return, the request line is
/// a prefix of `t` at least `l` long.
proof fn lemma_request_line_prefix(t: Seq<char>, l: int) -> (n2: int)
    requires
        0 < l <= t.len(),
        forall|j: int| 0 <= j < l ==> #[trigger] t[j] != '\r' && t[j] != '\n',
    ensures
        l <= n2 <= t.len(),
        request_line_of(t) == t.take(n2),
{
    lemma_find_bounds(t, blank_line());
    let h = find(t, blank_line());
    if h >= 0 {
        assert(t.subrange(h, h + 4)[0] == t[h]);
    }
    let head = head_of(t);
    assert(head.len() >= l);
    assert forall|j: int| 0 <= j < head.len() implies #[trigger] head[j] == t[j] by {}
    lemma_find_bounds(head, seq!['\n']);
    let f = find(head, seq!['\n']);
    if f >= 0 {
        assert(head.subrange(f, f + 1)[0] == head[f]);
    }
    let n: int = if f >= 0 { f } else { head.len() as int };
    assert(lines_of(t)[0] =~= t.take(n));
    let n2: int = if n > 0 && t[n - 1] == '\r' { n - 1 } else { n };
    assert(request_line_of(t) =~= t.take(n2));
    n2
}

/// A request whose text begins `METHOD SP PATH`, the method in capitals
/// and the path a run without White_Space, followed by White_Space or
/// nothing, parses, and gives back that method and that path exactly.
pub proof fn lemma_parse_round_trip(m: Seq<char>, p: Seq<char>, rest: Seq<char>)
    requires
        m.len() > 0,
        is_ascii_upper(m),
        p.len() > 0,
        no_space(p),
        rest.len() == 0 || is_space(rest[0]),
    ensures
        ({
            let t = m + seq![' '] + p + rest;
            &&& parses(encode_utf8(t))
            &&& request_of(decode_utf8(encode_utf8(t))).method == method_of(m)
            &&& request_of(decode_utf8(encode_utf8(t))).path == p
            &&& method_of(m) != HttpMethod::Unknown ==> method_name(
                request_of(decode_utf8(encode_utf8(t))).method,
            ) == m
        }),
{
    let t = m + seq![' '] + p + rest;
    let lead = m + seq![' '] + p;
    let l = lead.len();
    assert(no_space(m)) by {
        assert forall|i: int| 0 <= i < m.len() implies !is_space(#[trigger] m[i]) by {
            assert('A' <= m[i] && m[i] <= 'Z');
        }
    }
    assert forall|j: int| 0 <= j < l implies #[trigger] t[j] != '\r' && t[j] != '\n' by {
        assert(t[j] == lead[j]);
        if j < m.len() {
            assert(lead[j] == m[j]);
        } else if j > m.len() {
            assert(lead[j] == p[j - m.len() - 1]);
        }
    }
    assert(t[l - 1] == p.last());
    vstd::utf8::encode_utf8_valid_utf8(t);
    vstd::utf8::encode_utf8_decode_utf8(t);
    let n2 = lemma_request_line_prefix(t, l as int);
    let rl = request_line_of(t);
    let x = rest.take(n2 - l);
    assert(rl =~= lead + x);
    if x.len() > 0 {
        assert(x[0] == rest[0]);
    }
    // Its words are the method, the path, then those of the rest.
    lemma_words_solid(m);
    lemma_words_solid(p);
    lemma_words_concat(m, seq![' ']);
    assert(words(seq![' ']) =~= Seq::<Seq<char>>::empty()) by {
        let e = seq![' '].drop_last();
        assert(e =~= Seq::<char>::empty());
        assert(words(e) == Seq::<Seq<char>>::empty());
        assert(is_space(seq![' '].last()));
    }
    assert(words(m) + words(seq![' ']) =~= seq![m]);
    lemma_words_concat(m + seq![' '], p);
    assert((m + seq![' ']).last() == ' ');
    assert(seq![m] + seq![p] =~= seq![m, p]);
    lemma_words_concat(lead, x);
    let ws = words(rl);
    assert(ws == seq![m, p] + words(x));
    assert(ws[0] == m && ws[1] == p);
    if method_of(m) != HttpMethod::Unknown {
        reveal_strlit("GET");
        reveal_strlit("POST");
        reveal_strlit("PUT");
        reveal_strlit("PATCH");
        reveal_strlit("DELETE");
    }
}

/// Whether the bytes form a request that `parse` accepts.
pub open spec fn parses(b: Seq<u8>) -> bool {
    valid_utf8(b) && has_request_line(decode_utf8(b))
}

/// The text of a number without its leading `+`, if it has one.
pub open spec fn unsigned_digits(s: Seq<char>) -> Seq<char> {
    if s.len() > 0 && s[0] == '+' {
        s.drop_first()
    } else {
        s
    }
}

/// Every character is an ASCII digit.
pub open spec fn all_digits(s: Seq<char>) -> bool {
    forall|i: int| 0 <= i < s.len() ==> '0' <= #[trigger] s[i] && s[i] <= '9'
}

/// The value of a run of ASCII digits.
pub open spec fn digits_value(s: Seq<char>) -> nat
    decreases s.len(),
{
    if s.len() == 0 {
        0
    } else {
        digits_value(s.drop_last()) * 10 + ((s.last() as nat) - ('0' as nat)) as nat
    }
}

/// The `usize` that a text names: an optional `+`, then one or more ASCII
/// digits whose value fits.
pub open spec fn usize_of(s: Seq<char>) -> Option<nat> {
    let d = unsigned_digits(s);
    if d.len() > 0 && all_digits(d) && digits_value(d) <= usize::MAX {
        Some(digits_value(d))
    } else {
        None
    }
}

proof fn lemma_digits_grow(d: Seq<char>, i: int)
    requires
        all_digits(d),
        0 <= i <= d.len(),
    ensures
        digits_value(d.take(i)) <= digits_value(d),
    decreases d.len() - i,
{
    if i < d.len() {
        lemma_digits_grow(d, i + 1);
        let t = d.take(i + 1);
        assert(t.drop_last() =~= d.take(i));
        assert('0' <= d[i] && d[i] <= '9');
    } else {
        assert(d.take(i) =~= d);
    }
}

/// Reads a `usize` written in decimal, as `str::parse` does.
pub fn parse_usize(s: &str) -> (r: Option<usize>)
    ensures
        r is None <==> usize_of(s@) is None,
        r is Some ==> r->0 as nat == usize_of(s@)->0,
{
    let cs = chars_of(s);
    let start: usize = if cs.len() > 0 && cs[0] == '+' { 1 } else { 0 };
    let ghost d = unsigned_digits(s@);
    assert(d =~= cs@.skip(start as int));
    if start == cs.len() {
        return None;
    }
    let mut v: usize = 0;
    let mut i = start;
    while i < cs.len()
        invariant
            start <= i <= cs@.len(),
            d == cs@.skip(start as int),
            d == unsigned_digits(s@),
            v as nat == digits_value(d.take(i - start)),
            all_digits(d.take(i - start)),
        decreases cs.len() - i,
    {
        let c = cs[i];
        proof {
            let t = d.take(i - start + 1);
            assert(t.drop_last() =~= d.take(i - start));
            assert(t.last() == c);
        }
        assert(d[i - start] == c);
        if c < '0' || c > '9' {
            assert(!('0' <= d[i - start] && d[i - start] <= '9'));
            assert(!all_digits(d));
            return None;
        }
        let digit = (c as u32 - '0' as u32) as usize;
        proof {
            let t = d.take(i - start + 1);
            assert(all_digits(t)) by {
                assert forall|j: int| 0 <= j < t.len() implies '0' <= #[trigger] t[j] && t[j] <= '9' by {
                    if j < i - start {
                        assert(t[j] == d.take(i - start)[j]);
                    }
                }
            }
            assert(digit as nat == (c as nat) - ('0' as nat));
            assert(digits_value(t) == v * 10 + digit);
        }
        if v > (usize::MAX - digit) / 10 {
            proof {
                assert(digits_value(d.take(i - start + 1)) > usize::MAX) by (nonlinear_arith)
                    requires
                        digits_value(d.take(i - start + 1)) == v * 10 + digit,
                        v > (usize::MAX - digit) / 10,
                        digit <= 9,
                ;
                if all_digits(d) {
                    lemma_digits_grow(d, i - start + 1);
                }
            }
            return None;
        }
        proof {
            assert(v * 10 + digit <= usize::MAX) by (nonlinear_arith)
                requires
                    v <= (usize::MAX - digit) / 10,
                    digit <= 9,
            ;
        }
        v = v * 10 + digit;
        i = i + 1;
    }
    assert(d.take(i - start) =~= d);
    Some(v)
}

/// Relies on `std::str::from_utf8`: the bytes read as UTF-8, where they are.
#[verifier::external_body]
fn utf8_text(b: &[u8]) -> (r: Option<&str>)
    ensures
        r is Some <==> valid_utf8(b@),
        r is Some ==> r->0@ == decode_utf8(b@),
{
    std::str::from_utf8(b).ok()
}

/// A name for whether `serde_json::from_slice` reads the bytes as one JSON
/// document.
pub uninterp spec fn json_accepts(b: Seq<u8>) -> bool;

/// serde_json's JSON value, carried through without looking inside.
#[verifier::external_type_specification]
#[verifier::external_body]
pub struct ExJsonValue(serde_json::Value);

/// Relies on `serde_json::from_slice`: a JSON value where the bytes hold one
/// JSON document, else an error, which is dropped.
#[verifier::external_body]
fn json_from_bytes(b: &[u8]) -> (r: Option<serde_json::Value>)
    ensures
        r is Some <==> json_accepts(b@),
{
    serde_json::from_slice(b).ok()
}

#[derive(Debug)]
pub struct HttpRequest {
    pub method: HttpMethod,
    pub path: String,
    pub headers: StrMap,
    pub body: Vec<u8>,
    pub query_params: StrMap,
    pub path_params: StrMap,
    pub cookies: StrMap,
}

impl View for HttpRequest {
    type V = RequestView;

    open spec fn view(&self) -> RequestView {
        RequestView {
            method: self.method,
            path: self.path@,
            headers: self.headers@,
            body: self.body@,
            query_params: self.query_params@,
            path_params: self.path_params@,
            cookies: self.cookies@,
        }
    }
}

/// The bounds of the words of `s[lo..hi]`.
fn word_bounds(s: &Vec<char>, lo: usize, hi: usize) -> (r: Vec<(usize, usize)>)
    requires
        lo <= hi <= s@.len(),
    ensures
        spans(s@, r@) == words(s@.subrange(lo as int, hi as int)),
        forall|k: int| 0 <= k < r@.len() ==> lo <= (#[trigger] r@[k]).0 <= r@[k].1 <= hi,
{
    let mut bounds: Vec<(usize, usize)> = Vec::new();
    let mut cur: Option<usize> = None;
    let mut i = lo;
    while i < hi
        invariant
            lo <= i <= hi <= s@.len(),
            forall|k: int| 0 <= k < bounds@.len() ==> lo <= (#[trigger] bounds@[k]).0 <= bounds@[k].1 <= i,
            cur is None ==> words(s@.subrange(lo as int, i as int)) == spans(s@, bounds@),
            cur is None ==> (i == lo || is_space(s@[i - 1])),
            cur is Some ==> lo <= cur->0 < i && !is_space(s@[i - 1]) && words(
                s@.subrange(lo as int, i as int),
            ) == spans(s@, bounds@).push(s@.subrange(cur->0 as int, i as int)),
        decreases hi - i,
    {
        let c = s[i];
        let sp = char_is_space(c);
        let ghost t = s@.subrange(lo as int, i + 1);
        proof {
            assert(t.drop_last() =~= s@.subrange(lo as int, i as int));
            assert(t.last() == c);
        }
        if sp {
            match cur {
                Some(st) => {
                    let ghost before = bounds@;
                    bounds.push((st, i));
                    proof {
                        assert(spans(s@, bounds@) =~= spans(s@, before).push(
                            s@.subrange(st as int, i as int),
                        ));
                    }
                    cur = None;
                },
                None => {},
            }
        } else {
            match cur {
                Some(st) => {
                    proof {
                        let w = words(s@.subrange(lo as int, i as int));
                        assert(t.len() >= 2);
                        assert(t[t.len() - 2] == s@[i - 1]);
                        assert(w.last().push(c) =~= s@.subrange(st as int, i + 1));
                        assert(w.update(w.len() - 1, w.last().push(c)) =~= spans(s@, bounds@).push(
                            s@.subrange(st as int, i + 1),
                        ));
                    }
                },
                None => {
                    proof {
                        if t.len() >= 2 {
                            assert(t[t.len() - 2] == s@[i - 1]);
                        }
                        assert(s@.subrange(i as int, i + 1) =~= seq![c]);
                    }
                    cur = Some(i);
                },
            }
        }
        i = i + 1;
    }
    match cur {
        Some(st) => {
            let ghost before = bounds@;
            bounds.push((st, hi));
            proof {
                assert(spans(s@, bounds@) =~= spans(s@, before).push(
                    s@.subrange(st as int, hi as int),
                ));
            }
        },
        None => {},
    }
    bounds
}

/// The `key=value` pairs of `s[lo..hi]` cut at `sep`.
pub fn parse_pairs(s: &Vec<char>, lo: usize, hi: usize, sep: char) -> (r: StrMap)
    requires
        lo <= hi <= s@.len(),
    ensures
        r@ == pairs_of(s@.subrange(lo as int, hi as int), sep),
{
    let sepv = vec![sep];
    let eqv = vec!['='];
    let mut m = StrMap::new();
    let mut pos = lo;
    let mut done = false;
    while !done
        invariant
            lo <= pos <= hi <= s@.len(),
            sepv@ == seq![sep],
            eqv@ == seq!['='],
            done ==> pairs_of(s@.subrange(lo as int, hi as int), sep) == m@,
            !done ==> pairs_of(s@.subrange(lo as int, hi as int), sep) == add_pairs(
                m@,
                split(s@.subrange(pos as int, hi as int), seq![sep]),
            ),
        decreases (hi - pos) as int + if done {
            0int
        } else {
            1int
        },
    {
        let ghost rest = s@.subrange(pos as int, hi as int);
        let found = find_in(s, pos, hi, &sepv);
        let end = match found {
            Some(a) => a,
            None => hi,
        };
        let ghost piece = s@.subrange(pos as int, end as int);
        let ghost m0 = m@;
        proof {
            lemma_find_bounds(rest, seq![sep]);
            if found is Some {
                let a = end;
                assert(rest.take(a - pos) =~= piece);
                assert(rest.skip(a - pos + 1) =~= s@.subrange(a + 1, hi as int));
                let tail = split(s@.subrange(a + 1, hi as int), seq![sep]);
                assert((seq![piece] + tail)[0] == piece);
                assert((seq![piece] + tail).drop_first() =~= tail);
            } else {
                assert(piece =~= rest);
                assert(seq![piece].drop_first() =~= Seq::<Seq<char>>::empty());
            }
        }
        match find_in(s, pos, end, &eqv) {
            Some(e) => {
                proof {
                    lemma_find_bounds(piece, seq!['=']);
                    assert(piece.take(e - pos) =~= s@.subrange(pos as int, e as int));
                    assert(piece.skip(e - pos + 1) =~= s@.subrange(e + 1, end as int));
                }
                let k = trimmed(s, pos, e);
                let v = trimmed(s, e + 1, end);
                m.insert(k, v);
            },
            None => {},
        }
        assert(m@ == add_pair(m0, piece));
        proof {
            if found is None {
                assert(split(rest, seq![sep]) == seq![piece]);
                assert(add_pairs(m0, seq![piece]) == add_pairs(add_pair(m0, piece), seq![piece].drop_first()));
                assert(add_pairs(m@, Seq::<Seq<char>>::empty()) == m@);
            }
        }
        match found {
            Some(a) => {
                pos = a + 1;
            },
            None => {
                done = true;
            },
        }
    }
    m
}

impl HttpRequest {
    pub fn new(
        method: HttpMethod,
        path: String,
        headers: StrMap,
        body: Vec<u8>,
        query_params: StrMap,
        path_params: StrMap,
        cookies: StrMap,
    ) -> (r: HttpRequest)
        ensures
            r.method == method,
            r.path@ == path@,
            r.headers@ == headers@,
            r.body@ == body@,
            r.query_params@ == query_params@,
            r.path_params@ == path_params@,
            r.cookies@ == cookies@,
    {
        HttpRequest { method, path, headers, body, query_params, path_params, cookies }
    }

    /// The cookies that the `Cookie` header carried.
    pub fn cookies(&self) -> (r: &StrMap)
        ensures
            r@ == self.cookies@,
    {
        &self.cookies
    }

    /// The value of the `Content-Type` header.
    pub fn content_type(&self) -> (r: Option<&String>)
        ensures
            r is Some <==> self.headers@.contains_key("content-type"@),
            r is Some ==> r->0@ == self.headers@["content-type"@],
    {
        self.headers.get("content-type")
    }

    /// The value of the `Content-Length` header, where it is a `usize`.
    pub fn content_length(&self) -> (r: Option<usize>)
        ensures
            !self.headers@.contains_key("content-length"@) ==> r is None,
            self.headers@.contains_key("content-length"@) ==> (r is None <==> usize_of(
                self.headers@["content-length"@],
            ) is None) && (r is Some ==> r->0 as nat == usize_of(
                self.headers@["content-length"@],
            )->0),
    {
        match self.headers.get("content-length") {
            Some(v) => parse_usize(v.as_str()),
            None => None,
        }
    }

    /// The body read as a JSON document, only where the `Content-Type`
    /// header is exactly `application/json`.
    pub fn json_body(&self) -> (r: Option<serde_json::Value>)
        ensures
            !(self.headers@.contains_key("content-type"@) && self.headers@["content-type"@]
                == "application/json"@) ==> r is None,
            self.headers@.contains_key("content-type"@) && self.headers@["content-type"@]
                == "application/json"@ ==> (r is Some <==> json_accepts(self.body@)),
    {
        match self.content_type() {
            Some(ct) => {
                if !str_eq(ct.as_str(), "application/json") {
                    return None;
                }
                json_from_bytes(self.body.as_slice())
            },
            None => None,
        }
    }

    /// Parses a request from the bytes read off a connection.
    #[verifier::rlimit(30)]
    pub fn parse(buffer: &[u8]) -> (r: Option<HttpRequest>)
        ensures
            r is Some <==> parses(buffer@),
            r is Some ==> r->0@ == request_of(decode_utf8(buffer@)),
    {
        let text = match utf8_text(buffer) {
            Some(s) => s,
            None => {
                return None;
            },
        };
        let s = chars_of(text);
        let ghost t = s@;
        let n = s.len();
        assert(s@.subrange(0, n as int) =~= t);
        let blank = vec!['\r', '\n', '\r', '\n'];
        assert(blank@ =~= blank_line());
        let found = find_in(&s, 0, n, &blank);
        let head_end = match found {
            Some(i) => i,
            None => n,
        };
        proof {
            lemma_find_bounds(t, blank_line());
            assert(head_of(t) =~= s@.subrange(0, head_end as int));
        }
        let body_text = match found {
            Some(i) => substring(&s, i + 4, n),
            None => String::new(),
        };
        proof {
            if found is Some {
                assert(body_text_of(t) =~= body_text@);
            } else {
                assert(body_text_of(t) =~= body_text@);
            }
        }
        let body = bytes_of(body_text.as_str());
        // The request line.
        let (line_found, stripped_end) = first_line(&s, head_end);
        proof {
            assert(lines_of(t) == split(s@.subrange(0, head_end as int), seq!['\n']));
        }
        let ws = word_bounds(&s, 0, stripped_end);
        if ws.len() < 2 {
            return None;
        }
        proof {
            assert(spans(s@, ws@)[0] == s@.subrange(ws@[0].0 as int, ws@[0].1 as int));
            assert(spans(s@, ws@)[1] == s@.subrange(ws@[1].0 as int, ws@[1].1 as int));
        }
        let method_text = substring(&s, ws[0].0, ws[0].1);
        let method = HttpMethod::from_token(method_text.as_str());
        let path = substring(&s, ws[1].0, ws[1].1);
        // The header lines.
        let headers = match line_found {
            Some(line_end) => parse_headers(&s, line_end + 1, head_end),
            None => StrMap::new(),
        };
        // Cookies and query parameters.
        let cookies = match headers.get("cookie") {
            Some(c) => {
                let cs = chars_of(c.as_str());
                assert(cs@.subrange(0, cs@.len() as int) =~= cs@);
                parse_pairs(&cs, 0, cs.len(), ';')
            },
            None => StrMap::new(),
        };
        let pcs = chars_of(path.as_str());
        let qm = vec!['?'];
        assert(qm@ =~= seq!['?']);
        let query_params = match find_in(&pcs, 0, pcs.len(), &qm) {
            Some(q) => {
                proof {
                    assert(pcs@.subrange(0, pcs@.len() as int) =~= pcs@);
                    assert(pcs@.subrange(q + 1, pcs@.len() as int) =~= pcs@.skip(q + 1));
                }
                parse_pairs(&pcs, q + 1, pcs.len(), '&')
            },
            None => {
                proof {
                    assert(pcs@.subrange(0, pcs@.len() as int) =~= pcs@);
                }
                StrMap::new()
            },
        };
        let ghost v = request_of(t);
        assert(method == v.method);
        assert(path@ == v.path);
        assert(headers@ == v.headers);
        assert(body@ == v.body);
        assert(query_params@ == v.query_params);
        assert(cookies@ == v.cookies);
        Some(
            HttpRequest {
                method,
                path,
                headers,
                body,
                query_params,
                path_params: StrMap::new(),
                cookies,
            },
        )
    }
}

/// Where the first line of `s[0..hi]` ends: the index of the line feed that
/// ends it, if any, and the end of the line without its carriage return.
fn first_line(s: &Vec<char>, hi: usize) -> (r: (Option<usize>, usize))
    requires
        hi <= s@.len(),
    ensures
        r.1 <= hi,
        strip_cr(split(s@.subrange(0, hi as int), seq!['\n'])[0]) == s@.subrange(0, r.1 as int),
        r.0 is Some ==> r.0->0 < hi && split(s@.subrange(0, hi as int), seq!['\n']).drop_first()
            == split(s@.subrange(r.0->0 + 1, hi as int), seq!['\n']),
        r.0 is None ==> split(s@.subrange(0, hi as int), seq!['\n']).drop_first() == Seq::<
            Seq<char>,
        >::empty(),
{
    let nl = vec!['\n'];
    assert(nl@ =~= seq!['\n']);
    let line_found = find_in(s, 0, hi, &nl);
    let line_end = match line_found {
        Some(i) => i,
        None => hi,
    };
    let ghost head = s@.subrange(0, hi as int);
    let ghost first = s@.subrange(0, line_end as int);
    proof {
        lemma_find_bounds(head, seq!['\n']);
        if line_found is Some {
            assert(head.take(line_end as int) =~= first);
            assert(head.skip(line_end + 1) =~= s@.subrange(line_end + 1, hi as int));
            let tail = split(s@.subrange(line_end + 1, hi as int), seq!['\n']);
            assert(split(head, seq!['\n']) == seq![first] + tail);
            assert((seq![first] + tail)[0] == first);
            assert((seq![first] + tail).drop_first() =~= tail);
        } else {
            assert(first =~= head);
            assert(split(head, seq!['\n']) == seq![first]);
            assert(seq![first].drop_first() =~= Seq::<Seq<char>>::empty());
        }
    }
    let stripped_end = if line_end > 0 && s[line_end - 1] == '\r' {
        line_end - 1
    } else {
        line_end
    };
    assert(strip_cr(first) =~= s@.subrange(0, stripped_end as int));
    (line_found, stripped_end)
}

/// The header lines of `s[lo..hi]`, cut at line feeds, recorded in a map.
fn parse_headers(s: &Vec<char>, lo: usize, hi: usize) -> (r: StrMap)
    requires
        lo <= hi <= s@.len(),
    ensures
        r@ == add_headers(Map::empty(), split(s@.subrange(lo as int, hi as int), seq!['\n'])),
{
    let nl = vec!['\n'];
    let colon = vec![':', ' '];
    let mut m = StrMap::new();
    let mut pos = lo;
    let mut done = false;
    let ghost target = add_headers(Map::empty(), split(s@.subrange(lo as int, hi as int), seq!['\n']));
    while !done
        invariant
            lo <= pos <= hi <= s@.len(),
            nl@ == seq!['\n'],
            colon@ == seq![':', ' '],
            target == add_headers(Map::empty(), split(s@.subrange(lo as int, hi as int), seq!['\n'])),
            done ==> target == m@,
            !done ==> target == add_headers(m@, split(s@.subrange(pos as int, hi as int), seq!['\n'])),
        decreases (hi - pos) as int + if done {
            0int
        } else {
            1int
        },
    {
        let ghost rest = s@.subrange(pos as int, hi as int);
        let found = find_in(s, pos, hi, &nl);
        let end = match found {
            Some(a) => a,
            None => hi,
        };
        let ghost piece = s@.subrange(pos as int, end as int);
        let ghost m0 = m@;
        proof {
            lemma_find_bounds(rest, seq!['\n']);
            if found is Some {
                let a = end;
                assert(rest.take(a - pos) =~= piece);
                assert(rest.skip(a - pos + 1) =~= s@.subrange(a + 1, hi as int));
                let tail = split(s@.subrange(a + 1, hi as int), seq!['\n']);
                assert((seq![piece] + tail)[0] == piece);
                assert((seq![piece] + tail).drop_first() =~= tail);
            } else {
                assert(piece =~= rest);
                assert(seq![piece].drop_first() =~= Seq::<Seq<char>>::empty());
            }
        }
        let line_end = if end > pos && s[end - 1] == '\r' {
            end - 1
        } else {
            end
        };
        let ghost line = s@.subrange(pos as int, line_end as int);
        assert(strip_cr(piece) =~= line);
        match find_in(s, pos, line_end, &colon) {
            Some(e) => {
                proof {
                    lemma_find_bounds(line, seq![':', ' ']);
                    assert(line.take(e - pos) =~= s@.subrange(pos as int, e as int));
                    assert(line.skip(e - pos + 2) =~= s@.subrange(e + 2, line_end as int));
                }
                let raw_key = substring(s, pos, e);
                let k = lowercase(raw_key.as_str());
                let v = substring(s, e + 2, line_end);
                m.insert(k, v);
            },
            None => {},
        }
        assert(m@ == add_header(m0, piece));
        proof {
            if found is None {
                assert(split(rest, seq!['\n']) == seq![piece]);
                assert(add_headers(m0, seq![piece]) == add_headers(add_header(m0, piece), seq![piece].drop_first()));
                assert(add_headers(m@, Seq::<Seq<char>>::empty()) == m@);
            }
        }
        match found {
            Some(a) => {
                pos = a + 1;
            },
            None => {
                done = true;
            },
        }
    }
    m
}

/// The UTF-8 bytes of `s`.
pub fn bytes_of(s: &str) -> (r: Vec<u8>)
    ensures
        r@ == encode_utf8(s@),
{
    let b = s.as_bytes();
    let mut r: Vec<u8> = Vec::new();
    let mut i: usize = 0;
    while i < b.len()
        invariant
            i <= b@.len(),
            b@ == encode_utf8(s@),
            r@ == b@.subrange(0, i as int),
        decreases b.len() - i,
    {
        r.push(b[i]);
        i = i + 1;
        assert(r@ =~= b@.subrange(0, i as int));
    }
    assert(r@ =~= b@);
    r
}

} // verus!
