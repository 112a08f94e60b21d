//! The raw HTTP codec: parse a request head from bytes and serialize a
//! response. A request must be UTF-8 text; it is a request line whose
//! tokens are separated by runs of (ASCII) whitespace, then header lines,
//! then an empty line and the body; lines end in CRLF.

use vstd::prelude::*;
use vstd::string::StrSliceExecFns;
use vstd::string::StringSliceAdditionalSpecFns;
use vstd::utf8::valid_utf8;
use crate::api::ApiRequest;
use crate::api::ApiResponse;
use crate::api::HttpMethod;

verus! {

/// The first position at or after `from` where a CRLF starts, if any.
pub open spec fn spec_find_crlf(data: Seq<u8>, from: int) -> Option<int>
    decreases data.len() - from,
{
    if from < 0 || from + 2 > data.len() {
        None
    } else if data[from] == 13 && data[from + 1] == 10 {
        Some(from)
    } else {
        spec_find_crlf(data, from + 1)
    }
}

/// The first position at or after `from` holding byte `b` and lying
/// before `until`, if any.
pub open spec fn spec_find_byte(data: Seq<u8>, from: int, until: int, b: u8) -> Option<int>
    decreases until - from,
{
    if from < 0 || from >= until || until > data.len() {
        None
    } else if data[from] == b {
        Some(from)
    } else {
        spec_find_byte(data, from + 1, until, b)
    }
}

/// Whether a byte is ASCII whitespace: what request-line tokens split on
/// and header text is trimmed of. Whitespace beyond ASCII is not treated
/// as a separator.
pub open spec fn spec_is_space(b: u8) -> bool {
    b == 32 || b == 9 || b == 10 || b == 11 || b == 12 || b == 13
}

/// The first position at or after `from` in `[from, until)` holding a
/// non-whitespace byte; `until` if there is none.
pub open spec fn spec_skip_spaces(data: Seq<u8>, from: int, until: int) -> int
    decreases until - from,
{
    if from >= until {
        until
    } else if spec_is_space(data[from]) {
        spec_skip_spaces(data, from + 1, until)
    } else {
        from
    }
}

/// One past the last non-whitespace byte in `[from, until)`; `from` if
/// there is none.
pub open spec fn spec_rskip_spaces(data: Seq<u8>, from: int, until: int) -> int
    decreases until - from,
{
    if until <= from {
        from
    } else if spec_is_space(data[until - 1]) {
        spec_rskip_spaces(data, from, until - 1)
    } else {
        until
    }
}

/// The bytes of `[from, until)` with surrounding whitespace stripped.
pub open spec fn spec_trimmed(data: Seq<u8>, from: int, until: int) -> Seq<u8> {
    let a = spec_skip_spaces(data, from, until);
    let b = spec_rskip_spaces(data, a, until);
    data.subrange(a, b)
}

/// The first whitespace position in `[from, until)`; `until` if there is
/// none: where a token started at `from` ends.
pub open spec fn spec_token_end(data: Seq<u8>, from: int, until: int) -> int
    decreases until - from,
{
    if from >= until {
        until
    } else if spec_is_space(data[from]) {
        from
    } else {
        spec_token_end(data, from + 1, until)
    }
}

/// Where the request line ends: the first CRLF, or the end of the data.
pub open spec fn spec_line_end(data: Seq<u8>) -> int {
    match spec_find_crlf(data, 0) {
        Some(i) => i,
        None => data.len() as int,
    }
}

/// Where the method token starts: past any leading whitespace run on the
/// request line.
pub open spec fn spec_method_start(data: Seq<u8>) -> int {
    spec_skip_spaces(data, 0, spec_line_end(data))
}

/// Where the method token ends.
pub open spec fn spec_method_end(data: Seq<u8>) -> int {
    spec_token_end(data, spec_method_start(data), spec_line_end(data))
}

/// Where the path token starts: past the whitespace run after the method.
pub open spec fn spec_path_start(data: Seq<u8>) -> int {
    spec_skip_spaces(data, spec_method_end(data), spec_line_end(data))
}

/// Where the path token ends.
pub open spec fn spec_path_end(data: Seq<u8>) -> int {
    spec_token_end(data, spec_path_start(data), spec_line_end(data))
}

/// The method named by the request line, if it is one the codec accepts
/// and a path token follows it.
pub open spec fn spec_method(data: Seq<u8>) -> Option<HttpMethod> {
    let m = data.subrange(spec_method_start(data), spec_method_end(data));
    if spec_path_start(data) == spec_line_end(data) {
        None
    } else if m == "GET".spec_bytes() {
        Some(HttpMethod::GET)
    } else if m == "POST".spec_bytes() {
        Some(HttpMethod::POST)
    } else if m == "PUT".spec_bytes() {
        Some(HttpMethod::PUT)
    } else if m == "DELETE".spec_bytes() {
        Some(HttpMethod::DELETE)
    } else {
        None
    }
}

/// The path token: the request line's second whitespace-run-separated
/// token.
pub open spec fn spec_path(data: Seq<u8>) -> Seq<u8> {
    data.subrange(spec_path_start(data), spec_path_end(data))
}

/// The header pairs read from position `pos` on: one line per header,
/// name and value split at the first colon and trimmed, lines without a
/// colon skipped; the walk stops at an empty line or at the data's end.
pub open spec fn spec_headers_from(data: Seq<u8>, pos: int) -> Seq<(Seq<u8>, Seq<u8>)>
    decreases data.len() - pos,
{
    if pos < 0 || pos >= data.len() {
        Seq::empty()
    } else {
        match spec_find_crlf(data, pos) {
            Some(line_end) => {
                if line_end <= pos || line_end + 2 > data.len() {
                    Seq::empty()
                } else {
                    let rest = spec_headers_from(data, line_end + 2);
                    match spec_find_byte(data, pos, line_end, 58) {
                        Some(c) => seq![
                            (spec_trimmed(data, pos, c), spec_trimmed(data, c + 1, line_end)),
                        ] + rest,
                        None => rest,
                    }
                }
            },
            None => {
                match spec_find_byte(data, pos, data.len() as int, 58) {
                    Some(c) => seq![
                        (
                            spec_trimmed(data, pos, c),
                            spec_trimmed(data, c + 1, data.len() as int),
                        ),
                    ],
                    None => Seq::empty(),
                }
            },
        }
    }
}

/// Where the body starts: just past the first empty line after position
/// `pos`, if the head ever ends.
pub open spec fn spec_body_start_from(data: Seq<u8>, pos: int) -> Option<int>
    decreases data.len() - pos,
{
    if pos < 0 || pos >= data.len() {
        None
    } else {
        match spec_find_crlf(data, pos) {
            Some(line_end) => {
                if line_end <= pos {
                    Some(pos + 2)
                } else if line_end + 2 > data.len() {
                    None
                } else {
                    spec_body_start_from(data, line_end + 2)
                }
            },
            None => None,
        }
    }
}

/// The headers of a request: the lines after the request line.
pub open spec fn spec_request_headers(data: Seq<u8>) -> Seq<(Seq<u8>, Seq<u8>)> {
    match spec_find_crlf(data, 0) {
        Some(i) => spec_headers_from(data, i + 2),
        None => Seq::empty(),
    }
}

/// The body of a request: everything past the first empty line after the
/// request line; absent when the head never ends.
pub open spec fn spec_request_body(data: Seq<u8>) -> Option<Seq<u8>> {
    match spec_find_crlf(data, 0) {
        Some(i) => match spec_body_start_from(data, i + 2) {
            Some(b) => Some(data.skip(b)),
            None => None,
        },
        None => None,
    }
}

/// The decimal digits of a number, most significant first.
pub open spec fn spec_decimal(n: int) -> Seq<u8>
    decreases n,
{
    if n < 10 {
        seq![(48 + if n >= 0 {
            n
        } else {
            0
        }) as u8]
    } else {
        spec_decimal(n / 10).push((48 + n % 10) as u8)
    }
}

/// The reason phrase sent with a status code.
pub open spec fn spec_status_text(code: u16) -> Seq<u8> {
    if code == 100 {
        "Continue".spec_bytes()
    } else if code == 200 {
        "OK".spec_bytes()
    } else if code == 201 {
        "Created".spec_bytes()
    } else if code == 204 {
        "No Content".spec_bytes()
    } else if code == 400 {
        "Bad Request".spec_bytes()
    } else if code == 401 {
        "Unauthorized".spec_bytes()
    } else if code == 403 {
        "Forbidden".spec_bytes()
    } else if code == 404 {
        "Not Found".spec_bytes()
    } else if code == 500 {
        "Internal Server Error".spec_bytes()
    } else if code == 501 {
        "Not Implemented".spec_bytes()
    } else if code == 503 {
        "Service Unavailable".spec_bytes()
    } else {
        "Unknown".spec_bytes()
    }
}

/// One serialized header line: name, colon and space, value, CRLF.
pub open spec fn spec_header_lines(hs: Seq<(Vec<u8>, Vec<u8>)>) -> Seq<u8>
    decreases hs.len(),
{
    if hs.len() == 0 {
        Seq::empty()
    } else {
        hs[0].0@ + ": ".spec_bytes() + hs[0].1@ + "\r\n".spec_bytes() + spec_header_lines(
            hs.drop_first(),
        )
    }
}

/// The serialized response: status line, header lines, the empty line,
/// then the body if there is one.
pub open spec fn spec_format_response(r: ApiResponse) -> Seq<u8> {
    "HTTP/1.1 ".spec_bytes() + spec_decimal(r.status as int) + " ".spec_bytes() + spec_status_text(
        r.status,
    ) + "\r\n".spec_bytes() + spec_header_lines(r.headers@) + "\r\n".spec_bytes() + (match r.body {
        Some(b) => b@,
        None => Seq::empty(),
    })
}

/// The reason phrase sent with a status code.
pub fn status_text(code: u16) -> (r: &'static str)
    ensures
        r.spec_bytes() == spec_status_text(code),
{
    match code {
        100 => "Continue",
        200 => "OK",
        201 => "Created",
        204 => "No Content",
        400 => "Bad Request",
        401 => "Unauthorized",
        403 => "Forbidden",
        404 => "Not Found",
        500 => "Internal Server Error",
        501 => "Not Implemented",
        503 => "Service Unavailable",
        _ => "Unknown",
    }
}

/// Append the decimal digits of `n`.
pub(crate) fn push_decimal(n: u64, out: &mut Vec<u8>)
    ensures
        final(out)@ == old(out)@ + spec_decimal(n as int),
    decreases n,
{
    if n >= 10 {
        push_decimal(n / 10, out);
    }
    out.push(48 + (n % 10) as u8);
}

/// Find the start of the first CRLF at or after `from`, if any.
fn find_crlf(data: &[u8], from: usize) -> (r: Option<usize>)
    requires
        from <= data@.len(),
    ensures
        match r {
            Some(i) => Some(i as int) == spec_find_crlf(data@, from as int) && from <= i && i + 2
                <= data@.len(),
            None => spec_find_crlf(data@, from as int) is None,
        },
{
    let mut k: usize = from;
    loop
        invariant
            from <= k <= data@.len(),
            spec_find_crlf(data@, from as int) == spec_find_crlf(data@, k as int),
        ensures
            match spec_find_crlf(data@, from as int) {
                Some(i) => k == i && k + 2 <= data@.len() && from <= k,
                None => k + 2 > data@.len(),
            },
        decreases data@.len() - k,
    {
        if data.len() < 2 || k > data.len() - 2 {
            break ;
        }
        if data[k] == 13 && data[k + 1] == 10 {
            break ;
        }
        k = k + 1;
    }
    if data.len() < 2 || k > data.len() - 2 {
        None
    } else {
        Some(k)
    }
}

/// Find byte `b` in `[from, until)`, if present.
pub(crate) fn find_byte(data: &[u8], from: usize, until: usize, b: u8) -> (r: Option<usize>)
    requires
        from <= until <= data@.len(),
    ensures
        match r {
            Some(i) => Some(i as int) == spec_find_byte(data@, from as int, until as int, b) && from
                <= i < until,
            None => spec_find_byte(data@, from as int, until as int, b) is None,
        },
{
    let mut k: usize = from;
    loop
        invariant
            from <= k <= until,
            until <= data@.len(),
            spec_find_byte(data@, from as int, until as int, b) == spec_find_byte(
                data@,
                k as int,
                until as int,
                b,
            ),
        ensures
            match spec_find_byte(data@, from as int, until as int, b) {
                Some(i) => k == i && from <= k < until,
                None => k == until,
            },
        decreases until - k,
    {
        if k >= until {
            break ;
        }
        if data[k] == b {
            break ;
        }
        k = k + 1;
    }
    if k >= until {
        None
    } else {
        Some(k)
    }
}

/// Copy `[from, until)` of the data into a fresh vector.
pub(crate) fn copy_range(data: &[u8], from: usize, until: usize) -> (r: Vec<u8>)
    requires
        from <= until <= data@.len(),
    ensures
        r@ == data@.subrange(from as int, until as int),
{
    let mut out: Vec<u8> = Vec::new();
    let mut k: usize = from;
    while k < until
        invariant
            from <= k <= until <= data@.len(),
            out@ =~= data@.subrange(from as int, k as int),
        decreases until - k,
    {
        out.push(data[k]);
        k = k + 1;
    }
    proof {
        assert(out@ =~= data@.subrange(from as int, until as int));
    }
    out
}

/// Whether a byte is ASCII whitespace.
fn is_space(b: u8) -> (r: bool)
    ensures
        r == spec_is_space(b),
{
    b == 32 || b == 9 || b == 10 || b == 11 || b == 12 || b == 13
}

/// Skip the whitespace run starting at `from`, within `[from, until)`.
fn skip_spaces(data: &[u8], from: usize, until: usize) -> (r: usize)
    requires
        from <= until <= data@.len(),
    ensures
        r == spec_skip_spaces(data@, from as int, until as int),
        from <= r <= until,
{
    let mut a: usize = from;
    loop
        invariant
            from <= a <= until,
            until <= data@.len(),
            spec_skip_spaces(data@, from as int, until as int) == spec_skip_spaces(
                data@,
                a as int,
                until as int,
            ),
        ensures
            a == spec_skip_spaces(data@, from as int, until as int),
            from <= a <= until,
        decreases until - a,
    {
        if a >= until {
            break ;
        }
        if !is_space(data[a]) {
            break ;
        }
        a = a + 1;
    }
    a
}

/// Find the end of the token starting at `from`, within `[from, until)`.
fn token_end(data: &[u8], from: usize, until: usize) -> (r: usize)
    requires
        from <= until <= data@.len(),
    ensures
        r == spec_token_end(data@, from as int, until as int),
        from <= r <= until,
{
    let mut a: usize = from;
    loop
        invariant
            from <= a <= until,
            until <= data@.len(),
            spec_token_end(data@, from as int, until as int) == spec_token_end(
                data@,
                a as int,
                until as int,
            ),
        ensures
            a == spec_token_end(data@, from as int, until as int),
            from <= a <= until,
        decreases until - a,
    {
        if a >= until {
            break ;
        }
        if is_space(data[a]) {
            break ;
        }
        a = a + 1;
    }
    a
}

/// Copy `[from, until)` of the data with surrounding whitespace stripped.
fn copy_trimmed(data: &[u8], from: usize, until: usize) -> (r: Vec<u8>)
    requires
        from <= until <= data@.len(),
    ensures
        r@ == spec_trimmed(data@, from as int, until as int),
{
    let mut a: usize = from;
    loop
        invariant
            from <= a <= until,
            until <= data@.len(),
            spec_skip_spaces(data@, from as int, until as int) == spec_skip_spaces(
                data@,
                a as int,
                until as int,
            ),
        ensures
            a == spec_skip_spaces(data@, from as int, until as int),
            from <= a <= until,
        decreases until - a,
    {
        if a >= until {
            break ;
        }
        if !is_space(data[a]) {
            break ;
        }
        a = a + 1;
    }
    let mut b: usize = until;
    loop
        invariant
            a <= b <= until,
            until <= data@.len(),
            spec_rskip_spaces(data@, a as int, until as int) == spec_rskip_spaces(
                data@,
                a as int,
                b as int,
            ),
        ensures
            b == spec_rskip_spaces(data@, a as int, until as int),
            a <= b <= until,
        decreases b,
    {
        if b <= a {
            break ;
        }
        if !is_space(data[b - 1]) {
            break ;
        }
        b = b - 1;
    }
    copy_range(data, a, b)
}

/// The HTTP server: its bind address and whether it is accepting.
pub struct HttpServer {
    pub port: u16,
    pub host: String,
    pub running: bool,
}

impl HttpServer {
    /// A stopped server for the given bind address.
    pub fn new(host: &str, port: u16) -> (r: Self)
        ensures
            r.port == port,
            r.host@ == host@,
            !r.running,
    {
        HttpServer { port, host: String::from_str(host), running: false }
    }

    /// Start accepting; binding the socket is the platform's part.
    pub fn start(&mut self) -> (r: Result<(), &'static str>)
        ensures
            r is Ok,
            final(self).running,
            final(self).port == old(self).port,
            final(self).host == old(self).host,
    {
        self.running = true;
        Ok(())
    }

    /// Stop accepting.
    pub fn stop(&mut self)
        ensures
            !final(self).running,
            final(self).port == old(self).port,
            final(self).host == old(self).host,
    {
        self.running = false;
    }

    /// Whether the server is accepting.
    pub fn is_running(&self) -> (r: bool)
        ensures
            r == self.running,
    {
        self.running
    }

    /// Parse a request head from raw bytes: absence unless the bytes are
    /// UTF-8 text and the request line names a known method and a path;
    /// otherwise the method, the path, the trimmed header pairs, and the
    /// body after the first empty line, if the head ever ends.
    pub fn parse_request(raw_request: &[u8]) -> (r: Option<ApiRequest>)
        ensures
            r is Some <==> valid_utf8(raw_request@) && spec_method(raw_request@) is Some,
            r matches Some(req) ==> {
                &&& Some(req.method) == spec_method(raw_request@)
                &&& req.path@ == spec_path(raw_request@)
                &&& req.headers@.len() == spec_request_headers(raw_request@).len()
                &&& (forall|k: int|
                    0 <= k < req.headers@.len() ==> (#[trigger] req.headers@[k]).0@
                        == spec_request_headers(raw_request@)[k].0 && req.headers@[k].1@
                        == spec_request_headers(raw_request@)[k].1)
                &&& (req.body matches Some(b) ==> Some(b@) == spec_request_body(raw_request@))
                &&& (req.body is None <==> spec_request_body(raw_request@) is None)
            },
    {
        if core::str::from_utf8(raw_request).is_err() {
            return None;
        }
        let line_end: usize = match find_crlf(raw_request, 0) {
            Some(i) => i,
            None => raw_request.len(),
        };
        let method_start = skip_spaces(raw_request, 0, line_end);
        let method_end = token_end(raw_request, method_start, line_end);
        let path_start = skip_spaces(raw_request, method_end, line_end);
        if path_start == line_end {
            return None;
        }
        let method_bytes = copy_range(raw_request, method_start, method_end);
        let method: HttpMethod;
        if bytes_eq_str(&method_bytes, "GET") {
            method = HttpMethod::GET;
        } else if bytes_eq_str(&method_bytes, "POST") {
            method = HttpMethod::POST;
        } else if bytes_eq_str(&method_bytes, "PUT") {
            method = HttpMethod::PUT;
        } else if bytes_eq_str(&method_bytes, "DELETE") {
            method = HttpMethod::DELETE;
        } else {
            return None;
        }
        let path_end = token_end(raw_request, path_start, line_end);
        let path = copy_range(raw_request, path_start, path_end);
        let mut headers: Vec<(Vec<u8>, Vec<u8>)> = Vec::new();
        let mut body: Option<Vec<u8>> = None;
        if raw_request.len() >= 2 && line_end <= raw_request.len() - 2 {
            let mut pos: usize = line_end + 2;
            loop
                invariant_except_break
                    headers@.len() + spec_headers_from(raw_request@, pos as int).len()
                        == spec_headers_from(raw_request@, line_end as int + 2).len(),
                    spec_headers_from(raw_request@, line_end as int + 2).skip(headers@.len() as int)
                        =~= spec_headers_from(raw_request@, pos as int),
                    spec_body_start_from(raw_request@, line_end as int + 2)
                        == spec_body_start_from(raw_request@, pos as int),
                    body is None,
                invariant
                    line_end + 2 <= pos <= raw_request@.len(),
                    forall|k: int|
                        0 <= k < headers@.len() ==> (#[trigger] headers@[k]).0@
                            == spec_headers_from(raw_request@, line_end as int + 2)[k].0
                            && headers@[k].1@ == spec_headers_from(
                            raw_request@,
                            line_end as int + 2,
                        )[k].1,
                ensures
                    headers@.len() == spec_headers_from(raw_request@, line_end as int + 2).len(),
                    forall|k: int|
                        0 <= k < headers@.len() ==> (#[trigger] headers@[k]).0@
                            == spec_headers_from(raw_request@, line_end as int + 2)[k].0
                            && headers@[k].1@ == spec_headers_from(
                            raw_request@,
                            line_end as int + 2,
                        )[k].1,
                    match spec_body_start_from(raw_request@, line_end as int + 2) {
                        Some(bs) => body matches Some(bv) && bv@ == raw_request@.skip(bs),
                        None => body is None,
                    },
                decreases raw_request@.len() - pos,
            {
                if pos >= raw_request.len() {
                    proof {
                        assert(spec_headers_from(raw_request@, pos as int) =~= Seq::<(
                            Seq<u8>,
                            Seq<u8>,
                        )>::empty());
                    }
                    break ;
                }
                match find_crlf(raw_request, pos) {
                    Some(le) => {
                        if le == pos {
                            proof {
                                assert(spec_headers_from(raw_request@, pos as int) =~= Seq::<(
                                    Seq<u8>,
                                    Seq<u8>,
                                )>::empty());
                                assert(spec_body_start_from(raw_request@, pos as int) == Some(
                                    pos as int + 2,
                                ));
                            }
                            let b = copy_range(raw_request, pos + 2, raw_request.len());
                            proof {
                                assert(b@ =~= raw_request@.skip(pos as int + 2));
                            }
                            body = Some(b);
                            break ;
                        }
                        match find_byte(raw_request, pos, le, 58) {
                            Some(c) => {
                                let name = copy_trimmed(raw_request, pos, c);
                                let value = copy_trimmed(raw_request, c + 1, le);
                                proof {
                                    let whole = spec_headers_from(
                                        raw_request@,
                                        line_end as int + 2,
                                    );
                                    let here = spec_headers_from(raw_request@, pos as int);
                                    let next = spec_headers_from(raw_request@, le as int + 2);
                                    assert(here == seq![(name@, value@)] + next);
                                    assert(here[0] == (name@, value@));
                                    assert(whole.skip(headers@.len() as int) == here);
                                    assert(whole[headers@.len() as int] == here[0]);
                                    assert(whole.skip(headers@.len() as int + 1) =~= here.skip(1));
                                    assert(here.skip(1) =~= next);
                                }
                                headers.push((name, value));
                            },
                            None => {
                                proof {
                                    let here = spec_headers_from(raw_request@, pos as int);
                                    let next = spec_headers_from(raw_request@, le as int + 2);
                                    assert(here == next);
                                }
                            },
                        }
                        pos = le + 2;
                    },
                    None => {
                        match find_byte(raw_request, pos, raw_request.len(), 58) {
                            Some(c) => {
                                let name = copy_trimmed(raw_request, pos, c);
                                let value = copy_trimmed(raw_request, c + 1, raw_request.len());
                                proof {
                                    let whole = spec_headers_from(
                                        raw_request@,
                                        line_end as int + 2,
                                    );
                                    let here = spec_headers_from(raw_request@, pos as int);
                                    assert(here == seq![(name@, value@)]);
                                    assert(whole.skip(headers@.len() as int) == here);
                                    assert(whole[headers@.len() as int] == here[0]);
                                    assert(whole.skip(headers@.len() as int + 1) =~= here.skip(1));
                                    assert(here.skip(1) =~= Seq::<(Seq<u8>, Seq<u8>)>::empty());
                                }
                                headers.push((name, value));
                            },
                            None => {
                                proof {
                                    let here = spec_headers_from(raw_request@, pos as int);
                                    assert(here =~= Seq::<(Seq<u8>, Seq<u8>)>::empty());
                                }
                            },
                        }
                        pos = raw_request.len();
                    },
                }
            }
        }
        proof {
            if spec_find_crlf(raw_request@, 0) is None {
                assert(spec_request_headers(raw_request@) =~= Seq::<(Seq<u8>, Seq<u8>)>::empty());
            }
        }
        Some(ApiRequest { path, method, headers, body })
    }

    /// Serialize a response: the status line with its reason phrase, the
    /// header lines, the empty line, then the body if there is one.
    pub fn format_response(response: &ApiResponse) -> (r: Vec<u8>)
        ensures
            r@ == spec_format_response(*response),
    {
        let mut out: Vec<u8> = Vec::new();
        out.extend_from_slice("HTTP/1.1 ".as_bytes());
        push_decimal(response.status as u64, &mut out);
        out.extend_from_slice(" ".as_bytes());
        out.extend_from_slice(status_text(response.status).as_bytes());
        out.extend_from_slice("\r\n".as_bytes());
        let mut k: usize = 0;
        let ghost before_headers = out@;
        while k < response.headers.len()
            invariant
                k <= response.headers@.len(),
                out@ =~= before_headers + spec_header_lines(response.headers@.take(k as int)),
            decreases response.headers@.len() - k,
        {
            proof {
                lemma_header_lines_take_step(response.headers@, k as int);
            }
            out.extend_from_slice(response.headers[k].0.as_slice());
            out.extend_from_slice(": ".as_bytes());
            out.extend_from_slice(response.headers[k].1.as_slice());
            out.extend_from_slice("\r\n".as_bytes());
            k = k + 1;
        }
        proof {
            assert(response.headers@.take(response.headers@.len() as int) =~= response.headers@);
        }
        out.extend_from_slice("\r\n".as_bytes());
        match &response.body {
            Some(b) => {
                out.extend_from_slice(b.as_slice());
            },
            None => {},
        }
        proof {
            assert(out@ =~= spec_format_response(*response));
        }
        out
    }
}

/// Whether the bytes spell exactly the given text.
fn bytes_eq_str(bytes: &Vec<u8>, s: &str) -> (r: bool)
    ensures
        r == (bytes@ == s.spec_bytes()),
{
    let sb = s.as_bytes();
    if bytes.len() != sb.len() {
        proof {
            assert(bytes@ != s.spec_bytes());
        }
        return false;
    }
    let mut k: usize = 0;
    while k < bytes.len()
        invariant
            k <= bytes@.len(),
            bytes@.len() == sb@.len(),
            sb@ == s.spec_bytes(),
            forall|j: int| 0 <= j < k ==> bytes@[j] == sb@[j],
        decreases bytes@.len() - k,
    {
        if bytes[k] != sb[k] {
            proof {
                assert(bytes@ != s.spec_bytes());
            }
            return false;
        }
        k = k + 1;
    }
    proof {
        assert(bytes@ =~= s.spec_bytes());
    }
    true
}

proof fn lemma_header_lines_take_step(hs: Seq<(Vec<u8>, Vec<u8>)>, k: int)
    requires
        0 <= k < hs.len(),
    ensures
        spec_header_lines(hs.take(k + 1)) == spec_header_lines(hs.take(k)) + hs[k].0@
            + ": ".spec_bytes() + hs[k].1@ + "\r\n".spec_bytes(),
    decreases k,
{
    if k == 0 {
        assert(hs.take(1)[0] == hs[0]);
        assert(hs.take(1).drop_first() =~= Seq::<(Vec<u8>, Vec<u8>)>::empty());
        assert(hs.take(0) =~= Seq::<(Vec<u8>, Vec<u8>)>::empty());
        assert(spec_header_lines(Seq::<(Vec<u8>, Vec<u8>)>::empty()) == Seq::<u8>::empty());
        assert(spec_header_lines(hs.take(1)) =~= spec_header_lines(hs.take(0)) + hs[0].0@
            + ": ".spec_bytes() + hs[0].1@ + "\r\n".spec_bytes());
    } else {
        lemma_header_lines_take_step(hs.drop_first(), k - 1);
        assert(hs.take(k + 1).drop_first() =~= hs.drop_first().take(k));
        assert(hs.take(k).drop_first() =~= hs.drop_first().take(k - 1));
        assert(hs.take(k + 1)[0] == hs[0]);
        assert(hs.take(k)[0] == hs[0]);
        assert(hs.drop_first()[k - 1] == hs[k]);
        assert(spec_header_lines(hs.take(k + 1)) =~= spec_header_lines(hs.take(k)) + hs[k].0@
            + ": ".spec_bytes() + hs[k].1@ + "\r\n".spec_bytes());
    }
}

} // verus!
