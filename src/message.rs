pub use crate::headers::Headers;
use crate::headers::{insert_all, insert_entry, lookup, names_unique, settings_keep_other_headers};
use crate::text::{
    count_tokens, lemma_skip_word, lemma_skip_ws, line_end, line_len, segment_is, skip_word, skip_word_from, skip_ws, skip_ws_from,
    utf8_text,
};
use vstd::prelude::*;
use vstd::string::{StringExecFns, StringSliceAdditionalSpecFns};
use vstd::slice::slice_subrange;
use vstd::utf8::{decode_utf8, encode_utf8, encode_utf8_decode_utf8, valid_utf8};

verus! {

/// `std::io::Error`, carried unopened inside `RequestError::Io`.
#[verifier::external_type_specification]
#[verifier::external_body]
pub struct ExIoError(std::io::Error);

/// Why a request could not be read.
#[derive(Debug)]
pub enum RequestError {
    /// Reading the stream failed, or the request line was not valid UTF-8.
    Io(std::io::Error),
    /// The request does not follow the grammar, or names an unsupported method.
    InvalidFormat,
    /// A required header is absent (no header is required at present).
    MissingHeader(String),
}

impl RequestError {
    /// The underlying I/O error, for `Io`.
    pub fn source(&self) -> (r: Option<&std::io::Error>)
        ensures
            r is Some <==> (*self is Io),
            r matches Some(e) ==> *e == self->Io_0,
    {
        match self {
            RequestError::Io(err) => Some(err),
            _ => None,
        }
    }

    /// A short description of the error, with `io_text` standing for the text of the
    /// I/O error that `Io` carries.
    pub fn describe_with(&self, io_text: &str) -> (r: String)
        ensures
            (*self is Io) ==> r@ == "IO error: "@ + io_text@,
            (*self is InvalidFormat) ==> r@ == "Invalid request format"@,
            (*self is MissingHeader) ==> r@ == "Missing required header: "@ + self->MissingHeader_0@,
    {
        match self {
            RequestError::Io(_) => {
                let mut r = "IO error: ".to_owned();
                r.append(io_text);
                r
            },
            RequestError::InvalidFormat => "Invalid request format".to_owned(),
            RequestError::MissingHeader(header) => {
                let mut r = "Missing required header: ".to_owned();
                r.append(header.as_str());
                r
            },
        }
    }

    /// A short description of the error; for `Io`, followed by the I/O error's own text.
    pub fn describe(&self) -> (r: String)
        ensures
            (*self is Io) ==> exists|t: Seq<char>| r@ == "IO error: "@ + t,
            (*self is InvalidFormat) ==> r@ == "Invalid request format"@,
            (*self is MissingHeader) ==> r@ == "Missing required header: "@ + self->MissingHeader_0@,
    {
        match self {
            RequestError::Io(err) => {
                let text = io_error_text(err);
                self.describe_with(text.as_str())
            },
            _ => self.describe_with(""),
        }
    }
}

/// Relies on `<std::io::Error as ToString>::to_string`: the error's display text. It
/// may come from the operating system, so nothing is stated of it.
#[verifier::external_body]
fn io_error_text(e: &std::io::Error) -> String {
    e.to_string()
}

impl From<std::io::Error> for RequestError {
    fn from(err: std::io::Error) -> RequestError {
        RequestError::Io(err)
    }
}

impl vstd::std_specs::convert::FromSpecImpl<std::io::Error> for RequestError {
    open spec fn obeys_from_spec() -> bool {
        true
    }

    open spec fn from_spec(v: std::io::Error) -> RequestError {
        RequestError::Io(v)
    }
}

/// The request methods the server accepts; it serves files read-only.
#[derive(Debug, Clone, Copy, PartialEq, Eq, Structural)]
pub enum HttpMethod {
    GET,
    HEAD,
    OPTIONS,
}

/// The method token that names each method.
pub open spec fn method_text(m: HttpMethod) -> Seq<char> {
    match m {
        HttpMethod::GET => "GET"@,
        HttpMethod::HEAD => "HEAD"@,
        HttpMethod::OPTIONS => "OPTIONS"@,
    }
}

/// The method that a token names, compared case-sensitively.
pub open spec fn method_of(t: Seq<char>) -> Option<HttpMethod> {
    if t == "GET"@ {
        Some(HttpMethod::GET)
    } else if t == "HEAD"@ {
        Some(HttpMethod::HEAD)
    } else if t == "OPTIONS"@ {
        Some(HttpMethod::OPTIONS)
    } else {
        None
    }
}

impl HttpMethod {
    /// Reads a method token: exactly `GET`, `HEAD` or `OPTIONS`, anything else
    /// being `InvalidFormat`.
    pub fn from_str(s: &str) -> (r: Result<HttpMethod, RequestError>)
        ensures
            match method_of(s@) {
                Some(m) => r == Ok::<HttpMethod, RequestError>(m),
                None => r is Err && (r->Err_0 is InvalidFormat),
            },
    {
        let n = s.unicode_len();
        assert(s@.subrange(0, n as int) =~= s@);
        if segment_is(s, 0, n, "GET") {
            Ok(HttpMethod::GET)
        } else if segment_is(s, 0, n, "HEAD") {
            Ok(HttpMethod::HEAD)
        } else if segment_is(s, 0, n, "OPTIONS") {
            Ok(HttpMethod::OPTIONS)
        } else {
            Err(RequestError::InvalidFormat)
        }
    }

    /// The method token.
    pub fn as_str(&self) -> (r: &'static str)
        ensures
            r@ == method_text(*self),
    {
        match self {
            HttpMethod::GET => "GET",
            HttpMethod::HEAD => "HEAD",
            HttpMethod::OPTIONS => "OPTIONS",
        }
    }

    /// The method token, as an owned string.
    pub fn to_string(&self) -> (r: String)
        ensures
            r@ == method_text(*self),
    {
        self.as_str().to_owned()
    }
}

impl std::str::FromStr for HttpMethod {
    type Err = RequestError;

    fn from_str(s: &str) -> Result<HttpMethod, RequestError> {
        HttpMethod::from_str(s)
    }
}

/// The response statuses the server can send.
#[derive(Debug, Clone, Copy, PartialEq, Eq, Structural)]
pub enum HttpStatus {
    OK,
    NotModified,
    BadRequest,
    Forbidden,
    NotFound,
    MethodNotAllowed,
    InternalServerError,
}

/// The numeric code of a status.
pub open spec fn status_code(s: HttpStatus) -> u16 {
    match s {
        HttpStatus::OK => 200,
        HttpStatus::NotModified => 304,
        HttpStatus::BadRequest => 400,
        HttpStatus::Forbidden => 403,
        HttpStatus::NotFound => 404,
        HttpStatus::MethodNotAllowed => 405,
        HttpStatus::InternalServerError => 500,
    }
}

/// Code and reason phrase, as they stand in a status line.
pub open spec fn status_text(s: HttpStatus) -> Seq<char> {
    match s {
        HttpStatus::OK => "200 OK"@,
        HttpStatus::NotModified => "304 Not Modified"@,
        HttpStatus::BadRequest => "400 Bad Request"@,
        HttpStatus::Forbidden => "403 Forbidden"@,
        HttpStatus::NotFound => "404 Not Found"@,
        HttpStatus::MethodNotAllowed => "405 Method Not Allowed"@,
        HttpStatus::InternalServerError => "500 Internal Server Error"@,
    }
}

impl HttpStatus {
    /// Code and reason phrase, such as `404 Not Found`.
    pub fn as_str(&self) -> (r: &'static str)
        ensures
            r@ == status_text(*self),
    {
        match self {
            HttpStatus::OK => "200 OK",
            HttpStatus::NotModified => "304 Not Modified",
            HttpStatus::BadRequest => "400 Bad Request",
            HttpStatus::Forbidden => "403 Forbidden",
            HttpStatus::NotFound => "404 Not Found",
            HttpStatus::MethodNotAllowed => "405 Method Not Allowed",
            HttpStatus::InternalServerError => "500 Internal Server Error",
        }
    }

    /// Code and reason phrase, as an owned string.
    pub fn to_string(&self) -> (r: String)
        ensures
            r@ == status_text(*self),
    {
        self.as_str().to_owned()
    }

    /// The numeric status code.
    pub fn code(&self) -> (r: u16)
        ensures
            r == status_code(*self),
    {
        match self {
            HttpStatus::OK => 200,
            HttpStatus::NotModified => 304,
            HttpStatus::BadRequest => 400,
            HttpStatus::Forbidden => 403,
            HttpStatus::NotFound => 404,
            HttpStatus::MethodNotAllowed => 405,
            HttpStatus::InternalServerError => 500,
        }
    }
}


/// Value of the `Server` header that every response starts with.
pub const SERVER_NAME: &'static str = "file-shover/1.0";

/// The character of a decimal digit.
pub open spec fn digit_char(d: nat) -> char {
    if d == 0 {
        '0'
    } else if d == 1 {
        '1'
    } else if d == 2 {
        '2'
    } else if d == 3 {
        '3'
    } else if d == 4 {
        '4'
    } else if d == 5 {
        '5'
    } else if d == 6 {
        '6'
    } else if d == 7 {
        '7'
    } else if d == 8 {
        '8'
    } else {
        '9'
    }
}

/// `n` written in decimal, without leading zeros.
pub open spec fn decimal(n: nat) -> Seq<char>
    decreases n,
{
    if n < 10 {
        seq![digit_char(n)]
    } else {
        decimal(n / 10).push(digit_char(n % 10))
    }
}

fn digit_str(d: u64) -> (r: &'static str)
    requires
        d < 10,
    ensures
        r@ == seq![digit_char(d as nat)],
{
    proof {
        reveal_strlit("0");
        reveal_strlit("1");
        reveal_strlit("2");
        reveal_strlit("3");
        reveal_strlit("4");
        reveal_strlit("5");
        reveal_strlit("6");
        reveal_strlit("7");
        reveal_strlit("8");
        reveal_strlit("9");
    }
    let r = if d == 0 {
        "0"
    } else if d == 1 {
        "1"
    } else if d == 2 {
        "2"
    } else if d == 3 {
        "3"
    } else if d == 4 {
        "4"
    } else if d == 5 {
        "5"
    } else if d == 6 {
        "6"
    } else if d == 7 {
        "7"
    } else if d == 8 {
        "8"
    } else {
        "9"
    };
    assert(r@ =~= seq![digit_char(d as nat)]);
    r
}

fn append_decimal(out: &mut String, n: u64)
    ensures
        final(out)@ == old(out)@ + decimal(n as nat),
    decreases n,
{
    if n >= 10 {
        append_decimal(out, n / 10);
    }
    out.append(digit_str(n % 10));
    assert(n >= 10 ==> decimal(n as nat) == decimal((n / 10) as nat).push(digit_char((n % 10) as nat)));
    if n >= 10 {
        assert(old(out)@ + decimal((n / 10) as nat) + seq![digit_char((n % 10) as nat)] =~= old(out)@
            + decimal(n as nat));
    } else {
        assert(old(out)@ + seq![digit_char((n % 10) as nat)] =~= old(out)@ + decimal(n as nat));
    }
}

/// `n` written in decimal.
pub fn decimal_string(n: u64) -> (r: String)
    ensures
        r@ == decimal(n as nat),
{
    let mut s = String::new();
    append_decimal(&mut s, n);
    assert(s@ =~= decimal(n as nat));
    s
}

/// The header lines of a response, in order: `name: value` and CRLF for each.
pub open spec fn headers_text(s: Seq<(Seq<char>, Seq<char>)>) -> Seq<char>
    decreases s.len(),
{
    if s.len() == 0 {
        Seq::empty()
    } else {
        headers_text(s.drop_last()) + s.last().0 + ": "@ + s.last().1 + "\r\n"@
    }
}

/// Status line, header lines and the empty line that ends them.
pub open spec fn head_text(status: HttpStatus, headers: Seq<(Seq<char>, Seq<char>)>) -> Seq<
    char,
> {
    "HTTP/1.1 "@ + status_text(status) + "\r\n"@ + headers_text(headers) + "\r\n"@
}

/// The bytes of a body, empty when there is none.
pub open spec fn body_bytes(body: Option<Vec<u8>>) -> Seq<u8> {
    match body {
        Some(b) => b@,
        None => Seq::empty(),
    }
}

/// A response as sent on the wire: the UTF-8 encoded head, then the body verbatim.
pub open spec fn encoded(status: HttpStatus, headers: Seq<(Seq<char>, Seq<char>)>, body: Option<Vec<u8>>) -> Seq<u8> {
    encode_utf8(head_text(status, headers)) + body_bytes(body)
}

/// The headers every response starts with.
pub open spec fn default_headers() -> Seq<(Seq<char>, Seq<char>)> {
    seq![("Server"@, SERVER_NAME@), ("Connection"@, "close"@)]
}

impl Default for Response {
    fn default() -> (r: Response)
        ensures
            r.status == HttpStatus::OK,
            r.headers@ == default_headers(),
            r.body is None,
    {
        Response::new()
    }
}


/// A response built from `Response::new` by header settings that name neither
/// `Server` nor `Connection` still carries `Server: file-shover/1.0` and
/// `Connection: close`, each exactly once, as names stay distinct.
pub proof fn defaults_kept(ops: Seq<(Seq<char>, Seq<char>)>)
    requires
        forall|i: int|
            0 <= i < ops.len() ==> (#[trigger] ops[i]).0 != "Server"@ && ops[i].0 != "Connection"@,
    ensures
        lookup(insert_all(default_headers(), ops), "Server"@) == Some(SERVER_NAME@),
        lookup(insert_all(default_headers(), ops), "Connection"@) == Some("close"@),
        names_unique(insert_all(default_headers(), ops)),
{
    reveal_strlit("Server");
    reveal_strlit("Connection");
    let d = default_headers();
    assert(d[0].0 != d[1].0) by {
        assert("Server"@[0] != "Connection"@[0]);
    }
    assert(names_unique(d));
    assert(lookup(d, "Server"@) == Some(SERVER_NAME@));
    assert(lookup(d.drop_first(), "Connection"@) == Some("close"@));
    assert(lookup(d, "Connection"@) == Some("close"@));
    settings_keep_other_headers(d, ops, "Server"@);
    settings_keep_other_headers(d, ops, "Connection"@);
}

/// An HTTP response, built step by step and then written out once.
#[derive(Debug)]
pub struct Response {
    pub status: HttpStatus,
    pub headers: Headers,
    pub body: Option<Vec<u8>>,
}

impl Response {
    /// Status 200, the headers `Server: file-shover/1.0` and `Connection: close`, and no body.
    pub fn new() -> (r: Response)
        ensures
            r.status == HttpStatus::OK,
            r.headers@ == default_headers(),
            names_unique(r.headers@),
            r.body is None,
    {
        let mut headers = Headers::new();
        headers.insert("Server".to_owned(), SERVER_NAME.to_owned());
        proof {
            reveal_strlit("Server");
            reveal_strlit("Connection");
            assert("Server"@[0] != "Connection"@[0]);
            let one = seq![("Server"@, SERVER_NAME@)];
            assert(insert_entry(one, "Connection"@, "close"@) =~= default_headers()) by {
                assert(insert_entry(one.drop_first(), "Connection"@, "close"@) == seq![("Connection"@, "close"@)]);
            }
        }
        headers.insert("Connection".to_owned(), "close".to_owned());
        Response { status: HttpStatus::OK, headers, body: None }
    }

    /// Sets the status.
    pub fn status(self, status: HttpStatus) -> (r: Response)
        ensures
            r.status == status,
            r.headers@ == self.headers@,
            r.body == self.body,
    {
        let mut r = self;
        r.status = status;
        r
    }

    /// Sets header `name` to `value`, replacing an earlier value of that header.
    pub fn header(self, name: &str, value: &str) -> (r: Response)
        ensures
            r.status == self.status,
            r.headers@ == insert_entry(self.headers@, name@, value@),
            names_unique(self.headers@) ==> names_unique(r.headers@),
            r.body == self.body,
    {
        let mut r = self;
        r.headers.insert(name.to_owned(), value.to_owned());
        r
    }

    /// Sets the body.
    pub fn body(self, body: Vec<u8>) -> (r: Response)
        ensures
            r.status == self.status,
            r.headers@ == self.headers@,
            r.body == Some(body),
    {
        let mut r = self;
        r.body = Some(body);
        r
    }

    /// Sets the `Content-Type` header.
    pub fn content_type(self, mime_type: &str) -> (r: Response)
        ensures
            r.status == self.status,
            r.headers@ == insert_entry(self.headers@, "Content-Type"@, mime_type@),
            names_unique(self.headers@) ==> names_unique(r.headers@),
            r.body == self.body,
    {
        self.header("Content-Type", mime_type)
    }

    /// Sets the `Server` header.
    pub fn server(self, name: &str) -> (r: Response)
        ensures
            r.status == self.status,
            r.headers@ == insert_entry(self.headers@, "Server"@, name@),
            names_unique(self.headers@) ==> names_unique(r.headers@),
            r.body == self.body,
    {
        self.header("Server", name)
    }

    /// Sets the `Content-Length` header to `len` in decimal.
    pub fn content_length(self, len: u64) -> (r: Response)
        ensures
            r.status == self.status,
            r.headers@ == insert_entry(self.headers@, "Content-Length"@, decimal(len as nat)),
            names_unique(self.headers@) ==> names_unique(r.headers@),
            r.body == self.body,
    {
        let text = decimal_string(len);
        self.header("Content-Length", text.as_str())
    }

    /// Appends the response to `out`: `HTTP/1.1`, the status and CRLF; each header as
    /// `name: value` and CRLF; an empty line; then the body, if any, verbatim.
    pub fn write(&self, out: &mut Vec<u8>)
        ensures
            final(out)@ == old(out)@ + encoded(self.status, self.headers@, self.body),
    {
        let mut text = String::new();
        text.append("HTTP/1.1 ");
        text.append(self.status.as_str());
        text.append("\r\n");
        let n = self.headers.len();
        let mut i: usize = 0;
        while i < n
            invariant
                i <= n,
                n == self.headers@.len(),
                text@ == "HTTP/1.1 "@ + status_text(self.status) + "\r\n"@ + headers_text(
                    self.headers@.subrange(0, i as int),
                ),
            decreases n - i,
        {
            let (name, value) = self.headers.entry(i);
            text.append(name.as_str());
            text.append(": ");
            text.append(value.as_str());
            text.append("\r\n");
            proof {
                let h = self.headers@.subrange(0, i + 1);
                assert(h.drop_last() =~= self.headers@.subrange(0, i as int));
                assert(h.last() == self.headers@[i as int]);
            }
            i = i + 1;
        }
        text.append("\r\n");
        assert(self.headers@.subrange(0, n as int) =~= self.headers@);
        let bytes = text.as_str().as_bytes();
        out.extend_from_slice(bytes);
        match &self.body {
            Some(b) => {
                out.extend_from_slice(b.as_slice());
            },
            None => {},
        }
        assert(final(out)@ =~= old(out)@ + encoded(self.status, self.headers@, self.body));
    }
}



/// Position of the first CRLF at or after `i`, or the length of `t` when there is none.
pub open spec fn find_crlf(t: Seq<char>, i: int) -> int
    decreases t.len() - i,
{
    if i < 0 || i + 1 >= t.len() {
        t.len() as int
    } else if t[i] == '\r' && t[i + 1] == '\n' {
        i
    } else {
        find_crlf(t, i + 1)
    }
}

/// The status whose code and reason phrase are `t`.
pub open spec fn status_named(t: Seq<char>) -> Option<HttpStatus> {
    if t == status_text(HttpStatus::OK) {
        Some(HttpStatus::OK)
    } else if t == status_text(HttpStatus::NotModified) {
        Some(HttpStatus::NotModified)
    } else if t == status_text(HttpStatus::BadRequest) {
        Some(HttpStatus::BadRequest)
    } else if t == status_text(HttpStatus::Forbidden) {
        Some(HttpStatus::Forbidden)
    } else if t == status_text(HttpStatus::NotFound) {
        Some(HttpStatus::NotFound)
    } else if t == status_text(HttpStatus::MethodNotAllowed) {
        Some(HttpStatus::MethodNotAllowed)
    } else if t == status_text(HttpStatus::InternalServerError) {
        Some(HttpStatus::InternalServerError)
    } else {
        None
    }
}

/// The status read from the first line of a response head.
pub open spec fn read_status(t: Seq<char>) -> Option<HttpStatus> {
    let k = find_crlf(t, 0);
    if 9 <= k && k + 1 < t.len() && t.subrange(0, 9) == "HTTP/1.1 "@ {
        status_named(t.subrange(9, k))
    } else {
        None
    }
}

/// Header fields read from CRLF-terminated `name: value` lines up to an empty line.
pub open spec fn read_header_lines(t: Seq<char>) -> Option<Seq<(Seq<char>, Seq<char>)>>
    decreases t.len(),
{
    let k = find_crlf(t, 0);
    if k < 0 || k + 1 >= t.len() {
        None
    } else if k == 0 {
        Some(Seq::empty())
    } else {
        match split_header(t.subrange(0, k)) {
            None => None,
            Some(kv) => match read_header_lines(t.subrange(k + 2, t.len() as int)) {
                Some(rest) => Some(seq![kv] + rest),
                None => None,
            },
        }
    }
}

/// The header fields read from a response head: the lines after the status line.
pub open spec fn read_headers(t: Seq<char>) -> Option<Seq<(Seq<char>, Seq<char>)>> {
    let k = find_crlf(t, 0);
    if 0 <= k && k + 1 < t.len() {
        read_header_lines(t.subrange(k + 2, t.len() as int))
    } else {
        None
    }
}

/// Whether `": "` occurs in `s`.
pub open spec fn has_separator(s: Seq<char>) -> bool {
    exists|i: int| 0 <= i && i + 1 < s.len() && #[trigger] s[i] == ':' && s[i + 1] == ' '
}

/// A header field that can be written and read back: no carriage return anywhere,
/// and no `": "` in the name.
pub open spec fn field_ok(f: (Seq<char>, Seq<char>)) -> bool {
    &&& forall|i: int| 0 <= i < f.0.len() ==> #[trigger] f.0[i] != '\r'
    &&& !has_separator(f.0)
    &&& forall|i: int| 0 <= i < f.1.len() ==> #[trigger] f.1[i] != '\r'
}

/// One header line without its CRLF.
pub open spec fn field_line(f: (Seq<char>, Seq<char>)) -> Seq<char> {
    f.0 + ": "@ + f.1
}

proof fn lemma_find_crlf(a: Seq<char>, b: Seq<char>, i: int)
    requires
        0 <= i <= a.len(),
        forall|j: int| i <= j < a.len() ==> a[j] != '\r',
    ensures
        find_crlf(a + "\r\n"@ + b, i) == a.len(),
    decreases a.len() - i,
{
    reveal_strlit("\r\n");
    let t = a + "\r\n"@ + b;
    if i < a.len() {
        assert(t[i] == a[i]);
        lemma_find_crlf(a, b, i + 1);
    } else {
        assert(t[i] == '\r');
        assert(t[i + 1] == '\n');
    }
}

proof fn lemma_find_sep(k: Seq<char>, v: Seq<char>, i: int)
    requires
        0 <= i <= k.len(),
        !has_separator(k),
    ensures
        find_sep(k + ": "@ + v, i) == k.len(),
    decreases k.len() - i,
{
    reveal_strlit(": ");
    let t = k + ": "@ + v;
    if i < k.len() {
        assert(t[i] == k[i]);
        if i + 1 < k.len() {
            assert(t[i + 1] == k[i + 1]);
            assert(!(k[i] == ':' && k[i + 1] == ' '));
        } else {
            assert(t[i + 1] == ':');
        }
        lemma_find_sep(k, v, i + 1);
    } else {
        assert(t[i] == ':');
        assert(t[i + 1] == ' ');
    }
}

proof fn lemma_split_field(f: (Seq<char>, Seq<char>))
    requires
        field_ok(f),
    ensures
        split_header(field_line(f)) == Some(f),
{
    reveal_strlit(": ");
    lemma_find_sep(f.0, f.1, 0);
    let t = field_line(f);
    assert(t.subrange(0, f.0.len() as int) =~= f.0);
    assert(t.subrange(f.0.len() + 2int, t.len() as int) =~= f.1);
}

proof fn lemma_headers_text_front(s: Seq<(Seq<char>, Seq<char>)>)
    requires
        s.len() > 0,
    ensures
        headers_text(s) == field_line(s[0]) + "\r\n"@ + headers_text(s.drop_first()),
    decreases s.len(),
{
    if s.len() == 1 {
        assert(s.drop_first() =~= Seq::<(Seq<char>, Seq<char>)>::empty());
        assert(s.drop_last() =~= Seq::<(Seq<char>, Seq<char>)>::empty());
        assert(headers_text(s.drop_last()) == Seq::<char>::empty());
        assert(s.last() == s[0]);
        assert(headers_text(s) == Seq::<char>::empty() + s[0].0 + ": "@ + s[0].1 + "\r\n"@);
        assert(headers_text(s) =~= field_line(s[0]) + "\r\n"@);
        assert(field_line(s[0]) + "\r\n"@ + Seq::<char>::empty() =~= field_line(s[0]) + "\r\n"@);
    } else {
        lemma_headers_text_front(s.drop_last());
        assert(s.drop_last().drop_first() =~= s.drop_first().drop_last());
        assert(s.drop_first().last() == s.last());
        assert(s.drop_last()[0] == s[0]);
        assert(headers_text(s) =~= field_line(s[0]) + "\r\n"@ + headers_text(s.drop_first()));
    }
}

proof fn lemma_read_header_lines(s: Seq<(Seq<char>, Seq<char>)>)
    requires
        forall|i: int| 0 <= i < s.len() ==> field_ok(#[trigger] s[i]),
    ensures
        read_header_lines(headers_text(s) + "\r\n"@) == Some(s),
    decreases s.len(),
{
    reveal_strlit("\r\n");
    reveal_strlit(": ");
    if s.len() == 0 {
        let t = headers_text(s) + "\r\n"@;
        assert(t =~= "\r\n"@);
        assert(find_crlf(t, 0) == 0);
    } else {
        let f = s[0];
        assert(field_ok(f));
        let line = field_line(f);
        let rest = headers_text(s.drop_first()) + "\r\n"@;
        lemma_headers_text_front(s);
        let t = headers_text(s) + "\r\n"@;
        assert(t =~= line + "\r\n"@ + rest);
        assert forall|j: int| 0 <= j < line.len() implies line[j] != '\r' by {
            if j < f.0.len() {
                assert(line[j] == f.0[j]);
            } else if j >= f.0.len() + 2 {
                assert(line[j] == f.1[j - f.0.len() - 2]);
            }
        }
        lemma_find_crlf(line, rest, 0);
        assert(t.subrange(0, line.len() as int) =~= line);
        assert(t.subrange(line.len() + 2int, t.len() as int) =~= rest);
        lemma_split_field(f);
        assert forall|i: int| 0 <= i < s.drop_first().len() implies field_ok(
            #[trigger] s.drop_first()[i],
        ) by {
            assert(s.drop_first()[i] == s[i + 1]);
        }
        lemma_read_header_lines(s.drop_first());
        assert(seq![f] + s.drop_first() =~= s);
    }
}

proof fn lemma_status_named(status: HttpStatus)
    ensures
        status_named(status_text(status)) == Some(status),
{
    reveal_strlit("200 OK");
    reveal_strlit("304 Not Modified");
    reveal_strlit("400 Bad Request");
    reveal_strlit("403 Forbidden");
    reveal_strlit("404 Not Found");
    reveal_strlit("405 Method Not Allowed");
    reveal_strlit("500 Internal Server Error");
    let texts = seq![
        status_text(HttpStatus::OK),
        status_text(HttpStatus::NotModified),
        status_text(HttpStatus::BadRequest),
        status_text(HttpStatus::Forbidden),
        status_text(HttpStatus::NotFound),
        status_text(HttpStatus::MethodNotAllowed),
        status_text(HttpStatus::InternalServerError),
    ];
    assert(texts[0][0] == '2');
    assert(texts[1][0] == '3');
    assert(texts[2][2] == '0');
    assert(texts[3][2] == '3');
    assert(texts[4][2] == '4');
    assert(texts[5][2] == '5');
    assert(texts[6][0] == '5');
}

/// The status line of an encoded response reads back as the status it was written
/// with, whatever its headers and body; the head's bytes decode back to its text,
/// and the body follows them unchanged.
pub proof fn status_reads_back(r: Response)
    ensures
        read_status(head_text(r.status, r.headers@)) == Some(r.status),
        encoded(r.status, r.headers@, r.body) == encode_utf8(head_text(r.status, r.headers@))
            + body_bytes(r.body),
        decode_utf8(encode_utf8(head_text(r.status, r.headers@))) == head_text(r.status, r.headers@),
{
    let status = r.status;
    let headers = r.headers@;
    reveal_strlit("HTTP/1.1 ");
    reveal_strlit("\r\n");
    lemma_status_named(status);
    encode_utf8_decode_utf8(head_text(status, headers));
    let first = "HTTP/1.1 "@ + status_text(status);
    let rest = headers_text(headers) + "\r\n"@;
    let t = head_text(status, headers);
    assert(t =~= first + "\r\n"@ + rest);
    lemma_status_line_plain(status);
    lemma_find_crlf(first, rest, 0);
    assert(t.subrange(0, 9) =~= "HTTP/1.1 "@);
    assert(t.subrange(9, first.len() as int) =~= status_text(status));
}

proof fn lemma_status_line_plain(status: HttpStatus)
    ensures
        forall|j: int|
            0 <= j < ("HTTP/1.1 "@ + status_text(status)).len() ==> #[trigger] ("HTTP/1.1 "@
                + status_text(status))[j] != '\r',
{
    reveal_strlit("HTTP/1.1 ");
    reveal_strlit("200 OK");
    reveal_strlit("304 Not Modified");
    reveal_strlit("400 Bad Request");
    reveal_strlit("403 Forbidden");
    reveal_strlit("404 Not Found");
    reveal_strlit("405 Method Not Allowed");
    reveal_strlit("500 Internal Server Error");
}

/// The header lines of an encoded response, each split at its first `": "`, read back
/// as exactly the response's header fields, in order, provided no field holds a
/// carriage return and no name holds `": "`.
pub proof fn headers_read_back(r: Response)
    requires
        forall|i: int| 0 <= i < r.headers@.len() ==> field_ok(#[trigger] r.headers@[i]),
    ensures
        read_headers(head_text(r.status, r.headers@)) == Some(r.headers@),
{
    let status = r.status;
    let headers = r.headers@;
    reveal_strlit("\r\n");
    let first = "HTTP/1.1 "@ + status_text(status);
    let rest = headers_text(headers) + "\r\n"@;
    let t = head_text(status, headers);
    assert(t =~= first + "\r\n"@ + rest);
    lemma_status_line_plain(status);
    lemma_find_crlf(first, rest, 0);
    assert(t.subrange(first.len() + 2int, t.len() as int) =~= rest);
    lemma_read_header_lines(headers);
}

/// Method, path and version: the first three tokens of a request line separated by
/// ASCII whitespace, the first naming a supported method; further tokens are ignored.
pub open spec fn request_line_parts(s: Seq<char>) -> Option<(HttpMethod, Seq<char>, Seq<char>)> {
    let a1 = skip_ws(s, 0);
    let b1 = skip_word(s, a1);
    let a2 = skip_ws(s, b1);
    let b2 = skip_word(s, a2);
    let a3 = skip_ws(s, b2);
    let b3 = skip_word(s, a3);
    if a1 < s.len() && a2 < s.len() && a3 < s.len() && method_of(s.subrange(a1, b1)) is Some {
        Some((method_of(s.subrange(a1, b1))->Some_0, s.subrange(a2, b2), s.subrange(a3, b3)))
    } else {
        None
    }
}


/// A request line with fewer than three tokens is refused as a whole: no method, path
/// or version is taken from it.
pub proof fn short_request_line_rejected(s: Seq<char>)
    requires
        count_tokens(s, 0) < 3,
    ensures
        request_line_parts(s) is None,
{
    let a1 = skip_ws(s, 0);
    lemma_skip_ws(s, 0);
    if a1 < s.len() {
        let b1 = skip_word(s, a1);
        lemma_skip_word(s, a1);
        let a2 = skip_ws(s, b1);
        lemma_skip_ws(s, b1);
        if a2 < s.len() {
            let b2 = skip_word(s, a2);
            lemma_skip_word(s, a2);
            let a3 = skip_ws(s, b2);
            lemma_skip_ws(s, b2);
            if a3 < s.len() {
                let b3 = skip_word(s, a3);
                lemma_skip_word(s, a3);
                assert(count_tokens(s, b2) >= 1);
                assert(count_tokens(s, b1) >= 2);
                assert(count_tokens(s, 0) >= 3);
            }
        }
    }
}

/// Position of the first `": "` at or after `i`, or the length of `t` when there is none.
pub open spec fn find_sep(t: Seq<char>, i: int) -> int
    decreases t.len() - i,
{
    if i < 0 || i + 1 >= t.len() {
        t.len() as int
    } else if t[i] == ':' && t[i + 1] == ' ' {
        i
    } else {
        find_sep(t, i + 1)
    }
}

/// A header line split at its first `": "` into name and value.
pub open spec fn split_header(t: Seq<char>) -> Option<(Seq<char>, Seq<char>)> {
    let k = find_sep(t, 0);
    if k + 1 < t.len() {
        Some((t.subrange(0, k), t.subrange(k + 2, t.len() as int)))
    } else {
        None
    }
}

/// A line without its final carriage return.
pub open spec fn strip_cr(l: Seq<u8>) -> Seq<u8> {
    if l.len() > 0 && l.last() == 13u8 {
        l.drop_last()
    } else {
        l
    }
}

/// The line that starts at `pos`, without its line ending (a carriage return is only
/// removed before a line feed).
pub open spec fn line_at(b: Seq<u8>, pos: int) -> Seq<u8> {
    let e = pos + line_len(b.subrange(pos, b.len() as int));
    if e < b.len() {
        strip_cr(b.subrange(pos, e))
    } else {
        b.subrange(pos, e)
    }
}

/// Why the header section of a request could not be read.
#[derive(Debug, Clone, Copy, PartialEq, Eq, Structural)]
pub enum HeaderFault {
    /// The input ended before the empty line that closes the headers.
    Truncated,
    /// A header line is not valid UTF-8.
    NotText,
    /// A header line has no `": "`.
    Malformed,
}

/// The headers read from the lines from `pos` on, added to `acc`, up to the empty
/// line that closes them; a later value of a name replaces an earlier one. Reaching
/// the end of input first is `Truncated`, a line that is not valid UTF-8 is `NotText`,
/// and a line without `": "` is `Malformed`.
pub open spec fn headers_from(b: Seq<u8>, pos: int, acc: Seq<(Seq<char>, Seq<char>)>) -> Result<
    Seq<(Seq<char>, Seq<char>)>,
    HeaderFault,
>
    decreases b.len() - pos,
{
    if pos < 0 || pos >= b.len() {
        Err(HeaderFault::Truncated)
    } else {
        let line = line_at(b, pos);
        if line.len() == 0 {
            Ok(acc)
        } else if !valid_utf8(line) {
            Err(HeaderFault::NotText)
        } else {
            match split_header(decode_utf8(line)) {
                None => Err(HeaderFault::Malformed),
                Some(kv) => {
                    let next = pos + line_len(b.subrange(pos, b.len() as int)) + 1;
                    headers_from(
                        b,
                        if next < b.len() {
                            next
                        } else {
                            b.len() as int
                        },
                        insert_entry(acc, kv.0, kv.1),
                    )
                },
            }
        }
    }
}

/// The request line: the bytes before the first line feed.
pub open spec fn first_line(b: Seq<u8>) -> Seq<u8> {
    b.subrange(0, line_len(b) as int)
}


/// Whether an empty line ends at `i`: a line feed followed by a line feed, or by a
/// carriage return and a line feed.
pub open spec fn blank_line_at(b: Seq<u8>, i: int) -> bool {
    &&& 0 <= i && i + 1 < b.len()
    &&& b[i] == 10u8
    &&& (b[i + 1] == 10u8 || (i + 2 < b.len() && b[i + 1] == 13u8 && b[i + 2] == 10u8))
}

/// Whether the bytes read so far hold a whole request head: some line after the
/// first is empty, so that no further byte can change what `from_bytes` returns.
pub fn head_complete(input: &[u8]) -> (r: bool)
    ensures
        r == exists|i: int| #[trigger] blank_line_at(input@, i),
{
    let n = input.len();
    let mut i: usize = 0;
    while i < n
        invariant
            n == input@.len(),
            forall|j: int| 0 <= j < i ==> !#[trigger] blank_line_at(input@, j),
        decreases n - i,
    {
        if input[i] == 10u8 && i + 1 < n {
            if input[i + 1] == 10u8 || (i + 2 < n && input[i + 1] == 13u8 && input[i + 2] == 10u8) {
                assert(blank_line_at(input@, i as int));
                return true;
            }
        }
        i = i + 1;
    }
    false
}

/// A parsed HTTP request.
#[derive(Debug)]
pub struct Request {
    pub method: HttpMethod,
    pub path: String,
    pub http_version: String,
    pub headers: Headers,
}

/// Relies on std::io::Error::new: the error that reading a line reports for bytes
/// that are not UTF-8.
#[verifier::external_body]
fn invalid_utf8_error() -> std::io::Error {
    std::io::Error::new(std::io::ErrorKind::InvalidData, "stream did not contain valid UTF-8")
}

/// Splits a request line into method, path and version.
pub fn parse_request_line(line: &str) -> (r: Option<(HttpMethod, String, String)>)
    ensures
        match (r, request_line_parts(line@)) {
            (Some(x), Some(y)) => x.0 == y.0 && x.1@ == y.1 && x.2@ == y.2,
            (None, None) => true,
            _ => false,
        },
{
    let n = line.unicode_len();
    let a1 = skip_ws_from(line, n, 0);
    let b1 = skip_word_from(line, n, a1);
    let a2 = skip_ws_from(line, n, b1);
    let b2 = skip_word_from(line, n, a2);
    let a3 = skip_ws_from(line, n, b2);
    let b3 = skip_word_from(line, n, a3);
    if a1 >= n || a2 >= n || a3 >= n {
        return None;
    }
    let method = match HttpMethod::from_str(line.substring_char(a1, b1)) {
        Ok(m) => m,
        Err(_) => {
            return None;
        },
    };
    let path = line.substring_char(a2, b2).to_owned();
    let version = line.substring_char(a3, b3).to_owned();
    Some((method, path, version))
}

/// Splits a header line at its first `": "` into name and value.
pub fn parse_header_line(line: &str) -> (r: Option<(String, String)>)
    ensures
        match (r, split_header(line@)) {
            (Some(x), Some(y)) => x.0@ == y.0 && x.1@ == y.1,
            (None, None) => true,
            _ => false,
        },
{
    let n = line.unicode_len();
    let mut i: usize = 0;
    while i + 1 < n
        invariant
            n == line@.len(),
            i + 1 < n || i == 0 || i + 1 == n,
            find_sep(line@, i as int) == find_sep(line@, 0),
        decreases n - i,
    {
        if line.get_char(i) == ':' && line.get_char(i + 1) == ' ' {
            let name = line.substring_char(0, i).to_owned();
            let value = line.substring_char(i + 2, n).to_owned();
            return Some((name, value));
        }
        i = i + 1;
    }
    None
}

/// Reads header lines from `start` on, as `headers_from` describes.
fn parse_headers(b: &[u8], start: usize) -> (r: Result<Headers, HeaderFault>)
    requires
        start <= b@.len(),
    ensures
        match (r, headers_from(b@, start as int, Seq::empty())) {
            (Ok(h), Ok(s)) => h@ == s && names_unique(h@),
            (Err(e), Err(f)) => e == f,
            _ => false,
        },
{
    broadcast use encode_utf8_decode_utf8;

    let n = b.len();
    let mut pos = start;
    let mut headers = Headers::new();
    while pos < n
        invariant
            start <= pos <= n,
            n == b@.len(),
            headers_from(b@, pos as int, headers@) == headers_from(b@, start as int, Seq::empty()),
            names_unique(headers@),
        decreases n - pos,
    {
        let e = line_end(b, pos);
        let end = if e < n && e > pos && b[e - 1] == 13u8 {
            e - 1
        } else {
            e
        };
        let bytes = slice_subrange(b, pos, end);
        assert(bytes@ =~= line_at(b@, pos as int));
        if end == pos {
            return Ok(headers);
        }
        let text = match utf8_text(bytes) {
            Some(t) => t,
            None => {
                return Err(HeaderFault::NotText);
            },
        };
        proof {
            encode_utf8_decode_utf8(text@);
            assert(text.spec_bytes() == encode_utf8(text@));
            assert(decode_utf8(bytes@) == text@);
        }
        match parse_header_line(text) {
            None => {
                return Err(HeaderFault::Malformed);
            },
            Some((name, value)) => {
                headers.insert(name, value);
            },
        }
        pos = if e < n {
            e + 1
        } else {
            n
        };
    }
    Err(HeaderFault::Truncated)
}

/// Relies on `From<std::io::ErrorKind> for std::io::Error`: the error that reading
/// reports when the input ends too early.
#[verifier::external_body]
fn unexpected_eof_error() -> std::io::Error {
    std::io::Error::from(std::io::ErrorKind::UnexpectedEof)
}

impl Request {
    /// Parses a request from the bytes read from a connection. The request line runs to
    /// the first line feed; it must be UTF-8 (else `Io`) and hold method, path and
    /// version (else `InvalidFormat`). Header lines follow up to an empty line, as
    /// `headers_from` describes: input that ends before it, or a line that is not UTF-8,
    /// is `Io`; a line without `": "` is `InvalidFormat`. No body is read.
    pub fn from_bytes(input: &[u8]) -> (r: Result<Request, RequestError>)
        ensures
            !valid_utf8(first_line(input@)) ==> (r is Err && (r->Err_0 is Io)),
            valid_utf8(first_line(input@)) ==> match request_line_parts(
                decode_utf8(first_line(input@)),
            ) {
                None => r is Err && (r->Err_0 is InvalidFormat),
                Some(parts) => match headers_from(
                    input@,
                    line_len(input@) + 1int,
                    Seq::empty(),
                ) {
                    Err(HeaderFault::Truncated) => r is Err && (r->Err_0 is Io),
                    Err(HeaderFault::NotText) => r is Err && (r->Err_0 is Io),
                    Err(HeaderFault::Malformed) => r is Err && (r->Err_0 is InvalidFormat),
                    Ok(h) => r is Ok && r->Ok_0.method == parts.0 && r->Ok_0.path@ == parts.1
                        && r->Ok_0.http_version@ == parts.2 && r->Ok_0.headers@ == h
                        && names_unique(h),
                },
            },
    {
        broadcast use encode_utf8_decode_utf8;

        let n = input.len();
        let e0 = line_end(input, 0);
        assert(input@.subrange(0, n as int) =~= input@);
        let first = slice_subrange(input, 0, e0);
        let line = match utf8_text(first) {
            Some(t) => t,
            None => {
                return Err(RequestError::Io(invalid_utf8_error()));
            },
        };
        assert(decode_utf8(first_line(input@)) == line@);
        let (method, path, http_version) = match parse_request_line(line) {
            Some(parts) => parts,
            None => {
                return Err(RequestError::InvalidFormat);
            },
        };
        let start = if e0 < n {
            e0 + 1
        } else {
            n
        };
        let headers = match parse_headers(input, start) {
            Ok(h) => h,
            Err(HeaderFault::Truncated) => {
                return Err(RequestError::Io(unexpected_eof_error()));
            },
            Err(HeaderFault::NotText) => {
                return Err(RequestError::Io(invalid_utf8_error()));
            },
            Err(HeaderFault::Malformed) => {
                return Err(RequestError::InvalidFormat);
            },
        };
        Ok(Request { method, path, http_version, headers })
    }
}

} // verus!
