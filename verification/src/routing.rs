//! Routing and the connection pipeline: the request line's method and path
//! tokens select exactly one handler; the response is then compressed when
//! negotiated and gets its final `Content-Length` line.  The caller performs
//! the file reads and writes the plan names and hands the results back.

use vstd::prelude::*;
use vstd::utf8::encode_utf8;

use crate::compress::{accepts_gzip, gunzip_of};
use crate::msg::{status_line_400, HttpMsg, HttpMsgView};
use crate::request::{spec_content_length, HttpError};
use crate::response::{
    content_type_octet_stream, content_type_text_plain, files_full_path, status_line,
    user_agent_of,
};
use crate::strutil::{dec_rep, spec_starts_with, starts_with, str_eq, usize_to_string};

verus! {

/// The whitespace that delimits the request-line tokens.
pub open spec fn is_ws(c: char) -> bool {
    c == ' ' || c == '\t'
}

/// The first position at or after `i` holding a non-whitespace character, or
/// the end of `s`.
pub open spec fn skip_ws(s: Seq<char>, i: int) -> int
    decreases s.len() - i,
{
    if 0 <= i < s.len() {
        if is_ws(s[i]) {
            skip_ws(s, i + 1)
        } else {
            i
        }
    } else {
        s.len() as int
    }
}

/// The first position at or after `i` holding whitespace, or the end of `s`.
pub open spec fn scan_token(s: Seq<char>, i: int) -> int
    decreases s.len() - i,
{
    if 0 <= i < s.len() {
        if is_ws(s[i]) {
            i
        } else {
            scan_token(s, i + 1)
        }
    } else {
        s.len() as int
    }
}

/// The first two whitespace-delimited tokens of `s` — for a request line the
/// method and the path — or nothing when `s` has fewer than two tokens.
pub open spec fn spec_request_tokens(s: Seq<char>) -> Option<(Seq<char>, Seq<char>)> {
    let a0 = skip_ws(s, 0);
    let a1 = scan_token(s, a0);
    let b0 = skip_ws(s, a1);
    let b1 = scan_token(s, b0);
    if b0 < s.len() {
        Some((s.subrange(a0, a1), s.subrange(b0, b1)))
    } else {
        None
    }
}

/// Whether `c` is token-delimiting whitespace.
fn is_ws_char(c: char) -> (r: bool)
    ensures
        r == is_ws(c),
{
    c == ' ' || c == '\t'
}

/// The method and path tokens of a request line.
pub fn request_tokens(line: &str) -> (r: Option<(String, String)>)
    ensures
        match (r, spec_request_tokens(line@)) {
            (Some(t), Some(st)) => t.0@ == st.0 && t.1@ == st.1,
            (None, None) => true,
            _ => false,
        },
{
    let n: usize = line.unicode_len();
    let mut a0: usize = 0;
    while a0 < n && is_ws_char(line.get_char(a0))
        invariant
            a0 <= n,
            n == line@.len(),
            skip_ws(line@, 0) == skip_ws(line@, a0 as int),
        decreases n - a0,
    {
        a0 += 1;
    }
    let mut a1: usize = a0;
    while a1 < n && !is_ws_char(line.get_char(a1))
        invariant
            a0 <= a1 <= n,
            n == line@.len(),
            scan_token(line@, a0 as int) == scan_token(line@, a1 as int),
        decreases n - a1,
    {
        a1 += 1;
    }
    let mut b0: usize = a1;
    while b0 < n && is_ws_char(line.get_char(b0))
        invariant
            a1 <= b0 <= n,
            n == line@.len(),
            skip_ws(line@, a1 as int) == skip_ws(line@, b0 as int),
        decreases n - b0,
    {
        b0 += 1;
    }
    if b0 >= n {
        return None;
    }
    let mut b1: usize = b0;
    while b1 < n && !is_ws_char(line.get_char(b1))
        invariant
            b0 <= b1 <= n,
            n == line@.len(),
            scan_token(line@, b0 as int) == scan_token(line@, b1 as int),
        decreases n - b1,
    {
        b1 += 1;
    }
    let method = line.substring_char(a0, a1).to_owned();
    let path = line.substring_char(b0, b1).to_owned();
    Some((method, path))
}

/// The handler a request selects, in the router's fixed priority order.
#[derive(Clone, Copy, PartialEq, Eq, Structural, Debug)]
pub enum Route {
    Echo,
    FileGet,
    UserAgent,
    Root,
    NotFound,
    FilePost,
    Unsupported,
}

/// The router's rules, first match wins: GET `/echo/`-prefixed paths echo,
/// GET `/files/`-prefixed paths read a file, GET `/user-agent` reflects the
/// user agent, GET `/` is the empty 200, any other GET is 404; POST to a
/// `/files/`-prefixed path writes a file; everything else is unsupported.
pub open spec fn spec_route(method: Seq<char>, path: Seq<char>) -> Route {
    if method == "GET"@ {
        if spec_starts_with(path, "/echo/"@) {
            Route::Echo
        } else if spec_starts_with(path, "/files/"@) {
            Route::FileGet
        } else if path == "/user-agent"@ {
            Route::UserAgent
        } else if path == "/"@ {
            Route::Root
        } else {
            Route::NotFound
        }
    } else if method == "POST"@ && spec_starts_with(path, "/files/"@) {
        Route::FilePost
    } else {
        Route::Unsupported
    }
}

/// Select the one handler for the given method and path tokens.
pub fn route(method: &str, path: &str) -> (r: Route)
    ensures
        r == spec_route(method@, path@),
{
    if str_eq(method, "GET") {
        if starts_with(path, "/echo/") {
            Route::Echo
        } else if starts_with(path, "/files/") {
            Route::FileGet
        } else if str_eq(path, "/user-agent") {
            Route::UserAgent
        } else if str_eq(path, "/") {
            Route::Root
        } else {
            Route::NotFound
        }
    } else if str_eq(method, "POST") && starts_with(path, "/files/") {
        Route::FilePost
    } else {
        Route::Unsupported
    }
}

/// The `Content-Length` header line for a body of `n` bytes.
pub open spec fn content_length_line(n: nat) -> Seq<char> {
    "Content-Length: "@ + dec_rep(n)
}

impl HttpMsg {
    /// Append the `Content-Length` line for the current body, byte-counted.
    pub fn set_content_length(&mut self)
        ensures
            final(self)@.headers == old(self)@.headers.push(
                content_length_line(old(self)@.body.len()),
            ),
            final(self)@.body == old(self)@.body,
    {
        let num = usize_to_string(self.body.len());
        let line = String::from_str("Content-Length: ").concat(num.as_str());
        let ghost before = self@.headers;
        self.headers.push(line);
        proof {
            assert(line@ =~= content_length_line(old(self)@.body.len()));
            assert(self@.headers =~= before.push(content_length_line(old(self)@.body.len())));
        }
    }
}

/// The file-system work a request asks of the caller: nothing, a read of the
/// named path, or a write of the given bytes to the named path.
pub enum FileOp {
    Nothing,
    ReadAt(String),
    WriteAt(String, Vec<u8>),
}

/// The file-system work the given request calls for.  A `/files/` GET asks
/// for a read of the directory path with the file name appended; a `/files/`
/// POST asks for a write of the request body cut to the declared
/// `Content-Length`; a POST whose declared length is not a numeral is
/// malformed; everything else needs no file work.
pub fn plan_file_op(request: &HttpMsg, directory: &str) -> (r: Result<FileOp, HttpError>)
    requires
        request@.headers.len() >= 1,
    ensures
        ({
            let hs = request@.headers;
            match spec_request_tokens(hs[0]) {
                Some(t) => match spec_route(t.0, t.1) {
                    Route::FileGet => r matches Ok(op) && op matches FileOp::ReadAt(p) && p@
                        == directory@ + t.1.skip(7),
                    Route::FilePost => match spec_content_length(hs) {
                        Some(cl) => r matches Ok(op) && op matches FileOp::WriteAt(p, d) && p@
                            == directory@ + t.1.skip(7) && d@ == request@.body.take(
                            if cl <= request@.body.len() {
                                cl as int
                            } else {
                                request@.body.len() as int
                            },
                        ),
                        None => r matches Err(e) && e == HttpError::MalformedRequest,
                    },
                    _ => r matches Ok(op) && op is Nothing,
                },
                None => r matches Ok(op) && op is Nothing,
            }
        }),
{
    let line: &String = &request.headers[0];
    proof {
        assert(line@ == request@.headers[0]);
    }
    let t = match request_tokens(line.as_str()) {
        Some(t) => t,
        None => {
            return Ok(FileOp::Nothing);
        },
    };
    let rt = route(t.0.as_str(), t.1.as_str());
    if rt == Route::FileGet {
        Ok(FileOp::ReadAt(files_full_path(t.1.as_str(), directory)))
    } else if rt == Route::FilePost {
        let declared = match request.content_length() {
            Some(d) => d,
            None => {
                return Err(HttpError::MalformedRequest);
            },
        };
        let mut data: Vec<u8> = Vec::new();
        data.extend_from_slice(request.body.as_slice());
        proof {
            assert(data@ =~= request@.body);
        }
        let cut: usize = if declared <= data.len() {
            declared
        } else {
            data.len()
        };
        data.truncate(cut);
        Ok(FileOp::WriteAt(files_full_path(t.1.as_str(), directory), data))
    } else {
        Ok(FileOp::Nothing)
    }
}

/// The response a request routes to, before compression and length framing:
/// exactly one handler's mutation of the fresh default response.
pub open spec fn spec_routed(req: HttpMsgView, file: Option<Seq<u8>>) -> HttpMsgView {
    let base = HttpMsgView { headers: seq![status_line_400()], body: Seq::<u8>::empty() };
    match spec_request_tokens(req.headers[0]) {
        Option::None => base,
        Option::Some(t) => match spec_route(t.0, t.1) {
            Route::Echo => HttpMsgView {
                headers: seq![status_line(200), content_type_text_plain()],
                body: encode_utf8(t.1.skip(6)),
            },
            Route::FileGet => match file {
                Option::Some(c) => HttpMsgView {
                    headers: seq![status_line(200), content_type_octet_stream()],
                    body: c,
                },
                Option::None => HttpMsgView {
                    headers: seq![status_line(404)],
                    body: Seq::<u8>::empty(),
                },
            },
            Route::UserAgent => HttpMsgView {
                headers: seq![status_line(200), content_type_text_plain()],
                body: encode_utf8(user_agent_of(req.headers)),
            },
            Route::Root => HttpMsgView { headers: seq![status_line(200)], body: Seq::<u8>::empty() },
            Route::NotFound => HttpMsgView {
                headers: seq![status_line(404)],
                body: Seq::<u8>::empty(),
            },
            Route::FilePost => HttpMsgView {
                headers: seq![status_line(201)],
                body: Seq::<u8>::empty(),
            },
            Route::Unsupported => base,
        },
    }
}

/// The echo law: a GET request whose path is `/echo/` followed by `s` routes
/// to a response whose body is exactly the bytes of `s`, with status 200 and
/// a plain-text content type, whatever else the request holds.
pub proof fn lemma_echo_body(req: HttpMsgView, file: Option<Seq<u8>>, s: Seq<char>)
    requires
        req.headers.len() >= 1,
        spec_request_tokens(req.headers[0]) == Some(("GET"@, "/echo/"@ + s)),
    ensures
        spec_routed(req, file).body == encode_utf8(s),
        spec_routed(req, file).headers == seq![status_line(200), content_type_text_plain()],
{
    reveal_strlit("/echo/");
    let path = "/echo/"@ + s;
    assert(path.subrange(0, 6) =~= "/echo/"@);
    assert(spec_starts_with(path, "/echo/"@));
    assert(spec_route("GET"@, path) == Route::Echo);
    assert(path.skip(6) =~= s);
}

/// Build the complete response for a parsed request: route to one handler,
/// compress when the body is non-empty and the request accepts gzip, then
/// append the final `Content-Length`.  For a `/files/` GET the caller passes
/// the file's contents, or nothing when the file does not exist.
pub fn build_response(request: &HttpMsg, file_contents: Option<&Vec<u8>>) -> (r: HttpMsg)
    requires
        request@.headers.len() >= 1,
    ensures
        ({
            let pre = spec_routed(
                request@,
                match file_contents {
                    Some(c) => Some(c@),
                    None => None,
                },
            );
            if pre.body.len() > 0 && accepts_gzip(request@.headers) {
                &&& gunzip_of(r@.body) == pre.body
                &&& r@.headers == pre.headers.push("Content-Encoding: gzip"@).push(
                    content_length_line(r@.body.len()),
                )
            } else {
                &&& r@.body == pre.body
                &&& r@.headers == pre.headers.push(content_length_line(pre.body.len()))
            }
        }),
{
    let ghost file_view: Option<Seq<u8>> = match file_contents {
        Some(c) => Some(c@),
        None => None,
    };
    let ghost pre = spec_routed(request@, file_view);
    let mut resp = HttpMsg::create();
    let line: &String = &request.headers[0];
    proof {
        assert(line@ == request@.headers[0]);
    }
    match request_tokens(line.as_str()) {
        Some(t) => {
            let rt = route(t.0.as_str(), t.1.as_str());
            match rt {
                Route::Echo => resp.return_echo_string(t.1.as_str()),
                Route::FileGet => resp.get_file(file_contents),
                Route::UserAgent => resp.return_user_agent(&request.headers),
                Route::Root => resp.return_status_code(200),
                Route::NotFound => resp.return_status_code(404),
                Route::FilePost => resp.return_status_code(201),
                Route::Unsupported => {},
            }
        },
        None => {},
    }
    proof {
        assert(resp@.headers =~= pre.headers);
        assert(resp@.body == pre.body);
    }
    resp.compress(&request.headers);
    resp.set_content_length();
    resp
}

} // verus!
