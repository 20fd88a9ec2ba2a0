//! The response-side handlers: each one mutates a response message in place,
//! setting its status line and, where a body applies, its content type and
//! body bytes.  File contents come in and go out as plain byte vectors; the
//! file system itself stays with the caller.

use vstd::prelude::*;
use vstd::utf8::encode_utf8;

use crate::msg::HttpMsg;
use crate::request::{header_value, lemma_find_prefixed_none, spec_header_value};
use crate::strutil::{spec_starts_with, string_skip};

verus! {

/// The status line a handler writes for the given code.
pub open spec fn status_line(code: u32) -> Seq<char> {
    if code == 200 {
        "HTTP/1.1 200 OK"@
    } else if code == 201 {
        "HTTP/1.1 201 Created"@
    } else if code == 404 {
        "HTTP/1.1 404 Not Found"@
    } else {
        "HTTP/1.1 405 Method Not Allowed"@
    }
}

/// The content-type header line for plain text.
pub open spec fn content_type_text_plain() -> Seq<char> {
    "Content-Type: text/plain"@
}

/// The content-type header line for raw file contents.
pub open spec fn content_type_octet_stream() -> Seq<char> {
    "Content-Type: application/octet-stream"@
}

/// The body the user-agent handler answers with: the value of the first
/// `User-Agent: ` line, or the fixed fallback text when no such line exists.
pub open spec fn user_agent_of(headers: Seq<Seq<char>>) -> Seq<char> {
    match spec_header_value(headers, "User-Agent: "@) {
        Some(v) => v,
        None => "no user agent in request header"@,
    }
}

/// The fallback law: a request without any `User-Agent: ` line is answered
/// with the fixed fallback text.
pub proof fn lemma_user_agent_fallback(headers: Seq<Seq<char>>)
    requires
        forall|i: int|
            0 <= i < headers.len() ==> !spec_starts_with(#[trigger] headers[i], "User-Agent: "@),
    ensures
        user_agent_of(headers) == "no user agent in request header"@,
{
    lemma_find_prefixed_none(headers, "User-Agent: "@, 0);
}

impl HttpMsg {
    /// Replace the status line with the one for `status_code`.  Only the four
    /// codes the pipeline produces are supported.
    pub fn return_status_code(&mut self, status_code: u32)
        requires
            old(self)@.headers.len() >= 1,
            status_code == 200 || status_code == 201 || status_code == 404 || status_code == 405,
        ensures
            final(self)@.headers == old(self)@.headers.update(0, status_line(status_code)),
            final(self)@.body == old(self)@.body,
    {
        let line: &'static str = if status_code == 200 {
            "HTTP/1.1 200 OK"
        } else if status_code == 201 {
            "HTTP/1.1 201 Created"
        } else if status_code == 404 {
            "HTTP/1.1 404 Not Found"
        } else {
            "HTTP/1.1 405 Method Not Allowed"
        };
        self.headers[0] = line.to_owned();
        proof {
            assert(self@.headers =~= old(self)@.headers.update(0, status_line(status_code)));
        }
    }

    /// The echo handler: the part of the path after `/echo/` becomes the
    /// body verbatim, with status 200 and a plain-text content type.
    pub fn return_echo_string(&mut self, path: &str)
        requires
            old(self)@.headers.len() >= 1,
            spec_starts_with(path@, "/echo/"@),
        ensures
            final(self)@.headers == old(self)@.headers.update(0, status_line(200)).push(
                content_type_text_plain(),
            ),
            final(self)@.body == encode_utf8(path@.skip(6)),
    {
        proof {
            reveal_strlit("/echo/");
        }
        self.return_status_code(200);
        let ghost mid = self@.headers;
        self.headers.push(String::from_str("Content-Type: text/plain"));
        proof {
            assert(self@.headers =~= mid.push(content_type_text_plain()));
        }
        let tail = string_skip(path, 6);
        self.body = tail.as_str().as_bytes_vec();
    }

    /// The user-agent handler: the request's `User-Agent` value, or the
    /// fallback text when the request has none, becomes the body, with
    /// status 200 and a plain-text content type.
    pub fn return_user_agent(&mut self, http_request: &Vec<String>)
        requires
            old(self)@.headers.len() >= 1,
        ensures
            final(self)@.headers == old(self)@.headers.update(0, status_line(200)).push(
                content_type_text_plain(),
            ),
            final(self)@.body == encode_utf8(user_agent_of(http_request.deep_view())),
    {
        let ua: String = match header_value(http_request, "User-Agent: ") {
            Some(v) => v,
            None => String::from_str("no user agent in request header"),
        };
        self.return_status_code(200);
        let ghost mid = self@.headers;
        self.headers.push(String::from_str("Content-Type: text/plain"));
        proof {
            assert(self@.headers =~= mid.push(content_type_text_plain()));
        }
        self.body = ua.as_str().as_bytes_vec();
    }

    /// The file-get handler's decision on the contents the caller read:
    /// present contents become the body with status 200 and an octet-stream
    /// content type; absent contents give status 404 and leave the body.
    pub fn get_file(&mut self, contents: Option<&Vec<u8>>)
        requires
            old(self)@.headers.len() >= 1,
        ensures
            match contents {
                Some(c) => final(self)@.headers == old(self)@.headers.update(
                    0,
                    status_line(200),
                ).push(content_type_octet_stream()) && final(self)@.body == c@,
                None => final(self)@.headers == old(self)@.headers.update(0, status_line(404))
                    && final(self)@.body == old(self)@.body,
            },
    {
        match contents {
            Some(c) => {
                self.return_status_code(200);
                let ghost mid = self@.headers;
                self.headers.push(String::from_str("Content-Type: application/octet-stream"));
                proof {
                    assert(self@.headers =~= mid.push(content_type_octet_stream()));
                }
                let mut body: Vec<u8> = Vec::new();
                body.extend_from_slice(c.as_slice());
                proof {
                    assert(body@ =~= c@);
                }
                self.body = body;
            },
            None => {
                self.return_status_code(404);
            },
        }
    }

    /// The file-post handler's decision: status 201, body untouched, and the
    /// bytes to be written out — the request body cut to the declared length
    /// when that is shorter.
    pub fn post_file(&mut self, body: &Vec<u8>, max_characters: usize) -> (data: Vec<u8>)
        requires
            old(self)@.headers.len() >= 1,
        ensures
            final(self)@.headers == old(self)@.headers.update(0, status_line(201)),
            final(self)@.body == old(self)@.body,
            data@ == body@.take(
                if max_characters <= body@.len() {
                    max_characters as int
                } else {
                    body@.len() as int
                },
            ),
    {
        self.return_status_code(201);
        let mut data: Vec<u8> = Vec::new();
        data.extend_from_slice(body.as_slice());
        proof {
            assert(data@ =~= body@);
        }
        let cut: usize = if max_characters <= data.len() {
            max_characters
        } else {
            data.len()
        };
        data.truncate(cut);
        data
    }
}

/// The full file path a `/files/` request names: the externally supplied
/// directory string with the path's part after `/files/` appended, exactly
/// as given — no separator normalization, no traversal sanitization.
pub fn files_full_path(request_path: &str, directory: &str) -> (r: String)
    requires
        spec_starts_with(request_path@, "/files/"@),
    ensures
        r@ == directory@ + request_path@.skip(7),
{
    proof {
        reveal_strlit("/files/");
    }
    let name = string_skip(request_path, 7);
    directory.to_owned().concat(name.as_str())
}

} // verus!
