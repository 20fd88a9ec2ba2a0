//! The message model shared by requests and responses: ordered header lines
//! and a raw body, together with the serializer that renders a message back
//! to its wire bytes.

use vstd::prelude::*;
use vstd::utf8::encode_utf8;

verus! {

/// The mathematical value of a message: header lines as character sequences
/// and the body as bytes.
pub struct HttpMsgView {
    pub headers: Seq<Seq<char>>,
    pub body: Seq<u8>,
}

/// An HTTP message: the ordered header lines (for a request the first line is
/// the request line, for a response the status line) and the raw body bytes.
pub struct HttpMsg {
    pub headers: Vec<String>,
    pub body: Vec<u8>,
}

impl View for HttpMsg {
    type V = HttpMsgView;

    open spec fn view(&self) -> HttpMsgView {
        HttpMsgView { headers: self.headers.deep_view(), body: self.body@ }
    }
}

/// The default status line of a fresh response.
pub open spec fn status_line_400() -> Seq<char> {
    "HTTP/1.1 400 Bad Request"@
}

/// The wire bytes of a sequence of header lines: each line's UTF-8 bytes
/// followed by CRLF.
pub open spec fn lines_bytes(headers: Seq<Seq<char>>) -> Seq<u8>
    decreases headers.len(),
{
    if headers.len() == 0 {
        Seq::empty()
    } else {
        encode_utf8(headers[0]) + seq![13u8, 10u8] + lines_bytes(headers.skip(1))
    }
}

/// The wire bytes of a whole message: the header lines, a blank line, then
/// the body verbatim.
pub open spec fn response_bytes(m: HttpMsgView) -> Seq<u8> {
    lines_bytes(m.headers) + seq![13u8, 10u8] + m.body
}

/// Appending one more header line extends the rendered header bytes by that
/// line and a CRLF.
pub proof fn lemma_lines_bytes_push(headers: Seq<Seq<char>>, line: Seq<char>)
    ensures
        lines_bytes(headers.push(line)) == lines_bytes(headers) + encode_utf8(line) + seq![
            13u8,
            10u8,
        ],
    decreases headers.len(),
{
    assert(headers.push(line)[0] == if headers.len() == 0 {
        line
    } else {
        headers[0]
    });
    assert(lines_bytes(headers.push(line)) == encode_utf8(headers.push(line)[0]) + seq![13u8, 10u8]
        + lines_bytes(headers.push(line).skip(1)));
    if headers.len() == 0 {
        assert(headers.push(line).skip(1) =~= Seq::<Seq<char>>::empty());
        assert(lines_bytes(Seq::<Seq<char>>::empty()) == Seq::<u8>::empty());
        assert(lines_bytes(headers.push(line)) =~= lines_bytes(headers) + encode_utf8(line) + seq![
            13u8,
            10u8,
        ]);
    } else {
        assert(headers.push(line).skip(1) =~= headers.skip(1).push(line));
        lemma_lines_bytes_push(headers.skip(1), line);
        assert(lines_bytes(headers.push(line)) =~= lines_bytes(headers) + encode_utf8(line) + seq![
            13u8,
            10u8,
        ]);
    }
}

/// Serializing is a function of the message value alone: any two byte
/// sequences rendered from equal messages are identical.
pub proof fn lemma_serialize_deterministic(m: HttpMsgView, a: Seq<u8>, b: Seq<u8>)
    requires
        a == response_bytes(m),
        b == response_bytes(m),
    ensures
        a == b,
{
}

impl HttpMsg {
    /// A fresh response: only the default status line, an empty body.
    pub fn create() -> (r: HttpMsg)
        ensures
            r@.headers =~= seq![status_line_400()],
            r@.body =~= Seq::<u8>::empty(),
    {
        let headers: Vec<String> = vec![String::from_str("HTTP/1.1 400 Bad Request")];
        let r = HttpMsg { headers, body: Vec::new() };
        proof {
            assert(r@.headers =~= seq![status_line_400()]);
        }
        r
    }

    /// Render the message to its exact wire bytes: each header line followed
    /// by CRLF, one further CRLF, then the body verbatim.
    pub fn write_response(&self) -> (r: Vec<u8>)
        ensures
            r@ == response_bytes(self@),
    {
        let mut r: Vec<u8> = Vec::new();
        let mut i: usize = 0;
        while i < self.headers.len()
            invariant
                i <= self.headers.len(),
                r@ == lines_bytes(self@.headers.take(i as int)),
            decreases self.headers.len() - i,
        {
            let line: &String = &self.headers[i];
            r.extend_from_slice(line.as_str().as_bytes());
            r.push(13u8);
            r.push(10u8);
            proof {
                assert(self@.headers.take(i + 1) =~= self@.headers.take(i as int).push(
                    self@.headers[i as int],
                ));
                lemma_lines_bytes_push(self@.headers.take(i as int), self@.headers[i as int]);
                assert(r@ =~= lines_bytes(self@.headers.take(i + 1)));
            }
            i += 1;
        }
        r.push(13u8);
        r.push(10u8);
        r.extend_from_slice(self.body.as_slice());
        proof {
            assert(self@.headers.take(self.headers.len() as int) =~= self@.headers);
            assert(r@ =~= response_bytes(self@));
        }
        r
    }
}

} // verus!
