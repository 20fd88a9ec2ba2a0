//! Conditional gzip compression of a response body.  The encoding itself is
//! flate2's; the library states only that decoding the encoder's output gives
//! back the input, and proves the negotiation logic around the call.

use vstd::prelude::*;

use crate::msg::HttpMsg;
use crate::strutil::{spec_contains, spec_starts_with, contains, starts_with};

verus! {

/// The bytes that gzip-decoding `s` yields.
pub uninterp spec fn gunzip_of(s: Seq<u8>) -> Seq<u8>;

/// Relies on flate2: `write::GzEncoder` (over a `Vec<u8>` sink, default
/// compression level) together with `finish` produces a gzip stream whose
/// decoding yields exactly the bytes written; writes into a `Vec<u8>` sink
/// cannot fail, so the two results are always `Ok`.
#[verifier::external_body]
fn gzip_encode(data: &Vec<u8>) -> (r: Vec<u8>)
    ensures
        gunzip_of(r@) == data@,
{
    let mut encoder = flate2::write::GzEncoder::new(Vec::new(), flate2::Compression::default());
    std::io::Write::write_all(&mut encoder, data.as_slice()).unwrap();
    encoder.finish().unwrap()
}

/// Some request header line declares `Accept-Encoding` and names `gzip`.
pub open spec fn accepts_gzip(headers: Seq<Seq<char>>) -> bool {
    exists|i: int|
        0 <= i < headers.len() && spec_starts_with(
            #[trigger] headers[i],
            "Accept-Encoding: "@,
        ) && spec_contains(headers[i], "gzip"@)
}

impl HttpMsg {
    /// Gzip-encode the body when it is non-empty and the request accepts
    /// gzip; then one `Content-Encoding: gzip` header line is appended and
    /// the body is replaced by bytes that decode back to the old body.
    /// Otherwise the message is left untouched — in particular an empty body
    /// is never compressed.
    pub fn compress(&mut self, request_header: &Vec<String>)
        ensures
            if old(self)@.body.len() > 0 && accepts_gzip(request_header.deep_view()) {
                final(self)@.headers == old(self)@.headers.push("Content-Encoding: gzip"@)
                    && gunzip_of(final(self)@.body) == old(self)@.body
            } else {
                *final(self) == *old(self)
            },
    {
        if self.body.len() == 0 {
            return ;
        }
        let mut i: usize = 0;
        while i < request_header.len()
            invariant
                i <= request_header.len(),
                forall|j: int|
                    0 <= j < i ==> !(spec_starts_with(
                        #[trigger] request_header.deep_view()[j],
                        "Accept-Encoding: "@,
                    ) && spec_contains(request_header.deep_view()[j], "gzip"@)),
                self == old(self),
                old(self)@.body.len() > 0,
            decreases request_header.len() - i,
        {
            let line: &String = &request_header[i];
            proof {
                assert(line@ == request_header.deep_view()[i as int]);
            }
            if starts_with(line.as_str(), "Accept-Encoding: ") && contains(line.as_str(), "gzip") {
                let ghost before = self@.headers;
                self.headers.push(String::from_str("Content-Encoding: gzip"));
                proof {
                    assert(self@.headers =~= before.push("Content-Encoding: gzip"@));
                }
                let compressed = gzip_encode(&self.body);
                self.body = compressed;
                return ;
            }
            i += 1;
        }
        proof {
            assert(!accepts_gzip(request_header.deep_view()));
        }
    }
}

} // verus!
