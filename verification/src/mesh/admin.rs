//! The admin surface: `GET /metrics`, `/healthz` and `/readyz` over HTTP/1.0.
//!
//! A connection carries one request, of which only the first line is read, and
//! one response.

use vstd::prelude::*;
use vstd::string::*;
use vstd::utf8::*;

use crate::error::CelError;
use crate::mesh::engine::{Mesh, MeshView};
use crate::mesh::membership::NodeStatus;
use crate::mesh::metrics;
use crate::mesh::status;
use crate::text;
use crate::text::{byte_len, chars_of, concat, push_decimal, split_ranges, str_eq};

verus! {

/// Most bytes that are read in search of the first line.
pub const MAX_REQUEST_BYTES: usize = 4096;

/// Where the first line of `b` ends, from byte `i` on: at the line feed, or at
/// a carriage return right before it.
pub open spec fn line_end_from(b: Seq<u8>, i: int) -> Option<int>
    decreases b.len() - i,
{
    if i >= b.len() || i < 0 {
        None
    } else if b[i] == 10 {
        if i > 0 && b[i - 1] == 13 {
            Some(i - 1)
        } else {
            Some(i)
        }
    } else {
        line_end_from(b, i + 1)
    }
}

/// Where the first line ends.
pub fn find_line_end(b: &[u8]) -> (r: Option<usize>)
    ensures
        match r {
            Some(e) => line_end_from(b@, 0) == Some(e as int) && e <= b@.len(),
            None => line_end_from(b@, 0) is None,
        },
{
    let mut i: usize = 0;
    while i < b.len()
        invariant
            i <= b@.len(),
            line_end_from(b@, 0) == line_end_from(b@, i as int),
        decreases b@.len() - i,
    {
        if b[i] == 10 {
            if i > 0 && b[i - 1] == 13 {
                return Some(i - 1);
            }
            return Some(i);
        }
        i = i + 1;
    }
    None
}

/// The path that a request line asks for: the second word, up to a question
/// mark. The first word has to be `GET` or `HEAD`.
pub open spec fn path_of_line(line: Seq<char>) -> Option<Seq<char>> {
    let words = text::split_on(line, ' ');
    if words[0] != "GET"@ && words[0] != "HEAD"@ {
        None
    } else {
        Some(
            text::split_on(
                if words.len() > 1 {
                    words[1]
                } else {
                    Seq::empty()
                },
                '?',
            )[0],
        )
    }
}

/// What is known of a request so far.
#[derive(Debug)]
pub enum RequestStep {
    /// More bytes are needed.
    More,
    /// The path that is asked for.
    Path(String),
    /// The request is refused.
    Refused(CelError),
}

/// What [`read_request_path`] tells.
pub open spec fn requested(b: Seq<u8>, eof: bool, r: RequestStep) -> bool {
    if eof {
        r == RequestStep::Refused(CelError::Invalid("admin: client closed before request"))
    } else {
        match line_end_from(b, 0) {
            None => if b.len() >= MAX_REQUEST_BYTES {
                r == RequestStep::Refused(CelError::Invalid("admin: request header too large"))
            } else {
                r is More
            },
            Some(e) => if !valid_utf8(b.take(e)) {
                r == RequestStep::Refused(CelError::Invalid("admin: non-UTF-8 request line"))
            } else {
                match path_of_line(decode_utf8(b.take(e))) {
                    None => r == RequestStep::Refused(
                        CelError::Invalid("admin: only GET/HEAD supported"),
                    ),
                    Some(p) => r matches RequestStep::Path(s) && s@ == p,
                }
            },
        }
    }
}

/// `std::str::from_utf8`: bytes that are valid UTF-8 give the text that they
/// encode, any others give nothing.
#[verifier::external_body]
fn utf8_text(bytes: &[u8]) -> (r: Option<String>)
    ensures
        match r {
            Some(s) => valid_utf8(bytes@) && s@ == decode_utf8(bytes@),
            None => !valid_utf8(bytes@),
        },
{
    match std::str::from_utf8(bytes) {
        Ok(s) => Some(s.to_owned()),
        Err(_) => None,
    }
}

/// Reads the path out of the bytes of a request that came so far; `eof` says
/// that no more will come.
pub fn read_request_path(b: &[u8], eof: bool) -> (r: RequestStep)
    ensures
        requested(b@, eof, r),
{
    if eof {
        return RequestStep::Refused(CelError::Invalid("admin: client closed before request"));
    }
    let end: usize = match find_line_end(b) {
        Some(e) => e,
        None => {
            if b.len() >= MAX_REQUEST_BYTES {
                return RequestStep::Refused(CelError::Invalid("admin: request header too large"));
            }
            return RequestStep::More;
        },
    };
    let head = vstd::slice::slice_subrange(b, 0, end);
    assert(head@ =~= b@.take(end as int));
    let line = match utf8_text(head) {
        Some(s) => s,
        None => {
            return RequestStep::Refused(CelError::Invalid("admin: non-UTF-8 request line"));
        },
    };
    match path_in(line.as_str()) {
        Some(p) => RequestStep::Path(p),
        None => RequestStep::Refused(CelError::Invalid("admin: only GET/HEAD supported")),
    }
}

/// The path that a request line asks for.
pub fn path_in(line: &str) -> (r: Option<String>)
    ensures
        match r {
            Some(p) => path_of_line(line@) == Some(p@),
            None => path_of_line(line@) is None,
        },
{
    let chars = chars_of(line);
    let words = split_ranges(&chars, ' ');
    let ghost parts = text::split_on(line@, ' ');
    proof {
        text::lemma_split_nonempty(line@, ' ');
    }
    let (a, z) = words[0];
    let method = line.substring_char(a, z);
    assert(words@[0].0 <= words@[0].1);
    assert(method@ == parts[0]);
    if !str_eq(method, "GET") && !str_eq(method, "HEAD") {
        return None;
    }
    let target = if words.len() > 1 {
        let (c, d) = words[1];
        assert(words@[1].0 <= words@[1].1);
        line.substring_char(c, d)
    } else {
        line.substring_char(0, 0)
    };
    let ghost want = if parts.len() > 1 {
        parts[1]
    } else {
        Seq::empty()
    };
    assert(target@ =~= want);
    let tchars = chars_of(target);
    let pieces = split_ranges(&tchars, '?');
    proof {
        text::lemma_split_nonempty(target@, '?');
        assert(pieces@[0].0 <= pieces@[0].1);
    }
    let (e, f) = pieces[0];
    Some(target.substring_char(e, f).to_owned())
}

/// A response: status, content type, body.
pub type Response = (u16, &'static str, String);

/// The content type of plain text.
pub open spec fn plain() -> &'static str {
    "text/plain; charset=utf-8"
}

/// What [`route`] answers.
pub open spec fn routed(s: MeshView, path: Seq<char>, r: Response) -> bool {
    if path == "/metrics"@ {
        r.0 == 200 && r.1 == "text/plain; version=0.0.4" && r.2@ == metrics::exposition(s.metrics)
    } else if path == "/healthz"@ {
        r.0 == 200 && r.1 == plain() && r.2@ == status::summary_text(s) + "\n"@
    } else if path == "/readyz"@ {
        r.0 == (if status::degraded(s) {
            503u16
        } else {
            200u16
        }) && r.1 == plain() && r.2@ == status::summary_text(s) + "\n"@
    } else if path == "/"@ {
        r.0 == 200 && r.1 == plain() && r.2@
            == "celmesh admin\n  GET /metrics\n  GET /healthz\n  GET /readyz\n"@
    } else {
        r.0 == 404 && r.1 == plain() && r.2@ == "not found\n"@
    }
}

/// The response to a path.
pub fn route(mesh: &Mesh, path: &str) -> (r: Response)
    requires
        mesh.wf(),
    ensures
        routed(mesh@, path@, r),
{
    if str_eq(path, "/metrics") {
        return (200, "text/plain; version=0.0.4", mesh.metrics_prometheus());
    }
    if str_eq(path, "/healthz") {
        let body = concat(mesh.summary().as_str(), "\n");
        return (200, "text/plain; charset=utf-8", body);
    }
    if str_eq(path, "/readyz") {
        let body = concat(mesh.summary().as_str(), "\n");
        if mesh.is_degraded() {
            return (503, "text/plain; charset=utf-8", body);
        }
        return (200, "text/plain; charset=utf-8", body);
    }
    if str_eq(path, "/") {
        let body = "celmesh admin\n  GET /metrics\n  GET /healthz\n  GET /readyz\n".to_owned();
        return (200, "text/plain; charset=utf-8", body);
    }
    (404, "text/plain; charset=utf-8", "not found\n".to_owned())
}

/// The words of a status.
pub open spec fn reason_of(status: u16) -> &'static str {
    if status == 200 {
        "OK"
    } else if status == 404 {
        "Not Found"
    } else if status == 503 {
        "Service Unavailable"
    } else {
        "Status"
    }
}

/// What goes over the wire before the body.
pub open spec fn head_text(status: u16, ctype: Seq<char>, body: Seq<char>) -> Seq<char> {
    "HTTP/1.0 "@ + text::decimal(status as nat) + " "@ + reason_of(status)@ + "\r\nContent-Type: "@
        + ctype + "\r\nContent-Length: "@ + text::decimal(encode_utf8(body).len())
        + "\r\nConnection: close\r\n\r\n"@
}

/// See [`head_text`].
pub fn response_head(status: u16, ctype: &str, body: &str) -> (r: String)
    ensures
        r@ == head_text(status, ctype@, body@),
{
    let reason = if status == 200 {
        "OK"
    } else if status == 404 {
        "Not Found"
    } else if status == 503 {
        "Service Unavailable"
    } else {
        "Status"
    };
    let mut s = "HTTP/1.0 ".to_owned();
    push_decimal(&mut s, status as u64);
    s.append(" ");
    s.append(reason);
    s.append("\r\nContent-Type: ");
    s.append(ctype);
    s.append("\r\nContent-Length: ");
    push_decimal(&mut s, byte_len(body) as u64);
    s.append("\r\nConnection: close\r\n\r\n");
    s
}

/// A node is ready exactly when it sees at least two nodes alive, itself
/// counted; it is healthy whatever it sees.
pub proof fn law_ready_means_company(s: MeshView, ready: Response, healthy: Response)
    requires
        routed(s, "/readyz"@, ready),
        routed(s, "/healthz"@, healthy),
    ensures
        ready.0 == 200 <==> status::count_of(s, NodeStatus::Alive) >= 2,
        ready.0 == 200 || ready.0 == 503,
        healthy.0 == 200,
{
    reveal_strlit("/readyz");
    reveal_strlit("/healthz");
    reveal_strlit("/metrics");
    assert("/readyz"@.len() != "/healthz"@.len());
    assert("/readyz"@.len() != "/metrics"@.len());
    assert("/healthz"@[1] != "/metrics"@[1]);
}

} // verus!
