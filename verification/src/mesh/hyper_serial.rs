//! Framing of the kernel bridge: one JSON value per line.

use vstd::prelude::*;
use vstd::string::*;
use vstd::utf8::*;

use crate::error::{CelError, CelResult};
use crate::text;
use crate::text::{byte_len, chars_of, concat, white};

verus! {

/// Longest line, in bytes.
pub const MAX_FRAME_BYTES: usize = 65536;

/// How long a call waits for its reply, in milliseconds.
pub const CALL_TIMEOUT_MS: u64 = 1000;

/// What is put in front of frames for people who watch the line.
pub fn hyper_ipc_magic() -> (r: &'static str)
    ensures
        r == "celhyper-ipc/1",
{
    "celhyper-ipc/1"
}

/// A value as a line.
pub open spec fn line_of(json: Seq<char>) -> Seq<char> {
    json + "\n"@
}

/// See [`line_of`].
pub fn frame_line(json: &str) -> (r: String)
    ensures
        r@ == line_of(json@),
{
    concat(json, "\n")
}

/// The text without its trailing white space.
fn without_end(s: &str) -> (r: String)
    ensures
        r@ == text::trim_end(s@),
{
    let chars = chars_of(s);
    let mut b: usize = chars.len();
    assert(s@.subrange(0, b as int) =~= s@);
    while b > 0 && white(chars[b - 1])
        invariant
            b <= chars@.len(),
            chars@ == s@,
            text::trim_end(s@) == text::trim_end(s@.subrange(0, b as int)),
        decreases b,
    {
        proof {
            let p = s@.subrange(0, b as int);
            assert(p.last() == s@[b - 1]);
            assert(p.drop_last() =~= s@.subrange(0, b - 1));
        }
        b = b - 1;
    }
    proof {
        let p = s@.subrange(0, b as int);
        if b > 0 {
            assert(p.last() == s@[b - 1]);
        }
    }
    s.substring_char(0, b).to_owned()
}

/// The failure of a call that got no reply in time.
pub fn call_timed_out() -> (r: CelError)
    ensures
        r matches CelError::Timeout(m) && m@ == "hyper-serial: no reply in 1s"@,
{
    CelError::Timeout("hyper-serial: no reply in 1s".to_owned())
}

/// What [`reply_value`] makes of a line.
pub open spec fn reply_read(n: usize, line: Seq<char>, r: CelResult<String>) -> bool {
    if n == 0 {
        r matches Err(CelError::Io(m)) && m@ == "hyper-serial: peer closed"@
    } else if encode_utf8(line).len() > MAX_FRAME_BYTES {
        r matches Err(CelError::Io(m)) && m@ == "hyper-serial: reply > 65536 bytes"@
    } else {
        r matches Ok(s) && s@ == text::trim_end(line)
    }
}

/// The value that a reply line holds. `n` is how many bytes were read; none
/// means that the peer is gone.
pub fn reply_value(n: usize, line: &str) -> (r: CelResult<String>)
    ensures
        reply_read(n, line@, r),
{
    if n == 0 {
        return Err(CelError::Io("hyper-serial: peer closed".to_owned()));
    }
    if byte_len(line) > MAX_FRAME_BYTES {
        return Err(CelError::Io("hyper-serial: reply > 65536 bytes".to_owned()));
    }
    Ok(without_end(line))
}

/// What [`request_value`] makes of a line.
pub open spec fn request_read(n: usize, line: Seq<char>, r: CelResult<Option<String>>) -> bool {
    if n == 0 {
        r matches Ok(None)
    } else if encode_utf8(line).len() > MAX_FRAME_BYTES {
        r matches Err(CelError::Io(m)) && m@ == "hyper-serve: request > 65536 bytes"@
    } else {
        r matches Ok(Some(s)) && s@ == text::trim_end(line)
    }
}

/// The value that a request line holds; nothing once the peer has closed.
pub fn request_value(n: usize, line: &str) -> (r: CelResult<Option<String>>)
    ensures
        request_read(n, line@, r),
{
    if n == 0 {
        return Ok(None);
    }
    if byte_len(line) > MAX_FRAME_BYTES {
        return Err(CelError::Io("hyper-serve: request > 65536 bytes".to_owned()));
    }
    Ok(Some(without_end(line)))
}

/// A value comes out of its line as it went in, unless it ends in white space.
pub proof fn law_line_round_trip(json: Seq<char>)
    requires
        json.len() > 0 ==> !text::is_white(json.last()),
    ensures
        text::trim_end(json + "\n"@) == json,
{
    reveal_strlit("\n");
    let line = json + "\n"@;
    assert(line.last() == '\n');
    assert(line.drop_last() =~= json);
    assert(text::trim_end(line) == text::trim_end(json));
}

} // verus!
