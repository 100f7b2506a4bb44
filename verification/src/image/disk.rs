//! What every disk image offers, whatever its format.

use vstd::prelude::*;

use crate::error;
use crate::error::{CelError, CelResult, ErrorView};
use crate::image::format::FormatKind;

verus! {

/// Summary of an image.
#[derive(Debug, Clone, PartialEq, Eq)]
pub struct ImageInfo {
    /// Format of the file.
    pub format: FormatKind,
    /// Size of the disk that a guest sees, in bytes.
    pub virtual_size: u64,
    /// Unit of allocation in bytes, for formats that have one.
    pub cluster_size: Option<u64>,
    /// Description of the reader.
    pub backend: &'static str,
}

/// Where a run of virtual bytes comes from.
#[derive(Debug, Clone, Copy, PartialEq, Eq, Structural)]
pub enum Piece {
    /// Nothing is stored: the bytes are zeros.
    Zeros {
        /// Length of the run.
        len: usize,
    },
    /// The bytes stand in the file.
    Data {
        /// Offset in the file.
        at: u64,
        /// Length of the run.
        len: usize,
    },
}

/// Mathematical value of a [`Piece`].
pub enum PieceView {
    /// See [`Piece::Zeros`].
    Zeros {
        /// Length of the run.
        len: nat,
    },
    /// See [`Piece::Data`].
    Data {
        /// Offset in the file.
        at: nat,
        /// Length of the run.
        len: nat,
    },
}

impl View for Piece {
    type V = PieceView;

    open spec fn view(&self) -> PieceView {
        match self {
            Piece::Zeros { len } => PieceView::Zeros { len: *len as nat },
            Piece::Data { at, len } => PieceView::Data { at: *at as nat, len: *len as nat },
        }
    }
}

/// The length of a run that starts at `offset`: `len` bytes, but no further
/// than the end of the disk and of the unit of allocation.
pub open spec fn run_len(size: nat, unit: nat, offset: nat, len: nat) -> nat {
    let left = (size - offset) as nat;
    let room = (unit - offset % unit) as nat;
    let m = if len < left {
        len
    } else {
        left
    };
    if m < room {
        m
    } else {
        room
    }
}

/// See [`run_len`].
pub fn run_length(size: u64, unit: u64, offset: u64, len: usize) -> (r: usize)
    requires
        offset < size,
        unit > 0,
    ensures
        r == run_len(size as nat, unit as nat, offset as nat, len as nat),
{
    let left: u64 = size - offset;
    let room: u64 = unit - offset % unit;
    let m: u64 = if (len as u64) < left {
        len as u64
    } else {
        left
    };
    if m < room {
        m as usize
    } else {
        room as usize
    }
}

/// `n` zero bytes.
pub open spec fn zeros(n: nat) -> Seq<u8> {
    Seq::new(n, |i: int| 0u8)
}

/// See [`zeros`].
pub fn zero_bytes(n: usize) -> (r: Vec<u8>)
    ensures
        r@ == zeros(n as nat),
{
    let mut out: Vec<u8> = Vec::new();
    out.resize(n, 0u8);
    assert(out@ =~= zeros(n as nat));
    out
}

/// `s` in front of what a further read gives.
pub open spec fn prepended(s: Seq<u8>, rest: Result<Seq<u8>, ErrorView>) -> Result<
    Seq<u8>,
    ErrorView,
> {
    match rest {
        Ok(t) => Ok(s + t),
        Err(e) => Err(e),
    }
}

/// Reading `want` bytes run by run, where `run` gives one run; the first
/// failure ends it.
pub open spec fn joined(
    run: spec_fn(nat, nat) -> Result<Seq<u8>, ErrorView>,
    cur: nat,
    want: nat,
) -> Result<Seq<u8>, ErrorView>
    decreases want,
{
    if want == 0 {
        Ok(Seq::empty())
    } else {
        match run(cur, want) {
            Err(e) => Err(e),
            Ok(s) => if 0 < s.len() <= want {
                prepended(s, joined(run, cur + s.len(), (want - s.len()) as nat))
            } else {
                Ok(s)
            },
        }
    }
}

/// What [`joined`] has read when it fails: the runs before the one that failed.
pub open spec fn joined_until(
    run: spec_fn(nat, nat) -> Result<Seq<u8>, ErrorView>,
    cur: nat,
    want: nat,
) -> Seq<u8>
    decreases want,
{
    if want == 0 {
        Seq::empty()
    } else {
        match run(cur, want) {
            Err(_) => Seq::empty(),
            Ok(s) => if 0 < s.len() <= want {
                s + joined_until(run, cur + s.len(), (want - s.len()) as nat)
            } else {
                s
            },
        }
    }
}

/// Runs that never come back empty or too long add up to what was asked for,
/// and to no more where they end in a failure.
pub proof fn lemma_joined_len(
    run: spec_fn(nat, nat) -> Result<Seq<u8>, ErrorView>,
    cur: nat,
    want: nat,
)
    requires
        forall|o: nat, w: nat|
            w > 0 && (#[trigger] run(o, w)) is Ok ==> 0 < run(o, w)->Ok_0.len() <= w,
    ensures
        joined(run, cur, want) matches Ok(s) ==> s.len() == want,
        joined_until(run, cur, want).len() <= want,
    decreases want,
{
    if want > 0 && run(cur, want) is Ok {
        let s = run(cur, want)->Ok_0;
        lemma_joined_len(run, cur + s.len(), (want - s.len()) as nat);
    }
}

/// Runs whose bytes are those of runs of one byte add up to bytes of which the
/// same is true.
pub proof fn lemma_joined_bytes(
    run: spec_fn(nat, nat) -> Result<Seq<u8>, ErrorView>,
    cur: nat,
    want: nat,
    k: nat,
)
    requires
        forall|o: nat, w: nat|
            w > 0 && (#[trigger] run(o, w)) is Ok ==> 0 < run(o, w)->Ok_0.len() <= w,
        forall|o: nat, w: nat, i: nat|
            w > 0 && run(o, w) is Ok && i < run(o, w)->Ok_0.len() ==> #[trigger] run(o + i, 1)
                == Ok::<Seq<u8>, ErrorView>(seq![(#[trigger] run(o, w))->Ok_0[i as int]]),
        joined(run, cur, want) is Ok,
        k < want,
    ensures
        joined(run, cur, want)->Ok_0.len() == want,
        run(cur + k, 1) == Ok::<Seq<u8>, ErrorView>(
            seq![joined(run, cur, want)->Ok_0[k as int]],
        ),
    decreases want,
{
    lemma_joined_len(run, cur, want);
    let s = run(cur, want)->Ok_0;
    let rest = joined(run, cur + s.len(), (want - s.len()) as nat);
    assert(joined(run, cur, want)->Ok_0 == s + rest->Ok_0);
    if k < s.len() {
        assert(run(cur + k, 1) == Ok::<Seq<u8>, ErrorView>(
            seq![run(cur, want)->Ok_0[k as int]],
        ));
    } else {
        lemma_joined_bytes(run, cur + s.len(), (want - s.len()) as nat, (k - s.len()) as nat);
        assert(cur + s.len() + (k - s.len()) as nat == cur + k);
    }
}

/// Runs of `c` add up to a stretch of `c`.
pub proof fn lemma_joined_shows(
    run: spec_fn(nat, nat) -> Result<Seq<u8>, ErrorView>,
    c: Seq<u8>,
    cur: nat,
    want: nat,
)
    requires
        cur + want <= c.len(),
        forall|o: nat, w: nat|
            w > 0 && o + w <= c.len() ==> reads_a_run(#[trigger] run(o, w), c, o, w),
    ensures
        joined(run, cur, want) == Ok::<Seq<u8>, ErrorView>(
            c.subrange(cur as int, (cur + want) as int),
        ),
    decreases want,
{
    if want == 0 {
        assert(c.subrange(cur as int, cur as int) =~= Seq::empty());
    } else {
        assert(reads_a_run(run(cur, want), c, cur, want));
        let s = run(cur, want)->Ok_0;
        lemma_joined_shows(run, c, cur + s.len(), (want - s.len()) as nat);
        assert(s + c.subrange((cur + s.len()) as int, (cur + want) as int) =~= c.subrange(
            cur as int,
            (cur + want) as int,
        ));
    }
}

/// Filling a buffer of `want` bytes by repeated reads; running out of bytes is
/// a failure.
pub open spec fn filled(
    reads: spec_fn(nat, nat) -> Result<Seq<u8>, ErrorView>,
    offset: nat,
    want: nat,
) -> Result<Seq<u8>, ErrorView>
    decreases want,
{
    if want == 0 {
        Ok(Seq::empty())
    } else {
        match reads(offset, want) {
            Err(e) => Err(e),
            Ok(s) => if s.len() == 0 {
                Err(ErrorView::Invalid("disk: short read"@))
            } else if s.len() <= want {
                prepended(s, filled(reads, offset + s.len(), (want - s.len()) as nat))
            } else {
                Ok(s)
            },
        }
    }
}

/// What [`filled`] has read when it fails: the reads that went well, and what
/// the one that failed still gave.
pub open spec fn filled_until(
    reads: spec_fn(nat, nat) -> Result<Seq<u8>, ErrorView>,
    kept: spec_fn(nat, nat) -> Seq<u8>,
    offset: nat,
    want: nat,
) -> Seq<u8>
    decreases want,
{
    if want == 0 {
        Seq::empty()
    } else {
        match reads(offset, want) {
            Err(_) => kept(offset, want),
            Ok(s) => if 0 < s.len() <= want {
                s + filled_until(reads, kept, offset + s.len(), (want - s.len()) as nat)
            } else {
                Seq::empty()
            },
        }
    }
}

/// The bytes that a read gave and how it ended.
pub open spec fn gathers(
    r: (Vec<u8>, Option<CelError>),
    read: Result<Seq<u8>, ErrorView>,
    kept: Seq<u8>,
) -> bool {
    match read {
        Ok(s) => r.0@ == s && r.1 is None,
        Err(e) => r.0@ == kept && (r.1 matches Some(x) && x@ == e),
    }
}

/// `s` at the front of what a buffer held.
pub open spec fn overwritten(s: Seq<u8>, buf: Seq<u8>) -> Seq<u8> {
    s + buf.skip(s.len() as int)
}

/// Whether the disk behind `reads` holds exactly the bytes `c`: every single
/// byte reads as `c` has it.
pub open spec fn holds_content(
    reads: spec_fn(nat, nat) -> Result<Seq<u8>, ErrorView>,
    c: Seq<u8>,
) -> bool {
    forall|i: nat| i < c.len() ==> #[trigger] reads(i, 1) == Ok::<Seq<u8>, ErrorView>(
        seq![c[i as int]],
    )
}

/// A read of a disk that holds `c` gives a run of `c`, never nothing.
pub open spec fn reads_a_run(
    got: Result<Seq<u8>, ErrorView>,
    c: Seq<u8>,
    offset: nat,
    len: nat,
) -> bool {
    match got {
        Ok(s) => 0 < s.len() <= len && offset + s.len() <= c.len() && s == c.subrange(
            offset as int,
            (offset + s.len()) as int,
        ),
        Err(_) => false,
    }
}

/// Read-only view of a guest disk. Offsets are those that the guest sees.
pub trait DiskImage: Sized {
    /// What every image that was opened satisfies.
    spec fn wf(&self) -> bool;

    /// See [`DiskImage::info`].
    spec fn summary(&self) -> ImageInfo;

    /// What a read at an offset, of up to a number of bytes, gives.
    spec fn reads(&self) -> spec_fn(nat, nat) -> Result<Seq<u8>, ErrorView>;

    /// What a read that fails has read by then.
    spec fn kept(&self, offset: nat, len: nat) -> Seq<u8>;

    /// A read gives no more than was asked for and nothing past the end of the
    /// disk; at the end of the disk, and where nothing is asked for, it gives
    /// nothing without failing.
    proof fn law_read_is_clipped(&self, offset: nat, len: nat)
        requires
            self.wf(),
        ensures
            offset >= self.summary().virtual_size || len == 0 ==> self.reads()(offset, len) == Ok::<
                Seq<u8>,
                ErrorView,
            >(Seq::empty()),
            self.reads()(offset, len) matches Ok(s) ==> s.len() <= len && (s.len() > 0 ==> offset
                + s.len() <= self.summary().virtual_size),
            self.kept(offset, len).len() <= len,
    ;

    /// A read of a disk whose every byte can be read gives a run of those
    /// bytes, and never nothing before the end of the disk.
    proof fn law_read_shows_content(&self, c: Seq<u8>, offset: nat, len: nat)
        requires
            self.wf(),
            c.len() == self.summary().virtual_size,
            holds_content(self.reads(), c),
            offset < c.len(),
            len > 0,
        ensures
            reads_a_run(self.reads()(offset, len), c, offset, len),
    ;

    /// Metadata of the image.
    fn info(&self) -> (r: ImageInfo)
        requires
            self.wf(),
        ensures
            r == self.summary(),
    ;

    /// Size of the disk that a guest sees.
    fn virtual_size(&self) -> (r: u64)
        requires
            self.wf(),
        ensures
            r == self.summary().virtual_size,
    {
        self.info().virtual_size
    }

    /// Reads up to `len` bytes at `offset`, and hands out what was read even
    /// where the read fails.
    fn gather(&self, offset: u64, len: usize) -> (r: (Vec<u8>, Option<CelError>))
        requires
            self.wf(),
        ensures
            gathers(
                r,
                self.reads()(offset as nat, len as nat),
                self.kept(offset as nat, len as nat),
            ),
    ;

    /// Reads up to `len` bytes at `offset`.
    fn read(&self, offset: u64, len: usize) -> (r: CelResult<Vec<u8>>)
        requires
            self.wf(),
        ensures
            error::result_view(r) == self.reads()(offset as nat, len as nat),
    {
        let (bytes, fault) = self.gather(offset, len);
        match fault {
            None => Ok(bytes),
            Some(e) => Err(e),
        }
    }

    /// Reads up to `buf.len()` bytes at `offset` into the front of `buf`, and
    /// says how many. What was read before a failure stands in `buf` too.
    fn read_at(&self, offset: u64, buf: &mut [u8]) -> (r: CelResult<usize>)
        requires
            self.wf(),
        ensures
            match self.reads()(offset as nat, old(buf)@.len()) {
                Ok(s) => r == Ok::<usize, CelError>(s.len() as usize) && s.len() <= old(buf)@.len()
                    && final(buf)@ == overwritten(s, old(buf)@),
                Err(e) => (r matches Err(x) && x@ == e) && final(buf)@ == overwritten(
                    self.kept(offset as nat, old(buf)@.len()),
                    old(buf)@,
                ),
            },
    {
        let n: usize = buf.len();
        let (bytes, fault) = self.gather(offset, n);
        proof {
            self.law_read_is_clipped(offset as nat, n as nat);
        }
        put(buf, &bytes);
        match fault {
            None => Ok(bytes.len()),
            Some(e) => Err(e),
        }
    }

    /// Fills `buf` from `offset` on, or fails. What was read before a failure
    /// stands in `buf` too.
    fn read_exact_at(&self, offset: u64, buf: &mut [u8]) -> (r: CelResult<()>)
        requires
            self.wf(),
        ensures
            match filled(self.reads(), offset as nat, old(buf)@.len()) {
                Ok(s) => r is Ok && final(buf)@ == s,
                Err(e) => (r matches Err(x) && x@ == e) && final(buf)@ == overwritten(
                    filled_until(
                        self.reads(),
                        |o: nat, l: nat| self.kept(o, l),
                        offset as nat,
                        old(buf)@.len(),
                    ),
                    old(buf)@,
                ),
            },
    {
        let n: usize = buf.len();
        let mut got: Vec<u8> = Vec::new();
        let mut at: u64 = offset;
        let ghost kept = |o: nat, l: nat| self.kept(o, l);
        proof {
            let until = filled_until(self.reads(), kept, offset as nat, n as nat);
            assert(got@ + until =~= until);
        }
        while got.len() < n
            invariant
                self.wf(),
                kept == (|o: nat, l: nat| self.kept(o, l)),
                buf@ == old(buf)@,
                n == buf@.len(),
                got@.len() <= n,
                at == offset + got@.len(),
                filled(self.reads(), offset as nat, n as nat) == prepended(
                    got@,
                    filled(self.reads(), at as nat, (n - got@.len()) as nat),
                ),
                filled_until(self.reads(), kept, offset as nat, n as nat) == got@
                    + filled_until(self.reads(), kept, at as nat, (n - got@.len()) as nat),
            decreases n - got@.len(),
        {
            let have: usize = got.len();
            let ghost before = got@;
            let (bytes, fault) = self.gather(at, n - have);
            proof {
                self.law_read_is_clipped(at as nat, (n - have) as nat);
            }
            extend(&mut got, &bytes);
            if let Some(e) = fault {
                put(buf, &got);
                return Err(e);
            }
            let k: usize = bytes.len();
            if k == 0 {
                proof {
                    assert(before + Seq::<u8>::empty() =~= before);
                    assert(got@ =~= before);
                }
                put(buf, &got);
                return Err(CelError::Invalid("disk: short read"));
            }
            proof {
                let rest = filled(self.reads(), (at + k) as nat, (n - have - k) as nat);
                if rest is Ok {
                    assert(before + (bytes@ + rest->Ok_0) =~= got@ + rest->Ok_0);
                }
                let until = filled_until(
                    self.reads(),
                    kept,
                    (at + k) as nat,
                    (n - have - k) as nat,
                );
                assert(before + (bytes@ + until) =~= got@ + until);
            }
            at = at + k as u64;
        }
        put(buf, &got);
        proof {
            assert(got@ + Seq::<u8>::empty() =~= got@);
            assert(overwritten(got@, old(buf)@) =~= got@);
        }
        Ok(())
    }
}

/// Appends bytes.
pub fn extend(v: &mut Vec<u8>, s: &Vec<u8>)
    ensures
        final(v)@ == old(v)@ + s@,
{
    v.extend_from_slice(s.as_slice());
    assert(v@ =~= old(v)@ + s@);
}

/// Overwrites the front of a buffer.
fn put(buf: &mut [u8], s: &Vec<u8>)
    requires
        s@.len() <= old(buf)@.len(),
    ensures
        final(buf)@ == overwritten(s@, old(buf)@),
{
    let n: usize = s.len();
    let mut i: usize = 0;
    assert(buf@ =~= s@.take(0) + old(buf)@.skip(0));
    while i < n
        invariant
            i <= n,
            n == s@.len(),
            n <= old(buf)@.len(),
            buf@ == s@.take(i as int) + old(buf)@.skip(i as int),
        decreases n - i,
    {
        buf[i] = s[i];
        i = i + 1;
        assert(buf@ =~= s@.take(i as int) + old(buf)@.skip(i as int));
    }
    assert(s@.take(n as int) =~= s@);
}

/// What stands in a buffer after a failed attempt to fill it: the reads that went
/// well one behind the other, and what the failing read had gathered. If nothing
/// failed, it is what the buffer is filled with.
pub proof fn law_reads_before_a_failure(
    reads: spec_fn(nat, nat) -> Result<Seq<u8>, ErrorView>,
    kept: spec_fn(nat, nat) -> Seq<u8>,
    offset: nat,
    want: nat,
)
    ensures
        ({
            let until = filled_until(reads, kept, offset, want);
            &&& want == 0 ==> until.len() == 0
            &&& want > 0 && reads(offset, want) is Err ==> until == kept(offset, want)
            &&& want > 0 ==> (reads(offset, want) matches Ok(s) ==> (0 < s.len() <= want ==> until.take(
                s.len() as int,
            ) == s && until.skip(s.len() as int) == filled_until(
                reads,
                kept,
                offset + s.len(),
                (want - s.len()) as nat,
            )))
            &&& filled(reads, offset, want) matches Ok(s) ==> (s.len() == want ==> until == s)
        }),
    decreases want,
{
    let until = filled_until(reads, kept, offset, want);
    if want > 0 && reads(offset, want) is Ok {
        let s = reads(offset, want)->Ok_0;
        if 0 < s.len() <= want {
            let left = (want - s.len()) as nat;
            law_reads_before_a_failure(reads, kept, offset + s.len(), left);
            assert(until.take(s.len() as int) =~= s);
            assert(until.skip(s.len() as int) =~= filled_until(
                reads,
                kept,
                offset + s.len(),
                left,
            ));
        }
    }
}

} // verus!
