//! Length-prefixed framing: a frame is the payload's length as a big-endian
//! `u32` followed by the payload. Frames longer than 10 MiB are refused when
//! read, before anything is allocated for them.
use vstd::prelude::*;

verus! {

/// The largest payload a reader accepts.
pub const MAX_FRAME_LEN: usize = 10 * 1024 * 1024;

/// Why a frame could not be read or written.
#[derive(Debug, Clone, Copy, PartialEq, Eq, Structural)]
pub enum FrameError {
    /// The medium failed.
    Io,
    /// The declared length is above [`MAX_FRAME_LEN`].
    FrameTooLarge,
    /// The stream ended inside a frame.
    UnexpectedEof,
}

/// A length as 4 big-endian bytes.
pub open spec fn be_u32(n: nat) -> Seq<u8> {
    seq![(n / 0x100_0000 % 256) as u8, (n / 0x1_0000 % 256) as u8, (n / 0x100 % 256) as u8, (n % 256) as u8]
}

/// The length that 4 big-endian bytes state.
pub open spec fn be_value(h: Seq<u8>) -> nat {
    (h[0] as nat) * 0x100_0000 + (h[1] as nat) * 0x1_0000 + (h[2] as nat) * 0x100 + (h[3] as nat)
}

/// The frame that carries `payload`.
pub open spec fn frame_of(payload: Seq<u8>) -> Seq<u8> {
    be_u32(payload.len()) + payload
}

/// What reading one frame from the bytes `s` yields, and how many bytes it
/// takes.
pub open spec fn read_outcome(s: Seq<u8>) -> (Result<Seq<u8>, FrameError>, nat) {
    if s.len() < 4 {
        (Err(FrameError::UnexpectedEof), s.len())
    } else if be_value(s.take(4)) > MAX_FRAME_LEN {
        (Err(FrameError::FrameTooLarge), 4)
    } else if s.len() < 4 + be_value(s.take(4)) {
        (Err(FrameError::UnexpectedEof), s.len())
    } else {
        (Ok(s.subrange(4, 4 + be_value(s.take(4)) as int)), 4 + be_value(s.take(4)))
    }
}

proof fn lemma_be_round_trip(n: nat)
    requires
        n <= u32::MAX,
    ensures
        be_value(be_u32(n)) == n,
        be_u32(n).len() == 4,
{
    let h = be_u32(n);
    assert((n / 0x100_0000 % 256) * 0x100_0000 + (n / 0x1_0000 % 256) * 0x1_0000 + (n / 0x100 % 256)
        * 0x100 + n % 256 == n) by (nonlinear_arith)
        requires
            n <= 0xffff_ffff,
    ;
}

/// The frame that carries `payload`.
pub fn encode_frame(payload: &[u8]) -> (r: Vec<u8>)
    requires
        payload@.len() <= u32::MAX,
    ensures
        r@ == frame_of(payload@),
{
    let n = payload.len();
    let mut out: Vec<u8> = Vec::new();
    out.push((n / 0x100_0000 % 256) as u8);
    out.push((n / 0x1_0000 % 256) as u8);
    out.push((n / 0x100 % 256) as u8);
    out.push((n % 256) as u8);
    let mut tail = vstd::slice::slice_to_vec(payload);
    out.append(&mut tail);
    assert(out@ =~= frame_of(payload@));
    out
}

/// The payload length a frame header declares; headers above
/// [`MAX_FRAME_LEN`] are refused.
pub fn frame_len(header: &[u8]) -> (r: Result<usize, FrameError>)
    requires
        header@.len() == 4,
    ensures
        match r {
            Ok(n) => n == be_value(header@) && n <= MAX_FRAME_LEN,
            Err(e) => e == FrameError::FrameTooLarge && be_value(header@) > MAX_FRAME_LEN,
        },
{
    let n: u64 = (header[0] as u64) * 0x100_0000 + (header[1] as u64) * 0x1_0000 + (header[2] as u64)
        * 0x100 + (header[3] as u64);
    if n > MAX_FRAME_LEN as u64 {
        Err(FrameError::FrameTooLarge)
    } else {
        Ok(n as usize)
    }
}

/// An in-memory byte stream: what is written is read back in order.
pub struct Pipe {
    buf: Vec<u8>,
    pos: usize,
}

impl Pipe {
    /// The bytes written and not yet read.
    pub closed spec fn pending(&self) -> Seq<u8> {
        self.buf@.skip(self.pos as int)
    }

    /// Well-formed: the read position lies within the buffer.
    pub closed spec fn wf(&self) -> bool {
        self.pos <= self.buf@.len()
    }

    /// An empty stream.
    pub fn new() -> (r: Pipe)
        ensures
            r.wf(),
            r.pending() == Seq::<u8>::empty(),
    {
        let r = Pipe { buf: Vec::new(), pos: 0 };
        assert(r.pending() =~= Seq::<u8>::empty());
        r
    }

    /// Appends `data` to the stream.
    pub fn write_all(&mut self, data: &[u8])
        requires
            old(self).wf(),
        ensures
            final(self).wf(),
            final(self).pending() == old(self).pending() + data@,
    {
        let mut tail = vstd::slice::slice_to_vec(data);
        self.buf.append(&mut tail);
        assert(self.pending() =~= old(self).pending() + data@);
    }

    /// Nothing is buffered on the way, so there is nothing to flush.
    pub fn flush(&mut self)
        requires
            old(self).wf(),
        ensures
            final(self).wf(),
            final(self).pending() == old(self).pending(),
    {
    }

    /// Takes exactly `n` bytes off the stream, or fails if fewer are there.
    pub fn read_exact(&mut self, n: usize) -> (r: Result<Vec<u8>, FrameError>)
        requires
            old(self).wf(),
        ensures
            final(self).wf(),
            match r {
                Ok(v) => n <= old(self).pending().len() && v@ == old(self).pending().take(n as int)
                    && final(self).pending() == old(self).pending().skip(n as int),
                Err(e) => e == FrameError::UnexpectedEof && old(self).pending().len() < n
                    && final(self).pending() == Seq::<u8>::empty(),
            },
    {
        if self.buf.len() - self.pos < n {
            self.pos = self.buf.len();
            assert(self.pending() =~= Seq::<u8>::empty());
            return Err(FrameError::UnexpectedEof);
        }
        let end = self.pos + n;
        let v = vstd::slice::slice_to_vec(vstd::slice::slice_subrange(self.buf.as_slice(), self.pos, end));
        self.pos = end;
        assert(v@ =~= old(self).pending().take(n as int));
        assert(self.pending() =~= old(self).pending().skip(n as int));
        Ok(v)
    }
}

/// Writes one frame carrying `payload`.
pub fn write_frame(pipe: &mut Pipe, payload: &[u8]) -> (r: Result<(), FrameError>)
    requires
        old(pipe).wf(),
        payload@.len() <= u32::MAX,
    ensures
        final(pipe).wf(),
        r is Ok,
        final(pipe).pending() == old(pipe).pending() + frame_of(payload@),
{
    let frame = encode_frame(payload);
    pipe.write_all(frame.as_slice());
    pipe.flush();
    Ok(())
}

/// Reads one frame and returns its payload. A declared length above
/// [`MAX_FRAME_LEN`] fails with `FrameTooLarge` before the payload is read.
pub fn read_frame(pipe: &mut Pipe) -> (r: Result<Vec<u8>, FrameError>)
    requires
        old(pipe).wf(),
    ensures
        final(pipe).wf(),
        match r {
            Ok(v) => read_outcome(old(pipe).pending()).0 == Ok::<Seq<u8>, FrameError>(v@),
            Err(e) => read_outcome(old(pipe).pending()).0 == Err::<Seq<u8>, FrameError>(e),
        },
        final(pipe).pending() == old(pipe).pending().skip(read_outcome(old(pipe).pending()).1 as int),
{
    let ghost s = pipe.pending();
    let header = match pipe.read_exact(4) {
        Ok(h) => h,
        Err(e) => {
            assert(s.skip(s.len() as int) =~= Seq::<u8>::empty());
            return Err(e);
        },
    };
    assert(header@ =~= s.take(4));
    let n = match frame_len(header.as_slice()) {
        Ok(n) => n,
        Err(e) => return Err(e),
    };
    let ghost rest = pipe.pending();
    let body = match pipe.read_exact(n) {
        Ok(b) => b,
        Err(e) => {
            assert(s.skip(s.len() as int) =~= Seq::<u8>::empty());
            return Err(e);
        },
    };
    proof {
        assert(s.subrange(4, 4 + n as int) =~= rest.take(n as int));
        assert(pipe.pending() =~= s.skip(4 + n as int));
    }
    Ok(body)
}

/// Framing round trip: reading the frame written for a payload of at most
/// [`MAX_FRAME_LEN`] bytes gives the payload back and leaves what follows;
/// for a longer payload the write stands but the read fails with
/// `FrameTooLarge`.
pub proof fn law_frame_round_trip(payload: Seq<u8>, rest: Seq<u8>)
    requires
        payload.len() <= u32::MAX,
    ensures
        payload.len() <= MAX_FRAME_LEN ==> read_outcome(frame_of(payload) + rest) == (
        Ok::<Seq<u8>, FrameError>(payload),
        4 + payload.len(),
        ),
        payload.len() <= MAX_FRAME_LEN ==> (frame_of(payload) + rest).skip(4 + payload.len() as int) == rest,
        payload.len() > MAX_FRAME_LEN ==> read_outcome(frame_of(payload) + rest).0 == Err::<
            Seq<u8>,
            FrameError,
        >(FrameError::FrameTooLarge),
{
    let s = frame_of(payload) + rest;
    lemma_be_round_trip(payload.len());
    assert(s.take(4) =~= be_u32(payload.len()));
    assert(s.subrange(4, 4 + payload.len() as int) =~= payload);
    assert(s.skip(4 + payload.len() as int) =~= rest);
}

} // verus!
