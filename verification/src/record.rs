//! Record-marking framing: a byte stream divided into fragments, each
//! prefixed by a four-byte big-endian header whose top bit marks the final
//! fragment of a logical record and whose low 31 bits give the fragment's
//! length.

use vstd::prelude::*;
use vstd::math::min;
use crate::wire::{spec_u32_be, spec_u32_of_be, put_u32_be, get_u32_be};

verus! {

/// Header bit that marks the final fragment of a record.
pub const LAST_REC: u32 = 0x8000_0000;

/// The byte length a fragment header announces.
pub open spec fn frag_size(h: u32) -> int {
    (h & 0x7fff_ffff) as int
}

/// Whether a fragment header marks the final fragment of its record.
pub open spec fn frag_last(h: u32) -> bool {
    h & 0x8000_0000 != 0
}

/// The header word standing at position `p` of the stream.
pub open spec fn hdr_at(s: Seq<u8>, p: int) -> u32 {
    spec_u32_of_be(s[p], s[p + 1], s[p + 2], s[p + 3])
}

/// Advancing a reader to the next data it can hand out: skip fragment
/// headers while the current fragment is exhausted, stopping at a non-empty
/// fragment or at the end of the stream.  The result is the position, the
/// bytes remaining in the entered fragment, the end-of-record flag, and
/// whether the stream ended.
pub open spec fn spec_fill(s: Seq<u8>, pos: int, rem: int, eor: bool) -> (int, int, bool, bool)
    decreases s.len() - pos,
{
    if rem > 0 {
        (pos, rem, eor, false)
    } else if pos + 4 > s.len() {
        (pos, 0, eor, true)
    } else {
        let h = hdr_at(s, pos);
        spec_fill(s, pos + 4, frag_size(h), frag_last(h))
    }
}

/// Reads a record-marked stream held in a byte buffer, presenting the
/// fragments' payload bytes and exposing whether the most recently entered
/// fragment was the final one of its record.
pub struct XdrRecordReader {
    pub size: usize,
    pub consumed: usize,
    pub eor: bool,
    pub input: Vec<u8>,
    pub pos: usize,
}

impl XdrRecordReader {
    /// The reader's bookkeeping stays inside the buffer it reads.
    pub open spec fn wf(self) -> bool {
        &&& self.pos <= self.input@.len()
        &&& self.consumed <= self.size
    }

    /// Bytes of the current fragment not yet handed out.
    pub open spec fn remaining(self) -> int {
        self.size - self.consumed
    }

    /// The underlying stream.
    pub open spec fn stream(self) -> Seq<u8> {
        self.input@
    }

    /// Takes the record-marked stream to read.
    pub fn new(rd: Vec<u8>) -> (r: XdrRecordReader)
        ensures
            r.wf(),
            r.stream() == rd@,
            r.pos == 0,
            r.remaining() == 0,
            !r.eor,
    {
        XdrRecordReader { size: 0, consumed: 0, eor: false, input: rd, pos: 0 }
    }

    fn totremains(&self) -> (r: usize)
        requires
            self.wf(),
        ensures
            r == self.remaining(),
    {
        self.size - self.consumed
    }

    /// Whether the fragment most recently entered was the final one of its
    /// record.
    pub fn eor(&self) -> (r: bool)
        ensures
            r == self.eor,
    {
        self.eor
    }

    /// Enters the next fragment.  Returns true when the stream has ended
    /// (fewer than four bytes remain for a header).
    fn nextrec(&mut self) -> (eof: bool)
        requires
            old(self).wf(),
            old(self).remaining() == 0,
        ensures
            final(self).wf(),
            final(self).stream() == old(self).stream(),
            ({
                let s = old(self).stream();
                let p = old(self).pos as int;
                if p + 4 > s.len() {
                    &&& eof
                    &&& *final(self) == *old(self)
                } else {
                    let h = hdr_at(s, p);
                    &&& !eof
                    &&& final(self).pos == p + 4
                    &&& final(self).remaining() == frag_size(h)
                    &&& final(self).consumed == 0
                    &&& final(self).eor == frag_last(h)
                }
            }),
    {
        let len: usize = self.input.len();
        if len - self.pos < 4 {
            return true;
        }
        let rechdr: u32 = get_u32_be(&self.input, self.pos);
        self.pos = self.pos + 4;
        self.size = (rechdr & 0x7fff_ffff) as usize;
        self.consumed = 0;
        self.eor = rechdr & LAST_REC != 0;
        false
    }

    /// Reads up to `want` bytes.  Headers are skipped until a non-empty
    /// fragment or the end of the stream is reached; then as many bytes as
    /// the fragment and the buffered stream still hold, capped at `want`,
    /// are handed out.  A read never crosses a fragment boundary.
    pub fn read(&mut self, want: usize) -> (r: Vec<u8>)
        requires
            old(self).wf(),
        ensures
            final(self).wf(),
            final(self).stream() == old(self).stream(),
            ({
                let s = old(self).stream();
                let fill = spec_fill(s, old(self).pos as int, old(self).remaining(), old(self).eor);
                let (p2, rem, e2, eof) = fill;
                if eof {
                    &&& r@.len() == 0
                    &&& final(self).pos == p2
                    &&& final(self).remaining() == 0
                    &&& final(self).eor == e2
                } else {
                    let k = min(want as int, min(s.len() - p2, rem));
                    &&& r@ == s.subrange(p2, p2 + k)
                    &&& final(self).pos == p2 + k
                    &&& final(self).remaining() == rem - k
                    &&& final(self).eor == e2
                }
            }),
    {
        let ghost s = self.stream();
        let ghost orig = spec_fill(s, self.pos as int, self.remaining(), self.eor);
        while self.totremains() == 0
            invariant
                self.wf(),
                self.stream() == s,
                s == old(self).stream(),
                orig == spec_fill(
                    s,
                    old(self).pos as int,
                    old(self).remaining(),
                    old(self).eor,
                ),
                spec_fill(s, self.pos as int, self.remaining(), self.eor) == orig,
            decreases s.len() - self.pos,
        {
            if self.nextrec() {
                assert(orig == (self.pos as int, 0int, self.eor, true));
                return Vec::new();
            }
        }
        assert(orig == (self.pos as int, self.remaining(), self.eor, false));
        let len: usize = self.input.len();
        let avail: usize = if len - self.pos < self.size - self.consumed {
            len - self.pos
        } else {
            self.size - self.consumed
        };
        let k: usize = if want < avail {
            want
        } else {
            avail
        };
        let mut out: Vec<u8> = Vec::new();
        let start: usize = self.pos;
        let mut i: usize = 0;
        while i < k
            invariant
                self.wf(),
                self.stream() == s,
                start == self.pos,
                len == s.len(),
                start + k <= len,
                i <= k,
                out@ == s.subrange(start as int, start + i),
            decreases k - i,
        {
            out.push(self.input[start + i]);
            i = i + 1;
            assert(out@ =~= s.subrange(start as int, start + i));
        }
        self.pos = self.pos + k;
        self.consumed = self.consumed + k;
        out
    }
}

/// The bytes of one fragment on the wire: the header word, then the
/// payload.
pub open spec fn spec_frame(payload: Seq<u8>, eor: bool) -> Seq<u8>
    recommends
        payload.len() <= 0x7fff_ffff,
{
    spec_u32_be(if eor {
        (payload.len() as u32) | 0x8000_0000u32
    } else {
        payload.len() as u32
    }) + payload
}

/// What one `write` call leaves behind: the appended bytes are split into
/// chunks no longer than the threshold; a chunk that would overfill the
/// buffer first flushes it as one non-final fragment.
pub open spec fn spec_write(out: Seq<u8>, buf: Seq<u8>, bufsz: int, data: Seq<u8>) -> (Seq<u8>, Seq<
    u8,
>)
    decreases data.len(),
{
    if data.len() == 0 || bufsz < 1 {
        (out, buf)
    } else {
        let c = min(data.len() as int, bufsz);
        let chunk = data.subrange(0, c);
        if buf.len() + c > bufsz {
            spec_write(out + spec_frame(buf, false), chunk, bufsz, data.skip(c))
        } else {
            spec_write(out, buf + chunk, bufsz, data.skip(c))
        }
    }
}

/// Buffers appended bytes up to a threshold, flushing them as length-
/// prefixed fragments; the final flush marks the end of the record.
pub struct XdrRecordWriter {
    pub buf: Vec<u8>,
    pub bufsz: usize,
    pub out: Vec<u8>,
}

/// Default buffering threshold.
pub const WRBUF: usize = 65536;

impl XdrRecordWriter {
    /// The buffered bytes never exceed the threshold, and the threshold
    /// fits a fragment header.
    pub open spec fn wf(self) -> bool {
        &&& 1 <= self.bufsz <= 0x7fff_ffff
        &&& self.buf@.len() <= self.bufsz
    }

    /// Bytes already emitted on the wire.
    pub open spec fn emitted(self) -> Seq<u8> {
        self.out@
    }

    /// Bytes appended but not yet flushed.
    pub open spec fn pending(self) -> Seq<u8> {
        self.buf@
    }

    /// The buffering threshold.
    pub open spec fn threshold(self) -> int {
        self.bufsz as int
    }

    /// A writer with the given buffering threshold.
    pub fn with_buffer(bufsz: usize) -> (r: XdrRecordWriter)
        requires
            1 <= bufsz <= 0x7fff_ffff,
        ensures
            r.wf(),
            r.emitted() == Seq::<u8>::empty(),
            r.pending() == Seq::<u8>::empty(),
            r.threshold() == bufsz,
    {
        let r = XdrRecordWriter { buf: Vec::with_capacity(bufsz), bufsz, out: Vec::new() };
        assert(r.emitted() =~= Seq::<u8>::empty());
        assert(r.pending() =~= Seq::<u8>::empty());
        r
    }

    /// A writer with the default threshold.
    pub fn new() -> (r: XdrRecordWriter)
        ensures
            r.wf(),
            r.emitted() == Seq::<u8>::empty(),
            r.pending() == Seq::<u8>::empty(),
            r.threshold() == WRBUF as int,
    {
        XdrRecordWriter::with_buffer(WRBUF)
    }

    /// Flushes the buffered bytes as one fragment, marked final when `eor`
    /// holds.  An empty buffer is flushed only for a final fragment, so
    /// that closing a record always leaves a final marker on the wire.
    pub fn flush_eor(&mut self, eor: bool)
        requires
            old(self).wf(),
        ensures
            final(self).wf(),
            final(self).threshold() == old(self).threshold(),
            if !eor && old(self).pending().len() == 0 {
                *final(self) == *old(self)
            } else {
                &&& final(self).emitted() == old(self).emitted() + spec_frame(
                    old(self).pending(),
                    eor,
                )
                &&& final(self).pending() == Seq::<u8>::empty()
            },
    {
        if !eor && self.buf.len() == 0 {
            return ;
        }
        let mut rechdr: u32 = self.buf.len() as u32;
        if eor {
            rechdr = rechdr | LAST_REC;
        }
        put_u32_be(&mut self.out, rechdr);
        let ghost mid = self.out@;
        let ghost payload = self.buf@;
        let n: usize = self.buf.len();
        let mut i: usize = 0;
        while i < n
            invariant
                i <= n,
                self.buf@ == payload,
                self.bufsz == old(self).bufsz,
                n == self.buf@.len(),
                self.out@ == mid + self.buf@.subrange(0, i as int),
            decreases n - i,
        {
            let b: u8 = self.buf[i];
            self.out.push(b);
            i = i + 1;
            assert(self.out@ =~= mid + self.buf@.subrange(0, i as int));
        }
        assert(self.buf@.subrange(0, n as int) =~= self.buf@);
        self.buf.clear();
        assert(self.pending() =~= Seq::<u8>::empty());
    }

    /// Flushes the buffered bytes as one non-final fragment.
    pub fn flush(&mut self)
        requires
            old(self).wf(),
        ensures
            final(self).wf(),
            final(self).threshold() == old(self).threshold(),
            if old(self).pending().len() == 0 {
                *final(self) == *old(self)
            } else {
                &&& final(self).emitted() == old(self).emitted() + spec_frame(
                    old(self).pending(),
                    false,
                )
                &&& final(self).pending() == Seq::<u8>::empty()
            },
    {
        self.flush_eor(false)
    }

    /// Appends bytes, flushing full buffers as non-final fragments along
    /// the way.
    pub fn write(&mut self, data: &[u8]) -> (r: usize)
        requires
            old(self).wf(),
        ensures
            final(self).wf(),
            final(self).threshold() == old(self).threshold(),
            r == data@.len(),
            (final(self).emitted(), final(self).pending()) == spec_write(
                old(self).emitted(),
                old(self).pending(),
                old(self).threshold(),
                data@,
            ),
    {
        let ghost goal = spec_write(
            self.emitted(),
            self.pending(),
            self.threshold(),
            data@,
        );
        let dlen: usize = data.len();
        let mut off: usize = 0;
        assert(data@.skip(0) =~= data@);
        while off < dlen
            invariant
                self.wf(),
                self.threshold() == old(self).threshold(),
                off <= dlen,
                dlen == data@.len(),
                spec_write(self.emitted(), self.pending(), self.threshold(), data@.skip(off as int))
                    == goal,
            decreases dlen - off,
        {
            let csz: usize = if dlen - off < self.bufsz {
                dlen - off
            } else {
                self.bufsz
            };
            let ghost rest = data@.skip(off as int);
            let ghost out0 = self.emitted();
            let ghost buf0 = self.pending();
            assert(min(rest.len() as int, self.threshold()) == csz as int);
            if self.buf.len() + csz > self.bufsz {
                self.flush_eor(false);
            }
            assert(self.buf@.len() + csz <= self.bufsz);
            let ghost before = self.buf@;
            let ghost outmid = self.out@;
            let mut j: usize = 0;
            while j < csz
                invariant
                    j <= csz,
                    off + csz <= dlen,
                    dlen == data@.len(),
                    before.len() + csz <= self.bufsz,
                    self.bufsz == old(self).bufsz,
                    self.out@ == outmid,
                    self.buf@ == before + data@.subrange(off as int, off + j),
                decreases csz - j,
            {
                let b: u8 = data[off + j];
                self.buf.push(b);
                j = j + 1;
                assert(self.buf@ =~= before + data@.subrange(off as int, off + j));
            }
            let ghost chunk = rest.subrange(0, csz as int);
            assert(data@.subrange(off as int, off + csz) =~= chunk);
            assert(rest.skip(csz as int) =~= data@.skip(off + csz));
            proof {
                if buf0.len() + csz > self.bufsz {
                    assert(self.emitted() == out0 + spec_frame(buf0, false));
                    assert(self.pending() =~= chunk);
                } else {
                    assert(self.emitted() == out0);
                    assert(self.pending() =~= buf0 + chunk);
                }
            }
            assert(spec_write(out0, buf0, self.bufsz as int, rest) == spec_write(
                self.emitted(),
                self.pending(),
                self.bufsz as int,
                rest.skip(csz as int),
            ));
            off = off + csz;
        }
        assert(data@.skip(dlen as int) =~= Seq::<u8>::empty());
        dlen
    }

    /// Flushes what remains as the final fragment of the record and hands
    /// the wire bytes back.
    pub fn finish(self) -> (r: Vec<u8>)
        requires
            self.wf(),
        ensures
            r@ == self.emitted() + spec_frame(self.pending(), true),
    {
        let mut w = self;
        w.flush_eor(true);
        w.out
    }
}

} // verus!
