//! The chunked range streamer.
//!
//! A finite lazy producer of byte buffers of up to 64 KiB each, covering the
//! logical byte range `[offset, offset + size)` of a seekable source.  The
//! buffers are contiguous and in order: their concatenation always equals
//! the source bytes between the starting offset and the current offset.  The
//! surrounding HTTP layer calls `next_chunk` once per chunk, from a worker
//! thread, and sends each buffer as one piece of the response body.

use crate::error::StreamError;
use crate::source::SeekRead;
use vstd::prelude::*;

verus! {

/// The largest chunk the streamer yields.
pub const CHUNK_SIZE: u64 = 65536;

/// A lazy sequence of byte buffers over `[offset, offset + size)` of a
/// seekable source.
pub struct ChunkedReadStream<T: SeekRead> {
    size: u64,
    offset: u64,
    counter: u64,
    file: T,
    produced: Ghost<Seq<u8>>,
}

impl<T: SeekRead> ChunkedReadStream<T> {
    /// The logical bytes of the source.
    pub closed spec fn source_bytes(&self) -> Seq<u8> {
        self.file.stream_bytes()
    }

    /// The length of the range to cover.
    pub closed spec fn range_size(&self) -> int {
        self.size as int
    }

    /// The next position to read from.
    pub closed spec fn current_offset(&self) -> int {
        self.offset as int
    }

    /// How many bytes have been produced so far.
    pub closed spec fn bytes_produced(&self) -> int {
        self.counter as int
    }

    /// The concatenation of all buffers yielded so far.
    pub closed spec fn produced_bytes(&self) -> Seq<u8> {
        self.produced@
    }

    /// The source is well formed.
    pub closed spec fn source_wf(&self) -> bool {
        self.file.stream_wf()
    }

    /// The streamer is consistent: the buffers yielded so far are contiguous
    /// and in order — their concatenation is exactly the source bytes
    /// between the starting offset and the current offset.
    pub open spec fn wf(&self) -> bool {
        &&& self.source_wf()
        &&& self.bytes_produced() <= self.range_size()
        &&& self.bytes_produced() <= self.current_offset()
        &&& self.current_offset() + (self.range_size() - self.bytes_produced()) <= u64::MAX
        &&& self.produced_bytes().len() == self.bytes_produced()
        &&& self.bytes_produced() > 0 ==> self.current_offset() <= self.source_bytes().len()
            && self.produced_bytes() == self.source_bytes().subrange(
            self.current_offset() - self.bytes_produced(),
            self.current_offset(),
        )
    }

    /// A streamer over `[offset, offset + size)` of `file`.
    pub fn new(offset: u64, size: u64, file: T) -> (r: Self)
        requires
            file.stream_wf(),
            offset + size <= u64::MAX,
        ensures
            r.wf(),
            r.source_bytes() == file.stream_bytes(),
            r.range_size() == size,
            r.current_offset() == offset,
            r.bytes_produced() == 0,
            r.produced_bytes() == Seq::<u8>::empty(),
    {
        ChunkedReadStream { offset, size, file, counter: 0, produced: Ghost(Seq::empty()) }
    }

    /// Produce the next buffer: `None` once `size` bytes are out; otherwise
    /// seek to the current offset and read up to `min(size - produced,
    /// 65536)` bytes.  An empty read is `UnexpectedEof`; seek and read
    /// errors of the source pass through.
    pub fn next_chunk(&mut self) -> (r: Result<Option<Vec<u8>>, StreamError>)
        requires
            old(self).wf(),
        ensures
            final(self).wf(),
            final(self).source_bytes() == old(self).source_bytes(),
            final(self).range_size() == old(self).range_size(),
            old(self).bytes_produced() == old(self).range_size() ==> r is Ok && r->Ok_0 is None,
            old(self).bytes_produced() < old(self).range_size() && old(self).current_offset()
                >= old(self).source_bytes().len() ==> r is Err,
            match r {
                Ok(Some(v)) => {
                    &&& old(self).bytes_produced() < old(self).range_size()
                    &&& old(self).current_offset() < old(self).source_bytes().len()
                    &&& v@.len() == vstd::math::min(
                        vstd::math::min(
                            old(self).range_size() - old(self).bytes_produced(),
                            CHUNK_SIZE as int,
                        ),
                        old(self).source_bytes().len() - old(self).current_offset(),
                    )
                    &&& old(self).current_offset() + v@.len() <= old(self).source_bytes().len()
                    &&& v@ == old(self).source_bytes().subrange(
                        old(self).current_offset(),
                        old(self).current_offset() + v@.len(),
                    )
                    &&& final(self).current_offset() == old(self).current_offset() + v@.len()
                    &&& final(self).bytes_produced() == old(self).bytes_produced() + v@.len()
                    &&& final(self).produced_bytes() == old(self).produced_bytes() + v@
                },
                Ok(None) => {
                    &&& old(self).bytes_produced() == old(self).range_size()
                    &&& final(self).bytes_produced() == old(self).bytes_produced()
                    &&& final(self).produced_bytes() == old(self).produced_bytes()
                },
                Err(_) => {
                    &&& final(self).bytes_produced() == old(self).bytes_produced()
                    &&& final(self).produced_bytes() == old(self).produced_bytes()
                    &&& final(self).current_offset() == old(self).current_offset()
                },
            },
    {
        if self.counter == self.size {
            return Ok(None);
        }
        let remaining: u64 = self.size - self.counter;
        let max64: u64 = if remaining < CHUNK_SIZE {
            remaining
        } else {
            CHUNK_SIZE
        };
        let max: usize = max64 as usize;
        match self.file.stream_seek(self.offset) {
            Ok(_) => {},
            Err(e) => {
                return Err(e);
            },
        }
        let v = match self.file.stream_read(max) {
            Ok(v) => v,
            Err(e) => {
                return Err(e);
            },
        };
        if v.len() == 0 {
            return Err(StreamError::UnexpectedEof);
        }
        let got: u64 = v.len() as u64;
        proof {
            assert(self.produced@ + v@ =~= self.file.stream_bytes().subrange(
                self.offset - self.counter,
                self.offset + got,
            ));
        }
        self.produced = Ghost(self.produced@ + v@);
        self.offset = self.offset + got;
        self.counter = self.counter + got;
        Ok(Some(v))
    }
}

} // verus!
