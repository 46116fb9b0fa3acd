//! Seekable byte sources.
//!
//! The engine treats its input as a seekable byte source held in memory; the
//! surrounding I/O layer reads a file into one.  `SeekRead` is the face the
//! chunked streamer needs: both the raw cursor and the decrypting stream
//! serve subranges of a logical byte sequence.

use crate::error::StreamError;
use vstd::prelude::*;

verus! {

/// A position to seek to, over the logical byte range of a stream.
#[derive(Clone, Copy, Debug)]
pub enum SeekFrom {
    /// An absolute offset from the start.
    Start(u64),
    /// The end of the stream.  The decrypting stream ignores the offset and
    /// positions at the padded length; the raw cursor honours it.
    End(i64),
    /// An offset relative to the current position.
    Current(i64),
}

/// A seekable, readable in-memory byte source.
pub struct ByteCursor {
    data: Vec<u8>,
    pos: u64,
}

impl ByteCursor {
    /// The bytes held.
    pub closed spec fn data_bytes(&self) -> Seq<u8> {
        self.data@
    }

    /// The read cursor; may sit past the end, where reads return nothing.
    pub closed spec fn position(&self) -> int {
        self.pos as int
    }

    /// The target of a seek, which may be out of range.
    pub open spec fn seek_target(&self, from: SeekFrom) -> int {
        match from {
            SeekFrom::Start(p) => p as int,
            SeekFrom::End(d) => self.data_bytes().len() + d,
            SeekFrom::Current(d) => self.position() + d,
        }
    }

    /// A cursor over `data`, positioned at the start.
    pub fn new(data: Vec<u8>) -> (r: Self)
        ensures
            r.data_bytes() == data@,
            r.position() == 0,
    {
        ByteCursor { data, pos: 0 }
    }

    /// The number of bytes held.
    pub fn len(&self) -> (r: usize)
        ensures
            r == self.data_bytes().len(),
    {
        self.data.len()
    }

    /// The current cursor position.
    pub fn pos(&self) -> (r: u64)
        ensures
            r == self.position(),
    {
        self.pos
    }

    /// Copy out the bytes at `[off, off + n)` without moving the cursor.
    pub fn read_at(&self, off: usize, n: usize) -> (r: Vec<u8>)
        requires
            off + n <= self.data_bytes().len(),
        ensures
            r@ == self.data_bytes().subrange(off as int, off as int + n),
    {
        let total: usize = self.data.len();
        let mut r: Vec<u8> = Vec::new();
        let mut i: usize = 0;
        while i < n
            invariant
                off + n <= total,
                total == self.data@.len(),
                i <= n,
                r@ == self.data@.subrange(off as int, off as int + i),
            decreases n - i,
        {
            r.push(self.data[off + i]);
            proof {
                assert(self.data@.subrange(off as int, off as int + i) + seq![
                    self.data@[off + i],
                ] =~= self.data@.subrange(off as int, off as int + i + 1));
            }
            i += 1;
        }
        r
    }

    /// Move the cursor.  Targets past the end are allowed; targets before the
    /// start are `InvalidInput`.
    pub fn seek(&mut self, from: SeekFrom) -> (r: Result<u64, StreamError>)
        ensures
            final(self).data_bytes() == old(self).data_bytes(),
            match r {
                Ok(v) => old(self).seek_target(from) == v && final(self).position() == v,
                Err(e) => e == StreamError::InvalidInput && final(self).position() == old(
                    self,
                ).position() && !(0 <= old(self).seek_target(from) <= u64::MAX),
            },
    {
        match from {
            SeekFrom::Start(p) => {
                self.pos = p;
                Ok(p)
            },
            SeekFrom::End(d) => {
                let len: u64 = self.data.len() as u64;
                if d >= 0 {
                    if len <= u64::MAX - (d as u64) {
                        self.pos = len + d as u64;
                        Ok(self.pos)
                    } else {
                        Err(StreamError::InvalidInput)
                    }
                } else {
                    let back: u64 = (-(d as i128)) as u64;
                    if back <= len {
                        self.pos = len - back;
                        Ok(self.pos)
                    } else {
                        Err(StreamError::InvalidInput)
                    }
                }
            },
            SeekFrom::Current(d) => {
                if d >= 0 {
                    if self.pos <= u64::MAX - (d as u64) {
                        self.pos = self.pos + d as u64;
                        Ok(self.pos)
                    } else {
                        Err(StreamError::InvalidInput)
                    }
                } else {
                    let back: u64 = (-(d as i128)) as u64;
                    if back <= self.pos {
                        self.pos = self.pos - back;
                        Ok(self.pos)
                    } else {
                        Err(StreamError::InvalidInput)
                    }
                }
            },
        }
    }

    /// Read up to `n` bytes at the cursor and advance it.
    pub fn read_up_to(&mut self, n: usize) -> (r: Vec<u8>)
        ensures
            final(self).data_bytes() == old(self).data_bytes(),
            r@.len() <= n,
            old(self).position() < old(self).data_bytes().len() ==> r@.len() == vstd::math::min(
                n as int,
                old(self).data_bytes().len() - old(self).position(),
            ),
            r@.len() > 0 ==> old(self).position() + r@.len() <= old(self).data_bytes().len() && r@
                == old(self).data_bytes().subrange(
                old(self).position(),
                old(self).position() + r@.len(),
            ) && final(self).position() == old(self).position() + r@.len(),
            r@.len() == 0 ==> final(self).position() == old(self).position(),
    {
        let len: usize = self.data.len();
        if self.pos >= len as u64 {
            return Vec::new();
        }
        let p: usize = self.pos as usize;
        let avail: usize = len - p;
        let k: usize = if n < avail {
            n
        } else {
            avail
        };
        let r = self.read_at(p, k);
        self.pos = self.pos + k as u64;
        r
    }

    /// Release the held bytes.
    pub fn into_vec(self) -> (r: Vec<u8>)
        ensures
            r@ == self.data_bytes(),
    {
        self.data
    }
}

/// A seekable source serving subranges of a logical byte sequence: the raw
/// cursor serves its bytes, the decrypting stream its plaintext.
pub trait SeekRead: Sized {
    /// The state is well formed.
    spec fn stream_wf(&self) -> bool;

    /// The logical bytes served.
    spec fn stream_bytes(&self) -> Seq<u8>;

    /// The current logical position.
    spec fn stream_pos(&self) -> int;

    /// Position at `p` from the start.
    fn stream_seek(&mut self, p: u64) -> (r: Result<u64, StreamError>)
        requires
            old(self).stream_wf(),
        ensures
            final(self).stream_wf(),
            final(self).stream_bytes() == old(self).stream_bytes(),
            match r {
                Ok(v) => v == p && final(self).stream_pos() == p,
                Err(_) => final(self).stream_pos() == old(self).stream_pos(),
            },
    ;

    /// Read up to `n` bytes at the current position.  A successful read
    /// serves exactly the logical bytes at the position: `n` of them, or all
    /// that remain when fewer do, or none past the end.
    fn stream_read(&mut self, n: usize) -> (r: Result<Vec<u8>, StreamError>)
        requires
            old(self).stream_wf(),
            n >= 1,
        ensures
            final(self).stream_wf(),
            final(self).stream_bytes() == old(self).stream_bytes(),
            match r {
                Ok(v) => v@.len() == (if old(self).stream_pos() < old(
                    self,
                ).stream_bytes().len() {
                    vstd::math::min(n as int, old(self).stream_bytes().len() - old(
                        self,
                    ).stream_pos())
                } else {
                    0
                }) && (v@.len() > 0 ==> 0 <= old(self).stream_pos() && old(self).stream_pos()
                    + v@.len() <= old(self).stream_bytes().len() && v@ == old(
                    self,
                ).stream_bytes().subrange(
                    old(self).stream_pos(),
                    old(self).stream_pos() + v@.len(),
                )),
                Err(_) => true,
            },
    ;
}

impl SeekRead for ByteCursor {
    open spec fn stream_wf(&self) -> bool {
        true
    }

    open spec fn stream_bytes(&self) -> Seq<u8> {
        self.data_bytes()
    }

    open spec fn stream_pos(&self) -> int {
        self.position()
    }

    fn stream_seek(&mut self, p: u64) -> (r: Result<u64, StreamError>) {
        self.seek(SeekFrom::Start(p))
    }

    fn stream_read(&mut self, n: usize) -> (r: Result<Vec<u8>, StreamError>) {
        Ok(self.read_up_to(n))
    }
}

} // verus!
