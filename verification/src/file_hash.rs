use vstd::prelude::*;
use crate::cache::CacheMode;
use crate::md5::{md5_digest, Md5};

verus! {

/// The read buffer size, in bytes, when none is given: 16 MiB.
pub const DEFAULT_BUFFER_SIZE: usize = 16777216;

/// The smallest read buffer used for ordinary reads, in bytes.
pub const MIN_READ_BUFFER: usize = 8192;

/// The length of the buffer that ordinary reads fill: the requested size, but
/// never less than 8 KiB.
pub fn read_buffer_len(buffer_size: usize) -> (n: usize)
    ensures
        n == if buffer_size < MIN_READ_BUFFER {
            MIN_READ_BUFFER
        } else {
            buffer_size
        },
{
    if buffer_size < MIN_READ_BUFFER {
        MIN_READ_BUFFER
    } else {
        buffer_size
    }
}

/// Where the bytes of a named input come from.
#[derive(Clone, Copy, Debug, PartialEq, Eq, Structural)]
pub enum ReadPlan {
    /// The name `-`: standard input.
    Stdin,
    /// A file opened with `O_DIRECT`.
    Direct,
    /// A file read through the page cache.
    Buffered,
}

/// Chooses how to read an input. `is_stdin` says whether its path is `-`
/// (compared as a path, so `-/` counts too); standard input is read as a
/// stream whatever the cache mode; a file is read with `O_DIRECT` in `Direct`
/// mode and through the page cache otherwise.
pub fn read_plan(is_stdin: bool, mode: CacheMode) -> (p: ReadPlan)
    ensures
        p == if is_stdin {
            ReadPlan::Stdin
        } else if mode == CacheMode::Direct {
            ReadPlan::Direct
        } else {
            ReadPlan::Buffered
        },
{
    if is_stdin {
        ReadPlan::Stdin
    } else if mode == CacheMode::Direct {
        ReadPlan::Direct
    } else {
        ReadPlan::Buffered
    }
}

/// What one read of a stream did to a [`ChunkedHash`].
#[derive(Clone, Copy, Debug, PartialEq, Eq, Structural)]
pub enum FeedStep {
    /// The read returned no bytes: the stream has ended.
    End,
    /// `len` bytes were absorbed, starting at byte `offset` of the stream.
    Absorbed { offset: u64, len: usize },
}

/// MD5 over a stream read in chunks, keeping the offset where the next chunk
/// starts.
pub struct ChunkedHash {
    md5: Md5,
    offset: u64,
}

impl View for ChunkedHash {
    type V = Seq<u8>;

    /// The bytes of the stream absorbed so far.
    closed spec fn view(&self) -> Seq<u8> {
        self.md5@
    }
}

impl ChunkedHash {
    /// The offset always equals the number of bytes absorbed.
    pub closed spec fn wf(&self) -> bool {
        self.offset == self.md5@.len()
    }

    /// A stream hash that has absorbed nothing.
    pub fn new() -> (h: Self)
        ensures
            h.wf(),
            h@ == Seq::<u8>::empty(),
    {
        ChunkedHash { md5: Md5::new(), offset: 0 }
    }

    /// Takes the result of one read into `buf`: `n` is the number of bytes the
    /// read returned. Zero means the stream has ended; otherwise the first `n`
    /// bytes of `buf` are absorbed and the step says at which offset they
    /// started.
    pub fn feed(&mut self, buf: &[u8], n: usize) -> (step: FeedStep)
        requires
            old(self).wf(),
            n <= buf@.len(),
            old(self)@.len() + n <= u64::MAX,
        ensures
            final(self).wf(),
            n == 0 ==> step == FeedStep::End && final(self)@ == old(self)@,
            n > 0 ==> step == (FeedStep::Absorbed { offset: old(self)@.len() as u64, len: n })
                && final(self)@ == old(self)@ + buf@.subrange(0, n as int),
    {
        if n == 0 {
            return FeedStep::End;
        }
        let offset = self.offset;
        let chunk = vstd::slice::slice_subrange(buf, 0, n);
        self.md5.update(chunk);
        self.offset = self.offset + n as u64;
        FeedStep::Absorbed { offset, len: n }
    }

    /// The offset where the next chunk starts: the number of bytes absorbed.
    pub fn offset(&self) -> (o: u64)
        requires
            self.wf(),
        ensures
            o == self@.len(),
    {
        self.offset
    }

    /// The MD5 digest of the whole stream.
    pub fn finish(self) -> (out: [u8; 16])
        ensures
            out@ == md5_digest(self@),
    {
        self.md5.finalize()
    }
}

} // verus!
