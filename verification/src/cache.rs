use vstd::prelude::*;

verus! {

/// How reading a file treats the operating system's page cache.
#[derive(Clone, Copy, Debug, PartialEq, Eq, Structural)]
pub enum CacheMode {
    /// Drop the pages of each chunk once it has been read.
    DropCache,
    /// Leave the page cache alone (the default, and usually fastest).
    KeepCache,
    /// Read with `O_DIRECT`, bypassing the page cache (Linux only).
    Direct,
}

/// Whether opening a file for hashing should advise the kernel that it will be
/// read sequentially (Linux): in every mode but `KeepCache`.
pub fn advises_sequential(mode: CacheMode) -> (r: bool)
    ensures
        r == (mode != CacheMode::KeepCache),
{
    mode != CacheMode::KeepCache
}

/// Whether the pages of each chunk are dropped from the page cache once read
/// (Linux), and whether the file is opened without caching (macOS): only in
/// `DropCache` mode.
pub fn drops_pages(mode: CacheMode) -> (r: bool)
    ensures
        r == (mode == CacheMode::DropCache),
{
    mode == CacheMode::DropCache
}

/// Division rounded up.
pub open spec fn ceil_div(value: nat, alignment: nat) -> nat
    recommends
        alignment > 0,
{
    value / alignment + if value % alignment != 0 {
        1nat
    } else {
        0nat
    }
}

/// Rounds `value` up to a multiple of `alignment`.
pub fn round_up(value: usize, alignment: usize) -> (r: usize)
    requires
        alignment > 0,
        ceil_div(value as nat, alignment as nat) * alignment <= usize::MAX,
    ensures
        r == ceil_div(value as nat, alignment as nat) * alignment,
        r % alignment == 0,
        value <= r < value + alignment,
{
    proof {
        let c = ceil_div(value as nat, alignment as nat);
        assert(c <= c * alignment) by (nonlinear_arith)
            requires
                alignment > 0,
        ;
    }
    let q = value / alignment + if value % alignment != 0 {
        1
    } else {
        0
    };
    proof {
        lemma_round_up(value as nat, alignment as nat);
    }
    q * alignment
}

proof fn lemma_round_up(value: nat, alignment: nat)
    requires
        alignment > 0,
    ensures
        (ceil_div(value, alignment) * alignment) % alignment == 0,
        value <= ceil_div(value, alignment) * alignment < value + alignment,
{
    let q = value / alignment;
    let r = value % alignment;
    assert(value == q * alignment + r && 0 <= r < alignment) by (nonlinear_arith)
        requires
            alignment > 0,
            q == value / alignment,
            r == value % alignment,
    ;
    if r != 0 {
        assert((q + 1) * alignment == q * alignment + alignment) by (nonlinear_arith);
        assert(((q + 1) * alignment) % alignment == 0) by (nonlinear_arith)
            requires
                alignment > 0,
        ;
    } else {
        assert((q * alignment) % alignment == 0) by (nonlinear_arith)
            requires
                alignment > 0,
        ;
    }
}

/// The alignment, in bytes, of buffers for `O_DIRECT` reads.
pub const DIRECT_ALIGNMENT: usize = 4096;

/// The size of the aligned buffer for `O_DIRECT` reads: the requested size,
/// at least one alignment unit, rounded up to a multiple of the alignment.
pub open spec fn direct_buffer_size(buf_size: usize) -> nat {
    let m = if buf_size < DIRECT_ALIGNMENT {
        DIRECT_ALIGNMENT
    } else {
        buf_size
    };
    ceil_div(m as nat, DIRECT_ALIGNMENT as nat) * (DIRECT_ALIGNMENT as nat)
}

/// The buffer size for `O_DIRECT` reads of a requested size.
pub fn direct_buffer_len(buf_size: usize) -> (n: usize)
    requires
        direct_buffer_size(buf_size) <= usize::MAX,
    ensures
        n == direct_buffer_size(buf_size),
        n % DIRECT_ALIGNMENT == 0,
        n >= buf_size,
        n >= DIRECT_ALIGNMENT,
{
    let m = if buf_size < DIRECT_ALIGNMENT {
        DIRECT_ALIGNMENT
    } else {
        buf_size
    };
    round_up(m, DIRECT_ALIGNMENT)
}

/// Whether the `O_DIRECT` buffer size for a requested size fits in `usize`.
pub fn direct_buffer_size_fits(buf_size: usize) -> (b: bool)
    ensures
        b == (direct_buffer_size(buf_size) <= usize::MAX),
{
    let m = if buf_size < DIRECT_ALIGNMENT {
        DIRECT_ALIGNMENT
    } else {
        buf_size
    };
    let q = m / DIRECT_ALIGNMENT + if m % DIRECT_ALIGNMENT != 0 {
        1
    } else {
        0
    };
    proof {
        assert(q == ceil_div(m as nat, DIRECT_ALIGNMENT as nat));
        assert((q * 4096 <= usize::MAX) == (q <= usize::MAX / 4096)) by (nonlinear_arith);
    }
    q <= usize::MAX / DIRECT_ALIGNMENT
}

} // verus!
