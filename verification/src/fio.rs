//! File-I/O benchmark: how the work is cut into rounds.
use vstd::prelude::*;

verus! {

/// How many files a benchmark round opens at once.
pub const MAX_FILE: usize = 512;

/// How many rounds of `MAX_FILE` concurrent read-and-write tasks a benchmark of
/// `bench_size` reads runs: the whole rounds that fit, none for the remainder.
pub fn bench_rounds(bench_size: usize) -> (r: usize)
    ensures
        r == bench_size / MAX_FILE,
        r * MAX_FILE <= bench_size < (r + 1) * MAX_FILE,
{
    let r = bench_size / MAX_FILE;
    assert(r * MAX_FILE <= bench_size < (r + 1) * MAX_FILE) by (nonlinear_arith)
        requires
            r == bench_size / 512,
    ;
    r
}

} // verus!
