//! The arguments of `attache-gate`, and how many threads it serves with.

use crate::path::UnixPath;
use vstd::prelude::*;
use vstd::string::*;
use vstd::utf8::*;

verus! {

/// Reads the arguments of `attache-gate`, its own name first: the backing
/// directory and the mountpoint, and nothing else.
pub fn parse_args(args: &[String]) -> (r: Option<(UnixPath, UnixPath)>)
    ensures
        match r {
            Some((backing, mountpoint)) => args@.len() == 3 && backing@ == encode_utf8(args@[1]@)
                && mountpoint@ == encode_utf8(args@[2]@),
            None => args@.len() != 3,
        },
{
    if args.len() == 3 {
        Some((UnixPath::new(args[1].as_str()), UnixPath::new(args[2].as_str())))
    } else {
        None
    }
}

/// The fewest threads that serve requests. A prompt holds up the thread that
/// serves the request behind it, so one thread would not do.
pub const MIN_THREADS: usize = 4;

/// The most threads that serve requests.
pub const MAX_THREADS: usize = 16;

/// How many threads serve requests, where `available` can run at once (`None`
/// where that is not known).
pub fn worker_threads(available: Option<usize>) -> (r: usize)
    ensures
        MIN_THREADS <= r <= MAX_THREADS,
        match available {
            Some(n) => r == if n < MIN_THREADS {
                MIN_THREADS
            } else if n > MAX_THREADS {
                MAX_THREADS
            } else {
                n
            },
            None => r == MIN_THREADS,
        },
{
    match available {
        None => MIN_THREADS,
        Some(n) => if n < MIN_THREADS {
            MIN_THREADS
        } else if n > MAX_THREADS {
            MAX_THREADS
        } else {
            n
        },
    }
}

} // verus!
