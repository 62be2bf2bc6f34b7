//! Verified core of a bulk backup/restore tool for Apache Solr cores.
//!
//! The library plans a large logical query as a finite sequence of bounded
//! sub-queries (time or range slices, pagination windows), parses the pieces
//! of the Solr response envelope that drive paging, decides retry/backoff and
//! archive rotation, and builds every URL and file name the pipeline needs.
//! The surrounding process (threads, HTTP, disk) lives outside the library
//! and consumes these plans and decisions.

pub mod actions;
pub mod args;
pub mod connection;
pub mod datetime;
pub mod fails;
pub mod fetch;
pub mod helpers;
pub mod ingest;
pub mod models;
pub mod save;
pub mod steps;

use vstd::prelude::*;

verus! {

/// A half-open numeric interval split into strides of `step` needs
/// `ceil((end - begin) / step)` pieces.
pub open spec fn ceil_div(num: int, den: int) -> int
    recommends
        den > 0,
{
    (num + den - 1) / den
}

/// Number of strides of length `step` needed to cover `begin..end`.
pub fn strides_to_cover(begin: u64, end: u64, step: u64) -> (r: u64)
    requires
        step > 0,
    ensures
        begin < end ==> r == ceil_div(end - begin, step as int),
        begin >= end ==> r == 0,
{
    if begin >= end {
        0
    } else {
        let span = end - begin;
        let q = (span - 1) / step;
        proof {
            vstd::arithmetic::div_mod::lemma_div_plus_one((span - 1) as int, step as int);
            vstd::arithmetic::div_mod::lemma_div_nonincreasing((span - 1) as int, step as int);
        }
        q + 1
    }
}

} // verus!
