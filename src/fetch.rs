//! Gathering the outcome of fetching every source.

use crate::error::GridError;
use vstd::prelude::*;

verus! {

/// One fetched source: its URL and its bytes.
pub struct DownloadResult {
    pub url: String,
    pub data: Vec<u8>,
}

/// Every fetch succeeded.
pub open spec fn all_fetched(results: Seq<Result<Vec<u8>, reqwest::Error>>) -> bool {
    forall|i: int| 0 <= i < results.len() ==> (#[trigger] results[i]) is Ok
}

/// Turns the per-source outcomes of a fetch, in source order, into the bytes
/// of every source, or the first failure; no sources at all is an error too.
pub fn collect_downloads(results: Vec<Result<Vec<u8>, reqwest::Error>>) -> (r: Result<
    Vec<Vec<u8>>,
    GridError,
>)
    ensures
        (r is Err && r->Err_0 is EmptyInput) <==> results@.len() == 0,
        r is Ok <==> (results@.len() > 0 && all_fetched(results@)),
        r is Ok ==> r->Ok_0@.len() == results@.len() && forall|i: int|
            0 <= i < results@.len() ==> (#[trigger] r->Ok_0@[i])@ == results@[i]->Ok_0@,
        (r is Err && r->Err_0 is DownloadError) ==> exists|k: int|
            0 <= k < results@.len() && (#[trigger] results@[k]) is Err && all_fetched(
                results@.take(k),
            ) && r->Err_0->DownloadError_0 == results@[k]->Err_0,
        (results@.len() > 0 && !all_fetched(results@)) ==> (r is Err && r->Err_0 is DownloadError),
{
    if results.len() == 0 {
        return Err(GridError::EmptyInput);
    }
    let ghost orig = results@;
    let mut rest = results;
    let mut out: Vec<Vec<u8>> = Vec::new();
    while rest.len() > 0
        invariant
            orig.len() > 0,
            orig == results@,
            out@.len() + rest@.len() == orig.len(),
            rest@ == orig.skip(out@.len() as int),
            all_fetched(orig.take(out@.len() as int)),
            forall|i: int| 0 <= i < out@.len() ==> (#[trigger] out@[i])@ == orig[i]->Ok_0@,
        decreases rest@.len(),
    {
        let ghost k = out@.len() as int;
        let item = rest.remove(0);
        assert(rest@ =~= orig.skip(k + 1));
        match item {
            Ok(bytes) => {
                out.push(bytes);
                assert forall|i: int| 0 <= i < k + 1 implies (#[trigger] orig.take(k + 1)[i]) is Ok by {
                    if i < k {
                        assert(orig.take(k)[i] == orig[i]);
                    }
                }
            },
            Err(e) => {
                assert(!all_fetched(orig)) by {
                    assert(orig[k] is Err);
                }
                return Err(GridError::DownloadError(e));
            },
        }
    }
    assert(orig.take(orig.len() as int) =~= orig);
    Ok(out)
}

} // verus!
