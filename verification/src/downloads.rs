//! Downloads reported by the qBittorrent Web API.
use vstd::prelude::*;
use crate::text::{chars_of, contains_ci, contains_ignore_ascii_case};

verus! {

/// A download is finished once its state, without regard to case, holds
/// `seed` or `upload` (the progress test is made on the percentage).
pub fn torrent_state_finished(state: &str) -> (b: bool)
    ensures
        b == (contains_ci(state@, "seed"@) || contains_ci(state@, "upload"@)),
{
    let v = chars_of(state);
    contains_ignore_ascii_case(&v, &chars_of("seed")) || contains_ignore_ascii_case(
        &v,
        &chars_of("upload"),
    )
}

} // verus!
