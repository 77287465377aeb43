//! What posting a comment through a wallet gives back.

use vstd::prelude::*;

verus! {

/// The receipt of a posted comment: its transaction hash.
#[derive(Debug, Clone)]
pub struct CommentReceipt {
    pub tx_hash: String,
}

} // verus!
