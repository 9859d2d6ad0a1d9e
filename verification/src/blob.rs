//! Transfer of large values beside the messages that announce them.
use vstd::prelude::*;

verus! {

/// A request to send `message` to the destination, with a blob that follows
/// on a connection of its own.
#[derive(Debug, PartialEq, Eq)]
pub struct Transfer<A, M>(pub A, pub M, pub Vec<u8>);

/// A message that has arrived, with the blob that followed it.
#[derive(Debug, PartialEq, Eq)]
pub struct RecvBlob<M>(pub M, pub Vec<u8>);

} // verus!
