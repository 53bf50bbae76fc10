//! What can go wrong in peer management.

use crate::addr::SocketAddr;
use vstd::prelude::*;

verus! {

/// An error of the network layer's storage, in words.
#[derive(Debug, Clone, PartialEq, Eq)]
pub struct NetError {
    pub reason: String,
}

/// Errors that can occur during peer management
#[derive(Debug, Clone, PartialEq, Eq)]
pub enum PeerManagementError {
    /// There is no such peer
    PeerNotFound(SocketAddr),
    /// The storage failed
    Database(NetError),
}

impl From<NetError> for PeerManagementError {
    fn from(error: NetError) -> (made: Self) {
        PeerManagementError::Database(error)
    }
}

impl vstd::std_specs::convert::FromSpecImpl<NetError> for PeerManagementError {
    open spec fn obeys_from_spec() -> bool {
        true
    }

    open spec fn from_spec(error: NetError) -> Self {
        PeerManagementError::Database(error)
    }
}

/// An error of the storage becomes the error that the storage failed, with the same words.
pub proof fn law_storage_error_is_kept(error: NetError, made: PeerManagementError)
    requires
        call_ensures(<PeerManagementError as From<NetError>>::from, (error,), made),
    ensures
        made matches PeerManagementError::Database(kept) && kept == error,
{
}

} // verus!
