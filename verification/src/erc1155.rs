//! Metadata-URI interfaces of the token standard, declared for users of the
//! ledger to implement; the core ledger itself stores no metadata.

use vstd::prelude::*;

use crate::Error;

verus! {

/// Read access to per-token metadata.
pub trait ERC1155MetadataURI {
    /// The metadata value attached to a token.
    type TokenInfo;

    /// The metadata of token `id`.
    fn uri(&self, id: u64) -> Self::TokenInfo;
}

/// Write access to per-token metadata.
pub trait ERC1155MetadataURIExt: ERC1155MetadataURI {
    /// Replaces the stored metadata.
    fn set_uri(&mut self, uri: &Self::TokenInfo);
}

/// Reservation of balances, declared for users of the ledger to implement;
/// the core ledger itself locks nothing.
pub trait ERC1155Reservable {
    /// Puts `amount` of `owner`'s balance in token `id` out of reach.
    fn lock(&mut self, owner: u64, id: u64, amount: u128) -> Result<(), Error>;

    /// Releases `amount` of `owner`'s locked balance in token `id`.
    fn unlock(&mut self, owner: u64, id: u64, amount: u128) -> Result<(), Error>;
}

} // verus!
