//! A role-based access-control store.
//!
//! Roles are bit positions in a fixed-capacity [`BitMap`]; each principal
//! (an opaque 32-byte [`AccountId`]) is associated with the roles it holds
//! and, separately, with the roles it may administer. Granting or revoking a
//! role is gated on the caller holding the admin bit for that role, or the
//! default admin bit `0`, which authorizes administration of every role.

use vstd::prelude::*;

pub mod bitmap;
pub mod laws;
pub mod store;

pub use bitmap::BitMap;
pub use store::AccessControlData;
pub use store::AccessControlError;
pub use store::AccountId;

verus! {

/// A role identifier: a bit position in a principal's role bitmap.
pub type Role = usize;

/// The mutation and query surface a role-gated service exposes to its
/// callers. Implementors derive the acting caller from their execution
/// environment and delegate to an [`AccessControlData`] they own.
pub trait AccessControl {
    fn grant_role(&mut self, account_id: AccountId, role: Role) -> Result<(), AccessControlError>;

    fn revoke_role(&mut self, account_id: AccountId, role: Role) -> Result<(), AccessControlError>;

    fn renounce_role(&mut self, account_id: AccountId, role: Role)
        -> Result<(), AccessControlError>;

    fn has_role(&mut self, account_id: AccountId) -> bool;
}

} // verus!
