//! Type state definition of link role.

use vstd::prelude::*;

use crate::definitions::Role;

verus! {

/// Marks the sending end of a link.
#[derive(Debug)]
pub struct SenderMarker {
    _private: (),
}

/// Marks the receiving end of a link.
#[derive(Debug)]
pub struct ReceiverMarker {
    _private: (),
}

/// Marker trait for role.
pub trait IntoRole {
    /// The role that is marked.
    spec fn role() -> Role;

    /// Get the role.
    fn into_role() -> (role: Role)
        ensures
            role == Self::role(),
    ;
}

impl IntoRole for SenderMarker {
    open spec fn role() -> Role {
        Role::Sender
    }

    fn into_role() -> (role: Role) {
        Role::Sender
    }
}

impl IntoRole for ReceiverMarker {
    open spec fn role() -> Role {
        Role::Receiver
    }

    fn into_role() -> (role: Role) {
        Role::Receiver
    }
}

} // verus!
