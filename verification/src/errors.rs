use vstd::prelude::*;

verus! {

/// The domain errors of the donation ledger. Every failed operation
/// reports exactly one of these and leaves the ledger unchanged.
#[derive(Clone, Copy, Debug, PartialEq, Eq, Structural)]
pub enum MicroDonationsError {
    /// The caller is not the admin, on an admin-gated operation.
    Unauthorized,
    /// A monetary argument violates a positivity or ceiling constraint.
    InvalidAmount,
    /// The named project is not registered.
    ProjectNotFound,
    /// A project of that name is already registered.
    ProjectAlreadyExists,
    /// The donation would push the balance above the goal.
    GoalExceeded,
}

} // verus!
