//! A custodial balance vault: a ledger of per-user deposited value with an
//! invariant-preserving mutation protocol.
//!
//! The vault tracks how much each user has deposited, refuses withdrawals
//! that exceed a user's recorded balance, and exposes the aggregate
//! total-value-locked view. Authorization checks, the movement of the
//! underlying asset, and persistence are external collaborators: each
//! value-moving operation validates and decides here, hands the caller the
//! asset transfer to attempt, and takes the collaborators' verdicts as plain
//! arguments.

mod ledger;
mod vault;

pub use ledger::UserBalance;
pub use vault::DataKey;
pub use vault::FlowOp;
pub use vault::MicroYieldVault;
pub use vault::Party;
pub use vault::TransferAction;
pub use vault::VaultError;
