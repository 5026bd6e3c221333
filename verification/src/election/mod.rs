//! Lease-backed controller election and the authority used to fence writes.
pub mod authority;
pub mod campaign;
pub mod election_laws;
pub mod error;
pub mod lease;
pub mod relinquish;

pub use authority::{put_controller_owned, ControllerAuthority, ControllerCommitFence};
pub use campaign::{CampaignAction, CampaignEvent, ControllerElection};
pub use error::ElectionError;
pub use lease::{lease_seconds, ControllerElectionConfig, KeepaliveDecision, KeepalivePlan};
pub use relinquish::{Relinquishment, RelinquishAction};
