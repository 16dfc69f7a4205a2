//! Reconciling desired profiles with the system.

pub mod batch;
pub mod host;
pub mod inspection;
pub mod normalize;
pub mod observe;
pub mod overlap;
pub mod overview;
pub mod procedure;
pub mod reapply;
pub mod reconcile;
pub mod recovery;
pub mod removing;
pub mod rollback;
pub mod saving;
pub mod state;
pub mod steps;
pub mod transaction;

pub use crate::engine::batch::apply_profiles;
pub use crate::engine::normalize::normalize_profile;
pub use crate::engine::overlap::validate_profiles;
pub use crate::engine::reconcile::{
    status, supervision_profiles, validate_desired_profiles, ProfileStatus, SupervisionProfile,
};
pub use crate::engine::removing::remove_profile;
pub use crate::environment::require_root;
