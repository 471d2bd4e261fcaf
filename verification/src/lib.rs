//! Verified core of the pod0 storage layer's user-data erasure: the
//! inventory of what an erasure removes, the durable marker that carries an
//! erasure across crashes, the decisions of each erasure step, recovery of
//! interrupted erasures, and the application state an erasure keeps.

pub mod erasure;
pub mod error;
pub mod evidence;
pub mod exclusions;
pub mod ids;
pub mod inventory;
pub mod marker;
pub mod path;
pub mod projection;
pub mod recovery;
pub mod resume;
pub mod target_kind;
pub mod text;

pub use erasure::{
    LeasedNativeErasureAction, UserDataErasureConfirmation, UserDataErasureFaultPoint, UserDataErasureProgress,
};
pub use error::StorageError;
pub use exclusions::UserDataErasureExclusion;
pub use ids::CommandId;
pub use inventory::{UserDataTarget, UserDataTargetLocation, ValidatedUserDataInventory};
pub use path::normalize;
pub use recovery::pending_user_data_erasure_markers;
pub use target_kind::{lemma_wire_injective, UserDataTargetKind, KIND_COUNT};
