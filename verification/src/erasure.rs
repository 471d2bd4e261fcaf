//! The decisions of a crash-safe erasure. The caller performs the
//! filesystem work; each function here takes what the caller observed and
//! says what to do next, or applies the outcome to the marker.
use vstd::prelude::*;

use crate::error::StorageError;
use crate::ids::{lemma_command_id_bytes, CommandId};
use crate::inventory::{
    has_kind, kind_agrees, target_views, LocationView, TargetView, UserDataTargetLocation, ValidatedUserDataInventory,
};
use crate::marker::{
    marker_target_views, new_marker, planned_targets, ErasureMarker, ErasurePhase, EvidenceView, MarkerLocation,
    MarkerLocationView, MarkerTarget, MarkerTargetView, TargetEvidence, TargetState, MARKER_VERSION,
};
use crate::path::join_path;
use crate::projection::{parsed_json, sanitized_application_state, sanitized_projection};
use crate::recovery::{
    erasure_paths, lemma_planned_marker_matches, marker_file_name, marker_placed, marker_targets_match,
    quarantine_dir_name,
};
use crate::target_kind::UserDataTargetKind;

verus! {

/// A prepared erasure: where its marker and quarantine live, and the marker
/// to write before anything is touched.
#[derive(Debug)]
pub struct UserDataErasureConfirmation {
    pub marker_path: String,
    pub quarantine_root: String,
    pub marker: ErasureMarker,
}

/// The points at which an erasure may be interrupted, named for tests that
/// simulate a crash.
#[derive(Clone, Copy, Debug, PartialEq, Eq, Structural)]
pub enum UserDataErasureFaultPoint {
    AfterIntentMarker,
    AfterTargetRename { index: u16 },
    AfterFreshStore,
    AfterTargetCleanup { index: u16 },
}

/// A native action that the host must perform before the erasure can go on.
#[derive(Clone, Debug, PartialEq, Eq)]
pub struct LeasedNativeErasureAction {
    pub action_id: CommandId,
    pub operation_id: CommandId,
    pub kind: UserDataTargetKind,
    pub identifier: String,
    pub attempt: u16,
}

/// Where an erasure stands after a run.
#[derive(Clone, Debug, PartialEq, Eq)]
pub enum UserDataErasureProgress {
    /// Native actions are still to be performed.
    AwaitingNativeActions(Vec<LeasedNativeErasureAction>),
    /// The erasure finished; the fresh store has this identity.
    Complete(CommandId),
}

/// The identities of an erasure are acceptable: the store it erases differs
/// from the store it creates and from the operation.
pub open spec fn ids_acceptable(expected: CommandId, fresh: CommandId, operation: CommandId) -> bool {
    expected != fresh && expected != operation
}

/// Whether the identities of an erasure are acceptable.
pub fn erasure_ids_acceptable(expected: CommandId, fresh: CommandId, operation: CommandId) -> (ok: bool)
    ensures
        ok == ids_acceptable(expected, fresh, operation),
{
    !expected.same(&fresh) && !expected.same(&operation)
}

/// The index of the first target of the kind.
pub open spec fn first_of_kind(s: Seq<TargetView>, k: UserDataTargetKind, from: int) -> Option<int>
    decreases s.len() - from,
{
    if from < 0 || from >= s.len() {
        None
    } else if s[from].kind == k {
        Some(from)
    } else {
        first_of_kind(s, k, from + 1)
    }
}

/// A kind present from `from` on is found there.
proof fn lemma_first_of_kind_found(s: Seq<TargetView>, k: UserDataTargetKind, from: int, at: int)
    requires
        0 <= from <= at < s.len(),
        s[at].kind == k,
    ensures
        first_of_kind(s, k, from) matches Some(i) && from <= i <= at && s[i].kind == k,
    decreases at - from,
{
    if s[from].kind != k {
        lemma_first_of_kind_found(s, k, from + 1, at);
    }
}

/// The path of the core database of a validated inventory: the path of its
/// first core-database target, which every inventory has and which is always
/// on the filesystem.
pub fn core_store_path(inventory: &ValidatedUserDataInventory) -> (path: &String)
    ensures
        ({
            let s = target_views(inventory.target_seq());
            first_of_kind(s, UserDataTargetKind::CoreSqlite, 0) matches Some(i) && s[i].location
                == LocationView::Filesystem(path@)
        }),
{
    let targets = inventory.targets();
    let ghost s = target_views(targets@);
    proof {
        assert(has_kind(s, UserDataTargetKind::CoreSqlite));
        let at = choose|i: int| 0 <= i < s.len() && s[i].kind == UserDataTargetKind::CoreSqlite;
        lemma_first_of_kind_found(s, UserDataTargetKind::CoreSqlite, 0, at);
    }
    let mut i: usize = 0;
    while i < targets.len()
        invariant
            s == target_views(targets@),
            targets@ == inventory.target_seq(),
            i <= targets@.len(),
            first_of_kind(s, UserDataTargetKind::CoreSqlite, 0) == first_of_kind(s, UserDataTargetKind::CoreSqlite, i as int),
            first_of_kind(s, UserDataTargetKind::CoreSqlite, 0) is Some,
            forall|j: int| 0 <= j < s.len() ==> kind_agrees(#[trigger] s[j]),
        decreases targets.len() - i,
    {
        assert(s[i as int] == targets@[i as int]@);
        if targets[i].kind == UserDataTargetKind::CoreSqlite {
            assert(kind_agrees(s[i as int]));
            match &targets[i].location {
                UserDataTargetLocation::Filesystem(p) => {
                    assert(first_of_kind(s, UserDataTargetKind::CoreSqlite, i as int) == Some(i as int));
                    return p;
                },
                _ => {
                    assert(false);
                },
            }
        }
        i = i + 1;
    }
    vstd::pervasive::unreached()
}

/// Whether the identity read from a store is the expected one.
pub fn store_id_matches(found: &[u8], expected: CommandId) -> (same: bool)
    ensures
        same == (found@ == expected.bytes_of()),
{
    let bytes = expected.into_bytes();
    if found.len() != 16 {
        return false;
    }
    let mut i: usize = 0;
    while i < 16
        invariant
            found@.len() == 16,
            bytes@ == expected.bytes_of(),
            bytes@.len() == 16,
            i <= 16,
            forall|j: int| 0 <= j < i ==> found@[j] == bytes@[j],
        decreases 16 - i,
    {
        if found[i] != bytes[i] {
            return false;
        }
        i = i + 1;
    }
    assert(found@ =~= bytes@);
    true
}

/// The outcome of the checks made before an erasure is prepared, in order:
/// the identities must be acceptable, the recovery root must resolve to a
/// directory, the core store must be readable and hold the expected
/// identity, and neither the marker nor the quarantine may exist yet.
pub open spec fn preflight_outcome(
    expected: CommandId,
    fresh: CommandId,
    operation: CommandId,
    root_resolved: bool,
    core_store_id: Result<Seq<u8>, StorageError>,
    already_started: bool,
) -> Result<(), StorageError> {
    if !ids_acceptable(expected, fresh, operation) || !root_resolved {
        Err(StorageError::CommandConflict)
    } else {
        match core_store_id {
            Err(e) => Err(e),
            Ok(found) => if found != expected.bytes_of() || already_started {
                Err(StorageError::CommandConflict)
            } else {
                Ok(())
            },
        }
    }
}

/// Makes the checks before an erasure is prepared (see
/// `preflight_outcome`): `canonical_root` is where the recovery root
/// resolves, `core_store_id` what reading the core store's identity gave,
/// and `already_started` whether the marker or the quarantine exists.
pub fn erasure_preflight(
    expected: CommandId,
    fresh: CommandId,
    operation: CommandId,
    canonical_root: &Option<String>,
    core_store_id: &Result<Vec<u8>, StorageError>,
    already_started: bool,
) -> (result: Result<(), StorageError>)
    ensures
        result == preflight_outcome(
            expected,
            fresh,
            operation,
            canonical_root is Some,
            match core_store_id {
                Ok(b) => Ok(b@),
                Err(e) => Err(*e),
            },
            already_started,
        ),
{
    if !erasure_ids_acceptable(expected, fresh, operation) || canonical_root.is_none() {
        return Err(StorageError::CommandConflict);
    }
    match core_store_id {
        Err(e) => Err(*e),
        Ok(found) => if !store_id_matches(found.as_slice(), expected) || already_started {
            Err(StorageError::CommandConflict)
        } else {
            Ok(())
        },
    }
}

/// The confirmation of an erasure prepared in `recovery_root`: its marker
/// file and quarantine directory are named after the operation there, and
/// its marker names every inventory target, pending, with `evidence[i]` for
/// target `i` and the sanitized application state to restore; recovery
/// accepts the marker against the same inventory.
pub open spec fn prepared_as(
    c: UserDataErasureConfirmation,
    inventory: ValidatedUserDataInventory,
    recovery_root: Seq<char>,
    expected_store_id: CommandId,
    fresh_store_id: CommandId,
    operation_id: CommandId,
    sanitized_application_state: Seq<char>,
    evidence: Seq<EvidenceView>,
) -> bool {
    &&& c.marker_path@ == join_path(recovery_root, marker_file_name(operation_id.bytes_of()))
    &&& c.quarantine_root@ == join_path(recovery_root, quarantine_dir_name(operation_id.bytes_of()))
    &&& c.marker.version == MARKER_VERSION
    &&& c.marker.operation_id == operation_id
    &&& c.marker.expected_store_id == expected_store_id
    &&& c.marker.fresh_store_id == fresh_store_id
    &&& c.marker.sanitized_application_state@ == sanitized_application_state
    &&& c.marker.quarantine_root@ == c.quarantine_root@
    &&& c.marker.phase == ErasurePhase::Quarantining
    &&& marker_target_views(c.marker.targets@) == planned_targets(
        target_views(inventory.target_seq()),
        c.quarantine_root@,
        operation_id.bytes_of(),
        evidence,
    )
    &&& marker_placed(c.marker, c.marker_path@, recovery_root)
    &&& forall|resolved: Seq<Option<Seq<char>>>|
        marker_targets_match(
            c.marker.quarantine_root@,
            c.marker.operation_id.bytes_of(),
            marker_target_views(c.marker.targets@),
            target_views(inventory.target_seq()),
            inventory.root_paths(),
            resolved,
        )
}

/// Builds the confirmation of an erasure from its checked inputs (see
/// `prepared_as`). Refused when the identities are not acceptable or the
/// evidence does not cover the inventory.
pub fn build_erasure_confirmation(
    inventory: ValidatedUserDataInventory,
    recovery_root: &str,
    expected_store_id: CommandId,
    fresh_store_id: CommandId,
    operation_id: CommandId,
    sanitized_application_state: String,
    evidence: Vec<TargetEvidence>,
) -> (result: Result<UserDataErasureConfirmation, StorageError>)
    ensures
        result is Ok <==> ids_acceptable(expected_store_id, fresh_store_id, operation_id) && evidence@.len()
            == inventory.target_seq().len(),
        result matches Err(e) ==> e == StorageError::CommandConflict,
        result matches Ok(c) ==> prepared_as(
            c,
            inventory,
            recovery_root@,
            expected_store_id,
            fresh_store_id,
            operation_id,
            sanitized_application_state@,
            evidence@.map_values(|e: TargetEvidence| e@),
        ),
{
    if !erasure_ids_acceptable(expected_store_id, fresh_store_id, operation_id) {
        return Err(StorageError::CommandConflict);
    }
    if evidence.len() != inventory.targets().len() {
        return Err(StorageError::CommandConflict);
    }
    let (marker_path, quarantine_root) = erasure_paths(recovery_root, operation_id);
    let marker = new_marker(
        &inventory,
        quarantine_root.as_str(),
        operation_id,
        expected_store_id,
        fresh_store_id,
        sanitized_application_state,
        &evidence,
    );
    proof {
        let inv = target_views(inventory.target_seq());
        let ev = evidence@.map_values(|e: TargetEvidence| e@);
        assert forall|resolved: Seq<Option<Seq<char>>>|
            marker_targets_match(
                marker.quarantine_root@,
                marker.operation_id.bytes_of(),
                marker_target_views(marker.targets@),
                inv,
                inventory.root_paths(),
                resolved,
            ) by {
            lemma_planned_marker_matches(inv, quarantine_root@, operation_id.bytes_of(), ev, inventory.root_paths(), resolved);
        }
    }
    Ok(UserDataErasureConfirmation { marker_path, quarantine_root, marker })
}

/// Prepares an erasure from what the caller found: `recovery_root` is where
/// the recovery root resolves (`None` when it is not a directory),
/// `core_store_id` what reading the core store's identity gave,
/// `already_started` whether the marker or quarantine exists,
/// `retained_settings_json` the settings to keep, and `evidence[i]` what
/// filesystem target `i` holds.
/// The checks run first (`preflight_outcome`), and their error is the
/// result: a core store of another identity is refused, and nothing is
/// prepared. Then the settings must be ones an erasure keeps, and the
/// evidence must cover the inventory.
pub fn prepare_user_data_erasure(
    inventory: ValidatedUserDataInventory,
    recovery_root: &Option<String>,
    expected_store_id: CommandId,
    fresh_store_id: CommandId,
    operation_id: CommandId,
    core_store_id: &Result<Vec<u8>, StorageError>,
    already_started: bool,
    retained_settings_json: &[u8],
    evidence: Vec<TargetEvidence>,
) -> (result: Result<UserDataErasureConfirmation, StorageError>)
    ensures
        match preflight_outcome(
            expected_store_id,
            fresh_store_id,
            operation_id,
            recovery_root is Some,
            match core_store_id {
                Ok(b) => Ok(b@),
                Err(e) => Err(*e),
            },
            already_started,
        ) {
            Err(e) => result matches Err(r) && r == e,
            Ok(()) => match sanitized_projection(retained_settings_json@.len(), parsed_json(retained_settings_json@)) {
                None => result matches Err(r) && r == StorageError::CommandConflict,
                Some(text) => if evidence@.len() != inventory.target_seq().len() {
                    result matches Err(r) && r == StorageError::CommandConflict
                } else {
                    result matches Ok(c) && prepared_as(
                        c,
                        inventory,
                        recovery_root->0@,
                        expected_store_id,
                        fresh_store_id,
                        operation_id,
                        text,
                        evidence@.map_values(|e: TargetEvidence| e@),
                    )
                },
            },
        },
{
    match erasure_preflight(expected_store_id, fresh_store_id, operation_id, recovery_root, core_store_id, already_started) {
        Err(e) => {
            return Err(e);
        },
        Ok(()) => {},
    }
    let root = match recovery_root {
        Some(r) => r,
        None => {
            return Err(StorageError::CommandConflict);
        },
    };
    let sanitized = match sanitized_application_state(retained_settings_json) {
        Ok(t) => t,
        Err(e) => {
            return Err(e);
        },
    };
    build_erasure_confirmation(
        inventory,
        root.as_str(),
        expected_store_id,
        fresh_store_id,
        operation_id,
        sanitized,
        evidence,
    )
}

/// The index of the first marker target of the kind, from `from` on.
pub open spec fn first_marked_of_kind(t: Seq<MarkerTargetView>, k: UserDataTargetKind, from: int) -> Option<int>
    decreases t.len() - from,
{
    if from < 0 || from >= t.len() {
        None
    } else if t[from].kind == k {
        Some(from)
    } else {
        first_marked_of_kind(t, k, from + 1)
    }
}

/// The state of the first marker target of the kind.
pub open spec fn covering_state(t: Seq<MarkerTargetView>, k: UserDataTargetKind) -> Option<TargetState> {
    match first_marked_of_kind(t, k, 0) {
        Some(i) => Some(t[i].state),
        None => None,
    }
}

/// What to do with one target while quarantining.
#[derive(Clone, Copy, Debug, PartialEq, Eq, Structural)]
pub enum QuarantineStep {
    /// Record this state for the target and write the marker.
    Record(TargetState),
    /// Check the source against its evidence, move it into its quarantine,
    /// then record it as quarantined.
    MoveIntoQuarantine,
    /// Check the quarantined copy against its evidence (a crash came after
    /// the move), then record it as quarantined.
    AdoptQuarantined,
    /// Check the quarantined copy against its evidence; nothing to record.
    VerifyQuarantined,
    /// Nothing to do.
    Done,
    /// The marker and the filesystem disagree: stop.
    Refuse,
}

/// The step for a target that is no longer pending: it must be in a state
/// that its location and the filesystem confirm.
pub open spec fn settled_step(t: MarkerTargetView, quarantine_exists: bool) -> QuarantineStep {
    match t.location {
        MarkerLocationView::Filesystem { evidence, .. } => match t.state {
            TargetState::Absent => if !quarantine_exists && !evidence.existed {
                QuarantineStep::Done
            } else {
                QuarantineStep::Refuse
            },
            TargetState::Quarantined => if quarantine_exists && evidence.existed {
                QuarantineStep::VerifyQuarantined
            } else {
                QuarantineStep::Refuse
            },
            TargetState::Removed => if !quarantine_exists && evidence.existed {
                QuarantineStep::Done
            } else {
                QuarantineStep::Refuse
            },
            _ => QuarantineStep::Refuse,
        },
        MarkerLocationView::NativeAction { .. } => match t.state {
            TargetState::NativeAuthorized | TargetState::NativeCompleted => QuarantineStep::Done,
            _ => QuarantineStep::Refuse,
        },
        MarkerLocationView::CoveredBy(_) => QuarantineStep::Refuse,
    }
}

/// The quarantine step for target `index`, given whether its source and its
/// quarantine exist. A covered target waits for its covering target to be
/// absent or quarantined and is then recorded as covered; a pending native
/// target is authorized; a pending filesystem target is moved into
/// quarantine if only its source exists and did when the erasure was
/// prepared, adopted if only its quarantine exists and the source existed,
/// and recorded absent if neither exists nor did.
pub open spec fn quarantine_step_for(
    t: Seq<MarkerTargetView>,
    index: int,
    source_exists: bool,
    quarantine_exists: bool,
) -> QuarantineStep {
    let target = t[index];
    match target.location {
        MarkerLocationView::CoveredBy(k) => match covering_state(t, k) {
            Some(s) => if s != TargetState::Absent && s != TargetState::Quarantined {
                QuarantineStep::Refuse
            } else if target.state == TargetState::Pending {
                QuarantineStep::Record(TargetState::Covered)
            } else if target.state == TargetState::Covered || target.state == TargetState::Removed {
                QuarantineStep::Done
            } else {
                QuarantineStep::Refuse
            },
            None => QuarantineStep::Refuse,
        },
        MarkerLocationView::Filesystem { evidence, .. } => if target.state != TargetState::Pending {
            settled_step(target, quarantine_exists)
        } else if source_exists && !quarantine_exists && evidence.existed {
            QuarantineStep::MoveIntoQuarantine
        } else if !source_exists && quarantine_exists && evidence.existed {
            QuarantineStep::AdoptQuarantined
        } else if !source_exists && !quarantine_exists && !evidence.existed {
            QuarantineStep::Record(TargetState::Absent)
        } else {
            QuarantineStep::Refuse
        },
        MarkerLocationView::NativeAction { .. } => if target.state != TargetState::Pending {
            settled_step(target, quarantine_exists)
        } else {
            QuarantineStep::Record(TargetState::NativeAuthorized)
        },
    }
}

/// The state of the first target of the kind in the marker.
fn covering_state_exec(targets: &Vec<MarkerTarget>, k: UserDataTargetKind) -> (state: Option<TargetState>)
    ensures
        state == covering_state(marker_target_views(targets@), k),
{
    let ghost t = marker_target_views(targets@);
    let mut i: usize = 0;
    while i < targets.len()
        invariant
            t == marker_target_views(targets@),
            t.len() == targets@.len(),
            i <= targets@.len(),
            first_marked_of_kind(t, k, 0) == first_marked_of_kind(t, k, i as int),
        decreases targets.len() - i,
    {
        assert(t[i as int] == targets@[i as int]@);
        if targets[i].kind == k {
            assert(first_marked_of_kind(t, k, i as int) == Some(i as int));
            return Some(targets[i].state);
        }
        i = i + 1;
    }
    None
}

/// Decides the quarantine step for target `index`; `source_exists` and
/// `quarantine_exists` are what the caller found on disk for a filesystem
/// target (they are not read for the other targets).
pub fn quarantine_step(marker: &ErasureMarker, index: usize, source_exists: bool, quarantine_exists: bool) -> (step:
    QuarantineStep)
    requires
        index < marker.targets@.len(),
    ensures
        step == quarantine_step_for(marker_target_views(marker.targets@), index as int, source_exists, quarantine_exists),
{
    let ghost t = marker_target_views(marker.targets@);
    let target = &marker.targets[index];
    assert(t[index as int] == target@);
    match &target.location {
        MarkerLocation::CoveredBy { kind } => match covering_state_exec(&marker.targets, *kind) {
            Some(s) => if s != TargetState::Absent && s != TargetState::Quarantined {
                QuarantineStep::Refuse
            } else if target.state == TargetState::Pending {
                QuarantineStep::Record(TargetState::Covered)
            } else if target.state == TargetState::Covered || target.state == TargetState::Removed {
                QuarantineStep::Done
            } else {
                QuarantineStep::Refuse
            },
            None => QuarantineStep::Refuse,
        },
        MarkerLocation::Filesystem { evidence, .. } => if target.state != TargetState::Pending {
            match target.state {
                TargetState::Absent => if !quarantine_exists && !evidence.existed {
                    QuarantineStep::Done
                } else {
                    QuarantineStep::Refuse
                },
                TargetState::Quarantined => if quarantine_exists && evidence.existed {
                    QuarantineStep::VerifyQuarantined
                } else {
                    QuarantineStep::Refuse
                },
                TargetState::Removed => if !quarantine_exists && evidence.existed {
                    QuarantineStep::Done
                } else {
                    QuarantineStep::Refuse
                },
                _ => QuarantineStep::Refuse,
            }
        } else if source_exists && !quarantine_exists && evidence.existed {
            QuarantineStep::MoveIntoQuarantine
        } else if !source_exists && quarantine_exists && evidence.existed {
            QuarantineStep::AdoptQuarantined
        } else if !source_exists && !quarantine_exists && !evidence.existed {
            QuarantineStep::Record(TargetState::Absent)
        } else {
            QuarantineStep::Refuse
        },
        MarkerLocation::NativeAction { .. } => if target.state != TargetState::Pending {
            match target.state {
                TargetState::NativeAuthorized | TargetState::NativeCompleted => QuarantineStep::Done,
                _ => QuarantineStep::Refuse,
            }
        } else {
            QuarantineStep::Record(TargetState::NativeAuthorized)
        },
    }
}

/// The target with another state.
pub open spec fn with_state(t: MarkerTarget, state: TargetState) -> MarkerTarget {
    MarkerTarget { kind: t.kind, location: t.location, state }
}

/// The marker fields other than the targets are the same.
pub open spec fn same_header(a: ErasureMarker, b: ErasureMarker) -> bool {
    &&& a.version == b.version
    &&& a.operation_id == b.operation_id
    &&& a.expected_store_id == b.expected_store_id
    &&& a.fresh_store_id == b.fresh_store_id
    &&& a.sanitized_application_state == b.sanitized_application_state
    &&& a.quarantine_root == b.quarantine_root
    &&& a.phase == b.phase
}

/// Records a new state for target `index`; nothing else changes.
pub fn record_target_state(marker: &mut ErasureMarker, index: usize, state: TargetState)
    requires
        index < old(marker).targets@.len(),
    ensures
        same_header(*final(marker), *old(marker)),
        final(marker).targets@ == old(marker).targets@.update(index as int, with_state(old(marker).targets@[index as int], state)),
{
    let mut target = marker.targets.remove(index);
    target.state = state;
    marker.targets.insert(index, target);
    assert(marker.targets@ =~= old(marker).targets@.update(index as int, with_state(old(marker).targets@[index as int], state)));
}

/// What to do with one target while cleaning up.
#[derive(Clone, Copy, Debug, PartialEq, Eq, Structural)]
pub enum CleanupStep {
    /// Record the target as removed and write the marker.
    RecordRemoved,
    /// Check the quarantined copy against its evidence and delete it; once
    /// it is gone, record the target as removed.
    RemoveQuarantined,
    /// The target is not ready to be cleaned up, or the marker and the
    /// filesystem disagree: stop.
    Refuse,
}

/// The cleanup step for a target, given whether its quarantine exists: a
/// target still pending or awaiting its native action is refused; a
/// quarantined filesystem target whose copy exists has it deleted; any
/// other filesystem target must have no quarantined copy; other targets are
/// recorded as removed.
pub open spec fn cleanup_step_for(t: MarkerTargetView, quarantine_exists: bool) -> CleanupStep {
    if t.state == TargetState::Pending || t.state == TargetState::NativeAuthorized {
        CleanupStep::Refuse
    } else {
        match t.location {
            MarkerLocationView::Filesystem { .. } => if t.state == TargetState::Quarantined && quarantine_exists {
                CleanupStep::RemoveQuarantined
            } else if quarantine_exists {
                CleanupStep::Refuse
            } else {
                CleanupStep::RecordRemoved
            },
            _ => CleanupStep::RecordRemoved,
        }
    }
}

/// Decides the cleanup step for target `index`; `quarantine_exists` is
/// whether its quarantined copy exists (not read for other targets).
pub fn cleanup_step(marker: &ErasureMarker, index: usize, quarantine_exists: bool) -> (step: CleanupStep)
    requires
        index < marker.targets@.len(),
    ensures
        step == cleanup_step_for(marker.targets@[index as int]@, quarantine_exists),
{
    let target = &marker.targets[index];
    if target.state == TargetState::Pending || target.state == TargetState::NativeAuthorized {
        return CleanupStep::Refuse;
    }
    match &target.location {
        MarkerLocation::Filesystem { .. } => if target.state == TargetState::Quarantined && quarantine_exists {
            CleanupStep::RemoveQuarantined
        } else if quarantine_exists {
            CleanupStep::Refuse
        } else {
            CleanupStep::RecordRemoved
        },
        _ => CleanupStep::RecordRemoved,
    }
}

/// How far a state has come: pending, then handled (covered, authorized,
/// absent or quarantined), then finished (natively completed or removed).
pub open spec fn state_rank(s: TargetState) -> nat {
    match s {
        TargetState::Pending => 0,
        TargetState::Covered | TargetState::NativeAuthorized | TargetState::Absent | TargetState::Quarantined => 1,
        TargetState::NativeCompleted | TargetState::Removed => 2,
    }
}

/// An erasure never moves a target back: a quarantine step records a state
/// only for a pending target, and a handled one; cleanup records removal
/// only of a target that quarantining has handled, and never of one that
/// awaits its native action; it deletes only a quarantined copy.
pub proof fn lemma_steps_advance(t: Seq<MarkerTargetView>, index: int, source_exists: bool, quarantine_exists: bool)
    requires
        0 <= index < t.len(),
    ensures
        quarantine_step_for(t, index, source_exists, quarantine_exists) matches QuarantineStep::Record(s) ==> t[index].state
            == TargetState::Pending && state_rank(s) == 1,
        (quarantine_step_for(t, index, source_exists, quarantine_exists) is MoveIntoQuarantine || quarantine_step_for(
            t,
            index,
            source_exists,
            quarantine_exists,
        ) is AdoptQuarantined) ==> t[index].state == TargetState::Pending,
        cleanup_step_for(t[index], quarantine_exists) != CleanupStep::Refuse ==> state_rank(t[index].state) >= 1
            && t[index].state != TargetState::NativeAuthorized,
        cleanup_step_for(t[index], quarantine_exists) == CleanupStep::RemoveQuarantined ==> t[index].state
            == TargetState::Quarantined,
{
}

/// The target carries the native action with these identifier bytes.
pub open spec fn carries_action(v: MarkerTargetView, action: Seq<u8>) -> bool {
    match v.location {
        MarkerLocationView::NativeAction { action_id, .. } => action_id == action,
        _ => false,
    }
}

/// The index of the first target, from `from` on, that carries the action.
pub open spec fn first_with_action(t: Seq<MarkerTargetView>, action: Seq<u8>, from: int) -> Option<int>
    decreases t.len() - from,
{
    if from < 0 || from >= t.len() {
        None
    } else if carries_action(t[from], action) {
        Some(from)
    } else {
        first_with_action(t, action, from + 1)
    }
}

/// The target with another native attempt number.
pub open spec fn with_attempt(t: MarkerTarget, attempt: u16) -> MarkerTarget {
    match t.location {
        MarkerLocation::NativeAction { identifier, action_id, .. } => MarkerTarget {
            kind: t.kind,
            location: MarkerLocation::NativeAction { identifier, action_id, attempt },
            state: t.state,
        },
        _ => t,
    }
}

/// The targets after the host reports on a native action: the first target
/// carrying the action must be at the reported attempt; a success completes
/// an authorized action and is accepted again for a completed one; a
/// failure of an authorized action moves it to its next attempt. Anything
/// else is refused (`None`).
pub open spec fn observation_outcome(
    t: Seq<MarkerTarget>,
    action: Seq<u8>,
    observed_attempt: u16,
    succeeded: bool,
) -> Option<Seq<MarkerTarget>> {
    match first_with_action(marker_target_views(t), action, 0) {
        Some(i) => match t[i].location {
            MarkerLocation::NativeAction { attempt, .. } => if attempt != observed_attempt {
                None
            } else if t[i].state == TargetState::NativeAuthorized && succeeded {
                Some(t.update(i, with_state(t[i], TargetState::NativeCompleted)))
            } else if t[i].state == TargetState::NativeCompleted && succeeded {
                Some(t)
            } else if t[i].state == TargetState::NativeAuthorized && !succeeded && attempt < u16::MAX {
                Some(t.update(i, with_attempt(t[i], (attempt + 1) as u16)))
            } else {
                None
            },
            _ => None,
        },
        None => None,
    }
}

/// Applies the host's report on a native action to the marker (see
/// `observation_outcome`); on refusal the marker is left as it was.
pub fn observe_native_action(marker: &mut ErasureMarker, action_id: CommandId, observed_attempt: u16, succeeded: bool) -> (result:
    Result<(), StorageError>)
    ensures
        same_header(*final(marker), *old(marker)),
        match result {
            Ok(()) => observation_outcome(old(marker).targets@, action_id.bytes_of(), observed_attempt, succeeded) == Some(
                final(marker).targets@,
            ),
            Err(e) => observation_outcome(old(marker).targets@, action_id.bytes_of(), observed_attempt, succeeded) is None
                && final(marker).targets@ == old(marker).targets@ && e == StorageError::CommandConflict,
        },
{
    let ghost t = marker_target_views(marker.targets@);
    let ghost a = action_id.bytes_of();
    let mut i: usize = 0;
    let mut found: Option<usize> = None;
    while i < marker.targets.len()
        invariant
            t == marker_target_views(marker.targets@),
            t.len() == marker.targets@.len(),
            a == action_id.bytes_of(),
            i <= t.len(),
            found is None ==> first_with_action(t, a, 0) == first_with_action(t, a, i as int),
            found matches Some(k) ==> first_with_action(t, a, 0) == Some(k as int) && k < t.len(),
        decreases marker.targets.len() - i,
    {
        if found.is_none() {
            assert(t[i as int] == marker.targets@[i as int]@);
            let carries = match &marker.targets[i].location {
                MarkerLocation::NativeAction { action_id: id, .. } => {
                    proof {
                        lemma_command_id_bytes(*id, action_id);
                    }
                    id.same(&action_id)
                },
                _ => false,
            };
            if carries {
                assert(first_with_action(t, a, i as int) == Some(i as int));
                found = Some(i);
            }
        }
        i = i + 1;
    }
    let index = match found {
        Some(k) => k,
        None => {
            return Err(StorageError::CommandConflict);
        },
    };
    let state = marker.targets[index].state;
    let attempt = match &marker.targets[index].location {
        MarkerLocation::NativeAction { attempt, .. } => *attempt,
        _ => {
            return Err(StorageError::CommandConflict);
        },
    };
    if attempt != observed_attempt {
        return Err(StorageError::CommandConflict);
    }
    if state == TargetState::NativeAuthorized && succeeded {
        record_target_state(marker, index, TargetState::NativeCompleted);
        Ok(())
    } else if state == TargetState::NativeCompleted && succeeded {
        Ok(())
    } else if state == TargetState::NativeAuthorized && !succeeded && attempt < u16::MAX {
        let target = marker.targets.remove(index);
        let MarkerTarget { kind, location, state } = target;
        let location = match location {
            MarkerLocation::NativeAction { identifier, action_id, .. } => MarkerLocation::NativeAction {
                identifier,
                action_id,
                attempt: attempt + 1,
            },
            other => other,
        };
        marker.targets.insert(index, MarkerTarget { kind, location, state });
        assert(marker.targets@ =~= old(marker).targets@.update(
            index as int,
            with_attempt(old(marker).targets@[index as int], (attempt + 1) as u16),
        ));
        Ok(())
    } else {
        Err(StorageError::CommandConflict)
    }
}

/// Two target sequences agree on which targets carry the action.
proof fn lemma_first_with_action_same(t: Seq<MarkerTargetView>, u: Seq<MarkerTargetView>, action: Seq<u8>, from: int)
    requires
        t.len() == u.len(),
        forall|j: int| 0 <= j < t.len() ==> carries_action(#[trigger] t[j], action) == carries_action(u[j], action),
    ensures
        first_with_action(t, action, from) == first_with_action(u, action, from),
    decreases t.len() - from,
{
    if 0 <= from < t.len() {
        lemma_first_with_action_same(t, u, action, from + 1);
    }
}

/// The first target carrying the action is in range and carries it.
proof fn lemma_first_with_action_range(t: Seq<MarkerTargetView>, action: Seq<u8>, from: int)
    ensures
        first_with_action(t, action, from) matches Some(i) ==> from <= i < t.len() && carries_action(t[i], action),
    decreases t.len() - from,
{
    if 0 <= from < t.len() && !carries_action(t[from], action) {
        lemma_first_with_action_range(t, action, from + 1);
    }
}

/// Applying an observation keeps which targets carry which action.
proof fn lemma_observation_keeps_actions(t: Seq<MarkerTarget>, action: Seq<u8>, attempt: u16, succeeded: bool)
    requires
        observation_outcome(t, action, attempt, succeeded) is Some,
    ensures
        ({
            let after = observation_outcome(t, action, attempt, succeeded)->0;
            &&& after.len() == t.len()
            &&& first_with_action(marker_target_views(after), action, 0) == first_with_action(marker_target_views(t), action, 0)
        }),
{
    let v = marker_target_views(t);
    let after = observation_outcome(t, action, attempt, succeeded)->0;
    lemma_first_with_action_range(v, action, 0);
    let i = first_with_action(v, action, 0)->0;
    assert(after.len() == t.len());
    assert forall|j: int| 0 <= j < t.len() implies carries_action(#[trigger] marker_target_views(t)[j], action)
        == carries_action(marker_target_views(after)[j], action) by {
        if j != i {
            assert(after[j] == t[j]);
        } else {
            assert(after[j].location matches MarkerLocation::NativeAction { .. });
        }
    }
    lemma_first_with_action_same(marker_target_views(t), marker_target_views(after), action, 0);
}

/// A success reported twice leaves the marker as the first report left it:
/// the host may repeat a successful report after a crash.
pub proof fn lemma_native_success_idempotent(t: Seq<MarkerTarget>, action: Seq<u8>, attempt: u16)
    requires
        observation_outcome(t, action, attempt, true) is Some,
    ensures
        ({
            let once = observation_outcome(t, action, attempt, true)->0;
            observation_outcome(once, action, attempt, true) == Some(once)
        }),
{
    lemma_observation_keeps_actions(t, action, attempt, true);
    lemma_first_with_action_range(marker_target_views(t), action, 0);
}

/// A failure moves the action to its next attempt, so the same failure
/// report is refused if it comes again: a stale report cannot count twice.
pub proof fn lemma_native_failure_not_replayed(t: Seq<MarkerTarget>, action: Seq<u8>, attempt: u16, succeeded: bool)
    requires
        observation_outcome(t, action, attempt, false) is Some,
    ensures
        ({
            let after = observation_outcome(t, action, attempt, false)->0;
            &&& observation_outcome(after, action, attempt, succeeded) is None
            &&& first_with_action(marker_target_views(after), action, 0) == first_with_action(
                marker_target_views(t),
                action,
                0,
            )
        }),
{
    lemma_observation_keeps_actions(t, action, attempt, false);
    lemma_first_with_action_range(marker_target_views(t), action, 0);
}

/// The native actions still to perform: each target carrying a native
/// action that is authorized but not completed, in marker order.
pub open spec fn leased_actions(operation: CommandId, t: Seq<MarkerTarget>) -> Seq<LeasedNativeErasureAction>
    decreases t.len(),
{
    if t.len() == 0 {
        Seq::empty()
    } else {
        let earlier = leased_actions(operation, t.drop_last());
        let last = t.last();
        match last.location {
            MarkerLocation::NativeAction { identifier, action_id, attempt } => if last.state
                == TargetState::NativeAuthorized {
                earlier.push(
                    LeasedNativeErasureAction { action_id, operation_id: operation, kind: last.kind, identifier, attempt },
                )
            } else {
                earlier
            },
            _ => earlier,
        }
    }
}

/// The native actions still to perform.
pub fn pending_native_actions(marker: &ErasureMarker) -> (actions: Vec<LeasedNativeErasureAction>)
    ensures
        actions@ == leased_actions(marker.operation_id, marker.targets@),
{
    let mut actions: Vec<LeasedNativeErasureAction> = Vec::new();
    let mut i: usize = 0;
    while i < marker.targets.len()
        invariant
            i <= marker.targets@.len(),
            actions@ == leased_actions(marker.operation_id, marker.targets@.take(i as int)),
        decreases marker.targets.len() - i,
    {
        let target = &marker.targets[i];
        assert(marker.targets@.take(i + 1).drop_last() == marker.targets@.take(i as int));
        assert(marker.targets@.take(i + 1).last() == *target);
        match &target.location {
            MarkerLocation::NativeAction { identifier, action_id, attempt } => {
                if target.state == TargetState::NativeAuthorized {
                    actions.push(
                        LeasedNativeErasureAction {
                            action_id: *action_id,
                            operation_id: marker.operation_id,
                            kind: target.kind,
                            identifier: identifier.clone(),
                            attempt: *attempt,
                        },
                    );
                }
            },
            _ => {},
        }
        i = i + 1;
    }
    assert(marker.targets@.take(marker.targets@.len() as int) == marker.targets@);
    actions
}

/// After quarantining, the erasure waits for the host while a native action
/// is still to be performed.
pub fn awaiting_native_actions(marker: &ErasureMarker) -> (progress: Option<UserDataErasureProgress>)
    ensures
        match progress {
            Some(UserDataErasureProgress::AwaitingNativeActions(v)) => v@ == leased_actions(marker.operation_id, marker.targets@)
                && v@.len() > 0,
            Some(UserDataErasureProgress::Complete(_)) => false,
            None => leased_actions(marker.operation_id, marker.targets@).len() == 0,
        },
{
    let actions = pending_native_actions(marker);
    if actions.len() > 0 {
        Some(UserDataErasureProgress::AwaitingNativeActions(actions))
    } else {
        None
    }
}

/// The source of the first marker target of the kind, when that target is
/// on the filesystem.
pub open spec fn marked_source(t: Seq<MarkerTargetView>, k: UserDataTargetKind) -> Option<Seq<char>> {
    match first_marked_of_kind(t, k, 0) {
        Some(i) => match t[i].location {
            MarkerLocationView::Filesystem { source, .. } => Some(source),
            _ => None,
        },
        None => None,
    }
}

/// The source of the first marker target of the kind (the core database,
/// or the application state projection), when it is on the filesystem.
pub fn marker_source_of_kind(marker: &ErasureMarker, kind: UserDataTargetKind) -> (source: Option<&String>)
    ensures
        match source {
            Some(s) => marked_source(marker_target_views(marker.targets@), kind) == Some(s@),
            None => marked_source(marker_target_views(marker.targets@), kind) is None,
        },
{
    let ghost t = marker_target_views(marker.targets@);
    let mut i: usize = 0;
    while i < marker.targets.len()
        invariant
            t == marker_target_views(marker.targets@),
            t.len() == marker.targets@.len(),
            i <= t.len(),
            first_marked_of_kind(t, kind, 0) == first_marked_of_kind(t, kind, i as int),
        decreases marker.targets.len() - i,
    {
        assert(t[i as int] == marker.targets@[i as int]@);
        if marker.targets[i].kind == kind {
            assert(first_marked_of_kind(t, kind, i as int) == Some(i as int));
            return match &marker.targets[i].location {
                MarkerLocation::Filesystem { source, .. } => Some(source),
                _ => None,
            };
        }
        i = i + 1;
    }
    None
}

/// Whether two byte sequences are equal (a stored document against the
/// expected one).
pub fn same_bytes(a: &[u8], b: &[u8]) -> (same: bool)
    ensures
        same == (a@ == b@),
{
    if a.len() != b.len() {
        return false;
    }
    let mut i: usize = 0;
    while i < a.len()
        invariant
            a@.len() == b@.len(),
            i <= a@.len(),
            forall|j: int| 0 <= j < i ==> a@[j] == b@[j],
        decreases a.len() - i,
    {
        if a[i] != b[i] {
            return false;
        }
        i = i + 1;
    }
    assert(a@ =~= b@);
    true
}

/// How far the current run of an erasure has got.
#[derive(Clone, Copy, Debug, PartialEq, Eq, Structural)]
pub enum RunPoint {
    /// Nothing has been done in this run.
    Start,
    /// The marker is on disk and the quarantine directory exists.
    Ready,
    /// The quarantine step of every target before this index is done.
    Quarantined(usize),
    /// Every target before this index has been cleaned up.
    Cleaned(usize),
}

/// What the run does next.
#[derive(Debug)]
pub enum RunStep {
    /// Write the marker and create the quarantine directory; a crash may
    /// come after this (`AfterIntentMarker`).
    WriteIntent,
    /// Check that the quarantine directory exists (creating it if missing).
    OpenQuarantine,
    /// Take the quarantine step of this target; a crash may come after it.
    QuarantineTarget(usize),
    /// Every target has had its quarantine step: move to recreating and
    /// write the marker.
    FinishQuarantine,
    /// Stop until the host has performed these native actions.
    AwaitNative(Vec<LeasedNativeErasureAction>),
    /// Create the fresh store and the sanitized state, then move to
    /// cleaning and write the marker; a crash may come after this.
    Recreate,
    /// Clean up this target; a crash may come after it.
    CleanupTarget(usize),
    /// Remove the empty quarantine directory and the marker: the erasure is
    /// complete and the fresh store has this identity.
    Finish(CommandId),
}

/// The mathematical form of a run step.
pub enum RunStepView {
    WriteIntent,
    OpenQuarantine,
    QuarantineTarget(nat),
    FinishQuarantine,
    AwaitNative(Seq<LeasedNativeErasureAction>),
    Recreate,
    CleanupTarget(nat),
    Finish(CommandId),
}

impl View for RunStep {
    type V = RunStepView;

    open spec fn view(&self) -> RunStepView {
        match self {
            RunStep::WriteIntent => RunStepView::WriteIntent,
            RunStep::OpenQuarantine => RunStepView::OpenQuarantine,
            RunStep::QuarantineTarget(i) => RunStepView::QuarantineTarget(*i as nat),
            RunStep::FinishQuarantine => RunStepView::FinishQuarantine,
            RunStep::AwaitNative(v) => RunStepView::AwaitNative(v@),
            RunStep::Recreate => RunStepView::Recreate,
            RunStep::CleanupTarget(i) => RunStepView::CleanupTarget(*i as nat),
            RunStep::Finish(id) => RunStepView::Finish(*id),
        }
    }
}

/// The step after the quarantine step of every target before `index`.
pub open spec fn step_after_quarantined(marker: ErasureMarker, index: nat) -> RunStepView {
    if index < marker.targets@.len() {
        RunStepView::QuarantineTarget(index)
    } else {
        RunStepView::FinishQuarantine
    }
}

/// The step after every target before `index` has been cleaned up.
pub open spec fn step_after_cleaned(marker: ErasureMarker, index: nat) -> RunStepView {
    if index < marker.targets@.len() {
        RunStepView::CleanupTarget(index)
    } else {
        RunStepView::Finish(marker.fresh_store_id)
    }
}

/// The next step of a run. At the start, the marker is written (with the
/// quarantine directory) unless its file exists, in which case the
/// quarantine directory is checked. Once ready, the phase decides: while
/// quarantining, every target takes its quarantine step in order, then the
/// phase moves to recreating; a run then stops while native actions are
/// pending; while recreating, the fresh store and state are made and the
/// phase moves to cleaning; then every target is cleaned up in order and
/// the erasure finishes with the fresh store's identity.
pub open spec fn run_step_for(marker: ErasureMarker, point: RunPoint, marker_file_exists: bool) -> RunStepView {
    match point {
        RunPoint::Start => if marker_file_exists {
            RunStepView::OpenQuarantine
        } else {
            RunStepView::WriteIntent
        },
        RunPoint::Ready => if marker.phase == ErasurePhase::Quarantining {
            step_after_quarantined(marker, 0)
        } else if leased_actions(marker.operation_id, marker.targets@).len() > 0 {
            RunStepView::AwaitNative(leased_actions(marker.operation_id, marker.targets@))
        } else if marker.phase == ErasurePhase::Recreating {
            RunStepView::Recreate
        } else {
            step_after_cleaned(marker, 0)
        },
        RunPoint::Quarantined(i) => step_after_quarantined(marker, i as nat),
        RunPoint::Cleaned(i) => step_after_cleaned(marker, i as nat),
    }
}

/// The next step of a run (see `run_step_for`); `marker_file_exists` is
/// whether the marker file was found on disk.
pub fn next_run_step(marker: &ErasureMarker, point: RunPoint, marker_file_exists: bool) -> (step: RunStep)
    ensures
        step@ == run_step_for(*marker, point, marker_file_exists),
{
    match point {
        RunPoint::Start => if marker_file_exists {
            RunStep::OpenQuarantine
        } else {
            RunStep::WriteIntent
        },
        RunPoint::Ready => if marker.phase == ErasurePhase::Quarantining {
            if marker.targets.len() > 0 {
                RunStep::QuarantineTarget(0)
            } else {
                RunStep::FinishQuarantine
            }
        } else {
            let actions = pending_native_actions(marker);
            if actions.len() > 0 {
                RunStep::AwaitNative(actions)
            } else if marker.phase == ErasurePhase::Recreating {
                RunStep::Recreate
            } else if marker.targets.len() > 0 {
                RunStep::CleanupTarget(0)
            } else {
                RunStep::Finish(marker.fresh_store_id)
            }
        },
        RunPoint::Quarantined(i) => if i < marker.targets.len() {
            RunStep::QuarantineTarget(i)
        } else {
            RunStep::FinishQuarantine
        },
        RunPoint::Cleaned(i) => if i < marker.targets.len() {
            RunStep::CleanupTarget(i)
        } else {
            RunStep::Finish(marker.fresh_store_id)
        },
    }
}

/// Where the run stands once a step has been carried out (the phase
/// changes of `FinishQuarantine` and `Recreate` applied to the marker).
pub open spec fn point_after_step(step: RunStepView) -> RunPoint {
    match step {
        RunStepView::QuarantineTarget(i) => RunPoint::Quarantined((i + 1) as usize),
        RunStepView::CleanupTarget(i) => RunPoint::Cleaned((i + 1) as usize),
        _ => RunPoint::Ready,
    }
}

/// Where the run stands once a step has been carried out.
pub fn point_after(step: &RunStep) -> (point: RunPoint)
    requires
        step matches RunStep::QuarantineTarget(i) ==> i < usize::MAX,
        step matches RunStep::CleanupTarget(i) ==> i < usize::MAX,
    ensures
        point == point_after_step(step@),
{
    match step {
        RunStep::QuarantineTarget(i) => RunPoint::Quarantined(*i + 1),
        RunStep::CleanupTarget(i) => RunPoint::Cleaned(*i + 1),
        _ => RunPoint::Ready,
    }
}

/// The point at which a crash may be simulated after a step, if any.
pub open spec fn fault_point_of(step: RunStepView) -> Option<UserDataErasureFaultPoint> {
    match step {
        RunStepView::WriteIntent => Some(UserDataErasureFaultPoint::AfterIntentMarker),
        RunStepView::QuarantineTarget(i) => Some(UserDataErasureFaultPoint::AfterTargetRename { index: i as u16 }),
        RunStepView::Recreate => Some(UserDataErasureFaultPoint::AfterFreshStore),
        RunStepView::CleanupTarget(i) => Some(UserDataErasureFaultPoint::AfterTargetCleanup { index: i as u16 }),
        _ => None,
    }
}

/// The point at which a crash may be simulated after a step, if any (a
/// target's index is numbered modulo 2^16).
pub fn fault_point_after(step: &RunStep) -> (fault: Option<UserDataErasureFaultPoint>)
    ensures
        fault == fault_point_of(step@),
{
    match step {
        RunStep::WriteIntent => Some(UserDataErasureFaultPoint::AfterIntentMarker),
        RunStep::QuarantineTarget(i) => Some(UserDataErasureFaultPoint::AfterTargetRename { index: *i as u16 }),
        RunStep::Recreate => Some(UserDataErasureFaultPoint::AfterFreshStore),
        RunStep::CleanupTarget(i) => Some(UserDataErasureFaultPoint::AfterTargetCleanup { index: *i as u16 }),
        _ => None,
    }
}

/// Moves the marker on to its next phase: quarantining is followed by
/// recreating, recreating by cleaning. Nothing else changes.
pub fn advance_phase(marker: &mut ErasureMarker)
    ensures
        final(marker).phase == match old(marker).phase {
            ErasurePhase::Quarantining => ErasurePhase::Recreating,
            _ => ErasurePhase::Cleaning,
        },
        final(marker).targets@ == old(marker).targets@,
        final(marker).version == old(marker).version,
        final(marker).operation_id == old(marker).operation_id,
        final(marker).expected_store_id == old(marker).expected_store_id,
        final(marker).fresh_store_id == old(marker).fresh_store_id,
        final(marker).sanitized_application_state == old(marker).sanitized_application_state,
        final(marker).quarantine_root == old(marker).quarantine_root,
{
    marker.phase = match marker.phase {
        ErasurePhase::Quarantining => ErasurePhase::Recreating,
        _ => ErasurePhase::Cleaning,
    };
}

/// A run visits the targets in order: after the quarantine step of target
/// `i` comes that of target `i + 1`, or the end of quarantining after the
/// last; likewise for cleanup, which ends in the erasure's completion with
/// the fresh store's identity.
pub proof fn lemma_run_visits_targets_in_order(marker: ErasureMarker, i: nat, marker_file_exists: bool)
    requires
        i < usize::MAX,
    ensures
        run_step_for(marker, point_after_step(RunStepView::QuarantineTarget(i)), marker_file_exists) == if i + 1
            < marker.targets@.len() {
            RunStepView::QuarantineTarget(i + 1)
        } else {
            RunStepView::FinishQuarantine
        },
        run_step_for(marker, point_after_step(RunStepView::CleanupTarget(i)), marker_file_exists) == if i + 1
            < marker.targets@.len() {
            RunStepView::CleanupTarget(i + 1)
        } else {
            RunStepView::Finish(marker.fresh_store_id)
        },
{
}


/// Every native action handed out for an erasure names that erasure's
/// operation, and carries the action id, kind, identifier and attempt of an
/// authorized native target of the marker.
pub proof fn lemma_leased_actions_name_operation(operation: CommandId, t: Seq<MarkerTarget>)
    ensures
        forall|i: int|
            0 <= i < leased_actions(operation, t).len() ==> {
                let a = #[trigger] leased_actions(operation, t)[i];
                &&& a.operation_id == operation
                &&& exists|j: int|
                    0 <= j < t.len() && t[j].state == TargetState::NativeAuthorized && t[j].kind == a.kind
                        && t[j].location == MarkerLocation::NativeAction {
                        identifier: a.identifier,
                        action_id: a.action_id,
                        attempt: a.attempt,
                    }
            },
    decreases t.len(),
{
    if t.len() > 0 {
        let d = t.drop_last();
        lemma_leased_actions_name_operation(operation, d);
        let earlier = leased_actions(operation, d);
        let all = leased_actions(operation, t);
        assert forall|i: int| 0 <= i < all.len() implies {
            let a = #[trigger] all[i];
            &&& a.operation_id == operation
            &&& exists|j: int|
                0 <= j < t.len() && t[j].state == TargetState::NativeAuthorized && t[j].kind == a.kind
                    && t[j].location == MarkerLocation::NativeAction {
                    identifier: a.identifier,
                    action_id: a.action_id,
                    attempt: a.attempt,
                }
        } by {
            if i < earlier.len() {
                assert(all[i] == earlier[i]);
                let a = earlier[i];
                let j = choose|j: int|
                    0 <= j < d.len() && d[j].state == TargetState::NativeAuthorized && d[j].kind == a.kind
                        && d[j].location == MarkerLocation::NativeAction {
                        identifier: a.identifier,
                        action_id: a.action_id,
                        attempt: a.attempt,
                    };
                assert(t[j] == d[j]);
            } else {
                let k = t.len() - 1;
                assert(t[k] == t.last());
            }
        }
    }
}

} // verus!
