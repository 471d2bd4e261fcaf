use std::collections::BTreeMap;

use pod0_storage::erasure::{
    advance_phase, cleanup_step, core_store_path, erasure_ids_acceptable, erasure_preflight, fault_point_after, marker_source_of_kind,
    next_run_step, observe_native_action, pending_native_actions, point_after, prepare_user_data_erasure,
    quarantine_step, record_target_state, CleanupStep, QuarantineStep, RunPoint, RunStep,
};
use pod0_storage::evidence::{absent_evidence, entry_header, EvidenceHasher};
use pod0_storage::projection::validate_sanitized_application_state;
use pod0_storage::recovery::validate_recovery_marker;
use pod0_storage::marker::{evidence_equal, native_action_id, ErasureMarker, MarkerLocation, TargetEvidence, TargetState};
use pod0_storage::{
    CommandId, StorageError, UserDataErasureFaultPoint, UserDataErasureProgress, UserDataTarget, UserDataTargetKind,
    ValidatedUserDataInventory,
};

const ROOT: &str = "/data/pod0";

fn id(n: u64) -> CommandId {
    let mut bytes = [0u8; 16];
    bytes[8..].copy_from_slice(&n.to_be_bytes());
    CommandId::from_bytes(bytes)
}

fn inventory() -> ValidatedUserDataInventory {
    let targets: Vec<UserDataTarget> = UserDataTargetKind::ALL
        .into_iter()
        .enumerate()
        .map(|(index, kind)| {
            if let Some(covering) = kind.covering_kind() {
                UserDataTarget::covered_by(kind, covering)
            } else if let Some(identifier) = kind.native_action_identifier() {
                UserDataTarget::native(kind, identifier.to_string())
            } else {
                UserDataTarget::filesystem(kind, format!("{ROOT}/erasure-target-{index}"))
            }
        })
        .collect();
    let resolved = targets.iter().map(|target| target.path().cloned()).collect();
    ValidatedUserDataInventory::validate(targets, &vec![Some(ROOT.to_string())], &resolved).unwrap()
}

/// An in-memory filesystem: file paths and their contents.
struct Disk {
    files: BTreeMap<String, Vec<u8>>,
    marker_written: bool,
}

impl Disk {
    fn evidence(&self, path: &str) -> TargetEvidence {
        match self.files.get(path) {
            None => absent_evidence(),
            Some(bytes) => {
                let mut hasher = EvidenceHasher::new();
                hasher.begin_entry("", false);
                hasher.add_file_bytes(bytes).unwrap();
                hasher.finish()
            }
        }
    }
}

fn prepared(disk: &Disk, expected: u64) -> pod0_storage::UserDataErasureConfirmation {
    let inventory = inventory();
    let evidence = inventory
        .targets()
        .iter()
        .map(|target| match target.path() {
            Some(path) => disk.evidence(path),
            None => absent_evidence(),
        })
        .collect();
    prepare_user_data_erasure(
        inventory,
        &Some(ROOT.to_string()),
        id(expected),
        id(expected + 1),
        id(expected + 2),
        &Ok(id(expected).into_bytes().to_vec()),
        false,
        b"{}",
        evidence,
    )
    .unwrap()
}

fn paths(marker: &ErasureMarker, index: usize) -> Option<(String, String, TargetEvidence)> {
    match &marker.targets[index].location {
        MarkerLocation::Filesystem { source, quarantine, evidence } => Some((
            source.clone(),
            quarantine.clone(),
            TargetEvidence { existed: evidence.existed, byte_count: evidence.byte_count, sha256: evidence.sha256.clone() },
        )),
        _ => None,
    }
}

/// Carries out the quarantine step of a target on the disk.
fn quarantine_on_disk(marker: &mut ErasureMarker, disk: &mut Disk, index: usize) -> Result<(), StorageError> {
    let (source_exists, quarantine_exists) = match paths(marker, index) {
        Some((source, quarantine, _)) => (disk.files.contains_key(&source), disk.files.contains_key(&quarantine)),
        None => (false, false),
    };
    match quarantine_step(marker, index, source_exists, quarantine_exists) {
        QuarantineStep::Record(state) => record_target_state(marker, index, state),
        QuarantineStep::MoveIntoQuarantine => {
            let (source, quarantine, evidence) = paths(marker, index).unwrap();
            if !evidence_equal(&disk.evidence(&source), &evidence) {
                return Err(StorageError::CommandConflict);
            }
            let bytes = disk.files.remove(&source).unwrap();
            disk.files.insert(quarantine, bytes);
            record_target_state(marker, index, TargetState::Quarantined);
        }
        QuarantineStep::AdoptQuarantined | QuarantineStep::VerifyQuarantined => {
            let (_, quarantine, evidence) = paths(marker, index).unwrap();
            if !evidence_equal(&disk.evidence(&quarantine), &evidence) {
                return Err(StorageError::CommandConflict);
            }
            record_target_state(marker, index, TargetState::Quarantined);
        }
        QuarantineStep::Done => {}
        QuarantineStep::Refuse => return Err(StorageError::CommandConflict),
    }
    Ok(())
}

/// Carries out the cleanup step of a target on the disk.
fn cleanup_on_disk(marker: &mut ErasureMarker, disk: &mut Disk, index: usize) -> Result<(), StorageError> {
    let quarantine = paths(marker, index).map(|(_, quarantine, _)| quarantine);
    let exists = quarantine.as_ref().is_some_and(|path| disk.files.contains_key(path));
    match cleanup_step(marker, index, exists) {
        CleanupStep::RecordRemoved => record_target_state(marker, index, TargetState::Removed),
        CleanupStep::RemoveQuarantined => {
            let (_, quarantine, evidence) = paths(marker, index).unwrap();
            if !evidence_equal(&disk.evidence(&quarantine), &evidence) {
                return Err(StorageError::CommandConflict);
            }
            disk.files.remove(&quarantine);
            record_target_state(marker, index, TargetState::Removed);
        }
        CleanupStep::Refuse => return Err(StorageError::CommandConflict),
    }
    Ok(())
}

/// Runs the erasure against the disk as the host does, following the
/// steps the library decides; `crash` says at which fault point to stop.
fn run(
    marker: &mut ErasureMarker,
    disk: &mut Disk,
    crash: &mut dyn FnMut(UserDataErasureFaultPoint) -> bool,
) -> Result<UserDataErasureProgress, StorageError> {
    let mut point = RunPoint::Start;
    loop {
        let step = next_run_step(marker, point, disk.marker_written);
        match &step {
            RunStep::WriteIntent => disk.marker_written = true,
            RunStep::OpenQuarantine => {}
            RunStep::QuarantineTarget(index) => quarantine_on_disk(marker, disk, *index)?,
            RunStep::FinishQuarantine => advance_phase(marker),
            RunStep::AwaitNative(_) => {}
            RunStep::Recreate => {
                let core = marker_source_of_kind(marker, UserDataTargetKind::CoreSqlite).unwrap().clone();
                disk.files.entry(core).or_insert_with(|| marker.fresh_store_id.into_bytes().to_vec());
                let state =
                    marker_source_of_kind(marker, UserDataTargetKind::ApplicationStateProjection).unwrap().clone();
                disk.files.entry(state).or_insert_with(|| marker.sanitized_application_state.as_bytes().to_vec());
                advance_phase(marker);
            }
            RunStep::CleanupTarget(index) => cleanup_on_disk(marker, disk, *index)?,
            RunStep::Finish(fresh) => {
                disk.marker_written = false;
                return Ok(UserDataErasureProgress::Complete(*fresh));
            }
        }
        if let Some(point) = fault_point_after(&step) {
            if crash(point) {
                return Err(StorageError::CommandConflict);
            }
        }
        point = point_after(&step);
        if let RunStep::AwaitNative(actions) = step {
            return Ok(UserDataErasureProgress::AwaitingNativeActions(actions));
        }
    }
}

fn finish_native(marker: &mut ErasureMarker, disk: &mut Disk, progress: UserDataErasureProgress) -> CommandId {
    let mut progress = progress;
    loop {
        match progress {
            UserDataErasureProgress::Complete(fresh) => return fresh,
            UserDataErasureProgress::AwaitingNativeActions(actions) => {
                for action in actions {
                    observe_native_action(marker, action.action_id, action.attempt, true).unwrap();
                }
                progress = run(marker, disk, &mut |_| false).unwrap();
            }
        }
    }
}

fn disk_with_data() -> Disk {
    let mut files = BTreeMap::new();
    files.insert(format!("{ROOT}/erasure-target-0"), b"core store".to_vec());
    files.insert(format!("{ROOT}/erasure-target-1"), b"private bytes".to_vec());
    Disk { files, marker_written: false }
}

#[test]
fn identity_failure_is_byte_exact_noop_and_success_recreates_a_fresh_identity() {
    let mut disk = disk_with_data();
    let core = format!("{ROOT}/erasure-target-0");
    disk.files.insert(core.clone(), id(219).into_bytes().to_vec());
    let before = disk.files.clone();
    let root = Some(ROOT.to_string());
    let stored: Result<Vec<u8>, StorageError> = Ok(disk.files[&core].clone());
    assert_eq!(
        erasure_preflight(id(999), id(220), id(221), &root, &stored, false),
        Err(StorageError::CommandConflict)
    );
    assert_eq!(disk.files, before);
    let refused = prepare_user_data_erasure(
        inventory(),
        &root,
        id(999),
        id(220),
        id(221),
        &stored,
        false,
        b"{}",
        vec![],
    );
    assert!(matches!(refused, Err(StorageError::CommandConflict)));
    assert_eq!(disk.files, before);
    assert!(disk.files.keys().all(|path| !path.contains("pod0-erasure-")));
    assert!(!erasure_ids_acceptable(id(219), id(219), id(221)));
    assert!(!erasure_ids_acceptable(id(219), id(220), id(219)));
    assert_eq!(erasure_preflight(id(219), id(220), id(221), &None, &stored, false), Err(StorageError::CommandConflict));
    assert_eq!(erasure_preflight(id(219), id(220), id(221), &root, &stored, true), Err(StorageError::CommandConflict));
    let unreadable: Result<Vec<u8>, StorageError> = Err(StorageError::Sqlite { operation: "read erasure identity" });
    assert_eq!(erasure_preflight(id(219), id(220), id(221), &root, &unreadable, false), unreadable.map(|_| ()));
    assert_eq!(erasure_preflight(id(219), id(220), id(221), &root, &stored, false), Ok(()));
    let mut confirmation = prepared(&disk, 219);
    let progress = run(&mut confirmation.marker, &mut disk, &mut |_| false).unwrap();
    assert_eq!(finish_native(&mut confirmation.marker, &mut disk, progress), id(220));
    assert_eq!(disk.files[&core], id(220).into_bytes().to_vec());
    assert!(!disk.files.contains_key(&format!("{ROOT}/erasure-target-1")));
    assert!(confirmation.marker.targets.iter().all(|target| target.state == TargetState::Removed));
}

/// A disk on which every filesystem target holds data; the core database
/// holds the old store identity.
fn populated_disk(old: CommandId) -> Disk {
    let mut files = BTreeMap::new();
    for (index, kind) in UserDataTargetKind::ALL.into_iter().enumerate() {
        if kind.covering_kind().is_some() || kind.native_action_identifier().is_some() {
            continue;
        }
        let path = format!("{ROOT}/erasure-target-{index}");
        if kind == UserDataTargetKind::CoreSqlite {
            files.insert(path, old.into_bytes().to_vec());
        } else {
            files.insert(path, vec![index as u8; 7]);
        }
    }
    Disk { files, marker_written: false }
}

#[test]
fn every_fault_seam_reopens_from_marker_and_converges_forward() {
    let target_count = UserDataTargetKind::ALL.len();
    let mut seams = vec![UserDataErasureFaultPoint::AfterIntentMarker];
    seams.extend((0..target_count as u16).map(|index| UserDataErasureFaultPoint::AfterTargetRename { index }));
    seams.push(UserDataErasureFaultPoint::AfterFreshStore);
    seams.extend((0..target_count as u16).map(|index| UserDataErasureFaultPoint::AfterTargetCleanup { index }));
    for (offset, seam) in seams.into_iter().enumerate() {
        let old = id(300);
        let mut disk = populated_disk(old);
        let core = format!("{ROOT}/erasure-target-0");
        let old_bytes = disk.files[&core].clone();
        let inventory = inventory();
        let evidence = inventory
            .targets()
            .iter()
            .map(|target| match target.path() {
                Some(path) => disk.evidence(path),
                None => absent_evidence(),
            })
            .collect();
        let fresh = id(301 + offset as u64 * 10);
        let mut confirmation = prepare_user_data_erasure(
            inventory,
            &Some(ROOT.to_string()),
            old,
            fresh,
            id(302 + offset as u64 * 10),
            &Ok(disk.files[&core].clone()),
            false,
            b"{}",
            evidence,
        )
        .unwrap();
        // Run, performing native actions as they come, until the seam faults.
        loop {
            match run(&mut confirmation.marker, &mut disk, &mut |point| point == seam) {
                Ok(UserDataErasureProgress::AwaitingNativeActions(actions)) => {
                    let action = actions.first().unwrap();
                    observe_native_action(&mut confirmation.marker, action.action_id, action.attempt, true).unwrap();
                }
                Ok(UserDataErasureProgress::Complete(_)) => panic!("{seam:?} never faulted"),
                Err(error) => {
                    assert_eq!(error, StorageError::CommandConflict);
                    break;
                }
            }
        }
        assert!(disk.marker_written);
        if offset == 0 {
            for (index, target) in confirmation.marker.targets.iter().enumerate() {
                if let MarkerLocation::Filesystem { quarantine, evidence, .. } = &target.location {
                    assert!(evidence.existed);
                    assert!(evidence.byte_count > 0);
                    assert_eq!(evidence.sha256.as_ref().unwrap().len(), 64);
                    assert_eq!(
                        quarantine.rsplit('/').next().unwrap(),
                        format!("{index:02}-{}", target.kind.wire_name())
                    );
                }
            }
        }
        // Recovery accepts the persisted marker and drives it forward.
        let restart = self::inventory();
        let resolved = confirmation
            .marker
            .targets
            .iter()
            .map(|target| match &target.location {
                MarkerLocation::Filesystem { source, .. } => Some(source.clone()),
                _ => None,
            })
            .collect();
        assert_eq!(
            validate_recovery_marker(
                &confirmation.marker,
                &confirmation.marker_path,
                ROOT,
                &restart,
                &resolved
            ),
            Ok(())
        );
        let progress = run(&mut confirmation.marker, &mut disk, &mut |_| false).unwrap();
        assert_eq!(finish_native(&mut confirmation.marker, &mut disk, progress), fresh);
        assert!(!disk.marker_written);
        assert!(disk.files.keys().all(|path| !path.contains("pod0-erasure-")));
        assert_ne!(disk.files[&core], old_bytes);
        assert_eq!(disk.files[&core], fresh.into_bytes().to_vec());
        for target in restart.targets() {
            let Some(path) = target.path() else { continue };
            if target.kind == UserDataTargetKind::ApplicationStateProjection {
                assert_eq!(validate_sanitized_application_state(&disk.files[path]), Ok(()));
            } else if target.kind != UserDataTargetKind::CoreSqlite {
                assert!(!disk.files.contains_key(path), "old target survived: {:?}", target.kind);
            }
        }
    }
}

#[test]
fn recovery_rejects_quarantine_tamper_without_deleting_evidence() {
    let mut disk = disk_with_data();
    let mut confirmation = prepared(&disk, 700);
    let index = confirmation
        .marker
        .targets
        .iter()
        .position(|target| {
            matches!(&target.location, MarkerLocation::Filesystem { source, .. } if source.ends_with("erasure-target-1"))
        })
        .unwrap();
    assert!(run(&mut confirmation.marker, &mut disk, &mut |point| {
        point == UserDataErasureFaultPoint::AfterTargetRename { index: index as u16 }
    })
    .is_err());
    let (_, quarantined, _) = paths(&confirmation.marker, index).unwrap();
    disk.files.insert(quarantined.clone(), b"tampered bytes".to_vec());
    assert!(matches!(run(&mut confirmation.marker, &mut disk, &mut |_| false), Err(StorageError::CommandConflict)));
    assert_eq!(disk.files[&quarantined], b"tampered bytes".to_vec());
}

#[test]
fn native_action_failure_releases_a_new_attempt_and_stale_observation_fails_closed() {
    let mut disk = disk_with_data();
    let mut confirmation = prepared(&disk, 800);
    let UserDataErasureProgress::AwaitingNativeActions(actions) =
        run(&mut confirmation.marker, &mut disk, &mut |_| false).unwrap()
    else {
        panic!("native erasure action expected")
    };
    let first = actions.first().unwrap();
    assert_eq!(first.action_id, native_action_id(id(802), first.kind));
    observe_native_action(&mut confirmation.marker, first.action_id, first.attempt, false).unwrap();
    let UserDataErasureProgress::AwaitingNativeActions(actions) =
        run(&mut confirmation.marker, &mut disk, &mut |_| false).unwrap()
    else {
        panic!("retry expected")
    };
    let retried = actions.iter().find(|action| action.action_id == first.action_id).unwrap();
    assert_eq!(retried.attempt, first.attempt + 1);
    assert_eq!(
        observe_native_action(&mut confirmation.marker, first.action_id, first.attempt, true),
        Err(StorageError::CommandConflict)
    );
}

#[test]
fn native_success_reported_twice_changes_nothing_more() {
    let mut disk = disk_with_data();
    let mut confirmation = prepared(&disk, 900);
    let UserDataErasureProgress::AwaitingNativeActions(actions) =
        run(&mut confirmation.marker, &mut disk, &mut |_| false).unwrap()
    else {
        panic!("native erasure action expected")
    };
    let first = &actions[0];
    observe_native_action(&mut confirmation.marker, first.action_id, first.attempt, true).unwrap();
    let pending_once = pending_native_actions(&confirmation.marker).len();
    observe_native_action(&mut confirmation.marker, first.action_id, first.attempt, true).unwrap();
    assert_eq!(pending_native_actions(&confirmation.marker).len(), pending_once);
    assert_eq!(pending_once, actions.len() - 1);
    assert_eq!(
        observe_native_action(&mut confirmation.marker, id(1), 1, true),
        Err(StorageError::CommandConflict)
    );
}

#[test]
fn cleanup_refuses_targets_that_were_not_handled() {
    let disk = disk_with_data();
    let confirmation = prepared(&disk, 1000);
    for index in 0..confirmation.marker.targets.len() {
        assert_eq!(cleanup_step(&confirmation.marker, index, false), CleanupStep::Refuse);
    }
}

#[test]
fn prepared_marker_lies_under_the_recovery_root() {
    let disk = disk_with_data();
    let confirmation = prepared(&disk, 1100);
    let hex = "0000000000000000000000000000044e";
    assert_eq!(confirmation.marker_path, format!("{ROOT}/pod0-erasure-{hex}.json"));
    assert_eq!(confirmation.quarantine_root, format!("{ROOT}/pod0-erasure-{hex}.quarantine"));
    assert_eq!(confirmation.marker.version, 3);
    assert_eq!(core_store_path(&inventory()), &format!("{ROOT}/erasure-target-0"));
    match &confirmation.marker.targets[0].location {
        MarkerLocation::Filesystem { quarantine, .. } => {
            assert_eq!(quarantine, &format!("{ROOT}/pod0-erasure-{hex}.quarantine/00-core_sqlite"))
        }
        _ => panic!("core database on the filesystem"),
    }
}

#[test]
fn entry_header_frames_the_relative_path() {
    let header = entry_header("a/b", true);
    let mut expected = 3u64.to_le_bytes().to_vec();
    expected.extend_from_slice(b"a/b\0directory\0");
    assert_eq!(header, expected);
    let mut file = 0u64.to_le_bytes().to_vec();
    file.extend_from_slice(b"\0file\0");
    assert_eq!(entry_header("", false), file);
}

#[test]
fn evidence_counts_bytes_and_hashes_them() {
    let disk = disk_with_data();
    let evidence = disk.evidence(&format!("{ROOT}/erasure-target-1"));
    assert!(evidence.existed);
    assert_eq!(evidence.byte_count, 13);
    let mut hasher = sha2::Sha256::default();
    sha2::Digest::update(&mut hasher, entry_header("", false));
    sha2::Digest::update(&mut hasher, b"private bytes");
    let digest: String = sha2::Digest::finalize(hasher).iter().map(|b| format!("{b:02x}")).collect();
    assert_eq!(evidence.sha256, Some(digest));
    let mut hasher = EvidenceHasher::new();
    hasher.add_file_bytes(&[1, 2, 3]).unwrap();
    assert_eq!(hasher.finish().byte_count, 3);
}

#[test]
fn native_action_identity_is_a_digest_prefix() {
    let action = native_action_id(id(5), UserDataTargetKind::SpotlightIndex);
    let mut input = b"pod0-user-data-erasure-native-action-v1\0".to_vec();
    input.extend_from_slice(&id(5).into_bytes());
    input.extend_from_slice(b"spotlight_index");
    let digest = <sha2::Sha256 as sha2::Digest>::digest(&input);
    assert_eq!(action.into_bytes().to_vec(), digest[..16].to_vec());
    assert_ne!(action, native_action_id(id(6), UserDataTargetKind::SpotlightIndex));
}

#[test]
fn covered_targets_wait_for_their_covering_target() {
    let disk = disk_with_data();
    let confirmation = prepared(&disk, 1200);
    let marker = &confirmation.marker;
    let covered = marker
        .targets
        .iter()
        .position(|target| matches!(target.location, MarkerLocation::CoveredBy { .. }))
        .unwrap();
    // The covering target is still pending, so the covered one must wait.
    assert_eq!(quarantine_step(marker, covered, false, false), QuarantineStep::Refuse);
    let core = marker.targets.iter().position(|target| target.kind == UserDataTargetKind::CoreSqlite).unwrap();
    assert_eq!(quarantine_step(marker, core, true, false), QuarantineStep::MoveIntoQuarantine);
    assert_eq!(quarantine_step(marker, core, false, true), QuarantineStep::AdoptQuarantined);
    assert_eq!(quarantine_step(marker, core, true, true), QuarantineStep::Refuse);
}

#[test]
fn run_steps_follow_the_phases() {
    let disk = disk_with_data();
    let mut confirmation = prepared(&disk, 1300);
    let marker = &mut confirmation.marker;
    assert!(matches!(next_run_step(marker, RunPoint::Start, false), RunStep::WriteIntent));
    assert!(matches!(next_run_step(marker, RunPoint::Start, true), RunStep::OpenQuarantine));
    assert!(matches!(next_run_step(marker, RunPoint::Ready, true), RunStep::QuarantineTarget(0)));
    let last = marker.targets.len();
    assert!(matches!(next_run_step(marker, RunPoint::Quarantined(last), true), RunStep::FinishQuarantine));
    advance_phase(marker);
    assert!(matches!(next_run_step(marker, RunPoint::Ready, true), RunStep::Recreate));
    advance_phase(marker);
    assert!(matches!(next_run_step(marker, RunPoint::Ready, true), RunStep::CleanupTarget(0)));
    assert!(matches!(
        next_run_step(marker, RunPoint::Cleaned(last), true),
        RunStep::Finish(fresh) if fresh == id(1301)
    ));
    assert_eq!(
        fault_point_after(&RunStep::QuarantineTarget(3)),
        Some(UserDataErasureFaultPoint::AfterTargetRename { index: 3 })
    );
    assert_eq!(point_after(&RunStep::CleanupTarget(4)), RunPoint::Cleaned(5));
}
