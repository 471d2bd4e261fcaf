use pod0_storage::erasure::build_erasure_confirmation;
use pod0_storage::evidence::absent_evidence;
use pod0_storage::marker::{ErasureMarker, MarkerLocation};
use pod0_storage::projection::sanitized_application_state;
use pod0_storage::recovery::{
    accept_read_marker, classify_marker_name, erasure_paths, sort_names, validate_recovery_marker, MarkerNameKind,
};
use pod0_storage::{
    pending_user_data_erasure_markers, CommandId, StorageError, UserDataTarget, UserDataTargetKind,
    UserDataTargetLocation, ValidatedUserDataInventory,
};

const ROOT: &str = "/data/pod0";

fn id(n: u64) -> CommandId {
    let mut bytes = [0u8; 16];
    bytes[8..].copy_from_slice(&n.to_be_bytes());
    CommandId::from_bytes(bytes)
}

fn targets() -> Vec<UserDataTarget> {
    UserDataTargetKind::ALL
        .into_iter()
        .enumerate()
        .map(|(index, kind)| {
            if let Some(covering) = kind.covering_kind() {
                UserDataTarget::covered_by(kind, covering)
            } else if let Some(identifier) = kind.native_action_identifier() {
                UserDataTarget::native(kind, identifier.to_string())
            } else {
                UserDataTarget::filesystem(kind, format!("{ROOT}/target-{index}"))
            }
        })
        .collect()
}

fn restart_targets(core: &str, base_backup: &str) -> Vec<UserDataTarget> {
    targets()
        .into_iter()
        .map(|mut target| {
            match target.kind {
                UserDataTargetKind::CoreSqlite => target.location = UserDataTargetLocation::Filesystem(core.to_string()),
                UserDataTargetKind::MigrationBackupRoot => {
                    target.location = UserDataTargetLocation::Filesystem(base_backup.to_string())
                }
                _ => {}
            }
            target
        })
        .collect()
}

fn validate(targets: Vec<UserDataTarget>) -> ValidatedUserDataInventory {
    let resolved = targets.iter().map(|target| target.path().cloned()).collect();
    ValidatedUserDataInventory::validate(targets, &vec![Some(ROOT.to_string())], &resolved).unwrap()
}

fn sources(marker: &ErasureMarker) -> Vec<Option<String>> {
    marker
        .targets
        .iter()
        .map(|target| match &target.location {
            MarkerLocation::Filesystem { source, .. } => Some(source.clone()),
            _ => None,
        })
        .collect()
}

#[test]
fn recovery_uses_persisted_versioned_backup_inventory_after_quarantine() {
    let core = format!("{ROOT}/core.sqlite");
    let base = format!("{ROOT}/core.sqlite.schema-backup");
    let dynamic = format!("{ROOT}/core.sqlite.schema-backup-v39");
    let mut initial_targets = restart_targets(&core, &base);
    initial_targets.push(UserDataTarget::filesystem(UserDataTargetKind::MigrationBackupRoot, dynamic.clone()));
    let initial = validate(initial_targets);
    let dynamic_index =
        initial.targets().iter().position(|target| target.path() == Some(&dynamic)).unwrap();
    let evidence = initial.targets().iter().map(|_| absent_evidence()).collect();
    let sanitized = sanitized_application_state(b"{}").unwrap();
    let prepared =
        build_erasure_confirmation(initial, ROOT, id(910), id(911), id(912), sanitized, evidence).unwrap();
    assert!(matches!(
        &prepared.marker.targets[dynamic_index].location,
        MarkerLocation::Filesystem { source, .. } if source == &dynamic
    ));
    let restart = validate(restart_targets(&core, &base));
    let resolved = sources(&prepared.marker);
    assert_eq!(
        validate_recovery_marker(&prepared.marker, &prepared.marker_path, ROOT, &restart, &resolved),
        Ok(())
    );
    // Without a resolution under a root, the dynamic backup is refused.
    let mut unresolved = resolved.clone();
    unresolved[dynamic_index] = None;
    assert_eq!(
        validate_recovery_marker(&prepared.marker, &prepared.marker_path, ROOT, &restart, &unresolved),
        Err(StorageError::CommandConflict)
    );
}

#[test]
fn recovery_refuses_a_marker_out_of_place_or_with_other_targets() {
    let inventory = validate(targets());
    let evidence = inventory.targets().iter().map(|_| absent_evidence()).collect();
    let sanitized = sanitized_application_state(b"{}").unwrap();
    let prepared =
        build_erasure_confirmation(inventory, ROOT, id(1), id(2), id(3), sanitized, evidence).unwrap();
    let same = validate(targets());
    let resolved = sources(&prepared.marker);
    assert_eq!(
        validate_recovery_marker(&prepared.marker, &prepared.marker_path, ROOT, &same, &resolved),
        Ok(())
    );
    assert_eq!(
        validate_recovery_marker(&prepared.marker, "/elsewhere/marker.json", ROOT, &same, &resolved),
        Err(StorageError::CommandConflict)
    );
    let evidence = same.targets().iter().map(|_| absent_evidence()).collect();
    let unsanitized =
        build_erasure_confirmation(validate(targets()), ROOT, id(1), id(2), id(3), "{}".to_string(), evidence).unwrap();
    assert_eq!(
        validate_recovery_marker(&unsanitized.marker, &unsanitized.marker_path, ROOT, &same, &resolved),
        Err(StorageError::CommandConflict)
    );
    let mut moved = targets();
    moved[0].location = UserDataTargetLocation::Filesystem(format!("{ROOT}/moved-core.sqlite"));
    let other = validate(moved);
    assert_eq!(
        validate_recovery_marker(&prepared.marker, &prepared.marker_path, ROOT, &other, &resolved),
        Err(StorageError::CommandConflict)
    );
}

#[test]
fn marker_names_are_listed_in_order_and_malformed_ones_refused() {
    let (marker_path, quarantine_root) = erasure_paths(ROOT, id(7));
    let name = marker_path.rsplit('/').next().unwrap().to_string();
    assert_eq!(name, "pod0-erasure-00000000000000000000000000000007.json");
    assert_eq!(quarantine_root, format!("{ROOT}/pod0-erasure-00000000000000000000000000000007.quarantine"));
    assert_eq!(classify_marker_name(&name), MarkerNameKind::Marker);
    assert_eq!(classify_marker_name("notes.json"), MarkerNameKind::Unrelated);
    assert_eq!(classify_marker_name("pod0-erasure-00000000000000000000000000000007.quarantine"), MarkerNameKind::Unrelated);
    assert_eq!(classify_marker_name("pod0-erasure-XYZ.json"), MarkerNameKind::Malformed);
    assert_eq!(classify_marker_name("pod0-erasure-0000000000000000000000000000000A.json"), MarkerNameKind::Malformed);
    let second = "pod0-erasure-00000000000000000000000000000009.json".to_string();
    let found = pending_user_data_erasure_markers(vec![
        second.clone(),
        "other".to_string(),
        name.clone(),
        "pod0-erasure-00000000000000000000000000000007.quarantine".to_string(),
    ])
    .unwrap();
    assert_eq!(found, vec![name.clone(), second]);
    assert_eq!(
        pending_user_data_erasure_markers(vec![name, "pod0-erasure-.json".to_string()]),
        Err(StorageError::CommandConflict)
    );
}

#[test]
fn only_current_marker_versions_are_read() {
    let inventory = validate(targets());
    let evidence = inventory.targets().iter().map(|_| absent_evidence()).collect();
    let prepared =
        build_erasure_confirmation(inventory, ROOT, id(1), id(2), id(3), "{}".to_string(), evidence).unwrap();
    let mut marker = prepared.marker;
    marker = accept_read_marker(marker).unwrap();
    marker.version = 2;
    assert_eq!(accept_read_marker(marker).err(), Some(StorageError::CommandConflict));
}

#[test]
fn names_sort_by_their_characters() {
    let sorted = sort_names(vec!["b".to_string(), "a".to_string(), "ab".to_string(), "a".to_string()]);
    assert_eq!(sorted, vec!["a", "a", "ab", "b"]);
}

#[test]
fn each_operation_has_its_own_marker() {
    let (first, first_quarantine) = erasure_paths(ROOT, id(1));
    let (second, second_quarantine) = erasure_paths(ROOT, id(2));
    assert_ne!(first, second);
    assert_ne!(first_quarantine, second_quarantine);
}

#[test]
fn identities_read_back_from_their_hex_text() {
    let text = pod0_storage::ids::hex(&id(0x1234).into_bytes());
    assert_eq!(text, "00000000000000000000000000001234");
    assert_eq!(pod0_storage::ids::parse_hex_id(&text), Some(id(0x1234)));
    assert_eq!(pod0_storage::ids::parse_hex_id("0000000000000000000000000000123"), None);
    assert_eq!(pod0_storage::ids::parse_hex_id("0000000000000000000000000000123A"), None);
    assert_eq!(pod0_storage::ids::parse_hex_id("000000000000000000000000000012g4"), None);
}
