use pod0_storage::inventory::{UserDataTarget, UserDataTargetLocation, ValidatedUserDataInventory};
use pod0_storage::marker::{ErasurePhase, TargetState};
use pod0_storage::path::{resolve_ancestors, AncestorFinding};
use pod0_storage::{normalize, StorageError, UserDataErasureExclusion, UserDataTargetKind};

const ROOT: &str = "/data/pod0";

fn targets(root: &str) -> Vec<UserDataTarget> {
    UserDataTargetKind::ALL
        .into_iter()
        .enumerate()
        .map(|(index, kind)| {
            if let Some(covering) = kind.covering_kind() {
                UserDataTarget::covered_by(kind, covering)
            } else if let Some(identifier) = kind.native_action_identifier() {
                UserDataTarget::native(kind, identifier.to_string())
            } else {
                UserDataTarget::filesystem(kind, format!("{root}/target-{index}"))
            }
        })
        .collect()
}

/// Every filesystem target resolves to its own (already canonical) path.
fn resolutions(targets: &[UserDataTarget]) -> Vec<Option<String>> {
    targets.iter().map(|target| target.path().cloned()).collect()
}

fn validate(targets: Vec<UserDataTarget>) -> Result<ValidatedUserDataInventory, StorageError> {
    let resolved = resolutions(&targets);
    ValidatedUserDataInventory::validate(targets, &vec![Some(ROOT.to_string())], &resolved)
}

#[test]
fn marker_wire_is_stable_and_unknown_values_fail_closed() {
    for kind in UserDataTargetKind::ALL {
        let encoded = format!("\"{}\"", kind.wire_name());
        let name = &encoded[1..encoded.len() - 1];
        assert_eq!(UserDataTargetKind::from_wire_name(name), Some(kind));
    }
    assert_eq!(UserDataTargetKind::from_wire_name("future_kind"), None);
    assert_eq!(UserDataTargetKind::CoreSqlite.wire_name(), "core_sqlite");
    assert_eq!(format!("\"{}\"", TargetState::Covered.wire_name()), r#""covered""#);
    assert_eq!(TargetState::from_wire_name("future_state"), None);
    assert_eq!(TargetState::from_wire_name("covered"), Some(TargetState::Covered));
    assert_eq!(ErasurePhase::from_wire_name("recreating"), Some(ErasurePhase::Recreating));
}

#[test]
fn inventory_is_exhaustive_ordered_and_accepts_absent_exact_targets() {
    let unordered_targets = targets(ROOT);
    let inventory = validate(unordered_targets.into_iter().rev().collect()).unwrap();
    assert_eq!(inventory.targets().len(), UserDataTargetKind::ALL.len());
    assert_eq!(inventory.targets()[0].kind, UserDataTargetKind::CoreSqlite);
    assert!(UserDataErasureExclusion::ALL.iter().all(|exclusion| !exclusion.rationale().is_empty()));
    let mut with_backups = targets(ROOT);
    with_backups.push(UserDataTarget::filesystem(
        UserDataTargetKind::MigrationBackupRoot,
        format!("{ROOT}/another-exact-backup"),
    ));
    assert_eq!(validate(with_backups).unwrap().targets().len(), UserDataTargetKind::ALL.len() + 1);
}

#[test]
fn inventory_rejects_missing_duplicate_escape_and_symlink_targets() {
    let mut missing = targets(ROOT);
    missing.pop();
    assert!(matches!(validate(missing), Err(StorageError::CommandConflict)));

    let mut duplicate = targets(ROOT);
    duplicate[1].location = duplicate[0].location.clone();
    assert!(matches!(validate(duplicate), Err(StorageError::CommandConflict)));

    let mut duplicate_kind = targets(ROOT);
    duplicate_kind.push(UserDataTarget::filesystem(UserDataTargetKind::CoreWal, format!("{ROOT}/second-core-wal")));
    assert!(matches!(validate(duplicate_kind), Err(StorageError::CommandConflict)));

    // A path that resolves outside every root.
    let mut escape = targets(ROOT);
    escape[0].location = UserDataTargetLocation::Filesystem("/tmp/pod0-erasure-outside.sqlite".to_string());
    assert!(matches!(validate(escape), Err(StorageError::CommandConflict)));

    // A path under a dangling symbolic link does not resolve.
    let mut linked = targets(ROOT);
    linked[0].location = UserDataTargetLocation::Filesystem(format!("{ROOT}/linked/core.sqlite"));
    let mut resolved = resolutions(&linked);
    resolved[0] = resolve_ancestors(
        &format!("{ROOT}/linked/core.sqlite"),
        &vec![AncestorFinding::Missing, AncestorFinding::Link],
    );
    assert_eq!(resolved[0], None);
    assert!(matches!(
        ValidatedUserDataInventory::validate(linked, &vec![Some(ROOT.to_string())], &resolved),
        Err(StorageError::CommandConflict)
    ));
}

#[test]
fn covered_targets_require_the_exact_machine_checked_relationship() {
    let mut wrong_cover = targets(ROOT);
    let transcript = wrong_cover
        .iter_mut()
        .find(|target| target.kind == UserDataTargetKind::TranscriptArtifactRoot)
        .unwrap();
    transcript.location = UserDataTargetLocation::CoveredBy { kind: UserDataTargetKind::EpisodeSqlite };
    assert!(matches!(validate(wrong_cover), Err(StorageError::CommandConflict)));

    let mut synthetic_path = targets(ROOT);
    let chapter = synthetic_path
        .iter_mut()
        .find(|target| target.kind == UserDataTargetKind::ChapterArtifactRoot)
        .unwrap();
    chapter.location = UserDataTargetLocation::Filesystem(format!("{ROOT}/synthetic-chapter-path"));
    assert!(matches!(validate(synthetic_path), Err(StorageError::CommandConflict)));
}

#[test]
fn inventory_order_does_not_depend_on_the_order_given() {
    let forward = validate(targets(ROOT)).unwrap();
    let backward = validate(targets(ROOT).into_iter().rev().collect()).unwrap();
    assert_eq!(forward.targets(), backward.targets());
}

#[test]
fn roots_must_be_present_distinct_directories() {
    let given = targets(ROOT);
    let resolved = resolutions(&given);
    assert!(matches!(
        ValidatedUserDataInventory::validate(given.clone(), &vec![], &resolved),
        Err(StorageError::CommandConflict)
    ));
    assert!(matches!(
        ValidatedUserDataInventory::validate(given.clone(), &vec![None], &resolved),
        Err(StorageError::CommandConflict)
    ));
    assert!(matches!(
        ValidatedUserDataInventory::validate(
            given,
            &vec![Some(ROOT.to_string()), Some(format!("{ROOT}/"))],
            &resolved
        ),
        Err(StorageError::CommandConflict)
    ));
}

#[test]
fn relative_and_parent_paths_are_refused() {
    let mut relative = targets(ROOT);
    relative[0].location = UserDataTargetLocation::Filesystem("data/core.sqlite".to_string());
    assert!(matches!(validate(relative), Err(StorageError::CommandConflict)));
    let mut parent = targets(ROOT);
    parent[0].location = UserDataTargetLocation::Filesystem(format!("{ROOT}/../core.sqlite"));
    assert!(matches!(validate(parent), Err(StorageError::CommandConflict)));
}

#[test]
fn normalize_drops_current_components_and_refuses_parents() {
    assert_eq!(normalize("/a/./b//c/"), Ok("/a/b/c".to_string()));
    assert_eq!(normalize("/"), Ok("/".to_string()));
    assert_eq!(normalize("/a/../b"), Err(StorageError::CommandConflict));
    assert_eq!(normalize("a/b"), Err(StorageError::CommandConflict));
}

#[test]
fn kind_relationships_are_as_documented() {
    assert_eq!(UserDataTargetKind::TranscriptArtifactRoot.covering_kind(), Some(UserDataTargetKind::CoreSqlite));
    assert_eq!(UserDataTargetKind::LegacyWorkflowStore.covering_kind(), Some(UserDataTargetKind::EpisodeSqlite));
    assert_eq!(UserDataTargetKind::CoreSqlite.covering_kind(), None);
    assert_eq!(
        UserDataTargetKind::AgentConversationPointer.native_action_identifier(),
        Some("pod0.agent.lastConversationID.v1")
    );
    assert!(UserDataTargetKind::MigrationBackupRoot.allows_multiple_targets());
    assert!(!UserDataTargetKind::CoreWal.allows_multiple_targets());
}

#[test]
fn paths_resolve_from_their_deepest_present_ancestor() {
    let found = vec![
        AncestorFinding::Missing,
        AncestorFinding::Missing,
        AncestorFinding::Canonical("/private/data".to_string()),
    ];
    assert_eq!(resolve_ancestors("/data/./pod0//core.sqlite", &found), Some("/private/data/pod0/core.sqlite".to_string()));
    let root = vec![AncestorFinding::Missing, AncestorFinding::Missing, AncestorFinding::Canonical("/".to_string())];
    assert_eq!(resolve_ancestors("/a/b", &root), Some("/a/b".to_string()));
    let itself = vec![AncestorFinding::Canonical("/real/file".to_string())];
    assert_eq!(resolve_ancestors("/data/file", &itself), Some("/real/file".to_string()));
    assert_eq!(resolve_ancestors("/data/file", &vec![AncestorFinding::Link]), None);
    assert_eq!(resolve_ancestors("/data/file", &vec![AncestorFinding::Missing, AncestorFinding::Unreadable]), None);
    assert_eq!(resolve_ancestors("/data/file", &vec![AncestorFinding::Missing]), None);
    let beyond = vec![AncestorFinding::Missing, AncestorFinding::Missing, AncestorFinding::Missing, AncestorFinding::Canonical("/x".to_string())];
    assert_eq!(resolve_ancestors("/a/b", &beyond), None);
    assert_eq!(resolve_ancestors("relative/path", &itself), None);
    assert_eq!(resolve_ancestors("/data/../etc", &itself), None);
}
