//! The durable erasure marker: the intent record that drives an erasure to
//! completion across crashes.
use vstd::prelude::*;
use vstd::utf8::encode_utf8;

use crate::ids::{concat_bytes, first_sixteen, sha256, sha256_of, CommandId};
use crate::inventory::{
    target_views, LocationView, TargetView, UserDataTargetLocation, ValidatedUserDataInventory,
};
use crate::path::{join, join_path};
use crate::target_kind::UserDataTargetKind;
use crate::text::{chars_of, concat_chars, two_digit_chars, two_digit_text};

verus! {

/// How far an erasure has come.
#[derive(Clone, Copy, Debug, PartialEq, Eq, Structural)]
pub enum ErasurePhase {
    Quarantining,
    Recreating,
    Cleaning,
}

/// What has happened to one target.
#[derive(Clone, Copy, Debug, PartialEq, Eq, Structural)]
pub enum TargetState {
    Pending,
    Covered,
    NativeAuthorized,
    NativeCompleted,
    Absent,
    Quarantined,
    Removed,
}

impl ErasurePhase {
    /// The name a marker file gives the phase.
    pub open spec fn wire(self) -> Seq<char> {
        match self {
            ErasurePhase::Quarantining => "quarantining"@,
            ErasurePhase::Recreating => "recreating"@,
            ErasurePhase::Cleaning => "cleaning"@,
        }
    }

    /// The name a marker file gives the phase.
    pub fn wire_name(self) -> (name: &'static str)
        ensures
            name@ == self.wire(),
    {
        match self {
            ErasurePhase::Quarantining => "quarantining",
            ErasurePhase::Recreating => "recreating",
            ErasurePhase::Cleaning => "cleaning",
        }
    }

    /// Reads a phase back from its name; any other name is refused.
    pub fn from_wire_name(name: &str) -> (phase: Option<Self>)
        ensures
            match phase {
                Some(p) => p.wire() == name@,
                None => forall|p: Self| #[trigger] p.wire() != name@,
            },
    {
        let n = chars_of(name);
        let all = [ErasurePhase::Quarantining, ErasurePhase::Recreating, ErasurePhase::Cleaning];
        let mut i: usize = 0;
        while i < 3
            invariant
                n@ == name@,
                i <= 3,
                all@ == seq![ErasurePhase::Quarantining, ErasurePhase::Recreating, ErasurePhase::Cleaning],
                forall|j: int| 0 <= j < i ==> #[trigger] all@[j].wire() != name@,
            decreases 3 - i,
        {
            if crate::text::chars_eq(&chars_of(all[i].wire_name()), &n) {
                return Some(all[i]);
            }
            i = i + 1;
        }
        assert forall|p: Self| #[trigger] p.wire() != name@ by {
            match p {
                ErasurePhase::Quarantining => assert(all@[0] == p),
                ErasurePhase::Recreating => assert(all@[1] == p),
                ErasurePhase::Cleaning => assert(all@[2] == p),
            }
        }
        None
    }
}

impl TargetState {
    /// The name a marker file gives the state.
    pub open spec fn wire(self) -> Seq<char> {
        match self {
            TargetState::Pending => "pending"@,
            TargetState::Covered => "covered"@,
            TargetState::NativeAuthorized => "native_authorized"@,
            TargetState::NativeCompleted => "native_completed"@,
            TargetState::Absent => "absent"@,
            TargetState::Quarantined => "quarantined"@,
            TargetState::Removed => "removed"@,
        }
    }

    /// The name a marker file gives the state.
    pub fn wire_name(self) -> (name: &'static str)
        ensures
            name@ == self.wire(),
    {
        match self {
            TargetState::Pending => "pending",
            TargetState::Covered => "covered",
            TargetState::NativeAuthorized => "native_authorized",
            TargetState::NativeCompleted => "native_completed",
            TargetState::Absent => "absent",
            TargetState::Quarantined => "quarantined",
            TargetState::Removed => "removed",
        }
    }

    /// Reads a state back from its name; any other name is refused.
    pub fn from_wire_name(name: &str) -> (state: Option<Self>)
        ensures
            match state {
                Some(s) => s.wire() == name@,
                None => forall|s: Self| #[trigger] s.wire() != name@,
            },
    {
        let n = chars_of(name);
        let all = [
            TargetState::Pending,
            TargetState::Covered,
            TargetState::NativeAuthorized,
            TargetState::NativeCompleted,
            TargetState::Absent,
            TargetState::Quarantined,
            TargetState::Removed,
        ];
        let mut i: usize = 0;
        while i < 7
            invariant
                n@ == name@,
                i <= 7,
                all@ == seq![
                    TargetState::Pending,
                    TargetState::Covered,
                    TargetState::NativeAuthorized,
                    TargetState::NativeCompleted,
                    TargetState::Absent,
                    TargetState::Quarantined,
                    TargetState::Removed,
                ],
                forall|j: int| 0 <= j < i ==> #[trigger] all@[j].wire() != name@,
            decreases 7 - i,
        {
            if crate::text::chars_eq(&chars_of(all[i].wire_name()), &n) {
                return Some(all[i]);
            }
            i = i + 1;
        }
        assert forall|s: Self| #[trigger] s.wire() != name@ by {
            match s {
                TargetState::Pending => assert(all@[0] == s),
                TargetState::Covered => assert(all@[1] == s),
                TargetState::NativeAuthorized => assert(all@[2] == s),
                TargetState::NativeCompleted => assert(all@[3] == s),
                TargetState::Absent => assert(all@[4] == s),
                TargetState::Quarantined => assert(all@[5] == s),
                TargetState::Removed => assert(all@[6] == s),
            }
        }
        None
    }
}

/// What a filesystem target held when the erasure was prepared.
#[derive(Clone, Debug, PartialEq, Eq)]
pub struct TargetEvidence {
    pub existed: bool,
    pub byte_count: u64,
    pub sha256: Option<String>,
}

/// Where a marked target lives, with what is needed to erase it.
#[derive(Debug)]
pub enum MarkerLocation {
    Filesystem { source: String, quarantine: String, evidence: TargetEvidence },
    NativeAction { identifier: String, action_id: CommandId, attempt: u16 },
    CoveredBy { kind: UserDataTargetKind },
}

/// One target of a marker.
#[derive(Debug)]
pub struct MarkerTarget {
    pub kind: UserDataTargetKind,
    pub location: MarkerLocation,
    pub state: TargetState,
}

/// The durable record of an erasure in progress.
#[derive(Debug)]
pub struct ErasureMarker {
    pub version: u8,
    pub operation_id: CommandId,
    pub expected_store_id: CommandId,
    pub fresh_store_id: CommandId,
    pub sanitized_application_state: String,
    pub quarantine_root: String,
    pub phase: ErasurePhase,
    pub targets: Vec<MarkerTarget>,
}

/// The mathematical form of evidence.
pub struct EvidenceView {
    pub existed: bool,
    pub byte_count: u64,
    pub sha256: Option<Seq<char>>,
}

/// The mathematical form of a marker location; identifiers are their bytes.
pub enum MarkerLocationView {
    Filesystem { source: Seq<char>, quarantine: Seq<char>, evidence: EvidenceView },
    NativeAction { identifier: Seq<char>, action_id: Seq<u8>, attempt: u16 },
    CoveredBy(UserDataTargetKind),
}

/// The mathematical form of a marker target.
pub struct MarkerTargetView {
    pub kind: UserDataTargetKind,
    pub location: MarkerLocationView,
    pub state: TargetState,
}

impl View for TargetEvidence {
    type V = EvidenceView;

    open spec fn view(&self) -> EvidenceView {
        EvidenceView {
            existed: self.existed,
            byte_count: self.byte_count,
            sha256: match self.sha256 {
                Some(s) => Some(s@),
                None => None,
            },
        }
    }
}

impl View for MarkerLocation {
    type V = MarkerLocationView;

    open spec fn view(&self) -> MarkerLocationView {
        match self {
            MarkerLocation::Filesystem { source, quarantine, evidence } => MarkerLocationView::Filesystem {
                source: source@,
                quarantine: quarantine@,
                evidence: evidence@,
            },
            MarkerLocation::NativeAction { identifier, action_id, attempt } => MarkerLocationView::NativeAction {
                identifier: identifier@,
                action_id: action_id.bytes_of(),
                attempt: *attempt,
            },
            MarkerLocation::CoveredBy { kind } => MarkerLocationView::CoveredBy(*kind),
        }
    }
}

impl View for MarkerTarget {
    type V = MarkerTargetView;

    open spec fn view(&self) -> MarkerTargetView {
        MarkerTargetView { kind: self.kind, location: self.location@, state: self.state }
    }
}

/// The views of marker targets.
pub open spec fn marker_target_views(s: Seq<MarkerTarget>) -> Seq<MarkerTargetView> {
    s.map_values(|t: MarkerTarget| t@)
}

/// The marker format version.
pub const MARKER_VERSION: u8 = 3;

/// The text that opens the digest input of a native action identifier.
pub open spec fn native_action_domain() -> Seq<char> {
    "pod0-user-data-erasure-native-action-v1\0"@
}

/// The identifier of the native action that erases `kind` for an operation:
/// the first sixteen bytes of SHA-256 over the domain text, the operation's
/// bytes and the kind's wire name.
pub open spec fn native_action_bytes(operation: Seq<u8>, kind: UserDataTargetKind) -> Seq<u8> {
    sha256_of(encode_utf8(native_action_domain()) + operation + encode_utf8(kind.wire())).subrange(0, 16)
}

/// The identifier of the native action that erases `kind` for an operation.
pub fn native_action_id(operation_id: CommandId, kind: UserDataTargetKind) -> (id: CommandId)
    ensures
        id.bytes_of() == native_action_bytes(operation_id.bytes_of(), kind),
{
    let domain = "pod0-user-data-erasure-native-action-v1\0".as_bytes();
    let op = operation_id.into_bytes();
    let first = concat_bytes(domain, op.as_slice());
    let input = concat_bytes(&first, kind.wire_name().as_bytes());
    let digest = sha256(&input);
    CommandId::from_bytes(first_sixteen(&digest))
}

/// The name, inside the quarantine root, of the quarantined copy of the
/// target at `index`.
pub open spec fn quarantine_name(index: nat, kind: UserDataTargetKind) -> Seq<char> {
    two_digit_text(index) + seq!['-'] + kind.wire()
}

/// The name, inside the quarantine root, of the quarantined copy of the
/// target at `index`.
pub fn quarantine_name_chars(index: usize, kind: UserDataTargetKind) -> (name: Vec<char>)
    ensures
        name@ == quarantine_name(index as nat, kind),
{
    let mut dash: Vec<char> = Vec::new();
    dash.push('-');
    let head = concat_chars(&two_digit_chars(index), &dash);
    concat_chars(&head, &chars_of(kind.wire_name()))
}

/// Where the marker records a target that it has not yet touched.
pub open spec fn planned_location(
    t: TargetView,
    index: nat,
    quarantine_root: Seq<char>,
    operation: Seq<u8>,
    evidence: EvidenceView,
) -> MarkerLocationView {
    match t.location {
        LocationView::Filesystem(p) => MarkerLocationView::Filesystem {
            source: p,
            quarantine: join_path(quarantine_root, quarantine_name(index, t.kind)),
            evidence,
        },
        LocationView::NativeAction(id) => MarkerLocationView::NativeAction {
            identifier: id,
            action_id: native_action_bytes(operation, t.kind),
            attempt: 1,
        },
        LocationView::CoveredBy(k) => MarkerLocationView::CoveredBy(k),
    }
}

/// The targets a new marker records for an inventory: each inventory target
/// at its index, pending, at its planned location.
pub open spec fn planned_targets(
    inventory: Seq<TargetView>,
    quarantine_root: Seq<char>,
    operation: Seq<u8>,
    evidence: Seq<EvidenceView>,
) -> Seq<MarkerTargetView> {
    Seq::new(
        inventory.len(),
        |i: int|
            MarkerTargetView {
                kind: inventory[i].kind,
                location: planned_location(inventory[i], i as nat, quarantine_root, operation, evidence[i]),
                state: TargetState::Pending,
            },
    )
}

/// A copy of evidence.
pub fn copy_evidence(e: &TargetEvidence) -> (c: TargetEvidence)
    ensures
        c@ == e@,
{
    TargetEvidence {
        existed: e.existed,
        byte_count: e.byte_count,
        sha256: match &e.sha256 {
            Some(s) => Some(s.clone()),
            None => None,
        },
    }
}

/// Whether two pieces of evidence agree.
pub fn evidence_equal(a: &TargetEvidence, b: &TargetEvidence) -> (same: bool)
    ensures
        same == (a@ == b@),
{
    if a.existed != b.existed || a.byte_count != b.byte_count {
        return false;
    }
    match (&a.sha256, &b.sha256) {
        (Some(x), Some(y)) => crate::text::chars_eq(&chars_of(x.as_str()), &chars_of(y.as_str())),
        (None, None) => true,
        _ => false,
    }
}

/// Builds the marker of a new erasure: every inventory target, in inventory
/// order, pending; filesystem targets get a quarantine path inside
/// `quarantine_root` and the evidence gathered for them (`evidence[i]` for
/// target `i`); native targets get their action identifier at attempt 1.
pub fn new_marker(
    inventory: &ValidatedUserDataInventory,
    quarantine_root: &str,
    operation_id: CommandId,
    expected_store_id: CommandId,
    fresh_store_id: CommandId,
    sanitized_application_state: String,
    evidence: &Vec<TargetEvidence>,
) -> (marker: ErasureMarker)
    requires
        evidence@.len() == inventory.target_seq().len(),
    ensures
        marker.version == MARKER_VERSION,
        marker.operation_id == operation_id,
        marker.expected_store_id == expected_store_id,
        marker.fresh_store_id == fresh_store_id,
        marker.sanitized_application_state@ == sanitized_application_state@,
        marker.quarantine_root@ == quarantine_root@,
        marker.phase == ErasurePhase::Quarantining,
        marker.targets@.len() == inventory.target_seq().len(),
        forall|i: int|
            0 <= i < marker.targets@.len() ==> #[trigger] marker.targets@[i]@ == (MarkerTargetView {
                kind: inventory.target_seq()[i].kind,
                location: planned_location(
                    inventory.target_seq()[i]@,
                    i as nat,
                    quarantine_root@,
                    operation_id.bytes_of(),
                    evidence@[i]@,
                ),
                state: TargetState::Pending,
            }),
        marker_target_views(marker.targets@) == planned_targets(
            target_views(inventory.target_seq()),
            quarantine_root@,
            operation_id.bytes_of(),
            evidence@.map_values(|e: TargetEvidence| e@),
        ),
{
    let targets = inventory.targets();
    let mut marked: Vec<MarkerTarget> = Vec::new();
    let mut i: usize = 0;
    while i < targets.len()
        invariant
            targets@ == inventory.target_seq(),
            evidence@.len() == targets@.len(),
            i <= targets@.len(),
            marked@.len() == i,
            forall|j: int|
                0 <= j < i ==> #[trigger] marked@[j]@ == (MarkerTargetView {
                    kind: targets@[j].kind,
                    location: planned_location(
                        targets@[j]@,
                        j as nat,
                        quarantine_root@,
                        operation_id.bytes_of(),
                        evidence@[j]@,
                    ),
                    state: TargetState::Pending,
                }),
        decreases targets.len() - i,
    {
        let target = &targets[i];
        let location = match &target.location {
            UserDataTargetLocation::Filesystem(source) => {
                let name = quarantine_name_chars(i, target.kind);
                MarkerLocation::Filesystem {
                    source: source.clone(),
                    quarantine: join(quarantine_root, &name),
                    evidence: copy_evidence(&evidence[i]),
                }
            },
            UserDataTargetLocation::NativeAction { identifier } => MarkerLocation::NativeAction {
                identifier: identifier.clone(),
                action_id: native_action_id(operation_id, target.kind),
                attempt: 1,
            },
            UserDataTargetLocation::CoveredBy { kind } => MarkerLocation::CoveredBy { kind: *kind },
        };
        marked.push(MarkerTarget { kind: target.kind, location, state: TargetState::Pending });
        i = i + 1;
    }
    assert(marker_target_views(marked@) =~= planned_targets(
        target_views(inventory.target_seq()),
        quarantine_root@,
        operation_id.bytes_of(),
        evidence@.map_values(|e: TargetEvidence| e@),
    ));
    ErasureMarker {
        version: MARKER_VERSION,
        operation_id,
        expected_store_id,
        fresh_store_id,
        sanitized_application_state,
        quarantine_root: crate::text::string_of(&chars_of(quarantine_root)),
        phase: ErasurePhase::Quarantining,
        targets: marked,
    }
}

} // verus!
