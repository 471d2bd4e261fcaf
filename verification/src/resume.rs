//! Why an interrupted erasure always completes. The disk is modelled, per
//! marker target, by whether its source and its quarantined copy exist; a
//! disk that nothing else touches passes every evidence check. A state is
//! resumable when marker and disk agree as a run leaves them after any of
//! its steps; a run resumed from a resumable state never refuses, and once
//! the host has performed the native actions it ends with every target
//! removed.
use vstd::prelude::*;

use crate::erasure::{
    cleanup_step_for, first_marked_of_kind, quarantine_step_for, CleanupStep, QuarantineStep,
};
use crate::inventory::{has_kind, inventory_shape, kind_agrees, precedes, LocationView, TargetView};
use crate::marker::{planned_targets, ErasurePhase, EvidenceView, MarkerLocationView, MarkerTargetView, TargetState};
use crate::target_kind::UserDataTargetKind;

verus! {

/// A target agrees with the disk (`source`, `quarantined`: whether its
/// source and its quarantined copy exist) in the given phase.
pub open spec fn target_consistent(v: MarkerTargetView, phase: ErasurePhase, source: bool, quarantined: bool) -> bool {
    match v.location {
        MarkerLocationView::Filesystem { evidence, .. } => {
            let existed = evidence.existed;
            if phase == ErasurePhase::Quarantining {
                match v.state {
                    TargetState::Pending => (existed && source != quarantined) || (!existed && !source && !quarantined),
                    TargetState::Absent => !existed && !quarantined,
                    TargetState::Quarantined => existed && quarantined,
                    _ => false,
                }
            } else {
                match v.state {
                    TargetState::Absent => !existed && !quarantined,
                    TargetState::Quarantined => existed,
                    TargetState::Removed => !quarantined,
                    _ => false,
                }
            }
        },
        MarkerLocationView::CoveredBy(_) => if phase == ErasurePhase::Quarantining {
            v.state == TargetState::Pending || v.state == TargetState::Covered
        } else {
            v.state == TargetState::Covered || v.state == TargetState::Removed
        },
        MarkerLocationView::NativeAction { .. } => match phase {
            ErasurePhase::Quarantining => v.state == TargetState::Pending || v.state == TargetState::NativeAuthorized
                || v.state == TargetState::NativeCompleted,
            ErasurePhase::Recreating => v.state == TargetState::NativeAuthorized || v.state
                == TargetState::NativeCompleted,
            ErasurePhase::Cleaning => v.state == TargetState::NativeCompleted || v.state == TargetState::Removed,
        },
    }
}

/// Every covered target comes after the first target of its covering kind,
/// which is on the filesystem.
pub open spec fn coverings_precede(t: Seq<MarkerTargetView>) -> bool {
    forall|i: int| 0 <= i < t.len() ==> #[trigger] covering_precedes(t, i)
}

/// Target `i`, if covered, comes after the first target of its covering
/// kind, which is on the filesystem.
pub open spec fn covering_precedes(t: Seq<MarkerTargetView>, i: int) -> bool {
    match t[i].location {
        MarkerLocationView::CoveredBy(k) => match first_marked_of_kind(t, k, 0) {
            Some(c) => 0 <= c < i && t[c].location is Filesystem,
            None => false,
        },
        _ => true,
    }
}

/// Marker and disk agree as a run leaves them after any of its steps.
pub open spec fn resumable(t: Seq<MarkerTargetView>, phase: ErasurePhase, source: Seq<bool>, quarantined: Seq<bool>) -> bool {
    &&& source.len() == t.len()
    &&& quarantined.len() == t.len()
    &&& coverings_precede(t)
    &&& forall|i: int| 0 <= i < t.len() ==> target_consistent(#[trigger] t[i], phase, source[i], quarantined[i])
}

/// The target with another state.
pub open spec fn in_state(v: MarkerTargetView, state: TargetState) -> MarkerTargetView {
    MarkerTargetView { kind: v.kind, location: v.location, state }
}

/// Marker and disk after the quarantine step of target `i` is carried out.
pub open spec fn after_quarantine_step(
    t: Seq<MarkerTargetView>,
    source: Seq<bool>,
    quarantined: Seq<bool>,
    i: int,
    step: QuarantineStep,
) -> (Seq<MarkerTargetView>, Seq<bool>, Seq<bool>) {
    match step {
        QuarantineStep::Record(s) => (t.update(i, in_state(t[i], s)), source, quarantined),
        QuarantineStep::MoveIntoQuarantine => (
            t.update(i, in_state(t[i], TargetState::Quarantined)),
            source.update(i, false),
            quarantined.update(i, true),
        ),
        QuarantineStep::AdoptQuarantined => (t.update(i, in_state(t[i], TargetState::Quarantined)), source, quarantined),
        _ => (t, source, quarantined),
    }
}

/// The quarantine steps of targets `i` onward, in order: the marker and disk
/// they leave, or `None` if one of them refuses.
pub open spec fn quarantine_pass(t: Seq<MarkerTargetView>, source: Seq<bool>, quarantined: Seq<bool>, i: int) -> Option<
    (Seq<MarkerTargetView>, Seq<bool>, Seq<bool>),
>
    decreases t.len() - i,
{
    if i < 0 || i >= t.len() {
        Some((t, source, quarantined))
    } else {
        let step = quarantine_step_for(t, i, source[i], quarantined[i]);
        if step == QuarantineStep::Refuse {
            None
        } else {
            let next = after_quarantine_step(t, source, quarantined, i, step);
            quarantine_pass(next.0, next.1, next.2, i + 1)
        }
    }
}

/// Marker and disk after the cleanup step of target `i` is carried out.
pub open spec fn after_cleanup_step(t: Seq<MarkerTargetView>, quarantined: Seq<bool>, i: int, step: CleanupStep) -> (
    Seq<MarkerTargetView>,
    Seq<bool>,
) {
    match step {
        CleanupStep::RecordRemoved => (t.update(i, in_state(t[i], TargetState::Removed)), quarantined),
        CleanupStep::RemoveQuarantined => (
            t.update(i, in_state(t[i], TargetState::Removed)),
            quarantined.update(i, false),
        ),
        CleanupStep::Refuse => (t, quarantined),
    }
}

/// The cleanup steps of targets `i` onward, in order: the marker and disk
/// they leave, or `None` if one of them refuses.
pub open spec fn cleanup_pass(t: Seq<MarkerTargetView>, quarantined: Seq<bool>, i: int) -> Option<
    (Seq<MarkerTargetView>, Seq<bool>),
>
    decreases t.len() - i,
{
    if i < 0 || i >= t.len() {
        Some((t, quarantined))
    } else {
        let step = cleanup_step_for(t[i], quarantined[i]);
        if step == CleanupStep::Refuse {
            None
        } else {
            let next = after_cleanup_step(t, quarantined, i, step);
            cleanup_pass(next.0, next.1, i + 1)
        }
    }
}

/// The host performs every pending native action and reports success.
pub open spec fn natives_completed(t: Seq<MarkerTargetView>) -> Seq<MarkerTargetView> {
    t.map_values(
        |v: MarkerTargetView|
            if v.state == TargetState::NativeAuthorized {
                in_state(v, TargetState::NativeCompleted)
            } else {
                v
            },
    )
}

/// A run resumed from a marker and disk: the quarantine pass (while
/// quarantining), the host's native actions, then the cleanup pass. The
/// targets it leaves, or `None` if a step refuses.
pub open spec fn resumed_run(t: Seq<MarkerTargetView>, phase: ErasurePhase, source: Seq<bool>, quarantined: Seq<bool>) -> Option<
    Seq<MarkerTargetView>,
> {
    let first = if phase == ErasurePhase::Quarantining {
        quarantine_pass(t, source, quarantined, 0)
    } else {
        Some((t, source, quarantined))
    };
    match first {
        Some((t1, _, q1)) => match cleanup_pass(natives_completed(t1), q1, 0) {
            Some((t2, _)) => Some(t2),
            None => None,
        },
        None => None,
    }
}

/// Steps change states only: kinds and locations stay.
pub open spec fn same_places(a: Seq<MarkerTargetView>, b: Seq<MarkerTargetView>) -> bool {
    a.len() == b.len() && forall|j: int| 0 <= j < a.len() ==> (#[trigger] a[j]).kind == b[j].kind && a[j].location
        == b[j].location
}

/// The first target of a kind is found by kind alone.
proof fn lemma_first_marked_same_places(a: Seq<MarkerTargetView>, b: Seq<MarkerTargetView>, k: crate::target_kind::UserDataTargetKind, from: int)
    requires
        same_places(a, b),
    ensures
        first_marked_of_kind(a, k, from) == first_marked_of_kind(b, k, from),
    decreases a.len() - from,
{
    if 0 <= from < a.len() {
        assert(a[from].kind == b[from].kind);
        lemma_first_marked_same_places(a, b, k, from + 1);
    }
}

/// Coverings keep preceding when only states change.
proof fn lemma_coverings_precede_same_places(a: Seq<MarkerTargetView>, b: Seq<MarkerTargetView>)
    requires
        same_places(a, b),
        coverings_precede(a),
    ensures
        coverings_precede(b),
{
    assert forall|i: int| 0 <= i < b.len() implies #[trigger] covering_precedes(b, i) by {
        assert(covering_precedes(a, i));
        assert(a[i].location == b[i].location);
        if b[i].location is CoveredBy {
            lemma_first_marked_same_places(a, b, b[i].location->CoveredBy_0, 0);
            let c = first_marked_of_kind(a, a[i].location->CoveredBy_0, 0)->0;
            assert(a[c].location == b[c].location);
        }
    }
}

/// The first target of a kind has that kind.
proof fn lemma_first_marked_found(t: Seq<MarkerTargetView>, k: crate::target_kind::UserDataTargetKind, from: int)
    ensures
        first_marked_of_kind(t, k, from) matches Some(c) ==> from <= c < t.len() && t[c].kind == k,
    decreases t.len() - from,
{
    if 0 <= from < t.len() && t[from].kind != k {
        lemma_first_marked_found(t, k, from + 1);
    }
}

/// While quarantining, the step of target `i`, once every earlier target
/// has had its step, does not refuse and leaves marker and disk resumable.
pub proof fn lemma_quarantine_step_safe(t: Seq<MarkerTargetView>, source: Seq<bool>, quarantined: Seq<bool>, i: int)
    requires
        resumable(t, ErasurePhase::Quarantining, source, quarantined),
        0 <= i < t.len(),
        forall|j: int| 0 <= j < i ==> (#[trigger] t[j]).state != TargetState::Pending,
    ensures
        ({
            let step = quarantine_step_for(t, i, source[i], quarantined[i]);
            let next = after_quarantine_step(t, source, quarantined, i, step);
            &&& step != QuarantineStep::Refuse
            &&& resumable(next.0, ErasurePhase::Quarantining, next.1, next.2)
            &&& same_places(t, next.0)
            &&& forall|j: int| 0 <= j <= i ==> (#[trigger] next.0[j]).state != TargetState::Pending
        }),
{
    let step = quarantine_step_for(t, i, source[i], quarantined[i]);
    let next = after_quarantine_step(t, source, quarantined, i, step);
    assert(target_consistent(t[i], ErasurePhase::Quarantining, source[i], quarantined[i]));
    if t[i].location is CoveredBy {
        assert(covering_precedes(t, i));
        let k = t[i].location->CoveredBy_0;
        let c = first_marked_of_kind(t, k, 0)->0;
        lemma_first_marked_found(t, k, 0);
        assert(t[c].state != TargetState::Pending);
        assert(target_consistent(t[c], ErasurePhase::Quarantining, source[c], quarantined[c]));
    }
    assert(step != QuarantineStep::Refuse);
    assert(same_places(t, next.0));
    lemma_coverings_precede_same_places(t, next.0);
    assert forall|j: int| 0 <= j < next.0.len() implies target_consistent(
        #[trigger] next.0[j],
        ErasurePhase::Quarantining,
        next.1[j],
        next.2[j],
    ) by {
        assert(target_consistent(t[j], ErasurePhase::Quarantining, source[j], quarantined[j]));
    }
    assert forall|j: int| 0 <= j <= i implies (#[trigger] next.0[j]).state != TargetState::Pending by {
        if j < i {
            assert(t[j].state != TargetState::Pending);
        }
    }
}

/// While quarantining, the quarantine steps from target `i` on, once every
/// earlier target has had its step, never refuse: they leave marker and disk
/// resumable with no target pending.
pub proof fn lemma_quarantine_pass_completes(t: Seq<MarkerTargetView>, source: Seq<bool>, quarantined: Seq<bool>, i: int)
    requires
        resumable(t, ErasurePhase::Quarantining, source, quarantined),
        0 <= i <= t.len(),
        forall|j: int| 0 <= j < i ==> (#[trigger] t[j]).state != TargetState::Pending,
    ensures
        quarantine_pass(t, source, quarantined, i) matches Some(r) && resumable(
            r.0,
            ErasurePhase::Quarantining,
            r.1,
            r.2,
        ) && same_places(t, r.0) && forall|j: int| 0 <= j < r.0.len() ==> (#[trigger] r.0[j]).state
            != TargetState::Pending,
    decreases t.len() - i,
{
    if i < t.len() {
        lemma_quarantine_step_safe(t, source, quarantined, i);
        let step = quarantine_step_for(t, i, source[i], quarantined[i]);
        let next = after_quarantine_step(t, source, quarantined, i, step);
        lemma_quarantine_pass_completes(next.0, next.1, next.2, i + 1);
        let r = quarantine_pass(next.0, next.1, next.2, i + 1)->0;
        assert forall|j: int| 0 <= j < t.len() implies (#[trigger] t[j]).kind == r.0[j].kind && t[j].location
            == r.0[j].location by {
            assert(next.0[j].kind == r.0[j].kind && next.0[j].location == r.0[j].location);
        }
    }
}

/// Once no target is pending, quarantining may end: marker and disk agree
/// for recreating.
pub proof fn lemma_finish_quarantine_safe(t: Seq<MarkerTargetView>, source: Seq<bool>, quarantined: Seq<bool>)
    requires
        resumable(t, ErasurePhase::Quarantining, source, quarantined),
        forall|j: int| 0 <= j < t.len() ==> (#[trigger] t[j]).state != TargetState::Pending,
    ensures
        resumable(t, ErasurePhase::Recreating, source, quarantined),
{
    assert forall|j: int| 0 <= j < t.len() implies target_consistent(
        #[trigger] t[j],
        ErasurePhase::Recreating,
        source[j],
        quarantined[j],
    ) by {
        assert(target_consistent(t[j], ErasurePhase::Quarantining, source[j], quarantined[j]));
    }
}

/// The host completing native actions keeps marker and disk resumable and
/// leaves none pending.
pub proof fn lemma_natives_completed_safe(
    t: Seq<MarkerTargetView>,
    phase: ErasurePhase,
    source: Seq<bool>,
    quarantined: Seq<bool>,
)
    requires
        resumable(t, phase, source, quarantined),
    ensures
        resumable(natives_completed(t), phase, source, quarantined),
        same_places(t, natives_completed(t)),
        forall|j: int| 0 <= j < t.len() ==> (#[trigger] natives_completed(t)[j]).state != TargetState::NativeAuthorized,
{
    let u = natives_completed(t);
    assert(same_places(t, u));
    lemma_coverings_precede_same_places(t, u);
    assert forall|j: int| 0 <= j < u.len() implies target_consistent(#[trigger] u[j], phase, source[j], quarantined[j]) by {
        assert(target_consistent(t[j], phase, source[j], quarantined[j]));
    }
}

/// The host completing one native action keeps marker and disk resumable.
pub proof fn lemma_native_completion_safe(
    t: Seq<MarkerTargetView>,
    phase: ErasurePhase,
    source: Seq<bool>,
    quarantined: Seq<bool>,
    i: int,
)
    requires
        resumable(t, phase, source, quarantined),
        0 <= i < t.len(),
        t[i].state == TargetState::NativeAuthorized,
    ensures
        resumable(t.update(i, in_state(t[i], TargetState::NativeCompleted)), phase, source, quarantined),
{
    let u = t.update(i, in_state(t[i], TargetState::NativeCompleted));
    assert(same_places(t, u));
    lemma_coverings_precede_same_places(t, u);
    assert forall|j: int| 0 <= j < u.len() implies target_consistent(#[trigger] u[j], phase, source[j], quarantined[j]) by {
        assert(target_consistent(t[j], phase, source[j], quarantined[j]));
    }
}

/// With no native action pending, recreating the store ends recreating:
/// marker and disk agree for cleaning, whatever sources now exist.
pub proof fn lemma_recreate_safe(t: Seq<MarkerTargetView>, source: Seq<bool>, quarantined: Seq<bool>, recreated: Seq<bool>)
    requires
        resumable(t, ErasurePhase::Recreating, source, quarantined),
        recreated.len() == t.len(),
        forall|j: int| 0 <= j < t.len() ==> (#[trigger] t[j]).state != TargetState::NativeAuthorized,
    ensures
        resumable(t, ErasurePhase::Cleaning, recreated, quarantined),
{
    assert forall|j: int| 0 <= j < t.len() implies target_consistent(
        #[trigger] t[j],
        ErasurePhase::Cleaning,
        recreated[j],
        quarantined[j],
    ) by {
        assert(target_consistent(t[j], ErasurePhase::Recreating, source[j], quarantined[j]));
    }
}

/// While cleaning, the cleanup step of target `i` does not refuse and
/// leaves marker and disk resumable, target `i` removed.
pub proof fn lemma_cleanup_step_safe(t: Seq<MarkerTargetView>, source: Seq<bool>, quarantined: Seq<bool>, i: int)
    requires
        resumable(t, ErasurePhase::Cleaning, source, quarantined),
        0 <= i < t.len(),
    ensures
        ({
            let step = cleanup_step_for(t[i], quarantined[i]);
            let next = after_cleanup_step(t, quarantined, i, step);
            &&& step != CleanupStep::Refuse
            &&& resumable(next.0, ErasurePhase::Cleaning, source, next.1)
            &&& next.0 == t.update(i, in_state(t[i], TargetState::Removed))
        }),
{
    let step = cleanup_step_for(t[i], quarantined[i]);
    let next = after_cleanup_step(t, quarantined, i, step);
    assert(target_consistent(t[i], ErasurePhase::Cleaning, source[i], quarantined[i]));
    assert(step != CleanupStep::Refuse);
    assert(same_places(t, next.0));
    lemma_coverings_precede_same_places(t, next.0);
    assert forall|j: int| 0 <= j < next.0.len() implies target_consistent(
        #[trigger] next.0[j],
        ErasurePhase::Cleaning,
        source[j],
        next.1[j],
    ) by {
        assert(target_consistent(t[j], ErasurePhase::Cleaning, source[j], quarantined[j]));
    }
}

/// While cleaning, the cleanup steps from target `i` on, once every earlier
/// target is removed, never refuse and leave every target removed.
pub proof fn lemma_cleanup_pass_completes(t: Seq<MarkerTargetView>, source: Seq<bool>, quarantined: Seq<bool>, i: int)
    requires
        resumable(t, ErasurePhase::Cleaning, source, quarantined),
        0 <= i <= t.len(),
        forall|j: int| 0 <= j < i ==> (#[trigger] t[j]).state == TargetState::Removed,
    ensures
        cleanup_pass(t, quarantined, i) matches Some(r) && r.0.len() == t.len() && forall|j: int|
            0 <= j < r.0.len() ==> (#[trigger] r.0[j]).state == TargetState::Removed,
    decreases t.len() - i,
{
    if i < t.len() {
        lemma_cleanup_step_safe(t, source, quarantined, i);
        let step = cleanup_step_for(t[i], quarantined[i]);
        let next = after_cleanup_step(t, quarantined, i, step);
        assert forall|j: int| 0 <= j < i + 1 implies (#[trigger] next.0[j]).state == TargetState::Removed by {
            if j < i {
                assert(t[j].state == TargetState::Removed);
            }
        }
        lemma_cleanup_pass_completes(next.0, source, next.1, i + 1);
    }
}

/// An interrupted erasure always completes: from marker and disk as any
/// crash leaves them, the resumed run refuses no step, and once the host has
/// performed the native actions it ends with every target removed (the run
/// then finishes with the fresh store's identity, `run_step_for` at
/// `Cleaned(len)`).
pub proof fn lemma_resumed_erasure_completes(
    t: Seq<MarkerTargetView>,
    phase: ErasurePhase,
    source: Seq<bool>,
    quarantined: Seq<bool>,
)
    requires
        resumable(t, phase, source, quarantined),
    ensures
        resumed_run(t, phase, source, quarantined) matches Some(f) && f.len() == t.len() && forall|j: int|
            0 <= j < f.len() ==> (#[trigger] f[j]).state == TargetState::Removed,
{
    let (t1, s1, q1) = if phase == ErasurePhase::Quarantining {
        lemma_quarantine_pass_completes(t, source, quarantined, 0);
        let r = quarantine_pass(t, source, quarantined, 0)->0;
        lemma_finish_quarantine_safe(r.0, r.1, r.2);
        (r.0, r.1, r.2)
    } else {
        (t, source, quarantined)
    };
    let ph = if phase == ErasurePhase::Quarantining { ErasurePhase::Recreating } else { phase };
    assert(resumable(t1, ph, s1, q1));
    lemma_natives_completed_safe(t1, ph, s1, q1);
    let u = natives_completed(t1);
    if ph == ErasurePhase::Recreating {
        lemma_recreate_safe(u, s1, q1, s1);
    }
    lemma_cleanup_pass_completes(u, s1, q1, 0);
}

/// A covering kind comes before the kinds it covers.
proof fn lemma_covering_ranks_first(k: UserDataTargetKind)
    ensures
        k.covering() matches Some(c) ==> c.rank() < k.rank(),
{
}

/// A disk as an erasure finds it when it is prepared: each filesystem
/// target's source exists as its evidence records, no quarantined copy yet.
pub open spec fn prepared_disk(evidence: Seq<EvidenceView>) -> (Seq<bool>, Seq<bool>) {
    (Seq::new(evidence.len(), |i: int| evidence[i].existed), Seq::new(evidence.len(), |i: int| false))
}

/// A freshly prepared erasure is resumable: the marker built for a
/// validated inventory, over the disk its evidence describes, is a state
/// from which every run completes.
pub proof fn lemma_prepared_erasure_resumable(
    inventory: Seq<TargetView>,
    roots: Seq<Seq<char>>,
    quarantine_root: Seq<char>,
    operation: Seq<u8>,
    evidence: Seq<EvidenceView>,
)
    requires
        inventory_shape(inventory, roots),
        evidence.len() == inventory.len(),
    ensures
        ({
            let disk = prepared_disk(evidence);
            resumable(
                planned_targets(inventory, quarantine_root, operation, evidence),
                ErasurePhase::Quarantining,
                disk.0,
                disk.1,
            )
        }),
{
    let t = planned_targets(inventory, quarantine_root, operation, evidence);
    let disk = prepared_disk(evidence);
    assert forall|i: int| 0 <= i < t.len() implies #[trigger] covering_precedes(t, i) by {
        assert(kind_agrees(inventory[i]));
        if let LocationView::CoveredBy(k) = inventory[i].location {
            assert(t[i].location == MarkerLocationView::CoveredBy(k));
            lemma_covering_ranks_first(inventory[i].kind);
            assert(has_kind(inventory, k));
            let a = choose|a: int| 0 <= a < inventory.len() && inventory[a].kind == k;
            assert(t[a].kind == k);
            lemma_first_marked_found(t, k, 0);
            lemma_first_marked_exists(t, k, 0, a);
            let c = first_marked_of_kind(t, k, 0)->0;
            assert(t[c].kind == inventory[c].kind);
            assert(inventory[c].location is Filesystem);
            if c >= i {
                if c > i {
                    assert(precedes(inventory[i], inventory[c]));
                }
            }
        }
    }
    assert forall|i: int| 0 <= i < t.len() implies target_consistent(
        #[trigger] t[i],
        ErasurePhase::Quarantining,
        disk.0[i],
        disk.1[i],
    ) by {
        assert(kind_agrees(inventory[i]));
    }
}

/// A kind present from `from` on is found there.
proof fn lemma_first_marked_exists(t: Seq<MarkerTargetView>, k: UserDataTargetKind, from: int, at: int)
    requires
        0 <= from <= at < t.len(),
        t[at].kind == k,
    ensures
        first_marked_of_kind(t, k, from) is Some,
    decreases at - from,
{
    if t[from].kind != k {
        lemma_first_marked_exists(t, k, from + 1, at);
    }
}

} // verus!
