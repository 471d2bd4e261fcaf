//! The inventory of user data that an erasure removes, and the rules that
//! make an inventory acceptable.
use vstd::multiset::Multiset;
use vstd::prelude::*;

use crate::error::StorageError;
use crate::path::{is_absolute, normalized, path_segments, path_within, segments};
use crate::target_kind::{lemma_at_rank_of_rank, UserDataTargetKind, KIND_COUNT};
use crate::text::{chars_eq, chars_lt, chars_of, lemma_char_vec_deep_view, lemma_lex_irreflexive, lemma_lex_total, lemma_lex_transitive, lex_lt};

verus! {

broadcast use {lemma_char_vec_deep_view, vstd::seq_lib::group_to_multiset_ensures};

/// Where a target lives and how it is erased.
#[derive(Clone, Debug, PartialEq, Eq)]
pub enum UserDataTargetLocation {
    /// A file or directory that is quarantined and then removed.
    Filesystem(String),
    /// Data that only the native host can erase, by the named action.
    NativeAction { identifier: String },
    /// Data stored inside the filesystem target of another kind.
    CoveredBy { kind: UserDataTargetKind },
}

/// One piece of user data named by an inventory.
#[derive(Clone, Debug, PartialEq, Eq)]
pub struct UserDataTarget {
    pub kind: UserDataTargetKind,
    pub location: UserDataTargetLocation,
}

/// The mathematical form of a location.
pub enum LocationView {
    Filesystem(Seq<char>),
    NativeAction(Seq<char>),
    CoveredBy(UserDataTargetKind),
}

/// The mathematical form of a target.
pub struct TargetView {
    pub kind: UserDataTargetKind,
    pub location: LocationView,
}

impl View for UserDataTargetLocation {
    type V = LocationView;

    open spec fn view(&self) -> LocationView {
        match self {
            UserDataTargetLocation::Filesystem(p) => LocationView::Filesystem(p@),
            UserDataTargetLocation::NativeAction { identifier } => LocationView::NativeAction(identifier@),
            UserDataTargetLocation::CoveredBy { kind } => LocationView::CoveredBy(*kind),
        }
    }
}

impl View for UserDataTarget {
    type V = TargetView;

    open spec fn view(&self) -> TargetView {
        TargetView { kind: self.kind, location: self.location@ }
    }
}

/// The views of a sequence of targets.
pub open spec fn target_views(s: Seq<UserDataTarget>) -> Seq<TargetView> {
    s.map_values(|t: UserDataTarget| t@)
}

/// The text by which targets of one kind are ordered.
pub open spec fn location_key(l: LocationView) -> Seq<char> {
    match l {
        LocationView::Filesystem(p) => p,
        LocationView::NativeAction(id) => id,
        LocationView::CoveredBy(k) => "covered_by:"@ + k.wire(),
    }
}

/// Whether two targets share kind and ordering text.
pub open spec fn same_key(a: TargetView, b: TargetView) -> bool {
    a.kind == b.kind && location_key(a.location) == location_key(b.location)
}

/// Inventory order: by kind, then by ordering text.
pub open spec fn precedes(a: TargetView, b: TargetView) -> bool {
    a.kind.rank() < b.kind.rank() || (a.kind == b.kind && lex_lt(location_key(a.location), location_key(b.location)))
}

/// Every target strictly precedes every later one.
pub open spec fn strictly_ordered(s: Seq<TargetView>) -> bool {
    forall|i: int, j: int| 0 <= i < j < s.len() ==> #[trigger] precedes(s[i], s[j])
}

/// Inventory order is a strict total order on targets with different keys.
pub proof fn lemma_precedes_order(a: TargetView, b: TargetView, c: TargetView)
    ensures
        !precedes(a, a),
        !(precedes(a, b) && precedes(b, a)),
        !same_key(a, b) ==> (precedes(a, b) || precedes(b, a)),
        (precedes(a, b) && precedes(b, c)) ==> precedes(a, c),
        precedes(a, b) ==> !same_key(a, b),
{
    lemma_at_rank_of_rank(a.kind);
    lemma_at_rank_of_rank(b.kind);
    lemma_lex_irreflexive(location_key(a.location));
    lemma_lex_total(location_key(a.location), location_key(b.location));
    if precedes(a, b) && precedes(b, c) && a.kind == b.kind && b.kind == c.kind {
        lemma_lex_transitive(location_key(a.location), location_key(b.location), location_key(c.location));
    }
}

impl UserDataTarget {
    /// A target that lives at a filesystem path.
    pub fn filesystem(kind: UserDataTargetKind, path: String) -> (target: Self)
        ensures
            target@ == (TargetView { kind, location: LocationView::Filesystem(path@) }),
    {
        UserDataTarget { kind, location: UserDataTargetLocation::Filesystem(path) }
    }

    /// A target erased by a native action.
    pub fn native(kind: UserDataTargetKind, identifier: String) -> (target: Self)
        ensures
            target@ == (TargetView { kind, location: LocationView::NativeAction(identifier@) }),
    {
        UserDataTarget { kind, location: UserDataTargetLocation::NativeAction { identifier } }
    }

    /// A target stored inside the filesystem target of `covering_kind`.
    pub fn covered_by(kind: UserDataTargetKind, covering_kind: UserDataTargetKind) -> (target: Self)
        ensures
            target@ == (TargetView { kind, location: LocationView::CoveredBy(covering_kind) }),
    {
        UserDataTarget { kind, location: UserDataTargetLocation::CoveredBy { kind: covering_kind } }
    }

    /// The filesystem path of the target, if it has one.
    pub fn path(&self) -> (path: Option<&String>)
        ensures
            match self@.location {
                LocationView::Filesystem(p) => path matches Some(q) && q@ == p,
                _ => path is None,
            },
    {
        match &self.location {
            UserDataTargetLocation::Filesystem(path) => Some(path),
            UserDataTargetLocation::NativeAction { .. } => None,
            UserDataTargetLocation::CoveredBy { .. } => None,
        }
    }
}

} // verus!

verus! {

/// The view of an optional string.
pub open spec fn opt_view(o: Option<String>) -> Option<Seq<char>> {
    match o {
        Some(s) => Some(s@),
        None => None,
    }
}

/// The views of optional strings.
pub open spec fn option_views(s: Seq<Option<String>>) -> Seq<Option<Seq<char>>> {
    s.map_values(|o: Option<String>| opt_view(o))
}

/// The values of present options.
pub open spec fn unwrapped(s: Seq<Option<Seq<char>>>) -> Seq<Seq<char>> {
    s.map_values(|o: Option<Seq<char>>| o->0)
}

/// The roots under which filesystem targets may live: at least one, each
/// resolved to an absolute directory, no two the same directory.
pub open spec fn roots_acceptable(roots: Seq<Option<Seq<char>>>) -> bool {
    &&& roots.len() > 0
    &&& forall|i: int| 0 <= i < roots.len() ==> (#[trigger] roots[i] matches Some(r) && is_absolute(r))
    &&& forall|i: int, j: int|
        #![trigger roots[i], roots[j]]
        0 <= i < j < roots.len() ==> segments(roots[i]->0) != segments(roots[j]->0)
}

/// Whether a resolved path lies within one of the roots.
pub open spec fn within_some_root(r: Seq<char>, roots: Seq<Seq<char>>) -> bool {
    exists|j: int| 0 <= j < roots.len() && #[trigger] path_within(r, roots[j])
}

/// The resolution given for target `i`, if any.
pub open spec fn resolution_at(resolved: Seq<Option<Seq<char>>>, i: int) -> Option<Seq<char>> {
    if 0 <= i < resolved.len() {
        resolved[i]
    } else {
        None
    }
}

/// Whether a target's location agrees with its kind: a filesystem target of a
/// kind that is neither native nor covered, at a normalizable path that
/// resolves under a root; a native target naming its kind's action; a covered
/// target naming its kind's covering kind.
pub open spec fn placement_ok(t: TargetView, resolved: Option<Seq<char>>, roots: Seq<Seq<char>>) -> bool {
    match t.location {
        LocationView::Filesystem(p) => {
            &&& t.kind.native_identifier() is None
            &&& t.kind.covering() is None
            &&& normalized(p) is Some
            &&& resolved matches Some(r) && within_some_root(r, roots)
        },
        LocationView::NativeAction(id) => t.kind.native_identifier() == Some(id) && t.kind.covering() is None,
        LocationView::CoveredBy(k) => t.kind.covering() == Some(k),
    }
}

/// Only a kind that allows several targets appears more than once.
pub open spec fn kinds_respected(s: Seq<TargetView>) -> bool {
    forall|i: int, j: int|
        #![trigger s[i], s[j]]
        0 <= i < j < s.len() && s[i].kind == s[j].kind ==> s[i].kind.multiple_allowed()
}

/// The path of a filesystem location.
pub open spec fn fs_path(l: LocationView) -> Seq<char> {
    match l {
        LocationView::Filesystem(p) => p,
        _ => Seq::empty(),
    }
}

/// No two filesystem targets name the same path.
pub open spec fn paths_distinct(s: Seq<TargetView>) -> bool {
    forall|i: int, j: int|
        #![trigger s[i], s[j]]
        0 <= i < j < s.len() && s[i].location is Filesystem && s[j].location is Filesystem
            ==> segments(fs_path(s[i].location)) != segments(fs_path(s[j].location))
}

/// Some target has the kind.
pub open spec fn has_kind(s: Seq<TargetView>, k: UserDataTargetKind) -> bool {
    exists|i: int| 0 <= i < s.len() && s[i].kind == k
}

/// Every kind has a target.
pub open spec fn exhaustive(s: Seq<TargetView>) -> bool {
    forall|k: UserDataTargetKind| #[trigger] has_kind(s, k)
}

/// Every covered target's covering kind has only filesystem targets.
pub open spec fn coverings_on_filesystem(s: Seq<TargetView>) -> bool {
    forall|i: int, j: int|
        #![trigger s[i], s[j]]
        0 <= i < s.len() && 0 <= j < s.len() && s[i].location is CoveredBy
            && s[j].kind == s[i].location->CoveredBy_0 ==> s[j].location is Filesystem
}

/// The rules that an inventory must satisfy, for targets in any order.
pub open spec fn inventory_acceptable(
    s: Seq<TargetView>,
    roots: Seq<Option<Seq<char>>>,
    resolved: Seq<Option<Seq<char>>>,
) -> bool {
    &&& roots_acceptable(roots)
    &&& kinds_respected(s)
    &&& forall|i: int| 0 <= i < s.len() ==> placement_ok(#[trigger] s[i], resolution_at(resolved, i), unwrapped(roots))
    &&& paths_distinct(s)
    &&& exhaustive(s)
    &&& coverings_on_filesystem(s)
}

/// Collects the canonical roots, with their components; `None` when they are
/// not acceptable.
fn collect_roots(canonical: &Vec<Option<String>>) -> (out: Option<(Vec<String>, Vec<Vec<Vec<char>>>)>)
    ensures
        out is Some <==> roots_acceptable(option_views(canonical@)),
        out matches Some(pair) ==> {
            &&& pair.0@.map_values(|s: String| s@) == unwrapped(option_views(canonical@))
            &&& pair.1@.len() == pair.0@.len()
            &&& forall|i: int| 0 <= i < pair.1@.len() ==> #[trigger] pair.1@[i].deep_view() == segments(pair.0@[i]@)
        },
{
    let ghost views = option_views(canonical@);
    if canonical.len() == 0 {
        return None;
    }
    let mut strs: Vec<String> = Vec::new();
    let mut segs: Vec<Vec<Vec<char>>> = Vec::new();
    let mut i: usize = 0;
    while i < canonical.len()
        invariant
            views == option_views(canonical@),
            i <= canonical@.len(),
            strs@.len() == i,
            segs@.len() == i,
            forall|j: int| 0 <= j < i ==> (#[trigger] views[j] matches Some(r) && is_absolute(r)),
            forall|j: int| 0 <= j < i ==> #[trigger] strs@[j]@ == views[j]->0,
            forall|j: int| 0 <= j < i ==> #[trigger] segs@[j].deep_view() == segments(strs@[j]@),
            forall|a: int, b: int|
                #![trigger views[a], views[b]]
                0 <= a < b < i ==> segments(views[a]->0) != segments(views[b]->0),
        decreases canonical.len() - i,
    {
        assert(views[i as int] == opt_view(canonical@[i as int]));
        let root = match &canonical[i] {
            Some(r) => r,
            None => {
                return None;
            },
        };
        let chars = chars_of(root.as_str());
        if !crate::path::path_is_absolute(&chars) {
            return None;
        }
        let root_segs = path_segments(&chars);
        let mut j: usize = 0;
        while j < i
            invariant
                j <= i,
                i == segs@.len(),
                i == strs@.len(),
                i < canonical@.len(),
                views == option_views(canonical@),
                views[i as int] == Some(root@),
                forall|k: int| 0 <= k < i ==> #[trigger] strs@[k]@ == views[k]->0,
                root_segs.deep_view() == segments(root@),
                forall|k: int| 0 <= k < i ==> #[trigger] segs@[k].deep_view() == segments(strs@[k]@),
                forall|k: int| 0 <= k < j ==> segments(strs@[k]@) != segments(root@),
            decreases i - j,
        {
            if crate::path::segments_equal(&segs[j], &root_segs) {
                proof {
                    assert(segments(views[j as int]->0) == segments(views[i as int]->0));
                }
                return None;
            }
            j = j + 1;
        }
        assert forall|a: int| 0 <= a < i implies segments(views[a]->0) != segments(views[i as int]->0) by {
            assert(strs@[a]@ == views[a]->0);
        }
        strs.push(root.clone());
        segs.push(root_segs);
        i = i + 1;
    }
    assert(strs@.map_values(|s: String| s@) =~= unwrapped(views));
    Some((strs, segs))
}

} // verus!

verus! {

/// Whether only kinds that allow it appear more than once.
fn kinds_acceptable(targets: &Vec<UserDataTarget>) -> (ok: bool)
    ensures
        ok == kinds_respected(target_views(targets@)),
{
    let ghost s = target_views(targets@);
    let n = targets.len();
    let mut i: usize = 0;
    while i < n
        invariant
            n == targets@.len(),
            s == target_views(targets@),
            i <= n,
            forall|a: int, b: int|
                #![trigger s[a], s[b]]
                0 <= a < i && a < b < n && s[a].kind == s[b].kind ==> s[a].kind.multiple_allowed(),
        decreases n - i,
    {
        let mut j: usize = i + 1;
        while j < n
            invariant
                n == targets@.len(),
                s == target_views(targets@),
                i < n,
                i + 1 <= j <= n,
                forall|a: int, b: int|
                    #![trigger s[a], s[b]]
                    0 <= a < i && a < b < n && s[a].kind == s[b].kind ==> s[a].kind.multiple_allowed(),
                forall|b: int|
                    #![trigger s[b]]
                    i < b < j && s[i as int].kind == s[b].kind ==> s[i as int].kind.multiple_allowed(),
            decreases n - j,
        {
            if targets[i].kind == targets[j].kind && !targets[i].kind.allows_multiple_targets() {
                assert(s[i as int].kind == s[j as int].kind);
                return false;
            }
            j = j + 1;
        }
        i = i + 1;
    }
    true
}

/// Whether a target's location agrees with its kind and, for a filesystem
/// target, whether its resolution lies under one of the roots.
fn placement_acceptable(
    t: &UserDataTarget,
    resolved: &Option<String>,
    roots: Ghost<Seq<Seq<char>>>,
    root_segs: &Vec<Vec<Vec<char>>>,
) -> (ok: bool)
    requires
        root_segs@.len() == roots@.len(),
        forall|j: int| 0 <= j < roots@.len() ==> #[trigger] root_segs@[j].deep_view() == segments(roots@[j]),
        forall|j: int| 0 <= j < roots@.len() ==> is_absolute(#[trigger] roots@[j]),
    ensures
        ok == placement_ok(t@, opt_view(*resolved), roots@),
{
    match &t.location {
        UserDataTargetLocation::Filesystem(p) => {
            if t.kind.native_action_identifier().is_some() || t.kind.covering_kind().is_some() {
                return false;
            }
            let chars = chars_of(p.as_str());
            if !crate::path::is_normalizable(&chars) {
                return false;
            }
            let r = match resolved {
                Some(r) => r,
                None => {
                    return false;
                },
            };
            assert(opt_view(*resolved) == Some(r@));
            let rchars = chars_of(r.as_str());
            let rsegs = path_segments(&rchars);
            let mut j: usize = 0;
            while j < root_segs.len()
                invariant
                    j <= roots@.len(),
                    root_segs@.len() == roots@.len(),
                    rchars@ == r@,
                    rsegs.deep_view() == segments(r@),
                    opt_view(*resolved) == Some(r@),
                    normalized(p@) is Some,
                    t.kind.native_identifier() is None,
                    t.kind.covering() is None,
                    t@.location == LocationView::Filesystem(p@),
                    forall|k: int| 0 <= k < roots@.len() ==> #[trigger] root_segs@[k].deep_view() == segments(roots@[k]),
                    forall|k: int| 0 <= k < roots@.len() ==> is_absolute(#[trigger] roots@[k]),
                    forall|k: int| 0 <= k < j ==> !path_within(r@, #[trigger] roots@[k]),
                decreases root_segs.len() - j,
            {
                if crate::path::within(&rchars, &rsegs, Ghost(roots@[j as int]), &root_segs[j]) {
                    assert(path_within(r@, roots@[j as int]));
                    assert(within_some_root(r@, roots@));
                    assert(opt_view(*resolved) == Some(r@));
                    return true;
                }
                j = j + 1;
            }
            false
        },
        UserDataTargetLocation::NativeAction { identifier } => {
            if t.kind.covering_kind().is_some() {
                return false;
            }
            match t.kind.native_action_identifier() {
                Some(expected) => chars_eq(&chars_of(expected), &chars_of(identifier.as_str())),
                None => false,
            }
        },
        UserDataTargetLocation::CoveredBy { kind } => {
            match t.kind.covering_kind() {
                Some(covering) => covering == *kind,
                None => false,
            }
        },
    }
}

/// The components of a filesystem target's path.
fn fs_segments(t: &UserDataTarget) -> (segs: Option<Vec<Vec<char>>>)
    ensures
        segs is Some <==> t@.location is Filesystem,
        segs matches Some(v) ==> v.deep_view() == segments(fs_path(t@.location)),
{
    match &t.location {
        UserDataTargetLocation::Filesystem(p) => Some(path_segments(&chars_of(p.as_str()))),
        _ => None,
    }
}

/// Whether no two filesystem targets name the same path.
fn paths_acceptable(targets: &Vec<UserDataTarget>) -> (ok: bool)
    ensures
        ok == paths_distinct(target_views(targets@)),
{
    let ghost s = target_views(targets@);
    let n = targets.len();
    let mut i: usize = 0;
    while i < n
        invariant
            n == targets@.len(),
            s == target_views(targets@),
            i <= n,
            forall|a: int, b: int|
                #![trigger s[a], s[b]]
                0 <= a < i && a < b < n && s[a].location is Filesystem && s[b].location is Filesystem
                    ==> segments(fs_path(s[a].location)) != segments(fs_path(s[b].location)),
        decreases n - i,
    {
        if let Some(first) = fs_segments(&targets[i]) {
            let mut j: usize = i + 1;
            while j < n
                invariant
                    n == targets@.len(),
                    s == target_views(targets@),
                    i < n,
                    i + 1 <= j <= n,
                    s[i as int].location is Filesystem,
                    first.deep_view() == segments(fs_path(s[i as int].location)),
                    forall|a: int, b: int|
                        #![trigger s[a], s[b]]
                        0 <= a < i && a < b < n && s[a].location is Filesystem && s[b].location is Filesystem
                            ==> segments(fs_path(s[a].location)) != segments(fs_path(s[b].location)),
                    forall|b: int|
                        #![trigger s[b]]
                        i < b < j && s[b].location is Filesystem
                            ==> segments(fs_path(s[i as int].location)) != segments(fs_path(s[b].location)),
                decreases n - j,
            {
                if let Some(second) = fs_segments(&targets[j]) {
                    if crate::path::segments_equal(&first, &second) {
                        assert(s[j as int].location is Filesystem);
                        return false;
                    }
                }
                j = j + 1;
            }
        }
        i = i + 1;
    }
    true
}

/// Whether every kind has a target.
fn all_kinds_present(targets: &Vec<UserDataTarget>) -> (ok: bool)
    ensures
        ok == exhaustive(target_views(targets@)),
{
    let ghost s = target_views(targets@);
    let mut r: usize = 0;
    while r < KIND_COUNT
        invariant
            s == target_views(targets@),
            r <= KIND_COUNT,
            forall|q: nat| q < r ==> #[trigger] has_kind(s, UserDataTargetKind::at_rank(q)),
        decreases KIND_COUNT - r,
    {
        let k = UserDataTargetKind::ALL[r];
        assert(k == UserDataTargetKind::at_rank(r as nat));
        let mut found = false;
        let mut i: usize = 0;
        while i < targets.len()
            invariant
                s == target_views(targets@),
                i <= targets@.len(),
                found ==> has_kind(s, k),
                !found ==> forall|a: int| 0 <= a < i ==> #[trigger] s[a].kind != k,
            decreases targets.len() - i,
        {
            if targets[i].kind == k {
                assert(s[i as int].kind == k);
                found = true;
            }
            i = i + 1;
        }
        if !found {
            assert(!has_kind(s, k));
            return false;
        }
        r = r + 1;
    }
    assert forall|k: UserDataTargetKind| #[trigger] has_kind(s, k) by {
        crate::target_kind::lemma_at_rank_of_rank(k);
        assert(has_kind(s, UserDataTargetKind::at_rank(k.rank())));
    }
    true
}

/// Whether the targets of every covered target's covering kind are all
/// filesystem targets.
fn coverings_acceptable(targets: &Vec<UserDataTarget>) -> (ok: bool)
    ensures
        ok == coverings_on_filesystem(target_views(targets@)),
{
    let ghost s = target_views(targets@);
    let n = targets.len();
    let mut i: usize = 0;
    while i < n
        invariant
            n == targets@.len(),
            s == target_views(targets@),
            i <= n,
            forall|a: int, b: int|
                #![trigger s[a], s[b]]
                0 <= a < i && 0 <= b < n && s[a].location is CoveredBy
                    && s[b].kind == s[a].location->CoveredBy_0 ==> s[b].location is Filesystem,
        decreases n - i,
    {
        if let UserDataTargetLocation::CoveredBy { kind } = &targets[i].location {
            let covering = *kind;
            let mut j: usize = 0;
            while j < n
                invariant
                    n == targets@.len(),
                    s == target_views(targets@),
                    i < n,
                    j <= n,
                    s[i as int].location == LocationView::CoveredBy(covering),
                    forall|a: int, b: int|
                        #![trigger s[a], s[b]]
                        0 <= a < i && 0 <= b < n && s[a].location is CoveredBy
                            && s[b].kind == s[a].location->CoveredBy_0 ==> s[b].location is Filesystem,
                    forall|b: int| #![trigger s[b]] 0 <= b < j && s[b].kind == covering ==> s[b].location is Filesystem,
                decreases n - j,
            {
                let on_filesystem = match &targets[j].location {
                    UserDataTargetLocation::Filesystem(_) => true,
                    _ => false,
                };
                if targets[j].kind == covering && !on_filesystem {
                    assert(s[j as int].kind == covering);
                    return false;
                }
                j = j + 1;
            }
        }
        i = i + 1;
    }
    true
}

} // verus!

verus! {


/// The ordering text of a location.
fn key_of(l: &UserDataTargetLocation) -> (k: Vec<char>)
    ensures
        k@ == location_key(l@),
{
    match l {
        UserDataTargetLocation::Filesystem(p) => chars_of(p.as_str()),
        UserDataTargetLocation::NativeAction { identifier } => chars_of(identifier.as_str()),
        UserDataTargetLocation::CoveredBy { kind } => {
            crate::text::concat_chars(&chars_of("covered_by:"), &chars_of(kind.wire_name()))
        },
    }
}

/// Whether `a` comes before `b` in inventory order.
fn precedes_exec(a: &UserDataTarget, b: &UserDataTarget) -> (lt: bool)
    ensures
        lt == precedes(a@, b@),
{
    let ra = a.kind.rank_of();
    let rb = b.kind.rank_of();
    if ra < rb {
        return true;
    }
    if ra > rb {
        return false;
    }
    proof {
        lemma_at_rank_of_rank(a.kind);
        lemma_at_rank_of_rank(b.kind);
    }
    chars_lt(&key_of(&a.location), &key_of(&b.location))
}

/// Sorts targets with pairwise different keys into inventory order.
fn sort_targets(targets: Vec<UserDataTarget>) -> (sorted: Vec<UserDataTarget>)
    requires
        forall|i: int, j: int|
            #![trigger targets@[i], targets@[j]]
            0 <= i < j < targets@.len() ==> !same_key(targets@[i]@, targets@[j]@),
    ensures
        sorted@.to_multiset() == targets@.to_multiset(),
        strictly_ordered(target_views(sorted@)),
{
    let ghost given = targets@;
    let mut remaining = targets;
    let mut sorted: Vec<UserDataTarget> = Vec::new();
    assert(sorted@.to_multiset() =~= Multiset::empty());
    assert(sorted@.to_multiset().add(remaining@.to_multiset()) =~= given.to_multiset());
    while remaining.len() > 0
        invariant
            sorted@.to_multiset().add(remaining@.to_multiset()) == given.to_multiset(),
            forall|i: int, j: int|
                #![trigger sorted@[i], sorted@[j]]
                0 <= i < j < sorted@.len() ==> precedes(sorted@[i]@, sorted@[j]@),
            forall|i: int, j: int|
                #![trigger sorted@[i], remaining@[j]]
                0 <= i < sorted@.len() && 0 <= j < remaining@.len() ==> precedes(sorted@[i]@, remaining@[j]@),
            forall|i: int, j: int|
                #![trigger remaining@[i], remaining@[j]]
                0 <= i < j < remaining@.len() ==> !same_key(remaining@[i]@, remaining@[j]@),
        decreases remaining.len(),
    {
        let mut m: usize = 0;
        let mut i: usize = 1;
        while i < remaining.len()
            invariant
                0 <= m < i <= remaining@.len(),
                forall|a: int, b: int|
                    #![trigger remaining@[a], remaining@[b]]
                    0 <= a < b < remaining@.len() ==> !same_key(remaining@[a]@, remaining@[b]@),
                forall|j: int| #![trigger remaining@[j]] 0 <= j < i && j != m ==> precedes(remaining@[m as int]@, remaining@[j]@),
            decreases remaining.len() - i,
        {
            proof {
                lemma_precedes_order(remaining@[i as int]@, remaining@[m as int]@, remaining@[m as int]@);
                assert(!same_key(remaining@[m as int]@, remaining@[i as int]@));
            }
            if precedes_exec(&remaining[i], &remaining[m]) {
                proof {
                    assert forall|j: int| #![trigger remaining@[j]] 0 <= j < i + 1 && j != i implies precedes(remaining@[i as int]@, remaining@[j]@) by {
                        if j != m {
                            lemma_precedes_order(remaining@[i as int]@, remaining@[m as int]@, remaining@[j]@);
                        }
                    }
                }
                m = i;
            } else {
                proof {
                    lemma_precedes_order(remaining@[m as int]@, remaining@[i as int]@, remaining@[i as int]@);
                }
            }
            i = i + 1;
        }
        let ghost before_sorted = sorted@;
        let ghost before_remaining = remaining@;
        let x = remaining.remove(m);
        sorted.push(x);
        proof {
            assert(remaining@ == before_remaining.remove(m as int));
            assert(sorted@ == before_sorted.push(x));
            assert(before_remaining.to_multiset().count(x) > 0);
            assert(sorted@.to_multiset().add(remaining@.to_multiset()) =~= before_sorted.to_multiset().add(
                before_remaining.to_multiset(),
            ));
            assert forall|a: int, b: int|
                #![trigger sorted@[a], remaining@[b]]
                0 <= a < sorted@.len() && 0 <= b < remaining@.len() implies precedes(sorted@[a]@, remaining@[b]@) by {
                let ob = if b < m { b } else { b + 1 };
                assert(remaining@[b] == before_remaining[ob]);
                if a < before_sorted.len() {
                    assert(sorted@[a] == before_sorted[a]);
                } else {
                    assert(ob != m);
                }
            }
            assert forall|a: int, b: int|
                #![trigger sorted@[a], sorted@[b]]
                0 <= a < b < sorted@.len() implies precedes(sorted@[a]@, sorted@[b]@) by {
                if b < before_sorted.len() {
                    assert(sorted@[a] == before_sorted[a]);
                    assert(sorted@[b] == before_sorted[b]);
                } else {
                    assert(sorted@[a] == before_sorted[a]);
                    assert(sorted@[b] == before_remaining[m as int]);
                }
            }
            assert forall|a: int, b: int|
                #![trigger remaining@[a], remaining@[b]]
                0 <= a < b < remaining@.len() implies !same_key(remaining@[a]@, remaining@[b]@) by {
                let oa = if a < m { a } else { a + 1 };
                let ob = if b < m { b } else { b + 1 };
                assert(remaining@[a] == before_remaining[oa]);
                assert(remaining@[b] == before_remaining[ob]);
            }
        }
    }
    assert(remaining@.to_multiset() =~= Multiset::empty());
    assert(sorted@.to_multiset() =~= given.to_multiset());
    sorted
}

} // verus!

verus! {

/// Whether a target's location agrees with its kind: filesystem targets for
/// kinds that are neither native nor covered, at a normalizable path; native
/// targets naming their kind's action; covered targets naming their kind's
/// covering kind.
pub open spec fn kind_agrees(t: TargetView) -> bool {
    match t.location {
        LocationView::Filesystem(p) => t.kind.native_identifier() is None && t.kind.covering() is None
            && normalized(p) is Some,
        LocationView::NativeAction(id) => t.kind.native_identifier() == Some(id) && t.kind.covering() is None,
        LocationView::CoveredBy(k) => t.kind.covering() == Some(k),
    }
}

/// What every validated inventory satisfies.
pub open spec fn inventory_shape(s: Seq<TargetView>, roots: Seq<Seq<char>>) -> bool {
    &&& strictly_ordered(s)
    &&& kinds_respected(s)
    &&& paths_distinct(s)
    &&& exhaustive(s)
    &&& coverings_on_filesystem(s)
    &&& forall|i: int| 0 <= i < s.len() ==> kind_agrees(#[trigger] s[i])
    &&& roots.len() > 0
    &&& forall|i: int| 0 <= i < roots.len() ==> is_absolute(#[trigger] roots[i])
}

/// Whether a path found during recovery may be erased: it has a lexical
/// normal form and its resolution lies under one of the roots.
pub open spec fn recovery_path_acceptable(path: Seq<char>, resolved: Option<Seq<char>>, roots: Seq<Seq<char>>) -> bool {
    normalized(path) is Some && (resolved matches Some(r) && within_some_root(r, roots))
}

/// An inventory that passed validation: every kind present, each target
/// placed as its kind requires, in inventory order.
pub struct ValidatedUserDataInventory {
    targets: Vec<UserDataTarget>,
    roots: Vec<String>,
    resolutions: Ghost<Seq<Option<Seq<char>>>>,
}

/// Every target is placed as its kind requires, the `i`-th filesystem
/// target resolving (to `resolutions[i]`) under one of the roots.
pub open spec fn placements_hold(
    s: Seq<TargetView>,
    resolutions: Seq<Option<Seq<char>>>,
    roots: Seq<Seq<char>>,
) -> bool {
    &&& resolutions.len() == s.len()
    &&& forall|i: int| 0 <= i < s.len() ==> placement_ok(#[trigger] s[i], resolutions[i], roots)
}

/// The resolutions of targets put in another order: each target of `sorted`
/// takes the resolution that its place in `given` had.
pub open spec fn permuted_resolutions(
    given: Seq<UserDataTarget>,
    sorted: Seq<UserDataTarget>,
    resolved: Seq<Option<Seq<char>>>,
) -> Seq<Option<Seq<char>>> {
    Seq::new(
        sorted.len(),
        |i: int| resolution_at(resolved, choose|a: int| 0 <= a < given.len() && given[a] == sorted[i]),
    )
}

impl ValidatedUserDataInventory {
    /// The targets, in inventory order.
    pub closed spec fn target_seq(self) -> Seq<UserDataTarget> {
        self.targets@
    }

    /// The canonical roots that filesystem targets must lie under.
    pub closed spec fn root_paths(self) -> Seq<Seq<char>> {
        self.roots@.map_values(|r: String| r@)
    }

    /// Where each target resolved when the inventory was validated, in
    /// inventory order.
    pub closed spec fn resolution_seq(self) -> Seq<Option<Seq<char>>> {
        self.resolutions@
    }

    #[verifier::type_invariant]
    closed spec fn shape_holds(self) -> bool {
        &&& inventory_shape(target_views(self.targets@), self.root_paths())
        &&& placements_hold(target_views(self.targets@), self.resolutions@, self.root_paths())
    }

    /// Validates an inventory against canonical roots. `canonical_roots[i]`
    /// is the canonical directory that the i-th allowed root resolves to
    /// (`None` when it does not resolve to a directory); `resolved[i]` is
    /// where the normalized path of filesystem target `i` resolves to once
    /// its existing ancestor is canonicalized (`None` when that fails).
    /// The result holds the targets in inventory order.
    pub fn validate(
        targets: Vec<UserDataTarget>,
        canonical_roots: &Vec<Option<String>>,
        resolved: &Vec<Option<String>>,
    ) -> (result: Result<Self, StorageError>)
        ensures
            result is Ok <==> inventory_acceptable(
                target_views(targets@),
                option_views(canonical_roots@),
                option_views(resolved@),
            ),
            result matches Ok(inventory) ==> {
                &&& inventory.target_seq().to_multiset() == targets@.to_multiset()
                &&& strictly_ordered(target_views(inventory.target_seq()))
                &&& inventory.root_paths() == unwrapped(option_views(canonical_roots@))
            },
            result matches Err(e) ==> e == StorageError::CommandConflict,
    {
        let ghost s = target_views(targets@);
        let ghost roots_view = option_views(canonical_roots@);
        let ghost resolved_view = option_views(resolved@);
        let (root_strs, root_segs) = match collect_roots(canonical_roots) {
            Some(pair) => pair,
            None => {
                return Err(StorageError::CommandConflict);
            },
        };
        let ghost roots = unwrapped(roots_view);
        proof {
            assert forall|j: int| 0 <= j < roots.len() implies is_absolute(#[trigger] roots[j]) by {
                assert(roots_view[j] matches Some(r) && is_absolute(r));
            }
            assert forall|j: int| 0 <= j < roots.len() implies #[trigger] root_segs@[j].deep_view() == segments(roots[j]) by {
                assert(root_strs@.map_values(|s: String| s@)[j] == root_strs@[j]@);
            }
        }
        if !kinds_acceptable(&targets) {
            return Err(StorageError::CommandConflict);
        }
        let n = targets.len();
        let mut i: usize = 0;
        while i < n
            invariant
                n == targets@.len(),
                s == target_views(targets@),
                resolved_view == option_views(resolved@),
                roots_view == option_views(canonical_roots@),
                roots == unwrapped(roots_view),
                roots_acceptable(roots_view),
                kinds_respected(s),
                i <= n,
                root_segs@.len() == roots.len(),
                forall|j: int| 0 <= j < roots.len() ==> #[trigger] root_segs@[j].deep_view() == segments(roots[j]),
                forall|j: int| 0 <= j < roots.len() ==> is_absolute(#[trigger] roots[j]),
                forall|a: int| 0 <= a < i ==> placement_ok(#[trigger] s[a], resolution_at(resolved_view, a), roots),
            decreases n - i,
        {
            let none: Option<String> = None;
            let r = if i < resolved.len() { &resolved[i] } else { &none };
            assert(opt_view(*r) == resolution_at(resolved_view, i as int));
            if !placement_acceptable(&targets[i], r, Ghost(roots), &root_segs) {
                assert(!placement_ok(s[i as int], resolution_at(resolved_view, i as int), roots));
                return Err(StorageError::CommandConflict);
            }
            i = i + 1;
        }
        if !paths_acceptable(&targets) || !all_kinds_present(&targets) || !coverings_acceptable(&targets) {
            return Err(StorageError::CommandConflict);
        }
        assert(inventory_acceptable(s, roots_view, resolved_view));
        proof {
            lemma_acceptable_keys_distinct(s, roots_view, resolved_view);
            assert forall|a: int, b: int|
                #![trigger targets@[a], targets@[b]]
                0 <= a < b < targets@.len() implies !same_key(targets@[a]@, targets@[b]@) by {
                assert(s[a] == targets@[a]@ && s[b] == targets@[b]@);
            }
        }
        let ghost given = targets@;
        let sorted = sort_targets(targets);
        proof {
            lemma_permuted_shape(given, sorted@, roots_view, resolved_view);
        }
        let ghost resolutions = permuted_resolutions(given, sorted@, resolved_view);
        assert(root_strs@.map_values(|r: String| r@) == unwrapped(roots_view));
        assert(placements_hold(target_views(sorted@), resolutions, unwrapped(roots_view)));
        let inventory = ValidatedUserDataInventory { targets: sorted, roots: root_strs, resolutions: Ghost(resolutions) };
        Ok(inventory)
    }

    /// The targets, in inventory order.
    pub fn targets(&self) -> (targets: &[UserDataTarget])
        ensures
            targets@ == self.target_seq(),
            inventory_shape(target_views(targets@), self.root_paths()),
            placements_hold(target_views(targets@), self.resolution_seq(), self.root_paths()),
    {
        proof {
            use_type_invariant(self);
        }
        self.targets.as_slice()
    }

    /// Whether a path found during recovery may be erased: it has a lexical
    /// normal form and `resolved` (where that form resolves to) lies under
    /// one of the inventory's roots.
    pub fn validates_recovery_path(&self, path: &str, resolved: &Option<String>) -> (ok: bool)
        ensures
            ok == recovery_path_acceptable(path@, opt_view(*resolved), self.root_paths()),
    {
        proof {
            use_type_invariant(self);
        }
        let chars = chars_of(path);
        if !crate::path::is_normalizable(&chars) {
            return false;
        }
        let r = match resolved {
            Some(r) => r,
            None => {
                return false;
            },
        };
        let rchars = chars_of(r.as_str());
        let rsegs = path_segments(&rchars);
        let ghost roots = self.root_paths();
        let mut j: usize = 0;
        while j < self.roots.len()
            invariant
                roots == self.root_paths(),
                roots.len() == self.roots@.len(),
                j <= roots.len(),
                rchars@ == r@,
                rsegs.deep_view() == segments(r@),
                opt_view(*resolved) == Some(r@),
                normalized(path@) is Some,
                forall|k: int| 0 <= k < roots.len() ==> is_absolute(#[trigger] roots[k]),
                forall|k: int| 0 <= k < j ==> !path_within(r@, #[trigger] roots[k]),
            decreases self.roots.len() - j,
        {
            let base = chars_of(self.roots[j].as_str());
            assert(roots[j as int] == self.roots@[j as int]@);
            let base_segs = path_segments(&base);
            if crate::path::within(&rchars, &rsegs, Ghost(roots[j as int]), &base_segs) {
                assert(path_within(r@, roots[j as int]));
                return true;
            }
            j = j + 1;
        }
        false
    }
}

/// The order in which targets are listed does not matter: two inventories
/// in inventory order that hold the same targets list them identically.
pub proof fn lemma_inventory_order_unique(a: Seq<UserDataTarget>, b: Seq<UserDataTarget>)
    requires
        a.to_multiset() == b.to_multiset(),
        strictly_ordered(target_views(a)),
        strictly_ordered(target_views(b)),
    ensures
        a == b,
    decreases a.len(),
{
    a.to_multiset_ensures();
    b.to_multiset_ensures();
    if a.len() == 0 {
        assert(b.len() == 0);
        assert(a =~= b);
    } else {
        lemma_same_elements(a, b, a[0]);
        lemma_same_elements(a, b, b[0]);
        assert(a.contains(a[0]));
        assert(b.contains(b[0]));
        let p = choose|p: int| 0 <= p < b.len() && b[p] == a[0];
        let q = choose|q: int| 0 <= q < a.len() && a[q] == b[0];
        let ta = target_views(a);
        let tb = target_views(b);
        if p != 0 && q != 0 {
            assert(precedes(tb[0], tb[p]));
            assert(precedes(ta[0], ta[q]));
            lemma_precedes_order(ta[0], tb[0], tb[0]);
        }
        assert(a[0] == b[0]);
        assert(a.remove(0) =~= a.drop_first());
        assert(b.remove(0) =~= b.drop_first());
        assert(a.drop_first().to_multiset() =~= b.drop_first().to_multiset());
        assert(strictly_ordered(target_views(a.drop_first()))) by {
            assert forall|i: int, j: int| 0 <= i < j < a.drop_first().len() implies #[trigger] precedes(
                target_views(a.drop_first())[i],
                target_views(a.drop_first())[j],
            ) by {
                assert(precedes(ta[i + 1], ta[j + 1]));
            }
        }
        assert(strictly_ordered(target_views(b.drop_first()))) by {
            assert forall|i: int, j: int| 0 <= i < j < b.drop_first().len() implies #[trigger] precedes(
                target_views(b.drop_first())[i],
                target_views(b.drop_first())[j],
            ) by {
                assert(precedes(tb[i + 1], tb[j + 1]));
            }
        }
        lemma_inventory_order_unique(a.drop_first(), b.drop_first());
        assert(a.len() == b.len());
        assert forall|i: int| 0 <= i < a.len() implies a[i] == b[i] by {
            if i > 0 {
                assert(a[i] == a.drop_first()[i - 1]);
                assert(b[i] == b.drop_first()[i - 1]);
            }
        }
        assert(a =~= b);
    }
}

/// Targets of an acceptable inventory have pairwise different keys.
proof fn lemma_acceptable_keys_distinct(
    s: Seq<TargetView>,
    roots: Seq<Option<Seq<char>>>,
    resolved: Seq<Option<Seq<char>>>,
)
    requires
        inventory_acceptable(s, roots, resolved),
    ensures
        forall|i: int, j: int| #![trigger s[i], s[j]] 0 <= i < j < s.len() ==> !same_key(s[i], s[j]),
{
    assert forall|i: int, j: int| #![trigger s[i], s[j]] 0 <= i < j < s.len() implies !same_key(s[i], s[j]) by {
        if same_key(s[i], s[j]) {
            assert(placement_ok(s[i], resolution_at(resolved, i), unwrapped(roots)));
            assert(placement_ok(s[j], resolution_at(resolved, j), unwrapped(roots)));
            assert(s[i].kind.multiple_allowed());
            assert(s[i].location is Filesystem);
            assert(s[j].location is Filesystem);
        }
    }
}

/// A sequence and a permutation of it hold the same elements.
proof fn lemma_same_elements<T>(a: Seq<T>, b: Seq<T>, x: T)
    requires
        a.to_multiset() == b.to_multiset(),
    ensures
        a.contains(x) <==> b.contains(x),
{
    a.to_multiset_ensures();
    b.to_multiset_ensures();
    assert(a.contains(x) <==> a.to_multiset().count(x) > 0);
    assert(b.contains(x) <==> b.to_multiset().count(x) > 0);
}

/// An acceptable inventory, once put in inventory order, has the shape of a
/// validated inventory.
proof fn lemma_permuted_shape(
    given: Seq<UserDataTarget>,
    sorted: Seq<UserDataTarget>,
    roots: Seq<Option<Seq<char>>>,
    resolved: Seq<Option<Seq<char>>>,
)
    requires
        given.to_multiset() == sorted.to_multiset(),
        inventory_acceptable(target_views(given), roots, resolved),
        strictly_ordered(target_views(sorted)),
    ensures
        inventory_shape(target_views(sorted), unwrapped(roots)),
        placements_hold(target_views(sorted), permuted_resolutions(given, sorted, resolved), unwrapped(roots)),
{
    let s = target_views(given);
    let t = target_views(sorted);
    // Each element of `sorted` sits somewhere in `given`, and back.
    assert forall|i: int| 0 <= i < sorted.len() implies exists|a: int| 0 <= a < given.len() && given[a] == #[trigger] sorted[i] by {
        lemma_same_elements(given, sorted, sorted[i]);
        assert(sorted.contains(sorted[i]));
    }
    assert forall|a: int| 0 <= a < given.len() implies exists|i: int| 0 <= i < sorted.len() && sorted[i] == #[trigger] given[a] by {
        lemma_same_elements(given, sorted, given[a]);
        assert(given.contains(given[a]));
    }
    assert forall|i: int| 0 <= i < t.len() implies kind_agrees(#[trigger] t[i]) by {
        let a = choose|a: int| 0 <= a < given.len() && given[a] == sorted[i];
        assert(placement_ok(s[a], resolution_at(resolved, a), unwrapped(roots)));
        assert(s[a] == t[i]);
    }
    assert forall|i: int, j: int| #![trigger t[i], t[j]] 0 <= i < j < t.len() implies exists|a: int, b: int|
        0 <= a < given.len() && 0 <= b < given.len() && a != b && given[a] == sorted[i] && given[b] == sorted[j] by {
        let a = choose|a: int| 0 <= a < given.len() && given[a] == sorted[i];
        let b = choose|b: int| 0 <= b < given.len() && given[b] == sorted[j];
        lemma_precedes_order(t[i], t[j], t[j]);
        assert(precedes(t[i], t[j]));
        assert(a != b);
    }
    assert(kinds_respected(t)) by {
        assert forall|i: int, j: int| #![trigger t[i], t[j]] 0 <= i < j < t.len() && t[i].kind == t[j].kind implies t[i].kind.multiple_allowed() by {
            let (a, b) = choose|a: int, b: int|
                0 <= a < given.len() && 0 <= b < given.len() && a != b && given[a] == sorted[i] && given[b] == sorted[j];
            if a < b {
                assert(s[a] == t[i] && s[b] == t[j]);
            } else {
                assert(s[b] == t[j] && s[a] == t[i]);
            }
        }
    }
    assert(paths_distinct(t)) by {
        assert forall|i: int, j: int| #![trigger t[i], t[j]] 0 <= i < j < t.len() && t[i].location is Filesystem && t[j].location is Filesystem implies segments(fs_path(t[i].location)) != segments(fs_path(t[j].location)) by {
            let (a, b) = choose|a: int, b: int|
                0 <= a < given.len() && 0 <= b < given.len() && a != b && given[a] == sorted[i] && given[b] == sorted[j];
            if a < b {
                assert(s[a] == t[i] && s[b] == t[j]);
            } else {
                assert(s[b] == t[j] && s[a] == t[i]);
            }
        }
    }
    assert(exhaustive(t)) by {
        assert forall|k: UserDataTargetKind| #[trigger] has_kind(t, k) by {
            assert(has_kind(s, k));
            let a = choose|a: int| 0 <= a < s.len() && s[a].kind == k;
            let i = choose|i: int| 0 <= i < sorted.len() && sorted[i] == given[a];
            assert(t[i].kind == k);
        }
    }
    assert(coverings_on_filesystem(t)) by {
        assert forall|i: int, j: int| #![trigger t[i], t[j]] 0 <= i < t.len() && 0 <= j < t.len() && t[i].location is CoveredBy
            && t[j].kind == t[i].location->CoveredBy_0 implies t[j].location is Filesystem by {
            let a = choose|a: int| 0 <= a < given.len() && given[a] == sorted[i];
            let b = choose|b: int| 0 <= b < given.len() && given[b] == sorted[j];
            assert(s[a] == t[i] && s[b] == t[j]);
        }
    }
    let pr = permuted_resolutions(given, sorted, resolved);
    assert forall|i: int| 0 <= i < t.len() implies placement_ok(#[trigger] t[i], pr[i], unwrapped(roots)) by {
        let a = choose|a: int| 0 <= a < given.len() && given[a] == sorted[i];
        assert(placement_ok(s[a], resolution_at(resolved, a), unwrapped(roots)));
        assert(s[a] == t[i]);
        assert(pr[i] == resolution_at(resolved, a));
    }
    let r = unwrapped(roots);
    assert forall|i: int| 0 <= i < r.len() implies is_absolute(#[trigger] r[i]) by {
        assert(roots[i] matches Some(x) && is_absolute(x));
    }
}


/// An accepted inventory lists every kind but migration backup roots at
/// most once: two targets of one kind are both migration backup roots.
pub proof fn lemma_accepted_kinds_repeat_only_for_backups(
    s: Seq<TargetView>,
    roots: Seq<Option<Seq<char>>>,
    resolved: Seq<Option<Seq<char>>>,
    i: int,
    j: int,
)
    requires
        inventory_acceptable(s, roots, resolved),
        0 <= i < j < s.len(),
        s[i].kind == s[j].kind,
    ensures
        s[i].kind == UserDataTargetKind::MigrationBackupRoot,
{
    assert(s[i].kind.multiple_allowed());
    crate::target_kind::lemma_only_backup_roots_repeat(s[i].kind);
}

} // verus!
