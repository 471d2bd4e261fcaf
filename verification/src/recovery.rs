//! Finding erasures that a crash interrupted, and checking that a marker
//! read back from disk describes the inventory it claims to erase.
use vstd::multiset::Multiset;
use vstd::prelude::*;
use vstd::utf8::encode_utf8;

use crate::error::StorageError;
use crate::ids::{hex_text, lemma_command_id_bytes, CommandId};
use crate::inventory::{
    fs_path, opt_view, recovery_path_acceptable, resolution_at, target_views, LocationView, TargetView,
    UserDataTarget, UserDataTargetLocation, ValidatedUserDataInventory,
};
use crate::marker::{
    marker_target_views, native_action_bytes, native_action_id, planned_targets, quarantine_name, quarantine_name_chars,
    ErasureMarker, EvidenceView, MarkerLocation, MarkerLocationView, MarkerTarget, MarkerTargetView, MARKER_VERSION,
};
use crate::projection::{parsed_json, projection_valid, validate_sanitized_application_state};
use crate::path::{join, join_path, parent_component, path_segments, paths_equal, same_path, segments};
use crate::target_kind::UserDataTargetKind;
use crate::text::{chars_eq, chars_lt, chars_of, concat_chars, lemma_char_vec_deep_view, lemma_lex_irreflexive, lemma_lex_transitive, lex_lt};

verus! {

broadcast use {vstd::seq_lib::group_to_multiset_ensures, lemma_char_vec_deep_view};

/// The text that opens the name of every marker file and quarantine directory.
pub open spec fn marker_prefix() -> Seq<char> {
    seq!['p', 'o', 'd', '0', '-', 'e', 'r', 'a', 's', 'u', 'r', 'e', '-']
}

/// The text that ends the name of a marker file.
pub open spec fn marker_suffix() -> Seq<char> {
    seq!['.', 'j', 's', 'o', 'n']
}

/// The text that ends the name of a quarantine directory.
pub open spec fn quarantine_suffix() -> Seq<char> {
    seq!['.', 'q', 'u', 'a', 'r', 'a', 'n', 't', 'i', 'n', 'e']
}

/// The marker prefix, for executable code.
pub const MARKER_PREFIX: [char; 13] = ['p', 'o', 'd', '0', '-', 'e', 'r', 'a', 's', 'u', 'r', 'e', '-'];

/// The marker suffix, for executable code.
pub const MARKER_SUFFIX: [char; 5] = ['.', 'j', 's', 'o', 'n'];

/// The quarantine suffix, for executable code.
pub const QUARANTINE_SUFFIX: [char; 11] = ['.', 'q', 'u', 'a', 'r', 'a', 'n', 't', 'i', 'n', 'e'];

/// `s` begins with `p`.
pub open spec fn starts_with(s: Seq<char>, p: Seq<char>) -> bool {
    s.len() >= p.len() && s.take(p.len() as int) == p
}

/// `s` ends with `p`.
pub open spec fn ends_with(s: Seq<char>, p: Seq<char>) -> bool {
    s.len() >= p.len() && s.skip(s.len() - p.len()) == p
}

/// A lowercase hexadecimal digit.
pub open spec fn is_lower_hex(c: char) -> bool {
    ('0' as int <= c as int <= '9' as int) || ('a' as int <= c as int <= 'f' as int)
}

/// A name with the marker prefix and the marker suffix.
pub open spec fn marker_shaped(name: Seq<char>) -> bool {
    starts_with(name, marker_prefix()) && ends_with(name, marker_suffix())
}

/// What stands between the marker prefix and the marker suffix.
pub open spec fn marker_identity(name: Seq<char>) -> Seq<char> {
    name.subrange(13, name.len() - 5)
}

/// An operation identity as a marker name writes it: 32 lowercase hex digits.
pub open spec fn identity_well_formed(identity: Seq<char>) -> bool {
    identity.len() == 32 && forall|i: int| 0 <= i < identity.len() ==> is_lower_hex(#[trigger] identity[i])
}

/// How a directory entry of the recovery root is read.
#[derive(Clone, Copy, Debug, PartialEq, Eq, Structural)]
pub enum MarkerNameKind {
    /// Not a marker file; it is left alone.
    Unrelated,
    /// The marker file of an interrupted erasure.
    Marker,
    /// Shaped like a marker file but without a valid identity.
    Malformed,
}

/// How a directory entry named `name` is read.
pub open spec fn marker_name_kind(name: Seq<char>) -> MarkerNameKind {
    if !marker_shaped(name) {
        MarkerNameKind::Unrelated
    } else if identity_well_formed(marker_identity(name)) {
        MarkerNameKind::Marker
    } else {
        MarkerNameKind::Malformed
    }
}

/// Whether the characters begin with the prefix.
fn chars_start_with(s: &[char], p: &[char]) -> (found: bool)
    ensures
        found == starts_with(s@, p@),
{
    if s.len() < p.len() {
        return false;
    }
    let mut i: usize = 0;
    while i < p.len()
        invariant
            s@.len() >= p@.len(),
            i <= p@.len(),
            forall|j: int| 0 <= j < i ==> s@[j] == p@[j],
        decreases p.len() - i,
    {
        if s[i] != p[i] {
            assert(s@.take(p@.len() as int)[i as int] != p@[i as int]);
            return false;
        }
        i = i + 1;
    }
    assert(s@.take(p@.len() as int) =~= p@);
    true
}

/// Whether the characters end with the suffix.
fn chars_end_with(s: &[char], p: &[char]) -> (found: bool)
    ensures
        found == ends_with(s@, p@),
{
    if s.len() < p.len() {
        return false;
    }
    let start = s.len() - p.len();
    let mut k: usize = start;
    while k < s.len()
        invariant
            s@.len() >= p@.len(),
            start == s@.len() - p@.len(),
            start <= k <= s@.len(),
            forall|j: int| start <= j < k ==> s@[j] == p@[j - start],
        decreases s.len() - k,
    {
        if s[k] != p[k - start] {
            assert(s@.skip(start as int)[k - start] != p@[k - start]);
            return false;
        }
        k = k + 1;
    }
    assert(s@.skip(start as int) =~= p@);
    true
}

/// Reads a directory entry of the recovery root: a marker file, a name
/// shaped like one without a valid identity, or something unrelated.
#[verifier::loop_isolation(false)]
pub fn classify_marker_name(name: &str) -> (kind: MarkerNameKind)
    ensures
        kind == marker_name_kind(name@),
{
    let n = chars_of(name);
    assert(MARKER_PREFIX@ == marker_prefix());
    assert(MARKER_SUFFIX@ == marker_suffix());
    if !chars_start_with(&n, &MARKER_PREFIX) || !chars_end_with(&n, &MARKER_SUFFIX) {
        return MarkerNameKind::Unrelated;
    }
    if n.len() < 18 {
        // The prefix ends with '-', which no character of the suffix is.
        let ghost k = n@.len() - 5;
        assert(n@.take(13)[12] == '-');
        assert(n@.skip(k)[12 - k] == marker_suffix()[12 - k]);
        assert(false);
    }
    let end = n.len() - 5;
    if end - 13 != 32 {
        return MarkerNameKind::Malformed;
    }
    let mut i: usize = 13;
    while i < end
        invariant
            n@ == name@,
            13 <= i <= end,
            end == n@.len() - 5,
            end - 13 == 32,
            forall|j: int| 13 <= j < i ==> is_lower_hex(#[trigger] n@[j]),
        decreases end - i,
    {
        let c = n[i];
        if !(('0' <= c && c <= '9') || ('a' <= c && c <= 'f')) {
            assert(marker_identity(n@)[i - 13] == c);
            assert(!is_lower_hex(c));
            return MarkerNameKind::Malformed;
        }
        i = i + 1;
    }
    assert forall|j: int| 0 <= j < marker_identity(n@).len() implies is_lower_hex(#[trigger] marker_identity(n@)[j]) by {
        assert(marker_identity(n@)[j] == n@[j + 13]);
    }
    MarkerNameKind::Marker
}

/// The names, among `names`, of marker files, as a multiset.
pub open spec fn marker_names(names: Seq<String>) -> Multiset<String>
    decreases names.len(),
{
    if names.len() == 0 {
        Multiset::empty()
    } else {
        let earlier = marker_names(names.drop_last());
        if marker_name_kind(names.last()@) == MarkerNameKind::Marker {
            earlier.insert(names.last())
        } else {
            earlier
        }
    }
}

/// Names in ascending order (byte order of their UTF-8 text, which is the
/// order of their characters).
pub open spec fn names_ascending(names: Seq<String>) -> bool {
    forall|i: int, j: int| #![trigger names[i], names[j]] 0 <= i < j < names.len() ==> !lex_lt(names[j]@, names[i]@)
}

/// Sorts names into ascending order.
pub fn sort_names(names: Vec<String>) -> (sorted: Vec<String>)
    ensures
        sorted@.to_multiset() == names@.to_multiset(),
        names_ascending(sorted@),
{
    let ghost given = names@;
    let mut remaining = names;
    let mut sorted: Vec<String> = Vec::new();
    assert(sorted@.to_multiset() =~= Multiset::empty());
    assert(sorted@.to_multiset().add(remaining@.to_multiset()) =~= given.to_multiset());
    while remaining.len() > 0
        invariant
            sorted@.to_multiset().add(remaining@.to_multiset()) == given.to_multiset(),
            names_ascending(sorted@),
            forall|i: int, j: int|
                #![trigger sorted@[i], remaining@[j]]
                0 <= i < sorted@.len() && 0 <= j < remaining@.len() ==> !lex_lt(remaining@[j]@, sorted@[i]@),
        decreases remaining.len(),
    {
        let mut m: usize = 0;
        let mut i: usize = 1;
        proof {
            lemma_lex_irreflexive(remaining@[0]@);
        }
        while i < remaining.len()
            invariant
                0 <= m < i <= remaining@.len(),
                forall|j: int| #![trigger remaining@[j]] 0 <= j < i ==> !lex_lt(remaining@[j]@, remaining@[m as int]@),
            decreases remaining.len() - i,
        {
            let a = chars_of(remaining[i].as_str());
            let b = chars_of(remaining[m].as_str());
            if chars_lt(&a, &b) {
                proof {
                    assert forall|j: int| #![trigger remaining@[j]] 0 <= j < i + 1 implies !lex_lt(remaining@[j]@, remaining@[i as int]@) by {
                        if j == i {
                            lemma_lex_irreflexive(remaining@[j]@);
                        } else if lex_lt(remaining@[j]@, remaining@[i as int]@) {
                            lemma_lex_transitive(remaining@[j]@, remaining@[i as int]@, remaining@[m as int]@);
                        }
                    }
                }
                m = i;
            }
            i = i + 1;
        }
        let ghost before_sorted = sorted@;
        let ghost before_remaining = remaining@;
        let x = remaining.remove(m);
        sorted.push(x);
        proof {
            assert(remaining@ == before_remaining.remove(m as int));
            assert(sorted@ == before_sorted.push(x));
            assert(before_remaining.to_multiset().count(x) > 0);
            assert(sorted@.to_multiset().add(remaining@.to_multiset()) =~= before_sorted.to_multiset().add(
                before_remaining.to_multiset(),
            ));
            assert forall|a: int, b: int|
                #![trigger sorted@[a], remaining@[b]]
                0 <= a < sorted@.len() && 0 <= b < remaining@.len() implies !lex_lt(remaining@[b]@, sorted@[a]@) by {
                let ob = if b < m { b } else { b + 1 };
                assert(remaining@[b] == before_remaining[ob]);
                if a < before_sorted.len() {
                    assert(sorted@[a] == before_sorted[a]);
                }
            }
            assert forall|a: int, b: int|
                #![trigger sorted@[a], sorted@[b]]
                0 <= a < b < sorted@.len() implies !lex_lt(sorted@[b]@, sorted@[a]@) by {
                assert(sorted@[a] == before_sorted[a]);
                if b < before_sorted.len() {
                    assert(sorted@[b] == before_sorted[b]);
                } else {
                    assert(sorted@[b] == before_remaining[m as int]);
                }
            }
        }
    }
    assert(remaining@.to_multiset() =~= Multiset::empty());
    assert(sorted@.to_multiset() =~= given.to_multiset());
    sorted
}

/// The marker files among the entries of the recovery root, in ascending
/// order. Fails if an entry is shaped like a marker file without a valid
/// identity: the recovery root then holds something this store did not
/// write.
#[verifier::loop_isolation(false)]
pub fn pending_user_data_erasure_markers(names: Vec<String>) -> (result: Result<Vec<String>, StorageError>)
    ensures
        result is Err <==> exists|i: int|
            0 <= i < names@.len() && marker_name_kind(#[trigger] names@[i]@) == MarkerNameKind::Malformed,
        result matches Err(e) ==> e == StorageError::CommandConflict,
        result matches Ok(found) ==> {
            &&& found@.to_multiset() == marker_names(names@)
            &&& names_ascending(found@)
        },
{
    let ghost given = names@;
    let mut found: Vec<String> = Vec::new();
    let mut rest = names;
    let mut i: usize = 0;
    let n = rest.len();
    while i < n
        invariant
            n == given.len(),
            rest@.len() == n - i,
            i <= n,
            forall|j: int| 0 <= j < rest@.len() ==> rest@[j] == given[i + j],
            found@.to_multiset() == marker_names(given.take(i as int)),
            forall|j: int| 0 <= j < i ==> marker_name_kind(#[trigger] given[j]@) != MarkerNameKind::Malformed,
        decreases n - i,
    {
        let name = rest.remove(0);
        assert(name == given[i as int]);
        assert(given.take(i + 1).drop_last() == given.take(i as int));
        match classify_marker_name(name.as_str()) {
            MarkerNameKind::Malformed => {
                assert(marker_name_kind(given[i as int]@) == MarkerNameKind::Malformed);
                return Err(StorageError::CommandConflict);
            },
            MarkerNameKind::Marker => {
                found.push(name);
            },
            MarkerNameKind::Unrelated => {},
        }
        i = i + 1;
    }
    assert(given.take(n as int) == given);
    Ok(sort_names(found))
}

/// The name of the marker file of an operation.
pub open spec fn marker_file_name(operation: Seq<u8>) -> Seq<char> {
    marker_prefix() + hex_text(operation) + marker_suffix()
}

/// The name of the quarantine directory of an operation.
pub open spec fn quarantine_dir_name(operation: Seq<u8>) -> Seq<char> {
    marker_prefix() + hex_text(operation) + quarantine_suffix()
}

/// Where, inside the recovery root, an operation keeps its marker file and
/// its quarantine directory.
pub fn erasure_paths(recovery_root: &str, operation_id: CommandId) -> (paths: (String, String))
    ensures
        paths.0@ == join_path(recovery_root@, marker_file_name(operation_id.bytes_of())),
        paths.1@ == join_path(recovery_root@, quarantine_dir_name(operation_id.bytes_of())),
{
    assert(MARKER_PREFIX@ == marker_prefix());
    assert(MARKER_SUFFIX@ == marker_suffix());
    assert(QUARANTINE_SUFFIX@ == quarantine_suffix());
    let bytes = operation_id.into_bytes();
    let identity = crate::ids::hex_chars(&bytes);
    let stem = concat_chars(&MARKER_PREFIX, &identity);
    let marker_name = concat_chars(&stem, &MARKER_SUFFIX);
    let quarantine_name = concat_chars(&stem, &QUARANTINE_SUFFIX);
    (join(recovery_root, &marker_name), join(recovery_root, &quarantine_name))
}

/// The marker file that an erasure writes is found again by recovery: its
/// name is read as a marker, whose identity is the operation's hex text.
pub proof fn lemma_marker_file_name_listed(operation: Seq<u8>)
    requires
        operation.len() == 16,
    ensures
        marker_name_kind(marker_file_name(operation)) == MarkerNameKind::Marker,
        marker_identity(marker_file_name(operation)) == hex_text(operation),
{
    let name = marker_file_name(operation);
    let h = hex_text(operation);
    assert(name.take(13) =~= marker_prefix());
    assert(name.skip(name.len() - 5) =~= marker_suffix());
    assert(marker_identity(name) =~= h);
    assert forall|i: int| 0 <= i < h.len() implies is_lower_hex(#[trigger] h[i]) by {
        let b = operation[i / 2];
        assert(0 <= b / 16 < 16);
        assert(0 <= b % 16 < 16);
    }
}

/// Each operation has its own marker file and quarantine directory: the
/// names of different operations differ.
pub proof fn lemma_erasure_names_distinct(a: Seq<u8>, b: Seq<u8>)
    requires
        a != b,
    ensures
        marker_file_name(a) != marker_file_name(b),
        quarantine_dir_name(a) != quarantine_dir_name(b),
{
    let (ha, hb) = (hex_text(a), hex_text(b));
    assert(marker_prefix().len() == 13 && marker_suffix().len() == 5 && quarantine_suffix().len() == 11);
    assert(marker_file_name(a).len() == 18 + ha.len() && marker_file_name(b).len() == 18 + hb.len());
    assert(quarantine_dir_name(a).len() == 24 + ha.len() && quarantine_dir_name(b).len() == 24 + hb.len());
    if marker_file_name(a) == marker_file_name(b) {
        let n = marker_file_name(a);
        assert(n.subrange(13, 13 + ha.len() as int) =~= ha);
        assert(marker_file_name(b).subrange(13, 13 + hb.len() as int) =~= hb);
        assert(ha.len() == hb.len());
        crate::ids::lemma_hex_text_injective(a, b);
    }
    if quarantine_dir_name(a) == quarantine_dir_name(b) {
        let n = quarantine_dir_name(a);
        assert(n.subrange(13, 13 + ha.len() as int) =~= ha);
        assert(quarantine_dir_name(b).subrange(13, 13 + hb.len() as int) =~= hb);
        assert(ha.len() == hb.len());
        crate::ids::lemma_hex_text_injective(a, b);
    }
}

/// The last named component of a path, as `Path::file_name` reads it: none
/// when the path has no component or ends in `..`.
pub open spec fn file_name(p: Seq<char>) -> Option<Seq<char>> {
    let s = segments(p);
    if s.len() > 0 && s.last() != parent_component() {
        Some(s.last())
    } else {
        None
    }
}

/// The last named component of a path.
fn path_file_name(p: &str) -> (name: Option<Vec<char>>)
    ensures
        match name {
            Some(n) => file_name(p@) == Some(n@),
            None => file_name(p@) is None,
        },
{
    let chars = chars_of(p);
    let segs = path_segments(&chars);
    if segs.len() == 0 {
        return None;
    }
    let last = segs.len() - 1;
    assert(segs.deep_view()[last as int] == segs@[last as int]@);
    let mut dots: Vec<char> = Vec::new();
    dots.push('.');
    dots.push('.');
    assert(dots@ == parent_component());
    if chars_eq(&segs[last], &dots) {
        return None;
    }
    let copy = concat_chars(&segs[last], &Vec::new());
    assert(copy@ =~= segs@[last as int]@);
    Some(copy)
}

/// The suffix that names the schema-backup namespace.
pub open spec fn schema_backup_suffix() -> Seq<char> {
    seq!['.', 's', 'c', 'h', 'e', 'm', 'a', '-', 'b', 'a', 'c', 'k', 'u', 'p']
}

/// The suffix that names the clip-backup namespace.
pub open spec fn clips_backup_suffix() -> Seq<char> {
    seq!['.', 'c', 'l', 'i', 'p', 's', '-', 'b', 'a', 'c', 'k', 'u', 'p']
}

/// The schema-backup suffix, for executable code.
pub const SCHEMA_BACKUP_SUFFIX: [char; 14] = ['.', 's', 'c', 'h', 'e', 'm', 'a', '-', 'b', 'a', 'c', 'k', 'u', 'p'];

/// The clip-backup suffix, for executable code.
pub const CLIPS_BACKUP_SUFFIX: [char; 13] = ['.', 'c', 'l', 'i', 'p', 's', '-', 'b', 'a', 'c', 'k', 'u', 'p'];

/// An ASCII decimal digit.
pub open spec fn is_ascii_digit(c: char) -> bool {
    '0' as int <= c as int <= '9' as int
}

/// An ASCII letter or digit, or `-`.
pub open spec fn is_clip_char(c: char) -> bool {
    ||| is_ascii_digit(c)
    ||| 'a' as int <= c as int <= 'z' as int
    ||| 'A' as int <= c as int <= 'Z' as int
    ||| c == '-'
}

/// A versioned schema backup beside the backup root `base`: named
/// `<base>-v<digits>`, where `base` ends with `.schema-backup`.
pub open spec fn valid_versioned_schema_backup(name: Seq<char>, base: Seq<char>) -> bool {
    &&& ends_with(base, schema_backup_suffix())
    &&& starts_with(name, base + seq!['-', 'v'])
    &&& name.len() > base.len() + 2
    &&& forall|i: int| base.len() + 2 <= i < name.len() ==> is_ascii_digit(#[trigger] name[i])
}

/// A clip backup beside the backup root `base`: named `<base>-<suffix>`,
/// the suffix made of ASCII letters, digits and `-`, where `base` ends with
/// `.clips-backup`.
pub open spec fn valid_clip_backup(name: Seq<char>, base: Seq<char>) -> bool {
    &&& ends_with(base, clips_backup_suffix())
    &&& starts_with(name, base + seq!['-'])
    &&& name.len() > base.len() + 1
    &&& forall|i: int| base.len() + 1 <= i < name.len() ==> is_clip_char(#[trigger] name[i])
}

/// Whether every character of `name` from `start` on satisfies the rule
/// (digits only when `digits`, else clip characters), and there is one.
fn tail_chars_valid(name: &[char], start: usize, digits: bool) -> (ok: bool)
    ensures
        ok == (name@.len() > start && forall|i: int|
            start <= i < name@.len() ==> if digits {
                is_ascii_digit(#[trigger] name@[i])
            } else {
                is_clip_char(name@[i])
            }),
{
    if name.len() <= start {
        return false;
    }
    let mut i: usize = start;
    while i < name.len()
        invariant
            start <= i <= name@.len(),
            forall|j: int|
                start <= j < i ==> if digits {
                    is_ascii_digit(#[trigger] name@[j])
                } else {
                    is_clip_char(name@[j])
                },
        decreases name.len() - i,
    {
        let c = name[i];
        let digit = '0' <= c && c <= '9';
        let fine = if digits {
            digit
        } else {
            digit || ('a' <= c && c <= 'z') || ('A' <= c && c <= 'Z') || c == '-'
        };
        if !fine {
            return false;
        }
        i = i + 1;
    }
    true
}

/// Whether `name` is a versioned schema backup or a clip backup beside the
/// backup root `base`.
fn backup_name_valid(name: &[char], base: &[char]) -> (ok: bool)
    ensures
        ok == (valid_versioned_schema_backup(name@, base@) || valid_clip_backup(name@, base@)),
{
    assert(SCHEMA_BACKUP_SUFFIX@ == schema_backup_suffix());
    assert(CLIPS_BACKUP_SUFFIX@ == clips_backup_suffix());
    let mut v: Vec<char> = Vec::new();
    v.push('-');
    v.push('v');
    assert(v@ =~= seq!['-', 'v']);
    let mut d: Vec<char> = Vec::new();
    d.push('-');
    assert(d@ =~= seq!['-']);
    let mut versioned = false;
    if chars_end_with(base, &SCHEMA_BACKUP_SUFFIX) && chars_start_with(name, &concat_chars(base, &v)) {
        let name_len = name.len();
        assert(name_len >= base@.len() + 2);
        versioned = tail_chars_valid(name, base.len() + 2, true);
    }
    let mut clip = false;
    if chars_end_with(base, &CLIPS_BACKUP_SUFFIX) && chars_start_with(name, &concat_chars(base, &d)) {
        let name_len = name.len();
        assert(name_len >= base@.len() + 1);
        clip = tail_chars_valid(name, base.len() + 1, false);
    }
    versioned || clip
}

/// Whether a stored location is where the marker would have put the
/// expected target: the same source with its quarantine at its index, the
/// same native action with its identifier and a positive attempt, or the
/// same covering kind.
pub open spec fn location_matches(
    quarantine_root: Seq<char>,
    operation: Seq<u8>,
    index: nat,
    stored: MarkerTargetView,
    expected: TargetView,
) -> bool {
    match stored.location {
        MarkerLocationView::Filesystem { source, quarantine, .. } => match expected.location {
            LocationView::Filesystem(p) => same_path(source, p) && same_path(
                quarantine,
                join_path(quarantine_root, quarantine_name(index, stored.kind)),
            ),
            _ => false,
        },
        MarkerLocationView::NativeAction { identifier, action_id, attempt } => match expected.location {
            LocationView::NativeAction(id) => identifier == id && action_id == native_action_bytes(
                operation,
                stored.kind,
            ) && attempt > 0,
            _ => false,
        },
        MarkerLocationView::CoveredBy(k) => match expected.location {
            LocationView::CoveredBy(ek) => k == ek,
            _ => false,
        },
    }
}

/// A stored target stands for the expected one.
pub open spec fn stored_matches(
    quarantine_root: Seq<char>,
    operation: Seq<u8>,
    index: nat,
    stored: MarkerTargetView,
    expected: TargetView,
) -> bool {
    stored.kind == expected.kind && location_matches(quarantine_root, operation, index, stored, expected)
}

/// The target is a backup root on the filesystem whose namespace `name`
/// belongs to.
pub open spec fn backup_root_admits(t: TargetView, name: Seq<char>) -> bool {
    &&& t.kind == UserDataTargetKind::MigrationBackupRoot
    &&& t.location is Filesystem
    &&& file_name(fs_path(t.location)) matches Some(base) && (valid_versioned_schema_backup(name, base)
        || valid_clip_backup(name, base))
}

/// Some backup root of the inventory has a namespace that `name` belongs to.
pub open spec fn backup_namespace_matches(name: Seq<char>, inventory: Seq<TargetView>) -> bool {
    exists|j: int| 0 <= j < inventory.len() && #[trigger] backup_root_admits(inventory[j], name)
}

/// A stored target that the inventory does not list but may still be
/// erased: a migration backup created beside a listed backup root, at a
/// path that resolves under a root, quarantined at its index.
pub open spec fn valid_dynamic_backup(
    quarantine_root: Seq<char>,
    index: nat,
    stored: MarkerTargetView,
    inventory: Seq<TargetView>,
    roots: Seq<Seq<char>>,
    resolved: Option<Seq<char>>,
) -> bool {
    &&& stored.kind == UserDataTargetKind::MigrationBackupRoot
    &&& stored.location matches MarkerLocationView::Filesystem { source, quarantine, .. }
        && file_name(source) matches Some(name)
        && backup_namespace_matches(name, inventory)
        && recovery_path_acceptable(source, resolved, roots)
        && same_path(quarantine, join_path(quarantine_root, quarantine_name(index, stored.kind)))
}

/// A stored target stands for some inventory target, or is a valid dynamic
/// backup.
pub open spec fn stored_target_known(
    quarantine_root: Seq<char>,
    operation: Seq<u8>,
    index: nat,
    stored: MarkerTargetView,
    inventory: Seq<TargetView>,
    roots: Seq<Seq<char>>,
    resolved: Option<Seq<char>>,
) -> bool {
    ||| exists|j: int|
        0 <= j < inventory.len() && #[trigger] stored_matches(quarantine_root, operation, index, stored, inventory[j])
    ||| valid_dynamic_backup(quarantine_root, index, stored, inventory, roots, resolved)
}

/// Some stored target stands for the inventory target.
pub open spec fn target_recorded(
    quarantine_root: Seq<char>,
    operation: Seq<u8>,
    stored: Seq<MarkerTargetView>,
    expected: TargetView,
) -> bool {
    exists|i: int| 0 <= i < stored.len() && #[trigger] stored_matches(quarantine_root, operation, i as nat, stored[i], expected)
}

/// Every stored target stands for an inventory target or is a valid
/// dynamic backup, and every inventory target has a stored target.
pub open spec fn marker_targets_match(
    quarantine_root: Seq<char>,
    operation: Seq<u8>,
    stored: Seq<MarkerTargetView>,
    inventory: Seq<TargetView>,
    roots: Seq<Seq<char>>,
    resolved: Seq<Option<Seq<char>>>,
) -> bool {
    &&& forall|i: int|
        0 <= i < stored.len() ==> stored_target_known(
            quarantine_root,
            operation,
            i as nat,
            #[trigger] stored[i],
            inventory,
            roots,
            resolution_at(resolved, i),
        )
    &&& forall|j: int| 0 <= j < inventory.len() ==> target_recorded(quarantine_root, operation, stored, #[trigger] inventory[j])
}

/// Whether a stored target stands for the expected one.
fn stored_matches_exec(marker: &ErasureMarker, index: usize, stored: &MarkerTarget, expected: &UserDataTarget) -> (ok: bool)
    ensures
        ok == stored_matches(marker.quarantine_root@, marker.operation_id.bytes_of(), index as nat, stored@, expected@),
{
    if stored.kind != expected.kind {
        return false;
    }
    match (&stored.location, &expected.location) {
        (MarkerLocation::Filesystem { source, quarantine, .. }, UserDataTargetLocation::Filesystem(p)) => {
            paths_equal(source.as_str(), p.as_str()) && paths_equal(
                quarantine.as_str(),
                join(marker.quarantine_root.as_str(), &quarantine_name_chars(index, stored.kind)).as_str(),
            )
        },
        (
            MarkerLocation::NativeAction { identifier, action_id, attempt },
            UserDataTargetLocation::NativeAction { identifier: id },
        ) => {
            let expected_id = native_action_id(marker.operation_id, stored.kind);
            proof {
                lemma_command_id_bytes(*action_id, expected_id);
            }
            chars_eq(&chars_of(identifier.as_str()), &chars_of(id.as_str())) && action_id.same(&expected_id) && *attempt
                > 0
        },
        (MarkerLocation::CoveredBy { kind }, UserDataTargetLocation::CoveredBy { kind: ek }) => *kind == *ek,
        (MarkerLocation::Filesystem { .. }, _) => false,
        (MarkerLocation::NativeAction { .. }, _) => false,
        (MarkerLocation::CoveredBy { .. }, _) => false,
    }
}

/// Whether `name` belongs to the namespace of a backup root of the inventory.
fn backup_namespace_exec(name: &[char], targets: &[UserDataTarget]) -> (ok: bool)
    ensures
        ok == backup_namespace_matches(name@, target_views(targets@)),
{
    let ghost inv = target_views(targets@);
    let mut j: usize = 0;
    while j < targets.len()
        invariant
            inv == target_views(targets@),
            j <= targets@.len(),
            forall|k: int| 0 <= k < j ==> !#[trigger] backup_root_admits(inv[k], name@),
        decreases targets.len() - j,
    {
        assert(inv[j as int] == targets@[j as int]@);
        if targets[j].kind == UserDataTargetKind::MigrationBackupRoot {
            if let Some(path) = targets[j].path() {
                if let Some(base) = path_file_name(path.as_str()) {
                    if backup_name_valid(name, &base) {
                        assert(backup_root_admits(inv[j as int], name@));
                        return true;
                    }
                }
            }
        }
        j = j + 1;
    }
    false
}

/// Whether a stored target is a dynamic backup that recovery may erase;
/// `resolved` is where its source resolves once its existing ancestor is
/// canonicalized.
fn dynamic_backup_exec(
    marker: &ErasureMarker,
    index: usize,
    stored: &MarkerTarget,
    inventory: &ValidatedUserDataInventory,
    resolved: &Option<String>,
) -> (ok: bool)
    ensures
        ok == valid_dynamic_backup(
            marker.quarantine_root@,
            index as nat,
            stored@,
            target_views(inventory.target_seq()),
            inventory.root_paths(),
            opt_view(*resolved),
        ),
{
    if stored.kind != UserDataTargetKind::MigrationBackupRoot {
        return false;
    }
    match &stored.location {
        MarkerLocation::Filesystem { source, quarantine, .. } => {
            let name = match path_file_name(source.as_str()) {
                Some(n) => n,
                None => {
                    return false;
                },
            };
            backup_namespace_exec(&name, inventory.targets()) && inventory.validates_recovery_path(
                source.as_str(),
                resolved,
            ) && paths_equal(
                quarantine.as_str(),
                join(marker.quarantine_root.as_str(), &quarantine_name_chars(index, stored.kind)).as_str(),
            )
        },
        MarkerLocation::NativeAction { .. } => false,
        MarkerLocation::CoveredBy { .. } => false,
    }
}

/// Whether the marker's targets match the inventory; `resolved[i]` is where
/// the source of stored target `i` resolves (used for dynamic backups).
pub fn marker_targets_match_exec(
    marker: &ErasureMarker,
    inventory: &ValidatedUserDataInventory,
    resolved: &Vec<Option<String>>,
) -> (ok: bool)
    ensures
        ok == marker_targets_match(
            marker.quarantine_root@,
            marker.operation_id.bytes_of(),
            marker_target_views(marker.targets@),
            target_views(inventory.target_seq()),
            inventory.root_paths(),
            resolved@.map_values(|o: Option<String>| opt_view(o)),
        ),
{
    let ghost qroot = marker.quarantine_root@;
    let ghost op = marker.operation_id.bytes_of();
    let ghost stored = marker_target_views(marker.targets@);
    let ghost inv = target_views(inventory.target_seq());
    let ghost res = resolved@.map_values(|o: Option<String>| opt_view(o));
    let targets = inventory.targets();
    let n = marker.targets.len();
    let mut i: usize = 0;
    while i < n
        invariant
            n == marker.targets@.len(),
            stored == marker_target_views(marker.targets@),
            stored.len() == marker.targets@.len(),
            inv.len() == targets@.len(),
            inv == target_views(inventory.target_seq()),
            targets@ == inventory.target_seq(),
            res == resolved@.map_values(|o: Option<String>| opt_view(o)),
            qroot == marker.quarantine_root@,
            op == marker.operation_id.bytes_of(),
            i <= n,
            forall|a: int|
                0 <= a < i ==> stored_target_known(qroot, op, a as nat, #[trigger] stored[a], inv, inventory.root_paths(), resolution_at(res, a)),
        decreases n - i,
    {
        let mut found = false;
        let mut j: usize = 0;
        while j < targets.len()
            invariant
                targets@ == inventory.target_seq(),
                inv == target_views(inventory.target_seq()),
                stored == marker_target_views(marker.targets@),
                stored.len() == marker.targets@.len(),
                inv.len() == targets@.len(),
            stored.len() == marker.targets@.len(),
            inv.len() == targets@.len(),
                qroot == marker.quarantine_root@,
                op == marker.operation_id.bytes_of(),
                i < n,
                n == marker.targets@.len(),
                j <= targets@.len(),
                found ==> exists|k: int| 0 <= k < inv.len() && #[trigger] stored_matches(qroot, op, i as nat, stored[i as int], inv[k]),
                !found ==> forall|k: int| 0 <= k < j ==> !#[trigger] stored_matches(qroot, op, i as nat, stored[i as int], inv[k]),
            decreases targets.len() - j,
        {
            if !found {
                assert(inv[j as int] == targets@[j as int]@);
                assert(stored[i as int] == marker.targets@[i as int]@);
                if stored_matches_exec(marker, i, &marker.targets[i], &targets[j]) {
                    assert(stored_matches(qroot, op, i as nat, stored[i as int], inv[j as int]));
                    found = true;
                }
            }
            j = j + 1;
        }
        if !found {
            let none: Option<String> = None;
            let r = if i < resolved.len() { &resolved[i] } else { &none };
            assert(opt_view(*r) == resolution_at(res, i as int));
            assert(stored[i as int] == marker.targets@[i as int]@);
            if !dynamic_backup_exec(marker, i, &marker.targets[i], inventory, r) {
                assert(!stored_target_known(qroot, op, i as nat, stored[i as int], inv, inventory.root_paths(), resolution_at(res, i as int)));
                return false;
            }
        }
        i = i + 1;
    }
    let mut j: usize = 0;
    while j < targets.len()
        invariant
            targets@ == inventory.target_seq(),
            inv == target_views(inventory.target_seq()),
            stored == marker_target_views(marker.targets@),
            stored.len() == marker.targets@.len(),
            inv.len() == targets@.len(),
            qroot == marker.quarantine_root@,
            op == marker.operation_id.bytes_of(),
            n == marker.targets@.len(),
            j <= targets@.len(),
            forall|b: int| 0 <= b < j ==> target_recorded(qroot, op, stored, #[trigger] inv[b]),
            forall|a: int|
                0 <= a < n ==> stored_target_known(qroot, op, a as nat, #[trigger] stored[a], inv, inventory.root_paths(), resolution_at(res, a)),
        decreases targets.len() - j,
    {
        let mut found = false;
        let mut a: usize = 0;
        while a < n
            invariant
                targets@ == inventory.target_seq(),
                inv == target_views(inventory.target_seq()),
                stored == marker_target_views(marker.targets@),
                stored.len() == marker.targets@.len(),
                inv.len() == targets@.len(),
            stored.len() == marker.targets@.len(),
            inv.len() == targets@.len(),
                qroot == marker.quarantine_root@,
                op == marker.operation_id.bytes_of(),
                n == marker.targets@.len(),
                j < targets@.len(),
                a <= n,

                found ==> exists|k: int| 0 <= k < stored.len() && #[trigger] stored_matches(qroot, op, k as nat, stored[k], inv[j as int]),
                !found ==> forall|k: int| 0 <= k < a ==> !#[trigger] stored_matches(qroot, op, k as nat, stored[k], inv[j as int]),
            decreases n - a,
        {
            if !found {
                assert(inv[j as int] == targets@[j as int]@);
                assert(stored[a as int] == marker.targets@[a as int]@);
                if stored_matches_exec(marker, a, &marker.targets[a], &targets[j]) {
                    let ghost k = a as int;
                    assert(stored_matches(qroot, op, k as nat, stored[k], inv[j as int]));
                    found = true;
                }
            }
            a = a + 1;
        }
        if !found {
            assert(!target_recorded(qroot, op, stored, inv[j as int]));
            assert(!marker_targets_match(qroot, op, stored, inv, inventory.root_paths(), res));
            return false;
        }
        assert(target_recorded(qroot, op, stored, inv[j as int]));
        j = j + 1;
    }
    true
}

/// A marker read back from disk is one this store writes: its format
/// version is the current one.
pub fn accept_read_marker(marker: ErasureMarker) -> (result: Result<ErasureMarker, StorageError>)
    ensures
        result is Ok <==> marker.version == MARKER_VERSION,
        result matches Ok(m) ==> m == marker,
        result matches Err(e) ==> e == StorageError::CommandConflict,
{
    if marker.version == MARKER_VERSION {
        Ok(marker)
    } else {
        Err(StorageError::CommandConflict)
    }
}

/// The marker lies where its operation keeps it: the marker file and the
/// quarantine directory are named after the operation inside the recovery
/// root, and the store it erases differs from the one it creates.
pub open spec fn marker_placed(marker: ErasureMarker, marker_path: Seq<char>, recovery_root: Seq<char>) -> bool {
    let operation = marker.operation_id.bytes_of();
    &&& same_path(marker_path, join_path(recovery_root, marker_file_name(operation)))
    &&& same_path(marker.quarantine_root@, join_path(recovery_root, quarantine_dir_name(operation)))
    &&& marker.expected_store_id != marker.fresh_store_id
}

/// Checks a marker read back from `marker_path` in `recovery_root` before
/// recovery acts on it: it lies where its operation keeps it, its stored
/// application state is one an erasure writes, and
/// its targets are those of the inventory (plus dynamic backups; `resolved[i]`
/// is where the source of stored target `i` resolves).
pub fn validate_recovery_marker(
    marker: &ErasureMarker,
    marker_path: &str,
    recovery_root: &str,
    inventory: &ValidatedUserDataInventory,
    resolved: &Vec<Option<String>>,
) -> (result: Result<(), StorageError>)
    ensures
        result is Ok <==> {
            &&& marker_placed(*marker, marker_path@, recovery_root@)
            &&& projection_valid(parsed_json(encode_utf8(marker.sanitized_application_state@)))
            &&& marker_targets_match(
                marker.quarantine_root@,
                marker.operation_id.bytes_of(),
                marker_target_views(marker.targets@),
                target_views(inventory.target_seq()),
                inventory.root_paths(),
                resolved@.map_values(|o: Option<String>| opt_view(o)),
            )
        },
        result matches Err(e) ==> e == StorageError::CommandConflict,
{
    let (expected_marker, expected_quarantine) = erasure_paths(recovery_root, marker.operation_id);
    if !paths_equal(marker_path, expected_marker.as_str()) || !paths_equal(
        marker.quarantine_root.as_str(),
        expected_quarantine.as_str(),
    ) || marker.expected_store_id.same(&marker.fresh_store_id) {
        return Err(StorageError::CommandConflict);
    }
    if validate_sanitized_application_state(marker.sanitized_application_state.as_str().as_bytes()).is_err() {
        return Err(StorageError::CommandConflict);
    }
    if !marker_targets_match_exec(marker, inventory, resolved) {
        return Err(StorageError::CommandConflict);
    }
    Ok(())
}

/// Recovery accepts the targets of a marker it was prepared with: every
/// target recorded for an inventory stands for the inventory target at its
/// index, so the marker matches that inventory whatever the evidence, the
/// roots and the resolutions.
pub proof fn lemma_planned_marker_matches(
    inventory: Seq<TargetView>,
    quarantine_root: Seq<char>,
    operation: Seq<u8>,
    evidence: Seq<EvidenceView>,
    roots: Seq<Seq<char>>,
    resolved: Seq<Option<Seq<char>>>,
)
    requires
        evidence.len() == inventory.len(),
    ensures
        marker_targets_match(
            quarantine_root,
            operation,
            planned_targets(inventory, quarantine_root, operation, evidence),
            inventory,
            roots,
            resolved,
        ),
{
    let stored = planned_targets(inventory, quarantine_root, operation, evidence);
    assert forall|i: int| 0 <= i < stored.len() implies stored_matches(
        quarantine_root,
        operation,
        i as nat,
        stored[i],
        inventory[i],
    ) by {
        match inventory[i].location {
            LocationView::Filesystem(p) => {
                assert(same_path(p, p));
                assert(same_path(
                    join_path(quarantine_root, quarantine_name(i as nat, inventory[i].kind)),
                    join_path(quarantine_root, quarantine_name(i as nat, inventory[i].kind)),
                ));
            },
            _ => {},
        }
    }
    assert forall|i: int| 0 <= i < stored.len() implies stored_target_known(
        quarantine_root,
        operation,
        i as nat,
        #[trigger] stored[i],
        inventory,
        roots,
        resolution_at(resolved, i),
    ) by {
        assert(stored_matches(quarantine_root, operation, i as nat, stored[i], inventory[i]));
    }
    assert forall|j: int| 0 <= j < inventory.len() implies target_recorded(
        quarantine_root,
        operation,
        stored,
        #[trigger] inventory[j],
    ) by {
        assert(stored_matches(quarantine_root, operation, j as nat, stored[j], inventory[j]));
    }
}


/// A clip backup beside `base` is exactly a name made of `base`, a `-`, and
/// a non-empty tail of ASCII letters, ASCII digits and `-`, where `base`
/// ends with `.clips-backup`.
pub proof fn lemma_clip_backup_names(name: Seq<char>, base: Seq<char>)
    ensures
        valid_clip_backup(name, base) <==> {
            &&& base.len() >= 13
            &&& base.subrange(base.len() - 13, base.len() as int) == seq!['.', 'c', 'l', 'i', 'p', 's', '-', 'b', 'a', 'c', 'k', 'u', 'p']
            &&& name.len() > base.len() + 1
            &&& name.subrange(0, base.len() as int) == base
            &&& name[base.len() as int] == '-'
            &&& forall|i: int|
                base.len() + 1 <= i < name.len() ==> {
                    let c = #[trigger] name[i];
                    ||| ('0' <= c && c <= '9')
                    ||| ('a' <= c && c <= 'z')
                    ||| ('A' <= c && c <= 'Z')
                    ||| c == '-'
                }
        },
{
    let b = base + seq!['-'];
    let n = base.len() as int;
    assert(clips_backup_suffix() =~= seq!['.', 'c', 'l', 'i', 'p', 's', '-', 'b', 'a', 'c', 'k', 'u', 'p']);
    if base.len() >= 13 {
        assert(base.skip(n - 13) =~= base.subrange(n - 13, n));
    }
    if name.len() > n + 1 {
        if name.subrange(0, n) == base && name[n] == '-' {
            assert(name.take(b.len() as int) =~= b);
        }
        if starts_with(name, b) {
            assert(name.take(b.len() as int)[n] == '-');
            assert(name.subrange(0, n) =~= name.take(b.len() as int).subrange(0, n));
        }
    }
    if valid_clip_backup(name, base) {
        assert(base.len() >= 13);
        assert(base.subrange(n - 13, n) == seq!['.', 'c', 'l', 'i', 'p', 's', '-', 'b', 'a', 'c', 'k', 'u', 'p']);
        assert(name.subrange(0, n) == base);
        assert(name[n] == '-');
        assert forall|i: int| n + 1 <= i < name.len() implies {
            let c = #[trigger] name[i];
            ||| ('0' <= c && c <= '9')
            ||| ('a' <= c && c <= 'z')
            ||| ('A' <= c && c <= 'Z')
            ||| c == '-'
        } by {
            assert(is_clip_char(name[i]));
        }
    }
}

} // verus!
