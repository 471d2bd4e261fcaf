//! The application state that survives an erasure: a JSON document with an
//! empty library that keeps only known scalar settings.
//!
//! `serde_json` reads the bytes; what it reads is opened here one level at a
//! time, and every decision on it, and the document written back, is made
//! here over the plain view of what was read.
use vstd::prelude::*;
use vstd::utf8::encode_utf8;

use crate::error::StorageError;
use crate::ids::hex_digits;
use crate::inventory::opt_view;
use crate::text::{chars_eq, chars_of};

verus! {

#[verifier::external_type_specification]
#[verifier::external_body]
pub struct ExJsonValue(serde_json::Value);

/// A JSON value as plain data: a number as the text `serde_json` renders it
/// with, an array as its items, an object as its members in the order its
/// map yields them.
pub enum JsonView {
    Null,
    Bool(bool),
    Number(Seq<char>),
    Text(Seq<char>),
    Array(Seq<JsonView>),
    Object(Seq<(Seq<char>, JsonView)>),
}

/// What a `serde_json::Value` holds, as plain data (`json_node` opens it
/// one level at a time).
pub uninterp spec fn json_view(value: serde_json::Value) -> JsonView;

/// What `serde_json::from_slice` reads from the bytes: the value they hold,
/// or `None` when they are not one JSON text.
pub uninterp spec fn parsed_json(bytes: Seq<u8>) -> Option<JsonView>;

/// One level of a value: a scalar, or the items or members of an array or
/// object, each still a value of its own.
enum JsonNode {
    Null,
    Bool(bool),
    Number(String),
    Text(String),
    Array(Vec<serde_json::Value>),
    Object(Vec<(String, serde_json::Value)>),
}

/// What the items of an array hold.
spec fn value_views(s: Seq<serde_json::Value>) -> Seq<JsonView> {
    s.map_values(|v: serde_json::Value| json_view(v))
}

/// The members of an object, each with what its value holds.
spec fn member_views(m: Seq<(String, serde_json::Value)>) -> Seq<(Seq<char>, JsonView)> {
    m.map_values(|p: (String, serde_json::Value)| (p.0@, json_view(p.1)))
}

/// What one opened level holds.
spec fn node_view(n: JsonNode) -> JsonView {
    match n {
        JsonNode::Null => JsonView::Null,
        JsonNode::Bool(b) => JsonView::Bool(b),
        JsonNode::Number(t) => JsonView::Number(t@),
        JsonNode::Text(s) => JsonView::Text(s@),
        JsonNode::Array(items) => JsonView::Array(value_views(items@)),
        JsonNode::Object(m) => JsonView::Object(member_views(m@)),
    }
}

/// `serde_json::from_slice` into a `serde_json::Value`: the value the bytes
/// hold, or `None` when they are not one JSON text; what it reads is named
/// `parsed_json`.
#[verifier::external_body]
fn parse_json(bytes: &[u8]) -> (value: Option<serde_json::Value>)
    ensures
        match value {
            Some(v) => parsed_json(bytes@) == Some(json_view(v)),
            None => parsed_json(bytes@) is None,
        },
{
    serde_json::from_slice::<serde_json::Value>(bytes).ok()
}

/// Opens one level of a `serde_json::Value`, one arm per variant: a number
/// as its `Display` text, a string, array or map moved out (the map's
/// members in the order its iterator yields them).
#[verifier::external_body]
fn json_node(value: serde_json::Value) -> (node: JsonNode)
    ensures
        node_view(node) == json_view(value),
{
    match value {
        serde_json::Value::Null => JsonNode::Null,
        serde_json::Value::Bool(b) => JsonNode::Bool(b),
        serde_json::Value::Number(n) => JsonNode::Number(n.to_string()),
        serde_json::Value::String(s) => JsonNode::Text(s),
        serde_json::Value::Array(items) => JsonNode::Array(items),
        serde_json::Value::Object(members) => JsonNode::Object(members.into_iter().collect()),
    }
}

/// A JSON value held as plain data: a number as its text, an object as
/// its members in order.
#[derive(Debug, PartialEq)]
pub enum JsonValue {
    Null,
    Bool(bool),
    Number(String),
    Text(String),
    Array(Vec<JsonValue>),
    Object(Vec<(String, JsonValue)>),
}

/// What a plain JSON value holds.
pub open spec fn value_view(v: JsonValue) -> JsonView
    decreases v,
{
    match v {
        JsonValue::Null => JsonView::Null,
        JsonValue::Bool(b) => JsonView::Bool(b),
        JsonValue::Number(t) => JsonView::Number(t@),
        JsonValue::Text(s) => JsonView::Text(s@),
        JsonValue::Array(items) => JsonView::Array(items_view(items@)),
        JsonValue::Object(m) => JsonView::Object(entries_view(m@)),
    }
}

/// What the items of an array hold.
pub open spec fn items_view(s: Seq<JsonValue>) -> Seq<JsonView>
    decreases s,
{
    if s.len() == 0 {
        Seq::empty()
    } else {
        items_view(s.drop_last()).push(value_view(s.last()))
    }
}

/// What the members of an object hold.
pub open spec fn entries_view(s: Seq<(String, JsonValue)>) -> Seq<(Seq<char>, JsonView)>
    decreases s,
{
    if s.len() == 0 {
        Seq::empty()
    } else {
        entries_view(s.drop_last()).push((s.last().0@, value_view(s.last().1)))
    }
}

/// What a value read as `parsed` holds.
pub open spec fn parsed_view(parsed: Option<JsonValue>) -> Option<JsonView> {
    match parsed {
        Some(v) => Some(value_view(v)),
        None => None,
    }
}

/// The items of an array, one by one.
pub proof fn lemma_items_view(s: Seq<JsonValue>)
    ensures
        items_view(s).len() == s.len(),
        forall|i: int| 0 <= i < s.len() ==> #[trigger] items_view(s)[i] == value_view(s[i]),
    decreases s.len(),
{
    if s.len() > 0 {
        lemma_items_view(s.drop_last());
    }
}

/// The members of an object, one by one.
pub proof fn lemma_entries_view(s: Seq<(String, JsonValue)>)
    ensures
        entries_view(s).len() == s.len(),
        forall|i: int| 0 <= i < s.len() ==> #[trigger] entries_view(s)[i] == (s[i].0@, value_view(s[i].1)),
    decreases s.len(),
{
    if s.len() > 0 {
        lemma_entries_view(s.drop_last());
    }
}

/// Reads a `serde_json::Value` into plain data, level by level.
#[verifier::loop_isolation(false)]
fn plain_value(value: serde_json::Value) -> (plain: JsonValue)
    ensures
        value_view(plain) == json_view(value),
    decreases json_view(value),
{
    let ghost whole = json_view(value);
    match json_node(value) {
        JsonNode::Null => JsonValue::Null,
        JsonNode::Bool(b) => JsonValue::Bool(b),
        JsonNode::Number(t) => JsonValue::Number(t),
        JsonNode::Text(s) => JsonValue::Text(s),
        JsonNode::Array(items) => {
            let ghost views = value_views(items@);
            let mut rest = items;
            let mut out: Vec<JsonValue> = Vec::new();
            let ghost mut i: int = 0;
            assert(views.skip(0) =~= views);
            proof {
                lemma_items_view(out@);
            }
            while rest.len() > 0
                invariant
                    whole == JsonView::Array(views),
                    0 <= i <= views.len(),
                    value_views(rest@) == views.skip(i),
                    items_view(out@) == views.take(i),
                decreases rest.len(),
            {
                let ghost before = rest@;
                assert(value_views(before).len() == before.len());
                assert(value_views(before)[0] == views.skip(i)[0]);
                let item = rest.remove(0);
                proof {
                    assert(rest@ =~= before.subrange(1, before.len() as int));
                    assert forall|j: int| 0 <= j < rest@.len() implies #[trigger] value_views(rest@)[j] == views.skip(i + 1)[j] by {
                        assert(rest@[j] == before[j + 1]);
                        assert(value_views(before).len() == before.len());
                        assert(value_views(before)[j + 1] == views.skip(i)[j + 1]);
                    }
                    assert(value_views(rest@) =~= views.skip(i + 1));
                    assert(json_view(item) == views[i]);
                    assert(whole->Array_0 == views);
                    assert(decreases_to!(whole => whole->Array_0));
                    assert(decreases_to!(whole => views));
                    assert(decreases_to!(views => views[i]));
                }
                let plain = plain_value(item);
                let ghost out_before = out@;
                out.push(plain);
                proof {
                    assert(out@.drop_last() =~= out_before);
                    assert(views.take(i + 1) =~= views.take(i).push(views[i]));
                    i = i + 1;
                }
            }
            assert(views.take(i) =~= views);
            JsonValue::Array(out)
        },
        JsonNode::Object(members) => {
            let ghost views = member_views(members@);
            let mut rest = members;
            let mut out: Vec<(String, JsonValue)> = Vec::new();
            let ghost mut i: int = 0;
            assert(views.skip(0) =~= views);
            assert(entries_view(out@) =~= views.take(0));
            while rest.len() > 0
                invariant
                    whole == JsonView::Object(views),
                    0 <= i <= views.len(),
                    member_views(rest@) == views.skip(i),
                    entries_view(out@) == views.take(i),
                decreases rest.len(),
            {
                let ghost before = rest@;
                assert(member_views(before).len() == before.len());
                assert(member_views(before)[0] == views.skip(i)[0]);
                let (key, item) = rest.remove(0);
                proof {
                    assert(rest@ =~= before.subrange(1, before.len() as int));
                    assert forall|j: int| 0 <= j < rest@.len() implies #[trigger] member_views(rest@)[j] == views.skip(i + 1)[j] by {
                        assert(rest@[j] == before[j + 1]);
                        assert(member_views(before)[j + 1] == views.skip(i)[j + 1]);
                    }
                    assert(member_views(rest@) =~= views.skip(i + 1));
                    assert(views[i] == (key@, json_view(item)));
                    assert(whole->Object_0 == views);
                    assert(decreases_to!(whole => whole->Object_0));
                    assert(decreases_to!(whole => views));
                    assert(decreases_to!(views => views[i]));
                    assert(decreases_to!(views[i] => views[i].1));
                    assert(decreases_to!(whole => views[i].1));
                }
                let plain = plain_value(item);
                let ghost out_before = out@;
                out.push((key, plain));
                proof {
                    assert(out@.drop_last() =~= out_before);
                    assert(views.take(i + 1) =~= views.take(i).push(views[i]));
                    i = i + 1;
                }
            }
            assert(views.take(i) =~= views);
            JsonValue::Object(out)
        },
    }
}

/// Reads the bytes as JSON into plain data: `None` when they are not one
/// JSON text.
pub fn read_json(bytes: &[u8]) -> (parsed: Option<JsonValue>)
    ensures
        parsed_view(parsed) == parsed_json(bytes@),
{
    match parse_json(bytes) {
        Some(value) => Some(plain_value(value)),
        None => None,
    }
}

/// The value of the first member with the key.
pub open spec fn member_at(e: Seq<(Seq<char>, JsonView)>, key: Seq<char>) -> Option<JsonView>
    decreases e.len(),
{
    if e.len() == 0 {
        None
    } else if e[0].0 == key {
        Some(e[0].1)
    } else {
        member_at(e.drop_first(), key)
    }
}

/// The most bytes of settings that an erasure keeps.
pub const MAX_SETTINGS_BYTES: usize = 262144;

/// The settings that an erasure keeps, in ascending order.
pub const SETTINGS_KEYS: [&'static str; 53] = [
    "agentAvatarURLString",
    "agentDisplayName",
    "agentThinkingModel",
    "agentThinkingModelName",
    "assemblyAISTTModel",
    "autoDeleteDownloadsAfterPlayed",
    "autoFallbackToScribe",
    "autoIngestPublisherTranscripts",
    "autoMarkPlayedAtEnd",
    "autoPlayNext",
    "autoSkipAds",
    "blossomServerURL",
    "categorizationModel",
    "categorizationModelName",
    "chapterCompilationModel",
    "chapterCompilationModelName",
    "defaultPlaybackRate",
    "elevenLabsBYOKKeyID",
    "elevenLabsBYOKKeyLabel",
    "elevenLabsConnectedAt",
    "elevenLabsCredentialSource",
    "elevenLabsSTTModel",
    "elevenLabsTTSModel",
    "elevenLabsVoiceID",
    "elevenLabsVoiceName",
    "embeddingsModel",
    "embeddingsModelName",
    "hasCompletedOnboarding",
    "headphoneDoubleTapAction",
    "headphoneTripleTapAction",
    "imageGenerationModel",
    "imageGenerationModelName",
    "llmModel",
    "llmModelName",
    "memoryCompilationModel",
    "memoryCompilationModelName",
    "ollamaBYOKKeyID",
    "ollamaBYOKKeyLabel",
    "ollamaChatURL",
    "ollamaConnectedAt",
    "ollamaCredentialSource",
    "openRouterBYOKKeyID",
    "openRouterBYOKKeyLabel",
    "openRouterConnectedAt",
    "openRouterCredentialSource",
    "openRouterWhisperModel",
    "rerankerEnabled",
    "skipBackwardSeconds",
    "skipForwardSeconds",
    "sttProvider",
    "wikiModel",
    "wikiModelName",
    "youtubeExtractorURL",
];

/// A setting that an erasure keeps.
pub open spec fn setting_allowed(key: Seq<char>) -> bool {
    exists|i: int| 0 <= i < 53 && #[trigger] SETTINGS_KEYS@[i]@ == key
}

/// Whether an erasure keeps the setting.
pub fn is_allowed_setting(key: &str) -> (allowed: bool)
    ensures
        allowed == setting_allowed(key@),
{
    let k = chars_of(key);
    let mut i: usize = 0;
    while i < 53
        invariant
            k@ == key@,
            i <= 53,
            forall|j: int| 0 <= j < i ==> #[trigger] SETTINGS_KEYS@[j]@ != key@,
        decreases 53 - i,
    {
        if chars_eq(&chars_of(SETTINGS_KEYS[i]), &k) {
            return true;
        }
        i = i + 1;
    }
    false
}

/// How `serde_json` writes one character inside a string: a quote and a
/// backslash behind a backslash; backspace, tab, line feed, form feed and
/// carriage return by their letter escapes; the other control characters
/// below U+0020 as `\u00` and two lowercase hex digits; anything else as
/// itself.
pub open spec fn json_char_text(c: char) -> Seq<char> {
    if c == '"' {
        seq!['\\', '"']
    } else if c == '\\' {
        seq!['\\', '\\']
    } else if c as int == 8 {
        seq!['\\', 'b']
    } else if c as int == 9 {
        seq!['\\', 't']
    } else if c as int == 10 {
        seq!['\\', 'n']
    } else if c as int == 12 {
        seq!['\\', 'f']
    } else if c as int == 13 {
        seq!['\\', 'r']
    } else if (c as int) < 32 {
        seq!['\\', 'u', '0', '0', hex_digits()[(c as int) / 16], hex_digits()[(c as int) % 16]]
    } else {
        seq![c]
    }
}

/// The escaped characters of a string.
pub open spec fn json_escaped(s: Seq<char>) -> Seq<char>
    decreases s.len(),
{
    if s.len() == 0 {
        Seq::empty()
    } else {
        json_escaped(s.drop_last()) + json_char_text(s.last())
    }
}


/// The JSON text that `serde_json` writes for a string: the escaped string
/// in quotes.
pub open spec fn json_string_text(s: Seq<char>) -> Seq<char> {
    seq!['"'] + json_escaped(s) + seq!['"']
}

/// `serde_json::to_string` on a `str`: the string quoted and escaped as
/// `json_string_text` says; writing to memory never fails.
#[verifier::external_body]
fn json_quote(s: &str) -> (quoted: Option<String>)
    ensures
        opt_view(quoted) == Some(json_string_text(s@)),
{
    serde_json::to_string(s).ok()
}

/// A scalar: not an array or an object.
pub open spec fn is_scalar(v: JsonView) -> bool {
    !(v is Array) && !(v is Object)
}

/// The JSON text of a scalar: `null`, `true`, `false`, the number's text, or
/// the quoted string.
pub open spec fn scalar_text(v: JsonView) -> Seq<char> {
    match v {
        JsonView::Null => "null"@,
        JsonView::Bool(b) => if b { "true"@ } else { "false"@ },
        JsonView::Number(t) => t,
        JsonView::Text(s) => json_string_text(s),
        _ => Seq::empty(),
    }
}

/// The JSON text of a scalar; `None` for an array or object.
fn scalar_text_of(value: &JsonValue) -> (text: Option<String>)
    ensures
        match text {
            Some(t) => is_scalar(value_view(*value)) && t@ == scalar_text(value_view(*value)),
            None => !is_scalar(value_view(*value)),
        },
{
    match value {
        JsonValue::Null => Some("null".to_owned()),
        JsonValue::Bool(b) => Some(if *b { "true".to_owned() } else { "false".to_owned() }),
        JsonValue::Number(t) => Some(t.clone()),
        JsonValue::Text(s) => json_quote(s.as_str()),
        JsonValue::Array(_) => None,
        JsonValue::Object(_) => None,
    }
}

/// The members of an object written out: each quoted key, a colon and the
/// value's text, separated by commas.
pub open spec fn joined_members(p: Seq<(Seq<char>, Seq<char>)>) -> Seq<char>
    decreases p.len(),
{
    if p.len() == 0 {
        Seq::empty()
    } else if p.len() == 1 {
        p[0].0 + seq![':'] + p[0].1
    } else {
        joined_members(p.drop_last()) + seq![','] + p.last().0 + seq![':'] + p.last().1
    }
}

/// The text of a JSON object with these written members.
pub open spec fn object_text(p: Seq<(Seq<char>, Seq<char>)>) -> Seq<char> {
    seq!['{'] + joined_members(p) + seq!['}']
}

/// The text of a JSON object whose members are given as pairs of a quoted
/// key and a value's text.
pub fn settings_object_text(pairs: &Vec<(String, String)>) -> (text: String)
    ensures
        text@ == object_text(pairs@.map_values(|p: (String, String)| (p.0@, p.1@))),
{
    let ghost views = pairs@.map_values(|p: (String, String)| (p.0@, p.1@));
    let mut out: Vec<char> = Vec::new();
    out.push('{');
    let mut i: usize = 0;
    while i < pairs.len()
        invariant
            views == pairs@.map_values(|p: (String, String)| (p.0@, p.1@)),
            i <= pairs@.len(),
            out@ == seq!['{'] + joined_members(views.take(i as int)),
        decreases pairs.len() - i,
    {
        let ghost before = out@;
        if i > 0 {
            out.push(',');
        }
        out = crate::text::concat_chars(&out, &chars_of(pairs[i].0.as_str()));
        out.push(':');
        out = crate::text::concat_chars(&out, &chars_of(pairs[i].1.as_str()));
        proof {
            let t = views.take(i + 1);
            assert(t.drop_last() =~= views.take(i as int));
            assert(t.last() == views[i as int]);
            if i == 0 {
                assert(joined_members(views.take(0)) =~= Seq::<char>::empty());
                assert(out@ =~= seq!['{'] + joined_members(t));
            } else {
                assert(out@ =~= seq!['{'] + joined_members(t));
            }
        }
        i = i + 1;
    }
    out.push('}');
    assert(views.take(pairs@.len() as int) =~= views);
    assert(out@ =~= object_text(views));
    crate::text::string_of(&out)
}

/// The text that opens the projection document, up to its settings.
pub const PROJECTION_HEAD: &'static str = "{\"categories\":[],\"categorySettings\":{},\"clips\":[],\"episodes\":[],\"notes\":[],\"persistenceGeneration\":0,\"podcasts\":[],\"settings\":";

/// The text that closes the projection document, after its settings.
pub const PROJECTION_TAIL: &'static str = ",\"subscriptions\":[]}";

/// The projection document around a settings object: empty categories,
/// category settings, clips, episodes, notes, podcasts and subscriptions,
/// persistence generation 0, members in ascending key order.
pub open spec fn projection_text(settings: Seq<char>) -> Seq<char> {
    PROJECTION_HEAD@ + settings + PROJECTION_TAIL@
}

/// The projection document around a settings object.
pub fn projection_document(settings: &str) -> (text: String)
    ensures
        text@ == projection_text(settings@),
{
    let head = chars_of(PROJECTION_HEAD);
    let with_settings = crate::text::concat_chars(&head, &chars_of(settings));
    crate::text::string_of(&crate::text::concat_chars(&with_settings, &chars_of(PROJECTION_TAIL)))
}

/// A member that an erasure keeps: a kept setting with a scalar value.
pub open spec fn retainable(p: (Seq<char>, JsonView)) -> bool {
    setting_allowed(p.0) && is_scalar(p.1)
}

/// Every member is a kept setting with a scalar value.
pub open spec fn all_retainable(e: Seq<(Seq<char>, JsonView)>) -> bool {
    forall|i: int| 0 <= i < e.len() ==> retainable(#[trigger] e[i])
}

/// The members as written: the quoted key and the scalar's text of each.
pub open spec fn written_members(e: Seq<(Seq<char>, JsonView)>) -> Seq<(Seq<char>, Seq<char>)> {
    e.map_values(|p: (Seq<char>, JsonView)| (json_string_text(p.0), scalar_text(p.1)))
}

/// The views of written members.
pub open spec fn pair_views(p: Seq<(String, String)>) -> Seq<(Seq<char>, Seq<char>)> {
    p.map_values(|q: (String, String)| (q.0@, q.1@))
}

/// Writes the members of an object: `None` as soon as one is not a kept
/// setting with a scalar value.
fn retained_members(members: &[(String, JsonValue)]) -> (written: Option<Vec<(String, String)>>)
    ensures
        match written {
            Some(p) => all_retainable(entries_view(members@)) && pair_views(p@) == written_members(
                entries_view(members@),
            ),
            None => !all_retainable(entries_view(members@)),
        },
{
    let ghost views = entries_view(members@);
    proof {
        lemma_entries_view(members@);
    }
    let mut out: Vec<(String, String)> = Vec::new();
    let mut i: usize = 0;
    assert(pair_views(out@) =~= written_members(views.take(0)));
    while i < members.len()
        invariant
            views == entries_view(members@),
            views.len() == members@.len(),
            forall|j: int| 0 <= j < members@.len() ==> #[trigger] views[j] == (members@[j].0@, value_view(members@[j].1)),
            i <= members@.len(),
            all_retainable(views.take(i as int)),
            pair_views(out@) == written_members(views.take(i as int)),
        decreases members.len() - i,
    {
        assert(views[i as int] == (members@[i as int].0@, value_view(members@[i as int].1)));
        if !is_allowed_setting(members[i].0.as_str()) {
            assert(!retainable(views[i as int]));
            return None;
        }
        let text = match scalar_text_of(&members[i].1) {
            Some(t) => t,
            None => {
                assert(!retainable(views[i as int]));
                return None;
            },
        };
        let quoted = match json_quote(members[i].0.as_str()) {
            Some(q) => q,
            None => {
                return None;
            },
        };
        let ghost written_before = out@;
        out.push((quoted, text));
        proof {
            assert(views.take(i + 1) =~= views.take(i as int).push(views[i as int]));
            assert(pair_views(out@) =~= pair_views(written_before).push((quoted@, text@)));
            assert(written_members(views.take(i + 1)) =~= written_members(views.take(i as int)).push(
                (json_string_text(views[i as int].0), scalar_text(views[i as int].1)),
            ));
            assert forall|j: int| 0 <= j < i + 1 implies retainable(#[trigger] views.take(i + 1)[j]) by {
                if j < i {
                    assert(views.take(i + 1)[j] == views.take(i as int)[j]);
                }
            }
        }
        i = i + 1;
    }
    assert(views.take(i as int) =~= views);
    Some(out)
}

/// Settings read as an object whose every member is a kept scalar setting.
pub open spec fn settings_retainable(parsed: Option<JsonView>) -> bool {
    match parsed {
        Some(JsonView::Object(e)) => all_retainable(e),
        _ => false,
    }
}

/// The document an erasure keeps for settings of `settings_len` bytes read
/// as `parsed`: when they fit and are an object whose every member is a
/// kept scalar setting, the projection document around exactly those
/// members, in the order they were read.
pub open spec fn sanitized_projection(settings_len: nat, parsed: Option<JsonView>) -> Option<Seq<char>> {
    if settings_len > MAX_SETTINGS_BYTES {
        None
    } else {
        match parsed {
            Some(JsonView::Object(e)) => if all_retainable(e) {
                Some(projection_text(object_text(written_members(e))))
            } else {
                None
            },
            _ => None,
        }
    }
}

/// The application state that an erasure leaves behind for settings of
/// `settings_len` bytes read as `parsed` (`None` when they are not JSON).
/// Refused when the settings are too large, not an object, or hold a
/// member that is not a kept scalar setting.
pub fn sanitize_settings(settings_len: usize, parsed: &Option<JsonValue>) -> (result: Result<String, StorageError>)
    ensures
        result is Ok <==> settings_len <= MAX_SETTINGS_BYTES && settings_retainable(parsed_view(*parsed)),
        match result {
            Ok(t) => sanitized_projection(settings_len as nat, parsed_view(*parsed)) == Some(t@),
            Err(e) => sanitized_projection(settings_len as nat, parsed_view(*parsed)) is None && e
                == StorageError::CommandConflict,
        },
{
    if settings_len > MAX_SETTINGS_BYTES {
        return Err(StorageError::CommandConflict);
    }
    let members = match parsed {
        Some(JsonValue::Object(m)) => m,
        _ => {
            return Err(StorageError::CommandConflict);
        },
    };
    match retained_members(members.as_slice()) {
        Some(pairs) => Ok(projection_document(settings_object_text(&pairs).as_str())),
        None => Err(StorageError::CommandConflict),
    }
}

/// The application state that an erasure leaves behind, from the retained
/// settings. Refused when the settings are too large, not a JSON object,
/// or hold a member that is not a kept scalar setting.
pub fn sanitized_application_state(settings_json: &[u8]) -> (result: Result<String, StorageError>)
    ensures
        result is Ok <==> settings_json@.len() <= MAX_SETTINGS_BYTES && settings_retainable(parsed_json(settings_json@)),
        match result {
            Ok(t) => sanitized_projection(settings_json@.len(), parsed_json(settings_json@)) == Some(t@),
            Err(e) => sanitized_projection(settings_json@.len(), parsed_json(settings_json@)) is None && e
                == StorageError::CommandConflict,
        },
{
    if settings_json.len() > MAX_SETTINGS_BYTES {
        return Err(StorageError::CommandConflict);
    }
    let parsed = read_json(settings_json);
    sanitize_settings(settings_json.len(), &parsed)
}

/// The members of a projection document, in ascending order.
pub const PROJECTION_KEYS: [&'static str; 9] = [
    "categories",
    "categorySettings",
    "clips",
    "episodes",
    "notes",
    "persistenceGeneration",
    "podcasts",
    "settings",
    "subscriptions",
];

/// The members of a projection document that must be empty lists.
pub const EMPTY_LIST_KEYS: [&'static str; 6] = ["categories", "clips", "episodes", "notes", "podcasts", "subscriptions"];

/// The number zero.
pub open spec fn is_zero(m: Option<JsonView>) -> bool {
    m matches Some(JsonView::Number(t)) && t == "0"@
}

/// An empty list.
pub open spec fn is_empty_list(m: Option<JsonView>) -> bool {
    m matches Some(JsonView::Array(items)) && items.len() == 0
}

/// An empty object.
pub open spec fn is_empty_object(m: Option<JsonView>) -> bool {
    m matches Some(JsonView::Object(members)) && members.len() == 0
}

/// Settings that an erasure could have kept: an object of kept scalar
/// settings whose JSON text fits the size limit.
pub open spec fn settings_valid(m: Option<JsonView>) -> bool {
    m matches Some(JsonView::Object(f)) && all_retainable(f) && encode_utf8(object_text(written_members(f))).len()
        <= MAX_SETTINGS_BYTES
}

/// The members of a document that an erasure could have written: exactly
/// the projection's members, generation 0, empty lists and category
/// settings, and settings that an erasure keeps.
pub open spec fn projection_members_valid(e: Seq<(Seq<char>, JsonView)>) -> bool {
    &&& e.len() == 9
    &&& forall|i: int| 0 <= i < 9 ==> #[trigger] member_at(e, PROJECTION_KEYS@[i]@) is Some
    &&& is_zero(member_at(e, "persistenceGeneration"@))
    &&& forall|i: int| 0 <= i < 6 ==> is_empty_list(#[trigger] member_at(e, EMPTY_LIST_KEYS@[i]@))
    &&& is_empty_object(member_at(e, "categorySettings"@))
    &&& settings_valid(member_at(e, "settings"@))
}

/// A document read as `parsed` that an erasure could have written.
pub open spec fn projection_valid(parsed: Option<JsonView>) -> bool {
    parsed matches Some(JsonView::Object(e)) && projection_members_valid(e)
}

/// The index of the first member with the key.
fn find_member(members: &[(String, JsonValue)], key: &str) -> (index: Option<usize>)
    ensures
        match index {
            Some(i) => i < members@.len() && member_at(entries_view(members@), key@) == Some(
                value_view(members@[i as int].1),
            ),
            None => member_at(entries_view(members@), key@) is None,
        },
{
    let ghost e = entries_view(members@);
    proof {
        lemma_entries_view(members@);
    }
    let k = chars_of(key);
    let mut i: usize = 0;
    assert(e.skip(0) == e);
    while i < members.len()
        invariant
            e == entries_view(members@),
            e.len() == members@.len(),
            forall|j: int| 0 <= j < members@.len() ==> #[trigger] e[j] == (members@[j].0@, value_view(members@[j].1)),
            k@ == key@,
            i <= e.len(),
            member_at(e, key@) == member_at(e.skip(i as int), key@),
        decreases members.len() - i,
    {
        assert(e.skip(i as int)[0] == e[i as int]);
        if chars_eq(&chars_of(members[i].0.as_str()), &k) {
            return Some(i);
        }
        assert(e.skip(i as int).drop_first() == e.skip(i + 1));
        i = i + 1;
    }
    None
}

/// Checks a projection document read as `parsed` (`None` when it is not
/// JSON): it must be one that an erasure could have written.
#[verifier::loop_isolation(false)]
pub fn check_projection(parsed: &Option<JsonValue>) -> (result: Result<(), StorageError>)
    ensures
        result is Ok <==> projection_valid(parsed_view(*parsed)),
        result matches Err(e) ==> e == StorageError::CommandConflict,
{
    let members = match parsed {
        Some(JsonValue::Object(m)) => m.as_slice(),
        _ => {
            return Err(StorageError::CommandConflict);
        },
    };
    let ghost e = entries_view(members@);
    proof {
        lemma_entries_view(members@);
    }
    if members.len() != 9 {
        return Err(StorageError::CommandConflict);
    }
    let mut i: usize = 0;
    while i < 9
        invariant
            e == entries_view(members@),
            i <= 9,
            forall|j: int| 0 <= j < i ==> #[trigger] member_at(e, PROJECTION_KEYS@[j]@) is Some,
        decreases 9 - i,
    {
        if find_member(members, PROJECTION_KEYS[i]).is_none() {
            return Err(StorageError::CommandConflict);
        }
        i = i + 1;
    }
    let zero = match find_member(members, "persistenceGeneration") {
        Some(at) => match &members[at].1 {
            JsonValue::Number(t) => chars_eq(&chars_of(t.as_str()), &chars_of("0")),
            _ => false,
        },
        None => false,
    };
    if !zero {
        return Err(StorageError::CommandConflict);
    }
    let mut k: usize = 0;
    while k < 6
        invariant
            e == entries_view(members@),
            k <= 6,
            forall|j: int| 0 <= j < k ==> is_empty_list(#[trigger] member_at(e, EMPTY_LIST_KEYS@[j]@)),
        decreases 6 - k,
    {
        let empty = match find_member(members, EMPTY_LIST_KEYS[k]) {
            Some(at) => match &members[at].1 {
                JsonValue::Array(items) => {
                    proof {
                        lemma_items_view(items@);
                    }
                    items.len() == 0
                },
                _ => false,
            },
            None => false,
        };
        if !empty {
            return Err(StorageError::CommandConflict);
        }
        k = k + 1;
    }
    let empty_object = match find_member(members, "categorySettings") {
        Some(at) => match &members[at].1 {
            JsonValue::Object(m) => {
                proof {
                    lemma_entries_view(m@);
                }
                m.len() == 0
            },
            _ => false,
        },
        None => false,
    };
    if !empty_object {
        return Err(StorageError::CommandConflict);
    }
    let fields = match find_member(members, "settings") {
        Some(at) => match &members[at].1 {
            JsonValue::Object(f) => f.as_slice(),
            _ => {
                return Err(StorageError::CommandConflict);
            },
        },
        None => {
            return Err(StorageError::CommandConflict);
        },
    };
    match retained_members(fields) {
        Some(pairs) => {
            let text = settings_object_text(&pairs);
            if text.as_str().as_bytes().len() <= MAX_SETTINGS_BYTES {
                Ok(())
            } else {
                Err(StorageError::CommandConflict)
            }
        },
        None => Err(StorageError::CommandConflict),
    }
}

/// Checks a stored projection document: the bytes must hold a document
/// that an erasure could have written.
pub fn validate_sanitized_application_state(bytes: &[u8]) -> (result: Result<(), StorageError>)
    ensures
        result is Ok <==> projection_valid(parsed_json(bytes@)),
        result matches Err(e) ==> e == StorageError::CommandConflict,
{
    let parsed = read_json(bytes);
    check_projection(&parsed)
}

/// A document whose members read back as the projection written for the
/// settings `settings`: the nine members in ascending key order, empty
/// lists, empty category settings, generation 0, and the settings read
/// back as they were.
pub open spec fn reads_back_as_projection(doc: Seq<(Seq<char>, JsonView)>, settings: Seq<(Seq<char>, JsonView)>) -> bool {
    &&& doc.len() == 9
    &&& forall|i: int| 0 <= i < 9 ==> (#[trigger] doc[i]).0 == PROJECTION_KEYS@[i]@
    &&& forall|i: int| 0 <= i < 9 && i != 1 && i != 5 && i != 7 ==> is_empty_list(Some((#[trigger] doc[i]).1))
    &&& is_empty_object(Some(doc[1].1))
    &&& is_zero(Some(doc[5].1))
    &&& doc[7].1 == JsonView::Object(settings)
}

/// The first member with a key that no earlier member has is found.
proof fn lemma_member_at_index(e: Seq<(Seq<char>, JsonView)>, i: int)
    requires
        0 <= i < e.len(),
        forall|j: int| 0 <= j < i ==> (#[trigger] e[j]).0 != e[i].0,
    ensures
        member_at(e, e[i].0) == Some(e[i].1),
    decreases i,
{
    if i > 0 {
        let d = e.drop_first();
        assert forall|j: int| 0 <= j < i - 1 implies (#[trigger] d[j]).0 != d[i - 1].0 by {
            assert(d[j] == e[j + 1]);
        }
        lemma_member_at_index(d, i - 1);
        assert(e[0].0 != e[i].0);
    }
}

/// What the projection writer writes passes the projection checker: when
/// an erasure keeps `settings` (read from `settings_len` bytes), a document
/// that reads back as the projection written for them is valid, provided
/// the settings' JSON text fits the size limit (writing numbers back may
/// lengthen it past the limit that the settings first met).
pub proof fn lemma_written_projection_passes_check(
    settings_len: nat,
    settings: Seq<(Seq<char>, JsonView)>,
    doc: Seq<(Seq<char>, JsonView)>,
)
    requires
        sanitized_projection(settings_len, Some(JsonView::Object(settings))) is Some,
        reads_back_as_projection(doc, settings),
        encode_utf8(object_text(written_members(settings))).len() <= MAX_SETTINGS_BYTES,
    ensures
        projection_valid(Some(JsonView::Object(doc))),
{
    reveal_strlit("categories");
    reveal_strlit("categorySettings");
    reveal_strlit("clips");
    reveal_strlit("episodes");
    reveal_strlit("notes");
    reveal_strlit("persistenceGeneration");
    reveal_strlit("podcasts");
    reveal_strlit("settings");
    reveal_strlit("subscriptions");
    let k = PROJECTION_KEYS@;
    assert(k[0]@ == "categories"@ && k[1]@ == "categorySettings"@ && k[2]@ == "clips"@ && k[3]@ == "episodes"@);
    assert(k[4]@ == "notes"@ && k[5]@ == "persistenceGeneration"@ && k[6]@ == "podcasts"@ && k[7]@ == "settings"@);
    assert(k[8]@ == "subscriptions"@);
    assert forall|i: int| 0 <= i < 9 implies member_at(doc, #[trigger] PROJECTION_KEYS@[i]@) == Some(doc[i].1) by {
        assert(doc[i].0 == k[i]@);
        assert forall|j: int| 0 <= j < i implies (#[trigger] doc[j]).0 != doc[i].0 by {
            assert(doc[j].0 == k[j]@);
            assert(k[j]@[0] != k[i]@[0] || k[j]@.len() != k[i]@.len() || k[j]@ != k[i]@);
        }
        lemma_member_at_index(doc, i);
    }
    assert(member_at(doc, "persistenceGeneration"@) == Some(doc[5].1));
    assert(member_at(doc, "categorySettings"@) == Some(doc[1].1));
    assert(member_at(doc, "settings"@) == Some(doc[7].1));
    let l = EMPTY_LIST_KEYS@;
    assert(l[0]@ == k[0]@ && l[1]@ == k[2]@ && l[2]@ == k[3]@ && l[3]@ == k[4]@ && l[4]@ == k[6]@ && l[5]@ == k[8]@);
    assert forall|i: int| 0 <= i < 6 implies is_empty_list(#[trigger] member_at(doc, EMPTY_LIST_KEYS@[i]@)) by {
        let at = if i == 0 { 0int } else if i == 1 { 2int } else if i == 2 { 3int } else if i == 3 { 4int } else if i == 4 { 6int } else { 8int };
        assert(member_at(doc, PROJECTION_KEYS@[at]@) == Some(doc[at].1));
        assert(is_empty_list(Some(doc[at].1)));
    }
}


/// Scalars are written as they were read: `true` and `false` as those
/// words, `null` as `null`, a number as its text and a string quoted; so
/// the two booleans are written differently, and a string never reads as a
/// boolean or `null`.
pub proof fn lemma_scalars_written_as_read(b: bool, c: bool, s: Seq<char>, t: Seq<char>)
    ensures
        scalar_text(JsonView::Bool(b)) == (if b { seq!['t', 'r', 'u', 'e'] } else { seq!['f', 'a', 'l', 's', 'e'] }),
        scalar_text(JsonView::Null) == seq!['n', 'u', 'l', 'l'],
        scalar_text(JsonView::Number(t)) == t,
        scalar_text(JsonView::Text(s)) == seq!['"'] + json_escaped(s) + seq!['"'],
        b != c ==> scalar_text(JsonView::Bool(b)) != scalar_text(JsonView::Bool(c)),
        scalar_text(JsonView::Text(s)) != scalar_text(JsonView::Bool(b)),
        scalar_text(JsonView::Text(s)) != scalar_text(JsonView::Null),
{
    reveal_strlit("true");
    reveal_strlit("false");
    reveal_strlit("null");
    let q = scalar_text(JsonView::Text(s));
    assert(q[0] == '"');
    assert("true"@ =~= seq!['t', 'r', 'u', 'e']);
    assert("false"@ =~= seq!['f', 'a', 'l', 's', 'e']);
    assert("null"@ =~= seq!['n', 'u', 'l', 'l']);
    if b != c {
        assert(scalar_text(JsonView::Bool(b)).len() != scalar_text(JsonView::Bool(c)).len());
    }
}

/// What a document that passes the projection check holds: nine members,
/// generation 0, each list member an empty array, category settings an
/// object without members, and settings an object of kept settings with
/// scalar values.
pub proof fn lemma_valid_projection_members(e: Seq<(Seq<char>, JsonView)>)
    requires
        projection_valid(Some(JsonView::Object(e))),
    ensures
        e.len() == 9,
        member_at(e, "persistenceGeneration"@) == Some(JsonView::Number(seq!['0'])),
        member_at(e, "categorySettings"@) == Some(JsonView::Object(Seq::empty())),
        forall|i: int| 0 <= i < 6 ==> #[trigger] member_at(e, EMPTY_LIST_KEYS@[i]@) == Some(JsonView::Array(Seq::empty())),
        member_at(e, "settings"@) matches Some(JsonView::Object(f)) && forall|j: int|
            0 <= j < f.len() ==> setting_allowed(#[trigger] f[j].0) && !(f[j].1 is Array) && !(f[j].1 is Object),
{
    reveal_strlit("0");
    assert("0"@ =~= seq!['0']);
    if let Some(JsonView::Object(f)) = member_at(e, "settings"@) {
        assert forall|j: int| 0 <= j < f.len() implies setting_allowed(#[trigger] f[j].0) && !(f[j].1 is Array) && !(
        f[j].1 is Object) by {
            assert(retainable(f[j]));
        }
    }
    if let Some(JsonView::Object(m)) = member_at(e, "categorySettings"@) {
        assert(m =~= Seq::empty());
    }
    assert forall|i: int| 0 <= i < 6 implies #[trigger] member_at(e, EMPTY_LIST_KEYS@[i]@) == Some(
        JsonView::Array(Seq::empty()),
    ) by {
        assert(is_empty_list(member_at(e, EMPTY_LIST_KEYS@[i]@)));
        if let Some(JsonView::Array(items)) = member_at(e, EMPTY_LIST_KEYS@[i]@) {
            assert(items =~= Seq::empty());
        }
    }
}

} // verus!
