//! The trailer of a stored log: the metadata as a JSON object, and the whole
//! log as the text of a note.
//!
//! The object has the members `schema_version`, `base_commit_sha` and
//! `prompts`, and may have `git_ai_version`. `prompts` is an object whose
//! members are named by the identifiers of the prompts; each holds `tool`,
//! `model`, `timestamp` and `commit_sha`. Other members are passed over.

use crate::authorship_log::{
    AuthorshipLog, AuthorshipLogView, AuthorshipMetadata, AuthorshipMetadataView, PromptRecord,
    PromptRecordView,
};
use crate::error::{GitAiError, GitAiErrorView};
use crate::json::{
    find_member, find_text_member, json_members_view, json_of_text, lemma_json_members_view,
    member, member_from, numbers_held, parse_json, text_member, text_of_json, write_json, Json,
    JsonView,
};
use crate::sequences::{
    lemma_deep_view_empty, lemma_deep_view_push, lemma_take_all, lemma_take_next,
};
use crate::serialization::{
    from_sections_spec, join_sections, join_sections_spec, minimal_metadata,
    serialize_attestations, serialize_attestations_spec, split_sections, split_sections_spec,
};
use crate::text::decode_text;
use crate::virtual_attribution::schema_version;
use vstd::prelude::*;
use vstd::string::*;
use vstd::utf8::*;

verus! {

// ---------------------------------------------------------------------------
// From JSON
// ---------------------------------------------------------------------------
/// The text of the member `key` where it may be left out: no text where the
/// member is absent or `null`, and nothing at all where it is of another
/// kind.
pub open spec fn optional_text_member(members: Seq<(Seq<char>, JsonView)>, key: Seq<char>)
    -> Option<Option<Seq<char>>> {
    match member(members, key) {
        None => Some(None),
        Some(JsonView::Null) => Some(None),
        Some(JsonView::Text(s)) => Some(Some(s)),
        _ => None,
    }
}

/// The number of the member `key`, where there is such a member and it is an
/// unsigned integer of 64 bits.
pub open spec fn number_member(members: Seq<(Seq<char>, JsonView)>, key: Seq<char>) -> Option<
    u64,
> {
    match member(members, key) {
        Some(JsonView::Number(Some(n))) => Some(n),
        _ => None,
    }
}

/// The prompt that the member `id` of `prompts` holds.
pub open spec fn prompt_of_json(id: Seq<char>, value: JsonView) -> Option<PromptRecordView> {
    match value {
        JsonView::Object(members) => match (
            text_member(members, "tool"@),
            text_member(members, "model"@),
            number_member(members, "timestamp"@),
            text_member(members, "commit_sha"@),
        ) {
            (Some(tool), Some(model), Some(timestamp), Some(commit_sha)) => Some(
                PromptRecordView { id, tool, model, timestamp, commit_sha },
            ),
            _ => None,
        },
        _ => None,
    }
}

/// The prompts that the members of `prompts` hold, where each holds one.
pub open spec fn prompts_of_json(members: Seq<(Seq<char>, JsonView)>) -> Option<
    Seq<PromptRecordView>,
>
    decreases members.len(),
{
    if members.len() == 0 {
        Some(Seq::empty())
    } else {
        match (
            prompts_of_json(members.drop_last()),
            prompt_of_json(members.last().0, members.last().1),
        ) {
            (Some(prompts), Some(p)) => Some(prompts.push(p)),
            _ => None,
        }
    }
}

/// The metadata that a JSON value holds, where it holds the members of a
/// trailer.
pub open spec fn metadata_of_json(value: JsonView) -> Option<AuthorshipMetadataView> {
    match value {
        JsonView::Object(members) => match (
            text_member(members, "schema_version"@),
            optional_text_member(members, "git_ai_version"@),
            text_member(members, "base_commit_sha"@),
            member(members, "prompts"@),
        ) {
            (
                Some(schema_version),
                Some(git_ai_version),
                Some(base_commit_sha),
                Some(JsonView::Object(prompts)),
            ) => match prompts_of_json(prompts) {
                Some(prompts) => Some(
                    AuthorshipMetadataView {
                        schema_version,
                        git_ai_version,
                        base_commit_sha,
                        prompts,
                    },
                ),
                None => None,
            },
            _ => None,
        },
        _ => None,
    }
}

fn prompt_from_json(id: &String, value: &Json) -> (r: Option<PromptRecord>)
    ensures
        r.deep_view() == prompt_of_json(id@, value@),
{
    match value {
        Json::Object(members) => {
            let tool = find_text_member(members, "tool");
            let model = find_text_member(members, "model");
            let timestamp = match find_member(members, "timestamp") {
                Some(Json::Number(Some(n))) => Some(*n),
                _ => None,
            };
            let commit_sha = find_text_member(members, "commit_sha");
            match (tool, model, timestamp, commit_sha) {
                (Some(tool), Some(model), Some(timestamp), Some(commit_sha)) => Some(
                    PromptRecord { id: id.clone(), tool, model, timestamp, commit_sha },
                ),
                _ => None,
            }
        },
        _ => None,
    }
}

fn prompts_from_json(members: &Vec<(String, Json)>) -> (r: Option<Vec<PromptRecord>>)
    ensures
        r.deep_view() == prompts_of_json(json_members_view(members@)),
{
    let ghost mv = json_members_view(members@);
    let mut prompts: Vec<PromptRecord> = Vec::new();
    let mut i: usize = 0;
    proof {
        lemma_json_members_view(members@);
        lemma_deep_view_empty(prompts);
        assert(mv.take(0) =~= Seq::<(Seq<char>, JsonView)>::empty());
    }
    while i < members.len()
        invariant
            0 <= i <= members.len(),
            mv == json_members_view(members@),
            mv.len() == members@.len(),
            forall|k: int|
                0 <= k < members@.len() ==> #[trigger] mv[k] == (members@[k].0@, members@[k].1@),
            prompts_of_json(mv.take(i as int)) == Some(prompts.deep_view()),
        decreases members.len() - i,
    {
        proof {
            lemma_take_next(mv, i as int);
        }
        match prompt_from_json(&members[i].0, &members[i].1) {
            None => {
                proof {
                    lemma_prompts_of_json_prefix(mv, i + 1);
                }
                return None;
            },
            Some(p) => {
                let ghost before = prompts;
                prompts.push(p);
                proof {
                    lemma_deep_view_push(before, prompts, p);
                }
            },
        }
        i += 1;
    }
    proof {
        lemma_take_all(mv);
    }
    Some(prompts)
}

proof fn lemma_prompts_of_json_prefix(members: Seq<(Seq<char>, JsonView)>, k: int)
    requires
        0 <= k <= members.len(),
        prompts_of_json(members.take(k)) is None,
    ensures
        prompts_of_json(members) is None,
    decreases members.len() - k,
{
    if k < members.len() {
        lemma_take_next(members, k);
        lemma_prompts_of_json_prefix(members, k + 1);
    } else {
        lemma_take_all(members);
    }
}

/// Reads the metadata of a log from the JSON value of its trailer.
pub fn metadata_from_json(value: &Json) -> (r: Option<AuthorshipMetadata>)
    ensures
        r.deep_view() == metadata_of_json(value@),
{
    match value {
        Json::Object(members) => {
            let schema_version = find_text_member(members, "schema_version");
            let git_ai_version = match find_member(members, "git_ai_version") {
                None => Some(None),
                Some(Json::Null) => Some(None),
                Some(Json::Text(s)) => Some(Some(s.clone())),
                _ => None,
            };
            let base_commit_sha = find_text_member(members, "base_commit_sha");
            let prompts = match find_member(members, "prompts") {
                Some(Json::Object(held)) => prompts_from_json(held),
                _ => None,
            };
            match (schema_version, git_ai_version, base_commit_sha, prompts) {
                (Some(schema_version), Some(git_ai_version), Some(base_commit_sha), Some(prompts)) => {
                    Some(
                        AuthorshipMetadata {
                            schema_version,
                            git_ai_version,
                            base_commit_sha,
                            prompts,
                        },
                    )
                },
                _ => None,
            }
        },
        _ => None,
    }
}

// ---------------------------------------------------------------------------
// To JSON
// ---------------------------------------------------------------------------
/// The JSON object of a prompt, its members sorted by their names, as they
/// are written.
pub open spec fn prompt_json(p: PromptRecordView) -> JsonView {
    JsonView::Object(
        seq![
            ("commit_sha"@, JsonView::Text(p.commit_sha)),
            ("model"@, JsonView::Text(p.model)),
            ("timestamp"@, JsonView::Number(Some(p.timestamp))),
            ("tool"@, JsonView::Text(p.tool)),
        ],
    )
}

/// The members of the object of the prompts: one for each prompt, named by
/// its identifier.
pub open spec fn prompts_json(prompts: Seq<PromptRecordView>) -> Seq<(Seq<char>, JsonView)>
    decreases prompts.len(),
{
    if prompts.len() == 0 {
        Seq::empty()
    } else {
        prompts_json(prompts.drop_last()).push((prompts.last().id, prompt_json(prompts.last())))
    }
}

/// The member of the tool version, where the metadata hold one.
pub open spec fn version_members(version: Option<Seq<char>>) -> Seq<(Seq<char>, JsonView)> {
    match version {
        Some(v) => seq![("git_ai_version"@, JsonView::Text(v))],
        None => Seq::empty(),
    }
}

/// The JSON object of the metadata, its members sorted by their names, as
/// they are written.
pub open spec fn metadata_json(m: AuthorshipMetadataView) -> JsonView {
    JsonView::Object(
        seq![("base_commit_sha"@, JsonView::Text(m.base_commit_sha))] + version_members(
            m.git_ai_version,
        ) + seq![
            ("prompts"@, JsonView::Object(prompts_json(m.prompts))),
            ("schema_version"@, JsonView::Text(m.schema_version)),
        ],
    )
}

/// The JSON object of metadata holds every number it has.
pub proof fn lemma_metadata_json_numbers_held(m: AuthorshipMetadataView)
    ensures
        numbers_held(metadata_json(m)),
{
    let prompts = prompts_json(m.prompts);
    lemma_prompts_json_numbers_held(m.prompts);
    assert(numbers_held(JsonView::Object(prompts)));
    let members = metadata_json(m)->Object_0;
    assert forall|i: int| 0 <= i < members.len() implies numbers_held(
        (#[trigger] members[i]).1,
    ) by {
        match m.git_ai_version {
            Some(v) => {},
            None => {},
        }
    }
}

proof fn lemma_prompts_json_numbers_held(prompts: Seq<PromptRecordView>)
    ensures
        forall|i: int|
            0 <= i < prompts_json(prompts).len() ==> numbers_held(
                (#[trigger] prompts_json(prompts)[i]).1,
            ),
    decreases prompts.len(),
{
    if prompts.len() > 0 {
        lemma_prompts_json_numbers_held(prompts.drop_last());
        let p = prompts.last();
        let members = prompt_json(p)->Object_0;
        assert forall|i: int| 0 <= i < members.len() implies numbers_held(
            (#[trigger] members[i]).1,
        ) by {}
        assert(numbers_held(prompt_json(p)));
        let before = prompts_json(prompts.drop_last());
        let all = prompts_json(prompts);
        assert forall|i: int| 0 <= i < all.len() implies numbers_held((#[trigger] all[i]).1) by {
            if i < before.len() {
                assert(all[i] == before[i]);
            }
        }
    }
}

fn text_pair(key: &str, value: &String) -> (r: (String, Json))
    ensures
        (r.0@, r.1@) == (key@, JsonView::Text(value@)),
{
    (key.to_owned(), Json::Text(value.clone()))
}

fn json_from_prompt(p: &PromptRecord) -> (r: (String, Json))
    ensures
        (r.0@, r.1@) == (p@.id, prompt_json(p@)),
{
    let mut members: Vec<(String, Json)> = Vec::new();
    members.push(text_pair("commit_sha", &p.commit_sha));
    members.push(text_pair("model", &p.model));
    members.push(("timestamp".to_owned(), Json::Number(Some(p.timestamp))));
    members.push(text_pair("tool", &p.tool));
    proof {
        lemma_json_members_view(members@);
        assert(json_members_view(members@) =~= prompt_json(p@)->Object_0);
    }
    (p.id.clone(), Json::Object(members))
}

fn json_from_prompts(prompts: &Vec<PromptRecord>) -> (r: Vec<(String, Json)>)
    ensures
        json_members_view(r@) == prompts_json(prompts.deep_view()),
{
    let ghost pv = prompts.deep_view();
    let mut members: Vec<(String, Json)> = Vec::new();
    let mut i: usize = 0;
    proof {
        assert(pv.take(0) =~= Seq::<PromptRecordView>::empty());
    }
    while i < prompts.len()
        invariant
            0 <= i <= prompts.len(),
            pv == prompts.deep_view(),
            json_members_view(members@) == prompts_json(pv.take(i as int)),
        decreases prompts.len() - i,
    {
        let ghost before = members@;
        let item = json_from_prompt(&prompts[i]);
        members.push(item);
        proof {
            lemma_take_next(pv, i as int);
            assert(members@.drop_last() =~= before);
        }
        i += 1;
    }
    proof {
        lemma_take_all(pv);
    }
    members
}

/// Makes the JSON value of the trailer of a log.
pub fn json_from_metadata(m: &AuthorshipMetadata) -> (r: Json)
    ensures
        r@ == metadata_json(m@),
{
    let mut members: Vec<(String, Json)> = Vec::new();
    members.push(text_pair("base_commit_sha", &m.base_commit_sha));
    match &m.git_ai_version {
        Some(v) => {
            members.push(text_pair("git_ai_version", v));
        },
        None => {},
    }
    members.push(("prompts".to_owned(), Json::Object(json_from_prompts(&m.prompts))));
    members.push(text_pair("schema_version", &m.schema_version));
    proof {
        lemma_json_members_view(members@);
        assert(json_members_view(members@) =~= metadata_json(m@)->Object_0);
    }
    Json::Object(members)
}

// ---------------------------------------------------------------------------
// Laws of the trailer
// ---------------------------------------------------------------------------
proof fn lemma_member_at(members: Seq<(Seq<char>, JsonView)>, key: Seq<char>, k: int)
    requires
        0 <= k < members.len(),
        members[k].0 == key,
        forall|j: int| 0 <= j < k ==> (#[trigger] members[j]).0 != key,
    ensures
        member(members, key) == Some(members[k].1),
{
    lemma_member_from_at(members, key, 0, k);
}

proof fn lemma_member_from_at(members: Seq<(Seq<char>, JsonView)>, key: Seq<char>, i: int, k: int)
    requires
        0 <= i <= k < members.len(),
        members[k].0 == key,
        forall|j: int| i <= j < k ==> (#[trigger] members[j]).0 != key,
    ensures
        member_from(members, key, i) == Some(members[k].1),
    decreases k - i,
{
    if i < k {
        lemma_member_from_at(members, key, i + 1, k);
    }
}

proof fn lemma_member_absent(members: Seq<(Seq<char>, JsonView)>, key: Seq<char>, i: int)
    requires
        0 <= i,
        forall|j: int| i <= j < members.len() ==> (#[trigger] members[j]).0 != key,
    ensures
        member_from(members, key, i) is None,
    decreases members.len() - i,
{
    if i < members.len() {
        lemma_member_absent(members, key, i + 1);
    }
}

proof fn lemma_prompt_round_trip(p: PromptRecordView)
    ensures
        prompt_of_json(p.id, prompt_json(p)) == Some(p),
{
    reveal_strlit("tool");
    reveal_strlit("model");
    reveal_strlit("timestamp");
    reveal_strlit("commit_sha");
    let members = prompt_json(p)->Object_0;
    assert("tool"@.len() == 4 && "model"@.len() == 5 && "timestamp"@.len() == 9
        && "commit_sha"@.len() == 10);
    lemma_member_at(members, "commit_sha"@, 0);
    lemma_member_at(members, "model"@, 1);
    lemma_member_at(members, "timestamp"@, 2);
    lemma_member_at(members, "tool"@, 3);
}

proof fn lemma_prompts_round_trip(prompts: Seq<PromptRecordView>)
    ensures
        prompts_of_json(prompts_json(prompts)) == Some(prompts),
    decreases prompts.len(),
{
    if prompts.len() > 0 {
        lemma_prompts_round_trip(prompts.drop_last());
        lemma_prompt_round_trip(prompts.last());
        let written = prompts_json(prompts);
        assert(written.drop_last() =~= prompts_json(prompts.drop_last()));
        assert(prompts.drop_last().push(prompts.last()) =~= prompts);
    }
}

/// Metadata that are written as a JSON value are read back from it as they
/// were.
pub proof fn lemma_metadata_round_trip(m: AuthorshipMetadataView)
    ensures
        metadata_of_json(metadata_json(m)) == Some(m),
{
    reveal_strlit("schema_version");
    reveal_strlit("git_ai_version");
    reveal_strlit("base_commit_sha");
    reveal_strlit("prompts");
    let members = metadata_json(m)->Object_0;
    assert("schema_version"@[0] == 's' && "git_ai_version"@[0] == 'g' && "base_commit_sha"@[0]
        == 'b' && "prompts"@[0] == 'p');
    lemma_prompts_round_trip(m.prompts);
    lemma_member_at(members, "base_commit_sha"@, 0);
    match m.git_ai_version {
        Some(v) => {
            lemma_member_at(members, "git_ai_version"@, 1);
            lemma_member_at(members, "prompts"@, 2);
            lemma_member_at(members, "schema_version"@, 3);
        },
        None => {
            lemma_member_absent(members, "git_ai_version"@, 0);
            lemma_member_at(members, "prompts"@, 1);
            lemma_member_at(members, "schema_version"@, 2);
        },
    }
}

/// A trailer that holds nothing but a schema version, an empty base commit
/// and no prompt holds the minimal metadata.
pub proof fn lemma_minimal_trailer()
    ensures
        metadata_of_json(
            JsonView::Object(
                seq![
                    ("base_commit_sha"@, JsonView::Text(Seq::empty())),
                    ("prompts"@, JsonView::Object(Seq::empty())),
                    ("schema_version"@, JsonView::Text(schema_version())),
                ],
            ),
        ) == Some(minimal_metadata()),
{
    lemma_metadata_round_trip(minimal_metadata());
    assert(metadata_json(minimal_metadata())->Object_0 =~= seq![
        ("base_commit_sha"@, JsonView::Text(Seq::empty())),
        ("prompts"@, JsonView::Object(Seq::empty())),
        ("schema_version"@, JsonView::Text(schema_version())),
    ]);
}

// ---------------------------------------------------------------------------
// Whole logs
// ---------------------------------------------------------------------------
/// The message for a note that is no UTF-8 text.
pub open spec fn note_not_text_message() -> Seq<char> {
    "Authorship log is no UTF-8 text"@
}

/// The message for a note without divider.
pub open spec fn note_without_divider_message() -> Seq<char> {
    "Authorship log has no section divider"@
}

/// The message for a trailer that is no JSON.
pub open spec fn trailer_not_json_message() -> Seq<char> {
    "Metadata of authorship log is no JSON"@
}

/// The message for a trailer that lacks a member or holds a wrong one.
pub open spec fn trailer_incomplete_message() -> Seq<char> {
    "Metadata of authorship log lacks a member or holds a wrong one"@
}

/// The log that the sections hold, given what the trailer is as JSON.
pub open spec fn log_of_sections(attestations: Seq<char>, trailer: Option<JsonView>) -> Result<
    AuthorshipLogView,
    GitAiErrorView,
> {
    match trailer {
        None => Err(GitAiErrorView::DecodeFailure(trailer_not_json_message())),
        Some(json) => match metadata_of_json(json) {
            None => Err(GitAiErrorView::DecodeFailure(trailer_incomplete_message())),
            Some(metadata) => from_sections_spec(attestations, metadata),
        },
    }
}

/// The log that the text of a note holds: a decode failure where the text
/// has no divider, its trailer is no JSON or lacks what a trailer holds, the
/// schema version is another, or the attestations are malformed.
pub open spec fn deserialize_from_string_spec(content: Seq<char>) -> Result<
    AuthorshipLogView,
    GitAiErrorView,
> {
    match split_sections_spec(content) {
        None => Err(GitAiErrorView::DecodeFailure(note_without_divider_message())),
        Some((attestations, trailer)) => log_of_sections(attestations, json_of_text(trailer)),
    }
}

/// The text of the note of a log.
pub open spec fn serialize_to_string_spec(log: AuthorshipLogView) -> Seq<char> {
    join_sections_spec(
        serialize_attestations_spec(log.attestations),
        text_of_json(metadata_json(log.metadata)),
    )
}

/// The log of the note of a commit. A commit without note has none, which is
/// no error; a note that is no text, or holds no log, cannot be decoded.
pub open spec fn read_note_spec(note: Option<Seq<u8>>) -> Result<
    Option<AuthorshipLogView>,
    GitAiErrorView,
> {
    match note {
        None => Ok(None),
        Some(bytes) => if !valid_utf8(bytes) {
            Err(GitAiErrorView::DecodeFailure(note_not_text_message()))
        } else {
            match deserialize_from_string_spec(decode_utf8(bytes)) {
                Ok(log) => Ok(Some(log)),
                Err(e) => Err(e),
            }
        },
    }
}

impl AuthorshipLog {
    /// Makes a log of the section of attestations and of the JSON value of
    /// the trailer, if the trailer was JSON. The log that is made is well
    /// formed.
    pub fn from_json_sections(attestations: &str, trailer: Option<&Json>) -> (r: Result<
        AuthorshipLog,
        GitAiError,
    >)
        ensures
            match log_of_sections(
                attestations@,
                match trailer {
                    Some(json) => Some(json@),
                    None => None,
                },
            ) {
                Ok(log) => r matches Ok(x) && x@ == log,
                Err(e) => r matches Err(x) && x@ == e,
            },
            r matches Ok(x) ==> x@.well_formed(),
    {
        match trailer {
            None => Err(GitAiError::DecodeFailure("Metadata of authorship log is no JSON".to_owned())),
            Some(json) => match metadata_from_json(json) {
                None => Err(
                    GitAiError::DecodeFailure(
                        "Metadata of authorship log lacks a member or holds a wrong one".to_owned(),
                    ),
                ),
                Some(metadata) => AuthorshipLog::from_sections(attestations, metadata),
            },
        }
    }

    /// Reads a log from the text of a note. The log that is read is well
    /// formed.
    pub fn deserialize_from_string(content: &str) -> (r: Result<AuthorshipLog, GitAiError>)
        ensures
            match deserialize_from_string_spec(content@) {
                Ok(log) => r matches Ok(x) && x@ == log,
                Err(e) => r matches Err(x) && x@ == e,
            },
            r matches Ok(x) ==> x@.well_formed(),
    {
        match split_sections(content) {
            None => Err(GitAiError::DecodeFailure("Authorship log has no section divider".to_owned())),
            Some((attestations, trailer)) => {
                let json = parse_json(trailer.as_str());
                AuthorshipLog::from_json_sections(attestations.as_str(), json.as_ref())
            },
        }
    }

    /// Writes the log as the text of a note.
    pub fn serialize_to_string(&self) -> (s: String)
        ensures
            s@ == serialize_to_string_spec(self@),
    {
        let attestations = serialize_attestations(self.attestations.as_slice());
        let json = json_from_metadata(&self.metadata);
        proof {
            lemma_metadata_json_numbers_held(self.metadata@);
        }
        let trailer = write_json(&json);
        join_sections(attestations.as_str(), trailer.as_str())
    }
}

/// Reads the log of a commit from its note, if it has one.
pub fn read_note(note: Option<&[u8]>) -> (r: Result<Option<AuthorshipLog>, GitAiError>)
    ensures
        match read_note_spec(
            match note {
                Some(bytes) => Some(bytes@),
                None => None,
            },
        ) {
            Ok(log) => r matches Ok(x) && x.deep_view() == log,
            Err(e) => r matches Err(x) && x@ == e,
        },
{
    match note {
        None => Ok(None),
        Some(bytes) => match decode_text(bytes) {
            None => Err(GitAiError::DecodeFailure("Authorship log is no UTF-8 text".to_owned())),
            Some(text) => match AuthorshipLog::deserialize_from_string(text.as_str()) {
                Ok(log) => Ok(Some(log)),
                Err(e) => Err(e),
            },
        },
    }
}

} // verus!
