use git_ai::authorship_log::{
    entries_lookup, files_lookup, prompts_lookup, AttributionRef, AuthorshipLog,
    AuthorshipMetadata, Entry, FileAttestation, PromptCache, PromptRecord,
};
use git_ai::error::GitAiError;
use git_ai::json::{find_member, find_text_member, Json};
use git_ai::serialization::{
    join_sections, note_file_paths, parse_attestations, prompts_are_distinct,
    serialize_attestations, split_sections,
};
use git_ai::trailer::{json_from_metadata, metadata_from_json, read_note};

fn prompt(id: &str, tool: &str, commit: &str) -> PromptRecord {
    PromptRecord {
        id: id.to_string(),
        tool: tool.to_string(),
        model: "model-x".to_string(),
        timestamp: 1_700_000_000,
        commit_sha: commit.to_string(),
    }
}

fn ai(start: u32, end: u32, id: &str) -> Entry {
    Entry { start_line: start, end_line: end, reference: AttributionRef::Prompt(id.to_string()) }
}

fn human(start: u32, end: u32, author: &str) -> Entry {
    Entry { start_line: start, end_line: end, reference: AttributionRef::Human(author.to_string()) }
}

fn sample_log() -> AuthorshipLog {
    AuthorshipLog {
        attestations: vec![
            FileAttestation {
                file_path: "src/a.rs".to_string(),
                entries: vec![ai(1, 3, "pa"), human(4, 4, "alice"), ai(7, 9, "pz")],
            },
            FileAttestation { file_path: "b.txt".to_string(), entries: vec![human(1, 2, "bob")] },
        ],
        metadata: AuthorshipMetadata {
            schema_version: "authorship/3.0.0".to_string(),
            git_ai_version: Some("1.0.0".to_string()),
            base_commit_sha: "abc".to_string(),
            prompts: vec![prompt("pa", "cursor", "c1")],
        },
    }
}

const SAMPLE_SECTION: &str =
    "src/a.rs\n  1-3 ai pa\n  4-4 human alice\n  7-9 ai pz\nb.txt\n  1-2 human bob";

#[test]
fn line_of_own_prompt_is_attributed_to_its_tool() {
    let log = sample_log();
    let cache = PromptCache::new();
    assert_eq!(
        log.get_line_attribution("src/a.rs", 2, &cache),
        Some(("cursor".to_string(), Some("pa".to_string()), Some(prompt("pa", "cursor", "c1"))))
    );
    assert_eq!(log.get_line_attribution("src/a.rs", 1, &cache).unwrap().0, "cursor");
    assert_eq!(log.get_line_attribution("src/a.rs", 3, &cache).unwrap().0, "cursor");
}

#[test]
fn line_of_a_human_has_the_author_alone() {
    let log = sample_log();
    let cache = PromptCache::new();
    assert_eq!(
        log.get_line_attribution("src/a.rs", 4, &cache),
        Some(("alice".to_string(), None, None))
    );
    assert_eq!(log.get_line_attribution("b.txt", 2, &cache), Some(("bob".to_string(), None, None)));
}

#[test]
fn line_without_entry_has_no_data() {
    let log = sample_log();
    let cache = PromptCache::new();
    assert_eq!(log.get_line_attribution("src/a.rs", 5, &cache), None);
    assert_eq!(log.get_line_attribution("src/a.rs", 0, &cache), None);
    assert_eq!(log.get_line_attribution("src/a.rs", 10, &cache), None);
    assert_eq!(log.get_line_attribution("missing.rs", 1, &cache), None);
    assert_eq!(log.get_line_attribution("b.txt", 3, &cache), None);
}

#[test]
fn foreign_prompt_is_taken_from_the_cache() {
    let log = sample_log();
    let mut cache = PromptCache::new();
    assert_eq!(log.get_line_attribution("src/a.rs", 8, &cache), None);
    cache.insert("pz".to_string(), Some(prompt("pz", "copilot", "c0")));
    assert_eq!(
        log.get_line_attribution("src/a.rs", 8, &cache),
        Some(("copilot".to_string(), Some("pz".to_string()), Some(prompt("pz", "copilot", "c0"))))
    );
    cache.insert("pz".to_string(), None);
    assert_eq!(log.get_line_attribution("src/a.rs", 8, &cache), None);
}

#[test]
fn own_prompt_wins_over_the_cache() {
    let log = sample_log();
    let mut cache = PromptCache::new();
    cache.insert("pa".to_string(), Some(prompt("pa", "other", "c7")));
    assert_eq!(log.get_line_attribution("src/a.rs", 2, &cache).unwrap().0, "cursor");
}

#[test]
fn cache_remembers_the_last_answer() {
    let mut cache = PromptCache::new();
    assert_eq!(cache.get("x"), None);
    cache.insert("x".to_string(), None);
    assert_eq!(cache.get("x"), Some(None));
    cache.insert("y".to_string(), Some(prompt("y", "gemini", "c")));
    cache.insert("x".to_string(), Some(prompt("x", "cursor", "c")));
    assert_eq!(cache.get("x"), Some(Some(prompt("x", "cursor", "c"))));
    assert_eq!(cache.get("y"), Some(Some(prompt("y", "gemini", "c"))));
    assert_eq!(cache.get("z"), None);
}

#[test]
fn first_matching_entry_file_and_prompt_win() {
    let entries = vec![ai(1, 5, "first"), human(3, 8, "late")];
    assert_eq!(entries_lookup(&entries, 4), Some(AttributionRef::Prompt("first".to_string())));
    assert_eq!(entries_lookup(&entries, 7), Some(AttributionRef::Human("late".to_string())));
    assert_eq!(entries_lookup(&entries, 9), None);
    let files = vec![
        FileAttestation { file_path: "f".to_string(), entries: vec![human(1, 1, "a")] },
        FileAttestation { file_path: "g".to_string(), entries: vec![human(1, 9, "g")] },
        FileAttestation { file_path: "f".to_string(), entries: vec![human(1, 2, "b")] },
    ];
    assert_eq!(files_lookup(&files, "f", 1), Some(AttributionRef::Human("a".to_string())));
    assert_eq!(files_lookup(&files, "f", 2), Some(AttributionRef::Human("b".to_string())));
    assert_eq!(files_lookup(&files, "f", 3), None);
    let prompts = vec![prompt("p", "one", "c1"), prompt("q", "two", "c2"), prompt("p", "three", "c3")];
    assert_eq!(prompts_lookup(&prompts, "p"), Some(prompt("p", "one", "c1")));
    assert_eq!(prompts_lookup(&prompts, "q"), Some(prompt("q", "two", "c2")));
    assert_eq!(prompts_lookup(&prompts, "r"), None);
}

#[test]
fn attestations_are_written_line_by_line() {
    assert_eq!(serialize_attestations(&sample_log().attestations), SAMPLE_SECTION);
    assert_eq!(sample_log().serialize_attestations(), SAMPLE_SECTION);
    assert_eq!(serialize_attestations(&[]), "");
    let lonely = vec![FileAttestation { file_path: "only.rs".to_string(), entries: vec![] }];
    assert_eq!(serialize_attestations(&lonely), "only.rs");
    let big = vec![FileAttestation {
        file_path: "x".to_string(),
        entries: vec![ai(10, 4294967295, "id with space")],
    }];
    assert_eq!(serialize_attestations(&big), "x\n  10-4294967295 ai id with space");
}

#[test]
fn attestations_are_read_back() {
    assert_eq!(parse_attestations(SAMPLE_SECTION), Some(sample_log().attestations));
    assert_eq!(parse_attestations(""), Some(vec![]));
    assert_eq!(
        parse_attestations("dir/my file.rs\n  1-2 human Alice B <a@b.c>\r\n"),
        Some(vec![FileAttestation {
            file_path: "dir/my file.rs".to_string(),
            entries: vec![human(1, 2, "Alice B <a@b.c>")],
        }])
    );
}

#[test]
fn written_attestations_read_back_as_they_were() {
    let files = vec![
        FileAttestation { file_path: "a".to_string(), entries: vec![] },
        FileAttestation {
            file_path: "b/c d.rs".to_string(),
            entries: vec![ai(1, 1, "p"), human(2, 30, "x y"), ai(31, 4000000000, "q-r")],
        },
        FileAttestation { file_path: "---".to_string(), entries: vec![human(7, 7, "")] },
    ];
    assert_eq!(parse_attestations(&serialize_attestations(&files)), Some(files));
}

#[test]
fn malformed_attestations_are_refused() {
    for bad in [
        "  1-2 ai x",
        "a.rs\n\n  1-2 ai x",
        "a.rs\n  0-2 ai x",
        "a.rs\n  3-2 ai x",
        "a.rs\n  1-2 robot x",
        "a.rs\n 1-2 ai x",
        "a.rs\n  1-2",
        "a.rs\n  12 ai x",
        "a.rs\n  1-2 ai",
        "a.rs\n  1-x ai y",
        "a.rs\n  1-4294967296 ai y",
        "\na.rs",
        "a.rs\n  1-2 ai x\n  2-3 ai y",
        "a.rs\n  5-6 ai x\n  1-2 ai y",
        "a.rs\nb.rs\na.rs",
        "a.rs\n  1-1 ai x\nb.rs\n  1-1 ai x\na.rs\n  2-2 ai x",
    ] {
        assert_eq!(parse_attestations(bad), None, "{:?}", bad);
    }
}

#[test]
fn sections_part_at_the_first_divider() {
    assert_eq!(
        split_sections("a.rs\n  1-2 ai p\n---\n{\"k\":1}"),
        Some(("a.rs\n  1-2 ai p".to_string(), "{\"k\":1}".to_string()))
    );
    assert_eq!(split_sections("\n---\n{}"), Some((String::new(), "{}".to_string())));
    assert_eq!(split_sections("x\n---\ny\n---\nz"), Some(("x".to_string(), "y\n---\nz".to_string())));
    assert_eq!(split_sections("x\n---"), None);
    assert_eq!(split_sections("---\n{}"), None);
    assert_eq!(split_sections(""), None);
    assert_eq!(join_sections("a", "b"), "a\n---\nb");
    assert_eq!(split_sections(&join_sections(SAMPLE_SECTION, "{}")), Some((SAMPLE_SECTION.to_string(), "{}".to_string())));
}

#[test]
fn log_is_made_of_sections() {
    let log = sample_log();
    assert_eq!(AuthorshipLog::from_sections(SAMPLE_SECTION, sample_log().metadata), Ok(log));
    let mut old = sample_log().metadata;
    old.schema_version = "authorship/2.0.0".to_string();
    assert_eq!(
        AuthorshipLog::from_sections(SAMPLE_SECTION, old),
        Err(GitAiError::DecodeFailure("Unsupported schema version of authorship log".to_string()))
    );
    assert_eq!(
        AuthorshipLog::from_sections("  1-1 ai x", sample_log().metadata),
        Err(GitAiError::DecodeFailure("Malformed attestations in authorship log".to_string()))
    );
}

#[test]
fn log_with_a_prompt_named_twice_is_refused() {
    let mut twice = sample_log().metadata;
    twice.prompts = vec![prompt("p", "a", "c"), prompt("q", "b", "c"), prompt("p", "c", "d")];
    assert!(!prompts_are_distinct(&twice.prompts));
    assert!(prompts_are_distinct(&twice.prompts[..2].to_vec()));
    assert!(prompts_are_distinct(&vec![]));
    assert_eq!(
        AuthorshipLog::from_sections(SAMPLE_SECTION, twice),
        Err(GitAiError::DecodeFailure("Duplicate prompt identifier in authorship log".to_string()))
    );
}

const SAMPLE_TRAILER: &str = "{\"base_commit_sha\":\"abc\",\"git_ai_version\":\"1.0.0\",\"prompts\":{\"pa\":{\"commit_sha\":\"c1\",\"model\":\"model-x\",\"timestamp\":1700000000,\"tool\":\"cursor\"}},\"schema_version\":\"authorship/3.0.0\"}";

fn sample_note() -> String {
    format!("{}\n---\n{}", SAMPLE_SECTION, SAMPLE_TRAILER)
}

#[test]
fn missing_note_is_no_decode_failure() {
    assert_eq!(read_note(None), Ok(None));
    assert_eq!(read_note(Some(sample_note().as_bytes())), Ok(Some(sample_log())));
    assert_eq!(
        read_note(Some(b"a.rs only")),
        Err(GitAiError::DecodeFailure("Authorship log has no section divider".to_string()))
    );
    assert_eq!(
        read_note(Some(&[0xff, 0x0a])),
        Err(GitAiError::DecodeFailure("Authorship log is no UTF-8 text".to_string()))
    );
}

#[test]
fn log_is_written_as_the_text_of_a_note() {
    assert_eq!(sample_log().serialize_to_string(), sample_note());
    let mut bare = sample_log();
    bare.attestations.clear();
    bare.metadata.git_ai_version = None;
    bare.metadata.prompts.clear();
    bare.metadata.base_commit_sha.clear();
    assert_eq!(
        bare.serialize_to_string(),
        "\n---\n{\"base_commit_sha\":\"\",\"prompts\":{},\"schema_version\":\"authorship/3.0.0\"}"
    );
}

#[test]
fn log_is_read_from_the_text_of_a_note() {
    assert_eq!(AuthorshipLog::deserialize_from_string(&sample_note()), Ok(sample_log()));
    let spaced = format!(
        "{}\n---\n{}",
        SAMPLE_SECTION,
        "{ \"schema_version\" : \"authorship/3.0.0\",\n  \"unknown\": [1, 2.5, {\"x\": null}],\n  \"git_ai_version\": null, \"base_commit_sha\": \"a\\u0062c\", \"prompts\": { } }"
    );
    let read = AuthorshipLog::deserialize_from_string(&spaced).unwrap();
    assert_eq!(read.attestations, sample_log().attestations);
    assert_eq!(read.metadata.base_commit_sha, "abc");
    assert_eq!(read.metadata.git_ai_version, None);
    assert_eq!(read.metadata.prompts, vec![]);
}

#[test]
fn minimal_trailer_is_accepted() {
    let note = format!(
        "{}\n---\n{}",
        SAMPLE_SECTION, "{\"schema_version\":\"authorship/3.0.0\",\"base_commit_sha\":\"\",\"prompts\":{}}"
    );
    let read = AuthorshipLog::deserialize_from_string(&note).unwrap();
    assert_eq!(read.attestations, sample_log().attestations);
    assert_eq!(read.metadata, AuthorshipMetadata::minimal());
}

#[test]
fn written_log_is_read_back_as_it_was() {
    let mut log = sample_log();
    log.metadata.prompts = vec![
        prompt("a \"quoted\" id", "tool\\with\nescapes", "c1"),
        prompt("pa", "cursor", "c1"),
        prompt("z\u{1F916}", "gemini", ""),
    ];
    log.metadata.prompts[2].timestamp = u64::MAX;
    assert_eq!(AuthorshipLog::deserialize_from_string(&log.serialize_to_string()), Ok(log));
}

#[test]
fn prompts_are_read_back_sorted_by_their_identifiers() {
    let mut log = sample_log();
    log.metadata.prompts = vec![prompt("pz", "gemini", "c2"), prompt("pa", "cursor", "c1")];
    let read = AuthorshipLog::deserialize_from_string(&log.serialize_to_string()).unwrap();
    assert_eq!(read.attestations, log.attestations);
    assert_eq!(read.metadata.prompts, vec![prompt("pa", "cursor", "c1"), prompt("pz", "gemini", "c2")]);
    assert_eq!(AuthorshipLog::deserialize_from_string(&read.serialize_to_string()), Ok(read));
}

#[test]
fn path_that_reads_like_the_divider_is_read_back_only_in_the_first_place() {
    let mut log = sample_log();
    log.attestations[0].file_path = "---".to_string();
    assert_eq!(AuthorshipLog::deserialize_from_string(&log.serialize_to_string()), Ok(log.clone()));
    log.attestations[0].file_path = "src/a.rs".to_string();
    log.attestations[1].file_path = "---".to_string();
    assert!(AuthorshipLog::deserialize_from_string(&log.serialize_to_string()).is_err());
    log.attestations[1].file_path = "----".to_string();
    assert_eq!(AuthorshipLog::deserialize_from_string(&log.serialize_to_string()), Ok(log));
}

#[test]
fn note_that_holds_no_log_cannot_be_decoded() {
    let failure = |message: &str| Err(GitAiError::DecodeFailure(message.to_string()));
    let with_trailer = |trailer: &str| {
        AuthorshipLog::deserialize_from_string(&format!("{}\n---\n{}", SAMPLE_SECTION, trailer))
    };
    assert_eq!(
        AuthorshipLog::deserialize_from_string(SAMPLE_SECTION),
        failure("Authorship log has no section divider")
    );
    assert_eq!(with_trailer("{not json"), failure("Metadata of authorship log is no JSON"));
    assert_eq!(with_trailer(""), failure("Metadata of authorship log is no JSON"));
    let incomplete = failure("Metadata of authorship log lacks a member or holds a wrong one");
    for trailer in [
        "[]",
        "{}",
        "{\"schema_version\":\"authorship/3.0.0\",\"prompts\":{}}",
        "{\"schema_version\":\"authorship/3.0.0\",\"base_commit_sha\":\"\"}",
        "{\"schema_version\":3,\"base_commit_sha\":\"\",\"prompts\":{}}",
        "{\"schema_version\":\"authorship/3.0.0\",\"base_commit_sha\":\"\",\"prompts\":[]}",
        "{\"schema_version\":\"authorship/3.0.0\",\"git_ai_version\":1,\"base_commit_sha\":\"\",\"prompts\":{}}",
        "{\"schema_version\":\"authorship/3.0.0\",\"base_commit_sha\":\"\",\"prompts\":{\"p\":{\"tool\":\"t\"}}}",
        "{\"schema_version\":\"authorship/3.0.0\",\"base_commit_sha\":\"\",\"prompts\":{\"p\":{\"tool\":\"t\",\"model\":\"m\",\"timestamp\":-1,\"commit_sha\":\"c\"}}}",
    ] {
        assert_eq!(with_trailer(trailer), incomplete, "{}", trailer);
    }
    assert_eq!(
        with_trailer("{\"schema_version\":\"authorship/9\",\"base_commit_sha\":\"\",\"prompts\":{}}"),
        failure("Unsupported schema version of authorship log")
    );
    assert_eq!(
        AuthorshipLog::deserialize_from_string(&format!("  1-1 ai x\n---\n{}", SAMPLE_TRAILER)),
        failure("Malformed attestations in authorship log")
    );
}

#[test]
fn metadata_are_members_of_a_json_object() {
    let json = json_from_metadata(&sample_log().metadata);
    let members = match &json {
        Json::Object(members) => members,
        other => panic!("{:?}", other),
    };
    let names: Vec<&str> = members.iter().map(|m| m.0.as_str()).collect();
    assert_eq!(names, vec!["base_commit_sha", "git_ai_version", "prompts", "schema_version"]);
    assert_eq!(find_text_member(members, "base_commit_sha"), Some("abc".to_string()));
    assert_eq!(find_text_member(members, "prompts"), None);
    assert_eq!(find_text_member(members, "nothing"), None);
    assert_eq!(
        find_member(members, "prompts"),
        Some(&Json::Object(vec![(
            "pa".to_string(),
            Json::Object(vec![
                ("commit_sha".to_string(), Json::Text("c1".to_string())),
                ("model".to_string(), Json::Text("model-x".to_string())),
                ("timestamp".to_string(), Json::Number(Some(1_700_000_000))),
                ("tool".to_string(), Json::Text("cursor".to_string())),
            ])
        )]))
    );
    assert_eq!(metadata_from_json(&json), Some(sample_log().metadata));
    assert_eq!(metadata_from_json(&Json::Null), None);
    let twice = Json::Object(vec![
        ("schema_version".to_string(), Json::Text("first".to_string())),
        ("schema_version".to_string(), Json::Text("second".to_string())),
        ("base_commit_sha".to_string(), Json::Text(String::new())),
        ("prompts".to_string(), Json::Object(vec![])),
    ]);
    assert_eq!(metadata_from_json(&twice).unwrap().schema_version, "first");
}

#[test]
fn minimal_trailer_goes_with_any_attestations() {
    let minimal = AuthorshipMetadata::minimal();
    assert_eq!(minimal.schema_version, "authorship/3.0.0");
    assert_eq!(minimal.git_ai_version, None);
    assert_eq!(minimal.base_commit_sha, "");
    assert_eq!(minimal.prompts, vec![]);
    let log = AuthorshipLog::from_sections(SAMPLE_SECTION, minimal).unwrap();
    assert_eq!(log.attestations, sample_log().attestations);
}

#[test]
fn paths_are_read_whatever_the_trailer_holds() {
    let note = format!("{}\n---\n{}", SAMPLE_SECTION, "this is not even JSON");
    assert_eq!(note_file_paths(&note), vec!["src/a.rs", "b.txt"]);
    assert_eq!(note_file_paths("\n---\n{}"), Vec::<String>::new());
    assert_eq!(note_file_paths(SAMPLE_SECTION), Vec::<String>::new());
    assert_eq!(note_file_paths("  1-1 ai x\n---\n{}"), Vec::<String>::new());
    assert_eq!(note_file_paths(""), Vec::<String>::new());
}
