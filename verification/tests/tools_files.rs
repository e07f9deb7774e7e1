//! Tools that read and edit files.

use pactrail::json::Json;
use pactrail::tools::batch::{
    MemoryFreshness, ReadBatch, ReadManyFilesInput, ReadManyFilesTool, RecallMemoryInput,
    RecallMemoryTool, RecalledMemory, WorkspaceChangesTool,
};
use pactrail::tools::descriptor::{Capability, ToolOutput};
use pactrail::tools::error::ToolError;
use pactrail::tools::feedback::{mutation_feedback, MAX_MUTATION_FEEDBACK_LINE_BYTES};
use pactrail::tools::listing::{
    check_directory, FileListing, ListFilesInput, ListFilesTool, DEFAULT_LIST_ENTRIES,
};
use pactrail::tools::patch::{HunkLine, LineEnding, PatchHunk, PatchOperation, UnifiedPatch};
use pactrail::tools::patching::{ApplyPatchInput, ApplyPatchTool};
use pactrail::tools::policy::PolicyEngine;
use pactrail::tools::reading::{ReadFileInput, ReadFileTool, DEFAULT_READ_LINES};
use pactrail::tools::registry::ToolContext;
use pactrail::tools::searching::{Search, SearchInput, SearchTool};
use pactrail::tools::writing::{
    EditFileInput, EditFileTool, RemoveFileInput, RemoveFileTool, ReplaceTextInput,
    ReplaceTextTool, TextEdit, WriteFileInput, WriteFileTool,
};
use pactrail::workspace::changes::FileChange;

fn at(value: &Json, path: &str) -> Json {
    path.split('.').fold(value.clone(), |found, step| match step.parse::<usize>() {
        Ok(index) => match found.as_array().and_then(|items| items.get(index)) {
            Some(item) => item.clone(),
            None => Json::Null,
        },
        Err(_) => found.get(step).cloned().unwrap_or(Json::Null),
    })
}

fn text_at(value: &Json, path: &str) -> String {
    at(value, path).as_str().unwrap_or("<none>").to_owned()
}

fn number_at(value: &Json, path: &str) -> Option<u64> {
    at(value, path).as_u64()
}

const HELLO: &[u8] = b"hello world\nsecond line\n";

fn replacement(old: &str, new: &str) -> ReplaceTextInput {
    ReplaceTextInput {
        path: "hello.txt".to_owned(),
        old: old.to_owned(),
        new: new.to_owned(),
        expected_replacements: 1,
    }
}

#[test]
fn replace_requires_exact_count() {
    let policy = PolicyEngine::local_default();
    let context = ToolContext::new(&policy);
    let request = replacement("world", "Pactrail");
    assert!(ReplaceTextTool.prepare(&context, &request).is_ok());
    let edited = ReplaceTextTool
        .execute(&request, "hello.txt", &HELLO.to_vec())
        .unwrap_or_else(|error| unreachable!("replace: {}", error.message()));
    assert_eq!(edited.content, "hello Pactrail\nsecond line\n");
    let content = &edited.output.content;
    assert_eq!(number_at(content, "post_edit.changed_line_start"), Some(1));
    assert_eq!(number_at(content, "post_edit.changed_line_end"), Some(1));
    assert_eq!(
        text_at(content, "post_edit.previews.0.lines.0.text"),
        "hello Pactrail"
    );
    assert_eq!(text_at(content, "digest").len(), 64);

    let request = replacement("Pactrail", "Pactrail");
    let no_op = ReplaceTextTool
        .prepare(&context, &request)
        .and_then(|()| {
            ReplaceTextTool.execute(&request, "hello.txt", &edited.content.clone().into_bytes())
        });
    assert!(matches!(no_op, Err(ToolError::InvalidRange(message)) if message.contains("no-op")));
}

#[test]
fn other_counts_than_the_expected_are_refused() {
    let request = replacement("l", "L");
    assert!(matches!(
        ReplaceTextTool.execute(&request, "hello.txt", &HELLO.to_vec()),
        Err(ToolError::ReplacementCount { expected: 1, actual: 4 })
    ));
    assert!(matches!(
        ReplaceTextTool.execute(&request, "hello.txt", &vec![0xff]),
        Err(ToolError::NonUtf8(_))
    ));
}

#[test]
fn reads_line_ranges() {
    let policy = PolicyEngine::local_default();
    let context = ToolContext::new(&policy);
    let request = ReadFileInput {
        path: "hello.txt".to_owned(),
        start_line: Some(2),
        end_line: Some(2),
    };
    assert!(ReadFileTool.prepare(&context, &request).is_ok());
    let output = ReadFileTool
        .execute(&request, "hello.txt", &HELLO.to_vec())
        .unwrap_or_else(|error| unreachable!("read: {}", error.message()));
    assert_eq!(text_at(&output.content, "content"), "second line");
}

#[test]
fn default_reads_are_paginated_and_report_the_next_line() {
    let lines_text = (1..=350)
        .map(|line| format!("line {line}"))
        .collect::<Vec<_>>()
        .join("\n");
    let request = ReadFileInput {
        path: "large.txt".to_owned(),
        start_line: None,
        end_line: None,
    };
    let output = ReadFileTool
        .execute(&request, "large.txt", &lines_text.into_bytes())
        .unwrap_or_else(|error| unreachable!("read: {}", error.message()));

    assert!(output.truncated);
    assert_eq!(number_at(&output.content, "start_line"), Some(1));
    assert_eq!(
        number_at(&output.content, "end_line"),
        Some(DEFAULT_READ_LINES as u64)
    );
    assert_eq!(
        number_at(&output.content, "next_start_line"),
        Some(DEFAULT_READ_LINES as u64 + 1)
    );
    assert_eq!(
        text_at(&output.content, "content").lines().count(),
        DEFAULT_READ_LINES
    );
}

#[test]
fn unreadable_ranges_and_files_are_refused() {
    let request = |start_line: Option<usize>, end_line: Option<usize>| ReadFileInput {
        path: "hello.txt".to_owned(),
        start_line,
        end_line,
    };
    for range in [request(Some(0), None), request(Some(2), Some(1))] {
        assert!(matches!(
            ReadFileTool.execute(&range, "hello.txt", &HELLO.to_vec()),
            Err(ToolError::InvalidRange(_))
        ));
    }
    assert!(matches!(
        ReadFileTool.execute(&request(None, None), "hello.txt", &vec![0xc3, 0x28]),
        Err(ToolError::NonUtf8(_))
    ));
}

#[test]
fn search_accepts_a_specific_workspace_file() {
    let policy = PolicyEngine::local_default();
    let context = ToolContext::new(&policy);
    let request = SearchInput {
        query: "second".to_owned(),
        path: Some("hello.txt".to_owned()),
        max_results: 10,
        case_sensitive: false,
    };
    let relative = SearchTool
        .prepare(&context, &request)
        .unwrap_or_else(|error| unreachable!("search: {}", error.message()));
    assert_eq!(relative, "hello.txt");
    let search = Search::new(request).add_file("hello.txt", HELLO.len() as u64, &HELLO.to_vec());
    let output = SearchTool.execute(&search, &relative);
    assert_eq!(text_at(&output.content, "0.path"), "hello.txt");
    assert_eq!(number_at(&output.content, "0.line"), Some(2));
    assert_eq!(text_at(&output.content, "0.text"), "second line");
}

#[test]
fn searches_ignore_case_unless_asked_and_stop_when_full() {
    let bytes = "Ünder\nünder\nUNDER\n".as_bytes().to_vec();
    let search = |query: &str, max_results: usize, case_sensitive: bool| {
        let request = SearchInput {
            query: query.to_owned(),
            path: None,
            max_results,
            case_sensitive,
        };
        let search = Search::new(request).add_file("a.txt", bytes.len() as u64, &bytes);
        let output = SearchTool.execute(&search, ".");
        let lines: Vec<u64> = (0..)
            .map_while(|found| number_at(&output.content, &format!("{found}.line")))
            .collect();
        assert_eq!(search.is_full(), output.truncated);
        (lines, output.truncated)
    };
    assert_eq!(search("ÜNDER", 10, false), (vec![1, 2], false));
    assert_eq!(search("ünder", 10, true), (vec![2], false));
    let (lines, full) = search("nder", 1, false);
    assert_eq!(lines, vec![1]);
    assert!(full);
}

#[test]
fn searches_go_from_file_to_file_until_they_are_full() {
    let request = SearchInput {
        query: "Hit".to_owned(),
        path: None,
        max_results: 3,
        case_sensitive: false,
    };
    let mut search = Search::new(request);
    for (path, content) in [
        ("a.txt", "hit\nmiss\n"),
        ("b.txt", "HIT\r\nhit\r\n"),
        ("c.txt", "hit\n"),
    ] {
        search = search.add_file(path, content.len() as u64, &content.as_bytes().to_vec());
    }
    let output = SearchTool.execute(&search, ".");
    assert!(output.truncated);
    assert_eq!(output.summary, "found 3 matches for \"Hit\"");
    assert_eq!(text_at(&output.content, "1.path"), "b.txt");
    assert_eq!(text_at(&output.content, "1.text"), "HIT");
    assert_eq!(number_at(&output.content, "2.line"), Some(2));
    assert_eq!(number_at(&output.content, "3.line"), None);
}

fn listing(max_entries: usize, paths: &[&str]) -> ToolOutput {
    let policy = PolicyEngine::local_default();
    let context = ToolContext::new(&policy);
    let request = ListFilesInput {
        path: None,
        max_entries,
    };
    let relative = ListFilesTool
        .prepare(&context, &request)
        .unwrap_or_else(|error| unreachable!("list: {}", error.message()));
    let mut listing = FileListing::new(max_entries);
    for path in paths {
        listing.add_path((*path).to_owned());
    }
    ListFilesTool.execute(&relative, &listing)
}

#[test]
fn file_listing_is_lexical_and_memory_bounded() {
    let output = listing(2, &["hello.txt", "z.txt", "a.txt", "b.txt"]);
    assert_eq!(at(&output.content, "files").to_text(), r#"["a.txt","b.txt"]"#);
    assert!(output.truncated);
}

#[test]
fn file_listing_steers_models_toward_project_anchors() {
    let output = listing(
        DEFAULT_LIST_ENTRIES,
        &["hello.txt", "README.md", "Cargo.toml", "src/lib.rs", "notes.txt"],
    );
    assert_eq!(
        at(&output.content, "suggested_reads").to_text(),
        r#"["README.md","Cargo.toml","src/lib.rs"]"#
    );
    assert!(text_at(&output.content, "guidance").contains("Do not repeat"));
}

#[test]
fn listings_are_of_directories() {
    assert!(check_directory("src", true).is_ok());
    assert!(matches!(
        check_directory("src/lib.rs", false),
        Err(ToolError::InvalidRange(_))
    ));
}

#[test]
fn mutation_feedback_bounds_distant_edits_and_cites_both_edges() {
    let before = (1..=120)
        .map(|line| format!("before {line}"))
        .collect::<Vec<_>>()
        .join("\n");
    let mut after_lines = before.lines().map(str::to_owned).collect::<Vec<_>>();
    after_lines[4] = "changed first".to_owned();
    after_lines[114] = "changed last".to_owned();
    let after = after_lines.join("\n");

    let feedback = mutation_feedback("src/lib.rs", Some(&before), &after);

    assert_eq!(number_at(&feedback, "changed_line_start"), Some(5));
    assert_eq!(number_at(&feedback, "changed_line_end"), Some(115));
    assert_eq!(at(&feedback, "previews").as_array().map(Vec::len), Some(2));
    assert_eq!(at(&feedback, "changed_lines_fully_shown").as_bool(), Some(false));
    let rendered = at(&feedback, "previews").to_text();
    assert!(rendered.contains("changed first"));
    assert!(rendered.contains("changed last"));
}

#[test]
fn mutation_feedback_is_utf8_safe_and_byte_bounded() {
    let after = format!("prefix {} suffix", "🦀".repeat(10_000));
    let feedback = mutation_feedback("unicode.txt", None, &after);
    let preview = text_at(&feedback, "previews.0.lines.0.text");

    assert!(preview.len() <= MAX_MUTATION_FEEDBACK_LINE_BYTES);
    assert!(preview.starts_with("prefix 🦀"));
    assert!(preview.is_char_boundary(preview.len()));
    assert_eq!(
        at(&feedback, "previews.0.lines.0.text_truncated").as_bool(),
        Some(true)
    );
    assert_eq!(at(&feedback, "changed_lines_fully_shown").as_bool(), Some(false));
}

#[test]
fn feedback_survives_edits_within_a_character() {
    let feedback = mutation_feedback("unicode.txt", Some("é\nb\n"), "è\nb\n");
    assert_eq!(number_at(&feedback, "changed_line_start"), Some(1));
    assert_eq!(text_at(&feedback, "previews.0.lines.0.text"), "è");
}

fn edit(old: &str, new: &str) -> TextEdit {
    TextEdit {
        old: old.to_owned(),
        new: new.to_owned(),
        expected_replacements: 1,
    }
}

#[test]
fn multi_edit_validates_every_edit_before_writing() {
    let policy = PolicyEngine::local_default();
    let context = ToolContext::new(&policy);
    let source = b"alpha\nbeta\n".to_vec();
    let request = EditFileInput {
        path: "a.txt".to_owned(),
        edits: vec![edit("alpha", "ALPHA"), edit("missing", "value")],
    };
    assert!(EditFileTool.prepare(&context, &request).is_ok());
    let failed = EditFileTool.execute(&request, "a.txt", &source);
    assert!(matches!(
        failed,
        Err(ToolError::InvalidEditCount { index: 2, .. })
    ));

    let request = EditFileInput {
        path: "a.txt".to_owned(),
        edits: vec![edit("alpha", "ALPHA"), edit("beta", "BETA")],
    };
    let edited = EditFileTool
        .execute(&request, "a.txt", &source)
        .unwrap_or_else(|error| unreachable!("edit: {}", error.message()));
    assert_eq!(edited.content, "ALPHA\nBETA\n");
    let content = &edited.output.content;
    assert_eq!(number_at(content, "post_edit.changed_line_start"), Some(1));
    assert_eq!(number_at(content, "post_edit.changed_line_end"), Some(2));
    assert_eq!(
        at(content, "post_edit.changed_lines_fully_shown").as_bool(),
        Some(true)
    );
    assert_eq!(text_at(content, "digest").len(), 64);
}

#[test]
fn writes_and_removals_name_their_file() {
    let policy = PolicyEngine::local_default();
    let context = ToolContext::new(&policy);
    let request = WriteFileInput {
        path: "new.txt".to_owned(),
        content: "one\ntwo\n".to_owned(),
    };
    assert!(WriteFileTool.prepare(&context, &request).is_ok());
    let output = WriteFileTool.execute(&request);
    assert_eq!(text_at(&output.content, "path"), "new.txt");
    assert_eq!(output.observed_effects, vec!["fs.write:new.txt"]);
    let request = RemoveFileInput {
        path: "new.txt".to_owned(),
    };
    assert!(RemoveFileTool.prepare(&context, &request).is_ok());
    let output = RemoveFileTool.execute(&request);
    assert!(output.succeeded);
}

fn added(path: &str, bytes: u64) -> FileChange {
    FileChange {
        path: path.to_owned(),
        before_digest: None,
        after_digest: Some("0".repeat(64)),
        before_unix_mode: None,
        after_unix_mode: Some(0o100_644),
        bytes_added: bytes,
        bytes_removed: 0,
    }
}

#[test]
fn batch_read_and_change_inspection_are_bounded_native_tools() {
    let policy = PolicyEngine::local_default();
    let context = ToolContext::new(&policy);
    let request = ReadManyFilesInput {
        paths: vec!["a.txt".to_owned(), "b.txt".to_owned()],
    };
    assert!(ReadManyFilesTool.prepare(&context, &request).is_ok());
    let mut batch = ReadBatch::new();
    for (path, content) in [("a.txt", "alpha\nbeta\n"), ("b.txt", "bravo\n")] {
        batch
            .push_file(path, path, &content.as_bytes().to_vec())
            .unwrap_or_else(|error| unreachable!("batch read: {}", error.message()));
    }
    let read = ReadManyFilesTool.execute(&request, batch);
    assert_eq!(at(&read.content, "files").as_array().map(Vec::len), Some(2));
    assert_eq!(text_at(&read.content, "files.1.content"), "bravo\n");

    assert!(WorkspaceChangesTool.prepare(&context).is_ok());
    let changes = WorkspaceChangesTool.execute(&vec![added("new.txt", 10)]);
    assert_eq!(number_at(&changes.content, "files"), Some(1));
    assert_eq!(text_at(&changes.content, "changes.0.path"), "new.txt");
}

#[test]
fn batches_name_each_file_once() {
    let policy = PolicyEngine::local_default();
    let context = ToolContext::new(&policy);
    let paths = |paths: Vec<String>| ReadManyFilesInput { paths };
    for request in [
        paths(Vec::new()),
        paths(vec!["a.txt".to_owned(), "a.txt".to_owned()]),
        paths((0..33).map(|index| format!("{index}.txt")).collect()),
    ] {
        assert!(matches!(
            ReadManyFilesTool.prepare(&context, &request),
            Err(ToolError::InvalidRange(_))
        ));
    }
}

fn parser_query(query: &str) -> RecallMemoryInput {
    RecallMemoryInput {
        query: query.to_owned(),
        max_results: 5,
    }
}

fn recalled(memory: &str, eligible: bool, freshness: MemoryFreshness) -> RecalledMemory {
    RecalledMemory {
        memory: Json::parse(memory).unwrap_or_else(|error| unreachable!("memory: {error}")),
        eligible,
        freshness,
    }
}

#[test]
fn memory_recall_requires_capability_and_preserves_provenance() {
    let policy = PolicyEngine::local_default().with_allowed(Capability::MemoryRead);
    let context = ToolContext::new(&policy);
    let request = parser_query("parser");
    assert!(RecallMemoryTool.prepare(&context, &request, true).is_ok());
    let output = RecallMemoryTool.execute(
        &request,
        &vec![recalled(
            r#"{"memory": {"source": "user", "title": "Parser ownership"},
                "validation": {"freshness": "advisory"}}"#,
            true,
            MemoryFreshness::Advisory,
        )],
    );
    assert_eq!(text_at(&output.content, "memories.0.memory.source"), "user");
    assert_eq!(
        text_at(&output.content, "memories.0.memory.title"),
        "Parser ownership"
    );
    assert_eq!(
        text_at(&output.content, "memories.0.validation.freshness"),
        "advisory"
    );
    assert_eq!(number_at(&output.content, "excluded.stale"), Some(0));

    let unasked = PolicyEngine::local_default();
    assert!(RecallMemoryTool
        .prepare(&ToolContext::new(&unasked), &request, true)
        .is_err());
    assert!(matches!(
        RecallMemoryTool.prepare(&context, &request, false),
        Err(ToolError::MemoryUnavailable)
    ));
}

#[test]
fn memory_recall_withholds_receipt_history_after_candidate_drift() {
    let request = parser_query("parser anchor");
    let memory = r#"{"memory": {"source": "receipt"}, "validation": {"freshness": "current"}}"#;
    let current = RecallMemoryTool.execute(
        &request,
        &vec![recalled(memory, true, MemoryFreshness::Current)],
    );
    assert_eq!(
        at(&current.content, "memories").as_array().map(Vec::len),
        Some(1)
    );
    assert_eq!(
        text_at(&current.content, "memories.0.validation.freshness"),
        "current"
    );

    let stale = RecallMemoryTool.execute(
        &request,
        &vec![recalled(memory, false, MemoryFreshness::Stale)],
    );
    assert_eq!(at(&stale.content, "memories").as_array().map(Vec::len), Some(0));
    assert_eq!(number_at(&stale.content, "excluded.stale"), Some(1));
}

fn patch_file(
    source: &str,
    exists: bool,
    patch: &str,
    expected_digest: Option<String>,
) -> Result<(Option<String>, ToolOutput), ToolError> {
    let policy = PolicyEngine::local_default();
    let request = ApplyPatchInput {
        patch: patch.to_owned(),
        expected_digest,
    };
    let parsed = ApplyPatchTool.prepare(&ToolContext::new(&policy), &request)?;
    let patched = ApplyPatchTool.execute(
        &request,
        &parsed,
        exists,
        &parsed.path,
        &source.as_bytes().to_vec(),
    )?;
    Ok((patched.content, patched.output))
}

fn patch_sample(source: &str, patch: &str) -> Result<(Option<String>, ToolOutput), ToolError> {
    patch_file(source, true, patch, None)
}

#[test]
fn applies_multiple_exact_hunks_and_returns_current_source_evidence() {
    let (content, output) = patch_sample(
        "alpha\nbeta\ngamma\ndelta\n",
        "--- a/sample.txt\n+++ b/sample.txt\n@@ -1,2 +1,2 @@\n alpha\n-beta\n+BETA\n@@ -3,2 +3,3 @@\n gamma\n+inserted\n delta\n",
    )
    .unwrap_or_else(|error| unreachable!("patch: {}", error.message()));

    assert_eq!(content, Some("alpha\nBETA\ngamma\ninserted\ndelta\n".to_owned()));
    assert_eq!(number_at(&output.content, "hunks"), Some(2));
    assert_eq!(number_at(&output.content, "lines_added"), Some(2));
    assert_eq!(number_at(&output.content, "lines_removed"), Some(1));
    assert_eq!(
        at(&output.content, "post_edit.changed_lines_fully_shown").as_bool(),
        Some(true)
    );
}

#[test]
fn preserves_crlf_and_supports_no_final_newline() {
    let (content, _) = patch_sample(
        "alpha\r\nbeta\r\n",
        "--- a/sample.txt\n+++ b/sample.txt\n@@ -1,2 +1,2 @@\n alpha\n-beta\n+BETA\n\\ No newline at end of file\n",
    )
    .unwrap_or_else(|error| unreachable!("patch: {}", error.message()));

    assert_eq!(content, Some("alpha\r\nBETA".to_owned()));
    assert_eq!(LineEnding::CrLf.value(), "\r\n");
}

#[test]
fn mismatch_and_stale_digest_leave_the_candidate_unchanged() {
    let mismatch = patch_sample(
        "alpha\nbeta\n",
        "--- a/sample.txt\n+++ b/sample.txt\n@@ -1,2 +1,2 @@\n alpha\n-missing\n+BETA\n",
    );
    assert!(matches!(mismatch, Err(ToolError::InvalidPatch(_))));

    let stale = patch_file(
        "alpha\nbeta\n",
        true,
        "--- a/sample.txt\n+++ b/sample.txt\n@@ -1,2 +1,2 @@\n alpha\n-beta\n+BETA\n",
        Some("0".repeat(64)),
    );
    assert!(matches!(stale, Err(ToolError::InvalidPatch(_))));
}

#[test]
fn creates_and_deletes_files_with_strict_dev_null_headers() {
    let (created, output) = patch_file(
        "",
        false,
        "--- /dev/null\n+++ b/new.txt\n@@ -0,0 +1,2 @@\n+one\n+two\n",
        None,
    )
    .unwrap_or_else(|error| unreachable!("add: {}", error.message()));
    assert_eq!(text_at(&output.content, "operation"), "add");
    assert_eq!(created, Some("one\ntwo\n".to_owned()));

    let (deleted, output) = patch_file(
        "alpha\n",
        true,
        "--- a/sample.txt\n+++ /dev/null\n@@ -1,1 +0,0 @@\n-alpha\n",
        None,
    )
    .unwrap_or_else(|error| unreachable!("delete: {}", error.message()));
    assert_eq!(text_at(&output.content, "operation"), "delete");
    assert_eq!(deleted, None);
}

#[test]
fn applies_zero_count_insertions_at_the_declared_boundary() {
    let (content, _) = patch_sample(
        "one\ntwo\nthree\n",
        "--- a/sample.txt\n+++ b/sample.txt\n@@ -2,0 +3,1 @@\n+inserted\n",
    )
    .unwrap_or_else(|error| unreachable!("insert: {}", error.message()));
    assert_eq!(content, Some("one\ntwo\ninserted\nthree\n".to_owned()));
}

#[test]
fn rejects_renames_traversal_mixed_endings_and_inconsistent_headers() {
    for patch in [
        "--- a/sample.txt\n+++ b/renamed.txt\n@@ -1 +1 @@\n-alpha\n+ALPHA\n",
        "--- a/../sample.txt\n+++ b/../sample.txt\n@@ -1 +1 @@\n-alpha\n+ALPHA\n",
        "--- a/sample.txt\n+++ b/sample.txt\n@@ -1,2 +1,3 @@\n alpha\n-beta\n+BETA\n",
    ] {
        let rejected = patch_sample("alpha\nbeta\n", patch).and_then(|patched| {
            pactrail::workspace::path::SafeRelativePath::new(&text_at(&patched.1.content, "path"))
                .map_err(|error| ToolError::InvalidPatch(error.message()))
        });
        assert!(rejected.is_err(), "patch={patch:?}");
    }

    assert!(patch_sample(
        "alpha\r\nbeta\n",
        "--- a/sample.txt\n+++ b/sample.txt\n@@ -1,2 +1,2 @@\n alpha\n-beta\n+BETA\n"
    )
    .is_err());
}

#[test]
fn arbitrary_bounded_patch_text_is_a_total_parser() {
    for input in ["", "\n", "--- ", "--- a/x\n+++ b/x\n@@", "@@ -1 +1 @@\n", "\u{0}\u{10ffff}"] {
        assert!(UnifiedPatch::parse(input).is_err());
    }
    let parsed = UnifiedPatch::parse("--- a/x\n+++ b/x\n@@ -1 +1 @@\n-a\n+b\n")
        .unwrap_or_else(|error| unreachable!("patch: {}", error.message()));
    assert_eq!(parsed.path, "x");
    assert_eq!(parsed.operation, PatchOperation::Update);
    assert_eq!(parsed.hunks.len(), 1);
}

#[test]
fn consecutive_reads_join() {
    let text = (1..=350)
        .map(|line| format!("line {line}"))
        .collect::<Vec<_>>()
        .join("\n");
    let read = |start_line: Option<usize>| {
        ReadFileTool
            .execute(
                &ReadFileInput {
                    path: "large.txt".to_owned(),
                    start_line,
                    end_line: None,
                },
                "large.txt",
                &text.clone().into_bytes(),
            )
            .unwrap_or_else(|error| unreachable!("read: {}", error.message()))
    };
    let first = read(None);
    let next = number_at(&first.content, "next_start_line").map(|line| line as usize);
    assert_eq!(next, Some(DEFAULT_READ_LINES + 1));
    let second = read(next);
    assert!(!second.truncated);
    assert_eq!(
        format!(
            "{}\n{}",
            text_at(&first.content, "content"),
            text_at(&second.content, "content")
        ),
        text
    );
}

fn exchanged(patch: &UnifiedPatch) -> UnifiedPatch {
    UnifiedPatch {
        path: patch.path.clone(),
        operation: patch.operation,
        hunks: patch
            .hunks
            .iter()
            .map(|hunk| PatchHunk {
                old_start: hunk.new_start,
                old_count: hunk.new_count,
                new_start: hunk.old_start,
                new_count: hunk.old_count,
                lines: hunk
                    .lines
                    .iter()
                    .map(|line| match line {
                        HunkLine::Context(text) => HunkLine::Context(text.clone()),
                        HunkLine::Remove(text) => HunkLine::Add(text.clone()),
                        HunkLine::Add(text) => HunkLine::Remove(text.clone()),
                    })
                    .collect(),
                new_no_newline: hunk.new_no_newline,
            })
            .collect(),
    }
}

#[test]
fn an_exchanged_patch_undoes_a_patch() {
    let two_hunks = "--- a/x\n+++ b/x\n@@ -1,2 +1,3 @@\n a\n+new\n b\n@@ -4,2 +5 @@\n-d\n e\n";
    let everything = "--- a/x\n+++ b/x\n@@ -1,2 +0,0 @@\n-a\n-b\n";
    for (source, patch, patched) in [
        ("a\nb\nc\nd\ne\n", two_hunks, "a\nnew\nb\nc\ne\n"),
        ("a\r\nb\r\nc\r\nd\r\ne\r\n", two_hunks, "a\r\nnew\r\nb\r\nc\r\ne\r\n"),
        ("a\nb\n", everything, ""),
    ] {
        let patch = UnifiedPatch::parse(patch)
            .unwrap_or_else(|error| unreachable!("patch: {}", error.message()));
        let there = patch
            .apply(source)
            .unwrap_or_else(|error| unreachable!("apply: {}", error.message()));
        assert_eq!(there.text, patched);
        let back = exchanged(&patch)
            .apply(&there.text)
            .unwrap_or_else(|error| unreachable!("undo: {}", error.message()));
        assert_eq!(back.text, source);
        assert_eq!(back.lines_added, there.lines_removed);
        assert_eq!(back.lines_removed, there.lines_added);
    }
}
