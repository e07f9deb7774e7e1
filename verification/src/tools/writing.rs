//! The tools that write, edit and remove single files.

use crate::digest;
use crate::json;
use crate::json::{Json, JsonMap, JsonView};
use crate::outcome;
use crate::text;
use crate::tools::descriptor;
use crate::tools::descriptor::{Capability, DescriptorView, OutputView, ToolDescriptor, ToolOutput};
use crate::tools::error::{ToolError, ToolFault};
use crate::tools::feedback;
use crate::tools::feedback::feedback_with_digest;
use crate::tools::policy::PermissionView;
use crate::tools::reading;
use crate::tools::reading::{bounded_text, one_effect, success};
use crate::tools::registry;
use crate::tools::registry::{replace_checked_preserving_newlines, ToolContext};
use crate::tools::schema;
use vstd::prelude::*;
use vstd::utf8::*;

verus! {

/// Largest file that is written or edited.
pub const MAX_EDIT_BYTES: u64 = 8388608;

/// Largest number of replacements of one `edit_file` call.
pub const MAX_EDITS: usize = 64;

/// New content of a file, and the output that belongs to it once it is written.
pub struct Edited {
    pub content: String,
    pub output: ToolOutput,
}

/// An [`Edited`] by its text and its output.
pub struct EditedView {
    pub content: Seq<char>,
    pub output: OutputView,
}

impl DeepView for Edited {
    type V = EditedView;

    open spec fn deep_view(&self) -> EditedView {
        EditedView { content: self.content@, output: self.output.deep_view() }
    }
}

/// Whether both authorities for an edit are granted: first to read, then to write.
pub open spec fn edit_authorized(
    policy: PermissionView,
    path: Seq<char>,
    tool: Seq<char>,
) -> Result<(), ToolFault> {
    match registry::authorized(policy, Capability::FileRead, path, tool) {
        Ok(()) => registry::authorized(policy, Capability::FileWrite, path, tool),
        Err(e) => Err(e),
    }
}

fn authorize_edit(context: &ToolContext, path: &str, tool: &str) -> (r: Result<(), ToolError>)
    ensures
        outcome::of(r) == edit_authorized(context.deep_view().policy, path@, tool@),
{
    match context.authorize(Capability::FileRead, path, tool) {
        Ok(()) => context.authorize(Capability::FileWrite, path, tool),
        Err(e) => Err(e),
    }
}

/// What `write_file` is asked for.
pub struct WriteFileInput {
    /// Workspace-relative file path, such as `SMOKE_TEST.md`. Absolute paths are forbidden.
    pub path: String,
    /// Complete UTF-8 content that the file should contain.
    pub content: String,
}

/// A [`WriteFileInput`] by its texts.
pub struct WriteFileView {
    pub path: Seq<char>,
    pub content: Seq<char>,
}

impl DeepView for WriteFileInput {
    type V = WriteFileView;

    open spec fn deep_view(&self) -> WriteFileView {
        WriteFileView { path: self.path@, content: self.content@ }
    }
}

/// The schema of [`WriteFileInput`].
pub open spec fn write_file_schema() -> JsonView {
    schema::document(
        schema::closed_object(
            Map::<Seq<char>, JsonView>::empty().insert(
                "path"@,
                schema::described(
                    schema::typed("string"@),
                    "Workspace-relative file path, such as `SMOKE_TEST.md`. Absolute paths are forbidden."@,
                ),
            ).insert(
                "content"@,
                schema::described(
                    schema::typed("string"@),
                    "Complete UTF-8 content that the file should contain."@,
                ),
            ),
            Seq::<Seq<char>>::empty().push("path"@).push("content"@),
        ),
        "WriteFileInput"@,
    )
}

/// Whether a file may be written.
pub open spec fn write_prepared(policy: PermissionView, request: WriteFileView) -> Result<
    (),
    ToolFault,
> {
    let bytes = text::utf8_len(request.content);
    if bytes > MAX_EDIT_BYTES {
        Err(
            ToolFault::InvalidRange(
                "content is "@ + text::decimal(bytes) + " bytes; write limit is "@ + text::decimal(
                    MAX_EDIT_BYTES as nat,
                ),
            ),
        )
    } else {
        registry::authorized(policy, Capability::FileWrite, request.path, "write_file"@)
    }
}

/// What writing a file returns.
pub open spec fn write_output(request: WriteFileView, content_digest: Seq<char>) -> OutputView {
    reading::succeeded(
        json::obj4(
            "path"@,
            JsonView::Text(request.path),
            "digest"@,
            JsonView::Text(content_digest),
            "bytes"@,
            json::num(text::utf8_len(request.content)),
            "post_edit"@,
            feedback::feedback_json(request.path, content_digest, None, request.content),
        ),
        "wrote workspace file"@,
        seq!["fs.write:"@ + request.path],
    )
}

/// Writes UTF-8 content to the isolated transaction.
pub struct WriteFileTool;

/// What `write_file` presents to a model.
pub open spec fn write_file_descriptor() -> DescriptorView {
    descriptor::descriptor_spec(
        "write_file"@,
        "Create or replace one UTF-8 file inside the task's write scope and return bounded current-source evidence."@,
        write_file_schema(),
        Capability::FileWrite,
    )
}

impl WriteFileTool {
    /// What the tool presents to a model.
    pub fn descriptor(&self) -> (r: ToolDescriptor)
        ensures
            r.deep_view() == write_file_descriptor(),
    {
        let mut properties = JsonMap::new();
        properties.insert(
            "path",
            schema::described_json(
                schema::typed_json("string"),
                "Workspace-relative file path, such as `SMOKE_TEST.md`. Absolute paths are forbidden.",
            ),
        );
        properties.insert(
            "content",
            schema::described_json(
                schema::typed_json("string"),
                "Complete UTF-8 content that the file should contain.",
            ),
        );
        let required = schema::and_name(schema::and_name(schema::no_names(), "path"), "content");
        descriptor::descriptor(
            "write_file",
            "Create or replace one UTF-8 file inside the task's write scope and return bounded current-source evidence.",
            schema::document_json(
                schema::closed_object_json(properties, &required),
                "WriteFileInput",
            ),
            Capability::FileWrite,
        )
    }

    /// Checks the request and requires the authority to write the file.
    pub fn prepare(&self, context: &ToolContext, request: &WriteFileInput) -> (r: Result<
        (),
        ToolError,
    >)
        ensures
            outcome::of(r) == write_prepared(context.deep_view().policy, request.deep_view()),
    {
        let bytes: u64 = text::byte_len(request.content.as_str()) as u64;
        if bytes > MAX_EDIT_BYTES {
            return Err(
                ToolError::InvalidRange(
                    text::concat4(
                        "content is ",
                        text::decimal_text(bytes).as_str(),
                        " bytes; write limit is ",
                        text::decimal_text(MAX_EDIT_BYTES).as_str(),
                    ),
                ),
            );
        }
        context.authorize(Capability::FileWrite, request.path.as_str(), "write_file")
    }

    /// What writing the file returns, with a digest of the content that the caller
    /// supplies.
    pub fn report(&self, request: &WriteFileInput, content_digest: &str) -> (r: ToolOutput)
        requires
            request.content@.len() < usize::MAX,
        ensures
            r.deep_view() == write_output(request.deep_view(), content_digest@),
    {
        success(
            Json::object4(
                "path",
                Json::text(request.path.as_str()),
                "digest",
                Json::text(content_digest),
                "bytes",
                Json::count(text::byte_len(request.content.as_str())),
                "post_edit",
                feedback_with_digest(
                    request.path.as_str(),
                    content_digest,
                    None,
                    request.content.as_str(),
                ),
            ),
            "wrote workspace file".to_owned(),
            one_effect("fs.write:", request.path.as_str()),
        )
    }

    /// What writing the file returns, once it is written.
    pub fn execute(&self, request: &WriteFileInput) -> (r: ToolOutput)
        requires
            request.content@.len() < usize::MAX,
        ensures
            r.deep_view() == write_output(
                request.deep_view(),
                digest::blake3_hex(encode_utf8(request.content@)),
            ),
    {
        self.report(request, digest::text_digest(request.content.as_str()).as_str())
    }
}

/// What `replace_text` is asked for.
pub struct ReplaceTextInput {
    /// Workspace-relative file path. Absolute paths are forbidden.
    pub path: String,
    /// Exact text expected in the current file.
    pub old: String,
    /// Replacement text.
    pub new: String,
    /// Required number of occurrences of `old`; defaults to one.
    pub expected_replacements: usize,
}

/// A [`ReplaceTextInput`] by its texts.
pub struct ReplaceTextView {
    pub path: Seq<char>,
    pub old: Seq<char>,
    pub new: Seq<char>,
    pub expected_replacements: usize,
}

impl DeepView for ReplaceTextInput {
    type V = ReplaceTextView;

    open spec fn deep_view(&self) -> ReplaceTextView {
        ReplaceTextView {
            path: self.path@,
            old: self.old@,
            new: self.new@,
            expected_replacements: self.expected_replacements,
        }
    }
}

/// The schema of [`ReplaceTextInput`].
pub open spec fn replace_text_schema() -> JsonView {
    schema::document(
        schema::closed_object(
            Map::<Seq<char>, JsonView>::empty().insert(
                "path"@,
                schema::described(
                    schema::typed("string"@),
                    "Workspace-relative file path. Absolute paths are forbidden."@,
                ),
            ).insert(
                "old"@,
                schema::described(
                    schema::typed("string"@),
                    "Exact text expected in the current file."@,
                ),
            ).insert(
                "new"@,
                schema::described(schema::typed("string"@), "Replacement text."@),
            ).insert(
                "expected_replacements"@,
                schema::defaulted(
                    schema::described(
                        schema::count_spec(),
                        "Required number of occurrences of `old`; defaults to one."@,
                    ),
                    json::num(1),
                ),
            ),
            Seq::<Seq<char>>::empty().push("path"@).push("old"@).push("new"@),
        ),
        "ReplaceTextInput"@,
    )
}

/// Whether a replacement may be made.
pub open spec fn replace_prepared(policy: PermissionView, request: ReplaceTextView) -> Result<
    (),
    ToolFault,
> {
    if request.old.len() == 0 || request.expected_replacements == 0 {
        Err(
            ToolFault::InvalidRange("old text and expected_replacements must be non-empty"@),
        )
    } else if request.old == request.new {
        Err(
            ToolFault::InvalidRange(
                "old and new text must differ; no-op replacements produce no evidence"@,
            ),
        )
    } else {
        edit_authorized(policy, request.path, "replace_text"@)
    }
}

/// What a replacement makes of a file.
pub open spec fn replacement(request: ReplaceTextView, content: Seq<char>) -> Result<
    (Seq<char>, nat),
    ToolFault,
> {
    match registry::replaced(
        content,
        request.old,
        request.new,
        request.expected_replacements as nat,
    ) {
        Err(actual) => Err(
            ToolFault::ReplacementCount {
                expected: request.expected_replacements as nat,
                actual,
            },
        ),
        Ok(done) => if text::utf8_len(done.0) > MAX_EDIT_BYTES {
            Err(
                ToolFault::InvalidRange(
                    "replacement would exceed the "@ + text::decimal(MAX_EDIT_BYTES as nat)
                        + "-byte edit limit"@,
                ),
            )
        } else {
            Ok(done)
        },
    }
}

/// What a replacement returns.
pub open spec fn replace_output(
    request: ReplaceTextView,
    content: Seq<char>,
    done: (Seq<char>, nat),
    content_digest: Seq<char>,
) -> OutputView {
    reading::succeeded(
        json::with_member(
            json::obj4(
                "path"@,
                JsonView::Text(request.path),
                "replacements"@,
                json::num(done.1),
                "digest"@,
                JsonView::Text(content_digest),
                "result_bytes"@,
                json::num(text::utf8_len(done.0)),
            ),
            "post_edit"@,
            feedback::feedback_json(request.path, content_digest, Some(content), done.0),
        ),
        "replaced "@ + text::decimal(done.1) + " exact occurrence(s)"@,
        seq!["fs.write:"@ + request.path],
    )
}

/// Applies an exact, count-checked text replacement.
pub struct ReplaceTextTool;

/// What `replace_text` presents to a model.
pub open spec fn replace_text_descriptor() -> DescriptorView {
    descriptor::descriptor_spec(
        "replace_text"@,
        "Replace exact text only when the expected occurrence count matches, then return bounded current-source evidence around the change."@,
        replace_text_schema(),
        Capability::FileWrite,
    )
}

impl ReplaceTextTool {
    /// What the tool presents to a model.
    pub fn descriptor(&self) -> (r: ToolDescriptor)
        ensures
            r.deep_view() == replace_text_descriptor(),
    {
        let mut properties = JsonMap::new();
        properties.insert(
            "path",
            schema::described_json(
                schema::typed_json("string"),
                "Workspace-relative file path. Absolute paths are forbidden.",
            ),
        );
        properties.insert(
            "old",
            schema::described_json(
                schema::typed_json("string"),
                "Exact text expected in the current file.",
            ),
        );
        properties.insert(
            "new",
            schema::described_json(schema::typed_json("string"), "Replacement text."),
        );
        properties.insert(
            "expected_replacements",
            schema::defaulted_json(
                schema::described_json(
                    schema::count_json(),
                    "Required number of occurrences of `old`; defaults to one.",
                ),
                Json::number(1),
            ),
        );
        let required = schema::and_name(
            schema::and_name(schema::and_name(schema::no_names(), "path"), "old"),
            "new",
        );
        descriptor::descriptor(
            "replace_text",
            "Replace exact text only when the expected occurrence count matches, then return bounded current-source evidence around the change.",
            schema::document_json(
                schema::closed_object_json(properties, &required),
                "ReplaceTextInput",
            ),
            Capability::FileWrite,
        )
    }

    /// Checks the request and requires the authority to read and to write the file.
    pub fn prepare(&self, context: &ToolContext, request: &ReplaceTextInput) -> (r: Result<
        (),
        ToolError,
    >)
        ensures
            outcome::of(r) == replace_prepared(context.deep_view().policy, request.deep_view()),
    {
        proof {
            text::lemma_utf8_len_zero(request.old@);
        }
        if text::byte_len(request.old.as_str()) == 0 || request.expected_replacements == 0 {
            return Err(
                ToolError::InvalidRange(
                    "old text and expected_replacements must be non-empty".to_owned(),
                ),
            );
        }
        if text::same(request.old.as_str(), request.new.as_str()) {
            return Err(
                ToolError::InvalidRange(
                    "old and new text must differ; no-op replacements produce no evidence".to_owned(),
                ),
            );
        }
        authorize_edit(context, request.path.as_str(), "replace_text")
    }

    /// What the replacement makes of the file at `path`, of which `bytes` were read: its
    /// old text, its new text and the number of replacements.
    pub fn replace(&self, request: &ReplaceTextInput, path: &str, bytes: &Vec<u8>) -> (r: Result<
        (String, String, usize),
        ToolError,
    >)
        ensures
            match r {
                Ok(done) => {
                    &&& reading::file_text(path@, bytes@, MAX_EDIT_BYTES) == Ok::<_, ToolFault>(
                        done.0@,
                    )
                    &&& replacement(request.deep_view(), done.0@) == Ok::<_, ToolFault>(
                        (done.1@, done.2 as nat),
                    )
                    &&& done.1@.len() <= MAX_EDIT_BYTES
                },
                Err(e) => match reading::file_text(path@, bytes@, MAX_EDIT_BYTES) {
                    Err(fault) => e.deep_view() == fault,
                    Ok(content) => replacement(request.deep_view(), content) == Err::<
                        (Seq<char>, nat),
                        _,
                    >(e.deep_view()),
                },
            },
    {
        let content = match bounded_text(path, bytes, MAX_EDIT_BYTES) {
            Ok(t) => t,
            Err(e) => {
                return Err(e);
            },
        };
        match replace_checked_preserving_newlines(
            content.as_str(),
            request.old.as_str(),
            request.new.as_str(),
            request.expected_replacements,
        ) {
            Err(actual) => Err(
                ToolError::ReplacementCount { expected: request.expected_replacements, actual },
            ),
            Ok((edited, actual)) => {
                proof {
                    text::lemma_utf8_len_zero(edited@);
                }
                if text::byte_len(edited.as_str()) as u64 > MAX_EDIT_BYTES {
                    return Err(
                        ToolError::InvalidRange(
                            text::concat3(
                                "replacement would exceed the ",
                                text::decimal_text(MAX_EDIT_BYTES).as_str(),
                                "-byte edit limit",
                            ),
                        ),
                    );
                }
                Ok((content, edited, actual))
            },
        }
    }

    /// What the replacement returns, with a digest of the new content that the caller
    /// supplies.
    pub fn report(
        &self,
        request: &ReplaceTextInput,
        content: &str,
        edited: &str,
        replacements: usize,
        content_digest: &str,
    ) -> (r: ToolOutput)
        requires
            edited@.len() < usize::MAX,
        ensures
            r.deep_view() == replace_output(
                request.deep_view(),
                content@,
                (edited@, replacements as nat),
                content_digest@,
            ),
    {
        let mut output = Json::object4(
            "path",
            Json::text(request.path.as_str()),
            "replacements",
            Json::count(replacements),
            "digest",
            Json::text(content_digest),
            "result_bytes",
            Json::count(text::byte_len(edited)),
        );
        output.set_member(
            "post_edit",
            feedback_with_digest(request.path.as_str(), content_digest, Some(content), edited),
        );
        success(
            output,
            text::concat3(
                "replaced ",
                text::decimal_of(replacements).as_str(),
                " exact occurrence(s)",
            ),
            one_effect("fs.write:", request.path.as_str()),
        )
    }

    /// The new content of the file at `path`, of which `bytes` were read, and what the
    /// tool returns once that is written.
    pub fn execute(&self, request: &ReplaceTextInput, path: &str, bytes: &Vec<u8>) -> (r: Result<
        Edited,
        ToolError,
    >)
        ensures
            outcome::of(r) == (match reading::file_text(path@, bytes@, MAX_EDIT_BYTES) {
                Err(e) => Err(e),
                Ok(content) => match replacement(request.deep_view(), content) {
                    Err(e) => Err(e),
                    Ok(done) => Ok(
                        EditedView {
                            content: done.0,
                            output: replace_output(
                                request.deep_view(),
                                content,
                                done,
                                digest::blake3_hex(encode_utf8(done.0)),
                            ),
                        },
                    ),
                },
            }),
    {
        match self.replace(request, path, bytes) {
            Err(e) => Err(e),
            Ok((content, edited, actual)) => {
                let content_digest = digest::text_digest(edited.as_str());
                let output = self.report(
                    request,
                    content.as_str(),
                    edited.as_str(),
                    actual,
                    content_digest.as_str(),
                );
                Ok(Edited { content: edited, output })
            },
        }
    }
}

/// What `remove_file` is asked for.
pub struct RemoveFileInput {
    /// Workspace-relative file path. Absolute paths are forbidden.
    pub path: String,
}

/// The schema of [`RemoveFileInput`].
pub open spec fn remove_file_schema() -> JsonView {
    schema::document(
        schema::closed_object(
            Map::<Seq<char>, JsonView>::empty().insert(
                "path"@,
                schema::described(
                    schema::typed("string"@),
                    "Workspace-relative file path. Absolute paths are forbidden."@,
                ),
            ),
            Seq::<Seq<char>>::empty().push("path"@),
        ),
        "RemoveFileInput"@,
    )
}

/// What removing a file returns.
pub open spec fn remove_output(path: Seq<char>) -> OutputView {
    reading::succeeded(
        json::obj4(
            "path"@,
            JsonView::Text(path),
            "removed"@,
            JsonView::Bool(true),
            "exists_in_candidate"@,
            JsonView::Bool(false),
            "guidance"@,
            JsonView::Text(
                "The path is absent from the isolated candidate. Use workspace_changes to inspect the complete candidate transaction."@,
            ),
        ),
        "removed workspace file"@,
        seq!["fs.delete:"@ + path],
    )
}

/// Removes a regular file from the isolated transaction.
pub struct RemoveFileTool;

/// What `remove_file` presents to a model.
pub open spec fn remove_file_descriptor() -> DescriptorView {
    descriptor::descriptor_spec(
        "remove_file"@,
        "Remove one regular file inside the task's write scope."@,
        remove_file_schema(),
        Capability::FileWrite,
    )
}

impl RemoveFileTool {
    /// What the tool presents to a model.
    pub fn descriptor(&self) -> (r: ToolDescriptor)
        ensures
            r.deep_view() == remove_file_descriptor(),
    {
        let mut properties = JsonMap::new();
        properties.insert(
            "path",
            schema::described_json(
                schema::typed_json("string"),
                "Workspace-relative file path. Absolute paths are forbidden.",
            ),
        );
        let required = schema::and_name(schema::no_names(), "path");
        descriptor::descriptor(
            "remove_file",
            "Remove one regular file inside the task's write scope.",
            schema::document_json(
                schema::closed_object_json(properties, &required),
                "RemoveFileInput",
            ),
            Capability::FileWrite,
        )
    }

    /// Requires the authority to write the file.
    pub fn prepare(&self, context: &ToolContext, request: &RemoveFileInput) -> (r: Result<
        (),
        ToolError,
    >)
        ensures
            outcome::of(r) == registry::authorized(
                context.deep_view().policy,
                Capability::FileWrite,
                request.path@,
                "remove_file"@,
            ),
    {
        context.authorize(Capability::FileWrite, request.path.as_str(), "remove_file")
    }

    /// What removing the file returns, once it is removed.
    pub fn execute(&self, request: &RemoveFileInput) -> (r: ToolOutput)
        ensures
            r.deep_view() == remove_output(request.path@),
    {
        success(
            Json::object4(
                "path",
                Json::text(request.path.as_str()),
                "removed",
                Json::boolean(true),
                "exists_in_candidate",
                Json::boolean(false),
                "guidance",
                Json::text(
                    "The path is absent from the isolated candidate. Use workspace_changes to inspect the complete candidate transaction.",
                ),
            ),
            "removed workspace file".to_owned(),
            one_effect("fs.delete:", request.path.as_str()),
        )
    }
}

/// One replacement of an `edit_file` call.
pub struct TextEdit {
    /// Exact text expected in the current in-memory file version.
    pub old: String,
    /// Replacement text.
    pub new: String,
    /// Required occurrence count. Defaults to one.
    pub expected_replacements: usize,
}

/// A [`TextEdit`] by its texts.
pub struct TextEditView {
    pub old: Seq<char>,
    pub new: Seq<char>,
    pub expected_replacements: usize,
}

impl DeepView for TextEdit {
    type V = TextEditView;

    open spec fn deep_view(&self) -> TextEditView {
        TextEditView {
            old: self.old@,
            new: self.new@,
            expected_replacements: self.expected_replacements,
        }
    }
}

/// What `edit_file` is asked for.
pub struct EditFileInput {
    /// Workspace-relative UTF-8 file path.
    pub path: String,
    /// Ordered exact replacements validated in memory before one final write.
    pub edits: Vec<TextEdit>,
}

/// An [`EditFileInput`] by its texts.
pub struct EditFileView {
    pub path: Seq<char>,
    pub edits: Seq<TextEditView>,
}

impl DeepView for EditFileInput {
    type V = EditFileView;

    open spec fn deep_view(&self) -> EditFileView {
        EditFileView { path: self.path@, edits: self.edits.deep_view() }
    }
}

/// The schema of [`TextEdit`].
pub open spec fn text_edit_schema() -> JsonView {
    schema::closed_object(
        Map::<Seq<char>, JsonView>::empty().insert(
            "old"@,
            schema::described(
                schema::typed("string"@),
                "Exact text expected in the current in-memory file version."@,
            ),
        ).insert(
            "new"@,
            schema::described(schema::typed("string"@), "Replacement text."@),
        ).insert(
            "expected_replacements"@,
            schema::defaulted(
                schema::described(
                    schema::count_spec(),
                    "Required occurrence count. Defaults to one."@,
                ),
                json::num(1),
            ),
        ),
        Seq::<Seq<char>>::empty().push("old"@).push("new"@),
    )
}

/// The schema of [`EditFileInput`].
pub open spec fn edit_file_schema() -> JsonView {
    json::with_member(
        schema::document(
            schema::closed_object(
                Map::<Seq<char>, JsonView>::empty().insert(
                    "path"@,
                    schema::described(
                        schema::typed("string"@),
                        "Workspace-relative UTF-8 file path."@,
                    ),
                ).insert(
                    "edits"@,
                    schema::described(
                        schema::list_of(
                            json::obj1("$ref"@, JsonView::Text("#/$defs/TextEdit"@)),
                        ),
                        "Ordered exact replacements validated in memory before one final write."@,
                    ),
                ),
                Seq::<Seq<char>>::empty().push("path"@).push("edits"@),
            ),
            "EditFileInput"@,
        ),
        "$defs"@,
        json::obj1("TextEdit"@, text_edit_schema()),
    )
}

/// Whether an edit may be made.
pub open spec fn edit_prepared(policy: PermissionView, request: EditFileView) -> Result<
    (),
    ToolFault,
> {
    if request.edits.len() == 0 || request.edits.len() > MAX_EDITS {
        Err(
            ToolFault::InvalidRange(
                "edits must contain between 1 and "@ + text::decimal(MAX_EDITS as nat)
                    + " replacements"@,
            ),
        )
    } else {
        edit_authorized(policy, request.path, "edit_file"@)
    }
}

/// The refusal of edit `index`, whatever the file holds.
pub open spec fn edit_fault(edit: TextEditView, index: nat) -> Option<ToolFault> {
    if edit.old.len() == 0 || edit.expected_replacements == 0 {
        Some(
            ToolFault::InvalidRange(
                "edit "@ + text::decimal(index)
                    + " must have non-empty old text and a positive expected count"@,
            ),
        )
    } else if edit.old == edit.new {
        Some(
            ToolFault::InvalidRange(
                "edit "@ + text::decimal(index)
                    + " must change the matched text; no-op edits produce no evidence"@,
            ),
        )
    } else {
        None
    }
}

/// A file after one edit, and the number of replacements.
pub open spec fn edited_once(content: Seq<char>, edit: TextEditView, index: nat) -> Result<
    (Seq<char>, nat),
    ToolFault,
> {
    match edit_fault(edit, index) {
        Some(fault) => Err(fault),
        None => match registry::replaced(
            content,
            edit.old,
            edit.new,
            edit.expected_replacements as nat,
        ) {
            Err(actual) => Err(
                ToolFault::InvalidEditCount {
                    index,
                    expected: edit.expected_replacements as nat,
                    actual,
                },
            ),
            Ok(done) => if text::utf8_len(done.0) > MAX_EDIT_BYTES {
                Err(
                    ToolFault::InvalidRange(
                        "edited file would exceed "@ + text::decimal(MAX_EDIT_BYTES as nat)
                            + " bytes"@,
                    ),
                )
            } else {
                Ok(done)
            },
        },
    }
}

/// A file after the first `count` edits, and the number of replacements, counted up to
/// the largest `usize`.
pub open spec fn edited(content: Seq<char>, edits: Seq<TextEditView>, count: int) -> Result<
    (Seq<char>, nat),
    ToolFault,
>
    decreases count,
{
    if count <= 0 {
        Ok((content, 0))
    } else {
        match edited(content, edits, count - 1) {
            Err(e) => Err(e),
            Ok(before) => match edited_once(before.0, edits[count - 1], count as nat) {
                Err(e) => Err(e),
                Ok(done) => Ok(
                    (
                        done.0,
                        if before.1 + done.1 > usize::MAX {
                            usize::MAX as nat
                        } else {
                            before.1 + done.1
                        },
                    ),
                ),
            },
        }
    }
}

proof fn lemma_edits_fail_early(content: Seq<char>, edits: Seq<TextEditView>, i: int, count: int)
    requires
        0 <= i <= count,
        edited(content, edits, i) is Err,
    ensures
        edited(content, edits, count) == edited(content, edits, i),
    decreases count - i,
{
    if i < count {
        lemma_edits_fail_early(content, edits, i, count - 1);
    }
}

/// What an edit returns.
pub open spec fn edit_output(
    request: EditFileView,
    content: Seq<char>,
    done: (Seq<char>, nat),
    content_digest: Seq<char>,
) -> OutputView {
    reading::succeeded(
        json::with_member(
            json::with_member(
                json::obj4(
                    "path"@,
                    JsonView::Text(request.path),
                    "edits"@,
                    json::num(request.edits.len()),
                    "replacements"@,
                    json::num(done.1),
                    "result_bytes"@,
                    json::num(text::utf8_len(done.0)),
                ),
                "digest"@,
                JsonView::Text(content_digest),
            ),
            "post_edit"@,
            feedback::feedback_json(request.path, content_digest, Some(content), done.0),
        ),
        "applied "@ + text::decimal(request.edits.len()) + " edits ("@ + text::decimal(done.1)
            + " replacements) to "@ + request.path,
        seq!["fs.write:"@ + request.path],
    )
}

fn edit_once(content: &str, edit: &TextEdit, index: usize) -> (r: Result<(String, usize), ToolError>)
    requires
        content@.len() < usize::MAX,
    ensures
        match r {
            Ok(p) => edited_once(content@, edit.deep_view(), index as nat) == Ok::<_, ToolFault>(
                (p.0@, p.1 as nat),
            ) && p.0@.len() <= MAX_EDIT_BYTES,
            Err(e) => edited_once(content@, edit.deep_view(), index as nat) == Err::<
                (Seq<char>, nat),
                _,
            >(e.deep_view()),
        },
{
    proof {
        text::lemma_utf8_len_zero(edit.old@);
    }
    if text::byte_len(edit.old.as_str()) == 0 || edit.expected_replacements == 0 {
        return Err(
            ToolError::InvalidRange(
                text::concat3(
                    "edit ",
                    text::decimal_of(index).as_str(),
                    " must have non-empty old text and a positive expected count",
                ),
            ),
        );
    }
    if text::same(edit.old.as_str(), edit.new.as_str()) {
        return Err(
            ToolError::InvalidRange(
                text::concat3(
                    "edit ",
                    text::decimal_of(index).as_str(),
                    " must change the matched text; no-op edits produce no evidence",
                ),
            ),
        );
    }
    match replace_checked_preserving_newlines(
        content,
        edit.old.as_str(),
        edit.new.as_str(),
        edit.expected_replacements,
    ) {
        Err(actual) => Err(
            ToolError::InvalidEditCount { index, expected: edit.expected_replacements, actual },
        ),
        Ok((next, actual)) => {
            proof {
                text::lemma_utf8_len_zero(next@);
            }
            if text::byte_len(next.as_str()) as u64 > MAX_EDIT_BYTES {
                return Err(
                    ToolError::InvalidRange(
                        text::concat3(
                            "edited file would exceed ",
                            text::decimal_text(MAX_EDIT_BYTES).as_str(),
                            " bytes",
                        ),
                    ),
                );
            }
            Ok((next, actual))
        },
    }
}

/// Applies multiple exact replacements to one file with a single final write.
pub struct EditFileTool;

/// What `edit_file` presents to a model.
pub open spec fn edit_file_descriptor() -> DescriptorView {
    descriptor::descriptor_spec(
        "edit_file"@,
        "Atomically edit one UTF-8 file with 1-64 ordered, exact, count-checked replacements. No partial file is written when validation fails; success returns bounded current-source evidence around the changed lines."@,
        edit_file_schema(),
        Capability::FileWrite,
    )
}

impl EditFileTool {
    /// What the tool presents to a model.
    pub fn descriptor(&self) -> (r: ToolDescriptor)
        ensures
            r.deep_view() == edit_file_descriptor(),
    {
        let mut parts = JsonMap::new();
        parts.insert(
            "old",
            schema::described_json(
                schema::typed_json("string"),
                "Exact text expected in the current in-memory file version.",
            ),
        );
        parts.insert(
            "new",
            schema::described_json(schema::typed_json("string"), "Replacement text."),
        );
        parts.insert(
            "expected_replacements",
            schema::defaulted_json(
                schema::described_json(
                    schema::count_json(),
                    "Required occurrence count. Defaults to one.",
                ),
                Json::number(1),
            ),
        );
        let parts_required = schema::and_name(schema::and_name(schema::no_names(), "old"), "new");
        let mut properties = JsonMap::new();
        properties.insert(
            "path",
            schema::described_json(
                schema::typed_json("string"),
                "Workspace-relative UTF-8 file path.",
            ),
        );
        properties.insert(
            "edits",
            schema::described_json(
                schema::list_json(Json::object1("$ref", Json::text("#/$defs/TextEdit"))),
                "Ordered exact replacements validated in memory before one final write.",
            ),
        );
        let required = schema::and_name(schema::and_name(schema::no_names(), "path"), "edits");
        let mut document = schema::document_json(
            schema::closed_object_json(properties, &required),
            "EditFileInput",
        );
        document.set_member(
            "$defs",
            Json::object1("TextEdit", schema::closed_object_json(parts, &parts_required)),
        );
        descriptor::descriptor(
            "edit_file",
            "Atomically edit one UTF-8 file with 1-64 ordered, exact, count-checked replacements. No partial file is written when validation fails; success returns bounded current-source evidence around the changed lines.",
            document,
            Capability::FileWrite,
        )
    }

    /// Checks the request and requires the authority to read and to write the file.
    pub fn prepare(&self, context: &ToolContext, request: &EditFileInput) -> (r: Result<
        (),
        ToolError,
    >)
        ensures
            outcome::of(r) == edit_prepared(context.deep_view().policy, request.deep_view()),
    {
        if request.edits.len() == 0 || request.edits.len() > MAX_EDITS {
            return Err(
                ToolError::InvalidRange(
                    text::concat3(
                        "edits must contain between 1 and ",
                        text::decimal_of(MAX_EDITS).as_str(),
                        " replacements",
                    ),
                ),
            );
        }
        authorize_edit(context, request.path.as_str(), "edit_file")
    }

    /// What the edits make of the file at `path`, of which `bytes` were read: its old
    /// text, its new text and the number of replacements.
    pub fn apply(&self, request: &EditFileInput, path: &str, bytes: &Vec<u8>) -> (r: Result<
        (String, String, usize),
        ToolError,
    >)
        requires
            request.edits@.len() < usize::MAX,
        ensures
            match r {
                Ok(done) => {
                    &&& reading::file_text(path@, bytes@, MAX_EDIT_BYTES) == Ok::<_, ToolFault>(
                        done.0@,
                    )
                    &&& edited(
                        done.0@,
                        request.deep_view().edits,
                        request.edits@.len() as int,
                    ) == Ok::<_, ToolFault>((done.1@, done.2 as nat))
                    &&& done.1@.len() <= MAX_EDIT_BYTES
                },
                Err(e) => match reading::file_text(path@, bytes@, MAX_EDIT_BYTES) {
                    Err(fault) => e.deep_view() == fault,
                    Ok(content) => edited(
                        content,
                        request.deep_view().edits,
                        request.edits@.len() as int,
                    ) == Err::<(Seq<char>, nat), _>(e.deep_view()),
                },
            },
    {
        let content = match bounded_text(path, bytes, MAX_EDIT_BYTES) {
            Ok(t) => t,
            Err(e) => {
                return Err(e);
            },
        };
        let ghost edits = request.deep_view().edits;
        let mut current = content.clone();
        let mut replacements: usize = 0;
        let mut i: usize = 0;
        while i < request.edits.len()
            invariant
                i <= request.edits@.len(),
                request.edits@.len() < usize::MAX,
                edits == request.deep_view().edits,
                reading::file_text(path@, bytes@, MAX_EDIT_BYTES) == Ok::<_, ToolFault>(content@),
                current@.len() <= MAX_EDIT_BYTES,
                edited(content@, edits, i as int) == Ok::<_, ToolFault>(
                    (current@, replacements as nat),
                ),
            decreases request.edits@.len() - i,
        {
            assert(edits[i as int] == request.edits@[i as int].deep_view());
            match edit_once(current.as_str(), &request.edits[i], i + 1) {
                Err(e) => {
                    proof {
                        lemma_edits_fail_early(
                            content@,
                            edits,
                            i + 1,
                            request.edits@.len() as int,
                        );
                    }
                    return Err(e);
                },
                Ok((next, actual)) => {
                    current = next;
                    replacements = replacements.saturating_add(actual);
                },
            }
            i += 1;
        }
        Ok((content, current, replacements))
    }

    /// What the edit returns, with a digest of the new content that the caller supplies.
    pub fn report(
        &self,
        request: &EditFileInput,
        content: &str,
        result: &str,
        replacements: usize,
        content_digest: &str,
    ) -> (r: ToolOutput)
        requires
            result@.len() < usize::MAX,
        ensures
            r.deep_view() == edit_output(
                request.deep_view(),
                content@,
                (result@, replacements as nat),
                content_digest@,
            ),
    {
        let mut output = Json::object4(
            "path",
            Json::text(request.path.as_str()),
            "edits",
            Json::count(request.edits.len()),
            "replacements",
            Json::count(replacements),
            "result_bytes",
            Json::count(text::byte_len(result)),
        );
        output.set_member("digest", Json::text(content_digest));
        output.set_member(
            "post_edit",
            feedback_with_digest(request.path.as_str(), content_digest, Some(content), result),
        );
        let counted = text::concat4(
            "applied ",
            text::decimal_of(request.edits.len()).as_str(),
            " edits (",
            text::decimal_of(replacements).as_str(),
        );
        success(
            output,
            text::concat3(counted.as_str(), " replacements) to ", request.path.as_str()),
            one_effect("fs.write:", request.path.as_str()),
        )
    }

    /// The new content of the file at `path`, of which `bytes` were read, and what the
    /// tool returns once that is written.
    pub fn execute(&self, request: &EditFileInput, path: &str, bytes: &Vec<u8>) -> (r: Result<
        Edited,
        ToolError,
    >)
        requires
            request.edits@.len() < usize::MAX,
        ensures
            outcome::of(r) == (match reading::file_text(path@, bytes@, MAX_EDIT_BYTES) {
                Err(e) => Err(e),
                Ok(content) => match edited(
                    content,
                    request.deep_view().edits,
                    request.edits@.len() as int,
                ) {
                    Err(e) => Err(e),
                    Ok(done) => Ok(
                        EditedView {
                            content: done.0,
                            output: edit_output(
                                request.deep_view(),
                                content,
                                done,
                                digest::blake3_hex(encode_utf8(done.0)),
                            ),
                        },
                    ),
                },
            }),
    {
        match self.apply(request, path, bytes) {
            Err(e) => Err(e),
            Ok((content, result, replacements)) => {
                let content_digest = digest::text_digest(result.as_str());
                let output = self.report(
                    request,
                    content.as_str(),
                    result.as_str(),
                    replacements,
                    content_digest.as_str(),
                );
                Ok(Edited { content: result, output })
            },
        }
    }
}

/// An edit is all or nothing: it yields new content only if every one of its
/// replacements, in their order, found exactly the number of occurrences that it asks
/// for; the first that does not decides the refusal.
pub proof fn law_edits_are_all_or_nothing(
    content: Seq<char>,
    edits: Seq<TextEditView>,
    count: int,
    i: int,
)
    requires
        0 < i <= count,
    ensures
        edited(content, edits, count) is Ok ==> edited(content, edits, i - 1) is Ok
            && edited_once(
            edited(content, edits, i - 1)->Ok_0.0,
            edits[i - 1],
            i as nat,
        ) is Ok,
        edited(content, edits, i) is Err ==> edited(content, edits, count) == edited(
            content,
            edits,
            i,
        ),
{
    if edited(content, edits, i) is Err {
        lemma_edits_fail_early(content, edits, i, count);
    }
    if edited(content, edits, i - 1) is Err {
        lemma_edits_fail_early(content, edits, i - 1, count);
    }
}

} // verus!
