//! The tool that applies a unified diff to one file.

use crate::digest;
use crate::json;
use crate::json::{Json, JsonMap, JsonView};
use crate::outcome;
use crate::text;
use crate::tools::descriptor;
use crate::tools::descriptor::{Capability, DescriptorView, OutputView, ToolDescriptor, ToolOutput};
use crate::tools::error::{ToolError, ToolFault};
use crate::tools::feedback;
use crate::tools::feedback::feedback_with_digest;
use crate::tools::patch;
use crate::tools::patch::{
    AppliedPatch, AppliedView, PatchOperation, PatchView, UnifiedPatch, MAX_PATCH_BYTES,
    MAX_PATCH_FILE_BYTES,
};
use crate::tools::patch_laws;
use crate::tools::policy::PermissionView;
use crate::tools::reading;
use crate::tools::reading::{bounded_text, one_effect, success};
use crate::tools::registry;
use crate::tools::registry::ToolContext;
use crate::tools::schema;
use vstd::prelude::*;
use vstd::utf8::*;

verus! {

/// What `apply_patch` is asked for.
pub struct ApplyPatchInput {
    /// Strict single-file unified diff. Use workspace-relative `a/` and `b/` paths or `/dev/null`.
    pub patch: String,
    /// Optional BLAKE3 digest of the current file before applying the patch.
    pub expected_digest: Option<String>,
}

/// An [`ApplyPatchInput`] by its texts.
pub struct ApplyPatchView {
    pub patch: Seq<char>,
    pub expected_digest: Option<Seq<char>>,
}

impl DeepView for ApplyPatchInput {
    type V = ApplyPatchView;

    open spec fn deep_view(&self) -> ApplyPatchView {
        ApplyPatchView {
            patch: self.patch@,
            expected_digest: self.expected_digest.deep_view(),
        }
    }
}

/// The schema of [`ApplyPatchInput`].
pub open spec fn apply_patch_schema() -> JsonView {
    schema::document(
        schema::closed_object(
            Map::<Seq<char>, JsonView>::empty().insert(
                "patch"@,
                schema::described(
                    schema::typed("string"@),
                    "Strict single-file unified diff. Use workspace-relative `a/` and `b/` paths or `/dev/null`."@,
                ),
            ).insert(
                "expected_digest"@,
                schema::described(
                    schema::nullable("string"@),
                    "Optional BLAKE3 digest of the current file before applying the patch."@,
                ),
            ),
            Seq::<Seq<char>>::empty().push("patch"@),
        ),
        "ApplyPatchInput"@,
    )
}

/// A hexadecimal digit, in either case.
pub open spec fn is_hex(c: char) -> bool {
    ('0' <= c <= '9') || ('a' <= c <= 'f') || ('A' <= c <= 'F')
}

/// Whether a text consists of hexadecimal digits, `count` of them.
pub open spec fn is_hex_text(s: Seq<char>, count: nat) -> bool {
    s.len() == count && forall|i: int| 0 <= i < s.len() ==> is_hex(#[trigger] s[i])
}

/// Whether a text consists of hexadecimal digits, `count` of them.
pub fn has_hex_form(s: &str, count: usize) -> (r: bool)
    ensures
        r == is_hex_text(s@, count as nat),
{
    let chars = text::chars_of(s);
    if chars.len() != count {
        return false;
    }
    let mut i: usize = 0;
    while i < chars.len()
        invariant
            i <= chars@.len(),
            chars@ == s@,
            forall|k: int| 0 <= k < i ==> is_hex(#[trigger] s@[k]),
        decreases chars@.len() - i,
    {
        let c = chars[i];
        if !(('0' <= c && c <= '9') || ('a' <= c && c <= 'f') || ('A' <= c && c <= 'F')) {
            return false;
        }
        i += 1;
    }
    true
}

/// Whether a request can be looked into.
pub open spec fn envelope(request: ApplyPatchView) -> Result<(), ToolFault> {
    let bytes = text::utf8_len(request.patch);
    if request.patch.len() == 0 {
        Err(ToolFault::InvalidPatch("patch cannot be empty"@))
    } else if bytes > MAX_PATCH_BYTES {
        Err(
            ToolFault::InvalidPatch(
                "patch is "@ + text::decimal(bytes) + " bytes; limit is "@ + text::decimal(
                    MAX_PATCH_BYTES as nat,
                ),
            ),
        )
    } else if request.patch.contains('\0') {
        Err(ToolFault::InvalidPatch("patch cannot contain NUL bytes"@))
    } else {
        match request.expected_digest {
            Some(d) => if is_hex_text(d, 64) {
                Ok(())
            } else {
                Err(
                    ToolFault::InvalidPatch(
                        "expected_digest must be exactly 64 hexadecimal characters"@,
                    ),
                )
            },
            None => Ok(()),
        }
    }
}

/// Refuses requests that are not worth looking into.
pub fn validate_patch_envelope(request: &ApplyPatchInput) -> (r: Result<(), ToolError>)
    ensures
        outcome::of(r) == envelope(request.deep_view()),
{
    proof {
        text::lemma_utf8_len_zero(request.patch@);
    }
    let bytes: usize = text::byte_len(request.patch.as_str());
    if bytes == 0 {
        return Err(ToolError::InvalidPatch("patch cannot be empty".to_owned()));
    }
    if bytes > MAX_PATCH_BYTES {
        return Err(
            ToolError::InvalidPatch(
                text::concat4(
                    "patch is ",
                    text::decimal_of(bytes).as_str(),
                    " bytes; limit is ",
                    text::decimal_of(MAX_PATCH_BYTES).as_str(),
                ),
            ),
        );
    }
    if text::contains_char(request.patch.as_str(), '\0') {
        return Err(ToolError::InvalidPatch("patch cannot contain NUL bytes".to_owned()));
    }
    match &request.expected_digest {
        Some(d) => if !has_hex_form(d.as_str(), 64) {
            return Err(
                ToolError::InvalidPatch(
                    "expected_digest must be exactly 64 hexadecimal characters".to_owned(),
                ),
            );
        },
        None => {},
    }
    Ok(())
}

/// Whether the file is the one that the patch was made for: `actual` is its digest.
pub open spec fn digest_expected(
    expected: Option<Seq<char>>,
    actual: Seq<char>,
    operation: PatchOperation,
) -> Result<(), ToolFault> {
    match expected {
        None => Ok(()),
        Some(d) => if operation == PatchOperation::Add {
            Err(
                ToolFault::InvalidPatch(
                    "expected_digest is invalid for an added file because no current file exists"@,
                ),
            )
        } else if text::same_ignoring_case_spec(actual, d) {
            Ok(())
        } else {
            Err(
                ToolFault::InvalidPatch(
                    "current file digest is "@ + actual + ", not expected "@ + text::ascii_lowered(
                        d,
                    ),
                ),
            )
        },
    }
}

/// Refuses a file whose digest, `actual`, is not the expected one.
pub fn validate_expected_digest(
    expected: &Option<String>,
    actual: &str,
    operation: PatchOperation,
) -> (r: Result<(), ToolError>)
    ensures
        outcome::of(r) == digest_expected(expected.deep_view(), actual@, operation),
{
    match expected {
        None => Ok(()),
        Some(d) => {
            if operation == PatchOperation::Add {
                return Err(
                    ToolError::InvalidPatch(
                        "expected_digest is invalid for an added file because no current file exists".to_owned(),
                    ),
                );
            }
            if text::same_ignoring_case(actual, d.as_str()) {
                Ok(())
            } else {
                Err(
                    ToolError::InvalidPatch(
                        text::concat4(
                            "current file digest is ",
                            actual,
                            ", not expected ",
                            text::ascii_lower_text(d.as_str()).as_str(),
                        ),
                    ),
                )
            }
        },
    }
}

/// The text that a patch starts from: none for an added file, which must not exist, and
/// otherwise that of the file at `path`, of which `bytes` were read.
pub open spec fn starting_text(
    patch: PatchView,
    exists_already: bool,
    path: Seq<char>,
    bytes: Seq<u8>,
) -> Result<Seq<char>, ToolFault> {
    if patch.operation != PatchOperation::Add {
        reading::file_text(path, bytes, MAX_PATCH_FILE_BYTES)
    } else if exists_already {
        Err(
            ToolFault::InvalidPatch(
                "cannot add "@ + text::debug_view(patch.path)
                    + ": the candidate path already exists"@,
            ),
        )
    } else {
        Ok(Seq::empty())
    }
}

/// The text that a patch starts from.
pub fn original_text(patch: &UnifiedPatch, exists_already: bool, path: &str, bytes: &Vec<u8>) -> (r:
    Result<String, ToolError>)
    ensures
        outcome::of(r) == starting_text(patch.deep_view(), exists_already, path@, bytes@),
        r matches Ok(t) ==> t@.len() <= MAX_PATCH_FILE_BYTES,
{
    if patch.operation != PatchOperation::Add {
        return bounded_text(path, bytes, MAX_PATCH_FILE_BYTES);
    }
    if exists_already {
        return Err(
            ToolError::InvalidPatch(
                text::concat3(
                    "cannot add ",
                    text::debug_text(patch.path.as_str()).as_str(),
                    ": the candidate path already exists",
                ),
            ),
        );
    }
    let none = String::new();
    assert(none@ =~= Seq::<char>::empty());
    Ok(none)
}

/// A file after a patch that changes it.
pub open spec fn patched(patch: PatchView, original: Seq<char>) -> Result<AppliedView, ToolFault> {
    match patch::apply_spec(patch, original) {
        Err(e) => Err(e),
        Ok(applied) => if applied.text == original {
            Err(ToolFault::InvalidPatch("patch produced no file-content change"@))
        } else {
            Ok(applied)
        },
    }
}

/// A file after a patch that changes it.
pub fn apply_changing(patch: &UnifiedPatch, original: &str) -> (r: Result<AppliedPatch, ToolError>)
    requires
        original@.len() + 1 < usize::MAX,
    ensures
        outcome::of(r) == patched(patch.deep_view(), original@),
{
    match patch.apply(original) {
        Err(e) => Err(e),
        Ok(applied) => if text::same(applied.text.as_str(), original) {
            Err(ToolError::InvalidPatch("patch produced no file-content change".to_owned()))
        } else {
            Ok(applied)
        },
    }
}

/// What a patch returns, with the digest of the new content.
pub open spec fn patch_output(
    patch: PatchView,
    original: Seq<char>,
    applied: AppliedView,
    content_digest: Seq<char>,
) -> OutputView {
    let deletes = patch.operation == PatchOperation::Delete;
    let base = json::obj4(
        "path"@,
        JsonView::Text(patch.path),
        "operation"@,
        JsonView::Text(patch.operation.label_spec()),
        "hunks"@,
        json::num(patch.hunks.len()),
        "lines_added"@,
        json::num(applied.lines_added),
    );
    let counted = json::with_member(
        json::with_member(base, "lines_removed"@, json::num(applied.lines_removed)),
        "result_bytes"@,
        json::num(text::utf8_len(applied.text)),
    );
    let evident = json::with_member(
        json::with_member(
            counted,
            "digest"@,
            if deletes {
                JsonView::Null
            } else {
                JsonView::Text(content_digest)
            },
        ),
        "post_edit"@,
        if deletes {
            JsonView::Null
        } else {
            feedback::feedback_json(patch.path, content_digest, Some(original), applied.text)
        },
    );
    reading::succeeded(
        json::with_member(evident, "exists_in_candidate"@, JsonView::Bool(!deletes)),
        patch.operation.label_spec() + " patch applied to "@ + patch.path + " ("@ + text::decimal(
            patch.hunks.len(),
        ) + " hunks, +"@ + text::decimal(applied.lines_added) + "/-"@ + text::decimal(
            applied.lines_removed,
        ) + ")"@,
        seq![
            (if deletes {
                "fs.delete:"@
            } else {
                "fs.write:"@
            }) + patch.path,
        ],
    )
}

/// The new content of a patched file, none if it is to be removed, and the output that
/// belongs to it once that is done.
pub struct PatchedFile {
    pub content: Option<String>,
    pub output: ToolOutput,
}

/// A [`PatchedFile`] by its text and its output.
pub struct PatchedView {
    pub content: Option<Seq<char>>,
    pub output: OutputView,
}

impl DeepView for PatchedFile {
    type V = PatchedView;

    open spec fn deep_view(&self) -> PatchedView {
        PatchedView { content: self.content.deep_view(), output: self.output.deep_view() }
    }
}

/// Whether a patch may be applied: it writes, and unless it adds a file it reads.
pub open spec fn patch_authorized(policy: PermissionView, patch: PatchView) -> Result<
    (),
    ToolFault,
> {
    match registry::authorized(policy, Capability::FileWrite, patch.path, "apply_patch"@) {
        Err(e) => Err(e),
        Ok(()) => if patch.operation == PatchOperation::Add {
            Ok(())
        } else {
            registry::authorized(policy, Capability::FileRead, patch.path, "apply_patch"@)
        },
    }
}

/// Applies one strict unified diff without fuzzy matching or external commands.
pub struct ApplyPatchTool;

/// What `apply_patch` presents to a model.
pub open spec fn apply_patch_descriptor() -> DescriptorView {
    descriptor::descriptor_spec(
        "apply_patch"@,
        "Apply one bounded, strict unified diff to one workspace-relative UTF-8 file. Supports add, update, and delete; every hunk and line number must match exactly, no fuzzy offsets are used, and validation completes before the isolated candidate is changed."@,
        apply_patch_schema(),
        Capability::FileWrite,
    )
}

impl ApplyPatchTool {
    /// What the tool presents to a model.
    pub fn descriptor(&self) -> (r: ToolDescriptor)
        ensures
            r.deep_view() == apply_patch_descriptor(),
    {
        let mut properties = JsonMap::new();
        properties.insert(
            "patch",
            schema::described_json(
                schema::typed_json("string"),
                "Strict single-file unified diff. Use workspace-relative `a/` and `b/` paths or `/dev/null`.",
            ),
        );
        properties.insert(
            "expected_digest",
            schema::described_json(
                schema::nullable_json("string"),
                "Optional BLAKE3 digest of the current file before applying the patch.",
            ),
        );
        let required = schema::and_name(schema::no_names(), "patch");
        descriptor::descriptor(
            "apply_patch",
            "Apply one bounded, strict unified diff to one workspace-relative UTF-8 file. Supports add, update, and delete; every hunk and line number must match exactly, no fuzzy offsets are used, and validation completes before the isolated candidate is changed.",
            schema::document_json(
                schema::closed_object_json(properties, &required),
                "ApplyPatchInput",
            ),
            Capability::FileWrite,
        )
    }

    /// Reads the patch and requires the authority that it needs.
    pub fn prepare(&self, context: &ToolContext, request: &ApplyPatchInput) -> (r: Result<
        UnifiedPatch,
        ToolError,
    >)
        ensures
            outcome::of(r) == (match envelope(request.deep_view()) {
                Err(e) => Err(e),
                Ok(()) => match patch::patch_spec(request.patch@) {
                    Err(e) => Err(e),
                    Ok(patch) => match patch_authorized(context.deep_view().policy, patch) {
                        Err(e) => Err(e),
                        Ok(()) => Ok(patch),
                    },
                },
            }),
    {
        match validate_patch_envelope(request) {
            Err(e) => {
                return Err(e);
            },
            Ok(()) => {},
        }
        let patch = match UnifiedPatch::parse(request.patch.as_str()) {
            Err(e) => {
                return Err(e);
            },
            Ok(p) => p,
        };
        match context.authorize(Capability::FileWrite, patch.path.as_str(), "apply_patch") {
            Err(e) => {
                return Err(e);
            },
            Ok(()) => {},
        }
        if patch.operation != PatchOperation::Add {
            match context.authorize(Capability::FileRead, patch.path.as_str(), "apply_patch") {
                Err(e) => {
                    return Err(e);
                },
                Ok(()) => {},
            }
        }
        Ok(patch)
    }

    /// What the patch returns, with a digest of the new content that the caller supplies.
    pub fn report(
        &self,
        patch: &UnifiedPatch,
        original: &str,
        applied: &AppliedPatch,
        content_digest: &str,
    ) -> (r: ToolOutput)
        requires
            applied.text@.len() < usize::MAX,
        ensures
            r.deep_view() == patch_output(
                patch.deep_view(),
                original@,
                applied.deep_view(),
                content_digest@,
            ),
    {
        let deletes = patch.operation == PatchOperation::Delete;
        let mut output = Json::object4(
            "path",
            Json::text(patch.path.as_str()),
            "operation",
            Json::text(patch.operation.label()),
            "hunks",
            Json::count(patch.hunks.len()),
            "lines_added",
            Json::count(applied.lines_added),
        );
        output.set_member("lines_removed", Json::count(applied.lines_removed));
        output.set_member("result_bytes", Json::count(text::byte_len(applied.text.as_str())));
        output.set_member(
            "digest",
            if deletes {
                Json::null()
            } else {
                Json::text(content_digest)
            },
        );
        output.set_member(
            "post_edit",
            if deletes {
                Json::null()
            } else {
                feedback_with_digest(
                    patch.path.as_str(),
                    content_digest,
                    Some(original),
                    applied.text.as_str(),
                )
            },
        );
        output.set_member("exists_in_candidate", Json::boolean(!deletes));
        let named = text::concat4(
            patch.operation.label(),
            " patch applied to ",
            patch.path.as_str(),
            " (",
        );
        let counted = text::concat4(
            named.as_str(),
            text::decimal_of(patch.hunks.len()).as_str(),
            " hunks, +",
            text::decimal_of(applied.lines_added).as_str(),
        );
        let summary = text::concat4(
            counted.as_str(),
            "/-",
            text::decimal_of(applied.lines_removed).as_str(),
            ")",
        );
        success(
            output,
            summary,
            one_effect(
                if deletes {
                    "fs.delete:"
                } else {
                    "fs.write:"
                },
                patch.path.as_str(),
            ),
        )
    }

    /// What the patch makes of the file that it names, and what the tool returns once that
    /// is written or removed. A file that is not added lies at `path`, and `bytes` were
    /// read of it.
    pub fn execute(
        &self,
        request: &ApplyPatchInput,
        patch: &UnifiedPatch,
        exists_already: bool,
        path: &str,
        bytes: &Vec<u8>,
    ) -> (r: Result<PatchedFile, ToolError>)
        ensures
            outcome::of(r) == (match starting_text(
                patch.deep_view(),
                exists_already,
                path@,
                bytes@,
            ) {
                Err(e) => Err(e),
                Ok(original) => match digest_expected(
                    request.deep_view().expected_digest,
                    digest::blake3_hex(encode_utf8(original)),
                    patch.operation,
                ) {
                    Err(e) => Err(e),
                    Ok(()) => match patched(patch.deep_view(), original) {
                        Err(e) => Err(e),
                        Ok(applied) => Ok(
                            PatchedView {
                                content: if patch.operation == PatchOperation::Delete {
                                    None
                                } else {
                                    Some(applied.text)
                                },
                                output: patch_output(
                                    patch.deep_view(),
                                    original,
                                    applied,
                                    digest::blake3_hex(encode_utf8(applied.text)),
                                ),
                            },
                        ),
                    },
                },
            }),
    {
        let original = match original_text(patch, exists_already, path, bytes) {
            Err(e) => {
                return Err(e);
            },
            Ok(t) => t,
        };
        match validate_expected_digest(
            &request.expected_digest,
            digest::text_digest(original.as_str()).as_str(),
            patch.operation,
        ) {
            Err(e) => {
                return Err(e);
            },
            Ok(()) => {},
        }
        let applied = match apply_changing(patch, original.as_str()) {
            Err(e) => {
                return Err(e);
            },
            Ok(a) => a,
        };
        proof {
            patch_laws::law_patched_file_is_bounded(patch.deep_view(), original@);
            text::lemma_utf8_len_zero(applied.text@);
        }
        let content_digest = digest::text_digest(applied.text.as_str());
        let output = self.report(patch, original.as_str(), &applied, content_digest.as_str());
        let content = if patch.operation == PatchOperation::Delete {
            None
        } else {
            Some(applied.text)
        };
        Ok(PatchedFile { content, output })
    }
}

/// A stale patch changes nothing: a file whose digest is not the expected one is refused,
/// and so is an expectation on a file that does not exist yet.
pub proof fn law_stale_patches_are_refused(
    expected: Seq<char>,
    actual: Seq<char>,
    operation: PatchOperation,
)
    ensures
        digest_expected(Some(expected), actual, operation) is Ok <==> operation
            != PatchOperation::Add && text::same_ignoring_case_spec(actual, expected),
{
}

} // verus!
