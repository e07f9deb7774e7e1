//! The tools that read several files, inspect the candidate, and recall memory.

use crate::json;
use crate::json::{Json, JsonMap, JsonView};
use crate::outcome;
use crate::text;
use crate::tools::descriptor;
use crate::tools::descriptor::{Capability, DescriptorView, OutputView, ToolDescriptor, ToolOutput};
use crate::tools::error::{ToolError, ToolFault};
use crate::tools::policy::PermissionView;
use crate::tools::reading;
use crate::tools::reading::{check_read, success};
use crate::tools::registry;
use crate::tools::registry::ToolContext;
use crate::tools::schema;
use crate::workspace::changes::{ChangeView, FileChange};
use vstd::prelude::*;
use vstd::utf8::*;

verus! {

/// Largest number of files of one batch.
pub const MAX_BATCH_FILES: usize = 32;

/// Largest file of a batch.
pub const MAX_BATCH_FILE_BYTES: u64 = 262144;

/// Largest number of bytes of a batch.
pub const MAX_BATCH_TOTAL_BYTES: usize = 1048576;

/// Largest number of recalled memories.
pub const MAX_MEMORY_RESULTS: usize = 12;

/// What `read_many_files` is asked for.
pub struct ReadManyFilesInput {
    /// Unique workspace-relative file paths. Absolute paths are forbidden.
    pub paths: Vec<String>,
}

/// The schema of [`ReadManyFilesInput`].
pub open spec fn read_many_schema() -> JsonView {
    schema::document(
        schema::closed_object(
            Map::<Seq<char>, JsonView>::empty().insert(
                "paths"@,
                schema::described(
                    schema::list_of(schema::typed("string"@)),
                    "Unique workspace-relative file paths. Absolute paths are forbidden."@,
                ),
            ),
            Seq::<Seq<char>>::empty().push("paths"@),
        ),
        "ReadManyFilesInput"@,
    )
}

/// Whether no path occurs twice.
pub open spec fn distinct(paths: Seq<Seq<char>>) -> bool {
    forall|i: int, j: int| 0 <= i < j < paths.len() ==> #[trigger] paths[i] != #[trigger] paths[j]
}

/// Whether the first `count` files may be read.
pub open spec fn all_authorized(
    policy: PermissionView,
    paths: Seq<Seq<char>>,
    count: int,
) -> Result<(), ToolFault>
    decreases count,
{
    if count <= 0 {
        Ok(())
    } else {
        match all_authorized(policy, paths, count - 1) {
            Err(e) => Err(e),
            Ok(()) => registry::authorized(
                policy,
                Capability::FileRead,
                paths[count - 1],
                "read_many_files"@,
            ),
        }
    }
}

proof fn lemma_refusal_stands(policy: PermissionView, paths: Seq<Seq<char>>, i: int, count: int)
    requires
        0 <= i <= count,
        all_authorized(policy, paths, i) is Err,
    ensures
        all_authorized(policy, paths, count) == all_authorized(policy, paths, i),
    decreases count - i,
{
    if i < count {
        lemma_refusal_stands(policy, paths, i, count - 1);
    }
}

/// Whether a batch may be read.
pub open spec fn batch_prepared(policy: PermissionView, paths: Seq<Seq<char>>) -> Result<
    (),
    ToolFault,
> {
    if paths.len() == 0 || paths.len() > MAX_BATCH_FILES {
        Err(
            ToolFault::InvalidRange(
                "paths must contain between 1 and "@ + text::decimal(MAX_BATCH_FILES as nat)
                    + " files"@,
            ),
        )
    } else if !distinct(paths) {
        Err(ToolFault::InvalidRange("paths must not contain duplicates"@))
    } else {
        all_authorized(policy, paths, paths.len() as int)
    }
}

/// What has been read of a batch.
pub struct ReadBatch {
    files: Vec<Json>,
    effects: Vec<String>,
    total_bytes: usize,
}

/// A [`ReadBatch`] by its values and texts.
pub struct BatchView {
    pub files: Seq<JsonView>,
    pub effects: Seq<Seq<char>>,
    pub total_bytes: nat,
}

impl DeepView for ReadBatch {
    type V = BatchView;

    closed spec fn deep_view(&self) -> BatchView {
        BatchView {
            files: self.files.deep_view(),
            effects: self.effects.deep_view(),
            total_bytes: self.total_bytes as nat,
        }
    }
}

/// A file of a batch as JSON.
pub open spec fn batch_file_json(relative: Seq<char>, content: Seq<char>) -> JsonView {
    json::obj4(
        "path"@,
        JsonView::Text(relative),
        "lines"@,
        json::num(text::lines_spec(content).len()),
        "bytes"@,
        json::num(text::utf8_len(content)),
        "content"@,
        JsonView::Text(content),
    )
}

/// A batch with one more file.
pub open spec fn batch_with(
    batch: BatchView,
    relative: Seq<char>,
    path: Seq<char>,
    bytes: Seq<u8>,
) -> Result<BatchView, ToolFault> {
    if bytes.len() > MAX_BATCH_FILE_BYTES {
        Err(reading::too_large(MAX_BATCH_FILE_BYTES))
    } else if batch.total_bytes + bytes.len() > MAX_BATCH_TOTAL_BYTES {
        Err(
            ToolFault::InvalidRange(
                "combined file content exceeds "@ + text::decimal(MAX_BATCH_TOTAL_BYTES as nat)
                    + " bytes"@,
            ),
        )
    } else if !valid_utf8(bytes) {
        Err(ToolFault::NonUtf8(path))
    } else {
        Ok(
            BatchView {
                files: batch.files.push(batch_file_json(relative, decode_utf8(bytes))),
                effects: batch.effects.push("fs.read:"@ + relative),
                total_bytes: batch.total_bytes + bytes.len(),
            },
        )
    }
}

impl ReadBatch {
    /// Whether the batch is not too large.
    pub closed spec fn wf(&self) -> bool {
        self.total_bytes <= MAX_BATCH_TOTAL_BYTES
    }

    /// A batch without files.
    pub fn new() -> (r: ReadBatch)
        ensures
            r.wf(),
            r.deep_view() == (BatchView {
                files: Seq::empty(),
                effects: Seq::empty(),
                total_bytes: 0,
            }),
    {
        let r = ReadBatch { files: Vec::new(), effects: Vec::new(), total_bytes: 0 };
        assert(r.deep_view().files =~= Seq::<JsonView>::empty());
        assert(r.deep_view().effects =~= Seq::<Seq<char>>::empty());
        r
    }

    /// Takes over the file that the request calls `relative` and that lies at `path`, of
    /// which `bytes` were read.
    pub fn push_file(&mut self, relative: &str, path: &str, bytes: &Vec<u8>) -> (r: Result<
        (),
        ToolError,
    >)
        requires
            old(self).wf(),
        ensures
            final(self).wf(),
            match batch_with(old(self).deep_view(), relative@, path@, bytes@) {
                Ok(next) => r is Ok && final(self).deep_view() == next,
                Err(e) => outcome::of(r) == Err::<(), _>(e) && final(self).deep_view() == old(
                    self,
                ).deep_view(),
            },
    {
        match check_read(bytes, MAX_BATCH_FILE_BYTES) {
            Ok(()) => {},
            Err(e) => {
                return Err(e);
            },
        }
        let total: usize = self.total_bytes + bytes.len();
        if total > MAX_BATCH_TOTAL_BYTES {
            return Err(
                ToolError::InvalidRange(
                    text::concat3(
                        "combined file content exceeds ",
                        text::decimal_of(MAX_BATCH_TOTAL_BYTES).as_str(),
                        " bytes",
                    ),
                ),
            );
        }
        match text::utf8_text(bytes.as_slice()) {
            None => Err(ToolError::NonUtf8(path.to_owned())),
            Some(content) => {
                let lines = text::lines(content.as_str());
                proof {
                    assert(text::views(lines@).len() == lines@.len());
                }
                let ghost before = self.deep_view();
                self.files.push(
                    Json::object4(
                        "path",
                        Json::text(relative),
                        "lines",
                        Json::count(lines.len()),
                        "bytes",
                        Json::count(text::byte_len(content.as_str())),
                        "content",
                        Json::text(content.as_str()),
                    ),
                );
                self.effects.push(text::concat2("fs.read:", relative));
                self.total_bytes = total;
                assert(self.deep_view().files =~= before.files.push(
                    batch_file_json(relative@, content@),
                ));
                assert(self.deep_view().effects =~= before.effects.push("fs.read:"@ + relative@));
                Ok(())
            },
        }
    }
}

/// What a batch returns.
pub open spec fn batch_output(paths: nat, batch: BatchView) -> OutputView {
    reading::succeeded(
        json::obj2(
            "files"@,
            JsonView::Array(batch.files),
            "total_bytes"@,
            json::num(batch.total_bytes),
        ),
        "read "@ + text::decimal(paths) + " files ("@ + text::decimal(batch.total_bytes)
            + " bytes)"@,
        batch.effects,
    )
}

/// Reads several bounded UTF-8 files in one model round trip.
pub struct ReadManyFilesTool;

/// What `read_many_files` presents to a model.
pub open spec fn read_many_files_descriptor() -> DescriptorView {
    descriptor::descriptor_spec(
        "read_many_files"@,
        "Read up to 32 small UTF-8 files in one bounded call. Prefer this after list_files or search identifies several relevant files."@,
        read_many_schema(),
        Capability::FileRead,
    )
}

impl ReadManyFilesTool {
    /// What the tool presents to a model.
    pub fn descriptor(&self) -> (r: ToolDescriptor)
        ensures
            r.deep_view() == read_many_files_descriptor(),
    {
        let mut properties = JsonMap::new();
        properties.insert(
            "paths",
            schema::described_json(
                schema::list_json(schema::typed_json("string")),
                "Unique workspace-relative file paths. Absolute paths are forbidden.",
            ),
        );
        let required = schema::and_name(schema::no_names(), "paths");
        descriptor::descriptor(
            "read_many_files",
            "Read up to 32 small UTF-8 files in one bounded call. Prefer this after list_files or search identifies several relevant files.",
            schema::document_json(
                schema::closed_object_json(properties, &required),
                "ReadManyFilesInput",
            ),
            Capability::FileRead,
        )
    }

    /// Checks the request and requires the authority to read every file.
    pub fn prepare(&self, context: &ToolContext, request: &ReadManyFilesInput) -> (r: Result<
        (),
        ToolError,
    >)
        ensures
            outcome::of(r) == batch_prepared(
                context.deep_view().policy,
                text::views(request.paths@),
            ),
    {
        let ghost views = text::views(request.paths@);
        let ghost policy = context.deep_view().policy;
        assert(views.len() == request.paths@.len());
        if request.paths.len() == 0 || request.paths.len() > MAX_BATCH_FILES {
            return Err(
                ToolError::InvalidRange(
                    text::concat3(
                        "paths must contain between 1 and ",
                        text::decimal_of(MAX_BATCH_FILES).as_str(),
                        " files",
                    ),
                ),
            );
        }
        let mut i: usize = 0;
        while i < request.paths.len()
            invariant
                i <= request.paths@.len(),
                views == text::views(request.paths@),
                views.len() == request.paths@.len(),
                1 <= views.len() <= MAX_BATCH_FILES,
                policy == context.deep_view().policy,
                distinct(views.take(i as int)),
            decreases request.paths@.len() - i,
        {
            let mut j: usize = 0;
            while j < i
                invariant
                    j <= i < request.paths@.len(),
                    views == text::views(request.paths@),
                    views.len() == request.paths@.len(),
                    1 <= views.len() <= MAX_BATCH_FILES,
                    policy == context.deep_view().policy,
                    forall|k: int| 0 <= k < j ==> #[trigger] views[k] != views[i as int],
                decreases i - j,
            {
                assert(views[j as int] == request.paths@[j as int]@);
                assert(views[i as int] == request.paths@[i as int]@);
                if text::same(request.paths[j].as_str(), request.paths[i].as_str()) {
                    return Err(
                        ToolError::InvalidRange("paths must not contain duplicates".to_owned()),
                    );
                }
                j += 1;
            }
            proof {
                let next = views.take(i as int + 1);
                assert forall|a: int, b: int| 0 <= a < b < next.len() implies #[trigger] next[a]
                    != #[trigger] next[b] by {
                    if b < i {
                        assert(views.take(i as int)[a] != views.take(i as int)[b]);
                    }
                }
            }
            i += 1;
        }
        assert(views.take(i as int) =~= views);
        let mut k: usize = 0;
        while k < request.paths.len()
            invariant
                k <= request.paths@.len(),
                views == text::views(request.paths@),
                views.len() == request.paths@.len(),
                1 <= views.len() <= MAX_BATCH_FILES,
                distinct(views),
                policy == context.deep_view().policy,
                all_authorized(policy, views, k as int) == Ok::<(), ToolFault>(()),
            decreases request.paths@.len() - k,
        {
            assert(views[k as int] == request.paths@[k as int]@);
            match context.authorize(
                Capability::FileRead,
                request.paths[k].as_str(),
                "read_many_files",
            ) {
                Ok(()) => {},
                Err(e) => {
                    proof {
                        lemma_refusal_stands(policy, views, k + 1, views.len() as int);
                    }
                    return Err(e);
                },
            }
            k += 1;
        }
        Ok(())
    }

    /// What the batch returns.
    pub fn execute(&self, request: &ReadManyFilesInput, batch: ReadBatch) -> (r: ToolOutput)
        ensures
            r.deep_view() == batch_output(request.paths@.len(), batch.deep_view()),
    {
        let summary = text::concat5(
            "read ",
            text::decimal_of(request.paths.len()).as_str(),
            " files (",
            text::decimal_of(batch.total_bytes).as_str(),
            " bytes)",
        );
        let total_bytes: usize = batch.total_bytes;
        success(
            Json::object2(
                "files",
                Json::array(batch.files),
                "total_bytes",
                Json::count(total_bytes),
            ),
            summary,
            batch.effects,
        )
    }
}

/// A batch never holds more bytes than a batch may.
pub proof fn law_batches_are_bounded(
    batch: BatchView,
    relative: Seq<char>,
    path: Seq<char>,
    bytes: Seq<u8>,
)
    ensures
        batch_with(batch, relative, path, bytes) matches Ok(next) ==> next.total_bytes
            <= MAX_BATCH_TOTAL_BYTES && next.files.len() == batch.files.len() + 1,
{
}

/// The schema of the input of `workspace_changes`, which has no members.
pub open spec fn workspace_changes_schema() -> JsonView {
    schema::document(
        json::obj2(
            "type"@,
            JsonView::Text("object"@),
            "additionalProperties"@,
            JsonView::Bool(false),
        ),
        "WorkspaceChangesInput"@,
    )
}

/// A text or null.
pub open spec fn optional_text_json(s: Option<Seq<char>>) -> JsonView {
    match s {
        Some(t) => JsonView::Text(t),
        None => JsonView::Null,
    }
}

/// A text or null.
pub fn optional_text_value(s: &Option<String>) -> (r: Json)
    ensures
        r.deep_view() == optional_text_json(s.deep_view()),
{
    match s {
        Some(t) => Json::text(t.as_str()),
        None => Json::null(),
    }
}

/// A mode or null.
pub open spec fn mode_json(mode: Option<u32>) -> JsonView {
    match mode {
        Some(n) => json::num(n as nat),
        None => JsonView::Null,
    }
}

fn mode_value(mode: Option<u32>) -> (r: Json)
    ensures
        r.deep_view() == mode_json(mode),
{
    match mode {
        Some(n) => Json::number(n as u64),
        None => Json::null(),
    }
}

/// A change as JSON.
pub open spec fn change_json(c: ChangeView) -> JsonView {
    json::with_member(
        json::with_member(
            json::with_member(
                json::obj4(
                    "path"@,
                    JsonView::Text(c.path),
                    "before_digest"@,
                    optional_text_json(c.before_digest),
                    "after_digest"@,
                    optional_text_json(c.after_digest),
                    "before_unix_mode"@,
                    mode_json(c.before_unix_mode),
                ),
                "after_unix_mode"@,
                mode_json(c.after_unix_mode),
            ),
            "bytes_added"@,
            json::num(c.bytes_added as nat),
        ),
        "bytes_removed"@,
        json::num(c.bytes_removed as nat),
    )
}

/// A change as JSON.
pub fn change_value(c: &FileChange) -> (r: Json)
    ensures
        r.deep_view() == change_json(c.deep_view()),
{
    let mut out = Json::object4(
        "path",
        Json::text(c.path.as_str()),
        "before_digest",
        optional_text_value(&c.before_digest),
        "after_digest",
        optional_text_value(&c.after_digest),
        "before_unix_mode",
        mode_value(c.before_unix_mode),
    );
    out.set_member("after_unix_mode", mode_value(c.after_unix_mode));
    out.set_member("bytes_added", Json::number(c.bytes_added));
    out.set_member("bytes_removed", Json::number(c.bytes_removed));
    out
}

/// The first `count` changes as JSON.
pub fn change_values(changes: &Vec<FileChange>, count: usize) -> (r: Json)
    requires
        count <= changes@.len(),
    ensures
        r.deep_view() == JsonView::Array(
            changes.deep_view().take(count as int).map_values(|c: ChangeView| change_json(c)),
        ),
{
    let mut items: Vec<Json> = Vec::new();
    let mut i: usize = 0;
    while i < count
        invariant
            i <= count <= changes@.len(),
            items@.len() == i,
            forall|k: int|
                0 <= k < i ==> (#[trigger] items@[k]).deep_view() == change_json(
                    changes@[k].deep_view(),
                ),
        decreases count - i,
    {
        items.push(change_value(&changes[i]));
        i += 1;
    }
    assert(items.deep_view() =~= changes.deep_view().take(count as int).map_values(
        |c: ChangeView| change_json(c),
    ));
    Json::array(items)
}

/// The bytes that the first `count` changes add.
pub open spec fn bytes_added(changes: Seq<ChangeView>, count: int) -> nat
    decreases count,
{
    if count <= 0 {
        0
    } else {
        bytes_added(changes, count - 1) + changes[count - 1].bytes_added as nat
    }
}

/// The bytes that the first `count` changes remove.
pub open spec fn bytes_removed(changes: Seq<ChangeView>, count: int) -> nat
    decreases count,
{
    if count <= 0 {
        0
    } else {
        bytes_removed(changes, count - 1) + changes[count - 1].bytes_removed as nat
    }
}

proof fn lemma_sums_grow(changes: Seq<ChangeView>, i: int, count: int)
    requires
        0 <= i <= count,
    ensures
        bytes_added(changes, i) <= bytes_added(changes, count),
        bytes_removed(changes, i) <= bytes_removed(changes, count),
    decreases count - i,
{
    if i < count {
        lemma_sums_grow(changes, i, count - 1);
    }
}

/// What an inspection of the candidate returns.
pub open spec fn changes_output(changes: Seq<ChangeView>) -> OutputView {
    let n = changes.len();
    reading::succeeded(
        json::obj4(
            "changes"@,
            JsonView::Array(changes.map_values(|c: ChangeView| change_json(c))),
            "files"@,
            json::num(n),
            "bytes_added"@,
            json::num(bytes_added(changes, n as int)),
            "bytes_removed"@,
            json::num(bytes_removed(changes, n as int)),
        ),
        "inspected "@ + text::decimal(n) + " candidate file changes"@,
        seq!["transaction.inspect"@],
    )
}

/// A list of one text.
pub fn single(s: &str) -> (r: Vec<String>)
    ensures
        r.deep_view() == seq![s@],
{
    let mut out: Vec<String> = Vec::new();
    out.push(s.to_owned());
    assert(out.deep_view() =~= seq![s@]);
    out
}

/// Inspects the isolated candidate without invoking Git or a shell.
pub struct WorkspaceChangesTool;

/// What `workspace_changes` presents to a model.
pub open spec fn workspace_changes_descriptor() -> DescriptorView {
    descriptor::descriptor_spec(
        "workspace_changes"@,
        "Inspect all candidate file changes currently staged in Pactrail's isolated transaction, including digests and byte counts."@,
        workspace_changes_schema(),
        Capability::FileRead,
    )
}

impl WorkspaceChangesTool {
    /// What the tool presents to a model.
    pub fn descriptor(&self) -> (r: ToolDescriptor)
        ensures
            r.deep_view() == workspace_changes_descriptor(),
    {
        descriptor::descriptor(
            "workspace_changes",
            "Inspect all candidate file changes currently staged in Pactrail's isolated transaction, including digests and byte counts.",
            schema::document_json(
                Json::object2(
                    "type",
                    Json::text("object"),
                    "additionalProperties",
                    Json::boolean(false),
                ),
                "WorkspaceChangesInput",
            ),
            Capability::FileRead,
        )
    }

    /// Requires the authority to read the workspace.
    pub fn prepare(&self, context: &ToolContext) -> (r: Result<(), ToolError>)
        ensures
            outcome::of(r) == registry::authorized(
                context.deep_view().policy,
                Capability::FileRead,
                "."@,
                "workspace_changes"@,
            ),
    {
        context.authorize(Capability::FileRead, ".", "workspace_changes")
    }

    /// What the inspection of these changes returns.
    pub fn execute(&self, changes: &Vec<FileChange>) -> (r: ToolOutput)
        requires
            bytes_added(changes.deep_view(), changes@.len() as int) <= u64::MAX,
            bytes_removed(changes.deep_view(), changes@.len() as int) <= u64::MAX,
        ensures
            r.deep_view() == changes_output(changes.deep_view()),
    {
        let ghost views = changes.deep_view();
        let mut added: u64 = 0;
        let mut removed: u64 = 0;
        let mut i: usize = 0;
        while i < changes.len()
            invariant
                i <= changes@.len(),
                views == changes.deep_view(),
                added == bytes_added(views, i as int),
                removed == bytes_removed(views, i as int),
                bytes_added(views, changes@.len() as int) <= u64::MAX,
                bytes_removed(views, changes@.len() as int) <= u64::MAX,
            decreases changes@.len() - i,
        {
            proof {
                lemma_sums_grow(views, i + 1, changes@.len() as int);
                assert(views[i as int] == changes@[i as int].deep_view());
            }
            added += changes[i].bytes_added;
            removed += changes[i].bytes_removed;
            i += 1;
        }
        assert(views.take(changes@.len() as int) =~= views);
        success(
            Json::object4(
                "changes",
                change_values(changes, changes.len()),
                "files",
                Json::count(changes.len()),
                "bytes_added",
                Json::number(added),
                "bytes_removed",
                Json::number(removed),
            ),
            text::concat3(
                "inspected ",
                text::decimal_of(changes.len()).as_str(),
                " candidate file changes",
            ),
            single("transaction.inspect"),
        )
    }
}

/// What `recall_memory` is asked for.
pub struct RecallMemoryInput {
    /// Topic, file, component, convention, or prior decision to recall.
    pub query: String,
    /// Maximum memories to return.
    pub max_results: usize,
}

/// A [`RecallMemoryInput`] by its text.
pub struct RecallView {
    pub query: Seq<char>,
    pub max_results: usize,
}

impl DeepView for RecallMemoryInput {
    type V = RecallView;

    open spec fn deep_view(&self) -> RecallView {
        RecallView { query: self.query@, max_results: self.max_results }
    }
}

/// The schema of [`RecallMemoryInput`].
pub open spec fn recall_schema() -> JsonView {
    schema::document(
        schema::closed_object(
            Map::<Seq<char>, JsonView>::empty().insert(
                "query"@,
                schema::described(
                    schema::typed("string"@),
                    "Topic, file, component, convention, or prior decision to recall."@,
                ),
            ).insert(
                "max_results"@,
                schema::defaulted(
                    schema::described(schema::count_spec(), "Maximum memories to return."@),
                    json::num(6),
                ),
            ),
            Seq::<Seq<char>>::empty().push("query"@),
        ),
        "RecallMemoryInput"@,
    )
}

/// How a memory stands to the current files.
#[derive(Clone, Copy, Debug, PartialEq, Eq, Structural)]
pub enum MemoryFreshness {
    /// It is advice and claims nothing of files.
    Advisory,
    /// All file digests that it recorded are those of the current candidate.
    Current,
    /// A file digest that it recorded is not that of the current candidate.
    Stale,
    /// It records no file digest that could be held against the candidate.
    Unverified,
}

/// A memory found for a query, held against the current candidate.
pub struct RecalledMemory {
    /// The memory with its provenance, as it is handed to a model.
    pub memory: Json,
    /// Whether it may be handed to a model.
    pub eligible: bool,
    pub freshness: MemoryFreshness,
}

/// A [`RecalledMemory`] by its value.
pub struct MemoryView {
    pub memory: JsonView,
    pub eligible: bool,
    pub freshness: MemoryFreshness,
}

impl DeepView for RecalledMemory {
    type V = MemoryView;

    open spec fn deep_view(&self) -> MemoryView {
        MemoryView {
            memory: self.memory.deep_view(),
            eligible: self.eligible,
            freshness: self.freshness,
        }
    }
}

/// Whether memory may be recalled, and how many memories are looked at: more than are
/// returned, so that stale ones do not crowd out current ones.
pub open spec fn recall_prepared(
    policy: PermissionView,
    request: RecallView,
    available: bool,
) -> Result<nat, ToolFault> {
    if text::trim_spec(request.query).len() == 0 {
        Err(ToolFault::InvalidRange("memory query cannot be empty"@))
    } else if request.max_results == 0 || request.max_results > MAX_MEMORY_RESULTS {
        Err(
            ToolFault::InvalidRange(
                "max_results must be between 1 and "@ + text::decimal(MAX_MEMORY_RESULTS as nat),
            ),
        )
    } else {
        match registry::authorized(policy, Capability::MemoryRead, "."@, "recall_memory"@) {
            Err(e) => Err(e),
            Ok(()) => if !available {
                Err(ToolFault::MemoryUnavailable)
            } else if request.max_results * 4 > 48 {
                Ok(48)
            } else {
                Ok((request.max_results * 4) as nat)
            },
        }
    }
}

/// The memories handed to a model among the first `count`.
pub open spec fn eligible_memories(items: Seq<MemoryView>, max: nat, count: int) -> Seq<JsonView>
    decreases count,
{
    if count <= 0 {
        Seq::empty()
    } else {
        let before = eligible_memories(items, max, count - 1);
        if items[count - 1].eligible && before.len() < max {
            before.push(items[count - 1].memory)
        } else {
            before
        }
    }
}

/// The number of withheld memories of one freshness among the first `count`.
pub open spec fn withheld(items: Seq<MemoryView>, freshness: MemoryFreshness, count: int) -> nat
    decreases count,
{
    if count <= 0 {
        0
    } else {
        withheld(items, freshness, count - 1) + (if !items[count - 1].eligible && items[count
            - 1].freshness == freshness {
            1nat
        } else {
            0
        })
    }
}

/// What a recall returns.
pub open spec fn recall_output(request: RecallView, items: Seq<MemoryView>) -> OutputView {
    let n = items.len() as int;
    let eligible = eligible_memories(items, request.max_results as nat, n);
    let stale = withheld(items, MemoryFreshness::Stale, n);
    let unverified = withheld(items, MemoryFreshness::Unverified, n);
    reading::succeeded(
        json::obj3(
            "memories"@,
            JsonView::Array(eligible),
            "excluded"@,
            json::obj2("stale"@, json::num(stale), "unverified"@, json::num(unverified)),
            "policy"@,
            JsonView::Text(
                "stale and unverified receipt memories are withheld; current files remain authoritative"@,
            ),
        ),
        "recalled "@ + text::decimal(eligible.len()) + " current/advisory workspace memories for "@
            + text::debug_view(request.query) + "; withheld "@ + text::decimal(stale)
            + " stale and "@ + text::decimal(unverified) + " unverified"@,
        seq!["memory.read:workspace"@],
    )
}

/// Retrieves bounded, provenance-labelled workspace memory.
pub struct RecallMemoryTool;

/// What `recall_memory` presents to a model.
pub open spec fn recall_memory_descriptor() -> DescriptorView {
    descriptor::descriptor_spec(
        "recall_memory"@,
        "Recall relevant workspace memory with explicit trust and freshness. Human memories are advisory; receipt-derived history is returned only while all recorded file digests match the current isolated candidate."@,
        recall_schema(),
        Capability::MemoryRead,
    )
}

impl RecallMemoryTool {
    /// What the tool presents to a model.
    pub fn descriptor(&self) -> (r: ToolDescriptor)
        ensures
            r.deep_view() == recall_memory_descriptor(),
    {
        let mut properties = JsonMap::new();
        properties.insert(
            "query",
            schema::described_json(
                schema::typed_json("string"),
                "Topic, file, component, convention, or prior decision to recall.",
            ),
        );
        properties.insert(
            "max_results",
            schema::defaulted_json(
                schema::described_json(schema::count_json(), "Maximum memories to return."),
                Json::number(6),
            ),
        );
        let required = schema::and_name(schema::no_names(), "query");
        descriptor::descriptor(
            "recall_memory",
            "Recall relevant workspace memory with explicit trust and freshness. Human memories are advisory; receipt-derived history is returned only while all recorded file digests match the current isolated candidate.",
            schema::document_json(
                schema::closed_object_json(properties, &required),
                "RecallMemoryInput",
            ),
            Capability::MemoryRead,
        )
    }

    /// Checks the request, requires the authority to read memory, and says how many
    /// memories are to be looked at. `available` says whether the run has a memory.
    pub fn prepare(
        &self,
        context: &ToolContext,
        request: &RecallMemoryInput,
        available: bool,
    ) -> (r: Result<usize, ToolError>)
        ensures
            match r {
                Ok(n) => recall_prepared(
                    context.deep_view().policy,
                    request.deep_view(),
                    available,
                ) == Ok::<_, ToolFault>(n as nat),
                Err(e) => recall_prepared(
                    context.deep_view().policy,
                    request.deep_view(),
                    available,
                ) == Err::<nat, _>(e.deep_view()),
            },
    {
        let query = text::trim(request.query.as_str());
        proof {
            text::lemma_utf8_len_zero(query@);
        }
        if text::byte_len(query.as_str()) == 0 {
            return Err(ToolError::InvalidRange("memory query cannot be empty".to_owned()));
        }
        if request.max_results == 0 || request.max_results > MAX_MEMORY_RESULTS {
            return Err(
                ToolError::InvalidRange(
                    text::concat2(
                        "max_results must be between 1 and ",
                        text::decimal_of(MAX_MEMORY_RESULTS).as_str(),
                    ),
                ),
            );
        }
        match context.authorize(Capability::MemoryRead, ".", "recall_memory") {
            Err(e) => Err(e),
            Ok(()) => if !available {
                Err(ToolError::MemoryUnavailable)
            } else if request.max_results * 4 > 48 {
                Ok(48)
            } else {
                Ok(request.max_results * 4)
            },
        }
    }

    /// What the recall returns of the memories that were looked at.
    pub fn execute(&self, request: &RecallMemoryInput, items: &Vec<RecalledMemory>) -> (r:
        ToolOutput)
        ensures
            r.deep_view() == recall_output(request.deep_view(), items.deep_view()),
    {
        let ghost views = items.deep_view();
        let mut eligible: Vec<Json> = Vec::new();
        let mut stale: usize = 0;
        let mut unverified: usize = 0;
        let mut i: usize = 0;
        assert(eligible.deep_view() =~= Seq::<JsonView>::empty());
        while i < items.len()
            invariant
                i <= items@.len(),
                views == items.deep_view(),
                eligible.deep_view() == eligible_memories(
                    views,
                    request.max_results as nat,
                    i as int,
                ),
                stale == withheld(views, MemoryFreshness::Stale, i as int),
                unverified == withheld(views, MemoryFreshness::Unverified, i as int),
                stale <= i,
                unverified <= i,
            decreases items@.len() - i,
        {
            let item = &items[i];
            assert(views[i as int] == item.deep_view());
            assert(eligible.deep_view().len() == eligible@.len());
            if item.eligible {
                if eligible.len() < request.max_results {
                    let ghost before = eligible.deep_view();
                    eligible.push(item.memory.clone());
                    assert(eligible.deep_view() =~= before.push(item.memory.deep_view()));
                }
            } else {
                match item.freshness {
                    MemoryFreshness::Stale => {
                        stale += 1;
                    },
                    MemoryFreshness::Unverified => {
                        unverified += 1;
                    },
                    MemoryFreshness::Advisory | MemoryFreshness::Current => {},
                }
            }
            i += 1;
        }
        assert(eligible.deep_view().len() == eligible@.len());
        let recalled = text::concat4(
            "recalled ",
            text::decimal_of(eligible.len()).as_str(),
            " current/advisory workspace memories for ",
            text::debug_text(request.query.as_str()).as_str(),
        );
        let counted = text::concat5(
            recalled.as_str(),
            "; withheld ",
            text::decimal_of(stale).as_str(),
            " stale and ",
            text::decimal_of(unverified).as_str(),
        );
        success(
            Json::object3(
                "memories",
                Json::array(eligible),
                "excluded",
                Json::object2(
                    "stale",
                    Json::count(stale),
                    "unverified",
                    Json::count(unverified),
                ),
                "policy",
                Json::text(
                    "stale and unverified receipt memories are withheld; current files remain authoritative",
                ),
            ),
            text::concat2(counted.as_str(), " unverified"),
            single("memory.read:workspace"),
        )
    }
}

/// A recall hands out only memories that may be handed out, and at most as many as asked
/// for.
pub proof fn law_withheld_memories_stay_withheld(items: Seq<MemoryView>, max: nat, count: int)
    requires
        0 <= count <= items.len(),
    ensures
        eligible_memories(items, max, count).len() <= max,
        forall|k: int|
            0 <= k < eligible_memories(items, max, count).len() ==> exists|i: int|
                0 <= i < count && (#[trigger] items[i]).eligible && items[i].memory
                    == #[trigger] eligible_memories(items, max, count)[k],
    decreases count,
{
    if count > 0 {
        law_withheld_memories_stay_withheld(items, max, count - 1);
        let before = eligible_memories(items, max, count - 1);
        let now = eligible_memories(items, max, count);
        assert forall|k: int| 0 <= k < now.len() implies exists|i: int|
            0 <= i < count && (#[trigger] items[i]).eligible && items[i].memory
                == #[trigger] now[k] by {
            if k < before.len() {
                assert(now[k] == before[k]);
                let i = choose|i: int|
                    0 <= i < count - 1 && (#[trigger] items[i]).eligible && items[i].memory
                        == before[k];
                assert(items[i].eligible);
            } else {
                assert(items[count - 1].eligible);
            }
        }
    }
}

} // verus!
