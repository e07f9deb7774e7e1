//! The tools that read, list and search the workspace.

use crate::json;
use crate::json::{Json, JsonMap, JsonView};
use crate::outcome;
use crate::text;
use crate::tools::descriptor;
use crate::tools::descriptor::{Capability, DescriptorView, OutputView, ToolDescriptor, ToolOutput};
use crate::tools::error::{ToolError, ToolFault};
use crate::tools::registry;
use crate::tools::registry::ToolContext;
use crate::tools::schema;
use vstd::prelude::*;
use vstd::utf8::*;

verus! {

/// Largest file that `read_file` reads.
pub const MAX_READ_BYTES: u64 = 1048576;

/// Number of lines that a read returns where no range is given.
pub const DEFAULT_READ_LINES: usize = 300;

/// Largest number of lines of one read.
pub const MAX_READ_LINES: usize = 1000;

/// Largest file that is searched.
pub const MAX_SEARCH_FILE_BYTES: u64 = 2097152;

/// Successful output that holds everything asked for.
pub open spec fn succeeded(
    content: JsonView,
    summary: Seq<char>,
    effects: Seq<Seq<char>>,
) -> OutputView {
    OutputView { content, summary, observed_effects: effects, succeeded: true, truncated: false }
}

/// Successful output that holds everything asked for.
pub fn success(content: Json, summary: String, effects: Vec<String>) -> (r: ToolOutput)
    ensures
        r.deep_view() == succeeded(content.deep_view(), summary@, effects.deep_view()),
{
    ToolOutput {
        content,
        summary,
        observed_effects: effects,
        succeeded: true,
        truncated: false,
    }
}

/// A list of one text, made of two pieces.
pub fn one_effect(kind: &str, resource: &str) -> (r: Vec<String>)
    ensures
        r.deep_view() == seq![kind@ + resource@],
{
    let mut out: Vec<String> = Vec::new();
    out.push(text::concat2(kind, resource));
    assert(out.deep_view() =~= seq![kind@ + resource@]);
    out
}

/// The refusal of a file that is too large.
pub open spec fn too_large(limit: u64) -> ToolFault {
    ToolFault::InvalidRange(
        "file exceeds the "@ + text::decimal(limit as nat) + "-byte read limit"@,
    )
}

/// Refuses what was read of a file with more than `limit` bytes; of such a file at least
/// one byte more than that is read.
pub fn check_read(bytes: &Vec<u8>, limit: u64) -> (r: Result<(), ToolError>)
    ensures
        outcome::of(r) == (if bytes@.len() > limit {
            Err(too_large(limit))
        } else {
            Ok(())
        }),
{
    if bytes.len() as u64 > limit {
        return Err(
            ToolError::InvalidRange(
                text::concat3(
                    "file exceeds the ",
                    text::decimal_text(limit).as_str(),
                    "-byte read limit",
                ),
            ),
        );
    }
    Ok(())
}

/// The text of a file of at most `limit` bytes.
pub open spec fn file_text(path: Seq<char>, bytes: Seq<u8>, limit: u64) -> Result<
    Seq<char>,
    ToolFault,
> {
    if bytes.len() > limit {
        Err(too_large(limit))
    } else if !valid_utf8(bytes) {
        Err(ToolFault::NonUtf8(path))
    } else {
        Ok(decode_utf8(bytes))
    }
}

/// The text of a file of at most `limit` bytes.
pub fn bounded_text(path: &str, bytes: &Vec<u8>, limit: u64) -> (r: Result<String, ToolError>)
    ensures
        outcome::of(r) == file_text(path@, bytes@, limit),
        r matches Ok(t) ==> text::utf8_len(t@) <= limit && t@.len() <= limit,
{
    match check_read(bytes, limit) {
        Err(e) => Err(e),
        Ok(()) => match text::utf8_text(bytes.as_slice()) {
            None => Err(ToolError::NonUtf8(path.to_owned())),
            Some(t) => {
                proof {
                    decode_utf8_encode_utf8(bytes@);
                    text::lemma_utf8_len_zero(t@);
                }
                Ok(t)
            },
        },
    }
}

/// What `read_file` is asked for.
pub struct ReadFileInput {
    /// Workspace-relative file path, such as `src/lib.rs`. Absolute paths are forbidden.
    pub path: String,
    /// Optional one-based first line to return.
    pub start_line: Option<usize>,
    /// Optional inclusive one-based last line to return.
    pub end_line: Option<usize>,
}

/// A [`ReadFileInput`] by its text.
pub struct ReadFileView {
    pub path: Seq<char>,
    pub start_line: Option<usize>,
    pub end_line: Option<usize>,
}

impl DeepView for ReadFileInput {
    type V = ReadFileView;

    open spec fn deep_view(&self) -> ReadFileView {
        ReadFileView {
            path: self.path@,
            start_line: self.start_line,
            end_line: self.end_line,
        }
    }
}

/// The schema of [`ReadFileInput`].
pub open spec fn read_file_schema() -> JsonView {
    schema::document(
        schema::closed_object(
            Map::<Seq<char>, JsonView>::empty().insert(
                "path"@,
                schema::described(
                    schema::typed("string"@),
                    "Workspace-relative file path, such as `src/lib.rs`. Absolute paths are forbidden."@,
                ),
            ).insert(
                "start_line"@,
                schema::described(
                    schema::optional_count_spec(),
                    "Optional one-based first line to return."@,
                ),
            ).insert(
                "end_line"@,
                schema::described(
                    schema::optional_count_spec(),
                    "Optional inclusive one-based last line to return."@,
                ),
            ),
            Seq::<Seq<char>>::empty().push("path"@),
        ),
        "ReadFileInput"@,
    )
}

/// The first and the last line that a read asks for.
pub open spec fn asked_lines(request: ReadFileView) -> (usize, usize) {
    let start = match request.start_line {
        Some(n) => n,
        None => 1,
    };
    let end = match request.end_line {
        Some(n) => n,
        None => if start + (DEFAULT_READ_LINES - 1) > usize::MAX {
            usize::MAX
        } else {
            (start + (DEFAULT_READ_LINES - 1)) as usize
        },
    };
    (start, end)
}

/// The refusal of a range of lines, if it is refused. A range counts at most as many
/// lines as a `usize` holds.
pub open spec fn lines_fault(start: usize, end: usize) -> Option<ToolFault> {
    let count = if end - start == usize::MAX {
        usize::MAX as int
    } else {
        end - start + 1
    };
    if start == 0 || end < start {
        Some(
            ToolFault::InvalidRange(
                "line range must be 1-based and ordered, got "@ + text::decimal(start as nat)
                    + "..="@ + text::decimal(end as nat),
            ),
        )
    } else if count > MAX_READ_LINES {
        Some(
            ToolFault::InvalidRange(
                "a read may return at most "@ + text::decimal(MAX_READ_LINES as nat)
                    + " lines; requested "@ + text::decimal(count as nat),
            ),
        )
    } else {
        None
    }
}

/// The lines `start` to `end` of a text, as far as it has them.
pub open spec fn selected_lines(lines: Seq<Seq<char>>, start: nat, end: nat) -> Seq<Seq<char>> {
    if start > lines.len() {
        Seq::empty()
    } else if end > lines.len() {
        lines.subrange(start - 1, lines.len() as int)
    } else {
        lines.subrange(start - 1, end as int)
    }
}

/// What a read of a file returns.
pub open spec fn read_output(request: ReadFileView, content: Seq<char>) -> Result<
    OutputView,
    ToolFault,
> {
    let lines = text::lines_spec(content);
    let (start, end) = asked_lines(request);
    match lines_fault(start, end) {
        Some(fault) => Err(fault),
        None => {
            let selected = selected_lines(lines, start as nat, end as nat);
            let returned_end = if end <= lines.len() {
                end as nat
            } else {
                lines.len()
            };
            let truncated = returned_end < lines.len();
            let base = json::obj4(
                "path"@,
                JsonView::Text(request.path),
                "start_line"@,
                json::num(start as nat),
                "end_line"@,
                json::num(returned_end),
                "total_lines"@,
                json::num(lines.len()),
            );
            let next = if truncated {
                json::num(returned_end + 1)
            } else {
                JsonView::Null
            };
            Ok(
                OutputView {
                    content: json::with_member(
                        json::with_member(base, "next_start_line"@, next),
                        "content"@,
                        JsonView::Text(text::join_spec(selected, "\n"@)),
                    ),
                    summary: "read "@ + text::decimal(selected.len()) + " lines from "@
                        + request.path,
                    observed_effects: seq!["fs.read:"@ + request.path],
                    succeeded: true,
                    truncated,
                },
            )
        },
    }
}

/// Reads bounded UTF-8 content from the isolated workspace.
pub struct ReadFileTool;

/// What `read_file` presents to a model.
pub open spec fn read_file_descriptor() -> DescriptorView {
    descriptor::descriptor_spec(
        "read_file"@,
        "Read a UTF-8 file or inclusive line range from the isolated workspace."@,
        read_file_schema(),
        Capability::FileRead,
    )
}

impl ReadFileTool {
    /// What the tool presents to a model.
    pub fn descriptor(&self) -> (r: ToolDescriptor)
        ensures
            r.deep_view() == read_file_descriptor(),
    {
        let mut properties = JsonMap::new();
        properties.insert(
            "path",
            schema::described_json(
                schema::typed_json("string"),
                "Workspace-relative file path, such as `src/lib.rs`. Absolute paths are forbidden.",
            ),
        );
        properties.insert(
            "start_line",
            schema::described_json(
                schema::optional_count_json(),
                "Optional one-based first line to return.",
            ),
        );
        properties.insert(
            "end_line",
            schema::described_json(
                schema::optional_count_json(),
                "Optional inclusive one-based last line to return.",
            ),
        );
        let required = schema::and_name(schema::no_names(), "path");
        descriptor::descriptor(
            "read_file",
            "Read a UTF-8 file or inclusive line range from the isolated workspace.",
            schema::document_json(
                schema::closed_object_json(properties, &required),
                "ReadFileInput",
            ),
            Capability::FileRead,
        )
    }

    /// Requires the authority to read the file.
    pub fn prepare(&self, context: &ToolContext, request: &ReadFileInput) -> (r: Result<
        (),
        ToolError,
    >)
        ensures
            outcome::of(r) == registry::authorized(
                context.deep_view().policy,
                Capability::FileRead,
                request.path@,
                "read_file"@,
            ),
    {
        context.authorize(Capability::FileRead, request.path.as_str(), "read_file")
    }

    /// What the read returns of the file at `path`, of which `bytes` were read.
    pub fn execute(&self, request: &ReadFileInput, path: &str, bytes: &Vec<u8>) -> (r: Result<
        ToolOutput,
        ToolError,
    >)
        ensures
            outcome::of(r) == (match file_text(path@, bytes@, MAX_READ_BYTES) {
                Ok(content) => read_output(request.deep_view(), content),
                Err(e) => Err(e),
            }),
    {
        let content = match bounded_text(path, bytes, MAX_READ_BYTES) {
            Ok(t) => t,
            Err(e) => {
                return Err(e);
            },
        };
        let lines = text::lines(content.as_str());
        let ghost views = text::lines_spec(content@);
        let total_lines: usize = lines.len();
        proof {
            assert(text::views(lines@).len() == lines@.len());
            text::lemma_lines_bounded(content@);
        }
        let start: usize = match request.start_line {
            Some(n) => n,
            None => 1,
        };
        let end: usize = match request.end_line {
            Some(n) => n,
            None => start.saturating_add(DEFAULT_READ_LINES - 1),
        };
        assert((start, end) == asked_lines(request.deep_view()));
        if start == 0 || end < start {
            return Err(
                ToolError::InvalidRange(
                    text::concat4(
                        "line range must be 1-based and ordered, got ",
                        text::decimal_of(start).as_str(),
                        "..=",
                        text::decimal_of(end).as_str(),
                    ),
                ),
            );
        }
        let requested: usize = (end - start).saturating_add(1);
        if requested > MAX_READ_LINES {
            return Err(
                ToolError::InvalidRange(
                    text::concat4(
                        "a read may return at most ",
                        text::decimal_of(MAX_READ_LINES).as_str(),
                        " lines; requested ",
                        text::decimal_of(requested).as_str(),
                    ),
                ),
            );
        }
        let returned_end: usize = if end <= total_lines {
            end
        } else {
            total_lines
        };
        let mut selected: Vec<String> = Vec::new();
        let mut i: usize = start - 1;
        let ghost from = start - 1;
        assert(text::views(selected@) =~= Seq::<Seq<char>>::empty());
        while i < returned_end
            invariant
                from <= i,
                from == start - 1,
                start >= 1,
                returned_end <= lines@.len(),
                i <= returned_end || i == from,
                views == text::views(lines@),
                start <= lines@.len() ==> text::views(selected@) == views.subrange(from, i as int),
                start > lines@.len() ==> selected@.len() == 0,
            decreases returned_end - i,
        {
            let ghost before = selected@;
            selected.push(lines[i].clone());
            i += 1;
            assert(views[i - 1] == lines@[i - 1]@);
            assert(text::views(selected@) =~= text::views(before).push(views[i - 1]));
            assert(views.subrange(from, i as int) =~= views.subrange(from, i - 1).push(
                views[i - 1],
            ));
        }
        assert(text::views(selected@) =~= selected_lines(views, start as nat, end as nat));
        let truncated = returned_end < total_lines;
        let next = if truncated {
            Json::count(returned_end + 1)
        } else {
            Json::null()
        };
        let mut output = Json::object4(
            "path",
            Json::text(request.path.as_str()),
            "start_line",
            Json::count(start),
            "end_line",
            Json::count(returned_end),
            "total_lines",
            Json::count(total_lines),
        );
        output.set_member("next_start_line", next);
        output.set_member("content", Json::string(text::join(&selected, "\n")));
        Ok(
            ToolOutput {
                content: output,
                summary: text::concat4(
                    "read ",
                    text::decimal_of(selected.len()).as_str(),
                    " lines from ",
                    request.path.as_str(),
                ),
                observed_effects: one_effect("fs.read:", request.path.as_str()),
                succeeded: true,
                truncated,
            },
        )
    }
}

/// Reads on from where a read stopped go through the file: a read without a range that
/// is marked as truncated returned exactly the default number of lines, and names the
/// next line.
pub proof fn law_reads_can_be_continued(request: ReadFileView, content: Seq<char>)
    requires
        request.end_line is None,
        text::utf8_len(content) <= MAX_READ_BYTES,
    ensures
        read_output(request, content) matches Ok(output) ==> output.truncated ==> {
            let (start, end) = asked_lines(request);
            &&& selected_lines(text::lines_spec(content), start as nat, end as nat).len()
                == DEFAULT_READ_LINES
            &&& json::u64_member(output.content, "next_start_line"@) == Some((end + 1) as u64)
        },
{
    reveal_strlit("next_start_line");
    reveal_strlit("content");
    assert("content"@.len() != "next_start_line"@.len());
    text::lemma_utf8_len_zero(content);
    text::lemma_lines_bounded(content);
}

/// What one read and the next return are the lines from the first one's start to the
/// second one's end.
pub proof fn law_consecutive_reads_join(lines: Seq<Seq<char>>, start: nat, middle: nat, end: nat)
    requires
        1 <= start <= middle < end,
    ensures
        selected_lines(lines, start, middle) + selected_lines(lines, middle + 1, end)
            == selected_lines(lines, start, end),
{
    assert(selected_lines(lines, start, middle) + selected_lines(lines, middle + 1, end)
        =~= selected_lines(lines, start, end));
}

} // verus!
