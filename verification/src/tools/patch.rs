//! Strict unified diffs for one file: parsing without leniency, and applying
//! without fuzz.

use crate::outcome;
use crate::text;
use crate::text::{concat2, concat3, concat4, concat5, debug_text, decimal_of};
use crate::tools::error::{ToolError, ToolFault};
use vstd::prelude::*;

verus! {

/// Largest patch, in bytes.
pub const MAX_PATCH_BYTES: usize = 524288;

/// Largest number of hunks in one patch.
pub const MAX_PATCH_HUNKS: usize = 128;

/// Largest number of lines in one patch.
pub const MAX_PATCH_LINES: usize = 20000;

/// Largest file, in bytes, that a patch reads or leaves behind.
pub const MAX_PATCH_FILE_BYTES: u64 = 8388608;

/// What a patch does to its file.
#[derive(Clone, Copy, Debug, PartialEq, Eq, Structural)]
pub enum PatchOperation {
    Add,
    Update,
    Delete,
}

impl DeepView for PatchOperation {
    type V = PatchOperation;

    open spec fn deep_view(&self) -> PatchOperation {
        *self
    }
}

impl PatchOperation {
    /// The operation's name.
    pub open spec fn label_spec(self) -> Seq<char> {
        match self {
            PatchOperation::Add => "add"@,
            PatchOperation::Update => "update"@,
            PatchOperation::Delete => "delete"@,
        }
    }

    /// The operation's name.
    pub fn label(self) -> (r: &'static str)
        ensures
            r@ == self.label_spec(),
    {
        match self {
            PatchOperation::Add => "add",
            PatchOperation::Update => "update",
            PatchOperation::Delete => "delete",
        }
    }
}

/// One line of a hunk: text that both sides have, that only the old side has, or
/// that only the new side has.
#[derive(Debug)]
pub enum HunkLine {
    Context(String),
    Remove(String),
    Add(String),
}

/// A [`HunkLine`] by its text.
pub enum HunkLineView {
    Context(Seq<char>),
    Remove(Seq<char>),
    Add(Seq<char>),
}

impl DeepView for HunkLine {
    type V = HunkLineView;

    open spec fn deep_view(&self) -> HunkLineView {
        match self {
            HunkLine::Context(t) => HunkLineView::Context(t@),
            HunkLine::Remove(t) => HunkLineView::Remove(t@),
            HunkLine::Add(t) => HunkLineView::Add(t@),
        }
    }
}

/// A run of lines that a patch replaces.
#[derive(Debug)]
pub struct PatchHunk {
    pub old_start: usize,
    pub old_count: usize,
    pub new_start: usize,
    pub new_count: usize,
    pub lines: Vec<HunkLine>,
    pub new_no_newline: bool,
}

/// A [`PatchHunk`] by its ranges and its lines' texts.
pub struct HunkView {
    pub old_start: nat,
    pub old_count: nat,
    pub new_start: nat,
    pub new_count: nat,
    pub lines: Seq<HunkLineView>,
    pub new_no_newline: bool,
}

impl DeepView for PatchHunk {
    type V = HunkView;

    open spec fn deep_view(&self) -> HunkView {
        HunkView {
            old_start: self.old_start as nat,
            old_count: self.old_count as nat,
            new_start: self.new_start as nat,
            new_count: self.new_count as nat,
            lines: self.lines.deep_view(),
            new_no_newline: self.new_no_newline,
        }
    }
}

/// A unified diff of one file.
#[derive(Debug)]
pub struct UnifiedPatch {
    pub path: String,
    pub operation: PatchOperation,
    pub hunks: Vec<PatchHunk>,
}

/// A [`UnifiedPatch`] by its path and its hunks.
pub struct PatchView {
    pub path: Seq<char>,
    pub operation: PatchOperation,
    pub hunks: Seq<HunkView>,
}

impl DeepView for UnifiedPatch {
    type V = PatchView;

    open spec fn deep_view(&self) -> PatchView {
        PatchView {
            path: self.path@,
            operation: self.operation,
            hunks: self.hunks.deep_view(),
        }
    }
}

/// The old side of a hunk: its context and removed lines.
pub open spec fn old_side(lines: Seq<HunkLineView>) -> Seq<Seq<char>>
    decreases lines.len(),
{
    if lines.len() == 0 {
        Seq::empty()
    } else {
        match lines.last() {
            HunkLineView::Context(t) => old_side(lines.drop_last()).push(t),
            HunkLineView::Remove(t) => old_side(lines.drop_last()).push(t),
            HunkLineView::Add(_) => old_side(lines.drop_last()),
        }
    }
}

/// The new side of a hunk: its context and added lines.
pub open spec fn new_side(lines: Seq<HunkLineView>) -> Seq<Seq<char>>
    decreases lines.len(),
{
    if lines.len() == 0 {
        Seq::empty()
    } else {
        match lines.last() {
            HunkLineView::Context(t) => new_side(lines.drop_last()).push(t),
            HunkLineView::Add(t) => new_side(lines.drop_last()).push(t),
            HunkLineView::Remove(_) => new_side(lines.drop_last()),
        }
    }
}

/// Number of lines that a hunk adds.
pub open spec fn added(lines: Seq<HunkLineView>) -> nat
    decreases lines.len(),
{
    if lines.len() == 0 {
        0
    } else {
        added(lines.drop_last()) + (if lines.last() is Add {
            1nat
        } else {
            0
        })
    }
}

/// Number of lines that a hunk removes.
pub open spec fn removed(lines: Seq<HunkLineView>) -> nat
    decreases lines.len(),
{
    if lines.len() == 0 {
        0
    } else {
        removed(lines.drop_last()) + (if lines.last() is Remove {
            1nat
        } else {
            0
        })
    }
}

/// `line` without a carriage return at its end.
pub open spec fn without_cr(line: Seq<char>) -> Seq<char> {
    if line.len() > 0 && line.last() == '\r' {
        line.drop_last()
    } else {
        line
    }
}

/// The lines of a patch.
pub open spec fn patch_lines(input: Seq<char>) -> Seq<Seq<char>> {
    text::split_char(input, '\n').map_values(|l: Seq<char>| without_cr(l))
}

/// The path that a file header names: `None` for `/dev/null`.
pub open spec fn header_path_spec(line: Seq<char>, prefix: Seq<char>) -> Result<
    Option<Seq<char>>,
    ToolFault,
> {
    if !text::starts_with_spec(line, prefix) {
        Err(
            ToolFault::InvalidPatch(
                "expected "@ + text::debug_view(prefix) + " file header, got "@ + text::debug_view(line),
            ),
        )
    } else {
        let value = line.skip(prefix.len() as int);
        if value.len() == 0 || value.contains('\t') {
            Err(
                ToolFault::InvalidPatch(
                    "file headers require one exact path without timestamps"@,
                ),
            )
        } else if value == "/dev/null"@ {
            Ok(None)
        } else if text::starts_with_spec(value, "a/"@) {
            Ok(Some(value.skip("a/"@.len() as int)))
        } else if text::starts_with_spec(value, "b/"@) {
            Ok(Some(value.skip("b/"@.len() as int)))
        } else {
            Ok(Some(value))
        }
    }
}

/// The path and the operation that the two file headers stand for.
pub open spec fn identity_spec(old: Option<Seq<char>>, new: Option<Seq<char>>) -> Result<
    (Seq<char>, PatchOperation),
    ToolFault,
> {
    match (old, new) {
        (None, Some(path)) => Ok((path, PatchOperation::Add)),
        (Some(path), None) => Ok((path, PatchOperation::Delete)),
        (Some(a), Some(b)) => if a == b {
            Ok((a, PatchOperation::Update))
        } else {
            Err(
                ToolFault::InvalidPatch(
                    "rename patches are unsupported: old path "@ + text::debug_view(a)
                        + " differs from new path "@ + text::debug_view(b),
                ),
            )
        },
        (None, None) => Err(ToolFault::InvalidPatch("both file headers cannot be /dev/null"@)),
    }
}

/// `line` without a carriage return at its end.
fn strip_cr(line: &str) -> (r: String)
    ensures
        r@ == without_cr(line@),
{
    let chars = text::chars_of(line);
    let to: usize = if chars.len() > 0 && chars[chars.len() - 1] == '\r' {
        chars.len() - 1
    } else {
        chars.len()
    };
    let out = text::text_of(&chars, 0, to);
    assert(out@ =~= without_cr(line@));
    out
}

/// Reads the path of a file header.
pub fn parse_header_path(line: &str, prefix: &str) -> (r: Result<Option<String>, ToolError>)
    ensures
        outcome::of(r) == header_path_spec(line@, prefix@),
{
    let value = match text::strip_prefix(line, prefix) {
        Some(v) => v,
        None => {
            let mut message = concat2("expected ", debug_text(prefix).as_str());
            message.push_str(" file header, got ");
            message.push_str(debug_text(line).as_str());
            return Err(ToolError::InvalidPatch(message));
        },
    };
    if value.as_str().is_empty() || text::contains_char(value.as_str(), '\t') {
        return Err(
            ToolError::InvalidPatch(
                "file headers require one exact path without timestamps".to_owned(),
            ),
        );
    }
    if text::same(value.as_str(), "/dev/null") {
        return Ok(None);
    }
    if let Some(path) = text::strip_prefix(value.as_str(), "a/") {
        return Ok(Some(path));
    }
    if let Some(path) = text::strip_prefix(value.as_str(), "b/") {
        return Ok(Some(path));
    }
    Ok(Some(value))
}

/// Reads the path and the operation off the two file headers' paths.
pub fn patch_identity(old_path: Option<String>, new_path: Option<String>) -> (r: Result<
    (String, PatchOperation),
    ToolError,
>)
    ensures
        outcome::of(r) == identity_spec(old_path.deep_view(), new_path.deep_view()),
{
    match (old_path, new_path) {
        (None, Some(path)) => Ok((path, PatchOperation::Add)),
        (Some(path), None) => Ok((path, PatchOperation::Delete)),
        (Some(a), Some(b)) => {
            if text::same(a.as_str(), b.as_str()) {
                Ok((a, PatchOperation::Update))
            } else {
                let mut message = concat2(
                    "rename patches are unsupported: old path ",
                    debug_text(a.as_str()).as_str(),
                );
                message.push_str(" differs from new path ");
                message.push_str(debug_text(b.as_str()).as_str());
                Err(ToolError::InvalidPatch(message))
            }
        },
        (None, None) => Err(
            ToolError::InvalidPatch("both file headers cannot be /dev/null".to_owned()),
        ),
    }
}


/// A fault of the hunk with the given ordinal.
pub open spec fn hunk_fault(hunk: nat, rest: Seq<char>) -> ToolFault {
    ToolFault::InvalidPatch("hunk "@ + text::decimal(hunk) + rest)
}

fn hunk_error(hunk: usize, rest: &str) -> (r: ToolError)
    ensures
        r.deep_view() == hunk_fault(hunk as nat, rest@),
{
    ToolError::InvalidPatch(concat3("hunk ", decimal_of(hunk).as_str(), rest))
}

/// The start and the count that a range such as `-3,2` names. A range without a
/// count has the count one.
pub open spec fn range_spec(value: Seq<char>, prefix: char, hunk: nat) -> Result<
    (usize, usize),
    ToolFault,
> {
    if value.len() == 0 || value[0] != prefix {
        Err(
            hunk_fault(
                hunk,
                " range "@ + text::debug_view(value) + " must start with "@ + seq![prefix],
            ),
        )
    } else {
        let body = value.drop_first();
        let (start_text, count_text) = match text::split_once_spec(body, ","@) {
            Some(p) => p,
            None => (body, "1"@),
        };
        match text::parse_number(start_text, usize::MAX as nat) {
            None => Err(hunk_fault(hunk, " has invalid range start "@ + text::debug_view(start_text))),
            Some(start) => match text::parse_number(count_text, usize::MAX as nat) {
                None => Err(
                    hunk_fault(hunk, " has invalid range count "@ + text::debug_view(count_text)),
                ),
                Some(count) => if count > 0 && start == 0 {
                    Err(hunk_fault(hunk, " uses line zero for a non-empty range"@))
                } else {
                    Ok((start as usize, count as usize))
                },
            },
        }
    }
}

/// Reads one range of a hunk header.
pub fn parse_range(value: &str, prefix: char, hunk_index: usize) -> (r: Result<
    (usize, usize),
    ToolError,
>)
    ensures
        outcome::of(r) == range_spec(value@, prefix, hunk_index as nat),
{
    let chars = text::chars_of(value);
    if chars.len() == 0 || chars[0] != prefix {
        let mut message = concat3(" range ", debug_text(value).as_str(), " must start with ");
        message.push(prefix);
        assert(message@ =~= " range "@ + text::debug_view(value@) + " must start with "@ + seq![prefix]);
        return Err(hunk_error(hunk_index, message.as_str()));
    }
    let body = text::text_of(&chars, 1, chars.len());
    assert(body@ =~= value@.drop_first());
    let (start_text, count_text) = match text::split_once(body.as_str(), ",") {
        Some(p) => p,
        None => (body, "1".to_owned()),
    };
    let start: usize = match text::parse_usize(start_text.as_str()) {
        Some(n) => n,
        None => {
            let message = concat2(
                " has invalid range start ",
                debug_text(start_text.as_str()).as_str(),
            );
            return Err(hunk_error(hunk_index, message.as_str()));
        },
    };
    let count: usize = match text::parse_usize(count_text.as_str()) {
        Some(n) => n,
        None => {
            let message = concat2(
                " has invalid range count ",
                debug_text(count_text.as_str()).as_str(),
            );
            return Err(hunk_error(hunk_index, message.as_str()));
        },
    };
    if count > 0 && start == 0 {
        return Err(hunk_error(hunk_index, " uses line zero for a non-empty range"));
    }
    Ok((start, count))
}

/// The old and the new range of a hunk header.
pub open spec fn hunk_header_spec(header: Seq<char>, hunk: nat) -> Result<
    (usize, usize, usize, usize),
    ToolFault,
> {
    if !text::starts_with_spec(header, "@@ "@) {
        Err(hunk_fault(hunk, " has an invalid header"@))
    } else {
        match text::split_once_spec(header.skip("@@ "@.len() as int), " @@"@) {
            None => Err(hunk_fault(hunk, " has an invalid header"@)),
            Some((body, _)) => {
                let fields = text::words_spec(body);
                if fields.len() == 0 {
                    Err(hunk_fault(hunk, " is missing the old range"@))
                } else if fields.len() == 1 {
                    Err(hunk_fault(hunk, " is missing the new range"@))
                } else if fields.len() > 2 {
                    Err(hunk_fault(hunk, " has unexpected range fields"@))
                } else {
                    match range_spec(fields[0], '-', hunk) {
                        Err(e) => Err(e),
                        Ok(old) => match range_spec(fields[1], '+', hunk) {
                            Err(e) => Err(e),
                            Ok(new) => Ok((old.0, old.1, new.0, new.1)),
                        },
                    }
                }
            },
        }
    }
}

/// Reads a hunk header.
pub fn parse_hunk_header(header: &str, hunk_index: usize) -> (r: Result<
    (usize, usize, usize, usize),
    ToolError,
>)
    ensures
        outcome::of(r) == hunk_header_spec(header@, hunk_index as nat),
{
    let rest = match text::strip_prefix(header, "@@ ") {
        Some(rest) => rest,
        None => {
            return Err(hunk_error(hunk_index, " has an invalid header"));
        },
    };
    let body = match text::split_once(rest.as_str(), " @@") {
        Some((body, _)) => body,
        None => {
            return Err(hunk_error(hunk_index, " has an invalid header"));
        },
    };
    let fields = text::words(body.as_str());
    assert(fields@.len() == text::words_spec(body@).len());
    if fields.len() == 0 {
        return Err(hunk_error(hunk_index, " is missing the old range"));
    }
    if fields.len() == 1 {
        return Err(hunk_error(hunk_index, " is missing the new range"));
    }
    if fields.len() > 2 {
        return Err(hunk_error(hunk_index, " has unexpected range fields"));
    }
    assert(fields@[0]@ == text::words_spec(body@)[0]);
    assert(fields@[1]@ == text::words_spec(body@)[1]);
    let (old_start, old_count) = parse_range(fields[0].as_str(), '-', hunk_index)?;
    let (new_start, new_count) = parse_range(fields[1].as_str(), '+', hunk_index)?;
    Ok((old_start, old_count, new_start, new_count))
}

/// What has been read of a hunk's body.
pub struct ScanView {
    pub lines: Seq<HunkLineView>,
    pub no_newline: bool,
}

/// Whether the body of a hunk ends before line `cursor`: at the end of the patch,
/// at the next hunk header, or at an empty last line.
pub open spec fn at_hunk_end(lines: Seq<Seq<char>>, cursor: int) -> bool {
    ||| cursor >= lines.len()
    ||| text::starts_with_spec(lines[cursor], "@@ "@)
    ||| lines[cursor].len() == 0 && cursor + 1 == lines.len()
}

/// What one body line adds to what has been read before it.
pub open spec fn scan_line_spec(line: Seq<char>, cursor: nat, hunk: nat, seen: ScanView) -> Result<
    ScanView,
    ToolFault,
> {
    if line == "\\ No newline at end of file"@ {
        if seen.lines.len() == 0 {
            Err(hunk_fault(hunk, " has a newline marker without a preceding line"@))
        } else if seen.lines.last() is Remove {
            Ok(seen)
        } else {
            Ok(ScanView { lines: seen.lines, no_newline: true })
        }
    } else if seen.no_newline {
        Err(hunk_fault(hunk, " contains lines after a new-file no-newline marker"@))
    } else if line.len() > 0 && line[0] == ' ' {
        Ok(
            ScanView {
                lines: seen.lines.push(HunkLineView::Context(line.drop_first())),
                no_newline: false,
            },
        )
    } else if line.len() > 0 && line[0] == '-' {
        Ok(
            ScanView {
                lines: seen.lines.push(HunkLineView::Remove(line.drop_first())),
                no_newline: false,
            },
        )
    } else if line.len() > 0 && line[0] == '+' {
        Ok(
            ScanView {
                lines: seen.lines.push(HunkLineView::Add(line.drop_first())),
                no_newline: false,
            },
        )
    } else {
        Err(
            hunk_fault(
                hunk,
                " line "@ + text::decimal(cursor + 1) + " must start with space, `+`, or `-`"@,
            ),
        )
    }
}

/// The body of a hunk from line `cursor` on, and the line behind it.
pub open spec fn scan_spec(
    lines: Seq<Seq<char>>,
    cursor: int,
    hunk: nat,
    seen: ScanView,
) -> Result<(ScanView, int), ToolFault>
    decreases lines.len() - cursor,
{
    if cursor < 0 || at_hunk_end(lines, cursor) {
        Ok((seen, cursor))
    } else {
        match scan_line_spec(lines[cursor], cursor as nat, hunk, seen) {
            Err(e) => Err(e),
            Ok(next) => scan_spec(lines, cursor + 1, hunk, next),
        }
    }
}

/// A hunk's body ends at or behind where it starts, and within the patch.
pub proof fn lemma_scan_bounds(lines: Seq<Seq<char>>, cursor: int, hunk: nat, seen: ScanView)
    requires
        0 <= cursor <= lines.len(),
    ensures
        scan_spec(lines, cursor, hunk, seen) matches Ok(p) ==> cursor <= p.1 <= lines.len(),
    decreases lines.len() - cursor,
{
    if !at_hunk_end(lines, cursor) {
        if let Ok(next) = scan_line_spec(lines[cursor], cursor as nat, hunk, seen) {
            lemma_scan_bounds(lines, cursor + 1, hunk, next);
        }
    }
}

/// The hunk whose header is given and whose body starts at line `cursor`, and the
/// line behind it.
pub open spec fn hunk_spec(
    header: Seq<char>,
    lines: Seq<Seq<char>>,
    cursor: int,
    hunk: nat,
) -> Result<(HunkView, int), ToolFault> {
    match hunk_header_spec(header, hunk) {
        Err(e) => Err(e),
        Ok((old_start, old_count, new_start, new_count)) => match scan_spec(
            lines,
            cursor,
            hunk,
            ScanView { lines: Seq::empty(), no_newline: false },
        ) {
            Err(e) => Err(e),
            Ok((body, next)) => {
                let olds = old_side(body.lines).len();
                let news = new_side(body.lines).len();
                if olds != old_count || news != new_count {
                    Err(
                        hunk_fault(
                            hunk,
                            " header declares -"@ + text::decimal(old_count as nat) + "/+"@ + text::decimal(
                                new_count as nat,
                            ) + " lines but body contains -"@ + text::decimal(olds) + "/+"@ + text::decimal(
                                news,
                            ),
                        ),
                    )
                } else if added(body.lines) == 0 && removed(body.lines) == 0 {
                    Err(hunk_fault(hunk, " must add or remove at least one line"@))
                } else {
                    Ok(
                        (
                            HunkView {
                                old_start: old_start as nat,
                                old_count: old_count as nat,
                                new_start: new_start as nat,
                                new_count: new_count as nat,
                                lines: body.lines,
                                new_no_newline: body.no_newline,
                            },
                            next,
                        ),
                    )
                }
            },
        },
    }
}

proof fn lemma_push_line(lines: Seq<HunkLineView>, line: HunkLineView)
    ensures
        old_side(lines.push(line)) == (match line {
            HunkLineView::Context(t) => old_side(lines).push(t),
            HunkLineView::Remove(t) => old_side(lines).push(t),
            HunkLineView::Add(_) => old_side(lines),
        }),
        new_side(lines.push(line)) == (match line {
            HunkLineView::Context(t) => new_side(lines).push(t),
            HunkLineView::Add(t) => new_side(lines).push(t),
            HunkLineView::Remove(_) => new_side(lines),
        }),
        added(lines.push(line)) == added(lines) + (if line is Add {
            1nat
        } else {
            0
        }),
        removed(lines.push(line)) == removed(lines) + (if line is Remove {
            1nat
        } else {
            0
        }),
{
    assert(lines.push(line).drop_last() =~= lines);
    assert(lines.push(line).last() == line);
}

/// A hunk has at least as many lines as each of its sides.
pub proof fn lemma_side_lengths(lines: Seq<HunkLineView>)
    ensures
        old_side(lines).len() + added(lines) == lines.len(),
        new_side(lines).len() + removed(lines) == lines.len(),
    decreases lines.len(),
{
    if lines.len() > 0 {
        lemma_side_lengths(lines.drop_last());
    }
}

impl PatchHunk {
    /// Reads the hunk with the given header, whose body starts at line `cursor`.
    pub fn parse(header: &str, patch_lines: &Vec<String>, start: usize, hunk_index: usize) -> (r:
        Result<(PatchHunk, usize), ToolError>)
        requires
            start <= patch_lines@.len(),
        ensures
            match r {
                Ok(p) => hunk_spec(
                    header@,
                    patch_lines.deep_view(),
                    start as int,
                    hunk_index as nat,
                ) == Ok::<(HunkView, int), ToolFault>((p.0.deep_view(), p.1 as int)) && start <= p.1
                    && p.1 <= patch_lines@.len(),
                Err(e) => hunk_spec(
                    header@,
                    patch_lines.deep_view(),
                    start as int,
                    hunk_index as nat,
                ) == Err::<(HunkView, int), ToolFault>(e.deep_view()),
            },
    {
        let (old_start, old_count, new_start, new_count) = parse_hunk_header(header, hunk_index)?;
        let ghost all = patch_lines.deep_view();
        let ghost hunk = hunk_index as nat;
        let ghost nothing = ScanView { lines: Seq::empty(), no_newline: false };
        let mut cursor: usize = start;
        let mut lines: Vec<HunkLine> = Vec::new();
        let mut observed_old: usize = 0;
        let mut observed_new: usize = 0;
        let mut changed = false;
        let mut new_no_newline = false;
        proof {
            lemma_scan_bounds(all, start as int, hunk, nothing);
            assert(lines.deep_view() =~= Seq::<HunkLineView>::empty());
        }
        while cursor < patch_lines.len() && !text::starts_with(patch_lines[cursor].as_str(), "@@ ")
            && !(patch_lines[cursor].as_str().is_empty() && cursor + 1 == patch_lines.len())
            invariant
                start <= cursor <= patch_lines@.len(),
                patch_lines@.len() == patch_lines.len(),
                all == patch_lines.deep_view(),
                hunk == hunk_index as nat,
                lines@.len() <= cursor - start,
                observed_old == old_side(lines.deep_view()).len(),
                observed_new == new_side(lines.deep_view()).len(),
                observed_old <= lines@.len(),
                observed_new <= lines@.len(),
                changed == (added(lines.deep_view()) > 0 || removed(lines.deep_view()) > 0),
                scan_spec(all, start as int, hunk, nothing) == scan_spec(
                    all,
                    cursor as int,
                    hunk,
                    ScanView { lines: lines.deep_view(), no_newline: new_no_newline },
                ),
                nothing == (ScanView { lines: Seq::empty(), no_newline: false }),
                hunk_header_spec(header@, hunk) == Ok::<(usize, usize, usize, usize), ToolFault>(
                    (old_start, old_count, new_start, new_count),
                ),
            decreases patch_lines@.len() - cursor,
        {
            let line = &patch_lines[cursor];
            let ghost seen = lines.deep_view();
            assert(all[cursor as int] == line@);
            assert(!at_hunk_end(all, cursor as int));
            if text::same(line.as_str(), "\\ No newline at end of file") {
                if lines.len() == 0 {
                    return Err(
                        hunk_error(hunk_index, " has a newline marker without a preceding line"),
                    );
                }
                assert(seen.last() == lines@.last().deep_view());
                match &lines[lines.len() - 1] {
                    HunkLine::Remove(_) => {},
                    HunkLine::Context(_) => {
                        new_no_newline = true;
                    },
                    HunkLine::Add(_) => {
                        new_no_newline = true;
                    },
                }
                cursor += 1;
            } else {
                if new_no_newline {
                    return Err(
                        hunk_error(
                            hunk_index,
                            " contains lines after a new-file no-newline marker",
                        ),
                    );
                }
                let chars = text::chars_of(line.as_str());
                if chars.len() == 0 || !(chars[0] == ' ' || chars[0] == '-' || chars[0] == '+') {
                    let message = concat3(
                        " line ",
                        decimal_of(cursor + 1).as_str(),
                        " must start with space, `+`, or `-`",
                    );
                    return Err(hunk_error(hunk_index, message.as_str()));
                }
                let content = text::text_of(&chars, 1, chars.len());
                assert(content@ =~= line@.drop_first());
                let parsed = if chars[0] == ' ' {
                    observed_old += 1;
                    observed_new += 1;
                    HunkLine::Context(content)
                } else if chars[0] == '-' {
                    observed_old += 1;
                    changed = true;
                    HunkLine::Remove(content)
                } else {
                    observed_new += 1;
                    changed = true;
                    HunkLine::Add(content)
                };
                proof {
                    lemma_push_line(seen, parsed.deep_view());
                }
                lines.push(parsed);
                assert(lines.deep_view() =~= seen.push(parsed.deep_view()));
                cursor += 1;
            }
        }
        proof {
            assert(at_hunk_end(all, cursor as int));
        }
        if observed_old != old_count || observed_new != new_count {
            let mut message = concat5(
                " header declares -",
                decimal_of(old_count).as_str(),
                "/+",
                decimal_of(new_count).as_str(),
                " lines but body contains -",
            );
            message.push_str(decimal_of(observed_old).as_str());
            message.push_str("/+");
            message.push_str(decimal_of(observed_new).as_str());
            return Err(hunk_error(hunk_index, message.as_str()));
        }
        if !changed {
            return Err(hunk_error(hunk_index, " must add or remove at least one line"));
        }
        Ok(
            (
                PatchHunk { old_start, old_count, new_start, new_count, lines, new_no_newline },
                cursor,
            ),
        )
    }
}


/// The sum of `counts`, unless it passes the line limit.
pub open spec fn line_total_spec(counts: Seq<nat>) -> Result<nat, ToolFault>
    decreases counts.len(),
{
    if counts.len() == 0 {
        Ok(0)
    } else {
        match line_total_spec(counts.drop_last()) {
            Err(e) => Err(e),
            Ok(total) => if total + counts.last() <= MAX_PATCH_LINES {
                Ok(total + counts.last())
            } else {
                Err(
                    ToolFault::InvalidPatch(
                        "declared hunk lines exceed the "@ + text::decimal(MAX_PATCH_LINES as nat)
                            + "-line limit"@,
                    ),
                )
            },
        }
    }
}

/// Adds up line counts within the line limit.
pub fn checked_line_total(counts: &Vec<usize>) -> (r: Result<usize, ToolError>)
    ensures
        match r {
            Ok(n) => line_total_spec(counts@.map_values(|c: usize| c as nat)) == Ok::<
                nat,
                ToolFault,
            >(n as nat),
            Err(e) => line_total_spec(counts@.map_values(|c: usize| c as nat)) == Err::<
                nat,
                ToolFault,
            >(e.deep_view()),
        },
{
    let ghost all = counts@.map_values(|c: usize| c as nat);
    let mut total: usize = 0;
    let mut i: usize = 0;
    while i < counts.len()
        invariant
            i <= counts@.len(),
            all == counts@.map_values(|c: usize| c as nat),
            total <= MAX_PATCH_LINES,
            line_total_spec(all.take(i as int)) == Ok::<nat, ToolFault>(total as nat),
        decreases counts@.len() - i,
    {
        assert(all.take(i as int + 1).drop_last() =~= all.take(i as int));
        assert(all.take(i as int + 1).last() == counts@[i as int]);
        if counts[i] > MAX_PATCH_LINES - total {
            proof {
                lemma_line_total_err(all, i as int + 1);
            }
            return Err(
                ToolError::InvalidPatch(
                    concat3(
                        "declared hunk lines exceed the ",
                        decimal_of(MAX_PATCH_LINES).as_str(),
                        "-line limit",
                    ),
                ),
            );
        }
        total += counts[i];
        i += 1;
    }
    assert(all.take(all.len() as int) =~= all);
    Ok(total)
}

proof fn lemma_line_total_err(counts: Seq<nat>, i: int)
    requires
        0 <= i <= counts.len(),
        line_total_spec(counts.take(i)) is Err,
    ensures
        line_total_spec(counts) == line_total_spec(counts.take(i)),
    decreases counts.len() - i,
{
    if i == counts.len() {
        assert(counts.take(i) =~= counts);
    } else {
        assert(counts.take(i + 1).drop_last() =~= counts.take(i));
        lemma_line_total_err(counts, i + 1);
    }
}

/// The counts of old lines that the hunks declare.
pub open spec fn old_counts(hunks: Seq<HunkView>) -> Seq<nat> {
    hunks.map_values(|h: HunkView| h.old_count)
}

/// The counts of new lines that the hunks declare.
pub open spec fn new_counts(hunks: Seq<HunkView>) -> Seq<nat> {
    hunks.map_values(|h: HunkView| h.new_count)
}

/// Whether the hunks fit the operation: an added file has no old lines, a deleted
/// one no new lines.
pub open spec fn shape_spec(operation: PatchOperation, hunks: Seq<HunkView>) -> Result<
    (),
    ToolFault,
> {
    match line_total_spec(old_counts(hunks)) {
        Err(e) => Err(e),
        Ok(old_total) => match line_total_spec(new_counts(hunks)) {
            Err(e) => Err(e),
            Ok(new_total) => if operation == PatchOperation::Add && old_total != 0 {
                Err(ToolFault::InvalidPatch("added-file patches must have zero old lines"@))
            } else if operation == PatchOperation::Delete && new_total != 0 {
                Err(ToolFault::InvalidPatch("deleted-file patches must have zero new lines"@))
            } else {
                Ok(())
            },
        },
    }
}

/// Checks that the hunks fit the operation.
pub fn validate_operation_shape(operation: PatchOperation, hunks: &Vec<PatchHunk>) -> (r: Result<
    (),
    ToolError,
>)
    ensures
        outcome::of(r) == shape_spec(operation, hunks.deep_view()),
{
    let mut olds: Vec<usize> = Vec::new();
    let mut news: Vec<usize> = Vec::new();
    let mut i: usize = 0;
    while i < hunks.len()
        invariant
            i <= hunks@.len(),
            olds@.len() == i,
            news@.len() == i,
            forall|j: int| 0 <= j < i ==> olds@[j] == hunks@[j].old_count,
            forall|j: int| 0 <= j < i ==> news@[j] == hunks@[j].new_count,
        decreases hunks@.len() - i,
    {
        olds.push(hunks[i].old_count);
        news.push(hunks[i].new_count);
        i += 1;
    }
    assert(olds@.map_values(|c: usize| c as nat) =~= old_counts(hunks.deep_view()));
    assert(news@.map_values(|c: usize| c as nat) =~= new_counts(hunks.deep_view()));
    let old_total: usize = checked_line_total(&olds)?;
    let new_total: usize = checked_line_total(&news)?;
    match operation {
        PatchOperation::Add => if old_total != 0 {
            return Err(
                ToolError::InvalidPatch("added-file patches must have zero old lines".to_owned()),
            );
        },
        PatchOperation::Delete => if new_total != 0 {
            return Err(
                ToolError::InvalidPatch("deleted-file patches must have zero new lines".to_owned()),
            );
        },
        PatchOperation::Update => {},
    }
    Ok(())
}

/// The hunks from line `cursor` on, behind the given ones.
pub open spec fn hunks_spec(lines: Seq<Seq<char>>, cursor: int, hunks: Seq<HunkView>) -> Result<
    Seq<HunkView>,
    ToolFault,
>
    decreases lines.len() - cursor,
{
    if cursor < 0 || cursor >= lines.len() || lines[cursor].len() == 0 && cursor + 1
        == lines.len() {
        Ok(hunks)
    } else if hunks.len() == MAX_PATCH_HUNKS {
        Err(
            ToolFault::InvalidPatch(
                "patch exceeds the "@ + text::decimal(MAX_PATCH_HUNKS as nat) + "-hunk limit"@,
            ),
        )
    } else if !text::starts_with_spec(lines[cursor], "@@ "@) {
        Err(
            ToolFault::InvalidPatch(
                "line "@ + text::decimal((cursor + 1) as nat) + " must begin a hunk with `@@`"@,
            ),
        )
    } else {
        match hunk_spec(lines[cursor], lines, cursor + 1, hunks.len() + 1) {
            Err(e) => Err(e),
            Ok((hunk, next)) => {
                proof {
                    lemma_scan_bounds(
                        lines,
                        cursor + 1,
                        hunks.len() + 1,
                        ScanView { lines: Seq::empty(), no_newline: false },
                    );
                }
                hunks_spec(lines, next, hunks.push(hunk))
            },
        }
    }
}

/// The patch that a text stands for, or why it stands for none.
pub open spec fn patch_spec(input: Seq<char>) -> Result<PatchView, ToolFault> {
    let lines = patch_lines(input);
    if lines.len() > MAX_PATCH_LINES {
        Err(
            ToolFault::InvalidPatch(
                "patch has "@ + text::decimal(lines.len()) + " lines; limit is "@ + text::decimal(
                    MAX_PATCH_LINES as nat,
                ),
            ),
        )
    } else if lines.len() < 3 {
        Err(ToolFault::InvalidPatch("expected `---`, `+++`, and at least one `@@` hunk"@))
    } else {
        match header_path_spec(lines[0], "--- "@) {
            Err(e) => Err(e),
            Ok(old_path) => match header_path_spec(lines[1], "+++ "@) {
                Err(e) => Err(e),
                Ok(new_path) => match identity_spec(old_path, new_path) {
                    Err(e) => Err(e),
                    Ok((path, operation)) => match hunks_spec(lines, 2, Seq::empty()) {
                        Err(e) => Err(e),
                        Ok(hunks) => if hunks.len() == 0 {
                            Err(ToolFault::InvalidPatch("patch must contain at least one hunk"@))
                        } else {
                            match shape_spec(operation, hunks) {
                                Err(e) => Err(e),
                                Ok(_) => Ok(PatchView { path, operation, hunks }),
                            }
                        },
                    },
                },
            },
        }
    }
}

/// The lines of a patch.
fn lines_of_patch(input: &str) -> (r: Vec<String>)
    ensures
        r.deep_view() == patch_lines(input@),
{
    let pieces = text::split(input, '\n');
    let mut out: Vec<String> = Vec::new();
    let mut i: usize = 0;
    while i < pieces.len()
        invariant
            i <= pieces@.len(),
            out@.len() == i,
            forall|j: int| 0 <= j < i ==> (#[trigger] out@[j])@ == without_cr(pieces@[j]@),
        decreases pieces@.len() - i,
    {
        out.push(strip_cr(pieces[i].as_str()));
        i += 1;
    }
    assert(out.deep_view() =~= text::views(pieces@).map_values(|l: Seq<char>| without_cr(l)));
    out
}

impl UnifiedPatch {
    /// Reads a unified diff of one file.
    pub fn parse(input: &str) -> (r: Result<UnifiedPatch, ToolError>)
        ensures
            outcome::of(r) == patch_spec(input@),
    {
        let lines = lines_of_patch(input);
        let ghost all = lines.deep_view();
        assert(all.len() == lines@.len());
        if lines.len() > MAX_PATCH_LINES {
            return Err(
                ToolError::InvalidPatch(
                    concat4(
                        "patch has ",
                        decimal_of(lines.len()).as_str(),
                        " lines; limit is ",
                        decimal_of(MAX_PATCH_LINES).as_str(),
                    ),
                ),
            );
        }
        if lines.len() < 3 {
            return Err(
                ToolError::InvalidPatch(
                    "expected `---`, `+++`, and at least one `@@` hunk".to_owned(),
                ),
            );
        }
        assert(all[0] == lines@[0]@ && all[1] == lines@[1]@);
        let old_path = parse_header_path(lines[0].as_str(), "--- ")?;
        let new_path = parse_header_path(lines[1].as_str(), "+++ ")?;
        let (path, operation) = patch_identity(old_path, new_path)?;
        let mut cursor: usize = 2;
        let mut hunks: Vec<PatchHunk> = Vec::new();
        assert(hunks.deep_view() =~= Seq::<HunkView>::empty());
        while cursor < lines.len() && !(lines[cursor].as_str().is_empty() && cursor + 1
            == lines.len())
            invariant
                cursor <= lines@.len(),
                lines@.len() == lines.len(),
                lines@.len() <= MAX_PATCH_LINES,
                all == lines.deep_view(),
                hunks@.len() <= MAX_PATCH_HUNKS,
                hunks_spec(all, 2, Seq::empty()) == hunks_spec(
                    all,
                    cursor as int,
                    hunks.deep_view(),
                ),
                all == patch_lines(input@),
                lines@.len() >= 3,
                header_path_spec(all[0], "--- "@) == Ok::<Option<Seq<char>>, ToolFault>(
                    old_path.deep_view(),
                ),
                header_path_spec(all[1], "+++ "@) == Ok::<Option<Seq<char>>, ToolFault>(
                    new_path.deep_view(),
                ),
                identity_spec(old_path.deep_view(), new_path.deep_view()) == Ok::<
                    (Seq<char>, PatchOperation),
                    ToolFault,
                >((path@, operation)),
            decreases lines@.len() - cursor,
        {
            let ghost before = hunks.deep_view();
            assert(all[cursor as int] == lines@[cursor as int]@);
            if hunks.len() == MAX_PATCH_HUNKS {
                return Err(
                    ToolError::InvalidPatch(
                        concat3(
                            "patch exceeds the ",
                            decimal_of(MAX_PATCH_HUNKS).as_str(),
                            "-hunk limit",
                        ),
                    ),
                );
            }
            if !text::starts_with(lines[cursor].as_str(), "@@ ") {
                return Err(
                    ToolError::InvalidPatch(
                        concat3(
                            "line ",
                            decimal_of(cursor + 1).as_str(),
                            " must begin a hunk with `@@`",
                        ),
                    ),
                );
            }
            let (hunk, next) = PatchHunk::parse(
                lines[cursor].as_str(),
                &lines,
                cursor + 1,
                hunks.len() + 1,
            )?;
            let ghost added_hunk = hunk.deep_view();
            hunks.push(hunk);
            assert(hunks.deep_view() =~= before.push(added_hunk));
            cursor = next;
        }
        proof {
            if cursor < lines@.len() {
                assert(all[cursor as int] == lines@[cursor as int]@);
            }
            assert(hunks_spec(all, 2, Seq::empty()) == Ok::<Seq<HunkView>, ToolFault>(
                hunks.deep_view(),
            ));
        }
        if hunks.len() == 0 {
            return Err(
                ToolError::InvalidPatch("patch must contain at least one hunk".to_owned()),
            );
        }
        validate_operation_shape(operation, &hunks)?;
        Ok(UnifiedPatch { path, operation, hunks })
    }
}


/// How the lines of a file end.
#[derive(Clone, Copy, Debug, PartialEq, Eq, Structural)]
pub enum LineEnding {
    Lf,
    CrLf,
}

impl LineEnding {
    /// The characters that end a line.
    pub open spec fn value_spec(self) -> Seq<char> {
        match self {
            LineEnding::Lf => "\n"@,
            LineEnding::CrLf => "\r\n"@,
        }
    }

    /// The characters that end a line.
    pub fn value(self) -> (r: &'static str)
        ensures
            r@ == self.value_spec(),
    {
        match self {
            LineEnding::Lf => "\n",
            LineEnding::CrLf => "\r\n",
        }
    }
}

/// The lines of a file, and how they end.
pub struct Document {
    pub lines: Vec<String>,
    pub line_ending: LineEnding,
    pub ends_with_newline: bool,
}

/// A [`Document`] by its lines' texts.
pub struct DocumentView {
    pub lines: Seq<Seq<char>>,
    pub line_ending: LineEnding,
    pub ends_with_newline: bool,
}

impl DeepView for Document {
    type V = DocumentView;

    open spec fn deep_view(&self) -> DocumentView {
        DocumentView {
            lines: self.lines.deep_view(),
            line_ending: self.line_ending,
            ends_with_newline: self.ends_with_newline,
        }
    }
}

/// Whether a carriage return and a line feed stand side by side at `i`.
pub open spec fn crlf_at(s: Seq<char>, i: int) -> bool {
    0 < i < s.len() && s[i] == '\n' && s[i - 1] == '\r'
}

/// Whether a line feed without a carriage return before it stands at `i`.
pub open spec fn bare_lf_at(s: Seq<char>, i: int) -> bool {
    0 <= i < s.len() && s[i] == '\n' && (i == 0 || s[i - 1] != '\r')
}

/// Whether some line of `s` ends in a carriage return and a line feed.
pub open spec fn has_crlf(s: Seq<char>) -> bool {
    exists|i: int| crlf_at(s, i)
}

/// Whether some line of `s` ends in a line feed alone.
pub open spec fn has_bare_lf(s: Seq<char>) -> bool {
    exists|i: int| bare_lf_at(s, i)
}

/// The lines of `s`, whose line ending is given.
pub open spec fn document_lines(s: Seq<char>, ending: LineEnding) -> Seq<Seq<char>> {
    let pieces = text::split_char(s, '\n');
    let clean = if ending == LineEnding::CrLf {
        pieces.map_values(|l: Seq<char>| without_cr(l))
    } else {
        pieces
    };
    if s.len() == 0 {
        Seq::empty()
    } else if s.last() == '\n' {
        clean.drop_last()
    } else {
        clean
    }
}

/// The lines of a file's text; a file with two kinds of line ending has none.
pub open spec fn document_spec(s: Seq<char>) -> Result<DocumentView, ToolFault> {
    if has_crlf(s) && has_bare_lf(s) {
        Err(ToolFault::InvalidPatch("source file has mixed LF and CRLF line endings"@))
    } else {
        let ending = if has_crlf(s) {
            LineEnding::CrLf
        } else {
            LineEnding::Lf
        };
        Ok(
            DocumentView {
                lines: document_lines(s, ending),
                line_ending: ending,
                ends_with_newline: s.len() > 0 && s.last() == '\n',
            },
        )
    }
}

/// The text of lines with the given ending between them, and behind the last one
/// if asked for.
pub open spec fn render_spec(
    lines: Seq<Seq<char>>,
    ending: LineEnding,
    ends_with_newline: bool,
) -> Seq<char> {
    if ends_with_newline && lines.len() > 0 {
        text::join_spec(lines, ending.value_spec()) + ending.value_spec()
    } else {
        text::join_spec(lines, ending.value_spec())
    }
}

impl Document {
    /// Takes a file's text apart into lines.
    pub fn parse(source: &str) -> (r: Result<Document, ToolError>)
        ensures
            outcome::of(r) == document_spec(source@),
    {
        let chars = text::chars_of(source);
        let mut crlf = false;
        let mut bare = false;
        let mut i: usize = 0;
        while i < chars.len()
            invariant
                chars@ == source@,
                i <= chars@.len(),
                crlf == exists|j: int| j < i && crlf_at(source@, j),
                bare == exists|j: int| j < i && bare_lf_at(source@, j),
            decreases chars@.len() - i,
        {
            if chars[i] == '\n' {
                if i > 0 && chars[i - 1] == '\r' {
                    assert(crlf_at(source@, i as int));
                    crlf = true;
                } else {
                    assert(bare_lf_at(source@, i as int));
                    bare = true;
                }
            } else {
                assert(!crlf_at(source@, i as int));
                assert(!bare_lf_at(source@, i as int));
            }
            i += 1;
        }
        assert(crlf == has_crlf(source@));
        assert(bare == has_bare_lf(source@));
        if crlf && bare {
            return Err(
                ToolError::InvalidPatch(
                    "source file has mixed LF and CRLF line endings".to_owned(),
                ),
            );
        }
        let line_ending = if crlf {
            LineEnding::CrLf
        } else {
            LineEnding::Lf
        };
        let ends_with_newline = chars.len() > 0 && chars[chars.len() - 1] == '\n';
        let pieces = text::split(source, '\n');
        let mut lines: Vec<String> = Vec::new();
        if chars.len() > 0 {
            proof {
                text::lemma_split_nonempty(source@, text::is_char('\n'));
                assert(text::views(pieces@).len() == pieces@.len());
            }
            let count: usize = if ends_with_newline {
                pieces.len() - 1
            } else {
                pieces.len()
            };
            let mut k: usize = 0;
            while k < count
                invariant
                    k <= count <= pieces@.len(),
                    lines@.len() == k,
                    crlf == (line_ending == LineEnding::CrLf),
                    forall|j: int|
                        0 <= j < k ==> (#[trigger] lines@[j])@ == (if crlf {
                            without_cr(pieces@[j]@)
                        } else {
                            pieces@[j]@
                        }),
                decreases count - k,
            {
                if crlf {
                    lines.push(strip_cr(pieces[k].as_str()));
                } else {
                    lines.push(pieces[k].clone());
                }
                k += 1;
            }
        }
        assert(lines.deep_view() =~= document_lines(source@, line_ending));
        Ok(Document { lines, line_ending, ends_with_newline })
    }

    /// Puts lines together into a file's text.
    pub fn render(lines: &Vec<String>, line_ending: LineEnding, ends_with_newline: bool) -> (r:
        String)
        ensures
            r@ == render_spec(lines.deep_view(), line_ending, ends_with_newline),
    {
        let mut output = text::join(lines, line_ending.value());
        assert(text::views(lines@) =~= lines.deep_view());
        if ends_with_newline && lines.len() > 0 {
            output.push_str(line_ending.value());
        }
        output
    }
}

/// The position that a range starts at, counted from zero. An empty range starts
/// behind the line that it names.
pub open spec fn range_index_spec(start: nat, count: nat, side: Seq<char>, hunk: nat) -> Result<
    nat,
    ToolFault,
> {
    if count == 0 {
        Ok(start)
    } else if start == 0 {
        Err(hunk_fault(hunk, " "@ + side + " range starts at zero but is non-empty"@))
    } else {
        Ok((start - 1) as nat)
    }
}

/// The position that a range starts at, counted from zero.
pub fn range_index(start: usize, count: usize, side: &str, hunk_index: usize) -> (r: Result<
    usize,
    ToolError,
>)
    ensures
        match r {
            Ok(n) => range_index_spec(start as nat, count as nat, side@, hunk_index as nat)
                == Ok::<nat, ToolFault>(n as nat),
            Err(e) => range_index_spec(start as nat, count as nat, side@, hunk_index as nat)
                == Err::<nat, ToolFault>(e.deep_view()),
        },
{
    if count == 0 {
        Ok(start)
    } else if start == 0 {
        let message = concat3(" ", side, " range starts at zero but is non-empty");
        Err(hunk_error(hunk_index, message.as_str()))
    } else {
        Ok(start - 1)
    }
}

/// The line as it is quoted in messages: at most 160 characters and a mark where
/// more follow.
pub open spec fn bounded_line_spec(value: Seq<char>) -> Seq<char> {
    if value.len() > 160 {
        value.take(160).push('…')
    } else {
        value
    }
}

/// The line as it is quoted in messages.
pub fn bounded_line(value: &str) -> (r: String)
    ensures
        r@ == bounded_line_spec(value@),
{
    let chars = text::chars_of(value);
    if chars.len() > 160 {
        let mut out = text::text_of(&chars, 0, 160);
        assert(out@ =~= value@.take(160));
        out.push('…');
        out
    } else {
        value.to_owned()
    }
}

/// Whether line `index` of the source is the expected one.
pub open spec fn source_line_spec(
    source: Seq<Seq<char>>,
    index: nat,
    expected: Seq<char>,
    hunk: nat,
) -> Result<(), ToolFault> {
    if index >= source.len() {
        Err(
            hunk_fault(
                hunk,
                " expected source line "@ + text::decimal(index + 1) + " "@ + text::debug_view(
                    bounded_line_spec(expected),
                ) + ", but the file ended"@,
            ),
        )
    } else if source[index as int] == expected {
        Ok(())
    } else {
        Err(
            hunk_fault(
                hunk,
                " source mismatch at line "@ + text::decimal(index + 1) + ": expected "@ + text::debug_view(
                    bounded_line_spec(expected),
                ) + ", found "@ + text::debug_view(bounded_line_spec(source[index as int])),
            ),
        )
    }
}

/// Requires line `index` of the source to be the expected one.
pub fn require_source_line(
    source: &Vec<String>,
    index: usize,
    expected: &str,
    hunk_index: usize,
) -> (r: Result<(), ToolError>)
    requires
        index < usize::MAX,
    ensures
        outcome::of(r) == source_line_spec(
            source.deep_view(),
            index as nat,
            expected@,
            hunk_index as nat,
        ),
{
    let position = decimal_of(index + 1);
    if index >= source.len() {
        let message = concat5(
            " expected source line ",
            position.as_str(),
            " ",
            debug_text(bounded_line(expected).as_str()).as_str(),
            ", but the file ended",
        );
        return Err(hunk_error(hunk_index, message.as_str()));
    }
    assert(source.deep_view()[index as int] == source@[index as int]@);
    if text::same(source[index].as_str(), expected) {
        Ok(())
    } else {
        let mut message = concat4(
            " source mismatch at line ",
            position.as_str(),
            ": expected ",
            debug_text(bounded_line(expected).as_str()).as_str(),
        );
        message.push_str(", found ");
        message.push_str(debug_text(bounded_line(source[index].as_str()).as_str()).as_str());
        Err(hunk_error(hunk_index, message.as_str()))
    }
}

/// How far a patch has been applied: the lines written, and the number of source
/// lines read.
pub struct ProgressView {
    pub output: Seq<Seq<char>>,
    pub cursor: nat,
}

/// What the lines of a hunk from line `i` on do.
pub open spec fn hunk_lines_spec(
    lines: Seq<HunkLineView>,
    i: int,
    source: Seq<Seq<char>>,
    hunk: nat,
    at: ProgressView,
) -> Result<ProgressView, ToolFault>
    decreases lines.len() - i,
{
    if i < 0 || i >= lines.len() {
        Ok(at)
    } else {
        match lines[i] {
            HunkLineView::Context(t) => match source_line_spec(source, at.cursor, t, hunk) {
                Err(e) => Err(e),
                Ok(_) => hunk_lines_spec(
                    lines,
                    i + 1,
                    source,
                    hunk,
                    ProgressView { output: at.output.push(t), cursor: at.cursor + 1 },
                ),
            },
            HunkLineView::Remove(t) => match source_line_spec(source, at.cursor, t, hunk) {
                Err(e) => Err(e),
                Ok(_) => hunk_lines_spec(
                    lines,
                    i + 1,
                    source,
                    hunk,
                    ProgressView { output: at.output, cursor: at.cursor + 1 },
                ),
            },
            HunkLineView::Add(t) => hunk_lines_spec(
                lines,
                i + 1,
                source,
                hunk,
                ProgressView { output: at.output.push(t), cursor: at.cursor },
            ),
        }
    }
}

/// What one hunk does: the source lines before it are kept, and its own lines
/// follow.
pub open spec fn apply_hunk_spec(
    h: HunkView,
    hunk: nat,
    source: Seq<Seq<char>>,
    at: ProgressView,
) -> Result<ProgressView, ToolFault> {
    match range_index_spec(h.old_start, h.old_count, "old"@, hunk) {
        Err(e) => Err(e),
        Ok(old_index) => if old_index < at.cursor || old_index > source.len() {
            Err(
                hunk_fault(
                    hunk,
                    " old start "@ + text::decimal(h.old_start)
                        + " overlaps a prior hunk or exceeds the "@ + text::decimal(source.len())
                        + "-line file"@,
                ),
            )
        } else {
            let kept = at.output + source.subrange(at.cursor as int, old_index as int);
            match range_index_spec(h.new_start, h.new_count, "new"@, hunk) {
                Err(e) => Err(e),
                Ok(new_index) => if kept.len() != new_index {
                    Err(
                        hunk_fault(
                            hunk,
                            " new start "@ + text::decimal(h.new_start) + " disagrees with the "@
                                + text::decimal(kept.len()) + " output lines preceding it"@,
                        ),
                    )
                } else {
                    hunk_lines_spec(
                        h.lines,
                        0,
                        source,
                        hunk,
                        ProgressView { output: kept, cursor: old_index },
                    )
                },
            }
        },
    }
}

/// What the hunks from hunk `i` on do.
pub open spec fn apply_hunks_spec(
    hunks: Seq<HunkView>,
    i: int,
    source: Seq<Seq<char>>,
    at: ProgressView,
) -> Result<ProgressView, ToolFault>
    decreases hunks.len() - i,
{
    if i < 0 || i >= hunks.len() {
        Ok(at)
    } else {
        match apply_hunk_spec(hunks[i], (i + 1) as nat, source, at) {
            Err(e) => Err(e),
            Ok(next) => apply_hunks_spec(hunks, i + 1, source, next),
        }
    }
}

/// Number of lines that the first `count` hunks add.
pub open spec fn total_added(hunks: Seq<HunkView>, count: int) -> nat
    decreases count,
{
    if count <= 0 {
        0
    } else {
        total_added(hunks, count - 1) + added(hunks[count - 1].lines)
    }
}

/// Number of lines that the first `count` hunks remove.
pub open spec fn total_removed(hunks: Seq<HunkView>, count: int) -> nat
    decreases count,
{
    if count <= 0 {
        0
    } else {
        total_removed(hunks, count - 1) + removed(hunks[count - 1].lines)
    }
}

/// Whether one of the hunks says that the new file has no newline at its end.
pub open spec fn says_no_newline(hunks: Seq<HunkView>) -> bool {
    exists|i: int| 0 <= i < hunks.len() && (#[trigger] hunks[i]).new_no_newline
}

/// A patched file.
#[derive(Debug)]
pub struct AppliedPatch {
    pub text: String,
    pub lines_added: usize,
    pub lines_removed: usize,
}

/// An [`AppliedPatch`] by its text.
pub struct AppliedView {
    pub text: Seq<char>,
    pub lines_added: nat,
    pub lines_removed: nat,
}

impl DeepView for AppliedPatch {
    type V = AppliedView;

    open spec fn deep_view(&self) -> AppliedView {
        AppliedView {
            text: self.text@,
            lines_added: self.lines_added as nat,
            lines_removed: self.lines_removed as nat,
        }
    }
}

/// Whether a patched file ends with a newline.
pub open spec fn final_newline(
    patch: PatchView,
    document: DocumentView,
    output: Seq<Seq<char>>,
    touches_end: bool,
) -> bool {
    if output.len() == 0 || says_no_newline(patch.hunks) {
        false
    } else if patch.operation == PatchOperation::Add || touches_end {
        true
    } else {
        document.ends_with_newline
    }
}

/// The patched file, once all hunks have been applied.
pub open spec fn finish_spec(
    patch: PatchView,
    document: DocumentView,
    at: ProgressView,
) -> Result<AppliedView, ToolFault> {
    let touches_end = at.cursor == document.lines.len();
    let output = at.output + document.lines.skip(at.cursor as int);
    if says_no_newline(patch.hunks) && !touches_end {
        Err(
            ToolFault::InvalidPatch(
                "a `No newline at end of file` marker was used before the final source region"@,
            ),
        )
    } else if patch.operation == PatchOperation::Delete && output.len() != 0 {
        Err(
            ToolFault::InvalidPatch(
                "delete patch left "@ + text::decimal(output.len())
                    + " output lines; it must remove the complete file"@,
            ),
        )
    } else {
        let text = render_spec(
            output,
            document.line_ending,
            final_newline(patch, document, output, touches_end),
        );
        if text::utf8_len(text) > MAX_PATCH_FILE_BYTES {
            Err(
                ToolFault::InvalidPatch(
                    "patched file would exceed "@ + text::decimal(MAX_PATCH_FILE_BYTES as nat)
                        + " bytes"@,
                ),
            )
        } else {
            Ok(
                AppliedView {
                    text,
                    lines_added: total_added(patch.hunks, patch.hunks.len() as int),
                    lines_removed: total_removed(patch.hunks, patch.hunks.len() as int),
                },
            )
        }
    }
}

/// The file that a patch makes of a source file.
pub open spec fn apply_spec(patch: PatchView, source: Seq<char>) -> Result<
    AppliedView,
    ToolFault,
> {
    match document_spec(source) {
        Err(e) => Err(e),
        Ok(document) => match apply_hunks_spec(
            patch.hunks,
            0,
            document.lines,
            ProgressView { output: Seq::empty(), cursor: 0 },
        ) {
            Err(e) => Err(e),
            Ok(at) => finish_spec(patch, document, at),
        },
    }
}

/// Appends the lines from `from` up to `to` of `source` to `output`.
fn copy_lines(output: &mut Vec<String>, source: &Vec<String>, from: usize, to: usize)
    requires
        from <= to <= source@.len(),
    ensures
        final(output).deep_view() == old(output).deep_view() + source.deep_view().subrange(
            from as int,
            to as int,
        ),
{
    let ghost before = output.deep_view();
    let mut i: usize = from;
    assert(output.deep_view() =~= before + source.deep_view().subrange(from as int, i as int));
    while i < to
        invariant
            from <= i <= to <= source@.len(),
            output.deep_view() == before + source.deep_view().subrange(from as int, i as int),
        decreases to - i,
    {
        let ghost so_far = output.deep_view();
        output.push(source[i].clone());
        assert(output.deep_view() =~= so_far.push(source@[i as int]@));
        i += 1;
        assert(output.deep_view() =~= before + source.deep_view().subrange(from as int, i as int));
    }
}

proof fn lemma_take_line(lines: Seq<HunkLineView>, i: int)
    requires
        0 <= i < lines.len(),
    ensures
        added(lines.take(i + 1)) == added(lines.take(i)) + (if lines[i] is Add {
            1nat
        } else {
            0
        }),
        removed(lines.take(i + 1)) == removed(lines.take(i)) + (if lines[i] is Remove {
            1nat
        } else {
            0
        }),
{
    assert(lines.take(i + 1) =~= lines.take(i).push(lines[i]));
    lemma_push_line(lines.take(i), lines[i]);
}

impl UnifiedPatch {
    /// Applies the patch to the text of a file, exactly where its hunks say.
    pub fn apply(&self, original: &str) -> (r: Result<AppliedPatch, ToolError>)
        requires
            original@.len() + 1 < usize::MAX,
        ensures
            outcome::of(r) == apply_spec(self.deep_view(), original@),
    {
        let document = Document::parse(original)?;
        let ghost source = document.lines.deep_view();
        let ghost hunks = self.hunks.deep_view();
        let ghost start = ProgressView { output: Seq::empty(), cursor: 0 };
        proof {
            text::lemma_split_nonempty(original@, text::is_char('\n'));
            assert(source.len() == document.lines@.len());
            assert(hunks.len() == self.hunks@.len());
        }
        let mut output: Vec<String> = Vec::new();
        let mut original_cursor: usize = 0;
        let mut lines_added: usize = 0;
        let mut lines_removed: usize = 0;
        let mut explicit_no_newline = false;
        assert(output.deep_view() =~= Seq::<Seq<char>>::empty());
        let mut i: usize = 0;
        while i < self.hunks.len()
            invariant
                i <= self.hunks@.len(),
                self.hunks@.len() == self.hunks.len(),
                hunks == self.hunks.deep_view(),
                source == document.lines.deep_view(),
                source.len() == document.lines@.len(),
                source.len() < usize::MAX,
                original_cursor <= source.len(),
                document_spec(original@) == Ok::<DocumentView, ToolFault>(document.deep_view()),
                start == (ProgressView { output: Seq::empty(), cursor: 0 }),
                apply_hunks_spec(hunks, 0, source, start) == apply_hunks_spec(
                    hunks,
                    i as int,
                    source,
                    ProgressView {
                        output: output.deep_view(),
                        cursor: original_cursor as nat,
                    },
                ),
                lines_added == total_added(hunks, i as int),
                lines_added <= output@.len(),
                lines_removed == total_removed(hunks, i as int),
                lines_removed <= original_cursor,
                explicit_no_newline == exists|j: int|
                    0 <= j < i && (#[trigger] hunks[j]).new_no_newline,
            decreases self.hunks@.len() - i,
        {
            let hunk = &self.hunks[i];
            let ghost view = hunk.deep_view();
            let ghost lines = view.lines;
            let ghost start_cursor = original_cursor as nat;
            let ghost start_output = output.deep_view();
            assert(hunks[i as int] == view);
            assert(lines.len() == hunk.lines@.len());
            let old_index: usize = range_index(hunk.old_start, hunk.old_count, "old", i + 1)?;
            if old_index < original_cursor || old_index > document.lines.len() {
                let message = concat5(
                    " old start ",
                    decimal_of(hunk.old_start).as_str(),
                    " overlaps a prior hunk or exceeds the ",
                    decimal_of(document.lines.len()).as_str(),
                    "-line file",
                );
                return Err(hunk_error(i + 1, message.as_str()));
            }
            copy_lines(&mut output, &document.lines, original_cursor, old_index);
            original_cursor = old_index;
            let ghost kept = output.deep_view();
            assert(kept.len() == output@.len());
            let new_index: usize = range_index(hunk.new_start, hunk.new_count, "new", i + 1)?;
            if output.len() != new_index {
                let message = concat5(
                    " new start ",
                    decimal_of(hunk.new_start).as_str(),
                    " disagrees with the ",
                    decimal_of(output.len()).as_str(),
                    " output lines preceding it",
                );
                return Err(hunk_error(i + 1, message.as_str()));
            }
            let ghost goal = hunk_lines_spec(
                lines,
                0,
                source,
                (i + 1) as nat,
                ProgressView { output: kept, cursor: old_index as nat },
            );
            let ghost added_before = lines_added as nat;
            let ghost removed_before = lines_removed as nat;
            assert(apply_hunk_spec(
                view,
                (i + 1) as nat,
                source,
                ProgressView { output: start_output, cursor: start_cursor },
            ) == goal);
            assert(lines.take(0) =~= Seq::<HunkLineView>::empty());
            let mut k: usize = 0;
            while k < hunk.lines.len()
                invariant
                    i < self.hunks@.len(),
                    self.hunks@.len() == self.hunks.len(),
                    k <= hunk.lines@.len(),
                    hunks == self.hunks.deep_view(),
                    view == hunk.deep_view(),
                    lines == view.lines,
                    lines.len() == hunk.lines@.len(),
                    source == document.lines.deep_view(),
                    source.len() == document.lines@.len(),
                    source.len() < usize::MAX,
                    original_cursor <= source.len(),
                    goal == hunk_lines_spec(
                        lines,
                        k as int,
                        source,
                        (i + 1) as nat,
                        ProgressView {
                            output: output.deep_view(),
                            cursor: original_cursor as nat,
                        },
                    ),
                    lines_added == added_before + added(lines.take(k as int)),
                    lines_added <= output@.len(),
                    lines_removed == removed_before + removed(lines.take(k as int)),
                    lines_removed <= original_cursor,
                    apply_hunks_spec(hunks, 0, source, start) == apply_hunks_spec(
                        hunks,
                        i as int,
                        source,
                        ProgressView { output: start_output, cursor: start_cursor },
                    ),
                    apply_hunk_spec(
                        view,
                        (i + 1) as nat,
                        source,
                        ProgressView { output: start_output, cursor: start_cursor },
                    ) == goal,
                    hunks[i as int] == view,
                    start == (ProgressView { output: Seq::empty(), cursor: 0 }),
                    document_spec(original@) == Ok::<DocumentView, ToolFault>(
                        document.deep_view(),
                    ),
                decreases hunk.lines@.len() - k,
            {
                let ghost so_far = output.deep_view();
                assert(so_far.len() == output@.len());
                assert(lines[k as int] == hunk.lines@[k as int].deep_view());
                proof {
                    lemma_take_line(lines, k as int);
                }
                match &hunk.lines[k] {
                    HunkLine::Context(expected) => {
                        require_source_line(
                            &document.lines,
                            original_cursor,
                            expected.as_str(),
                            i + 1,
                        )?;
                        output.push(expected.clone());
                        assert(output.deep_view() =~= so_far.push(expected@));
                        original_cursor += 1;
                    },
                    HunkLine::Remove(expected) => {
                        require_source_line(
                            &document.lines,
                            original_cursor,
                            expected.as_str(),
                            i + 1,
                        )?;
                        original_cursor += 1;
                        lines_removed += 1;
                    },
                    HunkLine::Add(line) => {
                        output.push(line.clone());
                        assert(output.deep_view() =~= so_far.push(line@));
                        assert(output@.len() == output.len());
                        lines_added += 1;
                    },
                }
                k += 1;
            }
            assert(lines.take(lines.len() as int) =~= lines);
            if hunk.new_no_newline {
                assert(hunks[i as int].new_no_newline);
                explicit_no_newline = true;
            }
            i += 1;
        }
        let touches_end = original_cursor == document.lines.len();
        copy_lines(&mut output, &document.lines, original_cursor, document.lines.len());
        assert(source.subrange(original_cursor as int, source.len() as int) =~= source.skip(
            original_cursor as int,
        ));
        assert(output.deep_view().len() == output@.len());
        assert(explicit_no_newline == says_no_newline(hunks));
        if explicit_no_newline && !touches_end {
            return Err(
                ToolError::InvalidPatch(
                    "a `No newline at end of file` marker was used before the final source region".to_owned(),
                ),
            );
        }
        if self.operation == PatchOperation::Delete && output.len() != 0 {
            return Err(
                ToolError::InvalidPatch(
                    concat3(
                        "delete patch left ",
                        decimal_of(output.len()).as_str(),
                        " output lines; it must remove the complete file",
                    ),
                ),
            );
        }
        let ends_with_newline = if output.len() == 0 || explicit_no_newline {
            false
        } else if self.operation == PatchOperation::Add || touches_end {
            true
        } else {
            document.ends_with_newline
        };
        let text = Document::render(&output, document.line_ending, ends_with_newline);
        if text::byte_len(text.as_str()) as u64 > MAX_PATCH_FILE_BYTES {
            return Err(
                ToolError::InvalidPatch(
                    concat3(
                        "patched file would exceed ",
                        text::decimal_text(MAX_PATCH_FILE_BYTES).as_str(),
                        " bytes",
                    ),
                ),
            );
        }
        Ok(AppliedPatch { text, lines_added, lines_removed })
    }
}

} // verus!
