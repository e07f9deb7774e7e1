//! The tool that searches the workspace for a text.

use crate::json;
use crate::json::{Json, JsonMap, JsonView};
use crate::outcome;
use crate::text;
use crate::tools::descriptor;
use crate::tools::descriptor::{Capability, DescriptorView, OutputView, ToolDescriptor, ToolOutput};
use crate::tools::error::{ToolError, ToolFault};
use crate::tools::listing;
use crate::tools::listing::named_target;
use crate::tools::policy::PermissionView;
use crate::tools::reading::{one_effect, MAX_SEARCH_FILE_BYTES};
use crate::tools::registry;
use crate::tools::registry::ToolContext;
use crate::tools::schema;
use vstd::prelude::*;
use vstd::utf8::*;

verus! {

/// Number of matches returned where no number is given.
pub const DEFAULT_SEARCH_RESULTS: usize = 100;

/// What `search` is asked for.
pub struct SearchInput {
    /// Literal text to find.
    pub query: String,
    /// Workspace-relative file or directory to search. Omit or use `.` for the root. Absolute paths are forbidden.
    pub path: Option<String>,
    /// Maximum number of matching lines to return.
    pub max_results: usize,
    /// Whether matching preserves letter case.
    pub case_sensitive: bool,
}

/// A [`SearchInput`] by its texts.
pub struct SearchView {
    pub query: Seq<char>,
    pub path: Option<Seq<char>>,
    pub max_results: usize,
    pub case_sensitive: bool,
}

impl DeepView for SearchInput {
    type V = SearchView;

    open spec fn deep_view(&self) -> SearchView {
        SearchView {
            query: self.query@,
            path: self.path.deep_view(),
            max_results: self.max_results,
            case_sensitive: self.case_sensitive,
        }
    }
}

/// The schema of [`SearchInput`].
pub open spec fn search_schema() -> JsonView {
    schema::document(
        schema::closed_object(
            Map::<Seq<char>, JsonView>::empty().insert(
                "query"@,
                schema::described(schema::typed("string"@), "Literal text to find."@),
            ).insert(
                "path"@,
                schema::described(
                    schema::nullable("string"@),
                    "Workspace-relative file or directory to search. Omit or use `.` for the root. Absolute paths are forbidden."@,
                ),
            ).insert(
                "max_results"@,
                schema::defaulted(
                    schema::described(
                        schema::count_spec(),
                        "Maximum number of matching lines to return."@,
                    ),
                    json::num(DEFAULT_SEARCH_RESULTS as nat),
                ),
            ).insert(
                "case_sensitive"@,
                schema::defaulted(
                    schema::described(
                        schema::typed("boolean"@),
                        "Whether matching preserves letter case."@,
                    ),
                    JsonView::Bool(false),
                ),
            ),
            Seq::<Seq<char>>::empty().push("query"@),
        ),
        "SearchInput"@,
    )
}

/// Whether a search may be made, and of what.
pub open spec fn search_prepared(policy: PermissionView, request: SearchView) -> Result<
    Seq<char>,
    ToolFault,
> {
    if request.query.len() == 0 {
        Err(ToolFault::InvalidRange("query cannot be empty"@))
    } else if request.max_results == 0 || request.max_results > 5000 {
        Err(ToolFault::InvalidRange("max_results must be between 1 and 5000"@))
    } else {
        match registry::authorized(
            policy,
            Capability::FileRead,
            listing::target(request.path),
            "search"@,
        ) {
            Ok(()) => Ok(listing::target(request.path)),
            Err(e) => Err(e),
        }
    }
}

/// Refuses what is neither a file nor a directory.
pub fn check_target(relative: &str, is_directory: bool, is_file: bool) -> (r: Result<
    (),
    ToolError,
>)
    ensures
        outcome::of(r) == (if is_directory || is_file {
            Ok(())
        } else {
            Err(
                ToolFault::InvalidRange(
                    "path "@ + text::debug_view(relative@)
                        + " must name a workspace-relative file or directory"@,
                ),
            )
        }),
{
    if !is_directory && !is_file {
        return Err(
            ToolError::InvalidRange(
                text::concat3(
                    "path ",
                    text::debug_text(relative).as_str(),
                    " must name a workspace-relative file or directory",
                ),
            ),
        );
    }
    Ok(())
}

/// A line that matches.
pub struct SearchMatch {
    pub path: String,
    pub line: usize,
    pub text: String,
}

/// A [`SearchMatch`] by its texts.
pub struct MatchView {
    pub path: Seq<char>,
    pub line: nat,
    pub text: Seq<char>,
}

impl DeepView for SearchMatch {
    type V = MatchView;

    open spec fn deep_view(&self) -> MatchView {
        MatchView { path: self.path@, line: self.line as nat, text: self.text@ }
    }
}

/// A text as it is matched: in lower case unless letter case is preserved.
pub open spec fn matched_form(s: Seq<char>, case_sensitive: bool) -> Seq<char> {
    if case_sensitive {
        s
    } else {
        text::lowercase_view(s)
    }
}

/// A text as it is matched.
pub fn matchable(s: &str, case_sensitive: bool) -> (r: String)
    ensures
        r@ == matched_form(s@, case_sensitive),
{
    if case_sensitive {
        s.to_owned()
    } else {
        text::lowercase(s)
    }
}

/// The place of the first line feed from `i` on, or the end.
pub open spec fn line_feed_from(bytes: Seq<u8>, i: int) -> int
    decreases bytes.len() - i,
{
    if 0 <= i < bytes.len() && bytes[i] != 10 {
        line_feed_from(bytes, i + 1)
    } else {
        i
    }
}

/// The first line feed lies within the bytes, or at their end.
pub proof fn lemma_line_feed(bytes: Seq<u8>, i: int)
    requires
        0 <= i <= bytes.len(),
    ensures
        i <= line_feed_from(bytes, i) <= bytes.len(),
    decreases bytes.len() - i,
{
    if i < bytes.len() && bytes[i] != 10 {
        lemma_line_feed(bytes, i + 1);
    }
}

/// The bytes of the line that starts at `i`, without its line end: a carriage return
/// belongs to that only before a line feed.
pub open spec fn line_at(bytes: Seq<u8>, i: int) -> Seq<u8> {
    let end = line_feed_from(bytes, i);
    if end < bytes.len() && end > i && bytes[end - 1] == 13 {
        bytes.subrange(i, end - 1)
    } else {
        bytes.subrange(i, end)
    }
}

/// The matches so far, and whether there are as many as asked for.
pub struct FoundView {
    pub matches: Seq<MatchView>,
    pub full: bool,
}

/// Searching the lines of a file from byte `i` on, which is in line `number`. Lines that
/// are no UTF-8 are passed over.
pub open spec fn search_from(
    path: Seq<char>,
    bytes: Seq<u8>,
    request: SearchView,
    needle: Seq<char>,
    i: int,
    number: nat,
    matches: Seq<MatchView>,
) -> FoundView
    decreases bytes.len() + 1 - i,
{
    if i < 0 || i >= bytes.len() {
        FoundView { matches, full: false }
    } else {
        proof {
            lemma_line_feed(bytes, i);
        }
        let line = line_at(bytes, i);
        let next = line_feed_from(bytes, i) + 1;
        if valid_utf8(line) && text::contains_text(
            matched_form(decode_utf8(line), request.case_sensitive),
            needle,
        ) {
            let more = matches.push(MatchView { path, line: number, text: decode_utf8(line) });
            if more.len() == request.max_results {
                FoundView { matches: more, full: true }
            } else {
                search_from(path, bytes, request, needle, next, number + 1, more)
            }
        } else {
            search_from(path, bytes, request, needle, next, number + 1, matches)
        }
    }
}

/// Searching a file of `length` bytes, of which `bytes` were read.
pub open spec fn searched(
    path: Seq<char>,
    length: u64,
    bytes: Seq<u8>,
    request: SearchView,
    needle: Seq<char>,
    matches: Seq<MatchView>,
) -> FoundView {
    if length > MAX_SEARCH_FILE_BYTES {
        FoundView { matches, full: false }
    } else {
        search_from(path, bytes, request, needle, 0, 1, matches)
    }
}

/// Searches a file of `length` bytes, of which `bytes` were read, and says whether there
/// are now as many matches as asked for. A file that is too large is passed over.
pub fn search_file(
    path: &str,
    length: u64,
    bytes: &Vec<u8>,
    request: &SearchInput,
    needle: &str,
    matches: &mut Vec<SearchMatch>,
) -> (full: bool)
    requires
        bytes@.len() < usize::MAX,
    ensures
        (FoundView { matches: final(matches).deep_view(), full }) == searched(
            path@,
            length,
            bytes@,
            request.deep_view(),
            needle@,
            old(matches).deep_view(),
        ),
{
    if length > MAX_SEARCH_FILE_BYTES {
        return false;
    }
    let ghost start = matches.deep_view();
    let ghost asked = request.deep_view();
    let mut i: usize = 0;
    let mut number: usize = 1;
    while i < bytes.len()
        invariant
            i <= bytes@.len() + 1,
            1 <= number <= i + 1,
            bytes@.len() < usize::MAX,
            asked == request.deep_view(),
            start == old(matches).deep_view(),
            length <= MAX_SEARCH_FILE_BYTES,
            search_from(path@, bytes@, asked, needle@, 0, 1, start) == search_from(
                path@,
                bytes@,
                asked,
                needle@,
                i as int,
                number as nat,
                matches.deep_view(),
            ),
        decreases bytes@.len() + 1 - i,
    {
        let mut end: usize = i;
        while end < bytes.len() && bytes[end] != 10
            invariant
                i <= end <= bytes@.len(),
                line_feed_from(bytes@, i as int) == line_feed_from(bytes@, end as int),
            decreases bytes@.len() - end,
        {
            end += 1;
        }
        let stop: usize = if end < bytes.len() && end > i && bytes[end - 1] == 13 {
            end - 1
        } else {
            end
        };
        let line = vstd::slice::slice_subrange(bytes.as_slice(), i, stop);
        assert(line@ == line_at(bytes@, i as int));
        if let Some(content) = text::utf8_text(line) {
            let haystack = matchable(content.as_str(), request.case_sensitive);
            if text::contains(haystack.as_str(), needle) {
                let ghost before = matches.deep_view();
                let found = SearchMatch { path: path.to_owned(), line: number, text: content };
                let ghost view = found.deep_view();
                matches.push(found);
                assert(matches.deep_view() =~= before.push(view));
                if matches.len() == request.max_results {
                    return true;
                }
            }
        }
        i = end + 1;
        number += 1;
    }
    false
}

/// A file as a search takes it: its path, its length, and the bytes that were read.
pub struct FileView {
    pub path: Seq<char>,
    pub length: u64,
    pub bytes: Seq<u8>,
}

/// What one more file adds to a search: nothing, once there are as many matches as asked
/// for.
pub open spec fn search_step(request: SearchView, found: FoundView, file: FileView) -> FoundView {
    if found.full {
        found
    } else {
        searched(
            file.path,
            file.length,
            file.bytes,
            request,
            matched_form(request.query, request.case_sensitive),
            found.matches,
        )
    }
}

/// What a search of files, one after the other, finds.
pub open spec fn search_all(request: SearchView, files: Seq<FileView>) -> FoundView
    decreases files.len(),
{
    if files.len() == 0 {
        FoundView { matches: Seq::empty(), full: false }
    } else {
        search_step(request, search_all(request, files.drop_last()), files.last())
    }
}

/// A search under way.
pub struct Search {
    request: SearchInput,
    needle: String,
    matches: Vec<SearchMatch>,
    full: bool,
}

impl Search {
    /// What is asked for.
    pub closed spec fn asked(self) -> SearchView {
        self.request.deep_view()
    }

    /// What has been found.
    pub closed spec fn found(self) -> FoundView {
        FoundView { matches: self.matches.deep_view(), full: self.full }
    }

    /// The text that lines must hold is the query as it is matched.
    #[verifier::type_invariant]
    closed spec fn seeks_the_query(self) -> bool {
        self.needle@ == matched_form(self.request.query@, self.request.case_sensitive)
    }

    /// A search that has seen no file.
    pub fn new(request: SearchInput) -> (r: Search)
        ensures
            r.asked() == request.deep_view(),
            r.found() == search_all(request.deep_view(), Seq::empty()),
    {
        let needle = matchable(request.query.as_str(), request.case_sensitive);
        let matches: Vec<SearchMatch> = Vec::new();
        assert(matches.deep_view() =~= Seq::<MatchView>::empty());
        Search { request, needle, matches, full: false }
    }

    /// Whether there are as many matches as asked for, so that no other file matters.
    pub fn is_full(&self) -> (r: bool)
        ensures
            r == self.found().full,
    {
        self.full
    }

    /// Searches one more file of `length` bytes, of which `bytes` were read.
    pub fn add_file(self, path: &str, length: u64, bytes: &Vec<u8>) -> (r: Search)
        requires
            bytes@.len() < usize::MAX,
        ensures
            r.asked() == self.asked(),
            r.found() == search_step(
                self.asked(),
                self.found(),
                (FileView { path: path@, length, bytes: bytes@ }),
            ),
            forall|files: Seq<FileView>|
                self.found() == #[trigger] search_all(self.asked(), files) ==> r.found()
                    == search_all(
                    self.asked(),
                    files.push(FileView { path: path@, length, bytes: bytes@ }),
                ),
    {
        proof {
            use_type_invariant(&self);
            let file = FileView { path: path@, length, bytes: bytes@ };
            assert forall|files: Seq<FileView>|
                self.found() == #[trigger] search_all(self.asked(), files) implies search_step(
                self.asked(),
                self.found(),
                file,
            ) == search_all(self.asked(), files.push(file)) by {
                assert(files.push(file).drop_last() =~= files);
            }
        }
        if self.full {
            return self;
        }
        let Search { request, needle, mut matches, full: _ } = self;
        let full = search_file(path, length, bytes, &request, needle.as_str(), &mut matches);
        Search { request, needle, matches, full }
    }
}

/// A match as JSON.
pub open spec fn match_json(m: MatchView) -> JsonView {
    json::obj3(
        "path"@,
        JsonView::Text(m.path),
        "line"@,
        json::num(m.line),
        "text"@,
        JsonView::Text(m.text),
    )
}

/// What a search returns.
pub open spec fn search_output(
    request: SearchView,
    relative: Seq<char>,
    matches: Seq<MatchView>,
    truncated: bool,
) -> OutputView {
    OutputView {
        content: JsonView::Array(matches.map_values(|m: MatchView| match_json(m))),
        summary: "found "@ + text::decimal(matches.len()) + " matches for "@ + text::debug_view(
            request.query,
        ),
        observed_effects: seq!["fs.search:"@ + relative],
        succeeded: true,
        truncated,
    }
}

/// Performs deterministic bounded text search without invoking a shell.
pub struct SearchTool;

/// What `search` presents to a model.
pub open spec fn search_descriptor() -> DescriptorView {
    descriptor::descriptor_spec(
        "search"@,
        "Search a workspace-relative UTF-8 file or directory for a literal string and return cited matching lines."@,
        search_schema(),
        Capability::FileRead,
    )
}

impl SearchTool {
    /// What the tool presents to a model.
    pub fn descriptor(&self) -> (r: ToolDescriptor)
        ensures
            r.deep_view() == search_descriptor(),
    {
        let mut properties = JsonMap::new();
        properties.insert(
            "query",
            schema::described_json(schema::typed_json("string"), "Literal text to find."),
        );
        properties.insert(
            "path",
            schema::described_json(
                schema::nullable_json("string"),
                "Workspace-relative file or directory to search. Omit or use `.` for the root. Absolute paths are forbidden.",
            ),
        );
        properties.insert(
            "max_results",
            schema::defaulted_json(
                schema::described_json(
                    schema::count_json(),
                    "Maximum number of matching lines to return.",
                ),
                Json::count(DEFAULT_SEARCH_RESULTS),
            ),
        );
        properties.insert(
            "case_sensitive",
            schema::defaulted_json(
                schema::described_json(
                    schema::typed_json("boolean"),
                    "Whether matching preserves letter case.",
                ),
                Json::boolean(false),
            ),
        );
        let required = schema::and_name(schema::no_names(), "query");
        descriptor::descriptor(
            "search",
            "Search a workspace-relative UTF-8 file or directory for a literal string and return cited matching lines.",
            schema::document_json(
                schema::closed_object_json(properties, &required),
                "SearchInput",
            ),
            Capability::FileRead,
        )
    }

    /// Checks the request and requires the authority to read what it names.
    pub fn prepare(&self, context: &ToolContext, request: &SearchInput) -> (r: Result<
        String,
        ToolError,
    >)
        ensures
            outcome::of(r) == search_prepared(context.deep_view().policy, request.deep_view()),
    {
        proof {
            text::lemma_utf8_len_zero(request.query@);
        }
        if text::byte_len(request.query.as_str()) == 0 {
            return Err(ToolError::InvalidRange("query cannot be empty".to_owned()));
        }
        if request.max_results == 0 || request.max_results > 5000 {
            return Err(
                ToolError::InvalidRange("max_results must be between 1 and 5000".to_owned()),
            );
        }
        let relative = named_target(&request.path);
        match context.authorize(Capability::FileRead, relative.as_str(), "search") {
            Ok(()) => Ok(relative),
            Err(e) => Err(e),
        }
    }

    /// What the search returns once its files have been searched.
    pub fn execute(&self, search: &Search, relative: &str) -> (r: ToolOutput)
        ensures
            r.deep_view() == search_output(
                search.asked(),
                relative@,
                search.found().matches,
                search.found().full,
            ),
    {
        let matches = &search.matches;
        let mut items: Vec<Json> = Vec::new();
        let mut i: usize = 0;
        while i < matches.len()
            invariant
                i <= matches@.len(),
                items@.len() == i,
                forall|k: int|
                    0 <= k < i ==> (#[trigger] items@[k]).deep_view() == match_json(
                        matches@[k].deep_view(),
                    ),
            decreases matches@.len() - i,
        {
            let found = &matches[i];
            items.push(
                Json::object3(
                    "path",
                    Json::text(found.path.as_str()),
                    "line",
                    Json::count(found.line),
                    "text",
                    Json::text(found.text.as_str()),
                ),
            );
            i += 1;
        }
        assert(items.deep_view() =~= matches.deep_view().map_values(
            |m: MatchView| match_json(m),
        ));
        ToolOutput {
            content: Json::array(items),
            summary: text::concat4(
                "found ",
                text::decimal_of(matches.len()).as_str(),
                " matches for ",
                text::debug_text(search.request.query.as_str()).as_str(),
            ),
            observed_effects: one_effect("fs.search:", relative),
            succeeded: true,
            truncated: search.full,
        }
    }
}

proof fn lemma_search_from(
    path: Seq<char>,
    bytes: Seq<u8>,
    request: SearchView,
    needle: Seq<char>,
    i: int,
    number: nat,
    matches: Seq<MatchView>,
)
    requires
        0 <= i,
        matches.len() < request.max_results,
    ensures
        ({
            let r = search_from(path, bytes, request, needle, i, number, matches);
            &&& r.matches.len() <= request.max_results
            &&& r.full <==> r.matches.len() == request.max_results
            &&& matches.len() <= r.matches.len()
            &&& r.matches.take(matches.len() as int) == matches
            &&& forall|k: int|
                matches.len() <= k < r.matches.len() ==> {
                    let m = #[trigger] r.matches[k];
                    &&& m.path == path
                    &&& m.line >= number
                    &&& text::contains_text(matched_form(m.text, request.case_sensitive), needle)
                }
        }),
    decreases bytes.len() + 1 - i,
{
    if i >= bytes.len() {
        assert(matches.take(matches.len() as int) =~= matches);
    } else {
        lemma_line_feed(bytes, i);
        let line = line_at(bytes, i);
        let next = line_feed_from(bytes, i) + 1;
        let r = search_from(path, bytes, request, needle, i, number, matches);
        if valid_utf8(line) && text::contains_text(
            matched_form(decode_utf8(line), request.case_sensitive),
            needle,
        ) {
            let found = MatchView { path, line: number, text: decode_utf8(line) };
            let more = matches.push(found);
            if more.len() == request.max_results {
                assert(r.matches.take(matches.len() as int) =~= matches);
            } else {
                lemma_search_from(path, bytes, request, needle, next, number + 1, more);
                assert(r.matches.take(matches.len() as int) =~= r.matches.take(
                    more.len() as int,
                ).take(matches.len() as int));
                assert(more.take(matches.len() as int) =~= matches);
                assert(r.matches[matches.len() as int] == r.matches.take(more.len() as int)[
                    matches.len() as int
                ]);
            }
        } else {
            lemma_search_from(path, bytes, request, needle, next, number + 1, matches);
        }
    }
}

/// A search never returns more matches than asked for, says so when it stops there, keeps
/// what was found before, and every line that it adds is one of the file that holds the
/// text searched for.
pub proof fn law_searches_are_bounded(
    path: Seq<char>,
    length: u64,
    bytes: Seq<u8>,
    request: SearchView,
    needle: Seq<char>,
    matches: Seq<MatchView>,
)
    requires
        matches.len() < request.max_results,
    ensures
        ({
            let r = searched(path, length, bytes, request, needle, matches);
            &&& r.matches.len() <= request.max_results
            &&& r.full <==> r.matches.len() == request.max_results
            &&& matches.len() <= r.matches.len()
            &&& r.matches.take(matches.len() as int) == matches
            &&& forall|k: int|
                matches.len() <= k < r.matches.len() ==> {
                    let m = #[trigger] r.matches[k];
                    &&& m.path == path
                    &&& text::contains_text(matched_form(m.text, request.case_sensitive), needle)
                }
        }),
{
    if length > MAX_SEARCH_FILE_BYTES {
        assert(matches.take(matches.len() as int) =~= matches);
    } else {
        lemma_search_from(path, bytes, request, needle, 0, 1, matches);
    }
}

/// A search of any files, in order, returns no more matches than asked for, says that it
/// stopped exactly when there are that many, and each line that it returns holds the query
/// as it is matched and is of one of the files.
pub proof fn law_whole_searches_are_bounded(request: SearchView, files: Seq<FileView>)
    requires
        request.max_results > 0,
    ensures
        ({
            let r = search_all(request, files);
            &&& r.matches.len() <= request.max_results
            &&& r.full <==> r.matches.len() == request.max_results
            &&& forall|k: int|
                0 <= k < r.matches.len() ==> {
                    let m = #[trigger] r.matches[k];
                    &&& exists|f: int| 0 <= f < files.len() && (#[trigger] files[f]).path == m.path
                    &&& text::contains_text(
                        matched_form(m.text, request.case_sensitive),
                        matched_form(request.query, request.case_sensitive),
                    )
                }
        }),
    decreases files.len(),
{
    if files.len() > 0 {
        let before = files.drop_last();
        let file = files.last();
        let needle = matched_form(request.query, request.case_sensitive);
        law_whole_searches_are_bounded(request, before);
        let so_far = search_all(request, before);
        let r = search_all(request, files);
        if !so_far.full {
            law_searches_are_bounded(
                file.path,
                file.length,
                file.bytes,
                request,
                needle,
                so_far.matches,
            );
        }
        assert forall|k: int| 0 <= k < r.matches.len() implies {
            let m = #[trigger] r.matches[k];
            &&& exists|f: int| 0 <= f < files.len() && (#[trigger] files[f]).path == m.path
            &&& text::contains_text(matched_form(m.text, request.case_sensitive), needle)
        } by {
            if k < so_far.matches.len() {
                assert(r.matches.take(so_far.matches.len() as int)[k] == r.matches[k]
                    || so_far.full);
                assert(r.matches[k] == so_far.matches[k]);
                let f = choose|f: int|
                    0 <= f < before.len() && (#[trigger] before[f]).path == so_far.matches[k].path;
                assert(files[f] == before[f]);
            } else {
                assert(files[files.len() - 1].path == r.matches[k].path);
            }
        }
    }
}

} // verus!
