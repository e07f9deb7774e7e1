//! The tool that lists the files of the workspace.

use crate::json;
use crate::json::{Json, JsonMap, JsonView};
use crate::outcome;
use crate::text;
use crate::tools::descriptor;
use crate::tools::descriptor::{Capability, DescriptorView, OutputView, ToolDescriptor, ToolOutput};
use crate::tools::error::{ToolError, ToolFault};
use crate::tools::reading;
use crate::tools::reading::one_effect;
use crate::tools::registry;
use crate::tools::registry::ToolContext;
use crate::tools::schema;
use vstd::prelude::*;

verus! {

/// Number of paths listed where no number is given.
pub const DEFAULT_LIST_ENTRIES: usize = 500;

/// What `list_files` is asked for.
pub struct ListFilesInput {
    /// Workspace-relative directory. Omit or use `.` for the workspace root; never pass a file or absolute path.
    pub path: Option<String>,
    /// Maximum number of file paths to return.
    pub max_entries: usize,
}

/// A [`ListFilesInput`] by its text.
pub struct ListFilesView {
    pub path: Option<Seq<char>>,
    pub max_entries: usize,
}

impl DeepView for ListFilesInput {
    type V = ListFilesView;

    open spec fn deep_view(&self) -> ListFilesView {
        ListFilesView { path: self.path.deep_view(), max_entries: self.max_entries }
    }
}

/// The schema of [`ListFilesInput`].
pub open spec fn list_files_schema() -> JsonView {
    schema::document(
        schema::closed_object(
            Map::<Seq<char>, JsonView>::empty().insert(
                "path"@,
                schema::described(
                    schema::nullable("string"@),
                    "Workspace-relative directory. Omit or use `.` for the workspace root; never pass a file or absolute path."@,
                ),
            ).insert(
                "max_entries"@,
                schema::defaulted(
                    schema::described(
                        schema::count_spec(),
                        "Maximum number of file paths to return."@,
                    ),
                    json::num(DEFAULT_LIST_ENTRIES as nat),
                ),
            ),
            Seq::empty(),
        ),
        "ListFilesInput"@,
    )
}

/// The directory that a request names: the workspace root where it names none.
pub open spec fn target(path: Option<Seq<char>>) -> Seq<char> {
    match path {
        Some(p) => p,
        None => "."@,
    }
}

/// The directory or file that a request names: the workspace root where it names none.
pub fn named_target(path: &Option<String>) -> (r: String)
    ensures
        r@ == target(path.deep_view()),
{
    match path {
        Some(p) => p.clone(),
        None => ".".to_owned(),
    }
}

/// Whether a listing may be made, and of what.
pub open spec fn list_prepared(
    policy: crate::tools::policy::PermissionView,
    request: ListFilesView,
) -> Result<Seq<char>, ToolFault> {
    if request.max_entries == 0 || request.max_entries > 10000 {
        Err(ToolFault::InvalidRange("max_entries must be between 1 and 10000"@))
    } else {
        match registry::authorized(
            policy,
            Capability::FileRead,
            target(request.path),
            "list_files"@,
        ) {
            Ok(()) => Ok(target(request.path)),
            Err(e) => Err(e),
        }
    }
}

/// The refusal of what is no directory.
pub open spec fn directory_fault(relative: Seq<char>) -> ToolFault {
    ToolFault::InvalidRange(
        "path "@ + text::debug_view(relative)
            + " must name a workspace-relative directory; omit it or use `.` for the workspace root"@,
    )
}

/// Refuses what is no directory.
pub fn check_directory(relative: &str, is_directory: bool) -> (r: Result<(), ToolError>)
    ensures
        outcome::of(r) == (if is_directory {
            Ok(())
        } else {
            Err(directory_fault(relative@))
        }),
{
    if !is_directory {
        return Err(
            ToolError::InvalidRange(
                text::concat3(
                    "path ",
                    text::debug_text(relative).as_str(),
                    " must name a workspace-relative directory; omit it or use `.` for the workspace root",
                ),
            ),
        );
    }
    Ok(())
}

/// Whether paths stand in their order, each once.
pub open spec fn in_order(paths: Seq<Seq<char>>) -> bool {
    forall|i: int, j: int|
        0 <= i < j < paths.len() ==> text::precedes(#[trigger] paths[i], #[trigger] paths[j])
}

/// The place of `path` among ordered paths: how many come before it.
pub open spec fn place(paths: Seq<Seq<char>>, path: Seq<char>) -> int
    decreases paths.len(),
{
    if paths.len() == 0 {
        0
    } else if text::precedes(paths.last(), path) {
        paths.len() as int
    } else {
        place(paths.drop_last(), path)
    }
}

/// The paths listed so far, and whether any was left out.
pub struct ListingView {
    pub files: Seq<Seq<char>>,
    pub truncated: bool,
}

/// A listing with one more path found: the paths stay in order, and of more than `max`
/// the last one leaves.
pub open spec fn with_path(listing: ListingView, max: nat, path: Seq<char>) -> ListingView {
    if listing.files.contains(path) {
        listing
    } else {
        let files = listing.files.insert(place(listing.files, path), path);
        if files.len() > max {
            ListingView { files: files.drop_last(), truncated: true }
        } else {
            ListingView { files, truncated: listing.truncated }
        }
    }
}

/// The listing of the first `count` paths found.
pub open spec fn listing_of(found: Seq<Seq<char>>, max: nat, count: int) -> ListingView
    decreases count,
{
    if count <= 0 {
        ListingView { files: Seq::empty(), truncated: false }
    } else {
        with_path(listing_of(found, max, count - 1), max, found[count - 1])
    }
}

proof fn lemma_place(paths: Seq<Seq<char>>, path: Seq<char>)
    requires
        in_order(paths),
    ensures
        0 <= place(paths, path) <= paths.len(),
        forall|i: int| 0 <= i < place(paths, path) ==> text::precedes(#[trigger] paths[i], path),
        forall|i: int|
            place(paths, path) <= i < paths.len() ==> !text::precedes(#[trigger] paths[i], path),
    decreases paths.len(),
{
    if paths.len() > 0 {
        if text::precedes(paths.last(), path) {
            assert forall|i: int| 0 <= i < paths.len() implies text::precedes(
                #[trigger] paths[i],
                path,
            ) by {
                if i < paths.len() - 1 {
                    assert(text::precedes(paths[i], paths[paths.len() - 1]));
                    text::lemma_precedes_transitive(paths[i], paths.last(), path);
                }
            }
        } else {
            let rest = paths.drop_last();
            assert(in_order(rest)) by {
                assert forall|i: int, j: int| 0 <= i < j < rest.len() implies text::precedes(
                    #[trigger] rest[i],
                    #[trigger] rest[j],
                ) by {
                    assert(text::precedes(paths[i], paths[j]));
                }
            }
            lemma_place(rest, path);
            assert forall|i: int| 0 <= i < place(paths, path) implies text::precedes(
                #[trigger] paths[i],
                path,
            ) by {
                assert(rest[i] == paths[i]);
            }
            assert forall|i: int| place(paths, path) <= i < paths.len() implies !text::precedes(
                #[trigger] paths[i],
                path,
            ) by {
                if i < rest.len() {
                    assert(rest[i] == paths[i]);
                }
            }
        }
    }
}

proof fn lemma_inserted_in_order(paths: Seq<Seq<char>>, path: Seq<char>)
    requires
        in_order(paths),
        !paths.contains(path),
    ensures
        in_order(paths.insert(place(paths, path), path)),
{
    lemma_place(paths, path);
    let at = place(paths, path);
    let next = paths.insert(at, path);
    assert forall|i: int, j: int| 0 <= i < j < next.len() implies text::precedes(
        #[trigger] next[i],
        #[trigger] next[j],
    ) by {
        if i < at && j > at {
            assert(text::precedes(paths[i], paths[j - 1]));
        } else if i < at && j < at {
            assert(text::precedes(paths[i], paths[j]));
        } else if i == at {
            assert(paths.contains(paths[j - 1]));
            text::lemma_precedes_total(paths[j - 1], path);
        } else if i > at {
            assert(text::precedes(paths[i - 1], paths[j - 1]));
        }
    }
}

/// A listing holds paths in their order, each once and at most as many as asked for. It
/// holds every path found unless it is marked as truncated; then it is full, and every
/// path left out comes after every path that it holds.
pub proof fn law_listings_hold_the_first_paths(found: Seq<Seq<char>>, max: nat, count: int)
    requires
        0 <= count <= found.len(),
        max > 0,
    ensures
        ({
            let listing = listing_of(found, max, count);
            &&& in_order(listing.files)
            &&& listing.files.len() <= max
            &&& forall|i: int|
                0 <= i < listing.files.len() ==> found.take(count).contains(
                    #[trigger] listing.files[i],
                )
            &&& !listing.truncated ==> forall|i: int|
                0 <= i < count ==> listing.files.contains(#[trigger] found[i])
            &&& listing.truncated ==> listing.files.len() == max
            &&& forall|i: int, k: int|
                0 <= i < count && 0 <= k < listing.files.len() && !listing.files.contains(
                    #[trigger] found[i],
                ) ==> text::precedes(#[trigger] listing.files[k], found[i])
        }),
    decreases count,
{
    if count > 0 {
        law_listings_hold_the_first_paths(found, max, count - 1);
        let before = listing_of(found, max, count - 1);
        let now = listing_of(found, max, count);
        let path = found[count - 1];
        let seen = found.take(count);
        assert(seen.drop_last() =~= found.take(count - 1));
        assert(seen[count - 1] == path);
        assert forall|q: Seq<char>| found.take(count - 1).contains(q) implies seen.contains(q) by {
            let earlier = found.take(count - 1);
            let k = choose|k: int| 0 <= k < earlier.len() && earlier[k] == q;
            assert(seen[k] == q);
        }
        if before.files.contains(path) {
            assert(now == before);
        } else {
            lemma_place(before.files, path);
            lemma_inserted_in_order(before.files, path);
            let at = place(before.files, path);
            let files = before.files.insert(at, path);
            assert(files[at] == path);
            assert forall|i: int| 0 <= i < files.len() implies seen.contains(
                #[trigger] files[i],
            ) by {
                if i < at {
                    assert(files[i] == before.files[i]);
                } else if i > at {
                    assert(files[i] == before.files[i - 1]);
                }
            }
            assert forall|q: Seq<char>| before.files.contains(q) || q == path implies
                files.contains(q) by {
                if q != path {
                    let k = choose|k: int| 0 <= k < before.files.len() && before.files[k] == q;
                    if k < at {
                        assert(files[k] == q);
                    } else {
                        assert(files[k + 1] == q);
                    }
                }
            }
            assert forall|i: int| 0 <= i < now.files.len() implies now.files[i] == files[i] by {}
            if files.len() <= max {
                assert(!before.truncated);
                assert forall|i: int| 0 <= i < count implies now.files.contains(
                    #[trigger] found[i],
                ) by {
                    if i < count - 1 {
                        assert(before.files.contains(found[i]));
                    }
                }
            } else {
                assert forall|i: int, j: int| 0 <= i < j < now.files.len() implies text::precedes(
                    #[trigger] now.files[i],
                    #[trigger] now.files[j],
                ) by {
                    assert(text::precedes(files[i], files[j]));
                }
                assert forall|i: int, k: int|
                    0 <= i < count && 0 <= k < now.files.len() && !now.files.contains(
                        #[trigger] found[i],
                    ) implies text::precedes(#[trigger] now.files[k], found[i]) by {
                    let q = found[i];
                    if files.contains(q) {
                        let at_q = choose|j: int| 0 <= j < files.len() && files[j] == q;
                        if at_q < now.files.len() {
                            assert(now.files[at_q] == q);
                        }
                        assert(text::precedes(files[k], files[files.len() - 1]));
                    } else {
                        assert(q != path && !before.files.contains(q));
                        if k < at {
                            assert(text::precedes(before.files[k], q));
                        } else if k > at {
                            assert(text::precedes(before.files[k - 1], q));
                        } else {
                            assert(text::precedes(before.files[at], q));
                            assert(before.files.contains(before.files[at]));
                            text::lemma_precedes_total(path, before.files[at]);
                            text::lemma_precedes_transitive(path, before.files[at], q);
                        }
                    }
                }
            }
        }
    }
}

/// The rank of a path among those worth reading first.
pub open spec fn anchor_rank(path: Seq<char>) -> Option<u8> {
    let name = text::split_char(path, '/').last();
    if named_readme(name) {
        Some(0)
    } else if named_manifest(name) {
        Some(1)
    } else if is_entry_point(path) {
        Some(2)
    } else {
        None
    }
}

/// Whether a file name is that of a readme, in any case.
pub open spec fn named_readme(name: Seq<char>) -> bool {
    ||| text::same_ignoring_case_spec(name, "readme"@)
    ||| text::same_ignoring_case_spec(name, "readme.md"@)
    ||| text::same_ignoring_case_spec(name, "readme.mdx"@)
    ||| text::same_ignoring_case_spec(name, "readme.rst"@)
    ||| text::same_ignoring_case_spec(name, "readme.txt"@)
}

/// Whether a file name is that of a project manifest, in any case.
pub open spec fn named_manifest(name: Seq<char>) -> bool {
    ||| text::same_ignoring_case_spec(name, "cargo.toml"@)
    ||| text::same_ignoring_case_spec(name, "package.json"@)
    ||| text::same_ignoring_case_spec(name, "pyproject.toml"@)
    ||| text::same_ignoring_case_spec(name, "go.mod"@)
    ||| text::same_ignoring_case_spec(name, "pom.xml"@)
    ||| text::same_ignoring_case_spec(name, "build.gradle"@)
    ||| text::same_ignoring_case_spec(name, "build.gradle.kts"@)
    ||| text::same_ignoring_case_spec(name, "mix.exs"@)
    ||| text::same_ignoring_case_spec(name, "composer.json"@)
}

/// Whether a path is that of a usual entry point, in any case.
pub open spec fn is_entry_point(path: Seq<char>) -> bool {
    ||| text::same_ignoring_case_spec(path, "src/main.rs"@)
    ||| text::same_ignoring_case_spec(path, "src/lib.rs"@)
    ||| text::same_ignoring_case_spec(path, "main.py"@)
    ||| text::same_ignoring_case_spec(path, "app.py"@)
    ||| text::same_ignoring_case_spec(path, "src/index.ts"@)
    ||| text::same_ignoring_case_spec(path, "src/index.js"@)
    ||| text::same_ignoring_case_spec(path, "cmd/main.go"@)
}

/// The rank of a path among those worth reading first.
pub fn project_anchor_rank(path: &str) -> (r: Option<u8>)
    ensures
        r == anchor_rank(path@),
{
    let pieces = text::split(path, '/');
    proof {
        text::lemma_split_nonempty(path@, text::is_char('/'));
        assert(text::views(pieces@).len() == pieces@.len());
        assert(text::views(pieces@).last() == pieces@[pieces@.len() - 1]@);
    }
    let name = pieces[pieces.len() - 1].as_str();
    if text::same_ignoring_case(name, "readme") || text::same_ignoring_case(name, "readme.md")
        || text::same_ignoring_case(name, "readme.mdx") || text::same_ignoring_case(
        name,
        "readme.rst",
    ) || text::same_ignoring_case(name, "readme.txt") {
        return Some(0);
    }
    if text::same_ignoring_case(name, "cargo.toml") || text::same_ignoring_case(
        name,
        "package.json",
    ) || text::same_ignoring_case(name, "pyproject.toml") || text::same_ignoring_case(
        name,
        "go.mod",
    ) || text::same_ignoring_case(name, "pom.xml") || text::same_ignoring_case(
        name,
        "build.gradle",
    ) || text::same_ignoring_case(name, "build.gradle.kts") || text::same_ignoring_case(
        name,
        "mix.exs",
    ) || text::same_ignoring_case(name, "composer.json") {
        return Some(1);
    }
    if text::same_ignoring_case(path, "src/main.rs") || text::same_ignoring_case(
        path,
        "src/lib.rs",
    ) || text::same_ignoring_case(path, "main.py") || text::same_ignoring_case(path, "app.py")
        || text::same_ignoring_case(path, "src/index.ts") || text::same_ignoring_case(
        path,
        "src/index.js",
    ) || text::same_ignoring_case(path, "cmd/main.go") {
        return Some(2);
    }
    None
}

/// The paths of one rank among the first `count`, in their order.
pub open spec fn ranked(files: Seq<Seq<char>>, rank: u8, count: int) -> Seq<Seq<char>>
    decreases count,
{
    if count <= 0 {
        Seq::empty()
    } else if anchor_rank(files[count - 1]) == Some(rank) {
        ranked(files, rank, count - 1).push(files[count - 1])
    } else {
        ranked(files, rank, count - 1)
    }
}

/// The paths worth reading first: by rank, within a rank in their order, at most eight.
pub open spec fn suggested(files: Seq<Seq<char>>) -> Seq<Seq<char>> {
    let n = files.len() as int;
    let all = ranked(files, 0, n) + ranked(files, 1, n) + ranked(files, 2, n);
    if all.len() <= 8 {
        all
    } else {
        all.take(8)
    }
}

fn push_ranked(files: &Vec<String>, rank: u8, out: &mut Vec<String>)
    ensures
        text::views(final(out)@) == text::views(old(out)@) + ranked(
            text::views(files@),
            rank,
            files@.len() as int,
        ),
{
    let ghost views = text::views(files@);
    let ghost start = text::views(out@);
    let mut i: usize = 0;
    assert(start + ranked(views, rank, 0) =~= start);
    while i < files.len()
        invariant
            i <= files@.len(),
            views == text::views(files@),
            text::views(out@) == start + ranked(views, rank, i as int),
        decreases files@.len() - i,
    {
        assert(views[i as int] == files@[i as int]@);
        if project_anchor_rank(files[i].as_str()) == Some(rank) {
            let ghost before = text::views(out@);
            out.push(files[i].clone());
            assert(text::views(out@) =~= before.push(views[i as int]));
            assert(start + ranked(views, rank, i as int).push(views[i as int]) =~= (start + ranked(
                views,
                rank,
                i as int,
            )).push(views[i as int]));
        }
        i += 1;
    }
}

/// The paths worth reading first.
pub fn suggested_reads(files: &Vec<String>) -> (r: Vec<String>)
    ensures
        text::views(r@) == suggested(text::views(files@)),
{
    let ghost views = text::views(files@);
    let ghost n = files@.len() as int;
    let mut all: Vec<String> = Vec::new();
    assert(text::views(all@) =~= Seq::<Seq<char>>::empty());
    push_ranked(files, 0, &mut all);
    assert(text::views(all@) =~= ranked(views, 0, n));
    push_ranked(files, 1, &mut all);
    push_ranked(files, 2, &mut all);
    let ghost everything = text::views(all@);
    if all.len() > 8 {
        all.truncate(8);
        assert(text::views(all@) =~= everything.take(8));
    }
    all
}

/// Files in stable lexical order, of which at most a given number is held at a time.
pub struct FileListing {
    files: Vec<String>,
    max_entries: usize,
    truncated: bool,
}

impl DeepView for FileListing {
    type V = ListingView;

    closed spec fn deep_view(&self) -> ListingView {
        ListingView { files: text::views(self.files@), truncated: self.truncated }
    }
}

impl FileListing {
    /// The number of paths that are held.
    pub closed spec fn max_spec(&self) -> nat {
        self.max_entries as nat
    }

    /// Whether the paths stand in order and are not too many.
    pub closed spec fn wf(&self) -> bool {
        in_order(text::views(self.files@)) && self.files@.len() <= self.max_entries
            && self.max_entries < usize::MAX
    }

    /// A listing without paths.
    pub fn new(max_entries: usize) -> (r: FileListing)
        requires
            max_entries < usize::MAX,
        ensures
            r.wf(),
            r.max_spec() == max_entries,
            r.deep_view() == listing_of(Seq::empty(), max_entries as nat, 0),
    {
        let r = FileListing { files: Vec::new(), max_entries, truncated: false };
        assert(text::views(r.files@) =~= Seq::<Seq<char>>::empty());
        r
    }

    /// Takes note of a path that was found.
    pub fn add_path(&mut self, path: String)
        requires
            old(self).wf(),
        ensures
            final(self).wf(),
            final(self).max_spec() == old(self).max_spec(),
            final(self).deep_view() == with_path(
                old(self).deep_view(),
                old(self).max_spec(),
                path@,
            ),
    {
        let ghost views = text::views(self.files@);
        let mut at: usize = self.files.len();
        assert(views.take(at as int) =~= views);
        while at > 0 && text::comes_before(path.as_str(), self.files[at - 1].as_str())
            invariant
                *self == *old(self),
                views == text::views(self.files@),
                in_order(views),
                at <= self.files@.len(),
                place(views, path@) == place(views.take(at as int), path@),
                forall|i: int|
                    at <= i < views.len() ==> text::precedes(path@, #[trigger] views[i]),
            decreases at,
        {
            proof {
                assert(views[at - 1] == self.files@[at - 1]@);
                assert(views.take(at as int).drop_last() =~= views.take(at - 1));
                if text::precedes(views[at - 1], path@) {
                    text::lemma_precedes_transitive(path@, views[at - 1], path@);
                    text::lemma_precedes_irreflexive(path@);
                }
            }
            at -= 1;
        }
        if at > 0 && text::same(self.files[at - 1].as_str(), path.as_str()) {
            assert(views[at - 1] == path@);
            return;
        }
        proof {
            if at > 0 {
                assert(views[at - 1] == self.files@[at - 1]@);
                assert(views.take(at as int).last() == views[at - 1]);
                text::lemma_precedes_total(views[at - 1], path@);
            }
            assert(place(views, path@) == at);
            lemma_place(views, path@);
            assert(!views.contains(path@)) by {
                if views.contains(path@) {
                    let k = choose|k: int| 0 <= k < views.len() && views[k] == path@;
                    text::lemma_precedes_irreflexive(path@);
                    if k >= at {
                        assert(text::precedes(path@, views[k]));
                    } else {
                        assert(text::precedes(views[k], path@));
                    }
                }
            }
            lemma_inserted_in_order(views, path@);
        }
        let ghost inserted = views.insert(at as int, path@);
        self.files.insert(at, path);
        assert(text::views(self.files@) =~= inserted);
        if self.files.len() > self.max_entries {
            self.files.pop();
            self.truncated = true;
            assert(text::views(self.files@) =~= inserted.drop_last());
            assert(in_order(inserted.drop_last())) by {
                assert forall|i: int, j: int|
                    0 <= i < j < inserted.drop_last().len() implies text::precedes(
                    #[trigger] inserted.drop_last()[i],
                    #[trigger] inserted.drop_last()[j],
                ) by {
                    assert(text::precedes(inserted[i], inserted[j]));
                }
            }
        }
    }
}

/// What a listing returns.
pub open spec fn list_output(relative: Seq<char>, listing: ListingView) -> OutputView {
    OutputView {
        content: json::obj3(
            "files"@,
            schema::names(listing.files),
            "suggested_reads"@,
            schema::names(suggested(listing.files)),
            "guidance"@,
            JsonView::Text(
                "Do not repeat this identical listing. Use read_many_files for suggested or task-relevant files, or answer from evidence already collected."@,
            ),
        ),
        summary: "listed "@ + text::decimal(listing.files.len()) + " files below "@ + relative,
        observed_effects: seq!["fs.list:"@ + relative],
        succeeded: true,
        truncated: listing.truncated,
    }
}

/// Lists files in stable lexical order.
pub struct ListFilesTool;

/// What `list_files` presents to a model.
pub open spec fn list_files_descriptor() -> DescriptorView {
    descriptor::descriptor_spec(
        "list_files"@,
        "List non-ignored regular files below a workspace-relative directory. Call once per directory, then read suggested or relevant files; repeating the same listing returns no new evidence."@,
        list_files_schema(),
        Capability::FileRead,
    )
}

impl ListFilesTool {
    /// What the tool presents to a model.
    pub fn descriptor(&self) -> (r: ToolDescriptor)
        ensures
            r.deep_view() == list_files_descriptor(),
    {
        let mut properties = JsonMap::new();
        properties.insert(
            "path",
            schema::described_json(
                schema::nullable_json("string"),
                "Workspace-relative directory. Omit or use `.` for the workspace root; never pass a file or absolute path.",
            ),
        );
        properties.insert(
            "max_entries",
            schema::defaulted_json(
                schema::described_json(
                    schema::count_json(),
                    "Maximum number of file paths to return.",
                ),
                Json::count(DEFAULT_LIST_ENTRIES),
            ),
        );
        descriptor::descriptor(
            "list_files",
            "List non-ignored regular files below a workspace-relative directory. Call once per directory, then read suggested or relevant files; repeating the same listing returns no new evidence.",
            schema::document_json(
                schema::closed_object_json(properties, &schema::no_names()),
                "ListFilesInput",
            ),
            Capability::FileRead,
        )
    }

    /// Checks the request and requires the authority to read the directory that it names.
    pub fn prepare(&self, context: &ToolContext, request: &ListFilesInput) -> (r: Result<
        String,
        ToolError,
    >)
        ensures
            outcome::of(r) == list_prepared(context.deep_view().policy, request.deep_view()),
    {
        if request.max_entries == 0 || request.max_entries > 10000 {
            return Err(
                ToolError::InvalidRange("max_entries must be between 1 and 10000".to_owned()),
            );
        }
        let relative = named_target(&request.path);
        match context.authorize(Capability::FileRead, relative.as_str(), "list_files") {
            Ok(()) => Ok(relative),
            Err(e) => Err(e),
        }
    }

    /// What the listing of the directory `relative` returns.
    pub fn execute(&self, relative: &str, listing: &FileListing) -> (r: ToolOutput)
        ensures
            r.deep_view() == list_output(relative@, listing.deep_view()),
    {
        let suggestions = suggested_reads(&listing.files);
        proof {
            assert(text::views(listing.files@).len() == listing.files@.len());
        }
        ToolOutput {
            content: Json::object3(
                "files",
                schema::texts_json(&listing.files),
                "suggested_reads",
                schema::texts_json(&suggestions),
                "guidance",
                Json::text(
                    "Do not repeat this identical listing. Use read_many_files for suggested or task-relevant files, or answer from evidence already collected.",
                ),
            ),
            summary: text::concat4(
                "listed ",
                text::decimal_of(listing.files.len()).as_str(),
                " files below ",
                relative,
            ),
            observed_effects: one_effect("fs.list:", relative),
            succeeded: true,
            truncated: listing.truncated,
        }
    }
}

} // verus!
