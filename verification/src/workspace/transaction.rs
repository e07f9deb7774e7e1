//! Isolated copies of a source workspace.

use crate::digest;
use crate::outcome;
use crate::text;
use crate::workspace::apply::{ApplyAction, ApplyMachine, ChangeFingerprint, MarkView};
use crate::workspace::apply;
use crate::workspace::apply_laws;
use crate::workspace::changes;
use crate::workspace::changes::{ChangeView, FileChange};
use crate::workspace::error::{TransactionError, TransactionFault};
use crate::workspace::manifest;
use crate::workspace::manifest::{
    EntryKind, FileTable, Listing, ManifestView, PrintView, WorkspaceManifest,
};
use crate::workspace::path;
use crate::workspace::path::SafeRelativePath;
use vstd::prelude::*;

verus! {

/// Current schema for isolated workspace transaction metadata.
pub const TRANSACTION_SCHEMA_VERSION: u32 = 1;

/// Oldest transaction metadata schema that can be reopened.
pub const MIN_TRANSACTION_SCHEMA_VERSION: u32 = 1;

/// Largest transaction metadata, in bytes.
pub const MAX_TRANSACTION_METADATA_BYTES: u64 = 67108864;

/// What is stored about a transaction.
#[derive(Debug)]
pub struct TransactionMetadata {
    pub schema_version: u32,
    pub source_root: String,
    pub allowed_write_paths: Vec<String>,
    pub baseline: WorkspaceManifest,
}

/// A [`TransactionMetadata`] by its texts and its listing.
pub struct MetadataView {
    pub schema_version: u32,
    pub source_root: Seq<char>,
    pub allowed_write_paths: Seq<Seq<char>>,
    pub baseline: ManifestView,
}

impl DeepView for TransactionMetadata {
    type V = MetadataView;

    open spec fn deep_view(&self) -> MetadataView {
        MetadataView {
            schema_version: self.schema_version,
            source_root: self.source_root@,
            allowed_write_paths: self.allowed_write_paths.deep_view(),
            baseline: self.baseline.deep_view(),
        }
    }
}

/// Isolated copy of a source workspace with a durable baseline manifest.
#[derive(Debug)]
pub struct WorkspaceTransaction {
    control_root: String,
    metadata: TransactionMetadata,
}

/// A [`WorkspaceTransaction`] by its texts and its listing.
pub struct TransactionView {
    pub control_root: Seq<char>,
    pub metadata: MetadataView,
}

impl DeepView for WorkspaceTransaction {
    type V = TransactionView;

    closed spec fn deep_view(&self) -> TransactionView {
        TransactionView {
            control_root: self.control_root@,
            metadata: self.metadata.deep_view(),
        }
    }
}

/// Whether the scopes from scope `i` on are refused.
pub open spec fn scopes_from(scopes: Seq<Seq<char>>, i: int) -> Result<(), TransactionFault>
    decreases scopes.len() - i,
{
    if i < 0 || i >= scopes.len() {
        Ok(())
    } else if scopes[i] == "."@ {
        scopes_from(scopes, i + 1)
    } else {
        match path::path_spec(scopes[i]) {
            Err(e) => Err(TransactionFault::Path(e)),
            Ok(_) => scopes_from(scopes, i + 1),
        }
    }
}

/// Whether write scopes are refused: there must be some, and each must be the whole
/// workspace or a safe path.
pub open spec fn scopes_spec(scopes: Seq<Seq<char>>) -> Result<(), TransactionFault> {
    if scopes.len() == 0 {
        Err(TransactionFault::EmptyWriteScope)
    } else {
        scopes_from(scopes, 0)
    }
}

/// Checks write scopes.
pub fn check_scopes(scopes: &Vec<String>) -> (r: Result<(), TransactionError>)
    ensures
        outcome::of(r) == scopes_spec(scopes.deep_view()),
{
    let ghost all = scopes.deep_view();
    assert(all.len() == scopes@.len());
    if scopes.len() == 0 {
        return Err(TransactionError::EmptyWriteScope);
    }
    let mut i: usize = 0;
    while i < scopes.len()
        invariant
            i <= scopes@.len(),
            all == scopes.deep_view(),
            all.len() == scopes@.len(),
            all.len() > 0,
            scopes_from(all, 0) == scopes_from(all, i as int),
        decreases scopes@.len() - i,
    {
        assert(all[i as int] == scopes@[i as int]@);
        if !text::same(scopes[i].as_str(), ".") {
            match SafeRelativePath::new(scopes[i].as_str()) {
                Ok(_) => {},
                Err(e) => {
                    return Err(TransactionError::Path(e));
                },
            }
        }
        i += 1;
    }
    Ok(())
}

/// Whether a write scope covers a path.
pub open spec fn scope_covers(scope: Seq<char>, parts: Seq<Seq<char>>) -> bool {
    scope == "."@ || match path::path_spec(scope) {
        Ok(s) => path::lies_below(parts, s),
        Err(_) => false,
    }
}

/// Whether some write scope covers a path.
pub open spec fn may_write(scopes: Seq<Seq<char>>, parts: Seq<Seq<char>>) -> bool {
    exists|i: int| 0 <= i < scopes.len() && scope_covers(#[trigger] scopes[i], parts)
}

/// Where a relative path lies below a root.
pub open spec fn below(root: Seq<char>, parts: Seq<Seq<char>>) -> Seq<char> {
    text::below_spec(root, path::portable_spec(parts))
}

/// The root that models and tools see.
pub open spec fn workspace_root_of(control_root: Seq<char>) -> Seq<char> {
    text::below_spec(control_root, "workspace"@)
}

/// Where a path is read, or why it is not.
pub open spec fn read_spec(t: TransactionView, relative: Seq<char>) -> Result<
    Seq<char>,
    TransactionFault,
> {
    match path::path_spec(relative) {
        Err(e) => Err(TransactionFault::Path(e)),
        Ok(parts) => Ok(below(workspace_root_of(t.control_root), parts)),
    }
}

/// Where a path is written, or why it is not.
pub open spec fn write_spec(t: TransactionView, relative: Seq<char>) -> Result<
    Seq<char>,
    TransactionFault,
> {
    match path::path_spec(relative) {
        Err(e) => Err(TransactionFault::Path(e)),
        Ok(parts) => if may_write(t.metadata.allowed_write_paths, parts) {
            Ok(below(workspace_root_of(t.control_root), parts))
        } else {
            Err(TransactionFault::WriteOutsideScope(path::portable_spec(parts)))
        },
    }
}

/// Whether the copy of a source, and the source after the copy, match the baseline.
pub open spec fn snapshot_spec(
    baseline: ManifestView,
    copied: ManifestView,
    source_after: ManifestView,
) -> Result<(), TransactionFault> {
    if copied != baseline {
        Err(
            TransactionFault::SnapshotCopyMismatch {
                expected: baseline.digest,
                actual: copied.digest,
            },
        )
    } else if source_after != baseline {
        Err(
            TransactionFault::SourceChangedDuringSnapshot {
                expected: baseline.digest,
                actual: source_after.digest,
            },
        )
    } else {
        Ok(())
    }
}

/// Whether the listing of a baseline is refused from entry `i` on.
pub open spec fn entries_from(files: Listing, i: int) -> Result<(), TransactionFault>
    decreases files.len() - i,
{
    if i < 0 || i >= files.len() {
        Ok(())
    } else {
        match path::path_spec(files[i].0) {
            Err(e) => Err(TransactionFault::Path(e)),
            Ok(parts) => if path::portable_spec(parts) != files[i].0 || !digest::is_digest(
                files[i].1.digest,
            ) {
                Err(
                    TransactionFault::Invariant(
                        "transaction baseline entry "@ + text::debug_view(files[i].0)
                            + " is malformed"@,
                    ),
                )
            } else {
                entries_from(files, i + 1)
            },
        }
    }
}

/// Whether stored metadata is refused. Given are whether its source root is absolute
/// and the digest of its listing.
pub open spec fn metadata_spec(m: MetadataView, absolute: bool, listing_digest: Seq<char>) -> Result<
    (),
    TransactionFault,
> {
    match scopes_spec(m.allowed_write_paths) {
        Err(e) => Err(e),
        Ok(_) => if !absolute {
            Err(TransactionFault::Invariant("transaction source root is not absolute"@))
        } else {
            match entries_from(m.baseline.files, 0) {
                Err(e) => Err(e),
                Ok(_) => if m.baseline.digest != listing_digest {
                    Err(
                        TransactionFault::Invariant(
                            "transaction baseline manifest digest is invalid"@,
                        ),
                    )
                } else {
                    Ok(())
                },
            }
        },
    }
}

/// Whether the entries of a baseline's listing are well formed.
fn check_entries(files: &FileTable) -> (r: Result<(), TransactionError>)
    ensures
        outcome::of(r) == entries_from(files.deep_view(), 0),
{
    let ghost all = files.deep_view();
    let mut i: usize = 0;
    while i < files.len()
        invariant
            i <= all.len(),
            all == files.deep_view(),
            entries_from(all, 0) == entries_from(all, i as int),
        decreases all.len() - i,
    {
        let entry = files.path_at(i);
        let safe = match SafeRelativePath::new(entry) {
            Ok(safe) => safe,
            Err(e) => {
                return Err(TransactionError::Path(e));
            },
        };
        if !text::same(safe.portable().as_str(), entry) || !digest::has_digest_form(
            files.print_at(i).digest.as_str(),
        ) {
            return Err(
                TransactionError::Invariant(
                    text::concat3(
                        "transaction baseline entry ",
                        text::debug_text(entry).as_str(),
                        " is malformed",
                    ),
                ),
            );
        }
        i += 1;
    }
    Ok(())
}

/// Checks stored metadata, given the digest of its listing.
pub fn check_metadata(metadata: &TransactionMetadata, absolute: bool, listing_digest: &str) -> (r:
    Result<(), TransactionError>)
    ensures
        outcome::of(r) == metadata_spec(metadata.deep_view(), absolute, listing_digest@),
{
    check_scopes(&metadata.allowed_write_paths)?;
    if !absolute {
        return Err(
            TransactionError::Invariant("transaction source root is not absolute".to_owned()),
        );
    }
    check_entries(&metadata.baseline.files)?;
    if !text::same(metadata.baseline.digest.as_str(), listing_digest) {
        return Err(
            TransactionError::Invariant(
                "transaction baseline manifest digest is invalid".to_owned(),
            ),
        );
    }
    Ok(())
}

/// The digest that the listing of a baseline must have.
pub open spec fn listing_digest(m: MetadataView) -> Seq<char> {
    digest::blake3_hex(manifest::manifest_bytes(m.baseline.files))
}

/// Checks stored metadata.
pub fn validate_metadata(metadata: &TransactionMetadata, absolute: bool) -> (r: Result<
    (),
    TransactionError,
>)
    ensures
        outcome::of(r) == metadata_spec(
            metadata.deep_view(),
            absolute,
            listing_digest(metadata.deep_view()),
        ),
{
    let expected = manifest::manifest_digest(&metadata.baseline.files);
    check_metadata(metadata, absolute, expected.as_str())
}

/// Whether a directory is refused as a root.
pub open spec fn root_spec(kind: EntryKind, root: Seq<char>) -> Result<(), TransactionFault> {
    match kind {
        EntryKind::SymbolicLink => Err(TransactionFault::SymbolicLink(root)),
        EntryKind::Directory => Ok(()),
        _ => Err(TransactionFault::NotDirectory(root)),
    }
}

/// Checks a root: it must be a directory, and no link to one.
pub fn check_root(kind: EntryKind, root: &str) -> (r: Result<(), TransactionError>)
    ensures
        outcome::of(r) == root_spec(kind, root@),
{
    match kind {
        EntryKind::SymbolicLink => Err(TransactionError::SymbolicLink(root.to_owned())),
        EntryKind::Directory => Ok(()),
        _ => Err(TransactionError::NotDirectory(root.to_owned())),
    }
}

/// Whether a stored artifact is refused before it is read.
pub open spec fn artifact_spec(kind: EntryKind, bytes: u64, path: Seq<char>) -> Result<
    (),
    TransactionFault,
> {
    match kind {
        EntryKind::SymbolicLink => Err(TransactionFault::SymbolicLink(path)),
        EntryKind::File => artifact_size_spec(bytes, path),
        _ => Err(TransactionFault::UnsupportedFile(path)),
    }
}

/// Whether an artifact is too large.
pub open spec fn artifact_size_spec(bytes: u64, path: Seq<char>) -> Result<(), TransactionFault> {
    if bytes > MAX_TRANSACTION_METADATA_BYTES {
        Err(
            TransactionFault::ArtifactTooLarge { path, limit: MAX_TRANSACTION_METADATA_BYTES },
        )
    } else {
        Ok(())
    }
}

/// Checks the size of an artifact, before it is written and after it was read.
pub fn check_artifact_size(bytes: u64, path: &str) -> (r: Result<(), TransactionError>)
    ensures
        outcome::of(r) == artifact_size_spec(bytes, path@),
{
    if bytes > MAX_TRANSACTION_METADATA_BYTES {
        Err(
            TransactionError::ArtifactTooLarge {
                path: path.to_owned(),
                limit: MAX_TRANSACTION_METADATA_BYTES,
            },
        )
    } else {
        Ok(())
    }
}

/// Checks a stored artifact before it is read.
pub fn check_artifact(kind: EntryKind, bytes: u64, path: &str) -> (r: Result<(), TransactionError>)
    ensures
        outcome::of(r) == artifact_spec(kind, bytes, path@),
{
    match kind {
        EntryKind::SymbolicLink => Err(TransactionError::SymbolicLink(path.to_owned())),
        EntryKind::File => check_artifact_size(bytes, path),
        _ => Err(TransactionError::UnsupportedFile(path.to_owned())),
    }
}

/// What is found at a path.
#[derive(Debug)]
pub enum Found {
    Missing,
    Entry(EntryKind),
    Failed(String),
}

/// A [`Found`] by its text.
pub enum FoundView {
    Missing,
    Entry(EntryKind),
    Failed(Seq<char>),
}

impl DeepView for Found {
    type V = FoundView;

    open spec fn deep_view(&self) -> FoundView {
        match self {
            Found::Missing => FoundView::Missing,
            Found::Entry(k) => FoundView::Entry(*k),
            Found::Failed(m) => FoundView::Failed(m@),
        }
    }
}

/// Whether the parts of a path below an ancestor are still to be looked at: a link
/// refuses the path, and below what does not exist there is none.
pub open spec fn ancestor_spec(ancestor: Seq<char>, found: FoundView) -> Result<
    bool,
    TransactionFault,
> {
    match found {
        FoundView::Missing => Ok(false),
        FoundView::Entry(EntryKind::SymbolicLink) => Err(TransactionFault::SymbolicLink(ancestor)),
        FoundView::Entry(_) => Ok(true),
        FoundView::Failed(m) => Err(TransactionFault::Io { path: ancestor, message: m }),
    }
}

/// Takes what was found at an ancestor of a path.
pub fn pass_ancestor(ancestor: &str, found: &Found) -> (r: Result<bool, TransactionError>)
    ensures
        outcome::of(r) == ancestor_spec(ancestor@, found.deep_view()),
{
    match found {
        Found::Missing => Ok(false),
        Found::Entry(kind) => match kind {
            EntryKind::SymbolicLink => Err(TransactionError::SymbolicLink(ancestor.to_owned())),
            _ => Ok(true),
        },
        Found::Failed(message) => Err(
            TransactionError::Io { path: ancestor.to_owned(), message: message.clone() },
        ),
    }
}

/// The paths from below a root down to a path, whose parts are given.
pub open spec fn ancestors_spec(root: Seq<char>, parts: Seq<Seq<char>>) -> Seq<Seq<char>> {
    Seq::new(parts.len(), |i: int| below(root, parts.take(i + 1)))
}

/// The paths from below a root down to a path: none of them may be a symbolic link.
pub fn ancestors(root: &str, relative: &SafeRelativePath) -> (r: Vec<String>)
    ensures
        r.deep_view() == ancestors_spec(root@, relative.deep_view()),
{
    let ghost parts = relative.deep_view();
    let pieces = relative.pieces();
    let mut out: Vec<String> = Vec::new();
    let mut so_far: Vec<String> = Vec::new();
    let mut i: usize = 0;
    assert(text::views(so_far@) =~= parts.take(0));
    while i < pieces.len()
        invariant
            i <= pieces@.len(),
            pieces.deep_view() == parts,
            parts.len() == pieces@.len(),
            text::views(so_far@) == parts.take(i as int),
            out@.len() == i,
            forall|k: int|
                0 <= k < i ==> (#[trigger] out@[k])@ == ancestors_spec(root@, parts)[k],
        decreases pieces@.len() - i,
    {
        let ghost before = text::views(so_far@);
        assert(parts[i as int] == pieces@[i as int]@);
        so_far.push(pieces[i].clone());
        assert(text::views(so_far@) =~= before.push(parts[i as int]));
        assert(parts.take(i as int + 1) =~= before.push(parts[i as int]));
        out.push(text::below(root, text::join(&so_far, "/").as_str()));
        i += 1;
    }
    assert(out.deep_view() =~= ancestors_spec(root@, parts));
    out
}

/// Whether the walk down to a path, from ancestor `i` on, refuses the path, given what was
/// found at each ancestor.
pub open spec fn walk_spec(
    ancestors: Seq<Seq<char>>,
    found: Seq<FoundView>,
    i: int,
) -> Result<(), TransactionFault>
    decreases ancestors.len() - i,
{
    if i < 0 || i >= ancestors.len() {
        Ok(())
    } else {
        match ancestor_spec(ancestors[i], found[i]) {
            Err(e) => Err(e),
            Ok(false) => Ok(()),
            Ok(true) => walk_spec(ancestors, found, i + 1),
        }
    }
}

/// Refuses a path below a root that a symbolic link leads to, given what was found at each
/// of its [`ancestors`].
pub fn refuse_links(root: &str, relative: &SafeRelativePath, found: Vec<Found>) -> (r: Result<
    (),
    TransactionError,
>)
    requires
        found@.len() == relative.deep_view().len(),
    ensures
        outcome::of(r) == walk_spec(
            ancestors_spec(root@, relative.deep_view()),
            found.deep_view(),
            0,
        ),
{
    let ghost views = found.deep_view();
    let on_the_way = ancestors(root, relative);
    let ghost all = ancestors_spec(root@, relative.deep_view());
    assert(all.len() == on_the_way@.len());
    let mut i: usize = 0;
    while i < on_the_way.len()
        invariant
            i <= on_the_way@.len() == found@.len(),
            all == ancestors_spec(root@, relative.deep_view()),
            on_the_way.deep_view() == all,
            all.len() == on_the_way@.len(),
            views == found.deep_view(),
            walk_spec(all, views, 0) == walk_spec(all, views, i as int),
        decreases on_the_way@.len() - i,
    {
        assert(all[i as int] == on_the_way@[i as int]@);
        assert(views[i as int] == found@[i as int].deep_view());
        if !pass_ancestor(on_the_way[i].as_str(), &found[i])? {
            return Ok(());
        }
        i += 1;
    }
    Ok(())
}

/// A symbolic link on the way to a path, with something at every ancestor above it,
/// refuses the path, and the first such link is the one that is named.
pub proof fn law_links_on_the_way_refuse(
    ancestors: Seq<Seq<char>>,
    found: Seq<FoundView>,
    i: int,
)
    requires
        0 <= i < ancestors.len() == found.len(),
        found[i] == FoundView::Entry(EntryKind::SymbolicLink),
        forall|j: int| 0 <= j < i ==> (#[trigger] found[j]) is Entry,
    ensures
        walk_spec(ancestors, found, 0) is Err,
        (forall|j: int|
            0 <= j < i ==> #[trigger] found[j] != FoundView::Entry(EntryKind::SymbolicLink))
            ==> walk_spec(ancestors, found, 0) == Err::<(), TransactionFault>(
            TransactionFault::SymbolicLink(ancestors[i]),
        ),
{
    lemma_walk_meets_link(ancestors, found, 0, i);
}

proof fn lemma_walk_meets_link(
    ancestors: Seq<Seq<char>>,
    found: Seq<FoundView>,
    k: int,
    i: int,
)
    requires
        0 <= k <= i < ancestors.len() == found.len(),
        found[i] == FoundView::Entry(EntryKind::SymbolicLink),
        forall|j: int| k <= j < i ==> (#[trigger] found[j]) is Entry,
    ensures
        walk_spec(ancestors, found, k) is Err,
        (forall|j: int|
            k <= j < i ==> #[trigger] found[j] != FoundView::Entry(EntryKind::SymbolicLink))
            ==> walk_spec(ancestors, found, k) == Err::<(), TransactionFault>(
            TransactionFault::SymbolicLink(ancestors[i]),
        ),
    decreases i - k,
{
    if k < i {
        assert(found[k] is Entry);
        lemma_walk_meets_link(ancestors, found, k + 1, i);
    }
}

/// What a source file is known by, given what was found at its path and its
/// fingerprint if it is a regular file.
pub open spec fn mark_spec(path: Seq<char>, found: FoundView, print: Option<PrintView>) -> Result<
    MarkView,
    TransactionFault,
> {
    match found {
        FoundView::Missing => Ok(MarkView { digest: None, unix_mode: None }),
        FoundView::Entry(EntryKind::File) => match print {
            Some(p) => Ok(MarkView { digest: Some(p.digest), unix_mode: p.unix_mode }),
            None => Err(TransactionFault::UnsupportedFile(path)),
        },
        FoundView::Entry(_) => Err(TransactionFault::UnsupportedFile(path)),
        FoundView::Failed(m) => Err(TransactionFault::Io { path, message: m }),
    }
}

/// What a file is known by, given what was found at its path and its fingerprint if it
/// is a regular file.
pub fn fingerprint_optional(
    path: &str,
    found: Found,
    print: Option<manifest::FileFingerprint>,
) -> (r: Result<ChangeFingerprint, TransactionError>)
    ensures
        outcome::of(r) == mark_spec(path@, found.deep_view(), print.deep_view()),
{
    match found {
        Found::Missing => Ok(ChangeFingerprint { digest: None, unix_mode: None }),
        Found::Entry(kind) => match (kind, print) {
            (EntryKind::File, Some(p)) => Ok(
                ChangeFingerprint { digest: Some(p.digest), unix_mode: p.unix_mode },
            ),
            _ => Err(TransactionError::UnsupportedFile(path.to_owned())),
        },
        Found::Failed(message) => Err(TransactionError::Io { path: path.to_owned(), message }),
    }
}

/// Whether a transaction is refused: its write scopes must be safe, and neither the copy
/// nor, after it, the source may differ from the baseline.
pub open spec fn creation_spec(
    scopes: Seq<Seq<char>>,
    baseline: ManifestView,
    copied: ManifestView,
    source_after: ManifestView,
) -> Result<(), TransactionFault> {
    match scopes_spec(scopes) {
        Err(e) => Err(e),
        Ok(_) => snapshot_spec(baseline, copied, source_after),
    }
}

impl WorkspaceTransaction {
    /// Whether the parts of a new transaction fit together: the source is a directory,
    /// the scopes are safe and the destination holds nothing.
    pub fn begin(
        source_root: &str,
        source_is_directory: bool,
        control_root: &str,
        control_root_occupied: bool,
        allowed_write_paths: &Vec<String>,
    ) -> (r: Result<(), TransactionError>)
        ensures
            outcome::of(r) == (if !source_is_directory {
                Err::<(), TransactionFault>(TransactionFault::NotDirectory(source_root@))
            } else {
                match scopes_spec(allowed_write_paths.deep_view()) {
                    Err(e) => Err(e),
                    Ok(_) => if control_root_occupied {
                        Err(TransactionFault::DestinationNotEmpty(control_root@))
                    } else {
                        Ok(())
                    },
                }
            }),
    {
        if !source_is_directory {
            return Err(TransactionError::NotDirectory(source_root.to_owned()));
        }
        check_scopes(allowed_write_paths)?;
        if control_root_occupied {
            return Err(TransactionError::DestinationNotEmpty(control_root.to_owned()));
        }
        Ok(())
    }

    /// Creates a transaction whose write scopes are safe from the snapshots that were
    /// taken: the source's, its copy's and, after the copy, the source's again.
    pub fn create(
        source_root: String,
        control_root: String,
        allowed_write_paths: Vec<String>,
        baseline: WorkspaceManifest,
        copied: &WorkspaceManifest,
        source_after: &WorkspaceManifest,
    ) -> (r: Result<WorkspaceTransaction, TransactionError>)
        ensures
            match r {
                Ok(t) => creation_spec(
                    allowed_write_paths.deep_view(),
                    baseline.deep_view(),
                    copied.deep_view(),
                    source_after.deep_view(),
                ) is Ok && t.deep_view() == (TransactionView {
                    control_root: control_root@,
                    metadata: MetadataView {
                        schema_version: TRANSACTION_SCHEMA_VERSION,
                        source_root: source_root@,
                        allowed_write_paths: allowed_write_paths.deep_view(),
                        baseline: baseline.deep_view(),
                    },
                }),
                Err(e) => creation_spec(
                    allowed_write_paths.deep_view(),
                    baseline.deep_view(),
                    copied.deep_view(),
                    source_after.deep_view(),
                ) == Err::<(), TransactionFault>(e.deep_view()),
            },
    {
        check_scopes(&allowed_write_paths)?;
        if !copied.same(&baseline) {
            return Err(
                TransactionError::SnapshotCopyMismatch {
                    expected: baseline.digest,
                    actual: copied.digest.clone(),
                },
            );
        }
        if !source_after.same(&baseline) {
            return Err(
                TransactionError::SourceChangedDuringSnapshot {
                    expected: baseline.digest,
                    actual: source_after.digest.clone(),
                },
            );
        }
        Ok(
            WorkspaceTransaction {
                control_root,
                metadata: TransactionMetadata {
                    schema_version: TRANSACTION_SCHEMA_VERSION,
                    source_root,
                    allowed_write_paths,
                    baseline,
                },
            },
        )
    }

    /// Reopens a transaction from its metadata, given what its workspace copy is.
    pub fn open(
        control_root: String,
        metadata: TransactionMetadata,
        source_root_is_absolute: bool,
        workspace_kind: EntryKind,
    ) -> (r: Result<WorkspaceTransaction, TransactionError>)
        ensures
            match r {
                Ok(t) => open_spec(
                    control_root@,
                    metadata.deep_view(),
                    source_root_is_absolute,
                    workspace_kind,
                ) is Ok && t.deep_view() == (TransactionView {
                    control_root: control_root@,
                    metadata: metadata.deep_view(),
                }),
                Err(e) => open_spec(
                    control_root@,
                    metadata.deep_view(),
                    source_root_is_absolute,
                    workspace_kind,
                ) == Err::<(), TransactionFault>(e.deep_view()),
            },
    {
        if metadata.schema_version != TRANSACTION_SCHEMA_VERSION {
            return Err(TransactionError::UnsupportedSchema(metadata.schema_version));
        }
        validate_metadata(&metadata, source_root_is_absolute)?;
        let workspace = text::below(control_root.as_str(), "workspace");
        check_root(workspace_kind, workspace.as_str())?;
        Ok(WorkspaceTransaction { control_root, metadata })
    }

    /// The stored form of the transaction.
    pub fn metadata(&self) -> (r: &TransactionMetadata)
        ensures
            r.deep_view() == self.deep_view().metadata,
    {
        &self.metadata
    }

    /// Root visible to models and tools.
    pub fn workspace_root(&self) -> (r: String)
        ensures
            r@ == workspace_root_of(self.deep_view().control_root),
    {
        text::below(self.control_root.as_str(), "workspace")
    }

    /// Run-local control directory containing transaction metadata and the isolated
    /// workspace.
    pub fn control_root(&self) -> (r: &str)
        ensures
            r@ == self.deep_view().control_root,
    {
        self.control_root.as_str()
    }

    /// Where an apply keeps its journal.
    pub fn journal_root(&self) -> (r: String)
        ensures
            r@ == text::below_spec(self.deep_view().control_root, "apply-journal"@),
    {
        text::below(self.control_root.as_str(), "apply-journal")
    }

    /// Where the metadata is stored.
    pub fn metadata_path(&self) -> (r: String)
        ensures
            r@ == text::below_spec(self.deep_view().control_root, "transaction.json"@),
    {
        text::below(self.control_root.as_str(), "transaction.json")
    }

    /// Original workspace that may receive an explicit apply.
    pub fn source_root(&self) -> (r: &str)
        ensures
            r@ == self.deep_view().metadata.source_root,
    {
        self.metadata.source_root.as_str()
    }

    /// Digest of the immutable source baseline.
    pub fn baseline_digest(&self) -> (r: &str)
        ensures
            r@ == self.deep_view().metadata.baseline.digest,
    {
        self.metadata.baseline.digest.as_str()
    }

    /// Whether some write scope covers a path.
    pub fn is_write_allowed(&self, relative: &SafeRelativePath) -> (r: bool)
        ensures
            r == may_write(
                self.deep_view().metadata.allowed_write_paths,
                relative.deep_view(),
            ),
    {
        let ghost scopes = self.deep_view().metadata.allowed_write_paths;
        let ghost parts = relative.deep_view();
        let mut i: usize = 0;
        while i < self.metadata.allowed_write_paths.len()
            invariant
                i <= self.metadata.allowed_write_paths@.len(),
                scopes == self.metadata.allowed_write_paths.deep_view(),
                scopes.len() == self.metadata.allowed_write_paths@.len(),
                parts == relative.deep_view(),
                forall|k: int| 0 <= k < i ==> !scope_covers(#[trigger] scopes[k], parts),
            decreases self.metadata.allowed_write_paths@.len() - i,
        {
            let scope = self.metadata.allowed_write_paths[i].as_str();
            assert(scopes[i as int] == scope@);
            if text::same(scope, ".") {
                return true;
            }
            if let Ok(safe) = SafeRelativePath::new(scope) {
                if relative.starts_with(&safe) {
                    assert(scope_covers(scopes[i as int], parts));
                    return true;
                }
            }
            i += 1;
        }
        false
    }

    /// Resolves a readable relative path below the transaction root. What lies on the
    /// way must be no symbolic link: see [`ancestors`].
    pub fn resolve_read(&self, relative: &str) -> (r: Result<String, TransactionError>)
        ensures
            outcome::of(r) == read_spec(self.deep_view(), relative@),
    {
        match SafeRelativePath::new(relative) {
            Ok(safe) => Ok(text::below(self.workspace_root().as_str(), safe.portable().as_str())),
            Err(e) => Err(TransactionError::Path(e)),
        }
    }

    /// Resolves a writable relative path after enforcing the contract scope. What lies
    /// on the way must be no symbolic link: see [`ancestors`].
    pub fn resolve_write(&self, relative: &str) -> (r: Result<String, TransactionError>)
        ensures
            outcome::of(r) == write_spec(self.deep_view(), relative@),
    {
        let safe = match SafeRelativePath::new(relative) {
            Ok(safe) => safe,
            Err(e) => {
                return Err(TransactionError::Path(e));
            },
        };
        if !self.is_write_allowed(&safe) {
            return Err(TransactionError::WriteOutsideScope(safe.portable()));
        }
        Ok(text::below(self.workspace_root().as_str(), safe.portable().as_str()))
    }

    /// Where the file lies that is to be deleted, given what its metadata say: only a
    /// regular file is deleted.
    pub fn remove_file(&self, relative: &str, metadata: Result<EntryKind, String>) -> (r: Result<
        String,
        TransactionError,
    >)
        ensures
            outcome::of(r) == (match write_spec(self.deep_view(), relative@) {
                Err(e) => Err(e),
                Ok(path) => match metadata {
                    Err(m) => Err(TransactionFault::Io { path, message: m@ }),
                    Ok(EntryKind::File) => Ok(path),
                    Ok(_) => Err(TransactionFault::UnsupportedFile(path)),
                },
            }),
    {
        match self.resolve_write(relative) {
            Err(e) => Err(e),
            Ok(path) => match metadata {
                Err(message) => Err(TransactionError::Io { path, message }),
                Ok(EntryKind::File) => Ok(path),
                Ok(_) => Err(TransactionError::UnsupportedFile(path)),
            },
        }
    }

    /// The digest of a file of the workspace copy, given what was found at its path and
    /// its fingerprint if it is a regular file. What is missing has none.
    pub fn current_file_digest(
        &self,
        relative: &str,
        found: Found,
        print: Option<manifest::FileFingerprint>,
    ) -> (r: Result<Option<String>, TransactionError>)
        ensures
            outcome::of(r) == (match read_spec(self.deep_view(), relative@) {
                Err(e) => Err(e),
                Ok(path) => match mark_spec(path, found.deep_view(), print.deep_view()) {
                    Err(e) => Err(e),
                    Ok(mark) => Ok(mark.digest),
                },
            }),
    {
        match self.resolve_read(relative) {
            Err(e) => Err(e),
            Ok(path) => match fingerprint_optional(path.as_str(), found, print) {
                Err(e) => Err(e),
                Ok(mark) => Ok(mark.digest),
            },
        }
    }

    /// The changes from the baseline to the current files of the workspace copy.
    pub fn changes(&self, current: &WorkspaceManifest) -> (r: Vec<FileChange>)
        ensures
            changes::is_change_set(
                self.deep_view().metadata.baseline.files,
                current.deep_view().files,
                r.deep_view(),
            ),
    {
        changes::changes_between(&self.metadata.baseline.files, &current.files)
    }

    /// Begins to land all changes, which must be fewer than memory can number.
    pub fn apply(&self, current: &WorkspaceManifest) -> (r: Option<(ApplyMachine, ApplyAction)>)
        ensures
            match r {
                Some(m) => {
                    &&& changes::is_change_set(
                        self.deep_view().metadata.baseline.files,
                        current.deep_view().files,
                        m.0.plan().changes,
                    )
                    &&& begins(m, m.0.plan().changes, self.deep_view())
                    &&& apply_laws::lawful(m.0.plan())
                },
                None => exists|cs: Seq<ChangeView>|
                    #[trigger] changes::is_change_set(
                        self.deep_view().metadata.baseline.files,
                        current.deep_view().files,
                        cs,
                    ) && cs.len() >= usize::MAX,
            },
    {
        let current_changes = self.changes(current);
        let ghost cs = current_changes.deep_view();
        assert(cs.len() == current_changes@.len());
        if current_changes.len() == usize::MAX {
            return None;
        }
        let m = ApplyMachine::start(
            current_changes,
            &self.metadata.baseline.files,
            self.metadata.baseline.digest.as_str(),
        );
        proof {
            apply_laws::lemma_change_sets_are_lawful(
                self.deep_view().metadata.baseline.files,
                current.deep_view().files,
                cs,
                self.deep_view().metadata.baseline.digest,
            );
            assert(begins(m, cs, self.deep_view()));
        }
        Some(m)
    }

    /// Begins to land exactly the supplied, receipt-bound change set, which must be
    /// the current one.
    pub fn apply_expected(&self, current: &WorkspaceManifest, expected: &Vec<FileChange>) -> (r:
        Result<(ApplyMachine, ApplyAction), TransactionError>)
        requires
            expected@.len() < usize::MAX,
        ensures
            match r {
                Ok(m) => {
                    &&& changes::is_change_set(
                        self.deep_view().metadata.baseline.files,
                        current.deep_view().files,
                        expected.deep_view(),
                    )
                    &&& begins(m, expected.deep_view(), self.deep_view())
                    &&& apply_laws::lawful(m.0.plan())
                },
                Err(e) => e.deep_view() == TransactionFault::CandidateSetDrift
                    && !changes::is_change_set(
                    self.deep_view().metadata.baseline.files,
                    current.deep_view().files,
                    expected.deep_view(),
                ),
            },
    {
        let current_changes = self.changes(current);
        if !changes::same_changes(&current_changes, expected) {
            proof {
                if changes::is_change_set(
                    self.deep_view().metadata.baseline.files,
                    current.deep_view().files,
                    expected.deep_view(),
                ) {
                    changes::law_change_sets_are_unique(
                        self.deep_view().metadata.baseline.files,
                        current.deep_view().files,
                        current_changes.deep_view(),
                        expected.deep_view(),
                    );
                }
            }
            return Err(TransactionError::CandidateSetDrift);
        }
        assert(expected.deep_view().len() == expected@.len());
        assert(current_changes.deep_view().len() == current_changes@.len());
        proof {
            apply_laws::lemma_change_sets_are_lawful(
                self.deep_view().metadata.baseline.files,
                current.deep_view().files,
                expected.deep_view(),
                self.deep_view().metadata.baseline.digest,
            );
        }
        Ok(
            ApplyMachine::start(
                current_changes,
                &self.metadata.baseline.files,
                self.metadata.baseline.digest.as_str(),
            ),
        )
    }
}

/// Whether an apply begins with a change set.
pub open spec fn begins(
    m: (ApplyMachine, ApplyAction),
    cs: Seq<ChangeView>,
    t: TransactionView,
) -> bool {
    &&& m.0.plan() == apply::plan_of(
        cs,
        t.metadata.baseline.files,
        t.metadata.baseline.digest,
    )
    &&& m.0.phase_view() is Looking
    &&& m.1.deep_view() is FindJournal
}

/// Whether stored metadata can be reopened.
pub open spec fn open_spec(
    control_root: Seq<char>,
    metadata: MetadataView,
    absolute: bool,
    workspace_kind: EntryKind,
) -> Result<(), TransactionFault> {
    if metadata.schema_version != TRANSACTION_SCHEMA_VERSION {
        Err(TransactionFault::UnsupportedSchema(metadata.schema_version))
    } else {
        match metadata_spec(metadata, absolute, listing_digest(metadata)) {
            Err(e) => Err(e),
            Ok(_) => root_spec(workspace_kind, workspace_root_of(control_root)),
        }
    }
}

/// Whatever is read or written lies below the workspace copy, at a path whose every
/// part names something there; and what is written lies in a write scope.
pub proof fn law_resolved_paths_stay_in_the_copy(t: TransactionView, relative: Seq<char>)
    ensures
        match read_spec(t, relative) {
            Ok(p) => exists|parts: Seq<Seq<char>>| #[trigger]
                path::safe_parts(parts) && p == below(workspace_root_of(t.control_root), parts),
            Err(_) => true,
        },
        match write_spec(t, relative) {
            Ok(p) => exists|parts: Seq<Seq<char>>| #[trigger]
                path::safe_parts(parts) && p == below(workspace_root_of(t.control_root), parts)
                    && may_write(t.metadata.allowed_write_paths, parts),
            Err(_) => true,
        },
{
    path::law_accepted_paths_stay_below(relative);
    match path::path_spec(relative) {
        Ok(parts) => {
            assert(path::safe_parts(parts));
        },
        Err(_) => {},
    }
}

/// A transaction whose baseline was captured from files with safe paths, and whose
/// scopes were accepted, is accepted again when its metadata is read back.
pub proof fn law_stored_transactions_reopen(m: MetadataView)
    requires
        m.schema_version == TRANSACTION_SCHEMA_VERSION,
        scopes_spec(m.allowed_write_paths) is Ok,
        m.baseline.digest == listing_digest(m),
        forall|i: int|
            0 <= i < m.baseline.files.len() ==> digest::is_digest(
                (#[trigger] m.baseline.files[i]).1.digest,
            ) && exists|parts: Seq<Seq<char>>| #[trigger]
                path::safe_parts(parts) && m.baseline.files[i].0 == path::portable_spec(parts),
    ensures
        forall|control_root: Seq<char>|
            #[trigger] open_spec(control_root, m, true, EntryKind::Directory) is Ok,
{
    lemma_entries_accepted(m, 0);
}

proof fn lemma_entries_accepted(m: MetadataView, i: int)
    requires
        0 <= i <= m.baseline.files.len(),
        forall|i: int|
            0 <= i < m.baseline.files.len() ==> digest::is_digest(
                (#[trigger] m.baseline.files[i]).1.digest,
            ) && exists|parts: Seq<Seq<char>>| #[trigger]
                path::safe_parts(parts) && m.baseline.files[i].0 == path::portable_spec(parts),
    ensures
        entries_from(m.baseline.files, i) is Ok,
    decreases m.baseline.files.len() - i,
{
    if i < m.baseline.files.len() {
        let entry = m.baseline.files[i];
        let parts = choose|parts: Seq<Seq<char>>| #[trigger]
            path::safe_parts(parts) && entry.0 == path::portable_spec(parts);
        path::law_portable_paths_are_canonical(parts);
        lemma_entries_accepted(m, i + 1);
    }
}

} // verus!
