//! Snapshots of a workspace's files.

use crate::digest;
use crate::outcome;
use crate::text;
use crate::workspace::error::{TransactionError, TransactionFault};
use crate::workspace::path;
use vstd::bytes::*;
use vstd::prelude::*;
use vstd::utf8::*;

verus! {

/// Digest and size of one regular workspace file.
#[derive(Debug, PartialEq, Eq)]
pub struct FileFingerprint {
    pub digest: String,
    pub bytes: u64,
    /// Unix-style permission bits where the platform exposes them.
    pub unix_mode: Option<u32>,
}

/// A [`FileFingerprint`] by its digest's text.
pub struct PrintView {
    pub digest: Seq<char>,
    pub bytes: u64,
    pub unix_mode: Option<u32>,
}

impl DeepView for FileFingerprint {
    type V = PrintView;

    open spec fn deep_view(&self) -> PrintView {
        PrintView { digest: self.digest@, bytes: self.bytes, unix_mode: self.unix_mode }
    }
}

impl Clone for FileFingerprint {
    fn clone(&self) -> (r: Self)
        ensures
            r.deep_view() == self.deep_view(),
    {
        FileFingerprint {
            digest: self.digest.clone(),
            bytes: self.bytes,
            unix_mode: self.unix_mode,
        }
    }
}

impl FileFingerprint {
    /// Whether two fingerprints are the same.
    pub fn same(&self, other: &FileFingerprint) -> (r: bool)
        ensures
            r == (self.deep_view() == other.deep_view()),
    {
        text::same(self.digest.as_str(), other.digest.as_str()) && self.bytes == other.bytes
            && same_mode(self.unix_mode, other.unix_mode)
    }
}

/// Whether two permission modes are the same.
pub fn same_mode(a: Option<u32>, b: Option<u32>) -> (r: bool)
    ensures
        r == (a == b),
{
    match (a, b) {
        (Some(x), Some(y)) => x == y,
        (None, None) => true,
        _ => false,
    }
}

/// The fingerprint of a file with the given content, length and mode.
pub fn fingerprint(content: &[u8], bytes: u64, unix_mode: Option<u32>) -> (r: FileFingerprint)
    ensures
        r.deep_view() == (PrintView { digest: digest::blake3_hex(content@), bytes, unix_mode }),
{
    FileFingerprint { digest: digest::content_digest(content), bytes, unix_mode }
}

/// The fingerprints of files by their paths.
#[derive(Debug, PartialEq, Eq)]
pub struct FileTable {
    entries: Vec<(String, FileFingerprint)>,
}

/// The entries of a table, in the order of their paths.
pub type Listing = Seq<(Seq<char>, PrintView)>;

impl DeepView for FileTable {
    type V = Seq<(Seq<char>, PrintView)>;

    closed spec fn deep_view(&self) -> Seq<(Seq<char>, PrintView)> {
        self.entries.deep_view()
    }
}

/// Whether a listing is in the order of its paths, each of which it holds once.
pub open spec fn sorted(v: Listing) -> bool {
    forall|i: int, j: int|
        0 <= i < j < v.len() ==> text::precedes((#[trigger] v[i]).0, (#[trigger] v[j]).0)
}

/// Whether a listing holds a path.
pub open spec fn lists(v: Listing, path: Seq<char>) -> bool {
    exists|i: int| 0 <= i < v.len() && (#[trigger] v[i]).0 == path
}

/// The fingerprint that a listing holds under a path.
pub open spec fn listed(v: Listing, path: Seq<char>) -> Option<PrintView> {
    if lists(v, path) {
        Some(v[choose|i: int| 0 <= i < v.len() && (#[trigger] v[i]).0 == path].1)
    } else {
        None
    }
}

/// In a sorted listing an entry is found under its path.
pub proof fn lemma_listed(v: Listing, i: int)
    requires
        sorted(v),
        0 <= i < v.len(),
    ensures
        listed(v, v[i].0) == Some(v[i].1),
        forall|k: int| 0 <= k < v.len() && (#[trigger] v[k]).0 == v[i].0 ==> k == i,
{
    assert forall|k: int| 0 <= k < v.len() && (#[trigger] v[k]).0 == v[i].0 implies k == i by {
        text::lemma_precedes_irreflexive(v[i].0);
        if k < i {
            assert(text::precedes(v[k].0, v[i].0));
        } else if k > i {
            assert(text::precedes(v[i].0, v[k].0));
        }
    }
    assert(lists(v, v[i].0));
}

impl FileTable {
    /// The entries are in order.
    #[verifier::type_invariant]
    closed spec fn in_order(self) -> bool {
        sorted(self.entries.deep_view())
    }

    /// A table without files.
    pub fn new() -> (r: FileTable)
        ensures
            r.deep_view() == Seq::<(Seq<char>, PrintView)>::empty(),
    {
        let entries: Vec<(String, FileFingerprint)> = Vec::new();
        assert(entries.deep_view() =~= Seq::<(Seq<char>, PrintView)>::empty());
        FileTable { entries }
    }

    /// The number of files.
    pub fn len(&self) -> (r: usize)
        ensures
            r == self.deep_view().len(),
            sorted(self.deep_view()),
    {
        proof {
            use_type_invariant(self);
        }
        self.entries.len()
    }

    /// Whether there are no files.
    pub fn is_empty(&self) -> (r: bool)
        ensures
            r == (self.deep_view().len() == 0),
    {
        self.entries.len() == 0
    }

    /// The path of the file at a position.
    pub fn path_at(&self, i: usize) -> (r: &str)
        requires
            i < self.deep_view().len(),
        ensures
            r@ == self.deep_view()[i as int].0,
    {
        assert(self.deep_view()[i as int] == self.entries@[i as int].deep_view());
        self.entries[i].0.as_str()
    }

    /// The fingerprint of the file at a position.
    pub fn print_at(&self, i: usize) -> (r: &FileFingerprint)
        requires
            i < self.deep_view().len(),
        ensures
            r.deep_view() == self.deep_view()[i as int].1,
    {
        assert(self.deep_view()[i as int] == self.entries@[i as int].deep_view());
        &self.entries[i].1
    }

    /// The fingerprint under a path.
    pub fn get(&self, path: &str) -> (r: Option<&FileFingerprint>)
        ensures
            match r {
                Some(f) => listed(self.deep_view(), path@) == Some(f.deep_view()),
                None => listed(self.deep_view(), path@) is None,
            },
    {
        let ghost v = self.deep_view();
        proof {
            use_type_invariant(self);
        }
        let mut i: usize = 0;
        while i < self.entries.len()
            invariant
                i <= self.entries@.len(),
                v == self.entries.deep_view(),
                v == self.deep_view(),
                v.len() == self.entries@.len(),
                sorted(v),
                forall|k: int| 0 <= k < i ==> (#[trigger] v[k]).0 != path@,
            decreases self.entries@.len() - i,
        {
            assert(v[i as int] == self.entries@[i as int].deep_view());
            if text::same(self.entries[i].0.as_str(), path) {
                proof {
                    lemma_listed(v, i as int);
                }
                return Some(&self.entries[i].1);
            }
            i += 1;
        }
        None
    }

    /// Files a fingerprint under a path.
    pub fn insert(&mut self, path: &str, print: FileFingerprint)
        ensures
            sorted(final(self).deep_view()),
            listed(final(self).deep_view(), path@) == Some(print.deep_view()),
            forall|other: Seq<char>|
                other != path@ ==> #[trigger] listed(final(self).deep_view(), other) == listed(
                    old(self).deep_view(),
                    other,
                ),
    {
        proof {
            use_type_invariant(&*self);
        }
        let ghost v = self.deep_view();
        let mut entries: Vec<(String, FileFingerprint)> = Vec::new();
        std::mem::swap(&mut entries, &mut self.entries);
        let mut i: usize = 0;
        while i < entries.len() && text::comes_before(entries[i].0.as_str(), path)
            invariant
                i <= entries@.len(),
                v == entries.deep_view(),
                v.len() == entries@.len(),
                sorted(v),
                forall|k: int| 0 <= k < i ==> text::precedes((#[trigger] v[k]).0, path@),
            decreases entries@.len() - i,
        {
            assert(v[i as int] == entries@[i as int].deep_view());
            i += 1;
        }
        let ghost new = (path@, print.deep_view());
        let ghost w;
        if i < entries.len() && text::same(entries[i].0.as_str(), path) {
            assert(v[i as int] == entries@[i as int].deep_view());
            entries.set(i, (path.to_owned(), print));
            proof {
                w = v.update(i as int, new);
                assert(entries.deep_view() =~= w);
            }
        } else {
            entries.insert(i, (path.to_owned(), print));
            proof {
                w = v.insert(i as int, new);
                assert(entries.deep_view() =~= w);
                if i < v.len() {
                    text::lemma_precedes_total(path@, v[i as int].0);
                }
            }
        }
        proof {
            lemma_placed(v, w, i as int, new);
        }
        self.entries = entries;
    }
}

/// Putting an entry at its place keeps the order and the other entries.
proof fn lemma_placed(v: Listing, w: Listing, i: int, new: (Seq<char>, PrintView))
    requires
        sorted(v),
        0 <= i <= v.len(),
        forall|k: int| 0 <= k < i ==> text::precedes((#[trigger] v[k]).0, new.0),
        (i < v.len() && v[i].0 == new.0 && w == v.update(i, new)) || ((i < v.len()
            ==> text::precedes(new.0, v[i].0)) && w == v.insert(i, new)),
    ensures
        sorted(w),
        listed(w, new.0) == Some(new.1),
        forall|other: Seq<char>|
            other != new.0 ==> #[trigger] listed(w, other) == listed(v, other),
{
    let replaced = i < v.len() && v[i].0 == new.0 && w == v.update(i, new);
    assert forall|a: int, b: int| 0 <= a < b < w.len() implies text::precedes(
        (#[trigger] w[a]).0,
        (#[trigger] w[b]).0,
    ) by {
        if replaced {
            assert(w[a].0 == v[a].0);
            assert(w[b].0 == v[b].0);
        } else {
            let va = if a < i {
                a
            } else {
                a - 1
            };
            let vb = if b < i {
                b
            } else {
                b - 1
            };
            if a == i {
                assert(w[b] == v[vb]);
                if vb > i {
                    assert(text::precedes(v[i].0, v[vb].0));
                    text::lemma_precedes_transitive(new.0, v[i].0, v[vb].0);
                }
            } else if b == i {
                assert(w[a] == v[a]);
            } else {
                assert(w[a] == v[va]);
                assert(w[b] == v[vb]);
                assert(text::precedes(v[va].0, v[vb].0));
            }
        }
    }
    assert(w[i] == new);
    lemma_listed(w, i);
    assert forall|other: Seq<char>| other != new.0 implies #[trigger] listed(w, other) == listed(
        v,
        other,
    ) by {
        if lists(v, other) {
            let k = choose|k: int| 0 <= k < v.len() && (#[trigger] v[k]).0 == other;
            let kw = if replaced || k < i {
                k
            } else {
                k + 1
            };
            assert(w[kw] == v[k]);
            lemma_listed(w, kw);
            lemma_listed(v, k);
        } else if lists(w, other) {
            let k = choose|k: int| 0 <= k < w.len() && (#[trigger] w[k]).0 == other;
            let kv = if replaced || k < i {
                k
            } else {
                k - 1
            };
            assert(v[kv] == w[k]);
            assert(lists(v, other));
        }
    }
}

impl Clone for FileTable {
    fn clone(&self) -> (r: Self)
        ensures
            r.deep_view() == self.deep_view(),
    {
        proof {
            use_type_invariant(self);
        }
        let mut entries: Vec<(String, FileFingerprint)> = Vec::new();
        let mut i: usize = 0;
        let ghost v = self.entries.deep_view();
        while i < self.entries.len()
            invariant
                i <= self.entries@.len(),
                v == self.entries.deep_view(),
                v.len() == self.entries@.len(),
                entries@.len() == i,
                forall|k: int| 0 <= k < i ==> (#[trigger] entries@[k]).deep_view() == v[k],
            decreases self.entries@.len() - i,
        {
            assert(v[i as int] == self.entries@[i as int].deep_view());
            entries.push((self.entries[i].0.clone(), self.entries[i].1.clone()));
            i += 1;
        }
        assert(entries.deep_view() =~= v);
        FileTable { entries }
    }
}

/// What one entry adds to what a manifest's digest is the digest of.
pub open spec fn entry_bytes(e: (Seq<char>, PrintView)) -> Seq<u8> {
    encode_utf8(e.0) + seq![0u8] + encode_utf8(e.1.digest) + spec_u64_to_le_bytes(e.1.bytes)
        + spec_u32_to_le_bytes(
        match e.1.unix_mode {
            Some(m) => m,
            None => 0,
        },
    )
}

/// What a manifest's digest is the digest of.
pub open spec fn manifest_bytes(v: Listing) -> Seq<u8>
    decreases v.len(),
{
    if v.len() == 0 {
        Seq::empty()
    } else {
        manifest_bytes(v.drop_last()) + entry_bytes(v.last())
    }
}

/// The digest of the files of a manifest.
pub fn manifest_digest(files: &FileTable) -> (r: String)
    ensures
        r@ == digest::blake3_hex(manifest_bytes(files.deep_view())),
        digest::is_digest(r@),
{
    let ghost v = files.deep_view();
    let mut bytes: Vec<u8> = Vec::new();
    let mut i: usize = 0;
    assert(v.take(0) =~= Seq::<(Seq<char>, PrintView)>::empty());
    while i < files.len()
        invariant
            i <= v.len(),
            v == files.deep_view(),
            bytes@ == manifest_bytes(v.take(i as int)),
        decreases v.len() - i,
    {
        let print = files.print_at(i);
        let ghost before = bytes@;
        bytes.extend_from_slice(files.path_at(i).as_bytes());
        bytes.push(0);
        bytes.extend_from_slice(print.digest.as_str().as_bytes());
        let mut size = u64_to_le_bytes(print.bytes);
        bytes.append(&mut size);
        let mode: u32 = match print.unix_mode {
            Some(m) => m,
            None => 0,
        };
        let mut mode_bytes = u32_to_le_bytes(mode);
        bytes.append(&mut mode_bytes);
        assert(bytes@ =~= before + entry_bytes(v[i as int]));
        assert(v.take(i as int + 1).drop_last() =~= v.take(i as int));
        i += 1;
    }
    assert(v.take(v.len() as int) =~= v);
    digest::content_digest(bytes.as_slice())
}

/// Stable, sorted snapshot of a workspace's regular files.
#[derive(Debug, PartialEq, Eq)]
pub struct WorkspaceManifest {
    pub files: FileTable,
    pub digest: String,
}

/// A [`WorkspaceManifest`] by its listing and its digest's text.
pub struct ManifestView {
    pub files: Listing,
    pub digest: Seq<char>,
}

impl DeepView for WorkspaceManifest {
    type V = ManifestView;

    open spec fn deep_view(&self) -> ManifestView {
        ManifestView { files: self.files.deep_view(), digest: self.digest@ }
    }
}

impl Clone for WorkspaceManifest {
    fn clone(&self) -> (r: Self)
        ensures
            r.deep_view() == self.deep_view(),
    {
        WorkspaceManifest { files: self.files.clone(), digest: self.digest.clone() }
    }
}

impl WorkspaceManifest {
    /// The manifest of the given files.
    pub fn of(files: FileTable) -> (r: WorkspaceManifest)
        ensures
            r.deep_view() == (ManifestView {
                files: files.deep_view(),
                digest: digest::blake3_hex(manifest_bytes(files.deep_view())),
            }),
    {
        let digest = manifest_digest(&files);
        WorkspaceManifest { files, digest }
    }

    /// Whether two manifests are the same.
    pub fn same(&self, other: &WorkspaceManifest) -> (r: bool)
        ensures
            r == (self.deep_view() == other.deep_view()),
    {
        if !text::same(self.digest.as_str(), other.digest.as_str()) {
            return false;
        }
        let ghost a = self.files.deep_view();
        let ghost b = other.files.deep_view();
        if self.files.len() != other.files.len() {
            return false;
        }
        let mut i: usize = 0;
        while i < self.files.len()
            invariant
                i <= a.len(),
                a == self.files.deep_view(),
                b == other.files.deep_view(),
                a.len() == b.len(),
                forall|k: int| 0 <= k < i ==> #[trigger] a[k] == b[k],
            decreases a.len() - i,
        {
            if !text::same(self.files.path_at(i), other.files.path_at(i)) || !self.files.print_at(
                i,
            ).same(other.files.print_at(i)) {
                assert(a[i as int] != b[i as int]);
                return false;
            }
            i += 1;
        }
        assert(a =~= b);
        true
    }
}

/// What an entry of a directory is.
#[derive(Clone, Copy, Debug, PartialEq, Eq, Structural)]
pub enum EntryKind {
    Unknown,
    SymbolicLink,
    Directory,
    File,
    Special,
}

/// Whether a snapshot looks at entries with a name: version control's and the
/// agent's own files are left out.
pub fn visits_name(name: &str) -> (r: bool)
    ensures
        r == (name@ != ".git"@ && name@ != ".pactrail"@),
{
    !text::same(name, ".git") && !text::same(name, ".pactrail")
}

/// Whether a snapshot records an entry, or why there can be none.
pub open spec fn records_spec(kind: EntryKind, path: Seq<char>) -> Result<bool, TransactionFault> {
    match kind {
        EntryKind::Unknown | EntryKind::Special => Err(TransactionFault::UnsupportedFile(path)),
        EntryKind::SymbolicLink => Err(TransactionFault::SymbolicLink(path)),
        EntryKind::Directory => Ok(false),
        EntryKind::File => Ok(true),
    }
}

/// Whether a snapshot records an entry. Symbolic links are rejected conservatively.
pub fn records_entry(kind: EntryKind, path: &str) -> (r: Result<bool, TransactionError>)
    ensures
        outcome::of(r) == records_spec(kind, path@),
{
    match kind {
        EntryKind::Unknown | EntryKind::Special => Err(
            TransactionError::UnsupportedFile(path.to_owned()),
        ),
        EntryKind::SymbolicLink => Err(TransactionError::SymbolicLink(path.to_owned())),
        EntryKind::Directory => Ok(false),
        EntryKind::File => Ok(true),
    }
}

/// The path of an entry below the root as a manifest lists it, or that it leaves the
/// root.
pub open spec fn portable_entry_spec(relative: Seq<char>) -> Result<Seq<char>, TransactionFault> {
    let pieces = text::split_char(relative, '/');
    if (relative.len() > 0 && relative[0] == '/') || pieces[0] == "."@ || pieces.contains(".."@) {
        Err(TransactionFault::EscapedRoot(relative))
    } else {
        Ok(path::portable_spec(path::naming(pieces)))
    }
}

/// The path of an entry below the root as a manifest lists it.
pub fn portable(relative: &str) -> (r: Result<String, TransactionError>)
    ensures
        outcome::of(r) == portable_entry_spec(relative@),
{
    let pieces = text::split(relative, '/');
    let ghost all = text::split_char(relative@, '/');
    proof {
        text::lemma_split_nonempty(relative@, text::is_char('/'));
        reveal_strlit("/");
        if relative@.len() > 0 {
            assert(("/"@ =~= relative@.take(1)) == (relative@[0] == '/')) by {
                if "/"@ =~= relative@.take(1) {
                    assert(relative@.take(1)[0] == "/"@[0]);
                }
            }
        }
    }
    if text::starts_with(relative, "/") || text::same(pieces[0].as_str(), ".") {
        return Err(TransactionError::EscapedRoot(relative.to_owned()));
    }
    let mut parts: Vec<String> = Vec::new();
    let mut i: usize = 0;
    assert(parts.deep_view() =~= Seq::<Seq<char>>::empty());
    assert(all.take(0) =~= Seq::<Seq<char>>::empty());
    while i < pieces.len()
        invariant
            i <= pieces@.len(),
            all == text::split_char(relative@, '/'),
            all == text::views(pieces@),
            all.len() == pieces@.len(),
            parts.deep_view() == path::naming(all.take(i as int)),
            forall|k: int| 0 <= k < i ==> #[trigger] all[k] != ".."@,
        decreases pieces@.len() - i,
    {
        let piece = pieces[i].as_str();
        let ghost before = parts.deep_view();
        assert(all[i as int] == piece@);
        assert(all.take(i as int + 1).drop_last() =~= all.take(i as int));
        assert(all.take(i as int + 1).last() == piece@);
        if text::same(piece, "..") {
            assert(all[i as int] == ".."@);
            return Err(TransactionError::EscapedRoot(relative.to_owned()));
        }
        if !piece.is_empty() && !text::same(piece, ".") {
            parts.push(piece.to_owned());
            assert(parts.deep_view() =~= before.push(piece@));
        }
        i += 1;
    }
    assert(all.take(all.len() as int) =~= all);
    assert(!all.contains(".."@)) by {
        if all.contains(".."@) {
            let j = all.index_of(".."@);
            assert(all[j] == ".."@);
        }
    }
    assert(text::views(parts@) =~= parts.deep_view());
    Ok(text::join(&parts, "/"))
}

} // verus!
