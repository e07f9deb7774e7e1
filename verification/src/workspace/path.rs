//! Paths below a workspace's root.

use crate::outcome;
use crate::text;
use vstd::prelude::*;

verus! {

/// A non-empty relative path without traversal. Its parts are separated by `/`.
#[derive(Debug, PartialEq, Eq)]
pub struct SafeRelativePath {
    parts: Vec<String>,
}

/// A path cannot safely be resolved below a workspace.
#[derive(Debug, PartialEq, Eq)]
pub enum PathError {
    Empty,
    Absolute(String),
    Traversal(String),
}

/// What a [`PathError`] says.
pub enum PathFault {
    Empty,
    Absolute(Seq<char>),
    Traversal(Seq<char>),
}

impl DeepView for PathError {
    type V = PathFault;

    open spec fn deep_view(&self) -> PathFault {
        match self {
            PathError::Empty => PathFault::Empty,
            PathError::Absolute(p) => PathFault::Absolute(p@),
            PathError::Traversal(p) => PathFault::Traversal(p@),
        }
    }
}

/// The words of a [`PathError`].
pub open spec fn path_message(f: PathFault) -> Seq<char> {
    match f {
        PathFault::Empty => "workspace-relative path cannot be empty"@,
        PathFault::Absolute(p) => "absolute or prefixed path is forbidden: "@ + p,
        PathFault::Traversal(p) => "parent traversal is forbidden: "@ + p,
    }
}

impl PathError {
    /// The error in words.
    pub fn message(&self) -> (r: String)
        ensures
            r@ == path_message(self.deep_view()),
    {
        match self {
            PathError::Empty => "workspace-relative path cannot be empty".to_owned(),
            PathError::Absolute(p) => text::concat2(
                "absolute or prefixed path is forbidden: ",
                p.as_str(),
            ),
            PathError::Traversal(p) => text::concat2(
                "parent traversal is forbidden: ",
                p.as_str(),
            ),
        }
    }
}

impl Clone for PathError {
    fn clone(&self) -> (r: Self)
        ensures
            r.deep_view() == self.deep_view(),
    {
        match self {
            PathError::Empty => PathError::Empty,
            PathError::Absolute(p) => PathError::Absolute(p.clone()),
            PathError::Traversal(p) => PathError::Traversal(p.clone()),
        }
    }
}

/// Whether a piece of a path names something: the empty piece and the current
/// directory do not.
pub open spec fn names_something(piece: Seq<char>) -> bool {
    piece.len() > 0 && piece != "."@
}

/// The pieces that name something, in order.
pub open spec fn naming(pieces: Seq<Seq<char>>) -> Seq<Seq<char>>
    decreases pieces.len(),
{
    if pieces.len() == 0 {
        Seq::empty()
    } else if names_something(pieces.last()) {
        naming(pieces.drop_last()).push(pieces.last())
    } else {
        naming(pieces.drop_last())
    }
}

/// The parts of a path, or why it is refused.
pub open spec fn path_spec(path: Seq<char>) -> Result<Seq<Seq<char>>, PathFault> {
    let pieces = text::split_char(path, '/');
    if path.len() == 0 {
        Err(PathFault::Empty)
    } else if path[0] == '/' {
        Err(PathFault::Absolute(path))
    } else if pieces.contains(".."@) {
        Err(PathFault::Traversal(path))
    } else if naming(pieces).len() == 0 {
        Err(PathFault::Empty)
    } else {
        Ok(naming(pieces))
    }
}

/// The parts of a path as one text.
pub open spec fn portable_spec(parts: Seq<Seq<char>>) -> Seq<char> {
    text::join_spec(parts, "/"@)
}

/// Whether a path's parts are what an accepted path consists of.
pub open spec fn safe_parts(parts: Seq<Seq<char>>) -> bool {
    parts.len() > 0 && forall|i: int|
        0 <= i < parts.len() ==> names_something(#[trigger] parts[i]) && parts[i] != ".."@
            && text::free_of(parts[i], '/')
}

/// Whether a path lies at or below another.
pub open spec fn lies_below(parts: Seq<Seq<char>>, scope: Seq<Seq<char>>) -> bool {
    scope.len() <= parts.len() && parts.take(scope.len() as int) == scope
}

proof fn lemma_naming(pieces: Seq<Seq<char>>)
    ensures
        forall|i: int|
            0 <= i < naming(pieces).len() ==> names_something(#[trigger] naming(pieces)[i])
                && pieces.contains(naming(pieces)[i]),
    decreases pieces.len(),
{
    if pieces.len() > 0 {
        let front = pieces.drop_last();
        lemma_naming(front);
        assert forall|i: int| 0 <= i < naming(pieces).len() implies names_something(
            #[trigger] naming(pieces)[i],
        ) && pieces.contains(naming(pieces)[i]) by {
            if i < naming(front).len() {
                assert(names_something(naming(front)[i]));
                let j = front.index_of(naming(front)[i]);
                assert(pieces[j] == naming(front)[i]);
            } else {
                assert(pieces[pieces.len() - 1] == naming(pieces)[i]);
            }
        }
    }
}

proof fn lemma_naming_all(pieces: Seq<Seq<char>>)
    requires
        forall|i: int| 0 <= i < pieces.len() ==> names_something(#[trigger] pieces[i]),
    ensures
        naming(pieces) == pieces,
    decreases pieces.len(),
{
    if pieces.len() > 0 {
        let front = pieces.drop_last();
        assert forall|i: int| 0 <= i < front.len() implies names_something(
            #[trigger] front[i],
        ) by {
            assert(front[i] == pieces[i]);
        }
        lemma_naming_all(front);
        assert(pieces.last() == pieces[pieces.len() - 1]);
        assert(naming(pieces) =~= pieces);
    }
}

/// Every part of an accepted path names something below the root: none is empty, the
/// current or the parent directory, and none holds a separator.
pub proof fn law_accepted_paths_stay_below(path: Seq<char>)
    ensures
        match path_spec(path) {
            Ok(parts) => safe_parts(parts),
            Err(_) => true,
        },
{
    let pieces = text::split_char(path, '/');
    lemma_naming(pieces);
    text::lemma_pieces_free(path, '/');
    match path_spec(path) {
        Ok(parts) => {
            assert forall|i: int| 0 <= i < parts.len() implies names_something(
                #[trigger] parts[i],
            ) && parts[i] != ".."@ && text::free_of(parts[i], '/') by {
                let j = pieces.index_of(parts[i]);
                assert(pieces[j] == parts[i]);
            }
        },
        Err(_) => {},
    }
}

/// What an accepted path is written as is accepted again, with the same parts; it is
/// not empty, not absolute, and traverses no parent directory.
pub proof fn law_portable_paths_are_canonical(parts: Seq<Seq<char>>)
    requires
        safe_parts(parts),
    ensures
        portable_spec(parts).len() > 0,
        portable_spec(parts)[0] != '/',
        !text::split_char(portable_spec(parts), '/').contains(".."@),
        path_spec(portable_spec(parts)) == Ok::<Seq<Seq<char>>, PathFault>(parts),
    decreases parts.len(),
{
    reveal_strlit("/");
    assert("/"@ =~= seq!['/']);
    text::lemma_split_joined(parts, '/');
    assert forall|i: int| 0 <= i < parts.len() implies names_something(#[trigger] parts[i]) by {}
    lemma_naming_all(parts);
    lemma_join_head(parts);
    if parts.contains(".."@) {
        let j = parts.index_of(".."@);
        assert(parts[j] == ".."@);
    }
}

proof fn lemma_join_head(parts: Seq<Seq<char>>)
    requires
        parts.len() > 0,
        parts[0].len() > 0,
        text::free_of(parts[0], '/'),
    ensures
        portable_spec(parts).len() > 0,
        portable_spec(parts)[0] != '/',
    decreases parts.len(),
{
    if parts.len() > 1 {
        assert(parts.drop_last()[0] == parts[0]);
        lemma_join_head(parts.drop_last());
        assert(portable_spec(parts)[0] == portable_spec(parts.drop_last())[0]);
    } else {
        assert(portable_spec(parts) == parts[0]);
        assert(parts[0][0] != '/');
    }
}

impl DeepView for SafeRelativePath {
    type V = Seq<Seq<char>>;

    closed spec fn deep_view(&self) -> Seq<Seq<char>> {
        self.parts.deep_view()
    }
}

impl SafeRelativePath {
    /// The parts are those of an accepted path.
    #[verifier::type_invariant]
    closed spec fn safe(self) -> bool {
        safe_parts(self.parts.deep_view())
    }

    /// Validates a path for use below a workspace root.
    pub fn new(path: &str) -> (r: Result<SafeRelativePath, PathError>)
        ensures
            outcome::of(r) == path_spec(path@),
            r is Ok ==> safe_parts(r->Ok_0.deep_view()),
    {
        let pieces = text::split(path, '/');
        let ghost all = text::split_char(path@, '/');
        assert(text::views(pieces@) == all);
        if path.is_empty() {
            return Err(PathError::Empty);
        }
        if text::starts_with(path, "/") {
            proof {
                reveal_strlit("/");
                assert(path@[0] == "/"@[0]);
            }
            return Err(PathError::Absolute(path.to_owned()));
        }
        proof {
            reveal_strlit("/");
            if path@[0] == '/' {
                assert("/"@ =~= path@.take(1));
            }
        }
        let mut parts: Vec<String> = Vec::new();
        let mut i: usize = 0;
        assert(parts.deep_view() =~= Seq::<Seq<char>>::empty());
        assert(all.take(0) =~= Seq::<Seq<char>>::empty());
        while i < pieces.len()
            invariant
                i <= pieces@.len(),
                all == text::split_char(path@, '/'),
                all == text::views(pieces@),
                all.len() == pieces@.len(),
                path@.len() > 0,
                path@[0] != '/',
                parts.deep_view() == naming(all.take(i as int)),
                forall|k: int| 0 <= k < i ==> #[trigger] all[k] != ".."@,
            decreases pieces@.len() - i,
        {
            let piece = pieces[i].as_str();
            let ghost before = parts.deep_view();
            assert(all[i as int] == piece@);
            assert(all.take(i as int + 1).drop_last() =~= all.take(i as int));
            assert(all.take(i as int + 1).last() == piece@);
            if text::same(piece, "..") {
                assert(all[i as int] == ".."@);
                assert(all.contains(".."@));
                return Err(PathError::Traversal(path.to_owned()));
            }
            if !piece.is_empty() && !text::same(piece, ".") {
                parts.push(piece.to_owned());
                assert(parts.deep_view() =~= before.push(piece@));
            }
            i += 1;
        }
        assert(all.take(all.len() as int) =~= all);
        assert(!all.contains(".."@)) by {
            if all.contains(".."@) {
                let j = all.index_of(".."@);
                assert(all[j] == ".."@);
            }
        }
        assert(parts.deep_view().len() == parts@.len());
        if parts.len() == 0 {
            return Err(PathError::Empty);
        }
        proof {
            law_accepted_paths_stay_below(path@);
        }
        Ok(SafeRelativePath { parts })
    }

    /// The path as one text, with forward slashes.
    pub fn portable(&self) -> (r: String)
        ensures
            r@ == portable_spec(self.deep_view()),
            path_spec(r@) == Ok::<Seq<Seq<char>>, PathFault>(self.deep_view()),
    {
        proof {
            use_type_invariant(self);
            law_portable_paths_are_canonical(self.deep_view());
            assert(text::views(self.parts@) =~= self.parts.deep_view());
        }
        text::join(&self.parts, "/")
    }

    /// The normalized path.
    pub fn as_path(&self) -> (r: String)
        ensures
            r@ == portable_spec(self.deep_view()),
    {
        self.portable()
    }

    /// The parts of the path.
    pub fn pieces(&self) -> (r: &Vec<String>)
        ensures
            r.deep_view() == self.deep_view(),
    {
        &self.parts
    }

    /// Whether the path lies at or below `scope`.
    pub fn starts_with(&self, scope: &SafeRelativePath) -> (r: bool)
        ensures
            r == lies_below(self.deep_view(), scope.deep_view()),
    {
        let ghost mine = self.parts.deep_view();
        let ghost its = scope.parts.deep_view();
        assert(mine.len() == self.parts@.len());
        assert(its.len() == scope.parts@.len());
        if scope.parts.len() > self.parts.len() {
            return false;
        }
        let mut i: usize = 0;
        while i < scope.parts.len()
            invariant
                i <= scope.parts@.len(),
                scope.parts@.len() <= self.parts@.len(),
                mine == self.parts.deep_view(),
                its == scope.parts.deep_view(),
                mine.len() == self.parts@.len(),
                its.len() == scope.parts@.len(),
                mine.take(i as int) == its.take(i as int),
            decreases scope.parts@.len() - i,
        {
            assert(mine[i as int] == self.parts@[i as int]@);
            assert(its[i as int] == scope.parts@[i as int]@);
            if !text::same(self.parts[i].as_str(), scope.parts[i].as_str()) {
                assert(mine.take(its.len() as int)[i as int] != its[i as int]);
                return false;
            }
            assert(mine.take(i as int + 1) =~= mine.take(i as int).push(mine[i as int]));
            assert(its.take(i as int + 1) =~= its.take(i as int).push(its[i as int]));
            i += 1;
        }
        assert(its.take(its.len() as int) =~= its);
        true
    }
}

} // verus!
