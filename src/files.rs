use std::path::PathBuf;
use vstd::prelude::*;

verus! {

/// `std::path::PathBuf`, held unopened as the root of a `FileTree`.
#[verifier::external_type_specification]
#[verifier::external_body]
pub struct ExPathBuf(PathBuf);

/// Why a request path could not be served.
#[derive(Debug, Clone, Copy, PartialEq, Eq, Structural)]
pub enum PathError {
    /// Empty, `.`, or holding `..`: refused before the file system is consulted.
    InvalidPath,
    /// The file does not exist under the root.
    NotFound,
    /// Any other failure to open or inspect the file.
    Io,
}

/// What opening a joined path on the file system gave.
#[derive(Debug, Clone, Copy, PartialEq, Eq, Structural)]
pub enum OpenOutcome {
    /// The file was opened; its length in bytes.
    Opened(u64),
    /// No entry of that name exists.
    Missing,
    /// Opening or inspecting it failed otherwise (permissions, a directory, ...).
    Failed,
}

/// The request path with a single leading `/` removed.
pub open spec fn strip_leading_slash(p: Seq<char>) -> Seq<char> {
    if p.len() > 0 && p[0] == '/' {
        p.drop_first()
    } else {
        p
    }
}

/// Whether two consecutive dots occur anywhere in `s`.
pub open spec fn has_dot_dot(s: Seq<char>) -> bool {
    exists|i: int| 0 <= i && i + 1 < s.len() && #[trigger] s[i] == '.' && s[i + 1] == '.'
}

/// Whether a relative path passes the traversal guard: it is not empty, not `.`,
/// holds no `..`, and does not start with `/` (joining an absolute path onto the root
/// would replace the root).
pub open spec fn is_allowed(rel: Seq<char>) -> bool {
    rel.len() > 0 && rel[0] != '/' && rel != "."@ && !has_dot_dot(rel)
}

/// The relative path that is joined onto the root, or why the request path is refused.
pub open spec fn guard(path: Seq<char>) -> Result<Seq<char>, PathError> {
    let rel = strip_leading_slash(path);
    if is_allowed(rel) {
        Ok(rel)
    } else {
        Err(PathError::InvalidPath)
    }
}

/// What resolving a request path yields, given what opening the joined path gave
/// (the file system is only consulted when the guard lets the path through).
pub open spec fn resolution(path: Seq<char>, open: OpenOutcome) -> Result<u64, PathError> {
    match guard(path) {
        Err(e) => Err(e),
        Ok(_) => match open {
            OpenOutcome::Opened(size) => Ok(size),
            OpenOutcome::Missing => Err(PathError::NotFound),
            OpenOutcome::Failed => Err(PathError::Io),
        },
    }
}

/// A directory tree from which files are served; no path outside it is ever opened.
pub struct FileTree {
    root: PathBuf,
}

impl FileTree {
    /// The root directory that the tree was made with.
    pub closed spec fn root_dir(&self) -> PathBuf {
        self.root
    }

    /// A tree rooted at `root`.
    pub fn new(root: PathBuf) -> (r: FileTree)
        ensures
            r.root_dir() == root,
    {
        FileTree { root }
    }

    /// The root directory.
    pub fn root(&self) -> (r: &PathBuf)
        ensures
            *r == self.root_dir(),
    {
        &self.root
    }

    /// Applies the traversal guard to a request path: strips one leading `/`, refuses
    /// the result if it is empty, is `.`, starts with `/`, or holds `..` anywhere, and
    /// otherwise returns it as the path to join onto the root.
    pub fn check_path(&self, path: &str) -> (r: Result<String, PathError>)
        ensures
            match (r, guard(path@)) {
                (Ok(s), Ok(rel)) => s@ == rel,
                (Err(e), Err(g)) => e == g,
                _ => false,
            },
            r matches Ok(s) ==> s@.len() > 0 && s@[0] != '/' && !has_dot_dot(s@),
    {
        let n = path.unicode_len();
        let start: usize = if n > 0 && path.get_char(0) == '/' {
            1
        } else {
            0
        };
        let rel = path.substring_char(start, n);
        proof {
            assert(rel@ =~= strip_leading_slash(path@));
        }
        let m = rel.unicode_len();
        if m == 0 || rel.get_char(0) == '/' {
            return Err(PathError::InvalidPath);
        }
        if m == 1 && rel.get_char(0) == '.' {
            assert(rel@ =~= "."@) by {
                reveal_strlit(".");
            }
            return Err(PathError::InvalidPath);
        }
        proof {
            reveal_strlit(".");
            if m == 1 {
                assert(rel@[0] != "."@[0]);
            }
            assert(rel@ != "."@);
        }
        let mut i: usize = 0;
        while i + 1 < m
            invariant
                m == rel@.len(),
                0 < m,
                i < m,
                rel@ == strip_leading_slash(path@),
                rel@ != "."@,
                rel@[0] != '/',
                forall|j: int| 0 <= j < i && j + 1 < m ==> !(#[trigger] rel@[j] == '.' && rel@[j + 1] == '.'),
            decreases m - i,
        {
            if rel.get_char(i) == '.' && rel.get_char(i + 1) == '.' {
                assert(has_dot_dot(rel@));
                return Err(PathError::InvalidPath);
            }
            i = i + 1;
        }
        Ok(rel.to_owned())
    }
}

/// Turns what opening a guarded path gave into the outcome of resolution: the file's
/// length, `NotFound` when no such entry exists, `Io` for any other failure.
pub fn open_result(open: OpenOutcome) -> (r: Result<u64, PathError>)
    ensures
        forall|path: Seq<char>| guard(path) is Ok ==> r == resolution(path, open),
{
    match open {
        OpenOutcome::Opened(size) => Ok(size),
        OpenOutcome::Missing => Err(PathError::NotFound),
        OpenOutcome::Failed => Err(PathError::Io),
    }
}

/// A request path that is empty, `.`, `..`, or holds `..` anywhere (after one leading
/// `/` is removed) is refused as invalid, whatever the file system holds.
pub proof fn traversal_refused(path: Seq<char>, open: OpenOutcome)
    requires
        ({
            let rel = strip_leading_slash(path);
            rel.len() == 0 || rel == "."@ || rel == ".."@ || has_dot_dot(rel)
        }),
    ensures
        guard(path) == Err::<Seq<char>, PathError>(PathError::InvalidPath),
        resolution(path, open) == Err::<u64, PathError>(PathError::InvalidPath),
{
    reveal_strlit("..");
    let rel = strip_leading_slash(path);
    if rel == ".."@ {
        assert(rel[0] == '.' && rel[1] == '.');
    }
}

/// Every path that the guard lets through is relative and free of `..`, so joined
/// onto the root it names an entry below the root.
pub proof fn guarded_path_stays_below_root(path: Seq<char>)
    requires
        guard(path) is Ok,
    ensures
        ({
            let rel = guard(path)->Ok_0;
            rel.len() > 0 && rel[0] != '/' && !has_dot_dot(rel)
        }),
{
}

/// A path that passes the guard but names no existing file resolves to `NotFound`,
/// never to `InvalidPath`.
pub proof fn missing_is_not_found(path: Seq<char>)
    requires
        is_allowed(strip_leading_slash(path)),
    ensures
        resolution(path, OpenOutcome::Missing) == Err::<u64, PathError>(PathError::NotFound),
{
}

} // verus!
