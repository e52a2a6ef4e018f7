//! One client's session, and how the paths that the client names are found in the file system.
use vstd::prelude::*;
use vstd::string::*;

use crate::config::{ConfigView, FtpConfig};
use crate::path;
use crate::text;

verus! {

/// The state of one control connection.
#[derive(Debug, PartialEq, Eq)]
pub struct Session {
    /// Whether the client has logged in.
    pub authenticated: bool,
    /// The user name that the client gave last.
    pub username: Option<String>,
    /// The virtual directory that relative paths start from.
    pub current_dir: String,
    /// The canonical path of the directory that is served.
    pub root_dir: String,
    /// Whether a data port is open and not yet used.
    pub pasv_listener: bool,
    /// The settings of the server.
    pub config: FtpConfig,
    /// Whether the server runs on Windows.
    pub windows: bool,
}

/// What a session holds.
pub struct SessionView {
    pub authenticated: bool,
    pub username: Option<Seq<char>>,
    pub current_dir: Seq<char>,
    pub root_dir: Seq<char>,
    pub pasv_listener: bool,
    pub config: ConfigView,
    pub windows: bool,
}

impl View for Session {
    type V = SessionView;

    open spec fn view(&self) -> SessionView {
        SessionView {
            authenticated: self.authenticated,
            username: self.username.deep_view(),
            current_dir: self.current_dir@,
            root_dir: self.root_dir@,
            pasv_listener: self.pasv_listener,
            config: self.config@,
            windows: self.windows,
        }
    }
}

/// Why a path is refused.
#[derive(Clone, Copy, Debug, PartialEq, Eq, Structural)]
pub enum PathError {
    /// The file system could not give the canonical path.
    Unresolved,
    /// Neither the path nor its parent directory exists.
    ParentMissing,
    /// The path leads out of the root directory.
    OutsideRoot,
    /// The path was not divided into its parent and its last name as on the platform of the server.
    Undivided,
}

/// How far the search for the real path of a virtual path has come.
#[derive(Debug, PartialEq, Eq)]
pub enum Search {
    /// It is over.
    Done(Result<String, PathError>),
    /// Look at `path`, then go on with `path_seen`.
    Look { path: String },
    /// What was looked for does not exist, and `name` is its last name: look at `parent`, then go
    /// on with `parent_seen`.
    LookAbove { parent: String, name: Option<String> },
}

/// What the file system says of a path.
#[derive(Debug, PartialEq, Eq)]
pub enum Sight {
    /// It does not exist.
    Missing,
    /// It exists; its canonical path, if it can be had.
    Present(Option<String>),
}

/// A `Search`, with sequences of characters for its texts.
pub enum SearchView {
    Done(Result<Seq<char>, PathError>),
    Look { path: Seq<char> },
    LookAbove { parent: Seq<char>, name: Option<Seq<char>> },
}

impl View for Search {
    type V = SearchView;

    open spec fn view(&self) -> SearchView {
        match self {
            Search::Done(found) => SearchView::Done(path_view(*found)),
            Search::Look { path } => SearchView::Look { path: path@ },
            Search::LookAbove { parent, name } => SearchView::LookAbove {
                parent: parent@,
                name: name.deep_view(),
            },
        }
    }
}

/// A `Sight`, with a sequence of characters for its text.
pub enum SightView {
    Missing,
    Present(Option<Seq<char>>),
}

impl View for Sight {
    type V = SightView;

    open spec fn view(&self) -> SightView {
        match self {
            Sight::Missing => SightView::Missing,
            Sight::Present(canonical) => SightView::Present(canonical.deep_view()),
        }
    }
}

/// `virtual_path` without the slash in front.
pub open spec fn below_root(virtual_path: Seq<char>) -> Seq<char> {
    if text::begins_with(virtual_path, '/') {
        virtual_path.skip(1)
    } else {
        virtual_path
    }
}

/// `path` if it lies within `root`, and a refusal if not.
pub open spec fn confined(root: Seq<char>, path: Seq<char>, windows: bool) -> Result<
    Seq<char>,
    PathError,
> {
    if path::lies_within(root, path, windows) {
        Ok(path)
    } else {
        Err(PathError::OutsideRoot)
    }
}

/// The real path for a canonical path, if that could be had.
pub open spec fn canonical_found(s: SessionView, canonical: Option<Seq<char>>) -> Result<
    Seq<char>,
    PathError,
> {
    match canonical {
        Some(path) => confined(s.root_dir, path::normalized(path, s.windows), s.windows),
        None => Err(PathError::Unresolved),
    }
}

/// A path or a refusal, with the path as a sequence of characters.
pub open spec fn path_view(r: Result<String, PathError>) -> Result<Seq<char>, PathError> {
    match r {
        Ok(path) => Ok(path@),
        Err(e) => Err(e),
    }
}

/// The search for the real path of `virtual_path` at its beginning; `joined` is what comes of
/// joining the path to the root directory.
pub open spec fn search_begun(
    s: SessionView,
    virtual_path: Seq<char>,
    joined: Seq<char>,
) -> SearchView {
    if below_root(virtual_path).len() == 0 {
        SearchView::Done(Ok(s.root_dir))
    } else {
        SearchView::Look { path: joined }
    }
}

/// The search after `path` was looked at; `parent` is its parent and `name` its last name.
pub open spec fn search_after_look(
    s: SessionView,
    path: Seq<char>,
    sight: SightView,
    parent: Option<Seq<char>>,
    name: Option<Seq<char>>,
) -> SearchView {
    match sight {
        SightView::Present(canonical) => SearchView::Done(canonical_found(s, canonical)),
        SightView::Missing => if !path::agrees(path, parent, name, s.windows) {
            SearchView::Done(Err(PathError::Undivided))
        } else {
            match parent {
                Some(parent) => SearchView::LookAbove { parent, name },
                None => SearchView::Done(confined(s.root_dir, path, s.windows)),
            }
        },
    }
}

/// What is joined at the end of a search for something that does not exist, whose parent was
/// looked at and whose last name is `name`: the name, to the parent.
pub open spec fn to_be_joined(s: SessionView, sight: SightView, name: Option<Seq<char>>) -> Option<
    (Seq<char>, Seq<char>),
> {
    match (sight, name) {
        (SightView::Present(Some(parent)), Some(name)) => if path::is_plain_name(name, s.windows) {
            Some((path::normalized(parent, s.windows), name))
        } else {
            None
        },
        _ => None,
    }
}

/// Whether `joined` can come of joining what is joined at the end of a search; any text will do
/// where nothing is joined.
pub open spec fn joins_above(
    s: SessionView,
    sight: SightView,
    name: Option<Seq<char>>,
    joined: Seq<char>,
) -> bool {
    match to_be_joined(s, sight, name) {
        Some((parent, name)) => path::joins_for(parent, name, joined, s.windows),
        None => true,
    }
}

/// The end of a search for something that does not exist, after its parent was looked at;
/// `joined` is its last name joined to the parent.
pub open spec fn search_ended(
    s: SessionView,
    name: Option<Seq<char>>,
    sight: SightView,
    joined: Seq<char>,
) -> Result<Seq<char>, PathError> {
    if name is Some && !path::is_plain_name(name->0, s.windows) {
        Err(PathError::Undivided)
    } else {
        match sight {
            SightView::Missing => Err(PathError::ParentMissing),
            SightView::Present(canonical) => if canonical is Some && name is Some {
                confined(s.root_dir, joined, s.windows)
            } else {
                canonical_found(s, canonical)
            },
        }
    }
}

/// Whether a search that is over has found nothing but what lies within the root directory.
pub open spec fn ends_in_root(s: SessionView, search: SearchView) -> bool {
    search matches SearchView::Done(Ok(path)) ==> path::lies_within(s.root_dir, path, s.windows)
}

/// Whether `dir` is a directory that a client can be in: a slash in front, no backslash.
pub open spec fn is_client_dir(dir: Seq<char>) -> bool {
    text::begins_with(dir, '/') && !dir.contains('\\')
}

impl SessionView {
    /// The state of a session before the first command.
    pub open spec fn initial(config: ConfigView, root_dir: Seq<char>, windows: bool) -> SessionView {
        SessionView {
            authenticated: false,
            username: None,
            current_dir: seq!['/'],
            root_dir,
            pasv_listener: false,
            config,
            windows,
        }
    }

    /// What holds of a session at all times.
    pub open spec fn well_formed(self) -> bool {
        is_client_dir(self.current_dir)
    }
}

impl Session {
    /// A session in which no command was given yet.
    pub fn new(config: FtpConfig, root_dir: String, windows: bool) -> (r: Session)
        ensures
            r@ == SessionView::initial(config@, root_dir@, windows),
            r@.well_formed(),
    {
        let mut current_dir = String::new();
        current_dir.push('/');
        assert(current_dir@ =~= seq!['/']);
        Session {
            authenticated: false,
            username: None,
            current_dir,
            root_dir,
            pasv_listener: false,
            config,
            windows,
        }
    }

    /// `path` if it lies within the root directory.
    pub fn confine(&self, path: &str) -> (r: Result<String, PathError>)
        ensures
            path_view(r) == confined(self.root_dir@, path@, self.windows),
            path::extends(self.root_dir@, path@, self.windows) && !path::climbs(
                path@,
                self.windows,
            ) ==> r is Ok,
    {
        if path::is_within(self.root_dir.as_str(), path, self.windows) {
            Ok(path.to_string())
        } else {
            Err(PathError::OutsideRoot)
        }
    }

    /// The real path for a canonical path, if that could be had.
    fn accept(&self, canonical: Option<String>) -> (r: Result<String, PathError>)
        ensures
            path_view(r) == canonical_found(self@, canonical.deep_view()),
    {
        match canonical {
            Some(path) => self.confine(
                path::normalize_path(path.as_str(), self.windows).as_str(),
            ),
            None => Err(PathError::Unresolved),
        }
    }

    /// Begins the search for the real path of `virtual_path`: it is the root directory if nothing
    /// but a slash is named, else it is to be looked for below the root directory. Going up by
    /// `..` is allowed, but no search ends outside the root directory.
    pub fn get_real_path(&self, virtual_path: &str) -> (r: Search)
        ensures
            exists|joined: Seq<char>| #[trigger]
                path::joins_for(
                    self.root_dir@,
                    below_root(virtual_path@),
                    joined,
                    self.windows,
                ) && r@ == search_begun(self@, virtual_path@, joined),
            ends_in_root(self@, r@),
    {
        let len = virtual_path.unicode_len();
        let below = if text::starts_with(virtual_path, '/') {
            assert(virtual_path@.subrange(1, len as int) =~= virtual_path@.skip(1));
            virtual_path.substring_char(1, len)
        } else {
            virtual_path
        };
        assert(below@ == below_root(virtual_path@));
        if below.is_empty() {
            proof {
                let joined = if self.windows && path::joins_plainly(self.root_dir@, below@) {
                    path::windows_join(self.root_dir@, below@)
                } else {
                    path::unix_join(self.root_dir@, below@)
                };
                assert(path::joins_for(self.root_dir@, below@, joined, self.windows));
            }
            Search::Done(Ok(self.root_dir.clone()))
        } else {
            Search::Look { path: path::join_for(self.root_dir.as_str(), below, self.windows) }
        }
    }

    /// Goes on with a search for `path` that does not exist, where `parent` is its parent and
    /// `name` its last name: the parent is to be looked at, if there is one. Where the two are not
    /// those of the platform of the server, the path is refused.
    pub fn path_missing(&self, path: &str, parent: Option<String>, name: Option<String>) -> (r:
        Search)
        ensures
            r@ == search_after_look(
                self@,
                path@,
                SightView::Missing,
                parent.deep_view(),
                name.deep_view(),
            ),
            ends_in_root(self@, r@),
    {
        let above: Option<&str> = match &parent {
            Some(parent) => Some(parent.as_str()),
            None => None,
        };
        let last: Option<&str> = match &name {
            Some(name) => Some(name.as_str()),
            None => None,
        };
        if !path::answers_agree(path, above, last, self.windows) {
            return Search::Done(Err(PathError::Undivided));
        }
        match parent {
            Some(parent) => Search::LookAbove { parent, name },
            None => Search::Done(self.confine(path)),
        }
    }

    /// Goes on with a search after `path` was looked at. What exists is found, if it lies within
    /// the root directory; else its parent is to be looked at, if it has one.
    pub fn path_seen(&self, path: &str, sight: Sight) -> (r: Search)
        ensures
            exists|parent: Option<Seq<char>>, name: Option<Seq<char>>|
                #[trigger] path::parent_of(path@, parent) && #[trigger] path::last_name_of(
                    path@,
                    name,
                ) && r@ == search_after_look(self@, path@, sight@, parent, name),
            r@ matches SearchView::LookAbove { parent, name } ==> path::agrees(
                path@,
                Some(parent),
                name,
                self.windows,
            ),
            sight@ is Missing && path::is_ordinary(path@, self.windows) ==> forall|
                dir: Seq<char>,
                gap: Seq<char>,
                name: Seq<char>,
                tail: Seq<char>,
            | #[trigger]
                path::divides_on(path@, dir, gap, name, tail, self.windows) ==> {
                    ||| r@ == SearchView::Done(Err(PathError::Undivided))
                    ||| r@ == (SearchView::LookAbove {
                        parent: path@.take(path::root_len(path@, self.windows)) + dir,
                        name: if name == seq!['.', '.'] {
                            None
                        } else {
                            Some(name)
                        },
                    })
                },
            sight@ is Missing ==> forall|
                dir: Seq<char>,
                gap: Seq<char>,
                name: Seq<char>,
                tail: Seq<char>,
            |
                path::divides_on(path@, dir, gap, name, tail, false) && #[trigger] path::divides_on(
                    path@,
                    dir,
                    gap,
                    name,
                    tail,
                    true,
                ) ==> r@ == (SearchView::LookAbove {
                    parent: path@.take(path::root_len(path@, self.windows)) + dir,
                    name: if name == seq!['.', '.'] {
                        None
                    } else {
                        Some(name)
                    },
                }),
            ends_in_root(self@, r@),
    {
        let parent = path::parent(path);
        let name = path::last_name(path);
        assert(path::parent_of(path@, parent.deep_view()));
        assert(path::last_name_of(path@, name.deep_view()));
        proof {
            let p = parent.deep_view();
            let l = name.deep_view();
            if path::is_ordinary(path@, self.windows) && path::agrees(path@, p, l, self.windows) {
                assert forall|d: Seq<char>, g: Seq<char>, n: Seq<char>, t: Seq<char>| #[trigger]
                    path::divides_on(path@, d, g, n, t, self.windows) implies p == Some(
                    path@.take(path::root_len(path@, self.windows)) + d,
                ) && l == (if n == seq!['.', '.'] {
                    None
                } else {
                    Some(n)
                }) by {
                    path::law_agreement_is_the_division(path@, p, l, d, g, n, t, self.windows);
                }
            }
        }
        match sight {
            Sight::Present(canonical) => Search::Done(self.accept(canonical)),
            Sight::Missing => self.path_missing(path, parent, name),
        }
    }

    /// Ends a search for something that does not exist, after its parent was looked at: it would
    /// be found in its parent under its last name, if that lies within the root directory.
    pub fn parent_seen(&self, name: Option<&str>, sight: Sight) -> (r: Result<String, PathError>)
        ensures
            exists|joined: Seq<char>| #[trigger]
                joins_above(self@, sight@, name.deep_view(), joined) && path_view(r)
                    == search_ended(self@, name.deep_view(), sight@, joined),
            ends_in_root(self@, SearchView::Done(path_view(r))),
    {
        let ghost seen = sight@;
        let ghost nothing = Seq::<char>::empty();
        if let Some(name) = name {
            if !path::plain_name(name, self.windows) {
                assert(joins_above(self@, seen, Some(name@), nothing));
                return Err(PathError::Undivided);
            }
        }
        match sight {
            Sight::Missing => {
                assert(joins_above(self@, seen, name.deep_view(), nothing));
                Err(PathError::ParentMissing)
            },
            Sight::Present(canonical) => match (canonical, name) {
                (Some(parent), Some(name)) => {
                    let parent = path::normalize_path(parent.as_str(), self.windows);
                    let joined = path::join_for(parent.as_str(), name, self.windows);
                    assert(joins_above(self@, seen, Some(name@), joined@));
                    self.confine(joined.as_str())
                },
                (canonical, name) => {
                    assert(joins_above(self@, seen, name.deep_view(), nothing));
                    self.accept(canonical)
                },
            },
        }
    }
}

} // verus!
