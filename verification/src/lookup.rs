//! The search for a path as a whole, on a machine that answers what is asked during it.
use vstd::prelude::*;

use crate::command;
use crate::command::ActionView;
use crate::laws;
use crate::path;
use crate::session;
use crate::session::{PathError, SearchView, SessionView, SightView};
use crate::text;

verus! {

/// A machine while nothing changes on its disk: how it joins and divides paths, and what it says
/// of a path that is looked at.
pub struct Machine {
    pub windows: bool,
    pub join: spec_fn(Seq<char>, Seq<char>) -> Seq<char>,
    pub parent: spec_fn(Seq<char>) -> Option<Seq<char>>,
    pub last_name: spec_fn(Seq<char>) -> Option<Seq<char>>,
    pub look: spec_fn(Seq<char>) -> SightView,
}

impl Machine {
    /// Whether the machine treats paths as its platform does.
    pub open spec fn valid(self) -> bool {
        &&& forall|base: Seq<char>, part: Seq<char>|
            path::joins_on(base, part, #[trigger] (self.join)(base, part), self.windows)
        &&& forall|path: Seq<char>|
            path::parent_on(path, #[trigger] (self.parent)(path), self.windows)
        &&& forall|path: Seq<char>|
            path::last_name_on(path, #[trigger] (self.last_name)(path), self.windows)
    }

    /// The end of a search that is to look at `path`.
    pub open spec fn found_at(self, s: SessionView, path: Seq<char>) -> Result<
        Seq<char>,
        PathError,
    > {
        match session::search_after_look(
            s,
            path,
            (self.look)(path),
            (self.parent)(path),
            (self.last_name)(path),
        ) {
            SearchView::Done(found) => found,
            SearchView::Look { path } => Err(PathError::Unresolved),
            SearchView::LookAbove { parent, name } => {
                let sight = (self.look)(parent);
                let joined = match session::to_be_joined(s, sight, name) {
                    Some((parent, name)) => (self.join)(parent, name),
                    None => Seq::empty(),
                };
                session::search_ended(s, name, sight, joined)
            },
        }
    }

    /// The real path of `virtual_path`, or why it is refused.
    pub open spec fn real_path(self, s: SessionView, virtual_path: Seq<char>) -> Result<
        Seq<char>,
        PathError,
    > {
        match session::search_begun(
            s,
            virtual_path,
            (self.join)(s.root_dir, session::below_root(virtual_path)),
        ) {
            SearchView::Done(found) => found,
            SearchView::Look { path } => self.found_at(s, path),
            SearchView::LookAbove { parent, name } => Err(PathError::Unresolved),
        }
    }

    /// The virtual path that the name `name` stands for in the current directory.
    pub open spec fn virtual_path(self, s: SessionView, name: Seq<char>) -> Seq<char> {
        match command::target(s.current_dir, name) {
            command::TargetView::Path(path) => path,
            command::TargetView::Joined { dir, path } => (self.join)(dir, path),
        }
    }

    /// Whether looking at `dir` under any of its names, which on Windows may have slashes for
    /// backslashes, gives `dir` as its canonical path.
    pub open spec fn knows(self, dir: Seq<char>) -> bool {
        forall|p: Seq<char>| #[trigger]
            same_place(p, dir, self.windows) ==> ((self.look)(p) matches SightView::Present(
                Some(c),
            ) && path::normalized(c, self.windows) == dir)
    }
}

/// Whether two paths are the same but for the kinds of separators.
pub open spec fn same_place(p: Seq<char>, q: Seq<char>, windows: bool) -> bool {
    if windows {
        text::forward_slashes(p) == text::forward_slashes(q)
    } else {
        p == q
    }
}

/// Whether `rest` can follow the path of the root directory in a canonical path: it begins a new
/// name, with no separator to spare, and holds nothing that would read as a separator or a drive in
/// a virtual path. On Windows the root directory is no drive without a root and does not begin with
/// the verbatim prefix.
pub open spec fn follows_root(root: Seq<char>, rest: Seq<char>, windows: bool) -> bool {
    &&& root.len() > 0
    &&& rest.len() > 0
    &&& if path::is_separator(root.last(), windows) {
        !path::is_separator(rest[0], windows)
    } else {
        path::is_separator(rest[0], windows) && rest.len() > 1 && !path::is_separator(
            rest[1],
            windows,
        )
    }
    &&& if windows {
        &&& !path::has_drive(
            if path::is_separator(root.last(), true) {
                rest
            } else {
                rest.skip(1)
            },
        )
        &&& !(root.len() == 2 && path::has_drive(root))
        &&& !path::verbatim_prefix().is_prefix_of(root)
    } else {
        !rest.contains('\\')
    }
}

/// The session and the reply after the command to enter `name`, on a machine where `is_dir` tells
/// directories from other things.
pub open spec fn entered(
    s: SessionView,
    m: Machine,
    arg: Option<Seq<char>>,
    up: Option<Seq<char>>,
    is_dir: spec_fn(Seq<char>) -> bool,
) -> (SessionView, Seq<char>) {
    let (s1, action) = command::obeyed(s, "CWD"@, arg, up);
    match action {
        ActionView::Resolve { purpose, target } => {
            let virtual_path = match target {
                command::TargetView::Path(path) => path,
                command::TargetView::Joined { dir, path } => (m.join)(dir, path),
            };
            let (s2, action) = command::resolved(s1, purpose, m.real_path(s1, virtual_path));
            match action {
                ActionView::CheckDir { path } => command::changed_dir(s2, path, is_dir(path)),
                ActionView::Reply(reply) => (s2, reply),
                _ => (s2, Seq::empty()),
            }
        },
        ActionView::Reply(reply) => (s1, reply),
        _ => (s1, Seq::empty()),
    }
}

/// A path is found in the same way with and without a slash in front.
pub proof fn law_leading_slash_is_optional(s: SessionView, m: Machine, x: Seq<char>)
    requires
        !text::begins_with(x, '/'),
    ensures
        session::below_root(seq!['/'] + x) == session::below_root(x),
        m.real_path(s, seq!['/'] + x) == m.real_path(s, x),
{
    assert((seq!['/'] + x).skip(1) =~= x);
}

/// Whatever is answered during a search, no step of it ends anywhere but within the root directory:
/// what is found is the root directory or has no name that leads up to a parent directory.
pub proof fn law_no_search_leads_out(
    s: SessionView,
    virtual_path: Seq<char>,
    path: Seq<char>,
    sight: SightView,
    parent: Option<Seq<char>>,
    name: Option<Seq<char>>,
    joined: Seq<char>,
)
    ensures
        stays_below(s, session::search_begun(s, virtual_path, joined)),
        stays_below(s, session::search_after_look(s, path, sight, parent, name)),
        stays_below(s, SearchView::Done(session::search_ended(s, name, sight, joined))),
{
    lemma_stays_below(s, session::search_begun(s, virtual_path, joined));
    lemma_stays_below(s, session::search_after_look(s, path, sight, parent, name));
    lemma_stays_below(s, SearchView::Done(session::search_ended(s, name, sight, joined)));
}

/// Whether a search that is over has found nothing but the root directory or what lies within it by
/// names of which none leads up to a parent directory.
pub open spec fn stays_below(s: SessionView, search: SearchView) -> bool {
    search matches SearchView::Done(Ok(path)) ==> {
        &&& path::lies_within(s.root_dir, path, s.windows)
        &&& path == s.root_dir || !laws::names(path, s.windows).contains(seq!['.', '.'])
    }
}

proof fn lemma_stays_below(s: SessionView, search: SearchView)
    requires
        session::ends_in_root(s, search),
    ensures
        stays_below(s, search),
{
    if let SearchView::Done(Ok(path)) = search {
        if path != s.root_dir {
            laws::law_no_name_leads_up(path, s.windows);
        }
    }
}

/// Whatever the machine answers, a search ends within the root directory or is refused.
pub proof fn law_search_ends_in_root(s: SessionView, m: Machine, virtual_path: Seq<char>)
    ensures
        stays_below(s, SearchView::Done(m.real_path(s, virtual_path))),
{
    lemma_stays_below(s, SearchView::Done(m.real_path(s, virtual_path)));
}

/// What does not exist is looked for in its parent: it would be there under its last name, joined
/// to the canonical path of the parent, if that lies within the root directory; a path that ends in
/// the name of a parent directory leads to the canonical path of its own parent.
pub proof fn law_missing_path_is_in_its_parent(
    s: SessionView,
    m: Machine,
    virtual_path: Seq<char>,
    dir: Seq<char>,
    gap: Seq<char>,
    name: Seq<char>,
    tail: Seq<char>,
)
    requires
        m.valid(),
        m.windows == s.windows,
        session::below_root(virtual_path).len() > 0,
        ({
            let full = (m.join)(s.root_dir, session::below_root(virtual_path));
            &&& (m.look)(full) is Missing
            &&& path::divides_on(full, dir, gap, name, tail, s.windows)
        }),
    ensures
        ({
            let full = (m.join)(s.root_dir, session::below_root(virtual_path));
            let parent = full.take(path::root_len(full, s.windows)) + dir;
            let found = m.real_path(s, virtual_path);
            match (m.look)(parent) {
                SightView::Missing => found == Err::<Seq<char>, _>(PathError::ParentMissing),
                SightView::Present(None) => found == Err::<Seq<char>, _>(PathError::Unresolved),
                SightView::Present(Some(canonical)) => {
                    let above = path::normalized(canonical, s.windows);
                    found == session::confined(
                        s.root_dir,
                        if name == seq!['.', '.'] {
                            above
                        } else {
                            (m.join)(above, name)
                        },
                        s.windows,
                    )
                },
            }
        }),
{
    let full = (m.join)(s.root_dir, session::below_root(virtual_path));
    let parent = full.take(path::root_len(full, s.windows)) + dir;
    let last = if name == seq!['.', '.'] {
        None
    } else {
        Some(name)
    };
    assert((m.parent)(full) == Some(parent));
    assert((m.last_name)(full) == last);
    assert(path::is_division(full, parent, name, s.windows));
    assert(path::agrees(full, Some(parent), last, s.windows));
}

proof fn lemma_no_backslash_stays(s: Seq<char>)
    requires
        !s.contains('\\'),
    ensures
        text::forward_slashes(s) == s,
{
    assert forall|i: int| 0 <= i < s.len() implies #[trigger] text::forward_slashes(s)[i]
        == s[i] by {
        assert(s.contains(s[i]));
    }
    assert(text::forward_slashes(s) =~= s);
}

/// Looking for the virtual name of a directory leads to the directory itself.
proof fn lemma_virtual_name_leads_back(s: SessionView, m: Machine, rest: Seq<char>)
    requires
        m.valid(),
        m.windows == s.windows,
        follows_root(s.root_dir, rest, s.windows),
    ensures
        ({
            let below = session::below_root(path::rooted(rest));
            &&& below.len() > 0
            &&& same_place((m.join)(s.root_dir, below), s.root_dir + rest, s.windows)
        }),
{
    let root = s.root_dir;
    let f = text::forward_slashes(rest);
    let below = session::below_root(path::rooted(rest));
    let joined = (m.join)(root, below);
    assert(path::joins_on(root, below, joined, m.windows));
    if path::is_separator(root.last(), s.windows) {
        assert((seq!['/'] + f).skip(1) =~= f);
        assert(f[0] == rest[0] || rest[0] == '\\');
        if s.windows {
            assert(below == f);
        } else {
            lemma_no_backslash_stays(rest);
            assert(below == f);
        }
    } else {
        assert(f[0] == '/');
        assert(below == f.skip(1));
        assert(below[0] == f[1]);
    }
    if s.windows {
        let first = if path::is_separator(root.last(), true) {
            rest
        } else {
            rest.skip(1)
        };
        assert(below =~= text::forward_slashes(first));
        assert(path::has_drive(below) == path::has_drive(first));
        assert(text::forward_slashes(joined) =~= text::forward_slashes(root + rest));
    } else {
        lemma_no_backslash_stays(rest);
        assert(joined =~= root + rest);
    }
}

/// Entering a directory: the reply says whether what was named is found and is a directory. If it
/// is, the client is in it, and the virtual name that it is told leads to the same directory
/// again; if it is not, nothing changes.
pub proof fn law_entering_a_directory(
    s: SessionView,
    m: Machine,
    arg: Option<Seq<char>>,
    up: Option<Seq<char>>,
    is_dir: spec_fn(Seq<char>) -> bool,
    rest: Seq<char>,
)
    requires
        s.authenticated,
        m.valid(),
        m.windows == s.windows,
    ensures
        ({
            let name = match arg {
                Some(a) => a,
                None => seq!['/'],
            };
            let found = m.real_path(s, m.virtual_path(s, name));
            let (t, reply) = entered(s, m, arg, up, is_dir);
            match found {
                Err(_) => t == s && reply == "550 Directory not found\r\n"@,
                Ok(d) => if !is_dir(d) {
                    t == s && reply == "550 Not a directory\r\n"@
                } else {
                    &&& reply == "250 Directory changed to "@ + t.current_dir + "\r\n"@
                    &&& t == SessionView { current_dir: t.current_dir, ..s }
                    &&& path::virtual_dir(s.root_dir, d) is Some ==> session::is_client_dir(
                        t.current_dir,
                    )
                    &&& d == s.root_dir ==> {
                        &&& t.current_dir == seq!['/']
                        &&& m.real_path(t, t.current_dir) == Ok::<Seq<char>, PathError>(d)
                    }
                    &&& d == s.root_dir + rest && follows_root(s.root_dir, rest, s.windows)
                        && m.knows(d) ==> {
                        &&& t.current_dir == path::rooted(rest)
                        &&& m.real_path(t, t.current_dir) == Ok::<Seq<char>, PathError>(d)
                    }
                },
            }
        }),
{
    laws::lemma_verb_names();
    let name = match arg {
        Some(a) => a,
        None => seq!['/'],
    };
    let v = m.virtual_path(s, name);
    law_search_ends_in_root(s, m, v);
    if let Ok(d) = m.real_path(s, v) {
        if is_dir(d) {
            if let Some(after) = path::after_root(s.root_dir, d) {
                laws::law_rooted_is_client_dir(after);
            }
            if d == s.root_dir {
                laws::law_slash_is_the_root(s);
                assert(session::below_root(seq!['/']).len() == 0);
            }
            if d == s.root_dir + rest && follows_root(s.root_dir, rest, s.windows)
                && m.knows(d) {
                assert(s.root_dir =~= d.subrange(0, s.root_dir.len() as int));
                assert(path::goes_below(s.root_dir, d));
                laws::law_rest_after_root(s.root_dir, rest);
                lemma_virtual_name_leads_back(s, m, rest);
                let joined = (m.join)(s.root_dir, session::below_root(path::rooted(rest)));
                assert(same_place(joined, d, m.windows));
                assert((m.look)(joined) is Present);
            }
        }
    }
}

/// On each platform two paths can be joined.
pub proof fn law_every_two_paths_can_be_joined(base: Seq<char>, part: Seq<char>, windows: bool)
    ensures
        exists|joined: Seq<char>| path::joins_on(base, part, joined, windows),
{
    if !windows {
        assert(path::joins_on(base, part, path::unix_join(base, part), false));
    } else if path::has_drive(part) {
        assert(path::joins_on(base, part, part, true));
    } else if path::has_root(part, true) {
        if path::has_drive(base) {
            assert(path::joins_on(base, part, base.take(2) + part, true));
        } else {
            assert(base.take(0) + part =~= part);
            assert(path::joins_on(base, part, part, true));
        }
    } else if base.len() == 0 || path::is_separator(base.last(), true) {
        assert(path::joins_on(base, part, base + part, true));
    } else {
        assert(path::joins_on(base, part, base.push('\\') + part, true));
    }
}

/// There is a machine of each platform, whatever is on its disk.
pub proof fn law_machines_exist(windows: bool, look: spec_fn(Seq<char>) -> SightView)
    ensures
        exists|m: Machine| #[trigger] m.valid() && m.windows == windows && m.look == look,
{
    let m = Machine {
        windows,
        join: |base: Seq<char>, part: Seq<char>|
            choose|joined: Seq<char>| path::joins_on(base, part, joined, windows),
        parent: |path: Seq<char>|
            choose|parent: Option<Seq<char>>| path::parent_on(path, parent, windows),
        last_name: |path: Seq<char>|
            choose|last: Option<Seq<char>>| path::last_name_on(path, last, windows),
        look,
    };
    assert forall|base: Seq<char>, part: Seq<char>|
        path::joins_on(base, part, #[trigger] (m.join)(base, part), windows) by {
        law_every_two_paths_can_be_joined(base, part, windows);
    }
    assert forall|path: Seq<char>|
        path::parent_on(path, #[trigger] (m.parent)(path), windows) by {
        path::law_every_path_can_be_divided(path, windows);
    }
    assert forall|path: Seq<char>|
        path::last_name_on(path, #[trigger] (m.last_name)(path), windows) by {
        path::law_every_path_can_be_divided(path, windows);
    }
    assert(m.valid());
}

} // verus!
