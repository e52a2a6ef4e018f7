//! Where paths lead: how they are joined and divided, and which of them lie in the root directory.
use vstd::prelude::*;
use vstd::utf8::*;

use crate::command;
use crate::laws;
use crate::path;
use crate::session;
use crate::session::{PathError, SearchView, SessionView, SightView};
use crate::text;

verus! {

/// Off Windows a name is joined to a directory with one slash between them, and one that begins
/// with a slash takes its place.
pub proof fn law_joining_off_windows(base: Seq<char>, part: Seq<char>, joined: Seq<char>)
    requires
        path::joins_for(base, part, joined, false),
    ensures
        joined == (if part.len() > 0 && part[0] == '/' {
            part
        } else if base.len() == 0 || base[base.len() - 1] == '/' {
            base + part
        } else {
            base + seq!['/'] + part
        }),
{
    assert(base.push('/') + part =~= base + seq!['/'] + part);
}

/// On Windows a name is joined to a directory with one backslash between them, unless the directory
/// ends in a separator; one with a drive takes its place, and one that begins with a separator
/// keeps its drive only. Shares, devices and drives without a root are left out.
pub proof fn law_joining_on_windows(base: Seq<char>, part: Seq<char>, joined: Seq<char>)
    requires
        path::joins_for(base, part, joined, true),
        !(base.len() > 1 && (base[0] == '/' || base[0] == '\\') && (base[1] == '/' || base[1]
            == '\\')),
        !(part.len() > 1 && (part[0] == '/' || part[0] == '\\') && (part[1] == '/' || part[1]
            == '\\')),
        base.len() != 2 || base[1] != ':',
    ensures
        ({
            let letter = |c: char| 'a' <= c <= 'z' || 'A' <= c <= 'Z';
            let slash = |c: char| c == '/' || c == '\\';
            joined == (if part.len() > 1 && letter(part[0]) && part[1] == ':' {
                part
            } else if part.len() > 0 && slash(part[0]) {
                if base.len() > 1 && letter(base[0]) && base[1] == ':' {
                    seq![base[0], ':'] + part
                } else {
                    part
                }
            } else if base.len() == 0 || slash(base[base.len() - 1]) {
                base + part
            } else {
                base + seq!['\\'] + part
            })
        }),
{
    assert(base.push('\\') + part =~= base + seq!['\\'] + part);
    if base.len() > 1 && base[1] == ':' {
        assert(base.take(2) =~= seq![base[0], ':']);
    }
    assert(base.len() > 1 ==> base.skip(1)[0] == base[1]);
    assert(part.len() > 1 ==> part.skip(1)[0] == part[1]);
}

/// The prefix that Windows puts before a canonical path is taken away there, once; every other path
/// is kept, and off Windows all are.
pub proof fn law_normalizing(p: Seq<char>, rest: Seq<char>)
    ensures
        path::normalized(p, false) == p,
        path::normalized(seq!['\\', '\\', '?', '\\'] + rest, true) == rest,
        p.len() < 4 || p[0] != '\\' || p[1] != '\\' || p[2] != '?' || p[3] != '\\'
            ==> path::normalized(p, true) == p,
{
    let prefix = seq!['\\', '\\', '?', '\\'];
    let whole = prefix + rest;
    assert(prefix =~= whole.subrange(0, 4));
    assert(whole.skip(4) =~= rest);
    if prefix.is_prefix_of(p) {
        assert(p.len() >= 4);
        assert(forall|i: int| 0 <= i < 4 ==> #[trigger] prefix[i] == p[i]);
        assert(prefix[0] == p[0] && prefix[1] == p[1] && prefix[2] == p[2] && prefix[3] == p[3]);
    }
}

/// A virtual path is looked for below the root directory, without the one slash in front of it; the
/// slash alone, and nothing at all, is the root directory. Off Windows, what is looked at is the
/// root directory, a slash, and the virtual path as the client wrote it.
pub proof fn law_looking_below_the_root(s: SessionView, x: Seq<char>, joined: Seq<char>)
    ensures
        session::search_begun(s, Seq::empty(), joined) == SearchView::Done(Ok(s.root_dir)),
        session::search_begun(s, seq!['/'], joined) == SearchView::Done(Ok(s.root_dir)),
        session::below_root(seq!['/'] + x) == x,
        x.len() > 0 ==> session::search_begun(s, seq!['/'] + x, joined) == (SearchView::Look {
            path: joined,
        }),
        x.len() > 0 && x[0] != '/' ==> {
            &&& session::below_root(x) == x
            &&& session::search_begun(s, x, joined) == (SearchView::Look { path: joined })
            &&& !s.windows && path::joins_for(s.root_dir, session::below_root(x), joined, false)
                && s.root_dir.len() > 0 && s.root_dir[s.root_dir.len() - 1] != '/' ==> joined
                == s.root_dir + seq!['/'] + x
        },
{
    assert((seq!['/'] + x).skip(1) =~= x);
    assert(seq!['/'].skip(1) =~= Seq::<char>::empty());
    assert(s.root_dir.push('/') + x =~= s.root_dir + seq!['/'] + x);
}

/// A client off Windows that is in a directory and names a file there has the file looked for below
/// the root directory, on the way of the current directory.
pub proof fn law_files_are_looked_for_where_the_client_is(
    s: SessionView,
    dir: Seq<char>,
    name: Seq<char>,
    virtual_path: Seq<char>,
    joined: Seq<char>,
)
    requires
        !s.windows,
        dir.len() > 0,
        dir[0] != '/',
        dir[dir.len() - 1] != '/',
        s.current_dir == seq!['/'] + dir,
        s.root_dir.len() > 0,
        s.root_dir[s.root_dir.len() - 1] != '/',
        name.len() > 0,
        name[0] != '/',
        ({
            let target = command::target(s.current_dir, name);
            match target {
                command::TargetView::Path(p) => virtual_path == p,
                command::TargetView::Joined { dir, path } => path::joins_for(
                    dir,
                    path,
                    virtual_path,
                    s.windows,
                ),
            }
        }),
        path::joins_for(s.root_dir, session::below_root(virtual_path), joined, s.windows),
    ensures
        session::search_begun(s, virtual_path, joined) == (SearchView::Look {
            path: s.root_dir + seq!['/'] + dir + seq!['/'] + name,
        }),
{
    let here = seq!['/'] + dir;
    assert(here.last() == dir.last());
    law_joining_off_windows(here, name, virtual_path);
    let below = dir + seq!['/'] + name;
    assert(virtual_path =~= seq!['/'] + below);
    assert(below[0] == dir[0]);
    law_looking_below_the_root(s, below, joined);
    law_joining_off_windows(s.root_dir, below, joined);
    assert(joined =~= s.root_dir + seq!['/'] + dir + seq!['/'] + name);
}

/// What exists is found under its canonical path, and refused if that cannot be had.
pub proof fn law_existing_paths(
    s: SessionView,
    p: Seq<char>,
    canonical: Seq<char>,
    parent: Option<Seq<char>>,
    name: Option<Seq<char>>,
)
    ensures
        session::search_after_look(s, p, SightView::Present(None), parent, name)
            == SearchView::Done(Err(PathError::Unresolved)),
        !s.windows ==> session::search_after_look(
            s,
            p,
            SightView::Present(Some(canonical)),
            parent,
            name,
        ) == SearchView::Done(session::confined(s.root_dir, canonical, false)),
        s.windows ==> session::search_after_look(
            s,
            p,
            SightView::Present(Some(seq!['\\', '\\', '?', '\\'] + canonical)),
            parent,
            name,
        ) == SearchView::Done(session::confined(s.root_dir, canonical, true)),
        s.windows && (canonical.len() < 4 || canonical[0] != '\\' || canonical[1] != '\\'
            || canonical[2] != '?' || canonical[3] != '\\') ==> session::search_after_look(
            s,
            p,
            SightView::Present(Some(canonical)),
            parent,
            name,
        ) == SearchView::Done(session::confined(s.root_dir, canonical, true)),
{
    law_normalizing(canonical, canonical);
}

/// What does not exist is looked for in its parent, under its last name: joined to the canonical
/// path of the parent it is found, if that lies in the root directory. There is no such path where
/// the parent does not exist either.
pub proof fn law_new_paths(
    s: SessionView,
    p: Seq<char>,
    parent: Seq<char>,
    name: Seq<char>,
    canonical: Seq<char>,
    joined: Seq<char>,
)
    requires
        path::agrees(p, Some(parent), Some(name), s.windows),
    ensures
        session::search_after_look(s, p, SightView::Missing, Some(parent), Some(name)) == (
        SearchView::LookAbove { parent, name: Some(name) }),
        session::search_ended(s, Some(name), SightView::Missing, joined) == Err::<Seq<char>, _>(
            PathError::ParentMissing,
        ),
        session::search_ended(s, Some(name), SightView::Present(None), joined) == Err::<
            Seq<char>,
            _,
        >(PathError::Unresolved),
        session::search_ended(s, Some(name), SightView::Present(Some(canonical)), joined)
            == session::confined(s.root_dir, joined, s.windows),
        !s.windows && session::joins_above(
            s,
            SightView::Present(Some(canonical)),
            Some(name),
            joined,
        ) && canonical.len() > 0 && canonical[canonical.len() - 1] != '/' ==> joined == canonical
            + seq!['/'] + name,
{
    if !s.windows && session::joins_above(
        s,
        SightView::Present(Some(canonical)),
        Some(name),
        joined,
    ) {
        law_joining_off_windows(canonical, name, joined);
    }
}

/// What one name of a path is: some text without a slash, nor a backslash on Windows, that is not
/// one dot or two.
pub proof fn law_plain_names(name: Seq<char>, windows: bool)
    ensures
        path::is_plain_name(name, windows) <==> name.len() > 0 && !name.contains('/') && !(windows
            && name.contains('\\')) && name != seq!['.'] && name != seq!['.', '.'],
{
    if path::is_plain_name(name, windows) {
        assert forall|i: int| 0 <= i < name.len() implies name[i] != '/' && !(windows && name[i]
            == '\\') by {
            assert(!path::is_separator(name[i], windows));
        }
    } else if name.len() > 0 && name != seq!['.'] && name != seq!['.', '.'] {
        let i = choose|i: int|
            0 <= i < name.len() && path::is_separator(#[trigger] name[i], windows);
        assert(name.contains(name[i]));
    }
}

/// A name that is not one name of a path is refused, whatever its parent, and so is an answer that
/// does not divide the path; a path without a parent is taken by itself.
pub proof fn law_refused_divisions(
    s: SessionView,
    p: Seq<char>,
    parent: Option<Seq<char>>,
    name: Seq<char>,
    sight: SightView,
    joined: Seq<char>,
)
    ensures
        name.contains('/') || (s.windows && name.contains('\\')) || name == seq!['.', '.']
            ==> session::search_ended(s, Some(name), sight, joined) == Err::<Seq<char>, _>(
            PathError::Undivided,
        ) && session::search_after_look(s, p, SightView::Missing, parent, Some(name))
            == SearchView::Done(Err(PathError::Undivided)),
        path::agrees(p, None, None, s.windows) ==> session::search_after_look(
            s,
            p,
            SightView::Missing,
            None,
            None,
        ) == SearchView::Done(session::confined(s.root_dir, p, s.windows)),
{
    law_plain_names(name, s.windows);
}

/// A path that ends in the name of a parent directory leads to the canonical path of its own
/// parent, if that lies in the root directory.
pub proof fn law_paths_that_end_above(
    s: SessionView,
    p: Seq<char>,
    parent: Seq<char>,
    canonical: Seq<char>,
    joined: Seq<char>,
)
    requires
        path::agrees(p, Some(parent), None, s.windows),
        !s.windows,
    ensures
        session::search_after_look(s, p, SightView::Missing, Some(parent), None) == (
        SearchView::LookAbove { parent, name: None }),
        session::search_ended(s, None, SightView::Present(Some(canonical)), joined)
            == session::confined(s.root_dir, canonical, false),
{
    law_normalizing(canonical, canonical);
}

proof fn lemma_climb_is_a_name(p: Seq<char>, windows: bool)
    requires
        path::climbs(p, windows),
    ensures
        laws::names(p, windows).contains(seq!['.', '.']),
{
    let i = choose|i: int| path::climbs_at(p, i, windows);
    let dots = seq!['.', '.'];
    let head = p.take(i + 2);
    lemma_last_name_is_dots(head, windows, i);
    let first = laws::names(head, windows);
    if i + 2 == p.len() {
        assert(head =~= p);
        assert(first[first.len() - 1] == dots);
    } else {
        let rest = p.skip(i + 3);
        assert(p =~= head.push(p[i + 2]) + rest);
        laws::lemma_names_of_extension(head, p[i + 2], rest, windows);
        assert(laws::names(p, windows)[first.len() - 1] == dots);
    }
}

proof fn lemma_last_name_is_dots(p: Seq<char>, windows: bool, i: int)
    requires
        i + 2 == p.len(),
        path::climbs_at(p, i, windows),
    ensures
        laws::names(p, windows).len() > 0,
        laws::names(p, windows).last() == seq!['.', '.'],
{
    let dots = seq!['.', '.'];
    let empty = Seq::<char>::empty();
    assert(!path::is_separator('.', windows));
    assert(laws::names(empty, windows) =~= seq![empty]);
    assert(seq!['.'].drop_last() =~= empty);
    assert(laws::names(seq!['.'], windows) =~= seq![seq!['.']]) by {
        assert(empty.push('.') =~= seq!['.']);
    }
    assert(dots.drop_last() =~= seq!['.']);
    assert(laws::names(dots, windows) =~= seq![dots]) by {
        assert(seq!['.'].push('.') =~= dots);
    }
    if i == 0 {
        assert(p =~= dots);
    } else {
        let before = p.take(i - 1);
        assert(p =~= before.push(p[i - 1]) + dots);
        laws::lemma_names_of_extension(before, p[i - 1], dots, windows);
    }
}

/// Off Windows, what follows the root directory after a slash lies in it, whatever its names are,
/// as long as none of them is that of a parent directory; so does the root directory itself.
pub proof fn law_what_lies_in_the_root(root: Seq<char>, rest: Seq<char>)
    requires
        root.len() > 0,
    ensures
        session::confined(root, root, false) == Ok::<_, PathError>(root),
        ({
            let below = if root[root.len() - 1] == '/' {
                root + rest
            } else {
                root + seq!['/'] + rest
            };
            !laws::names(below, false).contains(seq!['.', '.']) ==> session::confined(
                root,
                below,
                false,
            ) == Ok::<_, PathError>(below)
        }),
{
    let below = if root[root.len() - 1] == '/' {
        root + rest
    } else {
        root + seq!['/'] + rest
    };
    assert(root =~= below.subrange(0, root.len() as int));
    if path::climbs(below, false) {
        lemma_climb_is_a_name(below, false);
    }
}

/// On Windows a path lies in the root directory if it does letter case aside, and none of its names
/// is that of a parent directory.
pub proof fn law_what_lies_in_the_root_on_windows(
    root: Seq<char>,
    p: Seq<char>,
    c: char,
    rest: Seq<char>,
)
    requires
        c == '/' || c == '\\',
        text::lowercase(p) == text::lowercase(root) + seq![c] + rest || text::lowercase(p)
            == text::lowercase(root),
        !laws::names(p, true).contains(seq!['.', '.']),
    ensures
        session::confined(root, p, true) == Ok::<_, PathError>(p),
{
    let lower = text::lowercase(p);
    assert(text::lowercase(root) =~= lower.subrange(0, text::lowercase(root).len() as int));
    if path::climbs(p, true) {
        lemma_climb_is_a_name(p, true);
    }
}

/// What does not begin with the root directory is refused, and so is what only begins like it in
/// the middle of a name, and what has the name of a parent directory in it.
pub proof fn law_what_lies_outside(root: Seq<char>, p: Seq<char>)
    requires
        root.len() > 0,
        p != root,
        ({
            ||| p.len() < root.len()
            ||| exists|i: int| 0 <= i < root.len() && i < p.len() && #[trigger] p[i] != root[i]
            ||| root[root.len() - 1] != '/' && p.len() > root.len() && p[root.len() as int] != '/'
            ||| laws::names(p, false).contains(seq!['.', '.'])
        }),
    ensures
        session::confined(root, p, false) == Err::<Seq<char>, _>(PathError::OutsideRoot),
{
    if path::lies_within(root, p, false) {
        laws::law_no_name_leads_up(p, false);
        assert(root == p.subrange(0, root.len() as int));
        assert(forall|i: int| 0 <= i < root.len() ==> #[trigger] p[i] == root[i]);
        if p.len() == root.len() {
            assert(p =~= root);
        }
    }
}

/// On Windows, what does not begin with the root directory, letter case aside, is refused, and so is
/// what only begins like it in the middle of a name, and what has the name of a parent directory in
/// it.
pub proof fn law_what_lies_outside_on_windows(root: Seq<char>, p: Seq<char>)
    requires
        p != root,
        text::lowercase(root).len() > 0,
        ({
            let r = text::lowercase(root);
            let q = text::lowercase(p);
            ||| q.len() < r.len()
            ||| exists|i: int| 0 <= i < r.len() && i < q.len() && #[trigger] q[i] != r[i]
            ||| q.len() > r.len() && r[r.len() - 1] != '/' && r[r.len() - 1] != '\\' && q[r.len() as int]
                != '/' && q[r.len() as int] != '\\'
            ||| laws::names(p, true).contains(seq!['.', '.'])
        }),
    ensures
        session::confined(root, p, true) == Err::<Seq<char>, _>(PathError::OutsideRoot),
{
    let r = text::lowercase(root);
    let q = text::lowercase(p);
    if path::lies_within(root, p, true) {
        laws::law_no_name_leads_up(p, true);
        assert(r == q.subrange(0, r.len() as int));
        assert(forall|i: int| 0 <= i < r.len() ==> #[trigger] q[i] == r[i]);
    }
}

/// The virtual directory of a directory that is not found by its path below the root: the top for
/// the root directory under another letter case, and else what is left after as many bytes as the
/// root directory has.
pub proof fn law_virtual_directories(root: Seq<char>, dir: Seq<char>, a: Seq<char>, b: Seq<char>)
    requires
        dir == a + b,
        encode_utf8(a).len() == encode_utf8(root).len(),
    ensures
        (dir.len() == root.len() || !root.is_prefix_of(dir)) && text::lowercase(dir)
            == text::lowercase(root) ==> path::virtual_dir(root, dir) == Some(seq!['/']),
        text::lowercase(dir) != text::lowercase(root) ==> path::virtual_dir(root, dir) == Some(
            path::rooted(b),
        ),
{
    path::lemma_after_prefix(root, a, b);
}

/// A directory has a virtual directory just when it is the root directory, letter case aside, or
/// its path can be cut after as many bytes as that of the root directory has.
pub proof fn law_which_directories_have_a_virtual_one(root: Seq<char>, dir: Seq<char>)
    ensures
        path::virtual_dir(root, dir) is None ==> text::lowercase(dir) != text::lowercase(root)
            || root.is_prefix_of(dir),
        path::virtual_dir(root, dir) is None ==> forall|a: Seq<char>, b: Seq<char>|
            #[trigger] (a + b) == dir ==> encode_utf8(a).len() != encode_utf8(root).len(),
        path::virtual_dir(root, dir) is Some ==> text::lowercase(dir) == text::lowercase(root)
            || exists|a: Seq<char>, b: Seq<char>|
            #[trigger] (a + b) == dir && encode_utf8(a).len() == encode_utf8(root).len(),
{
    assert forall|a: Seq<char>, b: Seq<char>|
        #[trigger] (a + b) == dir && path::virtual_dir(root, dir) is None implies encode_utf8(
        a,
    ).len() != encode_utf8(root).len() by {
        if encode_utf8(a).len() == encode_utf8(root).len() {
            path::lemma_after_prefix(root, a, b);
        }
    }
    let bytes = encode_utf8(dir);
    let cut = encode_utf8(root).len() as int;
    if text::lowercase(dir) != text::lowercase(root) && path::virtual_dir(root, dir) is Some {
        encode_utf8_valid_utf8(dir);
        encode_utf8_decode_utf8(dir);
        lemma_boundary_in_range(bytes, cut);
        valid_utf8_split(bytes, cut);
        decode_utf8_split(bytes, cut);
        decode_utf8_encode_utf8(bytes.subrange(0, cut));
        let a = decode_utf8(bytes.subrange(0, cut));
        let b = decode_utf8(bytes.subrange(cut, bytes.len() as int));
        assert(a + b == dir);
        assert(encode_utf8(a).len() == cut);
    }
}

proof fn lemma_boundary_in_range(bytes: Seq<u8>, index: int)
    requires
        valid_utf8(bytes),
        is_char_boundary(bytes, index),
    ensures
        0 <= index <= bytes.len(),
{
}

/// A virtual directory keeps the text that it is made of, with slashes for backslashes and a slash
/// in front.
pub proof fn law_rooting(b: Seq<char>)
    ensures
        ({
            let r = path::rooted(b);
            let k: int = if b.len() > 0 && (b[0] == '/' || b[0] == '\\') {
                0
            } else {
                1
            };
            &&& r.len() == b.len() + k
            &&& r[0] == '/'
            &&& forall|i: int|
                0 <= i < b.len() ==> r[i + k] == (if #[trigger] b[i] == '\\' {
                    '/'
                } else {
                    b[i]
                })
        }),
{
}

/// A path below a directory has the directory for its parent and the name below it for its last
/// name.
pub proof fn law_parent_of_a_child(
    dir: Seq<char>,
    c: char,
    name: Seq<char>,
    windows: bool,
    parent: Option<Seq<char>>,
    last: Option<Seq<char>>,
)
    requires
        path::is_separator(c, windows),
        path::root_len(dir, windows) < dir.len(),
        path::ends_in_name(dir.skip(path::root_len(dir, windows)), windows),
        windows ==> !path::has_share(dir) && (path::has_drive(dir) ==> path::root_len(dir, true)
            == 3),
        path::is_plain_name(name, windows),
        path::parent_on(dir + seq![c] + name, parent, windows),
        path::last_name_on(dir + seq![c] + name, last, windows),
    ensures
        parent == Some(dir),
        last == Some(name),
{
    let p = dir + seq![c] + name;
    let root = path::root_len(dir, windows);
    let way = dir.skip(root);
    let tail = Seq::<char>::empty();
    assert(way.last() == dir.last());
    assert(p[0] == dir[0]);
    assert(dir.len() > 1 ==> p[1] == dir[1]);
    assert(dir.len() == 1 ==> p[1] == c);
    assert(p.skip(1)[0] == p[1]);
    assert(dir.len() > 1 ==> dir.skip(1)[0] == dir[1]);
    assert(dir.len() > 2 ==> p.skip(2)[0] == p[2] && dir.skip(2)[0] == dir[2] && p[2] == dir[2]);
    assert(path::root_len(p, windows) == root) by {
        if windows && path::has_drive(p) {
            assert(path::has_drive(dir));
        }
    }
    assert(p.take(root) =~= dir.take(root));
    assert(p =~= p.take(root) + way + seq![c] + name + tail);
    assert(path::divides_on(p, way, seq![c], name, tail, windows));
    assert(p.take(root) + way =~= dir);
}

/// A client that is in a directory below another and goes up is in the other: the last name and the
/// slash before it are gone from the current directory.
pub proof fn law_up_from_a_child(
    s: SessionView,
    dir: Seq<char>,
    name: Seq<char>,
    arg: Option<Seq<char>>,
    up: Option<Seq<char>>,
)
    requires
        s.authenticated,
        dir.len() > 1,
        dir[0] == '/',
        dir[1] != '/',
        dir.last() != '/',
        dir.last() != '.',
        !dir.contains('\\'),
        path::is_plain_name(name, true),
        s.current_dir == dir + seq!['/'] + name,
        path::parent_of(s.current_dir, up),
    ensures
        command::obeyed(s, "CDUP"@, arg, up).0 == (SessionView { current_dir: dir, ..s }),
{
    assert forall|i: int| 0 <= i < dir.len() implies #[trigger] dir[i] != '\\' by {
        assert(dir.contains(dir[i]));
    }
    assert(path::is_plain_name(name, false));
    assert(dir.skip(1).last() == dir.last());
    assert(dir.skip(1)[0] == dir[1]);
    laws::lemma_verb_names();
    if path::parent_on(s.current_dir, up, false) {
        lemma_parent_of_a_client_dir(dir, name, false, up);
    } else {
        lemma_parent_of_a_client_dir(dir, name, true, up);
    }
}

proof fn lemma_parent_of_a_client_dir(
    dir: Seq<char>,
    name: Seq<char>,
    windows: bool,
    up: Option<Seq<char>>,
)
    requires
        dir.len() > 1,
        dir[0] == '/',
        !path::is_separator(dir[1], windows),
        !path::is_separator(dir.last(), windows),
        dir.last() != '.',
        path::is_plain_name(name, windows),
        path::parent_on(dir + seq!['/'] + name, up, windows),
    ensures
        up == Some(dir),
{
    path::law_every_path_can_be_divided(dir + seq!['/'] + name, windows);
    let last = choose|last: Option<Seq<char>>|
        path::last_name_on(dir + seq!['/'] + name, last, windows);
    assert(dir.skip(1).last() == dir.last());
    assert(dir.skip(1)[0] == dir[1]);
    law_parent_of_a_child(dir, '/', name, windows, up, last);
}

/// A client right below the top that goes up is at the top.
pub proof fn law_up_to_the_top(
    s: SessionView,
    name: Seq<char>,
    arg: Option<Seq<char>>,
    up: Option<Seq<char>>,
)
    requires
        s.authenticated,
        path::is_plain_name(name, true),
        s.current_dir == seq!['/'] + name || s.current_dir == seq!['/'],
        path::parent_of(s.current_dir, up),
    ensures
        command::obeyed(s, "CDUP"@, arg, up).0 == (SessionView { current_dir: seq!['/'], ..s }),
{
    laws::lemma_verb_names();
    let p = s.current_dir;
    let none = Seq::<char>::empty();
    if p == seq!['/'] {
        assert(p.skip(1) =~= none);
        assert(path::is_bare_root(p, false) && path::is_bare_root(p, true));
    } else {
        assert(p.skip(1)[0] == name[0]);
        assert(path::is_name(name, false));
        assert(path::root_len(p, false) == 1 && path::root_len(p, true) == 1);
        assert(p.take(1) =~= seq!['/']);
        assert(p =~= p.take(1) + none + none + name + none);
        assert(path::divides_on(p, none, none, name, none, false));
        assert(path::divides_on(p, none, none, name, none, true));
        assert(p.take(1) + none =~= seq!['/']);
    }
}

} // verus!
