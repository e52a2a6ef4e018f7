//! Paths as text: the root directory, what lies inside it, and the virtual directory of a client.
use vstd::prelude::*;
use vstd::string::*;
use vstd::utf8::*;

use crate::text;

verus! {

/// The prefix that Windows puts before a canonical path.
pub open spec fn verbatim_prefix() -> Seq<char> {
    seq!['\\', '\\', '?', '\\']
}

/// `path` without the prefix that Windows puts before a canonical path.
pub open spec fn normalized(path: Seq<char>, windows: bool) -> Seq<char> {
    if windows && verbatim_prefix().is_prefix_of(path) {
        path.skip(4)
    } else {
        path
    }
}

/// ASCII text in lower case.
pub open spec fn in_lower_case(s: Seq<char>) -> Seq<char> {
    s.map_values(|c: char| text::ascii_lower(c))
}

/// Whether `c` separates the names of a path.
pub open spec fn is_separator(c: char, windows: bool) -> bool {
    c == '/' || (windows && c == '\\')
}

/// Whether `path` is `root` or continues it by further names: what follows `root` in it begins a
/// new name.
pub open spec fn extends(root: Seq<char>, path: Seq<char>, windows: bool) -> bool {
    &&& root.is_prefix_of(path)
    &&& {
        ||| root.len() == 0
        ||| root.len() == path.len()
        ||| is_separator(root.last(), windows)
        ||| is_separator(path[root.len() as int], windows)
    }
}

/// A path as it is compared with others: on Windows letter case does not matter.
pub open spec fn folded(path: Seq<char>, windows: bool) -> Seq<char> {
    if windows {
        text::lowercase(path)
    } else {
        path
    }
}

/// Whether the name of a parent directory stands in `path` at the index `i`.
pub open spec fn climbs_at(path: Seq<char>, i: int, windows: bool) -> bool {
    &&& 0 <= i < path.len() - 1
    &&& path[i] == '.' && path[i + 1] == '.'
    &&& i == 0 || is_separator(path[i - 1], windows)
    &&& i + 2 == path.len() || is_separator(path[i + 2], windows)
}

/// Whether one of the names of `path` is that of a parent directory.
pub open spec fn climbs(path: Seq<char>, windows: bool) -> bool {
    exists|i: int| climbs_at(path, i, windows)
}

/// Whether `path` lies in the directory `root`: it is `root`, or it begins with the names of
/// `root`, letter case aside on Windows, goes on with further ones, and none of its names leads up
/// to a parent directory.
pub open spec fn lies_within(root: Seq<char>, path: Seq<char>, windows: bool) -> bool {
    path == root || (extends(folded(root, windows), folded(path, windows), windows) && !climbs(
        path,
        windows,
    ))
}

/// What is left of `path` after as many bytes as `root` has, unless that is inside a character
/// or past the end.
pub open spec fn after_root(root: Seq<char>, path: Seq<char>) -> Option<Seq<char>> {
    let bytes = encode_utf8(path);
    let cut = encode_utf8(root).len() as int;
    if is_char_boundary(bytes, cut) {
        Some(decode_utf8(bytes.subrange(cut, bytes.len() as int)))
    } else {
        None
    }
}

/// `s` with slashes for backslashes and a slash in front.
pub open spec fn rooted(s: Seq<char>) -> Seq<char> {
    if text::begins_with(text::forward_slashes(s), '/') {
        text::forward_slashes(s)
    } else {
        seq!['/'] + text::forward_slashes(s)
    }
}

/// Whether `dir` is `root` followed by further names, with a slash or a backslash between them.
pub open spec fn goes_below(root: Seq<char>, dir: Seq<char>) -> bool {
    &&& root.is_prefix_of(dir)
    &&& root.len() < dir.len()
    &&& (root.len() > 0 && is_separator(root.last(), true)) || is_separator(
        dir[root.len() as int],
        true,
    )
}

/// The virtual directory that stands for the real directory `dir` below `root`: the top for the
/// root directory itself, letter case aside, and else what follows the root directory.
pub open spec fn virtual_dir(root: Seq<char>, dir: Seq<char>) -> Option<Seq<char>> {
    if !goes_below(root, dir) && text::lowercase(dir) == text::lowercase(root) {
        Some(seq!['/'])
    } else {
        match after_root(root, dir) {
            Some(rest) => Some(rooted(rest)),
            None => None,
        }
    }
}

/// Whether `s` begins with the letter of a drive of Windows.
pub open spec fn has_drive(s: Seq<char>) -> bool {
    s.len() >= 2 && ('a' <= s[0] <= 'z' || 'A' <= s[0] <= 'Z') && s[1] == ':'
}

/// Whether `s` begins with a separator.
pub open spec fn has_root(s: Seq<char>, windows: bool) -> bool {
    s.len() > 0 && is_separator(s[0], windows)
}

/// Whether `s` begins with two separators of Windows, as the path of a share or a device does.
pub open spec fn has_share(s: Seq<char>) -> bool {
    has_root(s, true) && has_root(s.skip(1), true)
}

/// `part` joined to `base` on Unix: `part` itself if it is absolute, else both, with a slash
/// between them where `base` does not end in one.
pub open spec fn unix_join(base: Seq<char>, part: Seq<char>) -> Seq<char> {
    if has_root(part, false) {
        part
    } else if base.len() == 0 || base.last() == '/' {
        base + part
    } else {
        base.push('/') + part
    }
}

/// Whether joining `part` to `base` on Windows has to do with neither shares nor devices nor a
/// drive alone.
pub open spec fn joins_plainly(base: Seq<char>, part: Seq<char>) -> bool {
    !has_share(base) && !has_share(part) && !(base.len() == 2 && has_drive(base))
}

/// `part` joined to `base` on Windows, where it is joined plainly. A part with a drive takes the
/// place of `base`, and one with a root that of all but the drive of `base`; any other is appended,
/// after a backslash where `base` does not end in a separator.
pub open spec fn windows_join(base: Seq<char>, part: Seq<char>) -> Seq<char> {
    if has_drive(part) {
        part
    } else if has_root(part, true) {
        if has_drive(base) {
            base.take(2) + part
        } else {
            part
        }
    } else if base.len() == 0 || is_separator(base.last(), true) {
        base + part
    } else {
        base.push('\\') + part
    }
}

/// What comes of joining `part` to `base` on Windows. Of a base that begins with the verbatim
/// prefix nothing is said, and of another share not how much of it a part with a root leaves.
pub open spec fn windows_joins(base: Seq<char>, part: Seq<char>, joined: Seq<char>) -> bool {
    if joins_plainly(base, part) {
        joined == windows_join(base, part)
    } else {
        ||| verbatim_prefix().is_prefix_of(base)
        ||| joined == windows_join(base, part)
        ||| has_share(part) && joined == part
        ||| has_share(base) && has_root(part, true) && exists|k: int|
            0 <= k <= base.len() && joined == #[trigger] base.take(k) + part
        ||| base.len() == 2 && has_drive(base) && !has_drive(part) && joined == base + part
    }
}

/// What comes of joining `part` to `base` on one platform.
pub open spec fn joins_on(
    base: Seq<char>,
    part: Seq<char>,
    joined: Seq<char>,
    windows: bool,
) -> bool {
    if windows {
        windows_joins(base, part, joined)
    } else {
        joined == unix_join(base, part)
    }
}

/// What can come of joining `part` to `base`: what Unix gives, or what Windows gives.
pub open spec fn joins(base: Seq<char>, part: Seq<char>, joined: Seq<char>) -> bool {
    joins_on(base, part, joined, false) || joins_on(base, part, joined, true)
}

/// What can come of joining `part` to `base` for a server that runs on Windows or not: what its
/// platform gives, but on Windows also what Unix gives where the two are not joined plainly.
pub open spec fn joins_for(
    base: Seq<char>,
    part: Seq<char>,
    joined: Seq<char>,
    windows: bool,
) -> bool {
    if !windows {
        joined == unix_join(base, part)
    } else if joins_plainly(base, part) {
        joined == windows_join(base, part)
    } else {
        joins(base, part, joined)
    }
}

/// How many characters the root of `path` takes: a separator, after a drive on Windows.
pub open spec fn root_len(path: Seq<char>, windows: bool) -> int {
    if windows && has_drive(path) && has_root(path.skip(2), true) {
        3
    } else if has_root(path, windows) {
        1
    } else {
        0
    }
}

/// Whether `s` is nothing but separators and names that are a single dot, which do not count as
/// names.
pub open spec fn is_filler(s: Seq<char>, windows: bool) -> bool {
    forall|i: int|
        0 <= i < s.len() ==> is_separator(#[trigger] s[i], windows) || (s[i] == '.' && (i == 0
            || is_separator(s[i - 1], windows)) && (i + 1 == s.len() || is_separator(
            s[i + 1],
            windows,
        )))
}

/// Whether `dir` ends in a name, and not in a separator or a name that is a single dot.
pub open spec fn ends_in_name(dir: Seq<char>, windows: bool) -> bool {
    &&& dir.len() > 0
    &&& !is_separator(dir.last(), windows)
    &&& dir.last() == '.' ==> dir.len() > 1 && !is_separator(dir[dir.len() - 2], windows)
}

/// Whether `name` is one name of a path.
pub open spec fn is_name(name: Seq<char>, windows: bool) -> bool {
    &&& name.len() > 0
    &&& forall|i: int| 0 <= i < name.len() ==> !is_separator(#[trigger] name[i], windows)
    &&& name != seq!['.']
}

/// Whether `name` is one name of a path, and not that of a parent directory.
pub open spec fn is_plain_name(name: Seq<char>, windows: bool) -> bool {
    is_name(name, windows) && name != seq!['.', '.']
}

/// Whether `path` divides into a root, which may be empty, the way `dir` below it, which may be
/// empty too, and the last name `name`, with `gap` before the name and `tail` after it, which are
/// nothing but separators and single dots. On Windows this is not said of shares and devices, nor
/// of a drive without a root.
pub open spec fn divides_on(
    path: Seq<char>,
    dir: Seq<char>,
    gap: Seq<char>,
    name: Seq<char>,
    tail: Seq<char>,
    windows: bool,
) -> bool {
    let root = root_len(path, windows);
    &&& path == path.take(root) + dir + gap + name + tail
    &&& windows ==> !has_share(path) && (has_drive(path) ==> root == 3)
    &&& is_name(name, windows)
    &&& is_filler(gap, windows)
    &&& gap.len() > 0 ==> is_separator(gap.last(), windows)
    &&& is_filler(tail, windows)
    &&& tail.len() > 0 ==> is_separator(tail[0], windows)
    &&& if dir.len() > 0 {
        ends_in_name(dir, windows) && has_root(gap, windows)
    } else {
        root == 0 ==> gap.len() == 0
    }
}

/// Whether `path` has no name at all: it is empty, or a root and nothing but separators and single
/// dots.
pub open spec fn is_bare_root(path: Seq<char>, windows: bool) -> bool {
    let root = root_len(path, windows);
    &&& windows ==> !has_share(path)
    &&& path.len() == 0 || (root > 0 && is_filler(path.skip(root), windows))
}

/// The parent of `path` on one platform: the way to its last name.
pub open spec fn parent_on(path: Seq<char>, parent: Option<Seq<char>>, windows: bool) -> bool {
    &&& is_bare_root(path, windows) ==> parent is None
    &&& forall|dir: Seq<char>, gap: Seq<char>, name: Seq<char>, tail: Seq<char>| #[trigger]
        divides_on(path, dir, gap, name, tail, windows) ==> parent == Some(
            path.take(root_len(path, windows)) + dir,
        )
}

/// The last name of `path` on one platform, where it is not that of a parent directory.
pub open spec fn last_name_on(path: Seq<char>, last: Option<Seq<char>>, windows: bool) -> bool {
    &&& is_bare_root(path, windows) ==> last is None
    &&& forall|dir: Seq<char>, gap: Seq<char>, name: Seq<char>, tail: Seq<char>| #[trigger]
        divides_on(path, dir, gap, name, tail, windows) ==> last == (if name == seq!['.', '.'] {
            None
        } else {
            Some(name)
        })
}

/// Whether it is said of `path` how it divides on a platform: it is no share or device and no drive
/// without a root, and its first name is no single dot.
pub open spec fn is_ordinary(path: Seq<char>, windows: bool) -> bool {
    &&& windows ==> !has_share(path) && (has_drive(path) ==> root_len(path, true) == 3)
    &&& root_len(path, windows) == 0 && path.len() > 0 && path[0] == '.' ==> path.len() > 1
        && !is_separator(path[1], windows)
}

/// Whether `path` divides into `parent` and its last name `name`.
pub open spec fn is_division(
    path: Seq<char>,
    parent: Seq<char>,
    name: Seq<char>,
    windows: bool,
) -> bool {
    exists|dir: Seq<char>, gap: Seq<char>, tail: Seq<char>| #[trigger]
        divides_on(path, dir, gap, name, tail, windows) && parent == path.take(
            root_len(path, windows),
        ) + dir
}

/// Whether `parent` and `name` are the parent and the last name of `path` on one platform, as far
/// as it is said how the path divides; in any case the name is a plain one. There is no name to
/// give where the path ends in that of a parent directory.
pub open spec fn agrees(
    path: Seq<char>,
    parent: Option<Seq<char>>,
    name: Option<Seq<char>>,
    windows: bool,
) -> bool {
    &&& name matches Some(n) ==> is_plain_name(n, windows)
    &&& is_ordinary(path, windows) ==> match parent {
        Some(parent) => is_division(
            path,
            parent,
            match name {
                Some(n) => n,
                None => seq!['.', '.'],
            },
            windows,
        ),
        None => is_bare_root(path, windows),
    }
}

/// What agrees with a path that divides is the way to its last name, and the name.
pub proof fn law_agreement_is_the_division(
    path: Seq<char>,
    parent: Option<Seq<char>>,
    name: Option<Seq<char>>,
    dir: Seq<char>,
    gap: Seq<char>,
    last: Seq<char>,
    tail: Seq<char>,
    windows: bool,
)
    requires
        divides_on(path, dir, gap, last, tail, windows),
        is_ordinary(path, windows),
        agrees(path, parent, name, windows),
    ensures
        parent == Some(path.take(root_len(path, windows)) + dir),
        name == (if last == seq!['.', '.'] {
            None
        } else {
            Some(last)
        }),
{
    if parent is None {
        lemma_bare_root_does_not_divide(path, dir, gap, last, tail, windows);
    }
    let n = match name {
        Some(n) => n,
        None => seq!['.', '.'],
    };
    let (d, g, t) = choose|d: Seq<char>, g: Seq<char>, t: Seq<char>| #[trigger]
        divides_on(path, d, g, n, t, windows) && parent->0 == path.take(root_len(path, windows))
            + d;
    law_one_division(path, d, g, n, t, dir, gap, last, tail, windows);
}

/// What can come of asking for the parent of `path`: what Unix gives, or what Windows gives, and
/// in any case something shorter that `path` begins with.
pub open spec fn parent_of(path: Seq<char>, parent: Option<Seq<char>>) -> bool {
    &&& parent_on(path, parent, false) || parent_on(path, parent, true)
    &&& parent matches Some(p) ==> p.is_prefix_of(path) && p.len() < path.len()
}

/// What can come of asking for the last name of `path`: what Unix gives, or what Windows gives,
/// and in any case something that occurs in `path`.
pub open spec fn last_name_of(path: Seq<char>, last: Option<Seq<char>>) -> bool {
    &&& last_name_on(path, last, false) || last_name_on(path, last, true)
    &&& last matches Some(n) ==> {
        &&& n.len() > 0
        &&& n != seq!['.', '.']
        &&& exists|i: int, j: int|
            0 <= i <= j <= path.len() && n == #[trigger] path.subrange(i, j)
    }
}

/// A path divides in one way only.
pub proof fn law_one_division(
    path: Seq<char>,
    dir1: Seq<char>,
    gap1: Seq<char>,
    name1: Seq<char>,
    tail1: Seq<char>,
    dir2: Seq<char>,
    gap2: Seq<char>,
    name2: Seq<char>,
    tail2: Seq<char>,
    windows: bool,
)
    requires
        divides_on(path, dir1, gap1, name1, tail1, windows),
        divides_on(path, dir2, gap2, name2, tail2, windows),
    ensures
        dir1 == dir2,
        gap1 == gap2,
        name1 == name2,
        tail1 == tail2,
{
    lemma_division_indices(path, dir1, gap1, name1, tail1, windows);
    lemma_division_indices(path, dir2, gap2, name2, tail2, windows);
    lemma_tail_not_longer(path, dir1, gap1, name1, tail1, dir2, gap2, name2, tail2, windows);
    lemma_tail_not_longer(path, dir2, gap2, name2, tail2, dir1, gap1, name1, tail1, windows);
    lemma_name_not_shorter(path, dir1, gap1, name1, tail1, dir2, gap2, name2, tail2, windows);
    lemma_name_not_shorter(path, dir2, gap2, name2, tail2, dir1, gap1, name1, tail1, windows);
    lemma_dir_not_shorter(path, dir1, gap1, name1, tail1, dir2, gap2, name2, tail2, windows);
    lemma_dir_not_shorter(path, dir2, gap2, name2, tail2, dir1, gap1, name1, tail1, windows);
    assert(dir1 =~= dir2);
    assert(gap1 =~= gap2);
    assert(name1 =~= name2);
    assert(tail1 =~= tail2);
}

proof fn lemma_division_indices(
    path: Seq<char>,
    dir: Seq<char>,
    gap: Seq<char>,
    name: Seq<char>,
    tail: Seq<char>,
    windows: bool,
)
    requires
        divides_on(path, dir, gap, name, tail, windows),
    ensures
        ({
            let d = root_len(path, windows);
            let g = d + dir.len();
            let n = g + gap.len();
            let t = n + name.len();
            &&& path.len() == t + tail.len()
            &&& dir == path.subrange(d, g)
            &&& gap == path.subrange(g, n)
            &&& name == path.subrange(n, t)
            &&& tail == path.subrange(t, path.len() as int)
        }),
{
    let d = root_len(path, windows);
    let g = d + dir.len();
    let n = g + gap.len();
    let t = n + name.len();
    let whole = path.take(d) + dir + gap + name + tail;
    assert(whole.len() == t + tail.len());
    assert(dir =~= whole.subrange(d, g));
    assert(gap =~= whole.subrange(g, n));
    assert(name =~= whole.subrange(n, t));
    assert(tail =~= whole.subrange(t, whole.len() as int));
}

proof fn lemma_tail_not_longer(
    path: Seq<char>,
    dir1: Seq<char>,
    gap1: Seq<char>,
    name1: Seq<char>,
    tail1: Seq<char>,
    dir2: Seq<char>,
    gap2: Seq<char>,
    name2: Seq<char>,
    tail2: Seq<char>,
    windows: bool,
)
    requires
        divides_on(path, dir1, gap1, name1, tail1, windows),
        divides_on(path, dir2, gap2, name2, tail2, windows),
    ensures
        tail1.len() <= tail2.len(),
{
    lemma_division_indices(path, dir1, gap1, name1, tail1, windows);
    lemma_division_indices(path, dir2, gap2, name2, tail2, windows);
    if tail1.len() > tail2.len() {
        let t1 = path.len() - tail1.len();
        let t2 = path.len() - tail2.len();
        let i = t2 - 1 - t1;
        assert(tail1[i] == path[t2 - 1]);
        assert(name2.last() == path[t2 - 1]);
        assert(!is_separator(name2[name2.len() - 1], windows));
        assert(tail1[i] == '.');
        assert(i > 0);
        assert(is_separator(tail1[i - 1], windows));
        assert(tail1[i - 1] == path[t2 - 2]);
        if name2.len() > 1 {
            assert(name2[name2.len() - 2] == path[t2 - 2]);
            assert(!is_separator(name2[name2.len() - 2], windows));
        } else {
            assert(name2 =~= seq!['.']);
        }
        assert(false);
    }
}

proof fn lemma_name_not_shorter(
    path: Seq<char>,
    dir1: Seq<char>,
    gap1: Seq<char>,
    name1: Seq<char>,
    tail1: Seq<char>,
    dir2: Seq<char>,
    gap2: Seq<char>,
    name2: Seq<char>,
    tail2: Seq<char>,
    windows: bool,
)
    requires
        divides_on(path, dir1, gap1, name1, tail1, windows),
        divides_on(path, dir2, gap2, name2, tail2, windows),
        tail1.len() == tail2.len(),
    ensures
        name1.len() >= name2.len(),
{
    lemma_division_indices(path, dir1, gap1, name1, tail1, windows);
    lemma_division_indices(path, dir2, gap2, name2, tail2, windows);
    if name1.len() < name2.len() {
        let n1 = path.len() - tail1.len() - name1.len();
        let n2 = path.len() - tail2.len() - name2.len();
        let i = n1 - 1 - n2;
        assert(name2[i] == path[n1 - 1]);
        assert(!is_separator(name2[i], windows));
        assert(gap1.len() > 0);
        assert(gap1.last() == path[n1 - 1]);
        assert(false);
    }
}

proof fn lemma_dir_not_shorter(
    path: Seq<char>,
    dir1: Seq<char>,
    gap1: Seq<char>,
    name1: Seq<char>,
    tail1: Seq<char>,
    dir2: Seq<char>,
    gap2: Seq<char>,
    name2: Seq<char>,
    tail2: Seq<char>,
    windows: bool,
)
    requires
        divides_on(path, dir1, gap1, name1, tail1, windows),
        divides_on(path, dir2, gap2, name2, tail2, windows),
        tail1.len() == tail2.len(),
        name1.len() == name2.len(),
    ensures
        dir1.len() >= dir2.len(),
{
    lemma_division_indices(path, dir1, gap1, name1, tail1, windows);
    lemma_division_indices(path, dir2, gap2, name2, tail2, windows);
    if dir1.len() < dir2.len() {
        let d = root_len(path, windows);
        let i = dir2.len() - 1 - dir1.len();
        assert(gap1[i] == path[d + dir2.len() - 1]);
        assert(dir2.last() == path[d + dir2.len() - 1]);
        assert(gap1[i] == '.');
        assert(dir2.len() > 1);
        assert(dir2[dir2.len() - 2] == path[d + dir2.len() - 2]);
        if i > 0 {
            assert(gap1[i - 1] == path[d + dir2.len() - 2]);
        }
        assert(false);
    }
}

proof fn lemma_bare_root_does_not_divide(
    path: Seq<char>,
    dir: Seq<char>,
    gap: Seq<char>,
    name: Seq<char>,
    tail: Seq<char>,
    windows: bool,
)
    requires
        is_bare_root(path, windows),
    ensures
        !divides_on(path, dir, gap, name, tail, windows),
{
    if divides_on(path, dir, gap, name, tail, windows) {
        lemma_division_indices(path, dir, gap, name, tail, windows);
        let d = root_len(path, windows);
        let n = d + dir.len() + gap.len();
        let rest = path.skip(d);
        let i = n - d;
        assert(rest[i] == path[n]);
        assert(name[0] == path[n]);
        assert(!is_separator(name[0], windows));
        assert(rest[i] == '.');
        if name.len() > 1 {
            assert(rest[i + 1] == path[n + 1]);
            assert(name[1] == path[n + 1]);
            assert(!is_separator(name[1], windows));
        } else {
            assert(name =~= seq!['.']);
        }
        assert(false);
    }
}

/// Every path has a parent, or none, and a last name, or none, on each platform.
pub proof fn law_every_path_can_be_divided(path: Seq<char>, windows: bool)
    ensures
        exists|parent: Option<Seq<char>>| parent_on(path, parent, windows),
        exists|last: Option<Seq<char>>| last_name_on(path, last, windows),
{
    if exists|dir: Seq<char>, gap: Seq<char>, name: Seq<char>, tail: Seq<char>|
        divides_on(path, dir, gap, name, tail, windows) {
        let (dir, gap, name, tail) = choose|
            dir: Seq<char>,
            gap: Seq<char>,
            name: Seq<char>,
            tail: Seq<char>,
        |
            divides_on(path, dir, gap, name, tail, windows);
        let parent = Some(path.take(root_len(path, windows)) + dir);
        let last: Option<Seq<char>> = if name == seq!['.', '.'] {
            None
        } else {
            Some(name)
        };
        assert forall|d: Seq<char>, g: Seq<char>, n: Seq<char>, t: Seq<char>| #[trigger]
            divides_on(path, d, g, n, t, windows) implies d == dir && n == name by {
            law_one_division(path, d, g, n, t, dir, gap, name, tail, windows);
        }
        if is_bare_root(path, windows) {
            lemma_bare_root_does_not_divide(path, dir, gap, name, tail, windows);
        }
        assert(parent_on(path, parent, windows));
        assert(last_name_on(path, last, windows));
    } else {
        assert(parent_on(path, None, windows));
        assert(last_name_on(path, None, windows));
    }
}

/// Whether the character at the index `i` of `path`, whose root takes `root` characters, is a
/// separator or a name that is a single dot.
spec fn fills_at(path: Seq<char>, root: int, i: int, windows: bool) -> bool {
    is_separator(path[i], windows) || (path[i] == '.' && (i == root || is_separator(
        path[i - 1],
        windows,
    )) && (i + 1 == path.len() || is_separator(path[i + 1], windows)))
}

proof fn lemma_last_in_name(path: Seq<char>, root: int, bound: int, windows: bool) -> (last: int)
    requires
        0 <= root <= bound <= path.len(),
    ensures
        root - 1 <= last < bound,
        last >= root ==> !fills_at(path, root, last, windows),
        forall|i: int| last < i < bound && root <= i ==> #[trigger] fills_at(path, root, i, windows),
    decreases bound - root,
{
    if bound == root {
        root - 1
    } else if !fills_at(path, root, bound - 1, windows) {
        bound - 1
    } else {
        lemma_last_in_name(path, root, bound - 1, windows)
    }
}

proof fn lemma_name_start(path: Seq<char>, root: int, last: int, windows: bool) -> (start: int)
    requires
        0 <= root <= last < path.len(),
        !is_separator(path[last], windows),
    ensures
        root <= start <= last,
        start == root || is_separator(path[start - 1], windows),
        forall|i: int| start <= i <= last ==> !is_separator(#[trigger] path[i], windows),
    decreases last - root,
{
    if last == root || is_separator(path[last - 1], windows) {
        last
    } else {
        lemma_name_start(path, root, last - 1, windows)
    }
}

proof fn lemma_filler_between(path: Seq<char>, root: int, from: int, to: int, windows: bool)
    requires
        0 <= root <= from <= to <= path.len(),
        forall|i: int| from <= i < to ==> #[trigger] fills_at(path, root, i, windows),
    ensures
        is_filler(path.subrange(from, to), windows),
{
    let s = path.subrange(from, to);
    assert forall|i: int| 0 <= i < s.len() implies is_separator(#[trigger] s[i], windows) || (s[i]
        == '.' && (i == 0 || is_separator(s[i - 1], windows)) && (i + 1 == s.len() || is_separator(
        s[i + 1],
        windows,
    ))) by {
        assert(fills_at(path, root, from + i, windows));
        assert(s[i] == path[from + i]);
        assert(i > 0 ==> s[i - 1] == path[from + i - 1]);
        assert(i + 1 < s.len() ==> s[i + 1] == path[from + i + 1]);
    }
}

proof fn lemma_way_to_name(path: Seq<char>, root: int, start: int, windows: bool) -> (split: int)
    requires
        0 <= root < start < path.len(),
        root == 0 ==> !is_separator(path[0], windows),
        root == 0 && path[0] == '.' ==> path.len() > 1 && !is_separator(path[1], windows),
        is_separator(path[start - 1], windows),
    ensures
        root <= split < start,
        is_filler(path.subrange(split, start), windows),
        if split > root {
            ends_in_name(path.subrange(root, split), windows) && is_separator(path[split], windows)
        } else {
            root > 0
        },
{
    let above = lemma_last_in_name(path, root, start, windows);
    assert(fills_at(path, root, start - 1, windows));
    if above < root {
        lemma_filler_between(path, root, root, start, windows);
        if root == 0 {
            assert(fills_at(path, root, 0, windows));
        }
        root
    } else {
        let split = above + 1;
        lemma_filler_between(path, root, split, start, windows);
        assert(fills_at(path, root, split, windows));
        let dir = path.subrange(root, split);
        assert(dir.last() == path[above]);
        assert(dir.len() > 1 ==> dir[dir.len() - 2] == path[above - 1]);
        split
    }
}

/// A path of which it is said how it divides has no name at all, or it divides into a parent and a
/// last name.
pub proof fn law_ordinary_paths_divide(path: Seq<char>, windows: bool)
    requires
        is_ordinary(path, windows),
    ensures
        is_bare_root(path, windows) || exists|
            dir: Seq<char>,
            gap: Seq<char>,
            name: Seq<char>,
            tail: Seq<char>,
        |
            divides_on(path, dir, gap, name, tail, windows),
{
    let root = root_len(path, windows);
    let len = path.len() as int;
    assert(root <= len) by {
        if windows && has_drive(path) && has_root(path.skip(2), true) {
            assert(path.skip(2).len() > 0);
        }
    }
    let last = lemma_last_in_name(path, root, len, windows);
    if last < root {
        lemma_filler_between(path, root, root, len, windows);
        assert(path.skip(root) =~= path.subrange(root, len));
        if root == 0 && len > 0 {
            assert(fills_at(path, root, 0, windows));
        }
        assert(is_bare_root(path, windows));
    } else {
        let end = last + 1;
        let start = lemma_name_start(path, root, last, windows);
        let split = if start == root {
            root
        } else {
            lemma_way_to_name(path, root, start, windows)
        };
        let dir = path.subrange(root, split);
        let gap = path.subrange(split, start);
        let name = path.subrange(start, end);
        let tail = path.subrange(end, len);
        lemma_filler_between(path, root, end, len, windows);
        lemma_division_holds(path, root, split, start, end, windows);
        assert(divides_on(path, dir, gap, name, tail, windows));
    }
}

proof fn lemma_division_holds(
    path: Seq<char>,
    root: int,
    split: int,
    start: int,
    end: int,
    windows: bool,
)
    requires
        is_ordinary(path, windows),
        root == root_len(path, windows),
        0 <= root <= split <= start < end <= path.len(),
        split == start ==> start == root,
        start > root ==> is_separator(path[start - 1], windows),
        split > root ==> ends_in_name(path.subrange(root, split), windows) && is_separator(
            path[split],
            windows,
        ),
        split == root && start > root ==> root > 0,
        is_filler(path.subrange(split, start), windows),
        is_filler(path.subrange(end, path.len() as int), windows),
        forall|i: int| start <= i < end ==> !is_separator(#[trigger] path[i], windows),
        !fills_at(path, root, end - 1, windows),
        end < path.len() ==> fills_at(path, root, end, windows),
    ensures
        divides_on(
            path,
            path.subrange(root, split),
            path.subrange(split, start),
            path.subrange(start, end),
            path.subrange(end, path.len() as int),
            windows,
        ),
{
    let dir = path.subrange(root, split);
    let gap = path.subrange(split, start);
    let name = path.subrange(start, end);
    let tail = path.subrange(end, path.len() as int);
    assert(path =~= path.take(root) + dir + gap + name + tail);
    assert forall|i: int| 0 <= i < name.len() implies !is_separator(
        #[trigger] name[i],
        windows,
    ) by {
        assert(name[i] == path[start + i]);
    }
    assert(!is_separator(path[end - 1], windows));
    if name == seq!['.'] {
        assert(name.len() == 1);
        assert(name[0] == path[start] && name[0] == '.');
        assert(fills_at(path, root, end - 1, windows));
    }
    assert(is_name(name, windows));
    assert(gap.len() > 0 ==> gap.last() == path[start - 1] && gap[0] == path[split]);
    assert(tail.len() > 0 ==> tail[0] == path[end]);
}

/// What a platform answers of a path of which it is said how it divides agrees with the path, where
/// the answers are those of the platform.
pub proof fn law_answers_of_the_platform_agree(
    path: Seq<char>,
    parent: Option<Seq<char>>,
    name: Option<Seq<char>>,
    windows: bool,
)
    requires
        is_ordinary(path, windows),
        parent_on(path, parent, windows),
        last_name_on(path, name, windows),
    ensures
        agrees(path, parent, name, windows),
{
    law_ordinary_paths_divide(path, windows);
    if !is_bare_root(path, windows) {
        let (dir, gap, last, tail) = choose|
            dir: Seq<char>,
            gap: Seq<char>,
            last: Seq<char>,
            tail: Seq<char>,
        |
            divides_on(path, dir, gap, last, tail, windows);
        assert(divides_on(path, dir, gap, last, tail, windows));
    }
}

proof fn lemma_encode_utf8_concat(a: Seq<char>, b: Seq<char>)
    ensures
        encode_utf8(a + b) == encode_utf8(a) + encode_utf8(b),
    decreases a.len(),
{
    if a.len() == 0 {
        assert(a + b =~= b);
        assert(encode_utf8(a) =~= Seq::<u8>::empty());
        assert(encode_utf8(a) + encode_utf8(b) =~= encode_utf8(b));
    } else {
        lemma_encode_utf8_concat(a.drop_first(), b);
        assert((a + b).drop_first() =~= a.drop_first() + b);
        assert(encode_utf8(a + b) =~= encode_utf8(a) + encode_utf8(b));
    }
}

proof fn lemma_boundary_after(a: Seq<char>, b: Seq<char>)
    ensures
        is_char_boundary(encode_utf8(a + b), encode_utf8(a).len() as int),
    decreases a.len(),
{
    encode_utf8_valid_utf8(a + b);
    if a.len() == 0 {
        assert(encode_utf8(a) =~= Seq::<u8>::empty());
    } else {
        lemma_encode_utf8_concat(a, b);
        encode_utf8_first_scalar(a + b);
        encode_utf8_first_scalar(a);
        lemma_boundary_after(a.drop_first(), b);
        let bytes = encode_utf8(a + b);
        assert((a + b).drop_first() =~= a.drop_first() + b);
        assert((a + b)[0] == a[0]);
        assert(pop_first_scalar(bytes) =~= encode_utf8(a.drop_first() + b));
    }
}

/// What is left after as many bytes as `root` has is `b`, where the part before has as many.
pub proof fn lemma_after_prefix(root: Seq<char>, a: Seq<char>, b: Seq<char>)
    requires
        encode_utf8(a).len() == encode_utf8(root).len(),
    ensures
        after_root(root, a + b) == Some(b),
{
    lemma_encode_utf8_concat(a, b);
    lemma_boundary_after(a, b);
    let bytes = encode_utf8(a + b);
    assert(bytes.subrange(encode_utf8(a).len() as int, bytes.len() as int) =~= encode_utf8(b));
    encode_utf8_decode_utf8(b);
}

/// On ASCII text, what is left after as many bytes as `root` has is what is left after as many
/// characters.
proof fn lemma_after_root_in_ascii(root: Seq<char>, path: Seq<char>)
    requires
        is_ascii_chars(root),
        is_ascii_chars(path),
    ensures
        after_root(root, path) == (if root.len() <= path.len() {
            Some(path.skip(root.len() as int))
        } else {
            None
        }),
{
    is_ascii_chars_encode_utf8(root);
    is_ascii_chars_encode_utf8(path);
    if root.len() <= path.len() {
        let a = path.take(root.len() as int);
        let b = path.skip(root.len() as int);
        assert(path =~= a + b);
        is_ascii_chars_encode_utf8(a);
        lemma_after_prefix(root, a, b);
    } else {
        encode_utf8_valid_utf8(path);
    }
}

proof fn lemma_extension_in_lower_case(root: Seq<char>, path: Seq<char>)
    requires
        extends(root, path, true),
        text::lowered_around_slashes(root, text::lowercase(root)),
        text::lowered_around_slashes(path, text::lowercase(path)),
        root.len() == 0 ==> text::lowercase(root).len() == 0,
    ensures
        extends(text::lowercase(root), text::lowercase(path), true),
{
    let lower = text::lowercase(path);
    let n = root.len() as int;
    if n == path.len() {
        assert(root =~= path);
        assert(lower =~= lower.subrange(0, lower.len() as int));
    } else if n == 0 {
        assert(text::lowercase(root) =~= lower.subrange(0, 0));
    } else if is_separator(root.last(), true) {
        let before = root.take(n - 1);
        assert(path.take(n - 1) =~= before);
        let kept = text::lowercase(path.take(n - 1)).push(path[n - 1]);
        assert(kept == text::lowercase(root.take(n - 1)).push(root[n - 1]));
        assert(text::lowercase(root) =~= kept);
        assert(kept.is_prefix_of(lower));
    } else {
        assert(path.take(n) =~= root);
        let kept = text::lowercase(path.take(n)).push(path[n]);
        assert(kept.is_prefix_of(lower));
        assert(kept[kept.len() - 1] == lower[kept.len() - 1]);
        assert(text::lowercase(root) =~= lower.subrange(0, text::lowercase(root).len() as int));
    }
}

proof fn lemma_below_differs_in_lower_case(root: Seq<char>, dir: Seq<char>)
    requires
        goes_below(root, dir),
        text::lowered_around_slashes(root, text::lowercase(root)),
        text::lowered_around_slashes(dir, text::lowercase(dir)),
    ensures
        text::lowercase(dir) != text::lowercase(root),
{
    let n = root.len() as int;
    if n > 0 && is_separator(root.last(), true) {
        assert(dir.take(n - 1) =~= root.take(n - 1));
        assert(text::lowercase(root).len() == text::lowercase(root.take(n - 1)).len() + 1);
        assert(text::lowercase(dir).len() != text::lowercase(dir.take(n - 1)).len() + 1);
    } else {
        assert(dir.take(n) =~= root);
        assert(text::lowercase(dir.take(n)).push(dir[n]).is_prefix_of(text::lowercase(dir)));
    }
}

/// `std::path::Path::join`, on text. It is claimed that the result is that of Unix or that of
/// Windows, whichever the server runs on. Nothing is claimed of a base that begins with the
/// verbatim prefix of Windows.
#[verifier::external_body]
fn join(base: &str, part: &str) -> (joined: String)
    ensures
        joins(base@, part@, joined@),
{
    std::path::Path::new(base).join(part).to_string_lossy().into_owned()
}

/// `part` joined to `base` on Unix.
fn join_unix(base: &str, part: &str) -> (joined: String)
    ensures
        joined@ == unix_join(base@, part@),
{
    if text::starts_with(part, '/') {
        return part.to_string();
    }
    let mut joined = base.to_string();
    let n: usize = base.unicode_len();
    if n > 0 && base.get_char(n - 1) != '/' {
        joined.push('/');
    }
    joined.append(part);
    joined
}

/// Whether `v` begins with the letter of a drive of Windows.
fn drive(v: &Vec<char>) -> (r: bool)
    ensures
        r == has_drive(v@),
{
    v.len() >= 2 && (('a' <= v[0] && v[0] <= 'z') || ('A' <= v[0] && v[0] <= 'Z')) && v[1] == ':'
}

/// Whether `v` begins with two separators of Windows.
fn share(v: &Vec<char>) -> (r: bool)
    ensures
        r == has_share(v@),
{
    v.len() >= 2 && separator(v[0], true) && separator(v[1], true)
}

/// `part` joined to `base` on Windows, where it is joined plainly.
fn join_windows(base: &str, part: &str) -> (joined: String)
    requires
        joins_plainly(base@, part@),
    ensures
        joined@ == windows_join(base@, part@),
{
    let b = text::characters(base);
    let p = text::characters(part);
    if drive(&p) {
        return part.to_string();
    }
    if p.len() > 0 && separator(p[0], true) {
        if drive(&b) {
            let mut joined = base.substring_char(0, 2).to_string();
            assert(base@.subrange(0, 2) =~= base@.take(2));
            joined.append(part);
            return joined;
        }
        return part.to_string();
    }
    let mut joined = base.to_string();
    if b.len() > 0 && !separator(b[b.len() - 1], true) {
        joined.push('\\');
    }
    joined.append(part);
    joined
}

/// `part` joined to `base`, for a server that runs on Windows or not.
pub(crate) fn join_for(base: &str, part: &str, windows: bool) -> (joined: String)
    ensures
        joins_for(base@, part@, joined@, windows),
{
    if !windows {
        return join_unix(base, part);
    }
    let b = text::characters(base);
    let p = text::characters(part);
    if share(&b) || share(&p) || (b.len() == 2 && drive(&b)) {
        join(base, part)
    } else {
        join_windows(base, part)
    }
}

/// `std::path::Path::parent`, on text. It is claimed that the result is that of Unix or that of
/// Windows, whichever the server runs on. Left open but for its being a shorter beginning of the
/// path: a share, a device or a drive without a root on Windows, and a path whose first name is a
/// single dot.
#[verifier::external_body]
pub(crate) fn parent(path: &str) -> (r: Option<String>)
    ensures
        parent_of(path@, r.deep_view()),
{
    std::path::Path::new(path).parent().map(|p| p.to_string_lossy().into_owned())
}

/// `std::path::Path::file_name`, on text. It is claimed that the result is that of Unix or that
/// of Windows, whichever the server runs on. Left open but for its occurring in the path: a share,
/// a device or a drive without a root on Windows, and a path whose first name is a single dot.
#[verifier::external_body]
pub(crate) fn last_name(path: &str) -> (r: Option<String>)
    ensures
        last_name_of(path@, r.deep_view()),
{
    std::path::Path::new(path).file_name().map(|n| n.to_string_lossy().into_owned())
}

/// `path` without the prefix that Windows puts before a canonical path; on other platforms
/// `path` itself.
pub fn normalize_path(path: &str, windows: bool) -> (r: String)
    ensures
        r@ == normalized(path@, windows),
{
    let v = text::characters(path);
    if windows && v.len() >= 4 && v[0] == '\\' && v[1] == '\\' && v[2] == '?' && v[3] == '\\' {
        assert(path@.subrange(4, v.len() as int) =~= path@.skip(4));
        path.substring_char(4, v.len()).to_string()
    } else {
        path.to_string()
    }
}

fn separator(c: char, windows: bool) -> (r: bool)
    ensures
        r == is_separator(c, windows),
{
    c == '/' || (windows && c == '\\')
}

/// Whether `name` is one name of a path, and not that of a parent directory.
pub fn plain_name(name: &str, windows: bool) -> (r: bool)
    ensures
        r == is_plain_name(name@, windows),
{
    let v = text::characters(name);
    assert(v@.subrange(0, v@.len() as int) =~= v@);
    if v.len() == 2 && v[0] == '.' && v[1] == '.' {
        assert(v@ =~= seq!['.', '.']);
        return false;
    }
    assert(v@ != seq!['.', '.']);
    one_name(&v, 0, v.len(), windows)
}

/// Whether the part of `v` from `from` to `to` is one name of a path.
fn one_name(v: &Vec<char>, from: usize, to: usize, windows: bool) -> (r: bool)
    requires
        from <= to <= v.len(),
    ensures
        r == is_name(v@.subrange(from as int, to as int), windows),
{
    let ghost name = v@.subrange(from as int, to as int);
    if from == to {
        return false;
    }
    if to - from == 1 && v[from] == '.' {
        assert(name =~= seq!['.']);
        return false;
    }
    assert(name[0] == v@[from as int]);
    assert(seq!['.'].len() == 1 && seq!['.'][0] == '.');
    assert(name != seq!['.']);
    let mut i: usize = from;
    while i < to
        invariant
            from <= i <= to <= v.len(),
            name == v@.subrange(from as int, to as int),
            forall|k: int| 0 <= k < i - from ==> !is_separator(#[trigger] name[k], windows),
        decreases to - i,
    {
        assert(name[i - from] == v@[i as int]);
        if separator(v[i], windows) {
            return false;
        }
        i += 1;
    }
    true
}

/// Whether the part of `v` from `from` to `to` is nothing but separators and single dots.
fn filler(v: &Vec<char>, from: usize, to: usize, windows: bool) -> (r: bool)
    requires
        from <= to <= v.len(),
    ensures
        r == is_filler(v@.subrange(from as int, to as int), windows),
{
    let ghost s = v@.subrange(from as int, to as int);
    let mut i: usize = from;
    while i < to
        invariant
            from <= i <= to <= v.len(),
            s == v@.subrange(from as int, to as int),
            forall|k: int|
                0 <= k < i - from ==> is_separator(#[trigger] s[k], windows) || (s[k] == '.' && (k
                    == 0 || is_separator(s[k - 1], windows)) && (k + 1 == s.len() || is_separator(
                    s[k + 1],
                    windows,
                ))),
        decreases to - i,
    {
        let ghost k = i - from;
        assert(s[k] == v@[i as int]);
        assert(k > 0 ==> s[k - 1] == v@[i - 1]);
        assert(k + 1 < s.len() ==> s[k + 1] == v@[i + 1]);
        if !separator(v[i], windows) {
            if v[i] != '.' || (i > from && !separator(v[i - 1], windows)) || (i + 1 < to
                && !separator(v[i + 1], windows)) {
                return false;
            }
        }
        i += 1;
    }
    true
}

/// How many characters the root of `v` takes.
fn root_length(v: &Vec<char>, windows: bool) -> (r: usize)
    ensures
        r == root_len(v@, windows),
        r <= v.len(),
{
    if windows && drive(v) && v.len() > 2 && separator(v[2], true) {
        assert(v@.skip(2)[0] == v@[2]);
        3
    } else {
        assert(v.len() > 2 ==> v@.skip(2)[0] == v@[2]);
        if v.len() > 0 && separator(v[0], windows) {
            1
        } else {
            0
        }
    }
}

/// Whether `v` divides at the given indices: the end of its root, that of the way to its last name,
/// and the two ends of the name.
fn divides_at(v: &Vec<char>, root: usize, dir: usize, start: usize, end: usize, windows: bool) -> (r:
    bool)
    requires
        root == root_len(v@, windows),
        root <= dir <= start <= end <= v.len(),
    ensures
        r == divides_on(
            v@,
            v@.subrange(root as int, dir as int),
            v@.subrange(dir as int, start as int),
            v@.subrange(start as int, end as int),
            v@.subrange(end as int, v@.len() as int),
            windows,
        ),
{
    let ghost d = v@.subrange(root as int, dir as int);
    let ghost g = v@.subrange(dir as int, start as int);
    let ghost n = v@.subrange(start as int, end as int);
    let ghost t = v@.subrange(end as int, v@.len() as int);
    assert(v@ =~= v@.take(root as int) + d + g + n + t);
    let len: usize = v.len();
    assert(g.len() > 0 ==> g[0] == v@[dir as int] && g.last() == v@[start - 1]);
    assert(t.len() > 0 ==> t[0] == v@[end as int]);
    assert(d.len() > 0 ==> d.last() == v@[dir - 1]);
    assert(d.len() > 1 ==> d[d.len() - 2] == v@[dir - 2]);
    if windows && (share(v) || (drive(v) && root != 3)) {
        return false;
    }
    if !one_name(v, start, end, windows) || !filler(v, dir, start, windows) || !filler(
        v,
        end,
        len,
        windows,
    ) {
        return false;
    }
    if (dir < start && !separator(v[start - 1], windows)) || (end < len && !separator(
        v[end],
        windows,
    )) {
        return false;
    }
    if root < dir {
        !separator(v[dir - 1], windows) && (v[dir - 1] != '.' || (dir - root > 1 && !separator(
            v[dir - 2],
            windows,
        ))) && dir < start && separator(v[dir], windows)
    } else {
        root != 0 || dir == start
    }
}

/// Whether `path` divides into `parent` and its last name `name`.
fn division(path: &str, parent: &str, name: &str, windows: bool) -> (r: bool)
    ensures
        r == is_division(path@, parent@, name@, windows),
{
    let v = text::characters(path);
    let p = text::characters(parent);
    let n = text::characters(name);
    let root = root_length(&v, windows);
    let len: usize = v.len();
    let dir: usize = p.len();
    proof {
        assert forall|d: Seq<char>, g: Seq<char>, t: Seq<char>|
            #[trigger] divides_on(path@, d, g, name@, t, windows) && parent@ == path@.take(
                root as int,
            ) + d implies root <= dir <= len && parent@ == path@.take(dir as int) && dir + g.len()
            + n.len() <= len && d == path@.subrange(root as int, dir as int) && g
            == path@.subrange(dir as int, dir + g.len()) && name@ == path@.subrange(
            dir + g.len(),
            dir + g.len() + n.len(),
        ) && t == path@.subrange(dir + g.len() + n.len(), len as int) by {
            lemma_division_indices(path@, d, g, name@, t, windows);
            assert(parent@ =~= path@.take(dir as int));
        }
    }
    if n.len() == 0 || dir < root || dir > len || !begins(&v, 0, &p) {
        return false;
    }
    assert(parent@ =~= path@.take(root as int) + path@.subrange(root as int, dir as int));
    let mut start: usize = dir;
    while n.len() <= len - start
        invariant
            n.len() > 0,
            v@ == path@,
            n@ == name@,
            len == v.len(),
            root == root_len(path@, windows),
            root <= dir <= start <= len,
            parent@ == path@.take(root as int) + path@.subrange(root as int, dir as int),
            forall|k: int|
                dir <= k < start ==> !(name@ == #[trigger] path@.subrange(k, k + n.len())
                    && divides_on(
                    path@,
                    path@.subrange(root as int, dir as int),
                    path@.subrange(dir as int, k),
                    name@,
                    path@.subrange(k + n.len(), len as int),
                    windows,
                )),
        decreases len - start,
    {
        if begins(&v, start, &n) {
            assert(name@ == path@.subrange(start as int, start + n.len()));
            if divides_at(&v, root, dir, start, start + n.len(), windows) {
                return true;
            }
        }
        start += 1;
    }
    proof {
        if is_division(path@, parent@, name@, windows) {
            let (d, g, t) = choose|d: Seq<char>, g: Seq<char>, t: Seq<char>| #[trigger]
                divides_on(path@, d, g, name@, t, windows) && parent@ == path@.take(
                    root_len(path@, windows),
                ) + d;
            let k = dir + g.len();
            assert(name@ == path@.subrange(k, k + n.len()));
            assert(false);
        }
    }
    false
}

/// Whether `part` stands in `v` at the index `from`.
fn begins(v: &Vec<char>, from: usize, part: &Vec<char>) -> (r: bool)
    requires
        from + part.len() <= v.len(),
    ensures
        r == (part@ == v@.subrange(from as int, from + part.len())),
{
    let mut i: usize = 0;
    while i < part.len()
        invariant
            i <= part.len(),
            from + part.len() <= v.len(),
            forall|k: int| 0 <= k < i ==> part@[k] == v@[from + k],
        decreases part.len() - i,
    {
        if part[i] != v[from + i] {
            assert(part@[i as int] != v@.subrange(from as int, from + part.len())[i as int]);
            return false;
        }
        i += 1;
    }
    assert(part@ =~= v@.subrange(from as int, from + part.len()));
    true
}

/// Whether `parent` and `name` are the parent and the last name of `path` on one platform, as far
/// as it is said how the path divides.
pub fn answers_agree(path: &str, parent: Option<&str>, name: Option<&str>, windows: bool) -> (r:
    bool)
    ensures
        r == agrees(path@, parent.deep_view(), name.deep_view(), windows),
{
    let last: &str = match name {
        Some(n) => {
            if !plain_name(n, windows) {
                return false;
            }
            n
        },
        None => "..",
    };
    proof {
        reveal_strlit("..");
        assert(".."@ =~= seq!['.', '.']);
    }
    let v = text::characters(path);
    let root = root_length(&v, windows);
    if windows && (share(&v) || (drive(&v) && root != 3)) {
        return true;
    }
    if root == 0 && v.len() > 0 && v[0] == '.' && (v.len() == 1 || separator(v[1], windows)) {
        return true;
    }
    match parent {
        Some(parent) => division(path, parent, last, windows),
        None => {
            assert(v@.subrange(root as int, v@.len() as int) =~= v@.skip(root as int));
            v.len() == 0 || (root > 0 && filler(&v, root, v.len(), windows))
        },
    }
}

/// Whether `path` is `root` or continues it by further names.
fn extended(root: &Vec<char>, path: &Vec<char>, windows: bool) -> (r: bool)
    ensures
        r == extends(root@, path@, windows),
{
    if root.len() > path.len() {
        return false;
    }
    let mut i: usize = 0;
    while i < root.len()
        invariant
            root.len() <= path.len(),
            i <= root.len(),
            forall|k: int| 0 <= k < i ==> root@[k] == path@[k],
        decreases root.len() - i,
    {
        if root[i] != path[i] {
            assert(root@[i as int] != path@.subrange(0, root@.len() as int)[i as int]);
            return false;
        }
        i += 1;
    }
    assert(root@ =~= path@.subrange(0, root@.len() as int));
    root.len() == 0 || root.len() == path.len() || separator(root[root.len() - 1], windows)
        || separator(path[root.len()], windows)
}

/// Whether one of the names of `path` is that of a parent directory.
fn climbing(path: &Vec<char>, windows: bool) -> (r: bool)
    ensures
        r == climbs(path@, windows),
{
    let n: usize = path.len();
    let mut i: usize = 0;
    while i < n && i + 1 < n
        invariant
            n == path.len(),
            i <= n,
            forall|k: int| 0 <= k < i ==> !climbs_at(path@, k, windows),
        decreases n - i,
    {
        if path[i] == '.' && path[i + 1] == '.' && (i == 0 || separator(path[i - 1], windows)) && (i
            + 2 == n || separator(path[i + 2], windows)) {
            assert(climbs_at(path@, i as int, windows));
            return true;
        }
        i += 1;
    }
    false
}

/// Whether `path` lies in the directory `root`: it is `root`, or it begins with the names of
/// `root`, letter case aside on Windows, goes on with further ones, and none of its names leads up
/// to a parent directory.
pub fn is_within(root: &str, path: &str, windows: bool) -> (r: bool)
    ensures
        r == lies_within(root@, path@, windows),
        extends(root@, path@, windows) && !climbs(path@, windows) ==> r,
        is_ascii_chars(root@) && is_ascii_chars(path@) && windows ==> r == (path@ == root@ || (
        extends(in_lower_case(root@), in_lower_case(path@), true) && !climbs(path@, true))),
{
    if text::same(path, root) {
        return true;
    }
    let p = text::characters(path);
    if climbing(&p, windows) {
        return false;
    }
    if windows {
        let a = text::characters(root.to_lowercase().as_str());
        let b = text::characters(path.to_lowercase().as_str());
        proof {
            if extends(root@, path@, true) {
                lemma_extension_in_lower_case(root@, path@);
            }
        }
        extended(&a, &b, true)
    } else {
        extended(&text::characters(root), &p, false)
    }
}

/// The virtual directory that stands for the real directory `dir` below `root`. `None` when
/// the two differ and `dir` cannot be cut at the length of `root`.
pub fn to_virtual_dir(root: &str, dir: &str) -> (r: Option<String>)
    ensures
        r.deep_view() == virtual_dir(root@, dir@),
        is_ascii_chars(root@) && is_ascii_chars(dir@) ==> r.deep_view() == (if in_lower_case(dir@)
            == in_lower_case(root@) {
            Some(seq!['/'])
        } else if root@.len() <= dir@.len() {
            Some(rooted(dir@.skip(root@.len() as int)))
        } else {
            None
        }),
{
    proof {
        if is_ascii_chars(root@) && is_ascii_chars(dir@) {
            lemma_after_root_in_ascii(root@, dir@);
        }
    }
    let lower_dir = dir.to_lowercase();
    let lower_root = root.to_lowercase();
    proof {
        if goes_below(root@, dir@) {
            lemma_below_differs_in_lower_case(root@, dir@);
        }
    }
    if text::same(lower_dir.as_str(), lower_root.as_str()) {
        let mut slash = String::new();
        slash.push('/');
        assert(slash@ =~= seq!['/']);
        return Some(slash);
    }
    let cut: usize = root.as_bytes().len();
    if !dir.is_char_boundary(cut) {
        return None;
    }
    let (_, rest) = dir.split_at(cut);
    proof {
        encode_utf8_decode_utf8(rest@);
    }
    let slashed = text::with_forward_slashes(rest);
    if text::starts_with(slashed.as_str(), '/') {
        Some(slashed)
    } else {
        let mut r = String::new();
        r.push('/');
        r.append(slashed.as_str());
        assert(r@ =~= seq!['/'] + text::forward_slashes(rest@));
        Some(r)
    }
}

} // verus!
