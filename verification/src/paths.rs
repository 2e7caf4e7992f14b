//! Paths as texts, and the names that are read from them. Slashes separate the parts
//! of a path, whatever separates them in the file system of the machine.
use vstd::prelude::*;
use vstd::string::*;

use crate::text;
use crate::text::{chars_of, has_text, push_decimal, same_text, take_chars, text_of, trim};

verus! {

/// Where the last slash is, or `-1` where there is none.
pub open spec fn last_slash(s: Seq<char>) -> int
    decreases s.len(),
{
    if s.len() == 0 {
        -1
    } else if s.last() == '/' {
        s.len() - 1
    } else {
        last_slash(s.drop_last())
    }
}

pub proof fn lemma_last_slash(s: Seq<char>)
    ensures
        -1 <= last_slash(s) < s.len(),
        last_slash(s) >= 0 ==> s[last_slash(s)] == '/',
        forall|i: int| last_slash(s) < i < s.len() ==> #[trigger] s[i] != '/',
    decreases s.len(),
{
    if s.len() > 0 && s.last() != '/' {
        lemma_last_slash(s.drop_last());
        assert forall|i: int| last_slash(s) < i < s.len() implies #[trigger] s[i] != '/' by {
            if i < s.len() - 1 {
                assert(s.drop_last()[i] == s[i]);
            }
        }
    }
}

/// What follows the last slash.
pub open spec fn last_part(s: Seq<char>) -> Seq<char> {
    s.skip(last_slash(s) + 1)
}

/// Whether a part of a path names nothing: it is empty or a single dot.
pub open spec fn is_filler(part: Seq<char>) -> bool {
    part.len() == 0 || part == seq!['.']
}

/// The final component of a path, unless the path ends in its parent directory
/// or names none.
pub open spec fn file_name_text(s: Seq<char>) -> Option<Seq<char>>
    decreases s.len(),
{
    let part = last_part(s);
    if !is_filler(part) {
        if part == seq!['.', '.'] {
            None
        } else {
            Some(part)
        }
    } else if 0 <= last_slash(s) < s.len() {
        file_name_text(s.take(last_slash(s)))
    } else {
        None
    }
}

/// The components of a path: a root, where it starts with a slash, and its
/// parts but for the fillers. A dot that the path starts with is a component.
pub open spec fn components(s: Seq<char>) -> Seq<Seq<char>>
    decreases s.len(),
{
    let part = last_part(s);
    let own = if is_filler(part) {
        Seq::<Seq<char>>::empty()
    } else {
        seq![part]
    };
    if last_slash(s) < 0 || last_slash(s) >= s.len() {
        if part.len() == 0 {
            Seq::<Seq<char>>::empty()
        } else {
            seq![part]
        }
    } else if last_slash(s) == 0 {
        seq![seq!['/']] + own
    } else {
        components(s.take(last_slash(s))) + own
    }
}

/// Whether a path lies in a directory, or is that directory.
pub open spec fn lies_in(path: Seq<char>, dir: Seq<char>) -> bool {
    components(dir).is_prefix_of(components(path))
}

/// A path continued by another: an absolute one replaces it.
pub open spec fn joined(base: Seq<char>, rest: Seq<char>) -> Seq<char> {
    if rest.len() > 0 && rest[0] == '/' {
        rest
    } else if base.len() == 0 || base.last() == '/' {
        base + rest
    } else {
        base.push('/') + rest
    }
}

/// The name of a workspace: the final component of its directory.
pub open spec fn ws_name_text(cwd: Seq<char>) -> Seq<char> {
    match file_name_text(cwd) {
        Some(name) => name,
        None => "workspace"@,
    }
}

fn part_of(chars: &Vec<char>, from: usize, to: usize) -> (part: Vec<char>)
    requires
        from <= to <= chars@.len(),
    ensures
        part@ == chars@.subrange(from as int, to as int),
{
    let mut part: Vec<char> = Vec::new();
    let mut i: usize = from;
    while i < to
        invariant
            from <= i <= to <= chars@.len(),
            part@ == chars@.subrange(from as int, i as int),
        decreases to - i,
    {
        part.push(chars[i]);
        i = i + 1;
        assert(part@ =~= chars@.subrange(from as int, i as int));
    }
    part
}

fn filler(part: &Vec<char>) -> (b: bool)
    ensures
        b == is_filler(part@),
{
    if part.len() == 0 {
        true
    } else if part.len() == 1 && part[0] == '.' {
        assert(part@ =~= seq!['.']);
        true
    } else {
        assert(part@ != seq!['.']) by {
            if part@ == seq!['.'] {
                assert(part@.len() == 1 && part@[0] == '.');
            }
        }
        false
    }
}

/// How many leading characters of the first `n` come before what follows the
/// last slash, that slash included.
fn part_start(chars: &Vec<char>, n: usize) -> (start: usize)
    requires
        n <= chars@.len(),
    ensures
        start == last_slash(chars@.take(n as int)) + 1,
        start <= n,
{
    let ghost all = chars@.take(n as int);
    let mut i: usize = n;
    assert(all.take(i as int) =~= all);
    while i > 0 && chars[i - 1] != '/'
        invariant
            i <= n <= chars@.len(),
            all == chars@.take(n as int),
            last_slash(all) == last_slash(all.take(i as int)),
        ensures
            i <= n,
            last_slash(all) == i - 1,
        decreases i,
    {
        assert(all.take(i as int).drop_last() =~= all.take(i - 1));
        i = i - 1;
    }
    i
}

/// The final component of a path.
pub fn file_name(path: &str) -> (name: Option<String>)
    ensures
        (match name {
            Some(n) => file_name_text(path@) == Some(n@),
            None => file_name_text(path@) is None,
        }),
{
    let chars = chars_of(path);
    let mut n: usize = chars.len();
    assert(chars@.take(n as int) =~= path@);
    loop
        invariant
            chars@ == path@,
            n <= chars@.len(),
            file_name_text(path@) == file_name_text(chars@.take(n as int)),
        decreases n,
    {
        let ghost cur = chars@.take(n as int);
        let start: usize = part_start(&chars, n);
        let part = part_of(&chars, start, n);
        assert(part@ =~= last_part(cur));
        if !filler(&part) {
            if part.len() == 2 && part[0] == '.' && part[1] == '.' {
                assert(part@ =~= seq!['.', '.']);
                return None;
            }
            assert(part@ != seq!['.', '.']) by {
                if part@ == seq!['.', '.'] {
                    assert(part@.len() == 2 && part@[0] == '.' && part@[1] == '.');
                }
            }
            return Some(text_of(part.as_slice()));
        }
        if start == 0 {
            return None;
        }
        assert(cur.take(start - 1) =~= chars@.take(start - 1));
        n = start - 1;
    }
}

/// The directory without what names nothing at its end.
pub open spec fn clean_text(s: Seq<char>) -> Seq<char>
    decreases s.len(),
{
    let i = last_slash(s);
    if !is_filler(last_part(s)) || i < 0 || i >= s.len() {
        s
    } else if i == 0 {
        seq!['/']
    } else {
        clean_text(s.take(i))
    }
}

/// The path without its final component. A root and the empty path have none.
pub open spec fn parent_text(s: Seq<char>) -> Option<Seq<char>>
    decreases s.len(),
{
    let i = last_slash(s);
    if !is_filler(last_part(s)) || (i < 0 && s.len() > 0) || i >= s.len() {
        Some(clean_text(s.take(i + 1)))
    } else if i <= 0 {
        None
    } else {
        parent_text(s.take(i))
    }
}

/// The path without its final component.
pub fn parent(path: &str) -> (dir: Option<String>)
    ensures
        text::opt_text(dir) == parent_text(path@),
{
    let chars = chars_of(path);
    let mut n: usize = chars.len();
    assert(chars@.take(n as int) =~= path@);
    loop
        invariant
            chars@ == path@,
            n <= chars@.len(),
            parent_text(path@) == parent_text(chars@.take(n as int)),
        decreases n,
    {
        let ghost cur = chars@.take(n as int);
        let start: usize = part_start(&chars, n);
        let part = part_of(&chars, start, n);
        assert(part@ =~= last_part(cur));
        if !filler(&part) || (start == 0 && n > 0) {
            assert(cur.take(start as int) =~= chars@.take(start as int));
            return Some(clean(&chars, start));
        }
        if start <= 1 {
            return None;
        }
        assert(cur.take(start - 1) =~= chars@.take(start - 1));
        n = start - 1;
    }
}

/// The directory without what names nothing at its end.
fn clean(chars: &Vec<char>, len: usize) -> (dir: String)
    requires
        len <= chars@.len(),
    ensures
        dir@ == clean_text(chars@.take(len as int)),
{
    let ghost all = chars@.take(len as int);
    let mut n: usize = len;
    loop
        invariant
            n <= len <= chars@.len(),
            all == chars@.take(len as int),
            clean_text(all) == clean_text(chars@.take(n as int)),
        decreases n,
    {
        let ghost cur = chars@.take(n as int);
        let start: usize = part_start(chars, n);
        let part = part_of(chars, start, n);
        assert(part@ =~= last_part(cur));
        if !filler(&part) || start == 0 {
            let dir = part_of(chars, 0, n);
            assert(dir@ =~= cur);
            return text_of(dir.as_slice());
        }
        if start == 1 {
            let mut root: String = String::new();
            root.push('/');
            assert(root@ =~= seq!['/']);
            return root;
        }
        assert(cur.take(start - 1) =~= chars@.take(start - 1));
        n = start - 1;
    }
}

/// The components of a path.
pub fn split_path(path: &str) -> (parts: Vec<String>)
    ensures
        text::texts(parts@) == components(path@),
{
    let chars = chars_of(path);
    assert(chars@.take(chars@.len() as int) =~= chars@);
    split_chars(&chars, chars.len())
}

fn split_chars(chars: &Vec<char>, n: usize) -> (parts: Vec<String>)
    requires
        n <= chars@.len(),
    ensures
        text::texts(parts@) == components(chars@.take(n as int)),
    decreases n,
{
    let ghost cur = chars@.take(n as int);
    let start: usize = part_start(chars, n);
    let part = part_of(chars, start, n);
    assert(part@ =~= last_part(cur));
    let mut parts: Vec<String> = Vec::new();
    if start == 1 {
        let mut root = String::new();
        root.push('/');
        assert(root@ =~= seq!['/']);
        parts.push(root);
        assert(text::texts(parts@) =~= seq![seq!['/']]);
    } else if start > 1 {
        parts = split_chars(chars, start - 1);
        assert(cur.take(start - 1) =~= chars@.take(start - 1));
    } else {
        assert(text::texts(parts@) =~= Seq::<Seq<char>>::empty());
    }
    let ghost before = text::texts(parts@);
    let named: bool = if start == 0 {
        part.len() > 0
    } else {
        !filler(&part)
    };
    if named {
        parts.push(text_of(part.as_slice()));
        assert(text::texts(parts@) =~= before + seq![part@]);
    } else {
        assert(before + Seq::<Seq<char>>::empty() =~= before);
    }
    if start == 0 {
        assert(before + seq![part@] =~= seq![part@]);
        assert(before =~= Seq::<Seq<char>>::empty());
    }
    parts
}

/// Whether one of the paths has the same components.
pub open spec fn has_place(list: Seq<Seq<char>>, path: Seq<char>) -> bool {
    exists|k: int| 0 <= k < list.len() && components(#[trigger] list[k]) == components(path)
}

/// Whether two paths have the same components.
pub fn same_path(a: &str, b: &str) -> (same: bool)
    ensures
        same == (components(a@) == components(b@)),
{
    let x = split_path(a);
    let y = split_path(b);
    let ghost xv = components(a@);
    let ghost yv = components(b@);
    assert(xv.len() == x@.len() && yv.len() == y@.len());
    if x.len() != y.len() {
        return false;
    }
    let mut i: usize = 0;
    while i < x.len()
        invariant
            i <= x@.len() == y@.len(),
            xv == text::texts(x@),
            yv == text::texts(y@),
            xv == components(a@),
            yv == components(b@),
            forall|k: int| 0 <= k < i ==> #[trigger] xv[k] == yv[k],
        decreases x@.len() - i,
    {
        if !same_text(x[i].as_str(), y[i].as_str()) {
            assert(xv[i as int] != yv[i as int]);
            return false;
        }
        i = i + 1;
    }
    assert(xv =~= yv);
    true
}

/// Whether one of the paths has the same components.
pub fn has_path(list: &Vec<String>, path: &str) -> (b: bool)
    ensures
        b == has_place(text::texts(list@), path@),
{
    let ghost all = text::texts(list@);
    let mut i: usize = 0;
    while i < list.len()
        invariant
            i <= list@.len(),
            all == text::texts(list@),
            forall|k: int| 0 <= k < i ==> components(#[trigger] all[k]) != components(path@),
        decreases list@.len() - i,
    {
        assert(all[i as int] == list@[i as int]@);
        if same_path(list[i].as_str(), path) {
            return true;
        }
        i = i + 1;
    }
    false
}

/// Whether a path lies in a directory, or is that directory.
pub fn path_in(path: &str, dir: &str) -> (b: bool)
    ensures
        b == lies_in(path@, dir@),
{
    let p = split_path(path);
    let d = split_path(dir);
    let ghost pv = components(path@);
    let ghost dv = components(dir@);
    assert(pv.len() == p@.len() && dv.len() == d@.len());
    if d.len() > p.len() {
        return false;
    }
    let mut i: usize = 0;
    while i < d.len()
        invariant
            i <= d@.len() <= p@.len(),
            pv == text::texts(p@),
            dv == text::texts(d@),
            pv == components(path@),
            dv == components(dir@),
            forall|k: int| 0 <= k < i ==> #[trigger] dv[k] == pv[k],
        decreases d@.len() - i,
    {
        if !same_text(d[i].as_str(), p[i].as_str()) {
            assert(dv[i as int] != pv[i as int]);
            assert(!dv.is_prefix_of(pv)) by {
                if dv.is_prefix_of(pv) {
                    assert(pv.subrange(0, dv.len() as int)[i as int] == pv[i as int]);
                }
            }
            return false;
        }
        i = i + 1;
    }
    assert(dv =~= pv.subrange(0, dv.len() as int));
    true
}

/// A path continued by another.
pub fn join(base: &str, rest: &str) -> (path: String)
    ensures
        path@ == joined(base@, rest@),
{
    let nb: usize = base.unicode_len();
    let nr: usize = rest.unicode_len();
    if nr > 0 && rest.get_char(0) == '/' {
        return rest.to_owned();
    }
    let mut out = base.to_owned();
    if nb > 0 && base.get_char(nb - 1) != '/' {
        out.push('/');
    }
    out.append(rest);
    out
}

/// The name of the workspace at a directory.
pub fn ws_name(cwd: &str) -> (name: String)
    ensures
        name@ == ws_name_text(cwd@),
{
    match file_name(cwd) {
        Some(name) => name,
        None => "workspace".to_owned(),
    }
}

/// The directory of a repository's worktrees, below the configuration
/// directory: all checkouts of one repository share the name of its main one.
pub open spec fn worktrees_dir_text(config_dir: Seq<char>, repo: Seq<char>) -> Seq<char> {
    joined(joined(config_dir, "worktrees"@), ws_name_text(repo))
}

/// The directory of a repository's worktrees. `main` is its main checkout, where
/// it is known.
pub fn worktrees_dir_for(config_dir: &str, repo: &str, main: Option<&str>) -> (path: String)
    ensures
        path@ == worktrees_dir_text(
            config_dir@,
            match main {
                Some(m) => m@,
                None => repo@,
            },
        ),
{
    let name = match main {
        Some(m) => ws_name(m),
        None => ws_name(repo),
    };
    let dir = join(config_dir, "worktrees");
    join(dir.as_str(), name.as_str())
}

// ---------------------------------------------------------------------------
// Worktrees
// ---------------------------------------------------------------------------

/// A branch name as a directory name: slashes and blanks become hyphens.
pub open spec fn slug_text(branch: Seq<char>) -> Seq<char> {
    Seq::new(
        branch.len(),
        |i: int|
            if branch[i] == '/' || branch[i] == ' ' {
                '-'
            } else {
                branch[i]
            },
    )
}

/// A branch name as a directory name.
pub fn slug(branch: &str) -> (s: String)
    ensures
        s@ == slug_text(branch@),
{
    let chars = chars_of(branch);
    let mut out = String::new();
    let mut i: usize = 0;
    while i < chars.len()
        invariant
            chars@ == branch@,
            i <= chars@.len(),
            out@ == slug_text(branch@).take(i as int),
        decreases chars@.len() - i,
    {
        if chars[i] == '/' || chars[i] == ' ' {
            out.push('-');
        } else {
            out.push(chars[i]);
        }
        i = i + 1;
        assert(out@ =~= slug_text(branch@).take(i as int));
    }
    assert(out@ =~= slug_text(branch@));
    out
}

/// The `n`-th place for a worktree: the plain name, then the name with a number
/// from two up.
pub open spec fn worktree_place(base: Seq<char>, slug: Seq<char>, n: nat) -> Seq<char> {
    if n < 2 {
        joined(base, slug)
    } else {
        joined(base, slug.push('-') + text::decimal_text(n))
    }
}

fn nth_place(base: &str, slug: &str, n: usize) -> (path: String)
    ensures
        path@ == worktree_place(base@, slug@, n as nat),
{
    if n < 2 {
        return join(base, slug);
    }
    let mut name = slug.to_owned();
    name.push('-');
    push_decimal(&mut name, n);
    join(base, name.as_str())
}

/// A number is read off its digits.
pub open spec fn decimal_value(s: Seq<char>) -> int
    decreases s.len(),
{
    if s.len() == 0 {
        0
    } else {
        decimal_value(s.drop_last()) * 10 + (s.last() as u32 - '0' as u32)
    }
}

proof fn lemma_decimal_value(n: nat)
    ensures
        decimal_value(text::decimal_text(n)) == n,
        text::decimal_text(n).len() > 0,
    decreases n,
{
    let s = text::decimal_text(n);
    if n < 10 {
        reveal_with_fuel(decimal_value, 2);
        assert(s.drop_last() =~= Seq::<char>::empty());
    } else {
        lemma_decimal_value(n / 10);
        assert(s.drop_last() =~= text::decimal_text(n / 10));
        assert(s.last() == text::digit_char(n % 10));
    }
}

/// Two places for a worktree are never the same.
proof fn lemma_places_differ(base: Seq<char>, slug: Seq<char>, n: nat, m: nat)
    requires
        1 <= n < m,
        slug.len() > 0,
        slug[0] != '/',
    ensures
        worktree_place(base, slug, n) != worktree_place(base, slug, m),
{
    lemma_decimal_value(n);
    lemma_decimal_value(m);
    let a = if n < 2 {
        slug
    } else {
        slug.push('-') + text::decimal_text(n)
    };
    let b = slug.push('-') + text::decimal_text(m);
    assert(a[0] == slug[0] && b[0] == slug[0]);
    let head = if base.len() == 0 || base.last() == '/' {
        base
    } else {
        base.push('/')
    };
    let x = worktree_place(base, slug, n);
    let y = worktree_place(base, slug, m);
    assert(x == head + a && y == head + b);
    if x == y {
        assert(a =~= x.skip(head.len() as int));
        assert(b =~= y.skip(head.len() as int));
        if n >= 2 {
            let d = slug.len() as int + 1;
            assert(text::decimal_text(n) =~= a.skip(d));
            assert(text::decimal_text(m) =~= b.skip(d));
        } else {
            assert(a.len() < b.len());
        }
    }
}

/// Of more places than there are taken paths, one is free.
proof fn lemma_some_place_is_free(base: Seq<char>, slug: Seq<char>, taken: Seq<Seq<char>>)
    requires
        slug.len() > 0,
        slug[0] != '/',
    ensures
        exists|n: nat|
            1 <= n <= taken.len() + 1 && !taken.contains(#[trigger] worktree_place(base, slug, n)),
{
    if forall|n: nat|
        1 <= n <= taken.len() + 1 ==> taken.contains(#[trigger] worktree_place(base, slug, n)) {
        let places = Seq::new(
            taken.len() + 1,
            |i: int| worktree_place(base, slug, (i + 1) as nat),
        );
        assert forall|i: int, j: int|
            0 <= i < places.len() && 0 <= j < places.len() && i != j implies places[i]
            != places[j] by {
            if i < j {
                lemma_places_differ(base, slug, (i + 1) as nat, (j + 1) as nat);
            } else {
                lemma_places_differ(base, slug, (j + 1) as nat, (i + 1) as nat);
            }
        }
        places.unique_seq_to_set();
        taken.lemma_cardinality_of_set();
        assert(places.to_set().subset_of(taken.to_set())) by {
            assert forall|p: Seq<char>| places.to_set().contains(p) implies taken.to_set().contains(
                p,
            ) by {
                let i = choose|i: int| 0 <= i < places.len() && places[i] == p;
                assert(taken.contains(worktree_place(base, slug, (i + 1) as nat)));
            }
        }
        vstd::set_lib::lemma_len_subset(places.to_set(), taken.to_set());
        assert(false);
    }
}

/// The first free place for a worktree. `taken` are the paths that exist.
pub fn free_place(base: &str, slug: &str, taken: &Vec<String>) -> (place: String)
    requires
        slug@.len() > 0,
        slug@[0] != '/',
        taken@.len() < usize::MAX,
    ensures
        is_first_free(base@, slug@, text::texts(taken@), place@),
{
    let ghost all = text::texts(taken@);
    let mut n: usize = 1;
    let mut place = nth_place(base, slug, n);
    proof {
        lemma_some_place_is_free(base@, slug@, all);
    }
    let ghost free = choose|k: nat|
        1 <= k <= all.len() + 1 && !all.contains(#[trigger] worktree_place(base@, slug@, k));
    while has_text(taken, place.as_str())
        invariant
            all == text::texts(taken@),
            taken@.len() < usize::MAX,
            1 <= free <= all.len() + 1,
            !all.contains(worktree_place(base@, slug@, free)),
            1 <= n <= free,
            place@ == worktree_place(base@, slug@, n as nat),
            forall|k: nat|
                1 <= k < n ==> all.contains(#[trigger] worktree_place(base@, slug@, k)),
        decreases free - n,
    {
        n = n + 1;
        place = nth_place(base, slug, n);
    }
    assert(place@ == worktree_place(base@, slug@, n as nat));
    place
}

/// Whether the path is the first place for a worktree that is not taken.
pub open spec fn is_first_free(
    base: Seq<char>,
    slug: Seq<char>,
    taken: Seq<Seq<char>>,
    path: Seq<char>,
) -> bool {
    &&& !taken.contains(path)
    &&& exists|n: nat|
        #![trigger worktree_place(base, slug, n)]
        1 <= n && path == worktree_place(base, slug, n) && forall|k: nat|
            1 <= k < n ==> taken.contains(#[trigger] worktree_place(base, slug, k))
}

/// A worktree to make: the branch, and where.
#[derive(Debug)]
pub struct WorktreePlan {
    pub branch: String,
    pub path: String,
}

/// Decides which branch a new worktree gets and where it goes, or says why there
/// is none. `taken` are the paths that exist below `base`.
pub fn plan_worktree(branch: &str, is_repo: bool, base: &str, taken: &Vec<String>) -> (r: Result<
    WorktreePlan,
    String,
>)
    requires
        taken@.len() < usize::MAX,
    ensures
        match r {
            Ok(plan) => {
                let name = text::trim_text(branch@);
                &&& name.len() > 0 && is_repo
                &&& plan.branch@ == name
                &&& is_first_free(base@, slug_text(name), text::texts(taken@), plan.path@)
            },
            Err(e) => if text::trim_text(branch@).len() == 0 {
                e@ == "a branch name is required"@
            } else {
                !is_repo && e@ == "not a git repository"@
            },
        },
{
    let name = trim(branch);
    if name.as_str().is_empty() {
        return Err("a branch name is required".to_owned());
    }
    if !is_repo {
        return Err("not a git repository".to_owned());
    }
    let dir_name = slug(name.as_str());
    let path = free_place(base, dir_name.as_str(), taken);
    Ok(WorktreePlan { branch: name, path })
}

// ---------------------------------------------------------------------------
// Git files
// ---------------------------------------------------------------------------

/// What a `.git` file points at: the path behind `gitdir:`.
pub open spec fn gitdir_text(content: Seq<char>) -> Option<Seq<char>> {
    if "gitdir:"@.is_prefix_of(content) {
        Some(text::trim_text(content.skip("gitdir:"@.len() as int)))
    } else {
        None
    }
}

/// The branch that a `HEAD` file names, or the short form of the commit.
pub open spec fn head_text(content: Seq<char>) -> Seq<char> {
    let line = text::trim_text(content);
    if "ref: refs/heads/"@.is_prefix_of(line) {
        line.skip("ref: refs/heads/"@.len() as int)
    } else {
        text::take_text(line, 7)
    }
}

/// What follows the prefix, where the text starts with it.
fn strip_prefix(s: &str, prefix: &str) -> (rest: Option<String>)
    ensures
        (match rest {
            Some(r) => prefix@.is_prefix_of(s@) && r@ == s@.skip(prefix@.len() as int),
            None => !prefix@.is_prefix_of(s@),
        }),
{
    let n: usize = s.unicode_len();
    let m: usize = prefix.unicode_len();
    if m > n {
        return None;
    }
    let head = s.substring_char(0, m);
    assert(head@ =~= s@.subrange(0, prefix@.len() as int));
    if same_text(head, prefix) {
        let rest = s.substring_char(m, n).to_owned();
        assert(rest@ =~= s@.skip(m as int));
        Some(rest)
    } else {
        None
    }
}

/// What a `.git` file points at.
pub fn git_link(content: &str) -> (dir: Option<String>)
    ensures
        (match dir {
            Some(d) => gitdir_text(content@) == Some(d@),
            None => gitdir_text(content@) is None,
        }),
{
    match strip_prefix(content, "gitdir:") {
        Some(rest) => Some(trim(rest.as_str())),
        None => None,
    }
}

/// The branch that a `HEAD` file names, or the short form of the commit.
pub fn head_branch(content: &str) -> (branch: String)
    ensures
        branch@ == head_text(content@),
{
    let line = trim(content);
    match strip_prefix(line.as_str(), "ref: refs/heads/") {
        Some(branch) => branch,
        None => take_chars(line.as_str(), 7),
    }
}

/// What `.git` is in a directory.
#[derive(Debug)]
pub enum DotGit {
    Directory,
    /// A file, with its text where that could be read.
    File(Option<String>),
    Missing,
}

/// Where the search for a repository's `HEAD` goes on.
#[derive(Debug, PartialEq, Eq)]
pub enum HeadSearch {
    /// This file is the `HEAD`.
    Read(String),
    /// The directory above is to be looked at.
    Above(String),
    /// There is none.
    Over,
}

/// Where the search goes on, as text.
pub open spec fn head_place(dir: Seq<char>, found: DotGit) -> (Option<Seq<char>>, Option<Seq<char>>) {
    match found {
        DotGit::Directory => (Some(joined(joined(dir, ".git"@), "HEAD"@)), None),
        DotGit::File(Some(content)) => match gitdir_text(content@) {
            Some(link) => (Some(joined(joined(dir, link), "HEAD"@)), None),
            None => (None, None),
        },
        DotGit::File(None) => (None, None),
        DotGit::Missing => (None, parent_text(dir)),
    }
}

/// The step of the search for the branch of a directory, given what `.git` is
/// there: the `HEAD` is in that directory, or where that file points; without
/// either it is looked for above.
pub fn git_branch_step(dir: &str, found: &DotGit) -> (next: HeadSearch)
    ensures
        match next {
            HeadSearch::Read(path) => head_place(dir@, *found).0 == Some(path@),
            HeadSearch::Above(path) => head_place(dir@, *found) == (
                None::<Seq<char>>,
                Some(path@),
            ),
            HeadSearch::Over => head_place(dir@, *found) == (
                None::<Seq<char>>,
                None::<Seq<char>>,
            ),
        },
{
    match found {
        DotGit::Directory => {
            let git = join(dir, ".git");
            HeadSearch::Read(join(git.as_str(), "HEAD"))
        },
        DotGit::File(Some(content)) => match git_link(content.as_str()) {
            Some(link) => {
                let git = join(dir, link.as_str());
                HeadSearch::Read(join(git.as_str(), "HEAD"))
            },
            None => HeadSearch::Over,
        },
        DotGit::File(None) => HeadSearch::Over,
        DotGit::Missing => match parent(dir) {
            Some(above) => HeadSearch::Above(above),
            None => HeadSearch::Over,
        },
    }
}

/// Whether the text can be one part of a path: it names something in a directory.
pub open spec fn is_name(s: Seq<char>) -> bool {
    &&& !is_filler(s)
    &&& s != seq!['.', '.']
    &&& !s.contains('/')
}

proof fn lemma_last_slash_at(s: Seq<char>, i: int)
    requires
        -1 <= i < s.len(),
        i >= 0 ==> s[i] == '/',
        forall|k: int| i < k < s.len() ==> #[trigger] s[k] != '/',
    ensures
        last_slash(s) == i,
{
    lemma_last_slash(s);
    let j = last_slash(s);
    if j > i {
        assert(s[j] != '/');
    }
    if j < i {
        assert(s[i] != '/');
    }
}

/// A name in a directory is the final component of the path, and the path lies in
/// the directory: it has the components of the directory, and then the name.
pub proof fn law_names_are_found_in_their_directory(dir: Seq<char>, name: Seq<char>)
    requires
        is_name(name),
        dir.len() > 0,
    ensures
        file_name_text(joined(dir, name)) == Some(name),
        ws_name_text(joined(dir, name)) == name,
        components(joined(dir, name)) == components(dir).push(name),
        lies_in(joined(dir, name), dir),
{
    assert(name.len() > 0);
    assert(name[0] != '/') by {
        if name[0] == '/' {
            assert(name.contains('/'));
        }
    }
    let path = joined(dir, name);
    let at = if dir.last() == '/' {
        dir.len() - 1
    } else {
        dir.len() as int
    };
    assert(path[at] == '/');
    assert forall|k: int| at < k < path.len() implies #[trigger] path[k] != '/' by {
        let m = k - at - 1;
        assert(path[k] == name[m]);
        if name[m] == '/' {
            assert(name.contains('/'));
        }
    }
    lemma_last_slash_at(path, at);
    assert(last_part(path) =~= name);
    let none = Seq::<Seq<char>>::empty();
    let (all, own) = (components(dir), seq![name]);
    if dir.last() == '/' {
        lemma_last_slash_at(dir, dir.len() - 1);
        assert(last_part(dir) =~= Seq::<char>::empty());
        assert(path.take(at) =~= dir.take(at));
        if at == 0 {
            assert(all =~= seq![seq!['/']]);
            assert(components(path) =~= all.push(name));
        } else {
            assert(all =~= components(dir.take(at)));
            assert(components(path) =~= all.push(name));
        }
    } else {
        assert(path.take(at) =~= dir);
        assert(components(path) =~= all.push(name));
    }
    assert(components(path).subrange(0, all.len() as int) =~= all);
}

proof fn lemma_clean_components(s: Seq<char>)
    ensures
        components(clean_text(s)) == components(s),
    decreases s.len(),
{
    lemma_last_slash(s);
    let i = last_slash(s);
    if is_filler(last_part(s)) && i >= 0 {
        if i == 0 {
            let root = seq!['/'];
            lemma_last_slash_at(root, 0);
            assert(last_part(root) =~= Seq::<char>::empty());
            assert(components(root) =~= components(s));
        } else {
            lemma_clean_components(s.take(i));
            assert(components(s) =~= components(s.take(i)));
        }
    }
}

/// Above a name in a directory is that directory.
pub proof fn law_above_a_name_is_its_directory(dir: Seq<char>, name: Seq<char>)
    requires
        is_name(name),
        dir.len() > 0,
    ensures
        parent_text(joined(dir, name)) is Some,
        components(parent_text(joined(dir, name))->0) == components(dir),
{
    let path = joined(dir, name);
    assert(name[0] != '/') by {
        if name[0] == '/' {
            assert(name.contains('/'));
        }
    }
    let at = if dir.last() == '/' {
        dir.len() - 1
    } else {
        dir.len() as int
    };
    assert(path[at] == '/');
    assert forall|k: int| at < k < path.len() implies #[trigger] path[k] != '/' by {
        let m = k - at - 1;
        assert(path[k] == name[m]);
        if name[m] == '/' {
            assert(name.contains('/'));
        }
    }
    lemma_last_slash_at(path, at);
    assert(last_part(path) =~= name);
    let above = path.take(at + 1);
    lemma_clean_components(above);
    if dir.last() == '/' {
        assert(above =~= dir);
    } else {
        assert(above =~= dir.push('/'));
        lemma_last_slash_at(above, at);
        assert(last_part(above) =~= Seq::<char>::empty());
        assert(above.take(at) =~= dir);
        assert(components(above) =~= components(dir));
    }
}

/// Every path lies in itself, and what lies in a directory lies in every directory
/// above it.
pub proof fn law_directories_contain_what_is_below(a: Seq<char>, b: Seq<char>, c: Seq<char>)
    ensures
        lies_in(a, a),
        lies_in(a, b) && lies_in(b, c) ==> lies_in(a, c),
{
    let (x, y, z) = (components(a), components(b), components(c));
    assert(x.subrange(0, x.len() as int) =~= x);
    if lies_in(a, b) && lies_in(b, c) {
        assert(z =~= x.subrange(0, z.len() as int)) by {
            assert(z =~= y.subrange(0, z.len() as int));
            assert(y =~= x.subrange(0, y.len() as int));
        }
    }
}

/// A branch name becomes one name of a directory, as long as it is and the same but
/// for a hyphen in place of every slash and blank.
pub proof fn law_slugs_are_one_name(branch: Seq<char>, i: int)
    requires
        0 <= i < branch.len(),
    ensures
        slug_text(branch).len() == branch.len(),
        slug_text(branch)[i] != '/' && slug_text(branch)[i] != ' ',
        branch[i] != '/' && branch[i] != ' ' ==> slug_text(branch)[i] == branch[i],
        branch[i] == '/' || branch[i] == ' ' ==> slug_text(branch)[i] == '-',
{
}

/// A `HEAD` file that refers to a branch names that branch, whatever white space
/// ends its line.
pub proof fn law_head_names_its_branch(branch: Seq<char>)
    requires
        branch.len() > 0,
        !text::is_space_char(branch.last()),
    ensures
        head_text("ref: refs/heads/"@ + branch) == branch,
        head_text("ref: refs/heads/"@ + branch + seq!['\n']) == branch,
{
    let prefix = "ref: refs/heads/"@;
    reveal_strlit("ref: refs/heads/");
    let line = prefix + branch;
    assert(line[0] == 'r');
    assert(line[line.len() - 1] == branch.last());
    text::law_trimming_takes_white_space_off_the_ends(line, 0, line.len() as int);
    assert(line.subrange(0, line.len() as int) =~= line);
    assert(line.subrange(0, prefix.len() as int) =~= prefix);
    assert(line.skip(prefix.len() as int) =~= branch);
    let ended = line + seq!['\n'];
    assert(ended[line.len() as int] == '\n');
    assert(ended[0] == line[0] && ended[line.len() - 1] == line[line.len() - 1]);
    assert forall|i: int| line.len() <= i < ended.len() implies text::is_space_char(
        #[trigger] ended[i],
    ) by {
        assert(ended[i] == '\n');
    }
    text::law_trimming_takes_white_space_off_the_ends(ended, 0, line.len() as int);
    assert(ended.subrange(0, line.len() as int) =~= line);
}

/// A `HEAD` file that holds a commit gives the first seven characters of it.
pub proof fn law_head_shortens_a_commit(commit: Seq<char>)
    requires
        commit.len() >= 7,
        !text::is_space_char(commit[0]),
        !text::is_space_char(commit.last()),
        !"ref: refs/heads/"@.is_prefix_of(commit),
    ensures
        head_text(commit) == commit.take(7),
{
    text::law_trimming_takes_white_space_off_the_ends(commit, 0, commit.len() as int);
    assert(commit.subrange(0, commit.len() as int) =~= commit);
}

/// A `.git` file leads to the path that it names behind its keyword.
pub proof fn law_git_files_lead_to_their_path(path: Seq<char>)
    requires
        path.len() > 0,
        !text::is_space_char(path[0]),
        !text::is_space_char(path.last()),
    ensures
        gitdir_text("gitdir:"@ + seq![' '] + path + seq!['\n']) == Some(path),
{
    let prefix = "gitdir:"@;
    let rest = seq![' '] + path + seq!['\n'];
    let all = prefix + seq![' '] + path + seq!['\n'];
    assert(all =~= prefix + rest);
    assert(all.subrange(0, prefix.len() as int) =~= prefix);
    assert(all.skip(prefix.len() as int) =~= rest);
    let n = path.len() as int;
    assert(rest[0] == ' ' && rest[1] == path[0] && rest[n] == path[n - 1] && rest[n + 1] == '\n');
    assert forall|i: int| n + 1 <= i < rest.len() implies text::is_space_char(
        #[trigger] rest[i],
    ) by {
        assert(rest[i] == '\n');
    }
    text::law_trimming_takes_white_space_off_the_ends(rest, 1, n + 1);
    assert(rest.subrange(1, n + 1) =~= path);
}

} // verus!
