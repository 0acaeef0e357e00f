//! Unix paths as texts.
use crate::text;
use vstd::prelude::*;

verus! {

/// A path without the slashes, and the `.` components, that end it.
pub open spec fn trimmed_dir(s: Seq<char>) -> Seq<char>
    decreases s.len(),
{
    if s.len() >= 2 && (s.last() == '/' || (s.last() == '.' && s[s.len() - 2] == '/')) {
        trimmed_dir(s.drop_last())
    } else {
        s
    }
}

/// The position after the last slash of a path; 0 without one.
pub open spec fn name_start(s: Seq<char>) -> int
    decreases s.len(),
{
    if s.len() == 0 {
        0
    } else if s.last() == '/' {
        s.len() as int
    } else {
        name_start(s.drop_last())
    }
}

/// A folder and a name inside it: the name follows one slash. A name that
/// starts with a slash stands alone.
pub open spec fn joined_path(dir: Seq<char>, name: Seq<char>) -> Seq<char> {
    if name.len() > 0 && name[0] == '/' {
        name
    } else if dir.len() == 0 || dir.last() == '/' {
        dir + name
    } else {
        dir.push('/') + name
    }
}

/// The last name of a path; empty for one that ends in no name but `.` or `..`.
pub open spec fn last_name(s: Seq<char>) -> Seq<char> {
    let t = trimmed_dir(s);
    let name = t.skip(name_start(t));
    if name == "."@ || name == ".."@ {
        Seq::empty()
    } else {
        name
    }
}

/// The position of the last dot of a name; the length without one.
pub open spec fn last_dot(s: Seq<char>) -> int
    decreases s.len(),
{
    if s.len() == 0 {
        0
    } else if s.last() == '.' {
        s.len() - 1
    } else {
        let i = last_dot(s.drop_last());
        if i == s.len() - 1 {
            s.len() as int
        } else {
            i
        }
    }
}

/// A name's extension: what follows its last dot, unless that dot starts the
/// name.
pub open spec fn extension_of(name: Seq<char>) -> Option<Seq<char>> {
    let i = last_dot(name);
    if name == ".."@ || i == 0 || i >= name.len() {
        None
    } else {
        Some(name.skip(i + 1))
    }
}

/// A name without its extension.
pub open spec fn stem_of(name: Seq<char>) -> Seq<char> {
    let i = last_dot(name);
    if name == ".."@ || i == 0 || i >= name.len() {
        name
    } else {
        name.take(i)
    }
}

/// What the last dot is.
pub proof fn lemma_last_dot(s: Seq<char>)
    ensures
        0 <= last_dot(s) <= s.len(),
        last_dot(s) < s.len() ==> s[last_dot(s)] == '.',
        forall|j: int| last_dot(s) < j < s.len() ==> s[j] != '.',
        last_dot(s) == s.len() ==> forall|j: int| 0 <= j < s.len() ==> s[j] != '.',
    decreases s.len(),
{
    if s.len() > 0 && s.last() != '.' {
        let t = s.drop_last();
        lemma_last_dot(t);
        assert(forall|j: int| 0 <= j < t.len() ==> #[trigger] s[j] == t[j]);
    }
}

/// The length of a path without the slashes and `.` components that end it.
fn dir_end(a: &Vec<char>) -> (r: usize)
    ensures
        r <= a@.len(),
        a@.take(r as int) == trimmed_dir(a@),
{
    let mut n: usize = a.len();
    assert(a@.take(n as int) =~= a@);
    while n >= 2 && (a[n - 1] == '/' || (a[n - 1] == '.' && a[n - 2] == '/'))
        invariant
            n <= a@.len(),
            trimmed_dir(a@.take(n as int)) == trimmed_dir(a@),
        ensures
            n <= a@.len(),
            a@.take(n as int) == trimmed_dir(a@),
        decreases n,
    {
        assert(a@.take(n as int).drop_last() =~= a@.take(n - 1));
        n -= 1;
    }
    n
}

/// The position after the last slash before `end`.
fn after_slash(a: &Vec<char>, end: usize) -> (r: usize)
    requires
        end <= a@.len(),
    ensures
        r == name_start(a@.take(end as int)),
        r <= end,
{
    let mut n: usize = end;
    while n > 0 && a[n - 1] != '/'
        invariant
            n <= end <= a@.len(),
            name_start(a@.take(n as int)) == name_start(a@.take(end as int)),
        decreases n,
    {
        assert(a@.take(n as int).drop_last() =~= a@.take(n - 1));
        n -= 1;
    }
    n
}

/// A folder and a name inside it.
pub fn join_path(dir: &str, name: &str) -> (r: String)
    ensures
        r@ == joined_path(dir@, name@),
{
    let n = chars_first(name);
    if n == Some('/') {
        return name.to_owned();
    }
    let mut out = dir.to_owned();
    let d = text::chars_of(dir);
    if d.len() > 0 && d[d.len() - 1] != '/' {
        out.push('/');
    }
    out.append(name);
    out
}

/// The first character of a text.
fn chars_first(s: &str) -> (r: Option<char>)
    ensures
        r is Some == (s@.len() > 0),
        r matches Some(c) ==> c == s@[0],
{
    if s.unicode_len() > 0 {
        Some(s.get_char(0))
    } else {
        None
    }
}

/// The last name of a path; empty for one that ends in no name but `.` or `..`.
pub fn file_name(path: &str) -> (r: String)
    ensures
        r@ == last_name(path@),
{
    let a = text::chars_of(path);
    let end = dir_end(&a);
    let from = after_slash(&a, end);
    let name = vstd::slice::slice_subrange(a.as_slice(), from, end);
    assert(name@ =~= trimmed_dir(path@).skip(from as int));
    let out = text::text_of(name);
    if text::same(out.as_str(), ".") || text::same(out.as_str(), "..") {
        let none = String::new();
        assert(none@ =~= Seq::empty());
        return none;
    }
    out
}

/// The position of the last dot; the length without one.
fn dot_of(a: &Vec<char>) -> (r: usize)
    ensures
        r == last_dot(a@),
        r <= a@.len(),
{
    let mut n: usize = a.len();
    proof {
        lemma_last_dot(a@);
    }
    while n > 0
        invariant
            n <= a@.len(),
            forall|j: int| n <= j < a@.len() ==> a@[j] != '.',
        decreases n,
    {
        if a[n - 1] == '.' {
            proof {
                lemma_last_dot(a@);
            }
            return n - 1;
        }
        n -= 1;
    }
    proof {
        lemma_last_dot(a@);
    }
    a.len()
}

/// A name's extension.
pub fn extension(name: &str) -> (r: Option<String>)
    ensures
        text::opt_text(r) == extension_of(name@),
{
    let a = text::chars_of(name);
    let i = dot_of(&a);
    if text::same(name, "..") || i == 0 || i >= a.len() {
        return None;
    }
    let rest = vstd::slice::slice_subrange(a.as_slice(), i + 1, a.len());
    assert(rest@ =~= name@.skip(i + 1));
    Some(text::text_of(rest))
}

/// A name without its extension.
pub fn stem(name: &str) -> (r: String)
    ensures
        r@ == stem_of(name@),
{
    let a = text::chars_of(name);
    let i = dot_of(&a);
    if text::same(name, "..") || i == 0 || i >= a.len() {
        return name.to_owned();
    }
    let head = vstd::slice::slice_subrange(a.as_slice(), 0, i);
    assert(head@ =~= name@.take(i as int));
    text::text_of(head)
}

/// The folder that a path prefix lives in: `a/b-` in `a`, `a/b/` in `a/b`, and
/// a bare name in the working folder.
pub open spec fn parent_of_prefix(prefix: Seq<char>) -> Seq<char> {
    let i = name_start(prefix);
    if i == 0 {
        "."@
    } else {
        trimmed_dir(prefix.take(i))
    }
}

/// Folder that must exist for `prefix` to be usable.
pub fn prefix_parent(prefix: &str) -> (r: String)
    ensures
        r@ == parent_of_prefix(prefix@),
{
    let a = text::chars_of(prefix);
    assert(a@.take(a@.len() as int) =~= a@);
    let i = after_slash(&a, a.len());
    if i == 0 {
        return ".".to_owned();
    }
    let head = vstd::slice::slice_to_vec(vstd::slice::slice_subrange(a.as_slice(), 0, i));
    assert(head@ =~= prefix@.take(i as int));
    let n = dir_end(&head);
    let dir = vstd::slice::slice_subrange(head.as_slice(), 0, n);
    assert(dir@ =~= trimmed_dir(head@));
    text::text_of(dir)
}

/// A name is put behind its folder with one slash between them; a name that
/// starts at the root stays.
pub proof fn law_names_stand_in_their_folders(dir: Seq<char>, name: Seq<char>)
    requires
        name.len() > 0,
    ensures
        name[0] == '/' ==> joined_path(dir, name) == name,
        name[0] != '/' && dir.len() > 0 && dir.last() != '/' ==> joined_path(dir, name) == dir
            + seq!['/'] + name,
        name[0] != '/' && dir.len() > 0 && dir.last() == '/' ==> joined_path(dir, name) == dir
            + name,
        name[0] != '/' && dir.len() == 0 ==> joined_path(dir, name) == name,
{
    assert(dir.push('/') + name =~= dir + seq!['/'] + name);
    if dir.len() == 0 {
        assert(dir + name =~= name);
    }
}

proof fn lemma_name_start(s: Seq<char>)
    ensures
        0 <= name_start(s) <= s.len(),
        name_start(s) > 0 ==> s[name_start(s) - 1] == '/',
        forall|j: int| name_start(s) <= j < s.len() ==> s[j] != '/',
    decreases s.len(),
{
    if s.len() > 0 && s.last() != '/' {
        let t = s.drop_last();
        lemma_name_start(t);
        assert forall|j: int| name_start(s) <= j < s.len() implies s[j] != '/' by {
            if j < t.len() {
                assert(t[j] == s[j]);
            }
        }
    }
}

/// The last name of a path is what stands behind its last slash.
pub proof fn law_last_names(dir: Seq<char>, name: Seq<char>)
    requires
        name.len() > 0,
        !name.contains('/'),
        name != seq!['.'],
        name != seq!['.', '.'],
        dir.len() > 0 ==> dir.last() == '/',
    ensures
        last_name(dir + name) == name,
{
    reveal_strlit(".");
    reveal_strlit("..");
    assert("."@ =~= seq!['.']);
    assert(".."@ =~= seq!['.', '.']);
    let s = dir + name;
    assert(s.last() == name.last());
    assert(name.contains(name.last()));
    if s.last() == '.' && s.len() >= 2 && s[s.len() - 2] == '/' {
        if name.len() >= 2 {
            assert(s[s.len() - 2] == name[name.len() - 2]);
            assert(name.contains(name[name.len() - 2]));
        } else {
            assert(name =~= seq!['.']);
        }
    }
    assert(trimmed_dir(s) == s);
    lemma_name_start(s);
    let k = name_start(s);
    if k < dir.len() {
        assert(s[dir.len() - 1] == dir.last());
    } else if k > dir.len() {
        assert(s[k - 1] == name[k - 1 - dir.len()]);
        assert(name.contains(name[k - 1 - dir.len()]));
    }
    assert(s.skip(k) =~= name);
}

/// The ending stands behind the last dot and the stem before it; a name without
/// a dot, or with its only dot in front, has no ending and is its own stem.
pub proof fn law_endings(stem: Seq<char>, ending: Seq<char>)
    requires
        stem.len() > 0,
        !ending.contains('.'),
        stem + seq!['.'] + ending != seq!['.', '.'],
    ensures
        extension_of(stem + seq!['.'] + ending) == Some(ending),
        stem_of(stem + seq!['.'] + ending) == stem,
        extension_of(ending) is None,
        stem_of(ending) == ending,
        extension_of(seq!['.'] + ending) is None,
        stem_of(seq!['.'] + ending) == seq!['.'] + ending,
{
    reveal_strlit("..");
    assert(".."@ =~= seq!['.', '.']);
    let name = stem + seq!['.'] + ending;
    let hidden = seq!['.'] + ending;
    lemma_last_dot(name);
    lemma_last_dot(ending);
    lemma_last_dot(hidden);
    assert(name[stem.len() as int] == '.');
    let i = last_dot(name);
    if i > stem.len() && i < name.len() {
        assert(name[i] == ending[i - stem.len() - 1]);
        assert(ending.contains(ending[i - stem.len() - 1]));
    }
    assert(i == stem.len());
    assert(name.skip(i + 1) =~= ending);
    assert(name.take(i) =~= stem);
    let k = last_dot(ending);
    if k < ending.len() {
        assert(ending.contains(ending[k]));
    }
    assert(hidden[0] == '.');
    let h = last_dot(hidden);
    if 0 < h < hidden.len() {
        assert(hidden[h] == ending[h - 1]);
        assert(ending.contains(ending[h - 1]));
    }
    assert(h == 0);
}

/// A prefix stands in the folder before its last slash, and in this one where it
/// has none.
pub proof fn law_folder_of_a_prefix(dir: Seq<char>, name: Seq<char>)
    requires
        !name.contains('/'),
    ensures
        parent_of_prefix(name) == seq!['.'],
        dir.len() > 0 && dir.last() != '/' && dir.last() != '.' ==> parent_of_prefix(
            dir + seq!['/'] + name,
        ) == dir,
        parent_of_prefix(seq!['/'] + name) == seq!['/'],
{
    reveal_strlit(".");
    assert("."@ =~= seq!['.']);
    lemma_name_start(name);
    if name_start(name) > 0 {
        assert(name.contains(name[name_start(name) - 1]));
    }
    let root = seq!['/'] + name;
    lemma_name_start(root);
    let k = name_start(root);
    assert(root[0] == '/');
    if k > 1 {
        assert(root[k - 1] == name[k - 2]);
        assert(name.contains(name[k - 2]));
    }
    assert(k == 1);
    assert(root.take(1) =~= seq!['/']);
    if dir.len() > 0 && dir.last() != '/' && dir.last() != '.' {
        let s = dir + seq!['/'] + name;
        lemma_name_start(s);
        let n = name_start(s);
        assert(s[dir.len() as int] == '/');
        if n > dir.len() + 1 {
            assert(s[n - 1] == name[n - 2 - dir.len()]);
            assert(name.contains(name[n - 2 - dir.len()]));
        }
        assert(n == dir.len() + 1);
        let t = s.take(n);
        assert(t =~= dir.push('/'));
        assert(t.drop_last() =~= dir);
        assert(trimmed_dir(dir) == dir);
    }
}

} // verus!
