//! Paths as text: the rules by which the store names what it holds.
//!
//! A path is a string whose components are separated by `/`.

use crate::text::{chars_of, push_char, string_of};
use vstd::prelude::*;

verus! {

/// The position of the last `c` in `s`, or `-1` where `s` holds none.
pub open spec fn last_index_of(s: Seq<char>, c: char) -> int
    decreases s.len(),
{
    if s.len() == 0 {
        -1
    } else if s.last() == c {
        s.len() - 1
    } else {
        last_index_of(s.drop_last(), c)
    }
}

/// What `last_index_of` finds is in range, holds `c`, and nothing after it
/// does.
pub proof fn lemma_last_index_of(s: Seq<char>, c: char)
    ensures
        -1 <= last_index_of(s, c) < s.len(),
        last_index_of(s, c) >= 0 ==> s[last_index_of(s, c)] == c,
        forall|k: int| last_index_of(s, c) < k < s.len() ==> s[k] != c,
    decreases s.len(),
{
    if s.len() > 0 && s.last() != c {
        let front = s.drop_last();
        lemma_last_index_of(front, c);
        assert forall|k: int| last_index_of(s, c) < k < s.len() implies s[k] != c by {
            if k < front.len() {
                assert(front[k] == s[k]);
            }
        }
    }
}

/// A position that holds `c` with no `c` after it, or `-1` where there is no
/// `c` at all, is the one `last_index_of` names.
pub proof fn lemma_last_index_is(s: Seq<char>, c: char, at: int)
    requires
        -1 <= at < s.len(),
        at >= 0 ==> s[at] == c,
        forall|k: int| at < k < s.len() ==> s[k] != c,
    ensures
        last_index_of(s, c) == at,
{
    lemma_last_index_of(s, c);
}

/// The last `c` in `chars[from..to]`, as an index into `chars`.
fn rfind(chars: &Vec<char>, from: usize, to: usize, c: char) -> (found: Option<usize>)
    requires
        from <= to <= chars.len(),
    ensures
        match found {
            Some(at) => from <= at < to && last_index_of(
                chars@.subrange(from as int, to as int),
                c,
            ) == at - from,
            None => last_index_of(chars@.subrange(from as int, to as int), c) == -1,
        },
{
    let ghost part = chars@.subrange(from as int, to as int);
    let mut i: usize = to;
    while i > from
        invariant
            from <= i <= to <= chars.len(),
            part == chars@.subrange(from as int, to as int),
            forall|k: int| i - from <= k < part.len() ==> part[k] != c,
        decreases i,
    {
        i = i - 1;
        if chars[i] == c {
            proof {
                lemma_last_index_is(part, c, i - from);
            }
            return Some(i);
        }
    }
    proof {
        lemma_last_index_is(part, c, -1);
    }
    None
}

/// Where the last component of `path` begins: just after its last `/`.
pub open spec fn segment_start(path: Seq<char>) -> int {
    last_index_of(path, '/') + 1
}

/// The final component of `path`, if it names something.
///
/// Trailing separators and trailing `.` components are passed over. There is
/// no name where nothing is left, or where what is left ends in `..`.
pub open spec fn spec_file_name(path: Seq<char>) -> Option<Seq<char>>
    decreases path.len(),
{
    let start = segment_start(path);
    let last = path.skip(start);
    if last.len() == 0 || last == seq!['.'] {
        if 0 < start <= path.len() {
            spec_file_name(path.take(start - 1))
        } else {
            None
        }
    } else if last == seq!['.', '.'] {
        None
    } else {
        Some(last)
    }
}

/// The extension of a file name: what follows its last `.`, unless the name
/// has no `.` or only the one it begins with.
pub open spec fn name_extension(name: Seq<char>) -> Option<Seq<char>> {
    let dot = last_index_of(name, '.');
    if dot <= 0 {
        None
    } else {
        Some(name.skip(dot + 1))
    }
}

/// The extension of the file that `path` names, without the dot.
pub open spec fn spec_extension(path: Seq<char>) -> Option<Seq<char>> {
    match spec_file_name(path) {
        None => None,
        Some(name) => name_extension(name),
    }
}

/// A file name is not empty, holds no separator, and is neither `.` nor
/// `..`.
pub proof fn lemma_file_name_shape(path: Seq<char>)
    ensures
        spec_file_name(path) matches Some(name) ==> name.len() > 0 && name != seq!['.'] && name
            != seq!['.', '.'] && forall|i: int| 0 <= i < name.len() ==> name[i] != '/',
    decreases path.len(),
{
    let start = segment_start(path);
    let last = path.skip(start);
    lemma_last_index_of(path, '/');
    if last.len() == 0 || last == seq!['.'] {
        if 0 < start <= path.len() {
            lemma_file_name_shape(path.take(start - 1));
        }
    }
}

/// An extension holds neither a separator nor a dot.
pub proof fn lemma_extension_shape(path: Seq<char>)
    ensures
        spec_extension(path) matches Some(kept) ==> forall|i: int|
            0 <= i < kept.len() ==> kept[i] != '/' && kept[i] != '.',
{
    lemma_file_name_shape(path);
    match spec_file_name(path) {
        Some(name) => {
            lemma_last_index_of(name, '.');
        },
        None => {},
    }
}

/// The file name of a name placed inside a directory is that name.
pub proof fn lemma_file_name_of_join(dir: Seq<char>, name: Seq<char>)
    requires
        name.len() > 0,
        name != seq!['.'],
        name != seq!['.', '.'],
        forall|i: int| 0 <= i < name.len() ==> name[i] != '/',
    ensures
        spec_file_name(spec_join(dir, name)) == Some(name),
{
    let path = spec_join(dir, name);
    let lead = path.len() - name.len();
    assert forall|k: int| lead <= k < path.len() implies path[k] != '/' by {
        assert(path[k] == name[k - lead]);
    }
    lemma_last_index_is(path, '/', lead - 1);
    assert(path.skip(lead) =~= name);
}

/// Where in `chars` the file name lies.
fn file_name_bounds(chars: &Vec<char>) -> (bounds: Option<(usize, usize)>)
    ensures
        match bounds {
            Some((from, to)) => from < to <= chars.len() && spec_file_name(chars@) == Some(
                chars@.subrange(from as int, to as int),
            ),
            None => spec_file_name(chars@) is None,
        },
{
    let mut end: usize = chars.len();
    assert(chars@.take(end as int) =~= chars@);
    loop
        invariant
            end <= chars.len(),
            spec_file_name(chars@) == spec_file_name(chars@.take(end as int)),
        decreases end,
    {
        let ghost head = chars@.take(end as int);
        assert(head =~= chars@.subrange(0, end as int));
        let start: usize = match rfind(chars, 0, end, '/') {
            Some(at) => at + 1,
            None => 0,
        };
        let ghost last = head.skip(start as int);
        assert(start == segment_start(head));
        assert(last =~= chars@.subrange(start as int, end as int));
        let length: usize = end - start;
        if length == 0 || (length == 1 && chars[start] == '.') {
            assert(last.len() == 0 || last =~= seq!['.']);
            if start == 0 {
                return None;
            }
            assert(head.take(start - 1) =~= chars@.take(start - 1));
            end = start - 1;
        } else {
            assert(last != seq!['.']) by {
                if length == 1 {
                    assert(last[0] != seq!['.'][0]);
                }
            }
            if length == 2 && chars[start] == '.' && chars[start + 1] == '.' {
                assert(last =~= seq!['.', '.']);
                return None;
            }
            assert(last != seq!['.', '.']) by {
                if length == 2 {
                    assert(last[0] != seq!['.', '.'][0] || last[1] != seq!['.', '.'][1]);
                }
            }
            return Some((start, end));
        }
    }
}

/// The final component of `path`, if it names something.
pub fn file_name(path: &str) -> (name: Option<String>)
    ensures
        match name {
            Some(text) => spec_file_name(path@) == Some(text@),
            None => spec_file_name(path@) is None,
        },
{
    let chars = chars_of(path);
    match file_name_bounds(&chars) {
        Some((from, to)) => Some(string_of(&chars, from, to)),
        None => None,
    }
}

/// The extension of the file that `path` names, without the dot.
pub fn extension(path: &str) -> (found: Option<String>)
    ensures
        match found {
            Some(text) => spec_extension(path@) == Some(text@),
            None => spec_extension(path@) is None,
        },
{
    let chars = chars_of(path);
    match file_name_bounds(&chars) {
        None => None,
        Some((from, to)) => {
            let ghost name = chars@.subrange(from as int, to as int);
            match rfind(&chars, from, to, '.') {
                None => None,
                Some(dot) => {
                    if dot == from {
                        None
                    } else {
                        assert(name.skip(dot - from + 1) =~= chars@.subrange(dot + 1, to as int));
                        Some(string_of(&chars, dot + 1, to))
                    }
                },
            }
        },
    }
}

/// `name` placed inside `dir`: a separator comes between them unless `dir`
/// is empty or already ends in one.
pub open spec fn spec_join(dir: Seq<char>, name: Seq<char>) -> Seq<char> {
    if dir.len() == 0 || dir.last() == '/' {
        dir + name
    } else {
        dir + seq!['/'] + name
    }
}

/// `name` placed inside `dir`.
pub fn join(dir: &str, name: &str) -> (path: String)
    ensures
        path@ == spec_join(dir@, name@),
{
    let chars = chars_of(dir);
    let mut path = dir.to_owned();
    if chars.len() > 0 && chars[chars.len() - 1] != '/' {
        push_char(&mut path, '/');
    }
    path.append(name);
    path
}

/// `path` with every `~` replaced by `home`.
pub open spec fn spec_expand_user(path: Seq<char>, home: Seq<char>) -> Seq<char>
    decreases path.len(),
{
    if path.len() == 0 {
        Seq::<char>::empty()
    } else if path.last() == '~' {
        spec_expand_user(path.drop_last(), home) + home
    } else {
        spec_expand_user(path.drop_last(), home).push(path.last())
    }
}

/// Resolves `~` in `path` to the user's home directory.
pub fn expand_user(path: &str, home: &str) -> (expanded: String)
    ensures
        expanded@ == spec_expand_user(path@, home@),
{
    let mut expanded = String::new();
    let ghost mut seen = Seq::<char>::empty();
    for c in it: path.chars()
        invariant
            seen == it.seq().take(it.index()),
            expanded@ == spec_expand_user(seen, home@),
    {
        proof {
            let grown = seen.push(c);
            assert(grown.drop_last() =~= seen);
            assert(grown =~= it.seq().take(it.index() + 1));
            seen = grown;
        }
        if c == '~' {
            expanded.append(home);
        } else {
            push_char(&mut expanded, c);
        }
    }
    assert(seen =~= path@);
    expanded
}

/// Whether `prefix` is a leading run of whole components of `path`: `path`
/// begins with the text of `prefix`, and `prefix` ends where a component of
/// `path` does.
pub open spec fn spec_has_prefix(path: Seq<char>, prefix: Seq<char>) -> bool {
    &&& prefix.len() <= path.len()
    &&& path.take(prefix.len() as int) == prefix
    &&& (prefix.len() == 0 || prefix.len() == path.len() || prefix.last() == '/' || path[prefix.len() as int] == '/')
}

/// `path` without `prefix` where `prefix` leads it, else `path` as it is.
pub open spec fn spec_strip_prefix(path: Seq<char>, prefix: Seq<char>) -> Seq<char> {
    if spec_has_prefix(path, prefix) {
        path.skip(prefix.len() as int)
    } else {
        path
    }
}

/// Whether `chars` begins with `prefix`.
fn begins_with(chars: &Vec<char>, prefix: &Vec<char>) -> (holds: bool)
    ensures
        holds == (prefix.len() <= chars.len() && chars@.take(prefix.len() as int) == prefix@),
{
    if prefix.len() > chars.len() {
        return false;
    }
    let mut i: usize = 0;
    while i < prefix.len()
        invariant
            i <= prefix.len() <= chars.len(),
            chars@.take(i as int) == prefix@.take(i as int),
        decreases prefix.len() - i,
    {
        if chars[i] != prefix[i] {
            assert(chars@.take(prefix.len() as int)[i as int] != prefix@[i as int]);
            return false;
        }
        assert(chars@.take(i + 1) =~= chars@.take(i as int).push(chars@[i as int]));
        assert(prefix@.take(i + 1) =~= prefix@.take(i as int).push(prefix@[i as int]));
        i = i + 1;
    }
    assert(prefix@.take(i as int) =~= prefix@);
    true
}

/// Removes `prefix` from the front of `path` where it leads it.
pub fn strip_prefix(path: &str, prefix: &str) -> (shown: String)
    ensures
        shown@ == spec_strip_prefix(path@, prefix@),
{
    let chars = chars_of(path);
    let lead = chars_of(prefix);
    let n: usize = lead.len();
    if begins_with(&chars, &lead) && (n == 0 || n == chars.len() || lead[n - 1] == '/' || chars[n] == '/') {
        assert(path@.skip(n as int) =~= chars@.subrange(n as int, chars.len() as int));
        string_of(&chars, n, chars.len())
    } else {
        path.to_owned()
    }
}

/// The name under which content with the given digest is kept: the digest,
/// then a dot and the extension where there is one.
pub open spec fn spec_stored_name(digest: Seq<char>, extension: Seq<char>) -> Seq<char> {
    if extension.len() == 0 {
        digest
    } else {
        digest + seq!['.'] + extension
    }
}

/// Where in `root` content with the given digest is kept.
pub open spec fn spec_stored_path(root: Seq<char>, digest: Seq<char>, extension: Seq<char>) -> Seq<
    char,
> {
    spec_join(root, spec_stored_name(digest, extension))
}

/// Where in `root` content with the given digest is kept.
pub fn stored_path(root: &str, digest: &str, extension: &str) -> (path: String)
    ensures
        path@ == spec_stored_path(root@, digest@, extension@),
{
    let mut name = digest.to_owned();
    if extension.unicode_len() > 0 {
        push_char(&mut name, '.');
        name.append(extension);
    }
    join(root, name.as_str())
}

} // verus!
