//! Finding the store that encloses a directory.
//!
//! A store is the marker directory `.casd` inside some directory. Discovery
//! starts at a directory and walks up through its ancestors, the root of the
//! filesystem included, until one of them holds the marker.

use crate::error::StoreError;
use crate::path::{join, lemma_last_index_is, lemma_last_index_of, segment_start, spec_join};
use crate::text::{chars_of, string_of};
use vstd::prelude::*;

verus! {

/// The name of the marker directory.
pub open spec fn spec_marker() -> Seq<char> {
    ".casd"@
}

/// The name of the marker directory.
pub fn marker() -> (name: &'static str)
    ensures
        name@ == spec_marker(),
{
    ".casd"
}

/// `path` without the separators it ends in.
pub open spec fn trimmed(path: Seq<char>) -> Seq<char>
    decreases path.len(),
{
    if path.len() > 0 && path.last() == '/' {
        trimmed(path.drop_last())
    } else {
        path
    }
}

/// A trimmed path is a leading part of the path, does not end in a
/// separator, and all that was cut off are separators.
pub proof fn lemma_trimmed(path: Seq<char>)
    ensures
        trimmed(path).len() <= path.len(),
        trimmed(path) == path.take(trimmed(path).len() as int),
        trimmed(path).len() > 0 ==> trimmed(path).last() != '/',
        forall|k: int| trimmed(path).len() <= k < path.len() ==> path[k] == '/',
    decreases path.len(),
{
    if path.len() > 0 && path.last() == '/' {
        let front = path.drop_last();
        lemma_trimmed(front);
        assert(front.take(trimmed(front).len() as int) =~= path.take(trimmed(front).len() as int));
        assert forall|k: int| trimmed(path).len() <= k < path.len() implies path[k] == '/' by {
            if k < front.len() {
                assert(front[k] == path[k]);
            }
        }
    } else {
        assert(path.take(path.len() as int) =~= path);
    }
}

/// The directory that holds `path`.
///
/// The last component of `path` is dropped, with the separators around it.
/// The parent of a path directly under the root is the root `/`; that of a
/// single relative component is the empty path. The root and the empty path
/// have no parent.
pub open spec fn spec_parent(path: Seq<char>) -> Option<Seq<char>> {
    let body = trimmed(path);
    if body.len() == 0 {
        None
    } else {
        let start = segment_start(body);
        let upper = trimmed(body.take(start));
        if upper.len() == 0 && start > 0 {
            Some(seq!['/'])
        } else {
            Some(upper)
        }
    }
}

/// A parent is shorter than its child.
pub proof fn lemma_parent_is_shorter(path: Seq<char>)
    ensures
        spec_parent(path) matches Some(upper) ==> upper.len() < path.len(),
{
    let body = trimmed(path);
    lemma_trimmed(path);
    if body.len() > 0 {
        let start = segment_start(body);
        lemma_last_index_of(body, '/');
        assert(start < body.len());
        lemma_trimmed(body.take(start));
    }
}

/// How many of the first `end` characters are left when the separators at
/// their end are cut off.
fn trimmed_length(chars: &Vec<char>, end: usize) -> (length: usize)
    requires
        end <= chars.len(),
    ensures
        length <= end,
        trimmed(chars@.take(end as int)) == chars@.take(length as int),
{
    let mut length: usize = end;
    while length > 0 && chars[length - 1] == '/'
        invariant
            length <= end <= chars.len(),
            trimmed(chars@.take(end as int)) == trimmed(chars@.take(length as int)),
        decreases length,
    {
        assert(chars@.take(length as int).drop_last() =~= chars@.take(length - 1));
        length = length - 1;
    }
    length
}

/// The directory that holds `path`, if it has one.
pub fn parent(path: &str) -> (upper: Option<String>)
    ensures
        match upper {
            Some(text) => spec_parent(path@) == Some(text@),
            None => spec_parent(path@) is None,
        },
{
    let chars = chars_of(path);
    assert(chars@.take(chars.len() as int) =~= chars@);
    let end = trimmed_length(&chars, chars.len());
    if end == 0 {
        return None;
    }
    let ghost body = chars@.take(end as int);
    let mut start: usize = end;
    while start > 0 && chars[start - 1] != '/'
        invariant
            start <= end <= chars.len(),
            body == chars@.take(end as int),
            forall|k: int| start <= k < end ==> body[k] != '/',
        decreases start,
    {
        start = start - 1;
    }
    proof {
        lemma_last_index_is(body, '/', start - 1);
        assert(body.take(start as int) =~= chars@.take(start as int));
    }
    let kept = trimmed_length(&chars, start);
    if kept == 0 && start > 0 {
        let root = string_of(&chars, 0, 1);
        proof {
            lemma_trimmed(chars@.take(start as int));
            assert(chars@.take(start as int)[0] == '/');
            assert(root@ =~= seq!['/']);
        }
        Some(root)
    } else {
        assert(chars@.subrange(0, kept as int) =~= chars@.take(kept as int));
        Some(string_of(&chars, 0, kept))
    }
}

/// A search for the enclosing store, stopped at one directory.
pub struct Discovery {
    at: String,
}

impl View for Discovery {
    type V = Seq<char>;

    /// The directory at which the search stands.
    closed spec fn view(&self) -> Seq<char> {
        self.at@
    }
}

/// Where a search stands after an answer.
pub enum Search {
    /// The marker was not there: look in the next directory up.
    Probe(Discovery),
    /// This is the store root.
    Found(String),
    /// No store encloses the starting directory.
    Failed(StoreError),
}

/// What a [`Search`] holds, as plain values.
pub enum SearchView {
    Probe(Seq<char>),
    Found(Seq<char>),
    Failed(StoreError),
}

impl View for Search {
    type V = SearchView;

    open spec fn view(&self) -> SearchView {
        match self {
            Search::Probe(run) => SearchView::Probe(run@),
            Search::Found(root) => SearchView::Found(root@),
            Search::Failed(error) => SearchView::Failed(*error),
        }
    }
}

/// The marker directory of `dir`.
pub open spec fn spec_store_root(dir: Seq<char>) -> Seq<char> {
    spec_join(dir, spec_marker())
}

/// Where a search at `at` stands once it is known whether the marker
/// directory of `at` exists: there, if it does; else at the parent of `at`,
/// or at its end where `at` has none.
pub open spec fn after_probe(at: Seq<char>, marker_is_dir: bool) -> SearchView {
    if marker_is_dir {
        SearchView::Found(spec_store_root(at))
    } else {
        match spec_parent(at) {
            Some(upper) => SearchView::Probe(upper),
            None => SearchView::Failed(StoreError::NotInitialized),
        }
    }
}

/// The marker directory of `dir`.
pub fn store_root(dir: &str) -> (root: String)
    ensures
        root@ == spec_store_root(dir@),
{
    join(dir, marker())
}

/// What initialising a store in `cwd` has to create: the marker directory,
/// unless it is already there.
pub fn init_store(cwd: &str, marker_is_dir: bool) -> (create: Option<String>)
    ensures
        match create {
            Some(dir) => !marker_is_dir && dir@ == spec_store_root(cwd@),
            None => marker_is_dir,
        },
{
    if marker_is_dir {
        None
    } else {
        Some(store_root(cwd))
    }
}

impl Discovery {
    /// A search that starts at `start`.
    pub fn begin(start: &str) -> (run: Discovery)
        ensures
            run@ == start@,
    {
        Discovery { at: start.to_owned() }
    }

    /// The directory whose existence decides the next step: the marker
    /// directory of where the search stands.
    pub fn candidate(&self) -> (dir: String)
        ensures
            dir@ == spec_store_root(self@),
    {
        store_root(self.at.as_str())
    }

    /// Takes the answer: whether the candidate is a directory.
    pub fn resume(self, marker_is_dir: bool) -> (search: Search)
        ensures
            search@ == after_probe(self@, marker_is_dir),
    {
        if marker_is_dir {
            Search::Found(store_root(self.at.as_str()))
        } else {
            match parent(self.at.as_str()) {
                Some(upper) => Search::Probe(Discovery { at: upper }),
                None => Search::Failed(StoreError::NotInitialized),
            }
        }
    }
}

/// Whether `upper` is `dir` or lies above it.
pub open spec fn is_ancestor(upper: Seq<char>, dir: Seq<char>) -> bool
    decreases dir.len(),
{
    upper == dir || match spec_parent(dir) {
        Some(next) => next.len() < dir.len() && is_ancestor(upper, next),
        None => false,
    }
}

/// The search from `at` carried through, where `dirs` are the directories
/// that exist.
pub open spec fn located(dirs: Set<Seq<char>>, at: Seq<char>) -> Result<Seq<char>, StoreError>
    decreases at.len(),
{
    match after_probe(at, dirs.contains(spec_store_root(at))) {
        SearchView::Probe(upper) => if upper.len() < at.len() {
            located(dirs, upper)
        } else {
            Err(StoreError::NotInitialized)
        },
        SearchView::Found(root) => Ok(root),
        SearchView::Failed(error) => Err(error),
    }
}

/// The paths that `dirs` lists.
pub open spec fn listed_dirs(dirs: Seq<String>) -> Set<Seq<char>> {
    Set::new(|path: Seq<char>| exists|i: int| 0 <= i < dirs.len() && (#[trigger] dirs[i])@ == path)
}

/// Whether `dirs` lists `path`.
fn lists(dirs: &Vec<String>, path: &String) -> (found: bool)
    ensures
        found == listed_dirs(dirs@).contains(path@),
{
    let mut i: usize = 0;
    while i < dirs.len()
        invariant
            i <= dirs.len(),
            forall|j: int| 0 <= j < i ==> (#[trigger] dirs@[j])@ != path@,
        decreases dirs.len() - i,
    {
        if dirs[i] == *path {
            assert(dirs@[i as int]@ == path@);
            return true;
        }
        i = i + 1;
    }
    false
}

/// The store that encloses `start`, where `dirs` are the directories that
/// exist: the marker directory of the nearest of `start` and its ancestors
/// that has one, and `NotInitialized` where none has.
pub fn locate_store(start: &str, dirs: &Vec<String>) -> (found: Result<String, StoreError>)
    ensures
        match found {
            Ok(root) => located(listed_dirs(dirs@), start@) == Ok::<Seq<char>, StoreError>(root@),
            Err(error) => located(listed_dirs(dirs@), start@) == Err::<Seq<char>, StoreError>(
                error,
            ),
        },
{
    let mut run = Discovery::begin(start);
    loop
        invariant
            located(listed_dirs(dirs@), start@) == located(listed_dirs(dirs@), run@),
        decreases run@.len(),
    {
        let candidate = run.candidate();
        let present = lists(dirs, &candidate);
        proof {
            lemma_parent_is_shorter(run@);
        }
        match run.resume(present) {
            Search::Probe(next) => {
                run = next;
            },
            Search::Found(root) => {
                return Ok(root);
            },
            Search::Failed(error) => {
                return Err(error);
            },
        }
    }
}

/// Discovery finds the marker directory of the nearest ancestor that has
/// one: what it returns exists and belongs to an ancestor of the start, and
/// no ancestor between the start and that one has a marker directory.
pub proof fn lemma_located_is_nearest(dirs: Set<Seq<char>>, start: Seq<char>)
    requires
        located(dirs, start) is Ok,
    ensures
        dirs.contains(located(dirs, start)->Ok_0),
        exists|upper: Seq<char>|
            is_ancestor(upper, start) && located(dirs, start) == Ok::<Seq<char>, StoreError>(
                #[trigger] spec_store_root(upper),
            ) && forall|between: Seq<char>|
                is_ancestor(between, start) && is_ancestor(upper, between) && between != upper
                    ==> !dirs.contains(#[trigger] spec_store_root(between)),
    decreases start.len(),
{
    lemma_parent_is_shorter(start);
    if dirs.contains(spec_store_root(start)) {
        assert(is_ancestor(start, start));
        assert forall|between: Seq<char>|
            is_ancestor(between, start) && is_ancestor(start, between) && between
                != start implies !dirs.contains(#[trigger] spec_store_root(between)) by {
            lemma_ancestor_is_no_longer(between, start);
            lemma_ancestor_is_no_longer(start, between);
            lemma_ancestor_same_length(between, start);
        }
    } else {
        let next = spec_parent(start)->0;
        lemma_located_is_nearest(dirs, next);
        let upper = choose|upper: Seq<char>|
            is_ancestor(upper, next) && located(dirs, next) == Ok::<Seq<char>, StoreError>(
                #[trigger] spec_store_root(upper),
            ) && forall|between: Seq<char>|
                is_ancestor(between, next) && is_ancestor(upper, between) && between != upper
                    ==> !dirs.contains(#[trigger] spec_store_root(between));
        assert(is_ancestor(upper, start));
        assert forall|between: Seq<char>|
            is_ancestor(between, start) && is_ancestor(upper, between) && between
                != upper implies !dirs.contains(#[trigger] spec_store_root(between)) by {
            if between != start {
                assert(is_ancestor(between, next));
            }
        }
    }
}

/// An ancestor is no longer than what it lies above.
pub proof fn lemma_ancestor_is_no_longer(upper: Seq<char>, dir: Seq<char>)
    requires
        is_ancestor(upper, dir),
    ensures
        upper.len() <= dir.len(),
    decreases dir.len(),
{
    if upper != dir {
        lemma_ancestor_is_no_longer(upper, spec_parent(dir)->0);
    }
}

/// An ancestor as long as what it lies above is that path itself.
pub proof fn lemma_ancestor_same_length(upper: Seq<char>, dir: Seq<char>)
    requires
        is_ancestor(upper, dir),
        upper.len() == dir.len(),
    ensures
        upper == dir,
{
    if upper != dir {
        lemma_ancestor_is_no_longer(upper, spec_parent(dir)->0);
    }
}

/// Discovery fails only with `NotInitialized`, and only where no ancestor
/// of the start, the start included, has a marker directory.
pub proof fn lemma_located_fails(dirs: Set<Seq<char>>, start: Seq<char>, upper: Seq<char>)
    requires
        located(dirs, start) is Err,
        is_ancestor(upper, start),
    ensures
        located(dirs, start) == Err::<Seq<char>, StoreError>(StoreError::NotInitialized),
        !dirs.contains(spec_store_root(upper)),
    decreases start.len(),
{
    lemma_parent_is_shorter(start);
    if upper != start {
        lemma_located_fails(dirs, spec_parent(start)->0, upper);
    } else if spec_parent(start) is Some {
        lemma_located_fails(dirs, spec_parent(start)->0, spec_parent(start)->0);
    }
}

} // verus!
