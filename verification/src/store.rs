//! Insertion into the store, as a run of questions and effects.
//!
//! The caller owns the filesystem and the clipboard. An [`Insertion`] tells
//! it what to find out or to do next, and takes the answer; it never asks for
//! a copy where the target is already there.
//!
//! There are two kinds of insertion. A clipping goes into the configured
//! clippings directory, which is created on first use; it keeps the source's
//! extension, and its path is handed to the clipboard. A plain insertion goes
//! into a store root that exists, under the bare digest.

use crate::config::{option_view, spec_shown, Config};
use crate::digest::{digest_hex, sha512};
use crate::error::{IoStage, StoreError};
use crate::hex::{hex_digit, is_hex_digit, lemma_hex_lower_injective, lemma_hex_lower_shape};
use crate::path::{
    extension, lemma_extension_shape, lemma_file_name_of_join, lemma_last_index_is,
    spec_expand_user, spec_extension, spec_file_name, spec_join, spec_stored_name,
    spec_stored_path, stored_path,
};
use vstd::prelude::*;

verus! {

/// The answer that an insertion is waiting for.
#[derive(Clone, Copy, Debug, PartialEq, Eq, Structural)]
pub enum Stage {
    /// Whether the store root is a directory.
    Root,
    /// Whether the store root could be created.
    Create,
    /// Whether the target is already a file.
    Target,
    /// Whether the source could be copied to the target.
    Copy,
    /// Whether the clipboard took the path.
    Clip,
}

/// An insertion under way.
pub struct Insertion {
    stage: Stage,
    root: String,
    target: String,
    shown: Option<String>,
}

/// What an [`Insertion`] holds, as plain values.
pub struct InsertionView {
    /// The answer that is awaited.
    pub stage: Stage,
    /// The store root.
    pub root: Seq<char>,
    /// The path at which the content is kept.
    pub target: Seq<char>,
    /// The path that the clipboard gets, where the insertion ends with the
    /// clipboard.
    pub shown: Option<Seq<char>>,
}

impl View for Insertion {
    type V = InsertionView;

    closed spec fn view(&self) -> InsertionView {
        InsertionView {
            stage: self.stage,
            root: self.root@,
            target: self.target@,
            shown: option_view(self.shown),
        }
    }
}

impl InsertionView {
    /// An insertion waits for the clipboard only where it has a path for it.
    pub open spec fn well_formed(self) -> bool {
        self.stage == Stage::Clip ==> self.shown is Some
    }
}

/// What the caller is to find out or to do.
#[derive(Debug, PartialEq, Eq)]
pub enum Demand {
    /// Say whether this path is a directory.
    IsDir(String),
    /// Create this directory; say whether that worked.
    CreateDir(String),
    /// Say whether this path is a regular file.
    IsFile(String),
    /// Copy the source's bytes to this path; say whether that worked.
    CopyTo(String),
    /// Hand this path to the clipboard utility and wait for it; say whether
    /// it ran and reported success.
    Clipboard(String),
}

/// What a [`Demand`] holds, as plain values.
pub enum DemandView {
    IsDir(Seq<char>),
    CreateDir(Seq<char>),
    IsFile(Seq<char>),
    CopyTo(Seq<char>),
    Clipboard(Seq<char>),
}

impl View for Demand {
    type V = DemandView;

    open spec fn view(&self) -> DemandView {
        match self {
            Demand::IsDir(path) => DemandView::IsDir(path@),
            Demand::CreateDir(path) => DemandView::CreateDir(path@),
            Demand::IsFile(path) => DemandView::IsFile(path@),
            Demand::CopyTo(path) => DemandView::CopyTo(path@),
            Demand::Clipboard(path) => DemandView::Clipboard(path@),
        }
    }
}

/// Where an insertion stands after an answer.
pub enum Progress {
    /// There is more to find out or to do.
    Ask(Insertion),
    /// The content is in the store, at this path.
    Stored(String),
    /// The insertion failed.
    Failed(StoreError),
}

/// What a [`Progress`] holds, as plain values.
pub enum ProgressView {
    Ask(InsertionView),
    Stored(Seq<char>),
    Failed(StoreError),
}

impl View for Progress {
    type V = ProgressView;

    open spec fn view(&self) -> ProgressView {
        match self {
            Progress::Ask(run) => ProgressView::Ask(run@),
            Progress::Stored(path) => ProgressView::Stored(path@),
            Progress::Failed(error) => ProgressView::Failed(*error),
        }
    }
}

/// The extension that the stored copy of `source` gets: that of `source`,
/// or none.
pub open spec fn spec_kept_extension(source: Seq<char>) -> Seq<char> {
    match spec_extension(source) {
        Some(text) => text,
        None => Seq::<char>::empty(),
    }
}

/// Where in `root` the copy of `source` is kept, given the digest of its
/// content.
pub open spec fn spec_target(root: Seq<char>, source: Seq<char>, digest: Seq<char>) -> Seq<char> {
    spec_stored_path(root, digest, spec_kept_extension(source))
}

/// The insertion of a clipping that has asked nothing yet.
pub open spec fn begun(root: Seq<char>, target: Seq<char>, shown: Seq<char>) -> InsertionView {
    InsertionView { stage: Stage::Root, root, target, shown: Some(shown) }
}

/// The insertion of `source`, whose content has the given digest, into the
/// clippings directory of `config`, before it has asked anything: the root
/// is the clippings directory with `~` resolved, the target lies in it, and
/// the clipboard gets the target without the configured leading directory.
pub open spec fn begun_clipping(
    config: Config,
    home: Seq<char>,
    source: Seq<char>,
    digest: Seq<char>,
) -> InsertionView {
    let root = spec_expand_user(config.clippings@, home);
    let target = spec_target(root, source, digest);
    begun(root, target, spec_shown(option_view(config.strip_dir), target, home))
}

/// A plain insertion that has asked nothing yet.
pub open spec fn begun_plain(root: Seq<char>, target: Seq<char>) -> InsertionView {
    InsertionView { stage: Stage::Target, root, target, shown: None }
}

/// What an insertion at this point asks of the caller.
pub open spec fn demand_of(run: InsertionView) -> DemandView {
    match run.stage {
        Stage::Root => DemandView::IsDir(run.root),
        Stage::Create => DemandView::CreateDir(run.root),
        Stage::Target => DemandView::IsFile(run.target),
        Stage::Copy => DemandView::CopyTo(run.target),
        Stage::Clip => DemandView::Clipboard(run.shown->0),
    }
}

/// The insertion at another stage.
pub open spec fn at_stage(run: InsertionView, stage: Stage) -> InsertionView {
    InsertionView { stage, ..run }
}

/// Where an insertion stands once the content is at its target: at the
/// clipboard where it has a path for it, else at its end.
pub open spec fn once_stored(run: InsertionView) -> ProgressView {
    if run.shown is Some {
        ProgressView::Ask(at_stage(run, Stage::Clip))
    } else {
        ProgressView::Stored(run.target)
    }
}

/// Where an insertion stands once the caller has answered.
///
/// A missing root is created. A target that is already a file is left as it
/// is, and counts as stored; only a missing one is copied. A failed effect
/// ends the insertion with the effect's error.
pub open spec fn after_answer(run: InsertionView, answer: bool) -> ProgressView {
    match run.stage {
        Stage::Root => if answer {
            ProgressView::Ask(at_stage(run, Stage::Target))
        } else {
            ProgressView::Ask(at_stage(run, Stage::Create))
        },
        Stage::Create => if answer {
            ProgressView::Ask(at_stage(run, Stage::Target))
        } else {
            ProgressView::Failed(StoreError::Io(IoStage::CreateDir))
        },
        Stage::Target => if answer {
            once_stored(run)
        } else {
            ProgressView::Ask(at_stage(run, Stage::Copy))
        },
        Stage::Copy => if answer {
            once_stored(run)
        } else {
            ProgressView::Failed(StoreError::Io(IoStage::Copy))
        },
        Stage::Clip => if answer {
            ProgressView::Stored(run.target)
        } else {
            ProgressView::Failed(StoreError::Io(IoStage::Clipboard))
        },
    }
}

/// Where in `root` the copy of `source` is kept, given the digest of its
/// content: under the digest, with the extension of `source`.
pub fn target_path(root: &str, source: &str, digest: &str) -> (target: String)
    ensures
        target@ == spec_target(root@, source@, digest@),
{
    match extension(source) {
        Some(kept) => stored_path(root, digest, kept.as_str()),
        None => {
            let path = stored_path(root, digest, "");
            proof {
                reveal_strlit("");
                assert(""@ =~= Seq::<char>::empty());
            }
            path
        },
    }
}

impl Insertion {
    #[verifier::type_invariant]
    spec fn clipboard_has_path(self) -> bool {
        self.stage == Stage::Clip ==> self.shown is Some
    }

    /// Starts the insertion of `source`, whose content has the given digest,
    /// into the clippings directory of `config`.
    pub fn begin(config: &Config, home: &str, source: &str, digest: &str) -> (run: Insertion)
        ensures
            run@ == begun_clipping(*config, home@, source@, digest@),
    {
        let root = config.get_clippings_dir(home);
        let target = target_path(root.as_str(), source, digest);
        let shown = config.strip_prefix(target.as_str(), home);
        Insertion { stage: Stage::Root, root, target, shown: Some(shown) }
    }

    /// Starts the insertion of content with the given digest into the store
    /// root `root`, which exists.
    pub fn begin_plain(root: &str, digest: &str) -> (run: Insertion)
        ensures
            run@ == begun_plain(root@, spec_stored_path(root@, digest@, Seq::<char>::empty())),
    {
        let target = stored_path(root, digest, "");
        proof {
            reveal_strlit("");
            assert(""@ =~= Seq::<char>::empty());
        }
        Insertion { stage: Stage::Target, root: root.to_owned(), target, shown: None }
    }

    /// The path at which the content is kept once the insertion succeeds.
    pub fn target(&self) -> (target: &str)
        ensures
            target@ == self@.target,
    {
        self.target.as_str()
    }

    /// What the caller is to find out or to do now.
    pub fn demand(&self) -> (demand: Demand)
        ensures
            self@.well_formed(),
            demand@ == demand_of(self@),
    {
        proof {
            use_type_invariant(self);
        }
        match self.stage {
            Stage::Root => Demand::IsDir(self.root.clone()),
            Stage::Create => Demand::CreateDir(self.root.clone()),
            Stage::Target => Demand::IsFile(self.target.clone()),
            Stage::Copy => Demand::CopyTo(self.target.clone()),
            Stage::Clip => match &self.shown {
                Some(shown) => Demand::Clipboard(shown.clone()),
                None => Demand::Clipboard(String::new()),
            },
        }
    }

    /// Takes the caller's answer to the current demand.
    pub fn resume(self, answer: bool) -> (progress: Progress)
        ensures
            progress@ == after_answer(self@, answer),
    {
        let Insertion { stage, root, target, shown } = self;
        match stage {
            Stage::Root => {
                let next = if answer {
                    Stage::Target
                } else {
                    Stage::Create
                };
                Progress::Ask(Insertion { stage: next, root, target, shown })
            },
            Stage::Create => {
                if answer {
                    Progress::Ask(Insertion { stage: Stage::Target, root, target, shown })
                } else {
                    Progress::Failed(StoreError::Io(IoStage::CreateDir))
                }
            },
            Stage::Target => {
                if !answer {
                    Progress::Ask(Insertion { stage: Stage::Copy, root, target, shown })
                } else if shown.is_some() {
                    Progress::Ask(Insertion { stage: Stage::Clip, root, target, shown })
                } else {
                    Progress::Stored(target)
                }
            },
            Stage::Copy => {
                if !answer {
                    Progress::Failed(StoreError::Io(IoStage::Copy))
                } else if shown.is_some() {
                    Progress::Ask(Insertion { stage: Stage::Clip, root, target, shown })
                } else {
                    Progress::Stored(target)
                }
            },
            Stage::Clip => {
                if answer {
                    Progress::Stored(target)
                } else {
                    Progress::Failed(StoreError::Io(IoStage::Clipboard))
                }
            },
        }
    }
}

/// Starts the insertion of `source` into the clippings directory of `config`
/// once its digest was attempted: the digest comes first, and where it
/// failed the insertion has failed with the same error and asks nothing.
pub fn begin_after(
    config: &Config,
    home: &str,
    source: &str,
    digest: Result<String, StoreError>,
) -> (progress: Progress)
    ensures
        match digest {
            Ok(text) => progress@ == ProgressView::Ask(
                begun_clipping(*config, home@, source@, text@),
            ),
            Err(error) => progress@ == ProgressView::Failed(error),
        },
{
    match digest {
        Ok(text) => Progress::Ask(Insertion::begin(config, home, source, text.as_str())),
        Err(error) => Progress::Failed(error),
    }
}

/// Starts the plain insertion into the store root `root` once the digest of
/// the content was attempted: where the digest failed, the insertion has
/// failed with the same error and asks nothing.
pub fn begin_plain_after(root: &str, digest: Result<String, StoreError>) -> (progress: Progress)
    ensures
        match digest {
            Ok(text) => progress@ == ProgressView::Ask(
                begun_plain(root@, spec_stored_path(root@, text@, Seq::<char>::empty())),
            ),
            Err(error) => progress@ == ProgressView::Failed(error),
        },
{
    match digest {
        Ok(text) => Progress::Ask(Insertion::begin_plain(root, text.as_str())),
        Err(error) => Progress::Failed(error),
    }
}

/// The part of the filesystem that an insertion looks at: the paths that are
/// directories and those that are regular files.
pub struct World {
    pub dirs: Set<Seq<char>>,
    pub files: Set<Seq<char>>,
}

/// A world in which every effect works: what a demand leaves behind, and the
/// answer to it.
pub open spec fn performed(world: World, demand: DemandView) -> (World, bool) {
    match demand {
        DemandView::IsDir(path) => (world, world.dirs.contains(path)),
        DemandView::CreateDir(path) => (World { dirs: world.dirs.insert(path), ..world }, true),
        DemandView::IsFile(path) => (world, world.files.contains(path)),
        DemandView::CopyTo(path) => (World { files: world.files.insert(path), ..world }, true),
        DemandView::Clipboard(path) => (world, true),
    }
}

/// How an insertion ended.
pub struct Settled {
    /// The world it left.
    pub world: World,
    /// The path at which the content is kept, or why it is not.
    pub outcome: Result<Seq<char>, StoreError>,
    /// Whether a copy was made.
    pub wrote: bool,
}

/// How many answers an insertion may still need.
pub open spec fn answers_left(stage: Stage) -> nat {
    match stage {
        Stage::Root => 5,
        Stage::Create => 4,
        Stage::Target => 3,
        Stage::Copy => 2,
        Stage::Clip => 1,
    }
}

/// The insertion `run` carried through in `world`, each demand performed and
/// answered as [`performed`] says. `wrote` tells whether a copy was made
/// before.
pub open spec fn settled(world: World, run: InsertionView, wrote: bool) -> Settled
    decreases answers_left(run.stage),
{
    let demand = demand_of(run);
    let (next_world, answer) = performed(world, demand);
    let wrote = wrote || demand is CopyTo;
    match after_answer(run, answer) {
        ProgressView::Ask(next) => if answers_left(next.stage) < answers_left(run.stage) {
            settled(next_world, next, wrote)
        } else {
            Settled { world: next_world, outcome: Ok(next.target), wrote }
        },
        ProgressView::Stored(path) => Settled { world: next_world, outcome: Ok(path), wrote },
        ProgressView::Failed(error) => Settled { world: next_world, outcome: Err(error), wrote },
    }
}

/// Every answer brings an insertion nearer its end, and changes nothing
/// but the stage at which it stands.
pub proof fn lemma_answers_run_out(run: InsertionView, answer: bool)
    ensures
        after_answer(run, answer) matches ProgressView::Ask(next) ==> answers_left(next.stage)
            < answers_left(run.stage) && next.root == run.root && next.target == run.target
            && next.shown == run.shown && next.well_formed(),
{
}

/// A plain insertion that meets no failure ends with the content at its
/// target: the target is a file, and a copy was made exactly where it was
/// not a file before.
pub proof fn lemma_plain_insertion_settles(world: World, root: Seq<char>, target: Seq<char>)
    ensures
        settled(world, begun_plain(root, target), false) == (Settled {
            world: World { dirs: world.dirs, files: world.files.insert(target) },
            outcome: Ok(target),
            wrote: !world.files.contains(target),
        }),
{
    reveal_with_fuel(settled, 3);
    let end = settled(world, begun_plain(root, target), false);
    assert(end.world.files =~= world.files.insert(target));
}

/// The insertion of a clipping that meets no failure ends with the content
/// at its target: the root is a directory, the target a file, and a copy was
/// made exactly where the target was not a file before.
pub proof fn lemma_insertion_settles(world: World, root: Seq<char>, target: Seq<char>, shown: Seq<char>)
    ensures
        settled(world, begun(root, target, shown), false) == (Settled {
            world: World { dirs: world.dirs.insert(root), files: world.files.insert(target) },
            outcome: Ok(target),
            wrote: !world.files.contains(target),
        }),
{
    reveal_with_fuel(settled, 6);
    let end = settled(world, begun(root, target, shown), false);
    assert(end.world.dirs =~= world.dirs.insert(root));
    assert(end.world.files =~= world.files.insert(target));
}

/// Inserting the same content into the same root a second time yields the
/// same stored path as the first time, copies nothing, and leaves the store
/// as the first insertion left it.
pub proof fn lemma_plain_insert_idempotent(world: World, root: Seq<char>, content: Seq<u8>)
    ensures
        ({
            let target = spec_stored_path(root, digest_hex(content), Seq::<char>::empty());
            let first = settled(world, begun_plain(root, target), false);
            let second = settled(first.world, begun_plain(root, target), false);
            &&& first.outcome == Ok::<Seq<char>, StoreError>(target)
            &&& second.outcome == first.outcome
            &&& !second.wrote
            &&& second.world == first.world
        }),
{
    let target = spec_stored_path(root, digest_hex(content), Seq::<char>::empty());
    lemma_plain_insertion_settles(world, root, target);
    let first = settled(world, begun_plain(root, target), false);
    lemma_plain_insertion_settles(first.world, root, target);
    assert(first.world.files.insert(target) =~= first.world.files);
}

/// Inserting the same content under the same name as a clipping into the
/// same root a second time yields the same stored path as the first time,
/// copies nothing, and leaves the store as the first insertion left it.
pub proof fn lemma_insert_idempotent(
    world: World,
    root: Seq<char>,
    source: Seq<char>,
    content: Seq<u8>,
    shown: Seq<char>,
)
    ensures
        ({
            let target = spec_target(root, source, digest_hex(content));
            let first = settled(world, begun(root, target, shown), false);
            let second = settled(first.world, begun(root, target, shown), false);
            &&& first.outcome == Ok::<Seq<char>, StoreError>(target)
            &&& second.outcome == first.outcome
            &&& !second.wrote
            &&& second.world == first.world
        }),
{
    let target = spec_target(root, source, digest_hex(content));
    lemma_insertion_settles(world, root, target, shown);
    let first = settled(world, begun(root, target, shown), false);
    lemma_insertion_settles(first.world, root, target, shown);
    assert(first.world.dirs.insert(root) =~= first.world.dirs);
    assert(first.world.files.insert(target) =~= first.world.files);
}

/// Whether `text` ends in `tail`.
pub open spec fn ends_with(text: Seq<char>, tail: Seq<char>) -> bool {
    tail.len() <= text.len() && text.skip(text.len() - tail.len()) == tail
}

/// The stored copy keeps the extension of its source and adds none: where
/// the source has a non-empty extension, the target ends in the digest, a
/// dot and that extension; where it has none, the target ends in the digest.
pub proof fn lemma_target_keeps_extension(root: Seq<char>, source: Seq<char>, digest: Seq<char>)
    ensures
        ends_with(
            spec_target(root, source, digest),
            spec_stored_name(digest, spec_kept_extension(source)),
        ),
        spec_kept_extension(source).len() > 0 ==> ends_with(
            spec_target(root, source, digest),
            seq!['.'] + spec_kept_extension(source),
        ),
        spec_kept_extension(source).len() == 0 ==> ends_with(
            spec_target(root, source, digest),
            digest,
        ),
{
    let kept = spec_kept_extension(source);
    let name = spec_stored_name(digest, kept);
    let target = spec_target(root, source, digest);
    assert(target.skip(target.len() - name.len()) =~= name);
    if kept.len() > 0 {
        let tail = seq!['.'] + kept;
        assert(target.skip(target.len() - tail.len()) =~= tail);
    }
}

/// A hexadecimal digit is neither a dot nor a separator.
proof fn lemma_hex_digit_is_no_dot(c: char)
    requires
        is_hex_digit(c),
    ensures
        c != '.',
        c != '/',
{
    let n = choose|n: int| 0 <= n < 16 && c == #[trigger] hex_digit(n);
    assert(c == hex_digit(n));
}

/// The extension of the stored copy is the extension of its source: read
/// back from the target, it is the source's extension where that is not
/// empty, and none where the source has none. This holds of every digest
/// that is a non-empty run of hexadecimal digits.
pub proof fn lemma_extension_preserved(root: Seq<char>, source: Seq<char>, digest: Seq<char>)
    requires
        digest.len() > 0,
        forall|i: int| 0 <= i < digest.len() ==> is_hex_digit(#[trigger] digest[i]),
    ensures
        spec_file_name(spec_target(root, source, digest)) == Some(
            spec_stored_name(digest, spec_kept_extension(source)),
        ),
        spec_extension(spec_target(root, source, digest)) == if spec_kept_extension(source).len()
            > 0 {
            spec_extension(source)
        } else {
            None
        },
{
    let kept = spec_kept_extension(source);
    let name = spec_stored_name(digest, kept);
    lemma_extension_shape(source);
    assert forall|i: int| 0 <= i < digest.len() implies digest[i] != '.' && digest[i] != '/' by {
        lemma_hex_digit_is_no_dot(digest[i]);
    }
    assert(name[0] == digest[0]);
    assert(name != seq!['.']) by {
        assert(seq!['.'][0] == '.');
    }
    assert(name != seq!['.', '.']) by {
        assert(seq!['.', '.'][0] == '.');
    }
    lemma_file_name_of_join(root, name);
    if kept.len() > 0 {
        lemma_last_index_is(name, '.', digest.len() as int);
        assert(name.skip(digest.len() as int + 1) =~= kept);
    } else {
        lemma_last_index_is(name, '.', -1);
    }
}

/// Two digests made of hexadecimal digits that differ give names that
/// differ, whatever the extensions.
pub proof fn lemma_names_differ(
    first: Seq<char>,
    second: Seq<char>,
    first_extension: Seq<char>,
    second_extension: Seq<char>,
)
    requires
        first != second,
        forall|i: int| 0 <= i < first.len() ==> is_hex_digit(#[trigger] first[i]),
        forall|i: int| 0 <= i < second.len() ==> is_hex_digit(#[trigger] second[i]),
    ensures
        spec_stored_name(first, first_extension) != spec_stored_name(second, second_extension),
{
    let a = spec_stored_name(first, first_extension);
    let b = spec_stored_name(second, second_extension);
    if a == b {
        if first.len() == second.len() {
            assert(a.take(first.len() as int) =~= first);
            assert(b.take(second.len() as int) =~= second);
        } else if first.len() < second.len() {
            let at = first.len() as int;
            assert(b[at] == second[at]);
            lemma_hex_digit_is_no_dot(second[at]);
            assert(a.len() > at);
            assert(a[at] == '.');
        } else {
            let at = second.len() as int;
            assert(a[at] == first[at]);
            lemma_hex_digit_is_no_dot(first[at]);
            assert(b.len() > at);
            assert(b[at] == '.');
        }
    }
}

/// Different names lie at different paths of one root.
pub proof fn lemma_join_injective(root: Seq<char>, first: Seq<char>, second: Seq<char>)
    requires
        spec_join(root, first) == spec_join(root, second),
    ensures
        first == second,
{
    if root.len() == 0 || root.last() == '/' {
        assert((root + first).skip(root.len() as int) =~= first);
        assert((root + second).skip(root.len() as int) =~= second);
    } else {
        let lead = root + seq!['/'];
        assert((lead + first).skip(lead.len() as int) =~= first);
        assert((lead + second).skip(lead.len() as int) =~= second);
    }
}

/// Two files whose contents have different SHA-512 hashes are kept at
/// different paths of the same root, whatever their extensions.
pub proof fn lemma_content_separation(
    root: Seq<char>,
    first: Seq<u8>,
    second: Seq<u8>,
    first_extension: Seq<char>,
    second_extension: Seq<char>,
)
    requires
        sha512(first) != sha512(second),
    ensures
        spec_stored_path(root, digest_hex(first), first_extension) != spec_stored_path(
            root,
            digest_hex(second),
            second_extension,
        ),
{
    if digest_hex(first) == digest_hex(second) {
        lemma_hex_lower_injective(sha512(first), sha512(second));
    }
    lemma_hex_lower_shape(sha512(first));
    lemma_hex_lower_shape(sha512(second));
    lemma_names_differ(digest_hex(first), digest_hex(second), first_extension, second_extension);
    if spec_stored_path(root, digest_hex(first), first_extension) == spec_stored_path(
        root,
        digest_hex(second),
        second_extension,
    ) {
        lemma_join_injective(
            root,
            spec_stored_name(digest_hex(first), first_extension),
            spec_stored_name(digest_hex(second), second_extension),
        );
    }
}

} // verus!
