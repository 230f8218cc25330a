use vstd::prelude::*;

use crate::entry::Mode;

verus! {

/// The byte of a path separator, `/`.
pub open spec fn slash() -> u8 {
    47u8
}

/// The prefixes of `rel` that end right before a separator among its first `n` bytes, shortest
/// first.
pub open spec fn slash_prefixes(rel: Seq<u8>, n: nat) -> Seq<Seq<u8>>
    decreases n,
{
    if n == 0 || n > rel.len() {
        Seq::empty()
    } else {
        let prev = slash_prefixes(rel, (n - 1) as nat);
        if rel[n - 1] == slash() {
            prev.push(rel.take(n - 1))
        } else {
            prev
        }
    }
}

/// The directories that `rel` needs, root outward: its ancestors, and itself where the object is
/// a directory.
pub open spec fn required_dirs(rel: Seq<u8>, mode: Mode) -> Seq<Seq<u8>> {
    slash_prefixes(rel, rel.len()) + if mode.is_directory() {
        seq![rel]
    } else {
        Seq::<Seq<u8>>::empty()
    }
}

/// The paths of `ps` that are not in `known`, in order.
pub open spec fn unknown_only(ps: Seq<Seq<u8>>, known: Set<Seq<u8>>) -> Seq<Seq<u8>>
    decreases ps.len(),
{
    if ps.len() == 0 {
        Seq::empty()
    } else {
        let prev = unknown_only(ps.drop_last(), known);
        if known.contains(ps.last()) {
            prev
        } else {
            prev.push(ps.last())
        }
    }
}

/// `rel` below `root`.
pub open spec fn joined(root: Seq<u8>, rel: Seq<u8>) -> Seq<u8> {
    root + seq![slash()] + rel
}

/// Whether two byte strings are equal.
pub fn same_bytes(a: &[u8], b: &[u8]) -> (r: bool)
    ensures
        r == (a@ == b@),
{
    if a.len() != b.len() {
        return false;
    }
    let mut i: usize = 0;
    while i < a.len()
        invariant
            a@.len() == b@.len(),
            i <= a@.len(),
            a@.take(i as int) == b@.take(i as int),
        decreases a@.len() - i,
    {
        if a[i] != b[i] {
            assert(a@[i as int] != b@[i as int]);
            return false;
        }
        assert(a@.take(i as int + 1) =~= a@.take(i as int).push(a@[i as int]));
        assert(b@.take(i as int + 1) =~= b@.take(i as int).push(b@[i as int]));
        i += 1;
    }
    assert(a@.take(a@.len() as int) =~= a@);
    assert(b@.take(b@.len() as int) =~= b@);
    true
}

/// The first `n` bytes of `v`.
pub fn take_bytes(v: &[u8], n: usize) -> (r: Vec<u8>)
    requires
        n <= v@.len(),
    ensures
        r@ == v@.take(n as int),
{
    let mut r: Vec<u8> = Vec::new();
    let mut i: usize = 0;
    while i < n
        invariant
            n <= v@.len(),
            i <= n,
            r@ == v@.take(i as int),
        decreases n - i,
    {
        r.push(v[i]);
        i += 1;
        assert(r@ =~= v@.take(i as int));
    }
    r
}

/// `rel` below `root`.
pub fn join(root: &[u8], rel: &[u8]) -> (r: Vec<u8>)
    ensures
        r@ == joined(root@, rel@),
{
    let mut r = take_bytes(root, root.len());
    assert(root@.take(root@.len() as int) =~= root@);
    r.push(47u8);
    crate::write::push_all(&mut r, rel);
    assert(r@ =~= joined(root@, rel@));
    r
}

/// The policy of a cache.
#[derive(Debug, Clone, Copy)]
pub struct Options {
    /// Whether to create the directories leading to a path at all.
    pub create_directories: bool,
    /// Whether to remove a file or symlink that stands where a directory is needed.
    pub unlink_on_collision: bool,
}

impl Default for Options {
    fn default() -> (r: Self)
        ensures
            !r.create_directories,
            !r.unlink_on_collision,
    {
        Options { create_directories: false, unlink_on_collision: false }
    }
}

/// What a creation or removal that the caller carried out came to.
#[derive(Debug, Copy, Clone, PartialEq, Eq, Structural)]
pub enum Outcome {
    /// The directory did not exist and was created.
    Created,
    /// A directory stood there already (a symlink to one does not count).
    ExistsAsDirectory,
    /// Something that is not a directory stands there: a file or a symlink.
    ExistsAsOther,
    /// The colliding file or symlink was unlinked.
    Removed,
    /// Any other failure.
    Failed,
}

/// Where the walk over one needed directory stands.
#[derive(Debug, Copy, Clone, PartialEq, Eq, Structural)]
pub enum Stage {
    /// The directory is to be created.
    Create,
    /// A file or symlink collides with it and is to be removed.
    Remove,
    /// It is to be created once more, after the removal.
    Retry,
    /// The walk failed: the caller returns the error of its last creation.
    Failed,
}

/// What the caller is to do next.
pub enum Action {
    /// Create the directory at this path.
    CreateDir(Vec<u8>),
    /// Unlink the file or symlink at this path, without following it.
    Remove(Vec<u8>),
    /// All needed directories exist: this is the object's full path.
    Done(Vec<u8>),
    /// Give up with the error of the last creation.
    Fail,
}

/// The stage after `outcome` was reported in `stage`.
pub open spec fn next_stage(stage: Stage, outcome: Outcome, unlink_on_collision: bool) -> Stage {
    match stage {
        Stage::Create => match outcome {
            Outcome::Created | Outcome::ExistsAsDirectory => Stage::Create,
            Outcome::ExistsAsOther => if unlink_on_collision {
                Stage::Remove
            } else {
                Stage::Failed
            },
            _ => Stage::Failed,
        },
        Stage::Remove => if outcome == Outcome::Removed {
            Stage::Retry
        } else {
            Stage::Failed
        },
        Stage::Retry => if outcome == Outcome::Created {
            Stage::Create
        } else {
            Stage::Failed
        },
        Stage::Failed => Stage::Failed,
    }
}

/// Whether `outcome`, reported in `stage`, shows the directory to exist.
pub open spec fn confirms(stage: Stage, outcome: Outcome) -> bool {
    (stage == Stage::Create && (outcome == Outcome::Created || outcome == Outcome::ExistsAsDirectory))
        || (stage == Stage::Retry && outcome == Outcome::Created)
}

/// Whether reporting `outcome` in `stage` reports a creation attempt.
pub open spec fn is_creation(stage: Stage) -> bool {
    stage == Stage::Create || stage == Stage::Retry
}

/// The walk that makes the directories one path needs.
pub struct Walk {
    /// The path of the object, relative to the root.
    pub relative: Vec<u8>,
    /// The directories still unconfirmed when the walk began, relative to the root, root outward.
    pub targets: Vec<Vec<u8>>,
    /// How many of the targets are confirmed.
    pub pos: usize,
    /// Where the walk over the current target stands.
    pub stage: Stage,
}

impl Walk {
    /// The targets as byte strings.
    pub open spec fn target_paths(&self) -> Seq<Seq<u8>> {
        self.targets@.map_values(|t: Vec<u8>| t@)
    }

    /// The walk has not run past its targets.
    pub open spec fn wf(&self) -> bool {
        self.pos <= self.targets@.len()
    }
}

/// Makes the directories that objects to be checked out need, below a root that is assumed to
/// exist, and remembers which directories it has seen to exist.
pub struct Cache {
    /// The directory every path is relative to.
    pub root: Vec<u8>,
    /// Whether to create directories at all.
    pub create_directories: bool,
    /// Whether to remove a file or symlink that stands where a directory is needed.
    pub unlink_on_collision: bool,
    /// How many creations were reported, for inspection.
    pub test_mkdir_calls: usize,
    /// The directories, relative to the root, that were seen to exist.
    pub known: Vec<Vec<u8>>,
}

impl Cache {
    /// The directories, relative to the root, known to exist.
    pub open spec fn known(&self) -> Set<Seq<u8>> {
        Set::new(|p: Seq<u8>| exists|i: int| 0 <= i < self.known@.len() && #[trigger] self.known@[i]@ == p)
    }

    /// A cache below `root` with the policy `options`, that knows of no directory yet.
    pub fn new(root: Vec<u8>, options: Options) -> (r: Self)
        ensures
            r.root@ == root@,
            r.create_directories == options.create_directories,
            r.unlink_on_collision == options.unlink_on_collision,
            r.test_mkdir_calls == 0,
            r.known() == Set::<Seq<u8>>::empty(),
    {
        let r = Cache {
            root,
            create_directories: options.create_directories,
            unlink_on_collision: options.unlink_on_collision,
            test_mkdir_calls: 0,
            known: Vec::new(),
        };
        assert(r.known() =~= Set::<Seq<u8>>::empty());
        r
    }

    /// Whether `p` is known to exist as a directory.
    fn is_known(&self, p: &[u8]) -> (r: bool)
        ensures
            r == self.known().contains(p@),
    {
        let mut i: usize = 0;
        while i < self.known.len()
            invariant
                i <= self.known@.len(),
                forall|j: int| 0 <= j < i ==> self.known@[j]@ != p@,
            decreases self.known@.len() - i,
        {
            if same_bytes(self.known[i].as_slice(), p) {
                assert(self.known().contains(p@));
                return true;
            }
            i += 1;
        }
        assert(!self.known().contains(p@));
        false
    }

    /// The targets of a walk for `relative` with object kind `mode`.
    pub open spec fn targets_for(&self, relative: Seq<u8>, mode: Mode) -> Seq<Seq<u8>> {
        if self.create_directories {
            unknown_only(required_dirs(relative, mode), self.known())
        } else {
            Seq::empty()
        }
    }

    /// Begins the walk that makes the directories `relative` needs: the ancestors, and the path
    /// itself where `mode` is a directory kind, that are not known to exist yet. None where the
    /// policy creates no directories.
    pub fn start_walk(&self, relative: &[u8], mode: Mode) -> (w: Walk)
        ensures
            w.relative@ == relative@,
            w.target_paths() == self.targets_for(relative@, mode),
            w.pos == 0,
            w.stage == Stage::Create,
    {
        let mut targets: Vec<Vec<u8>> = Vec::new();
        if self.create_directories {
            let n = relative.len();
            let mut k: usize = 0;
            while k < n
                invariant
                    n == relative@.len(),
                    k <= n,
                    targets@.map_values(|t: Vec<u8>| t@) == unknown_only(
                        slash_prefixes(relative@, k as nat),
                        self.known(),
                    ),
                decreases n - k,
            {
                let ghost sp = slash_prefixes(relative@, k as nat);
                if relative[k] == 47u8 {
                    let prefix = take_bytes(relative, k);
                    assert(sp.push(prefix@).drop_last() =~= sp);
                    if !self.is_known(prefix.as_slice()) {
                        targets.push(prefix);
                    }
                }
                k += 1;
                assert(targets@.map_values(|t: Vec<u8>| t@) =~= unknown_only(
                    slash_prefixes(relative@, k as nat),
                    self.known(),
                ));
            }
            let ghost sp = slash_prefixes(relative@, n as nat);
            assert(sp.push(relative@).drop_last() =~= sp);
            if mode.is_dir() {
                assert(required_dirs(relative@, mode) =~= sp.push(relative@));
                let whole = take_bytes(relative, n);
                assert(relative@.take(n as int) =~= relative@);
                if !self.is_known(whole.as_slice()) {
                    targets.push(whole);
                }
            } else {
                assert(required_dirs(relative@, mode) =~= sp);
            }
            assert(targets@.map_values(|t: Vec<u8>| t@) =~= self.targets_for(relative@, mode));
        } else {
            assert(targets@.map_values(|t: Vec<u8>| t@) =~= self.targets_for(relative@, mode));
        }
        let relative = take_bytes(relative, relative.len());
        assert(relative@ =~= relative@.take(relative@.len() as int));
        Walk { relative, targets, pos: 0, stage: Stage::Create }
    }

    /// What the caller is to do next on `walk`.
    pub fn next_action(&self, walk: &Walk) -> (r: Action)
        requires
            walk.wf(),
        ensures
            walk.stage == Stage::Failed ==> r is Fail,
            walk.stage != Stage::Failed && walk.pos == walk.targets@.len() ==> (r matches Action::Done(p)
                && p@ == joined(self.root@, walk.relative@)),
            walk.stage != Stage::Failed && walk.pos < walk.targets@.len() && is_creation(walk.stage)
                ==> (r matches Action::CreateDir(p) && p@ == joined(self.root@, walk.target_paths()[walk.pos as int])),
            walk.stage == Stage::Remove && walk.pos < walk.targets@.len() ==> (r matches Action::Remove(p)
                && p@ == joined(self.root@, walk.target_paths()[walk.pos as int])),
    {
        match walk.stage {
            Stage::Failed => Action::Fail,
            stage => {
                if walk.pos == walk.targets.len() {
                    Action::Done(join(self.root.as_slice(), walk.relative.as_slice()))
                } else {
                    let p = join(self.root.as_slice(), walk.targets[walk.pos].as_slice());
                    match stage {
                        Stage::Remove => Action::Remove(p),
                        _ => Action::CreateDir(p),
                    }
                }
            },
        }
    }

    /// Takes in what the last action on `walk`, one on its current target, came to.
    pub fn record(&mut self, walk: &mut Walk, outcome: Outcome)
        requires
            old(walk).wf(),
            old(walk).pos < old(walk).targets@.len(),
            old(walk).stage != Stage::Failed,
        ensures
            final(walk).wf(),
            final(walk).relative == old(walk).relative,
            final(walk).targets == old(walk).targets,
            final(walk).stage == next_stage(old(walk).stage, outcome, old(self).unlink_on_collision),
            final(walk).pos == old(walk).pos + if confirms(old(walk).stage, outcome) { 1int } else { 0int },
            final(self).known() == if confirms(old(walk).stage, outcome) {
                old(self).known().insert(old(walk).target_paths()[old(walk).pos as int])
            } else {
                old(self).known()
            },
            final(self).test_mkdir_calls == if is_creation(old(walk).stage)
                && old(self).test_mkdir_calls < usize::MAX {
                old(self).test_mkdir_calls + 1
            } else {
                old(self).test_mkdir_calls as int
            },
            final(self).root == old(self).root,
            final(self).create_directories == old(self).create_directories,
            final(self).unlink_on_collision == old(self).unlink_on_collision,
    {
        let stage = walk.stage;
        let pos = walk.pos;
        let len = walk.targets.len();
        assert(pos < len);
        let creation = match stage {
            Stage::Create | Stage::Retry => true,
            _ => false,
        };
        if creation && self.test_mkdir_calls < usize::MAX {
            self.test_mkdir_calls = self.test_mkdir_calls + 1;
        }
        let confirmed = match (stage, outcome) {
            (Stage::Create, Outcome::Created) => true,
            (Stage::Create, Outcome::ExistsAsDirectory) => true,
            (Stage::Retry, Outcome::Created) => true,
            _ => false,
        };
        let next = match stage {
            Stage::Create => match outcome {
                Outcome::Created | Outcome::ExistsAsDirectory => Stage::Create,
                Outcome::ExistsAsOther => if self.unlink_on_collision {
                    Stage::Remove
                } else {
                    Stage::Failed
                },
                _ => Stage::Failed,
            },
            Stage::Remove => match outcome {
                Outcome::Removed => Stage::Retry,
                _ => Stage::Failed,
            },
            Stage::Retry => match outcome {
                Outcome::Created => Stage::Create,
                _ => Stage::Failed,
            },
            Stage::Failed => Stage::Failed,
        };
        if confirmed {
            let ghost old_known = self.known();
            let t = take_bytes(walk.targets[walk.pos].as_slice(), walk.targets[walk.pos].len());
            let ghost tp = walk.target_paths()[walk.pos as int];
            assert(t@ =~= tp);
            self.known.push(t);
            assert forall|p: Seq<u8>| self.known().contains(p) == old_known.insert(tp).contains(p) by {
                if p == tp {
                    assert(self.known@[self.known@.len() - 1]@ == p);
                }
                if old_known.contains(p) {
                    let i = choose|i: int| 0 <= i < old(self).known@.len() && #[trigger] old(self).known@[i]@ == p;
                    assert(self.known@[i]@ == p);
                }
            }
            assert(self.known() =~= old_known.insert(tp));
            walk.pos = pos + 1;
        }
        walk.stage = next;
    }
}

/// A path without separators has no ancestor below the root.
proof fn lemma_no_slash_no_prefix(rel: Seq<u8>, n: nat)
    requires
        forall|i: int| 0 <= i < rel.len() ==> rel[i] != slash(),
    ensures
        slash_prefixes(rel, n).len() == 0,
    decreases n,
{
    if n > 0 {
        lemma_no_slash_no_prefix(rel, (n - 1) as nat);
    }
}

/// An object at the top level that is not itself a directory needs no directory: its walk has
/// no target, so no creation is asked for, and the root itself is never created.
pub proof fn lemma_top_level_leaf_needs_no_directory(cache: Cache, relative: Seq<u8>, mode: Mode)
    requires
        forall|i: int| 0 <= i < relative.len() ==> relative[i] != slash(),
        !mode.is_directory(),
    ensures
        cache.targets_for(relative, mode).len() == 0,
{
    lemma_no_slash_no_prefix(relative, relative.len());
    assert(required_dirs(relative, mode) =~= Seq::<Seq<u8>>::empty());
}

/// A walk only targets needed directories that are not known to exist: a directory once
/// confirmed is never probed again by the same cache.
pub proof fn lemma_known_directories_are_skipped(ps: Seq<Seq<u8>>, known: Set<Seq<u8>>)
    ensures
        forall|i: int| 0 <= i < unknown_only(ps, known).len()
            ==> !known.contains(#[trigger] unknown_only(ps, known)[i]) && ps.contains(unknown_only(ps, known)[i]),
    decreases ps.len(),
{
    if ps.len() > 0 {
        let prev = ps.drop_last();
        lemma_known_directories_are_skipped(prev, known);
        let u = unknown_only(ps, known);
        assert forall|i: int| 0 <= i < u.len() implies !known.contains(#[trigger] u[i]) && ps.contains(u[i]) by {
            if i < unknown_only(prev, known).len() {
                let j = choose|j: int| 0 <= j < prev.len() && prev[j] == unknown_only(prev, known)[i];
                assert(ps[j] == u[i]);
            } else {
                assert(ps[ps.len() - 1] == u[i]);
            }
        }
    }
}

/// A file or symlink where a directory is needed ends the walk after one creation attempt when
/// removal is off. When it is on, the entry is removed and creation is tried exactly once more:
/// anything but a creation then ends the walk.
pub proof fn lemma_collision_is_retried_once(unlink_on_collision: bool, outcome: Outcome)
    ensures
        next_stage(Stage::Create, Outcome::ExistsAsOther, false) == Stage::Failed,
        next_stage(Stage::Create, Outcome::ExistsAsOther, true) == Stage::Remove,
        next_stage(Stage::Remove, Outcome::Removed, unlink_on_collision) == Stage::Retry,
        !is_creation(Stage::Remove) && is_creation(Stage::Retry),
        outcome != Outcome::Created ==> next_stage(Stage::Retry, outcome, unlink_on_collision)
            == Stage::Failed,
        next_stage(Stage::Failed, outcome, unlink_on_collision) == Stage::Failed,
{
}

} // verus!
