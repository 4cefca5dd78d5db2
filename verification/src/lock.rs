//! The per-run file lock that serialises read-modify-write cycles.
//!
//! A lock is published by a hard link, so exactly one contender wins. The file
//! operations are the caller's; what each of them means is decided here. A
//! lock that could not be had is never a lock: it comes out as nothing at all
//! or as an error.

use vstd::prelude::*;

use crate::gatelog;
use crate::gatelog::join_path;
use crate::text;
use crate::text::owned;
use crate::verdict::Determination;

verus! {

/// The run id that keys the one lock on a repository's primary checkout.
pub const REPO_PRIMARY_LOCK_KEY: &'static str = "__repo_primary__";

/// A guard on a lock file. It is held or it is the record of a failure.
#[derive(Debug)]
pub struct RunLock {
    path: Option<String>,
}

/// What came of one attempt to publish a lock.
#[derive(Debug)]
pub enum Attempt {
    /// The link was made: the lock is ours.
    Published,
    /// Somebody else's lock is in the way.
    Occupied {
        /// Whether its owner is alive, where the lock says who that is.
        owner_alive: Option<Determination<bool>>,
        /// The time to wait for it is over.
        expired: bool,
    },
    /// The link could not be made for another reason.
    Failed,
}

/// What to do after an attempt.
#[derive(Debug, Clone, Copy, PartialEq, Eq, Structural)]
pub enum Step {
    /// The lock is held.
    Hold,
    /// Remove the lock of a dead owner and try again at once.
    Reap,
    /// Wait a little and try again.
    Wait,
    /// Give up without a lock.
    GiveUp,
}

/// The lock's owner is positively known to be dead.
pub open spec fn owner_is_dead(owner_alive: Option<Determination<bool>>) -> bool {
    owner_alive matches Some(d) && d == Determination::Known(false)
}

/// What follows an attempt. Only the lock of an owner that is known to be dead
/// is reaped: an owner whose state cannot be found out is waited for like a
/// live one.
pub open spec fn follows(attempt: Attempt) -> Step {
    match attempt {
        Attempt::Published => Step::Hold,
        Attempt::Occupied { owner_alive, expired } => if owner_is_dead(owner_alive) {
            Step::Reap
        } else if expired {
            Step::GiveUp
        } else {
            Step::Wait
        },
        Attempt::Failed => Step::GiveUp,
    }
}

/// What to do after an attempt to publish a lock.
pub fn acquire_step(attempt: &Attempt) -> (r: Step)
    ensures
        r == follows(*attempt),
{
    match attempt {
        Attempt::Published => Step::Hold,
        Attempt::Occupied { owner_alive, expired } => {
            let dead = match owner_alive {
                Some(Determination::Known(alive)) => !*alive,
                _ => false,
            };
            if dead {
                Step::Reap
            } else if *expired {
                Step::GiveUp
            } else {
                Step::Wait
            }
        },
        Attempt::Failed => Step::GiveUp,
    }
}

/// Where a series of attempts ends: the first that is not tried again. A series
/// that is cut off before that ends without a lock.
pub open spec fn series_ends(attempts: Seq<Attempt>) -> Step
    decreases attempts.len(),
{
    if attempts.len() == 0 {
        Step::GiveUp
    } else if follows(attempts[0]) == Step::Hold || follows(attempts[0]) == Step::GiveUp {
        follows(attempts[0])
    } else {
        series_ends(attempts.drop_first())
    }
}

impl RunLock {
    /// The lock file is ours.
    pub closed spec fn is_held(&self) -> bool {
        self.path is Some
    }

    /// The file that is locked.
    pub closed spec fn file(&self) -> Option<Seq<char>> {
        text::opt(self.path)
    }

    /// Whether this guard holds its lock.
    pub fn held(&self) -> (r: bool)
        ensures
            r == self.is_held(),
    {
        self.path.is_some()
    }

    /// The guard that a series of attempts at `path` ends with.
    pub fn acquire_at(path: &str, attempts: &Vec<Attempt>) -> (r: RunLock)
        ensures
            r.is_held() == (series_ends(attempts@) == Step::Hold),
            r.is_held() ==> r.file() == Some(path@),
    {
        let mut i: usize = 0;
        assert(attempts@.skip(0) =~= attempts@);
        while i < attempts.len()
            invariant
                i <= attempts@.len(),
                series_ends(attempts@) == series_ends(attempts@.skip(i as int)),
            decreases attempts@.len() - i,
        {
            assert(attempts@.skip(i as int)[0] == attempts@[i as int]);
            assert(attempts@.skip(i as int).drop_first() =~= attempts@.skip(i as int + 1));
            match acquire_step(&attempts[i]) {
                Step::Hold => {
                    return RunLock { path: Some(owned(path)) };
                },
                Step::GiveUp => {
                    return RunLock { path: None };
                },
                _ => {},
            }
            i += 1;
        }
        RunLock { path: None }
    }

    /// The guard that a series of attempts at `path` ends with, if it holds the
    /// lock. A guard that does not is never handed out.
    pub fn acquire_or_skip(path: &str, attempts: &Vec<Attempt>) -> (r: Option<RunLock>)
        ensures
            r is Some <==> series_ends(attempts@) == Step::Hold,
            r matches Some(guard) ==> guard.is_held() && guard.file() == Some(path@),
    {
        let guard = RunLock::acquire_at(path, attempts);
        if guard.held() {
            Some(guard)
        } else {
            None
        }
    }
}

/// The file name of the lock of a run, whose id is already safe as a file name.
pub fn lock_file_name(safe_run_id: &str) -> (r: String)
    ensures
        r@ == safe_run_id@ + ".lock"@,
{
    let mut r = owned(safe_run_id);
    r.push_str(".lock");
    r
}

/// The lock file of a run of a project: in the directory of the project, which
/// lies in `state_dir` under the project's key.
pub open spec fn lock_file_of(
    state_dir: Seq<char>,
    project_key: Seq<char>,
    safe_run_id: Seq<char>,
) -> Seq<char> {
    gatelog::path_in(gatelog::path_in(state_dir, project_key), safe_run_id + ".lock"@)
}

/// The path of the lock file of a run of a project. The run id is already safe as
/// a file name.
pub fn lock_path_in_project(state_dir: &str, project_key: &str, safe_run_id: &str) -> (r: String)
    ensures
        r@ == lock_file_of(state_dir@, project_key@, safe_run_id@),
{
    let dir = join_path(state_dir, project_key);
    let name = lock_file_name(safe_run_id);
    join_path(dir.as_str(), name.as_str())
}

/// The one lock file of the repository whose project key is `project_key`.
pub open spec fn repo_primary_file(state_dir: Seq<char>, project_key: Seq<char>) -> Seq<char> {
    lock_file_of(state_dir, project_key, REPO_PRIMARY_LOCK_KEY@)
}

/// `key_of` gives every root the project key that `keyed` says.
pub open spec fn keys_by_root<K: Fn(&str) -> String>(
    key_of: K,
    keyed: spec_fn(Seq<char>) -> Seq<char>,
) -> bool {
    forall|root: &str, key: String| #[trigger]
        call_ensures(key_of, (root,), key) ==> key@ == keyed(root@)
}

/// `file` is the one lock file of the repository with the main worktree `root`,
/// under a project key that `key_of` may give that root.
pub open spec fn is_primary_file<K: Fn(&str) -> String>(
    key_of: K,
    state_dir: Seq<char>,
    root: Seq<char>,
    file: Seq<char>,
) -> bool {
    exists|at: &str, key: String| #[trigger]
        call_ensures(key_of, (at,), key) && at@ == root && file == repo_primary_file(
            state_dir,
            key@,
        )
}

/// The path of the one lock file of the repository with the main worktree
/// `root`. `key_of` gives a root its project key.
pub fn repo_primary_path<K: Fn(&str) -> String>(state_dir: &str, root: &str, key_of: &K) -> (r:
    String)
    requires
        forall|at: &str| call_requires(*key_of, (at,)),
    ensures
        is_primary_file(*key_of, state_dir@, root@, r@),
        forall|keyed: spec_fn(Seq<char>) -> Seq<char>| #[trigger]
            keys_by_root(*key_of, keyed) ==> r@ == repo_primary_file(state_dir@, keyed(root@)),
{
    let key = key_of(root);
    lock_path_in_project(state_dir, key.as_str(), REPO_PRIMARY_LOCK_KEY)
}

/// Why the lock on the primary checkout was refused where its place is unknown.
pub open spec fn no_root_text(cwd: Seq<char>, why: Seq<char>) -> Seq<char> {
    "could not determine the main worktree root for "@ + cwd + " ("@ + why
        + "); refusing to mutate the primary repo unlocked, because the one lock file every checkout of this repo must contend cannot be addressed (falling back to a per-checkout path would publish a lock no peer contends)"@
}

/// Why the lock on the primary checkout was refused where it could not be had.
pub open spec fn not_acquired_text(cwd: Seq<char>, root: Seq<char>) -> Seq<char> {
    "could not acquire the repo-primary lock for "@ + cwd + " (main worktree root "@ + root
        + ") within 10s; refusing to mutate the primary repo unlocked (a concurrent condukt execution could be merging, committing into the shared index, or pruning worktrees at the same time)"@
}

/// The lock on the primary checkout of the repository that `cwd` lies in, or
/// why it is refused. `root` is the main worktree of that repository, `key_of`
/// gives a root its project key, and `attempts` is what came of the attempts at
/// the lock file that [`repo_primary_path`] names: the one that every checkout of
/// the repository contends, wherever `cwd` lies in it.
pub fn acquire_repo_primary<K: Fn(&str) -> String>(
    state_dir: &str,
    cwd: &str,
    root: &Determination<String>,
    key_of: &K,
    attempts: &Vec<Attempt>,
) -> (r: Result<RunLock, String>)
    requires
        forall|at: &str| call_requires(*key_of, (at,)),
    ensures
        r is Ok <==> root is Known && series_ends(attempts@) == Step::Hold,
        r matches Ok(guard) ==> guard.is_held() && guard.file() is Some && is_primary_file(
            *key_of,
            state_dir@,
            root->Known_0@,
            guard.file()->0,
        ),
        r matches Ok(guard) ==> forall|keyed: spec_fn(Seq<char>) -> Seq<char>| #[trigger]
            keys_by_root(*key_of, keyed) ==> guard.file() == Some(
                repo_primary_file(state_dir@, keyed(root->Known_0@)),
            ),
        r matches Err(why) ==> why@ == (match *root {
            Determination::Undetermined(reason) => no_root_text(cwd@, reason@),
            Determination::Known(at) => not_acquired_text(cwd@, at@),
        }),
{
    match root {
        Determination::Undetermined(reason) => {
            let mut why = owned("could not determine the main worktree root for ");
            why.push_str(cwd);
            why.push_str(" (");
            why.push_str(reason.as_str());
            why.push_str(
                "); refusing to mutate the primary repo unlocked, because the one lock file every checkout of this repo must contend cannot be addressed (falling back to a per-checkout path would publish a lock no peer contends)",
            );
            Err(why)
        },
        Determination::Known(at) => {
            let path = repo_primary_path(state_dir, at.as_str(), key_of);
            match RunLock::acquire_or_skip(path.as_str(), attempts) {
                Some(guard) => Ok(guard),
                None => {
                    let mut why = owned("could not acquire the repo-primary lock for ");
                    why.push_str(cwd);
                    why.push_str(" (main worktree root ");
                    why.push_str(at.as_str());
                    why.push_str(
                        ") within 10s; refusing to mutate the primary repo unlocked (a concurrent condukt execution could be merging, committing into the shared index, or pruning worktrees at the same time)",
                    );
                    Err(why)
                },
            }
        },
    }
}

// ---- laws ----------------------------------------------------------------

/// What a file name is preceded by in `path_in`.
spec fn lead(dir: Seq<char>) -> Seq<char> {
    if dir.len() == 0 || dir.last() == '/' {
        dir
    } else {
        dir + "/"@
    }
}

proof fn lemma_lead(dir: Seq<char>, name: Seq<char>)
    ensures
        gatelog::path_in(dir, name) == lead(dir) + name,
{
    assert(gatelog::path_in(dir, name) =~= lead(dir) + name);
}

/// A text without a slash.
pub open spec fn is_plain_name(s: Seq<char>) -> bool {
    s.len() > 0 && forall|i: int| 0 <= i < s.len() ==> #[trigger] s[i] != '/'
}

/// The lock file says which project and which run it belongs to: unrelated runs
/// and unrelated projects never share one, and no run shares the one of the
/// primary checkout unless it bears its reserved name.
pub proof fn lock_files_are_told_apart(
    state_dir: Seq<char>,
    key: Seq<char>,
    other_key: Seq<char>,
    id: Seq<char>,
    other_id: Seq<char>,
)
    requires
        is_plain_name(key),
        is_plain_name(other_key),
        is_plain_name(id),
        is_plain_name(other_id),
        lock_file_of(state_dir, key, id) == lock_file_of(state_dir, other_key, other_id),
    ensures
        key == other_key,
        id == other_id,
{
    reveal_strlit("/");
    reveal_strlit(".lock");
    let a = lead(state_dir);
    lemma_lead(state_dir, key);
    lemma_lead(state_dir, other_key);
    lemma_lead(gatelog::path_in(state_dir, key), id + ".lock"@);
    lemma_lead(gatelog::path_in(state_dir, other_key), other_id + ".lock"@);
    let one = a + key + "/"@ + id + ".lock"@;
    let two = a + other_key + "/"@ + other_id + ".lock"@;
    assert((a + key).last() == key.last() && (a + other_key).last() == other_key.last());
    assert(lock_file_of(state_dir, key, id) =~= one);
    assert(lock_file_of(state_dir, other_key, other_id) =~= two);
    let i = (a.len() + key.len()) as int;
    let j = (a.len() + other_key.len()) as int;
    assert(one[i] == '/');
    assert(two[j] == '/');
    if i < j {
        lemma_no_later_slash(a + key, id, j);
    } else if j < i {
        lemma_no_later_slash(a + other_key, other_id, i);
    }
    assert(key =~= one.subrange(a.len() as int, i));
    assert(other_key =~= two.subrange(a.len() as int, j));
    assert(id =~= one.subrange(i + 1, one.len() - 5));
    assert(other_id =~= two.subrange(j + 1, two.len() - 5));
}

proof fn lemma_no_later_slash(dir: Seq<char>, id: Seq<char>, k: int)
    requires
        is_plain_name(id),
        dir.len() < k < (dir + "/"@ + id + ".lock"@).len(),
    ensures
        (dir + "/"@ + id + ".lock"@)[k] != '/',
{
    reveal_strlit("/");
    reveal_strlit(".lock");
    let whole = dir + "/"@ + id + ".lock"@;
    if k <= dir.len() + id.len() {
        assert(whole[k] == id[k - dir.len() - 1]);
    } else {
        assert(whole[k] == ".lock"@[k - dir.len() - 1 - id.len()]);
    }
}

/// A lock is taken from its owner only where the owner is known to be dead.
pub proof fn only_a_dead_owner_is_reaped(attempt: Attempt)
    ensures
        follows(attempt) == Step::Reap ==> attempt is Occupied && owner_is_dead(
            attempt->owner_alive,
        ),
        attempt matches Attempt::Occupied { owner_alive: Some(d), .. } && d is Undetermined
            ==> follows(attempt) != Step::Reap,
{
}

/// A lock is held only through an attempt that published it.
pub proof fn a_held_lock_was_published(attempts: Seq<Attempt>)
    requires
        series_ends(attempts) == Step::Hold,
    ensures
        exists|i: int| 0 <= i < attempts.len() && #[trigger] attempts[i] is Published,
    decreases attempts.len(),
{
    if follows(attempts[0]) != Step::Hold {
        a_held_lock_was_published(attempts.drop_first());
        let i = choose|i: int|
            0 <= i < attempts.drop_first().len() && #[trigger] attempts.drop_first()[i]
                is Published;
        assert(attempts[i + 1] is Published);
    } else {
        assert(attempts[0] is Published);
    }
}

/// Each attempt has one step: a published file is held; a lock whose owner is
/// known to be dead is reaped, though the time is up; one that is occupied
/// otherwise is waited for until the time is up; and what failed is given up.
pub proof fn every_attempt_has_its_step(attempt: Attempt)
    ensures
        follows(attempt) == Step::Hold <==> attempt is Published,
        attempt is Failed ==> follows(attempt) == Step::GiveUp,
        attempt matches Attempt::Occupied { owner_alive, expired } ==> {
            let dead = owner_alive is Some && owner_alive->0 == Determination::Known(false);
            &&& dead ==> follows(attempt) == Step::Reap
            &&& !dead && expired ==> follows(attempt) == Step::GiveUp
            &&& !dead && !expired ==> follows(attempt) == Step::Wait
        },
        follows(attempt) == Step::Reap || follows(attempt) == Step::Wait ==> attempt is Occupied,
{
}

/// A series of attempts holds the lock exactly where one of them published it and
/// all before it were occupied and gone on from; otherwise it gives up.
pub proof fn a_series_holds_what_it_published(attempts: Seq<Attempt>)
    ensures
        series_ends(attempts) == Step::Hold || series_ends(attempts) == Step::GiveUp,
        series_ends(attempts) == Step::Hold <==> exists|i: int|
            0 <= i < attempts.len() && #[trigger] attempts[i] is Published && forall|j: int|
                0 <= j < i ==> follows(#[trigger] attempts[j]) == Step::Reap || follows(attempts[j])
                    == Step::Wait,
    decreases attempts.len(),
{
    if attempts.len() > 0 {
        let rest = attempts.drop_first();
        a_series_holds_what_it_published(rest);
        assert(forall|i: int| 0 <= i < rest.len() ==> #[trigger] rest[i] == attempts[i + 1]);
        let first = follows(attempts[0]);
        if first == Step::Hold {
            assert(attempts[0] is Published);
        } else if first == Step::GiveUp {
            assert forall|i: int| 0 <= i < attempts.len() && #[trigger] attempts[i] is Published
                implies !(forall|j: int|
                0 <= j < i ==> follows(#[trigger] attempts[j]) == Step::Reap || follows(attempts[j])
                    == Step::Wait) by {
                if i == 0 {
                    assert(follows(attempts[0]) == Step::Hold);
                } else {
                    assert(follows(attempts[0]) == Step::GiveUp);
                }
            }
        } else {
            if series_ends(rest) == Step::Hold {
                let i = choose|i: int|
                    0 <= i < rest.len() && #[trigger] rest[i] is Published && forall|j: int|
                        0 <= j < i ==> follows(#[trigger] rest[j]) == Step::Reap || follows(rest[j])
                            == Step::Wait;
                assert(attempts[i + 1] is Published);
                assert forall|j: int| 0 <= j < i + 1 implies follows(#[trigger] attempts[j])
                    == Step::Reap || follows(attempts[j]) == Step::Wait by {
                    if j > 0 {
                        assert(rest[j - 1] == attempts[j]);
                    }
                }
            }
            if exists|i: int|
                0 <= i < attempts.len() && #[trigger] attempts[i] is Published && forall|j: int|
                    0 <= j < i ==> follows(#[trigger] attempts[j]) == Step::Reap || follows(
                        attempts[j],
                    ) == Step::Wait {
                let i = choose|i: int|
                    0 <= i < attempts.len() && #[trigger] attempts[i] is Published && forall|
                        j: int,
                    |
                        0 <= j < i ==> follows(#[trigger] attempts[j]) == Step::Reap || follows(
                            attempts[j],
                        ) == Step::Wait;
                assert(i > 0);
                assert(rest[i - 1] is Published);
                assert forall|j: int| 0 <= j < i - 1 implies follows(#[trigger] rest[j])
                    == Step::Reap || follows(rest[j]) == Step::Wait by {
                    assert(rest[j] == attempts[j + 1]);
                }
            }
        }
    }
}

/// The lock of the primary tree is one file for each repository: the same for the
/// same key, and another for another.
pub proof fn the_primary_lock_is_one_for_each_repository(
    state_dir: Seq<char>,
    key: Seq<char>,
    other: Seq<char>,
)
    requires
        is_plain_name(key),
        is_plain_name(other),
    ensures
        repo_primary_file(state_dir, key) == repo_primary_file(state_dir, other) <==> key == other,
        repo_primary_file(state_dir, key) == lock_file_of(
            state_dir,
            key,
            "__repo_primary__"@,
        ),
{
    reveal_strlit("__repo_primary__");
    let id = REPO_PRIMARY_LOCK_KEY@;
    assert(is_plain_name(id)) by {
        assert forall|i: int| 0 <= i < id.len() implies #[trigger] id[i] != '/' by {
            assert(id == "__repo_primary__"@);
        }
    }
    if repo_primary_file(state_dir, key) == repo_primary_file(state_dir, other) {
        lock_files_are_told_apart(state_dir, key, other, id, id);
    }
}

/// The file of a lock is named by its run, in the directory of its project.
pub proof fn a_lock_file_is_named_by_its_run(
    state_dir: Seq<char>,
    project_key: Seq<char>,
    id: Seq<char>,
)
    ensures
        ({
            let file = lock_file_of(state_dir, project_key, id);
            file.skip(file.len() - id.len() - 5) == id + ".lock"@
        }),
{
    reveal_strlit(".lock");
    let file = lock_file_of(state_dir, project_key, id);
    assert(file.skip(file.len() - id.len() - 5) =~= id + ".lock"@);
}

/// Where the keys go by the root alone, the file that is found is the one of the
/// key of the root.
pub proof fn the_root_decides_the_file<K: Fn(&str) -> String>(
    key_of: K,
    keyed: spec_fn(Seq<char>) -> Seq<char>,
    state_dir: Seq<char>,
    root: Seq<char>,
    file: Seq<char>,
)
    requires
        keys_by_root(key_of, keyed),
        is_primary_file(key_of, state_dir, root, file),
    ensures
        file == repo_primary_file(state_dir, keyed(root)),
{
}

} // verus!
