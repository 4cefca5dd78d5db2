//! The claim registry: which run is working on which files and tasks.
//!
//! A run claims what it is about to touch and skips what another live run holds.
//! A claim is kept alive by its heartbeat. One whose heartbeat lapsed is taken
//! away only where its run is positively known to have stalled.

use vstd::prelude::*;

use crate::json;
use crate::json::{Json, JsonView};
use crate::lock::RunLock;
use crate::text;
use crate::text::{copy_opt, is_before, lists, owned, owned_opt, same};
use crate::verdict::Determination;

verus! {

/// The run id that keys the registry's own lock.
pub const CLAIMS_LOCK_KEY: &'static str = "__claims__";

/// The holder named where the registry's lock could not be had.
pub const LOCK_CONTENDED_HOLDER: &'static str = "__lock_contended__";

/// Whether a run is getting on.
#[derive(Debug, Clone, Copy, PartialEq, Eq, Structural)]
pub enum Liveness {
    Progressing,
    Stalled,
}

/// One live occupancy of a file or a task by a run.
#[derive(Debug)]
pub struct Claim {
    pub run_id: String,
    pub session_id: Option<String>,
    pub pid: u32,
    /// When this run first claimed it, in seconds.
    pub claimed_at: i64,
    /// When the claim was last refreshed, in seconds.
    pub heartbeat_at: i64,
    /// The title of a claimed task.
    pub title: Option<String>,
}

pub struct ClaimView {
    pub run_id: Seq<char>,
    pub session_id: Option<Seq<char>>,
    pub pid: u32,
    pub claimed_at: i64,
    pub heartbeat_at: i64,
    pub title: Option<Seq<char>>,
}

impl View for Claim {
    type V = ClaimView;

    open spec fn view(&self) -> ClaimView {
        ClaimView {
            run_id: self.run_id@,
            session_id: text::opt(self.session_id),
            pid: self.pid,
            claimed_at: self.claimed_at,
            heartbeat_at: self.heartbeat_at,
            title: text::opt(self.title),
        }
    }
}

impl Clone for Claim {
    fn clone(&self) -> (r: Claim)
        ensures
            r@ == self@,
    {
        Claim {
            run_id: self.run_id.clone(),
            session_id: copy_opt(&self.session_id),
            pid: self.pid,
            claimed_at: self.claimed_at,
            heartbeat_at: self.heartbeat_at,
            title: copy_opt(&self.title),
        }
    }
}

// ---- a table of claims ---------------------------------------------------

/// What a run holds, under the name of what is held.
#[derive(Debug)]
pub struct Entry {
    pub key: String,
    pub claim: Claim,
}

/// Claims by name, in dictionary order, each name once.
#[derive(Debug)]
pub struct Table {
    entries: Vec<Entry>,
}

impl View for Table {
    type V = Map<Seq<char>, ClaimView>;

    closed spec fn view(&self) -> Map<Seq<char>, ClaimView> {
        Map::new(|k: Seq<char>| self.has(k), |k: Seq<char>| self.entries@[self.at(k)].claim@)
    }
}

impl Table {
    spec fn has(&self, k: Seq<char>) -> bool {
        exists|i: int| 0 <= i < self.entries@.len() && #[trigger] self.entries@[i].key@ == k
    }

    spec fn at(&self, k: Seq<char>) -> int {
        choose|i: int| 0 <= i < self.entries@.len() && #[trigger] self.entries@[i].key@ == k
    }

    /// The names stand in dictionary order, each once.
    pub closed spec fn wf(&self) -> bool {
        forall|i: int, j: int|
            0 <= i < j < self.entries@.len() ==> text::precedes(
                (#[trigger] self.entries@[i]).key@,
                (#[trigger] self.entries@[j]).key@,
            )
    }

    spec fn names(&self) -> Seq<Seq<char>> {
        Seq::new(self.entries@.len(), |i: int| self.entries@[i].key@)
    }

    proof fn lemma_view(&self)
        requires
            self.wf(),
        ensures
            forall|i: int|
                0 <= i < self.entries@.len() ==> self@.contains_key(
                    (#[trigger] self.entries@[i]).key@,
                ) && self@[self.entries@[i].key@] == self.entries@[i].claim@,
            forall|k: Seq<char>| #[trigger]
                self@.contains_key(k) ==> 0 <= self.at(k) < self.entries@.len()
                    && self.entries@[self.at(k)].key@ == k && self@[k] == self.entries@[self.at(
                    k,
                )].claim@,
            self@.dom().finite(),
            self@.dom().len() == self.entries@.len(),
    {
        assert forall|i: int| 0 <= i < self.entries@.len() implies self@.contains_key(
            (#[trigger] self.entries@[i]).key@,
        ) && self@[self.entries@[i].key@] == self.entries@[i].claim@ by {
            let k = self.entries@[i].key@;
            let j = self.at(k);
            assert(self.has(k));
            if i < j {
                text::lemma_precedes_antisymmetric(self.entries@[i].key@, self.entries@[j].key@);
            }
            if j < i {
                text::lemma_precedes_antisymmetric(self.entries@[j].key@, self.entries@[i].key@);
            }
        }
        let names = self.names();
        assert forall|i: int, j: int| 0 <= i < j < names.len() implies names[i] != names[j] by {
            text::lemma_precedes_antisymmetric(self.entries@[i].key@, self.entries@[j].key@);
        }
        names.unique_seq_to_set();
        assert forall|k: Seq<char>| names.to_set().contains(k) <==> self@.dom().contains(k) by {
            if names.contains(k) {
                let i = choose|i: int| 0 <= i < names.len() && names[i] == k;
                assert(self.entries@[i].key@ == k);
            }
            if self.has(k) {
                assert(names[self.at(k)] == k);
            }
        }
        assert(names.to_set() =~= self@.dom());
        vstd::seq_lib::seq_to_set_is_finite(names);
    }

    /// An empty table.
    pub fn new() -> (t: Table)
        ensures
            t.wf(),
            t@ == Map::<Seq<char>, ClaimView>::empty(),
    {
        let t = Table { entries: Vec::new() };
        assert(t@ =~= Map::<Seq<char>, ClaimView>::empty());
        t
    }

    /// How many claims there are.
    pub fn len(&self) -> (n: usize)
        requires
            self.wf(),
        ensures
            n == self@.dom().len(),
            self@.dom().finite(),
    {
        proof {
            self.lemma_view();
        }
        self.entries.len()
    }

    /// Where `key` stands, or where it would stand.
    fn find(&self, key: &str) -> (r: (usize, bool))
        requires
            self.wf(),
        ensures
            r.0 <= self.entries@.len(),
            r.1 == self@.contains_key(key@),
            r.1 ==> r.0 < self.entries@.len() && self.entries@[r.0 as int].key@ == key@
                && self@[key@] == self.entries@[r.0 as int].claim@,
            !r.1 ==> (forall|j: int|
                0 <= j < r.0 ==> text::precedes((#[trigger] self.entries@[j]).key@, key@)),
            !r.1 ==> (forall|j: int|
                r.0 <= j < self.entries@.len() ==> text::precedes(
                    key@,
                    (#[trigger] self.entries@[j]).key@,
                )),
    {
        proof {
            self.lemma_view();
        }
        let mut i: usize = 0;
        while i < self.entries.len() && is_before(self.entries[i].key.as_str(), key)
            invariant
                i <= self.entries@.len(),
                forall|j: int|
                    0 <= j < i ==> text::precedes((#[trigger] self.entries@[j]).key@, key@),
            decreases self.entries@.len() - i,
        {
            i += 1;
        }
        let found = i < self.entries.len() && same(&self.entries[i].key, key);
        proof {
            if !found {
                assert forall|j: int| i <= j < self.entries@.len() implies text::precedes(
                    key@,
                    (#[trigger] self.entries@[j]).key@,
                ) by {
                    text::lemma_precedes_total(self.entries@[i as int].key@, key@);
                    if i < j {
                        text::lemma_precedes_transitive(
                            key@,
                            self.entries@[i as int].key@,
                            self.entries@[j].key@,
                        );
                    }
                }
                if self@.contains_key(key@) {
                    let j = self.at(key@);
                    text::lemma_precedes_irreflexive(key@);
                    assert(self.entries@[j].key@ == key@);
                }
            }
        }
        (i, found)
    }

    /// The claim under `key`.
    pub fn get(&self, key: &str) -> (r: Option<&Claim>)
        requires
            self.wf(),
        ensures
            r is Some <==> self@.contains_key(key@),
            r matches Some(c) ==> c@ == self@[key@],
    {
        let (i, found) = self.find(key);
        if found {
            Some(&self.entries[i].claim)
        } else {
            None
        }
    }

    /// The names in the table, in dictionary order.
    pub fn keys(&self) -> (r: Vec<String>)
        requires
            self.wf(),
        ensures
            forall|k: Seq<char>| #[trigger]
                text::texts(r@).contains(k) <==> self@.contains_key(k),
            forall|i: int, j: int|
                0 <= i < j < r@.len() ==> text::precedes(
                    (#[trigger] r@[i])@,
                    (#[trigger] r@[j])@,
                ),
    {
        let mut out: Vec<String> = Vec::new();
        let mut i: usize = 0;
        while i < self.entries.len()
            invariant
                i <= self.entries@.len(),
                out@.len() == i,
                forall|j: int| 0 <= j < i ==> (#[trigger] out@[j])@ == self.entries@[j].key@,
            decreases self.entries@.len() - i,
        {
            out.push(self.entries[i].key.clone());
            i += 1;
        }
        proof {
            self.lemma_view();
            let names = text::texts(out@);
            assert forall|k: Seq<char>| #[trigger] names.contains(k) <==> self@.contains_key(
                k,
            ) by {
                if names.contains(k) {
                    let j = choose|j: int| 0 <= j < names.len() && names[j] == k;
                    assert(out@[j]@ == k);
                    assert(self.entries@[j].key@ == k);
                }
                if self@.contains_key(k) {
                    let j = self.at(k);
                    assert(out@[j]@ == k);
                    assert(names[j] == k);
                }
            }
            assert forall|x: int, y: int| 0 <= x < y < out@.len() implies text::precedes(
                (#[trigger] out@[x])@,
                (#[trigger] out@[y])@,
            ) by {
                assert(text::precedes(self.entries@[x].key@, self.entries@[y].key@));
            }
        }
        out
    }

    /// Puts a claim under `key`, in place of the one that may be there.
    pub fn insert(&mut self, key: &str, claim: Claim)
        requires
            old(self).wf(),
        ensures
            final(self).wf(),
            final(self)@ == old(self)@.insert(key@, claim@),
    {
        let (i, found) = self.find(key);
        let ghost before = *self;
        let ghost c = claim@;
        let entry = Entry { key: owned(key), claim };
        if found {
            self.entries.set(i, entry);
        } else {
            self.entries.insert(i, entry);
        }
        proof {
            before.lemma_view();
            let s = self.entries@;
            let o = before.entries@;
            if found {
                assert forall|x: int, y: int| 0 <= x < y < s.len() implies text::precedes(
                    (#[trigger] s[x]).key@,
                    (#[trigger] s[y]).key@,
                ) by {
                    assert(text::precedes(o[x].key@, o[y].key@));
                }
            } else {
                assert forall|x: int, y: int| 0 <= x < y < s.len() implies text::precedes(
                    (#[trigger] s[x]).key@,
                    (#[trigger] s[y]).key@,
                ) by {
                    let ox = if x < i { x } else { x - 1 };
                    let oy = if y < i { y } else { y - 1 };
                    if x != i && y != i {
                        assert(text::precedes(o[ox].key@, o[oy].key@));
                    } else if x == i {
                        assert(text::precedes(key@, o[oy].key@));
                    } else {
                        assert(text::precedes(o[ox].key@, key@));
                    }
                }
            }
            assert(self.wf());
            self.lemma_view();
            let want = before@.insert(key@, c);
            assert forall|k: Seq<char>| self@.contains_key(k) <==> want.contains_key(k) by {
                if self@.contains_key(k) {
                    let j = self.at(k);
                    if j != i {
                        let oj = if found || j < i { j } else { j - 1 };
                        assert(o[oj].key@ == k);
                    }
                }
                if want.contains_key(k) {
                    if k == key@ {
                        assert(s[i as int].key@ == k);
                    } else {
                        let oj = before.at(k);
                        let j = if found || oj < i { oj } else { oj + 1 };
                        assert(s[j].key@ == k);
                    }
                }
            }
            assert forall|k: Seq<char>| want.contains_key(k) implies #[trigger] self@[k]
                == want[k] by {
                if k == key@ {
                    assert(s[i as int].key@ == k);
                } else {
                    let oj = before.at(k);
                    let j = if found || oj < i { oj } else { oj + 1 };
                    assert(s[j].key@ == k);
                    assert(s[j].claim@ == o[oj].claim@);
                }
            }
            assert(self@ =~= want);
        }
    }
}

impl Table {
    /// Drops the claims whose flag is not set.
    fn sift(&mut self, flags: &Vec<bool>)
        requires
            old(self).wf(),
            flags@.len() == old(self).entries@.len(),
        ensures
            final(self).wf(),
            final(self)@.submap_of(old(self)@),
            forall|i: int|
                0 <= i < flags@.len() ==> (final(self)@.contains_key(
                    (#[trigger] old(self).entries@[i]).key@,
                ) <==> flags@[i]),
    {
        let ghost o = self.entries@;
        let mut out: Vec<Entry> = Vec::new();
        let ghost mut from: Seq<int> = Seq::empty();
        let mut i: usize = 0;
        while i < self.entries.len()
            invariant
                o == self.entries@,
                *self == *old(self),
                i <= o.len() == flags@.len(),
                from.len() == out@.len(),
                forall|x: int|
                    0 <= x < from.len() ==> 0 <= #[trigger] from[x] < i && flags@[from[x]]
                        && same_entry(o[from[x]], out@[x]),
                forall|x: int, y: int| 0 <= x < y < from.len() ==> from[x] < from[y],
                forall|j: int| 0 <= j < i && #[trigger] flags@[j] ==> from.contains(j),
            decreases o.len() - i,
        {
            if flags[i] {
                let e = &self.entries[i];
                out.push(Entry { key: e.key.clone(), claim: e.claim.clone() });
                proof {
                    let before = from;
                    from = before.push(i as int);
                    assert(from[before.len() as int] == i);
                    assert forall|j: int| 0 <= j < i + 1 && #[trigger] flags@[j] implies from.contains(
                        j,
                    ) by {
                        if j < i {
                            let x = choose|x: int| 0 <= x < before.len() && before[x] == j;
                            assert(from[x] == j);
                        }
                    }
                }
            }
            i += 1;
        }
        self.entries = out;
        proof {
            assert forall|x: int, y: int| 0 <= x < y < out@.len() implies text::precedes(
                (#[trigger] out@[x]).key@,
                (#[trigger] out@[y]).key@,
            ) by {
                assert(from[x] < from[y]);
                assert(text::precedes(o[from[x]].key@, o[from[y]].key@));
            }
            assert(self.wf());
            self.lemma_view();
            old(self).lemma_view();
            assert forall|k: Seq<char>| #[trigger] self@.contains_key(k) implies old(
                self,
            )@.contains_key(k) && old(self)@[k] == self@[k] by {
                let x = self.at(k);
                assert(o[from[x]].key@ == k);
            }
            assert forall|j: int| 0 <= j < flags@.len() implies (self@.contains_key(
                (#[trigger] o[j]).key@,
            ) <==> flags@[j]) by {
                if flags@[j] {
                    let x = choose|x: int| 0 <= x < from.len() && from[x] == j;
                    assert(self.entries@[x].key@ == o[j].key@);
                } else if self@.contains_key(o[j].key@) {
                    let m = from[self.at(o[j].key@)];
                    if m < j {
                        text::lemma_precedes_antisymmetric(o[m].key@, o[j].key@);
                    }
                    if j < m {
                        text::lemma_precedes_antisymmetric(o[j].key@, o[m].key@);
                    }
                }
            }
        }
    }

    /// Refreshes the claims of a run, and counts them.
    fn refresh(&mut self, run_id: &str, now: i64) -> (n: usize)
        requires
            old(self).wf(),
        ensures
            final(self).wf(),
            final(self)@ == beaten(old(self)@, run_id@, now),
            n == held_by(final(self)@, run_id@).len(),
            n <= final(self)@.dom().len(),
    {
        let ghost o = self.entries@;
        let mut out: Vec<Entry> = Vec::new();
        let mut n: usize = 0;
        let ghost mut mine: Seq<int> = Seq::empty();
        let mut i: usize = 0;
        while i < self.entries.len()
            invariant
                o == self.entries@,
                *self == *old(self),
                i <= o.len(),
                out@.len() == i,
                n <= i,
                mine.len() == n,
                forall|x: int|
                    0 <= x < i ==> (#[trigger] out@[x]).key@ == o[x].key@ && out@[x].claim@
                        == beat(o[x].claim@, run_id@, now),
                forall|x: int|
                    0 <= x < mine.len() ==> 0 <= #[trigger] mine[x] < i
                        && o[mine[x]].claim@.run_id == run_id@,
                forall|x: int, y: int| 0 <= x < y < mine.len() ==> mine[x] < mine[y],
                forall|j: int|
                    0 <= j < i && (#[trigger] o[j]).claim@.run_id == run_id@ ==> mine.contains(j),
            decreases o.len() - i,
        {
            let e = &self.entries[i];
            let mut claim = e.claim.clone();
            if same(&e.claim.run_id, run_id) {
                claim.heartbeat_at = now;
                n += 1;
                proof {
                    let before = mine;
                    mine = before.push(i as int);
                    assert(mine[before.len() as int] == i);
                    assert forall|j: int|
                        0 <= j < i + 1 && (#[trigger] o[j]).claim@.run_id
                            == run_id@ implies mine.contains(j) by {
                        if j < i {
                            let x = choose|x: int| 0 <= x < before.len() && before[x] == j;
                            assert(mine[x] == j);
                        }
                    }
                }
            }
            out.push(Entry { key: e.key.clone(), claim });
            i += 1;
        }
        self.entries = out;
        proof {
            assert forall|x: int, y: int| 0 <= x < y < out@.len() implies text::precedes(
                (#[trigger] out@[x]).key@,
                (#[trigger] out@[y]).key@,
            ) by {
                assert(text::precedes(o[x].key@, o[y].key@));
            }
            assert(self.wf());
            self.lemma_view();
            old(self).lemma_view();
            let want = beaten(old(self)@, run_id@, now);
            assert forall|k: Seq<char>| self@.contains_key(k) <==> want.contains_key(k) by {
                if self@.contains_key(k) {
                    assert(o[self.at(k)].key@ == k);
                }
                if want.contains_key(k) {
                    assert(self.entries@[old(self).at(k)].key@ == k);
                }
            }
            assert forall|k: Seq<char>| want.contains_key(k) implies #[trigger] self@[k]
                == want[k] by {
                assert(self.entries@[old(self).at(k)].key@ == k);
            }
            assert(self@ =~= want);
            self.lemma_held_by(run_id@, mine);
        }
        n
    }

    /// The claims of a run, counted by where they stand.
    proof fn lemma_held_by(&self, run_id: Seq<char>, mine: Seq<int>)
        requires
            self.wf(),
            forall|x: int|
                0 <= x < mine.len() ==> 0 <= #[trigger] mine[x] < self.entries@.len()
                    && self.entries@[mine[x]].claim@.run_id == run_id,
            forall|x: int, y: int| 0 <= x < y < mine.len() ==> mine[x] < mine[y],
            forall|j: int|
                0 <= j < self.entries@.len() && (#[trigger] self.entries@[j]).claim@.run_id
                    == run_id ==> mine.contains(j),
        ensures
            held_by(self@, run_id).len() == mine.len(),
            mine.len() <= self@.dom().len(),
    {
        self.lemma_view();
        let names = Seq::new(mine.len(), |x: int| self.entries@[mine[x]].key@);
        let held = held_by(self@, run_id);
        assert forall|x: int, y: int| 0 <= x < y < names.len() implies names[x] != names[y] by {
            text::lemma_precedes_antisymmetric(
                self.entries@[mine[x]].key@,
                self.entries@[mine[y]].key@,
            );
        }
        assert forall|k: Seq<char>| names.to_set().contains(k) <==> held.contains(k) by {
            if names.contains(k) {
                let x = choose|x: int| 0 <= x < names.len() && names[x] == k;
                assert(self.entries@[mine[x]].key@ == k);
            }
            if held.contains(k) {
                let j = self.at(k);
                let x = choose|x: int| 0 <= x < mine.len() && mine[x] == j;
                assert(names[x] == k);
            }
        }
        assert(names.to_set() =~= held);
        names.unique_seq_to_set();
        assert(held.subset_of(self@.dom()));
        vstd::set_lib::lemma_len_subset(held, self@.dom());
    }
}

spec fn same_entry(a: Entry, b: Entry) -> bool {
    a.key@ == b.key@ && a.claim@ == b.claim@
}

/// A claim after the heartbeat of a run: refreshed where the run holds it.
pub open spec fn beat(c: ClaimView, run_id: Seq<char>, now: i64) -> ClaimView {
    if c.run_id == run_id {
        ClaimView { heartbeat_at: now, ..c }
    } else {
        c
    }
}

/// The claims after the heartbeat of a run.
pub open spec fn beaten(
    m: Map<Seq<char>, ClaimView>,
    run_id: Seq<char>,
    now: i64,
) -> Map<Seq<char>, ClaimView> {
    Map::new(|k: Seq<char>| m.contains_key(k), |k: Seq<char>| beat(m[k], run_id, now))
}

/// What a run holds.
pub open spec fn held_by(m: Map<Seq<char>, ClaimView>, run_id: Seq<char>) -> Set<Seq<char>> {
    Set::new(|k: Seq<char>| m.contains_key(k) && m[k].run_id == run_id)
}

// ---- the registry --------------------------------------------------------

/// Who holds which files and which tasks.
#[derive(Debug)]
pub struct Registry {
    pub files: Table,
    pub task_claims: Table,
}

pub struct RegistryView {
    pub files: Map<Seq<char>, ClaimView>,
    pub task_claims: Map<Seq<char>, ClaimView>,
}

impl View for Registry {
    type V = RegistryView;

    open spec fn view(&self) -> RegistryView {
        RegistryView { files: self.files@, task_claims: self.task_claims@ }
    }
}

impl Registry {
    pub open spec fn wf(&self) -> bool {
        self.files.wf() && self.task_claims.wf()
    }
}

impl Default for Registry {
    fn default() -> (r: Registry)
        ensures
            r.wf(),
            r@.files == Map::<Seq<char>, ClaimView>::empty(),
            r@.task_claims == Map::<Seq<char>, ClaimView>::empty(),
    {
        Registry { files: Table::new(), task_claims: Table::new() }
    }
}

/// Something that could not be claimed, and who holds it.
#[derive(Debug)]
pub struct Skipped {
    /// The file, or the hashkey of the task.
    pub file: String,
    pub holder_run: String,
    pub holder_pid: u32,
    pub holder_session: Option<String>,
}

pub struct SkippedView {
    pub file: Seq<char>,
    pub holder_run: Seq<char>,
    pub holder_pid: u32,
    pub holder_session: Option<Seq<char>>,
}

impl View for Skipped {
    type V = SkippedView;

    open spec fn view(&self) -> SkippedView {
        SkippedView {
            file: self.file@,
            holder_run: self.holder_run@,
            holder_pid: self.holder_pid,
            holder_session: text::opt(self.holder_session),
        }
    }
}

/// What an attempt to claim came to.
#[derive(Debug)]
pub struct ClaimOutcome {
    pub claimed: Vec<String>,
    /// The caller does not work on these.
    pub skipped: Vec<Skipped>,
}

pub struct OutcomeView {
    pub claimed: Seq<Seq<char>>,
    pub skipped: Seq<SkippedView>,
}

impl View for ClaimOutcome {
    type V = OutcomeView;

    open spec fn view(&self) -> OutcomeView {
        OutcomeView {
            claimed: text::texts(self.claimed@),
            skipped: self.skipped@.map_values(|s: Skipped| s@),
        }
    }
}

pub open spec fn nothing_yet() -> OutcomeView {
    OutcomeView { claimed: Seq::empty(), skipped: Seq::empty() }
}

impl Default for ClaimOutcome {
    fn default() -> (r: ClaimOutcome)
        ensures
            r@ == nothing_yet(),
    {
        let r = ClaimOutcome { claimed: Vec::new(), skipped: Vec::new() };
        assert(r@.claimed =~= Seq::<Seq<char>>::empty());
        assert(r@.skipped =~= Seq::<SkippedView>::empty());
        r
    }
}

/// Everything is skipped, because the registry's lock could not be had.
pub open spec fn contended(names: Seq<Seq<char>>) -> OutcomeView {
    OutcomeView {
        claimed: Seq::empty(),
        skipped: names.map_values(
            |f: Seq<char>|
                SkippedView {
                    file: f,
                    holder_run: LOCK_CONTENDED_HOLDER@,
                    holder_pid: 0,
                    holder_session: None,
                },
        ),
    }
}

/// The outcome where the registry's lock could not be had: nothing is claimed.
fn all_skipped(idents: &Vec<String>) -> (r: ClaimOutcome)
    ensures
        r@ == contended(text::texts(idents@)),
{
    let ghost names = text::texts(idents@);
    let mut skipped: Vec<Skipped> = Vec::new();
    let mut i: usize = 0;
    while i < idents.len()
        invariant
            names == text::texts(idents@),
            i <= idents@.len(),
            skipped@.map_values(|s: Skipped| s@) == contended(names.take(i as int)).skipped,
        decreases idents@.len() - i,
    {
        let ghost before = skipped@.map_values(|s: Skipped| s@);
        let one = Skipped {
            file: idents[i].clone(),
            holder_run: owned(LOCK_CONTENDED_HOLDER),
            holder_pid: 0,
            holder_session: None,
        };
        let ghost added = one@;
        skipped.push(one);
        assert(skipped@.map_values(|s: Skipped| s@) =~= before.push(added));
        assert(contended(names.take(i as int + 1)).skipped =~= before.push(added));
        i += 1;
    }
    assert(names.take(i as int) =~= names);
    let r = ClaimOutcome { claimed: Vec::new(), skipped };
    assert(r@.claimed =~= Seq::<Seq<char>>::empty());
    r
}

// ---- going stale ---------------------------------------------------------

/// A difference of two times, kept within what an `i64` holds.
pub open spec fn clamped(d: int) -> int {
    if d > i64::MAX {
        i64::MAX as int
    } else if d < i64::MIN {
        i64::MIN as int
    } else {
        d
    }
}

/// The heartbeat is older than `ttl` seconds.
pub open spec fn is_lapsed(c: ClaimView, now: i64, ttl: i64) -> bool {
    clamped(now - c.heartbeat_at) > ttl
}

/// Whether a claim's heartbeat is older than `ttl` seconds.
pub fn is_stale(c: &Claim, now: i64, ttl: i64) -> (r: bool)
    ensures
        r == is_lapsed(c@, now, ttl),
{
    let age: i64 = match now.checked_sub(c.heartbeat_at) {
        Some(d) => d,
        None => if c.heartbeat_at < 0 {
            i64::MAX
        } else {
            i64::MIN
        },
    };
    age > ttl
}

/// How long a claim lives without a heartbeat: as long as a task goes quiet
/// before it counts as stuck.
pub fn ttl_secs(stuck_ttl_secs: u64) -> (r: i64)
    ensures
        r == (if stuck_ttl_secs > i64::MAX {
            i64::MAX as int
        } else {
            stuck_ttl_secs as int
        }),
{
    if stuck_ttl_secs > 9223372036854775807 {
        i64::MAX
    } else {
        stuck_ttl_secs as i64
    }
}

/// `progress` answers "known to have stalled" exactly for the claims that
/// `stalled` says.
pub open spec fn reports<P: Fn(&Claim) -> Determination<Liveness>>(
    progress: P,
    stalled: spec_fn(ClaimView) -> bool,
) -> bool {
    forall|c: &Claim, d: Determination<Liveness>| #[trigger]
        call_ensures(progress, (c,), d) ==> (d == Determination::Known(Liveness::Stalled))
            == stalled(c@)
}

/// `overlaps` computes the relation `ov` of two paths or globs.
pub open spec fn computes<O: Fn(&str, &str) -> bool>(
    overlaps: O,
    ov: spec_fn(Seq<char>, Seq<char>) -> bool,
) -> bool {
    forall|a: &str, b: &str, r: bool| #[trigger]
        call_ensures(overlaps, (a, b), r) ==> r == ov(a@, b@)
}

/// A claim survives unless its heartbeat lapsed and its run has stalled.
pub open spec fn survives(
    c: ClaimView,
    now: i64,
    ttl: i64,
    stalled: spec_fn(ClaimView) -> bool,
) -> bool {
    !is_lapsed(c, now, ttl) || !stalled(c)
}

/// Whether a claim survives. One with a fresh heartbeat always does; one whose
/// heartbeat lapsed is given up only on a positive answer that its run has
/// stalled.
pub fn retain_claim<P: Fn(&Claim) -> Determination<Liveness>>(
    c: &Claim,
    now: i64,
    ttl: i64,
    progress: &P,
) -> (r: bool)
    requires
        forall|x: &Claim| call_requires(*progress, (x,)),
    ensures
        !is_lapsed(c@, now, ttl) ==> r,
        is_lapsed(c@, now, ttl) ==> exists|d: Determination<Liveness>| #[trigger]
            call_ensures(*progress, (c,), d) && r == (d != Determination::Known(
                Liveness::Stalled,
            )),
        forall|stalled: spec_fn(ClaimView) -> bool| #[trigger]
            reports(*progress, stalled) ==> r == survives(c@, now, ttl, stalled),
{
    if !is_stale(c, now, ttl) {
        return true;
    }
    match progress(c) {
        Determination::Known(Liveness::Stalled) => false,
        _ => true,
    }
}

/// The claims that a condition keeps.
pub open spec fn kept(
    m: Map<Seq<char>, ClaimView>,
    keep: spec_fn(Seq<char>, ClaimView) -> bool,
) -> Map<Seq<char>, ClaimView> {
    Map::new(|k: Seq<char>| m.contains_key(k) && keep(k, m[k]), |k: Seq<char>| m[k])
}

/// The claims that are left once the stale ones of stalled runs are gone.
pub open spec fn survivors(
    m: Map<Seq<char>, ClaimView>,
    now: i64,
    ttl: i64,
    stalled: spec_fn(ClaimView) -> bool,
) -> Map<Seq<char>, ClaimView> {
    kept(m, |k: Seq<char>, c: ClaimView| survives(c, now, ttl, stalled))
}

/// Whatever the answers were, nothing was added or changed, and no claim with a
/// fresh heartbeat is gone.
pub open spec fn safely_reaped(
    before: Map<Seq<char>, ClaimView>,
    after: Map<Seq<char>, ClaimView>,
    now: i64,
    ttl: i64,
) -> bool {
    after.submap_of(before) && forall|k: Seq<char>|
        before.contains_key(k) && !is_lapsed(before[k], now, ttl)
            ==> #[trigger] after.contains_key(k)
}

/// `progress` may say of the claim `c` that its run is known to have stalled, or
/// may say something else, as `stalled` has it.
pub open spec fn answered<P: Fn(&Claim) -> Determination<Liveness>>(
    progress: P,
    c: ClaimView,
    stalled: bool,
) -> bool {
    exists|x: &Claim, d: Determination<Liveness>| #[trigger]
        call_ensures(progress, (x,), d) && x@ == c && stalled == (d == Determination::Known(
            Liveness::Stalled,
        ))
}

/// Nothing was added or changed, no claim with a fresh heartbeat is gone, and
/// whether one with a lapsed heartbeat is gone is what `progress` said of it.
pub open spec fn reaped_by<P: Fn(&Claim) -> Determination<Liveness>>(
    progress: P,
    before: Map<Seq<char>, ClaimView>,
    after: Map<Seq<char>, ClaimView>,
    now: i64,
    ttl: i64,
) -> bool {
    safely_reaped(before, after, now, ttl) && forall|k: Seq<char>| #[trigger]
        before.contains_key(k) && is_lapsed(before[k], now, ttl) ==> answered(
            progress,
            before[k],
            !after.contains_key(k),
        )
}

/// Both tables of `after` are those of `before` as `progress` left them.
pub open spec fn registry_reaped_by<P: Fn(&Claim) -> Determination<Liveness>>(
    progress: P,
    before: RegistryView,
    after: RegistryView,
    now: i64,
    ttl: i64,
) -> bool {
    reaped_by(progress, before.files, after.files, now, ttl) && reaped_by(
        progress,
        before.task_claims,
        after.task_claims,
        now,
        ttl,
    )
}

impl Table {
    /// The sifted table is the part of the old one that a condition keeps, where
    /// the flags say what the condition says.
    proof fn lemma_sifted(
        before: Table,
        after: Table,
        flags: Seq<bool>,
        keep: spec_fn(Seq<char>, ClaimView) -> bool,
    )
        requires
            before.wf(),
            after.wf(),
            flags.len() == before.entries@.len(),
            after@.submap_of(before@),
            forall|i: int|
                0 <= i < flags.len() ==> (after@.contains_key(
                    (#[trigger] before.entries@[i]).key@,
                ) <==> flags[i]),
            forall|i: int|
                0 <= i < flags.len() ==> #[trigger] flags[i] == keep(
                    before.entries@[i].key@,
                    before.entries@[i].claim@,
                ),
        ensures
            after@ == kept(before@, keep),
    {
        before.lemma_view();
        let want = kept(before@, keep);
        assert forall|k: Seq<char>| after@.contains_key(k) <==> want.contains_key(k) by {
            if before@.contains_key(k) {
                let i = before.at(k);
                assert(before.entries@[i].key@ == k);
                assert(flags[i] == keep(k, before@[k]));
            }
        }
        assert(after@ =~= want);
    }

    /// Takes away the stale claims of stalled runs.
    fn reap<P: Fn(&Claim) -> Determination<Liveness>>(&mut self, now: i64, ttl: i64, progress: &P)
        requires
            old(self).wf(),
            forall|x: &Claim| call_requires(*progress, (x,)),
        ensures
            final(self).wf(),
            reaped_by(*progress, old(self)@, final(self)@, now, ttl),
            forall|stalled: spec_fn(ClaimView) -> bool| #[trigger]
                reports(*progress, stalled) ==> final(self)@ == survivors(
                    old(self)@,
                    now,
                    ttl,
                    stalled,
                ),
    {
        let mut flags: Vec<bool> = Vec::new();
        let mut i: usize = 0;
        while i < self.entries.len()
            invariant
                *self == *old(self),
                forall|x: &Claim| call_requires(*progress, (x,)),
                i <= self.entries@.len(),
                flags@.len() == i,
                forall|j: int|
                    0 <= j < i && !is_lapsed(self.entries@[j].claim@, now, ttl)
                        ==> #[trigger] flags@[j],
                forall|j: int|
                    0 <= j < i && is_lapsed((#[trigger] self.entries@[j]).claim@, now, ttl)
                        ==> answered(*progress, self.entries@[j].claim@, !flags@[j]),
                forall|stalled: spec_fn(ClaimView) -> bool, j: int|
                    #![trigger reports(*progress, stalled), flags@[j]]
                    reports(*progress, stalled) && 0 <= j < i ==> flags@[j] == survives(
                        self.entries@[j].claim@,
                        now,
                        ttl,
                        stalled,
                    ),
            decreases self.entries@.len() - i,
        {
            let keep = retain_claim(&self.entries[i].claim, now, ttl, progress);
            flags.push(keep);
            i += 1;
        }
        self.sift(&flags);
        proof {
            old(self).lemma_view();
            assert forall|k: Seq<char>|
                old(self)@.contains_key(k) && !is_lapsed(
                    old(self)@[k],
                    now,
                    ttl,
                ) implies #[trigger] self@.contains_key(k) by {
                let j = old(self).at(k);
                assert(flags@[j]);
                assert(old(self).entries@[j].key@ == k);
            }
            assert forall|k: Seq<char>| #[trigger]
                old(self)@.contains_key(k) && is_lapsed(old(self)@[k], now, ttl) implies answered(
                *progress,
                old(self)@[k],
                !self@.contains_key(k),
            ) by {
                let j = old(self).at(k);
                assert(old(self).entries@[j].key@ == k);
                assert(self@.contains_key(k) <==> flags@[j]);
            }
            assert forall|stalled: spec_fn(ClaimView) -> bool| #[trigger]
                reports(*progress, stalled) implies self@ == survivors(
                old(self)@,
                now,
                ttl,
                stalled,
            ) by {
                Table::lemma_sifted(
                    *old(self),
                    *self,
                    flags@,
                    |k: Seq<char>, c: ClaimView| survives(c, now, ttl, stalled),
                );
            }
        }
    }
}

/// Takes away the stale claims of stalled runs.
pub fn reap<P: Fn(&Claim) -> Determination<Liveness>>(
    reg: &mut Registry,
    now: i64,
    ttl: i64,
    progress: &P,
)
    requires
        old(reg).wf(),
        forall|x: &Claim| call_requires(*progress, (x,)),
    ensures
        final(reg).wf(),
        registry_reaped_by(*progress, old(reg)@, final(reg)@, now, ttl),
        forall|stalled: spec_fn(ClaimView) -> bool| #[trigger]
            reports(*progress, stalled) ==> final(reg)@ == reaped(old(reg)@, now, ttl, stalled),
{
    reg.files.reap(now, ttl, progress);
    reg.task_claims.reap(now, ttl, progress);
}

/// The registry without the stale claims of stalled runs.
pub open spec fn reaped(
    r: RegistryView,
    now: i64,
    ttl: i64,
    stalled: spec_fn(ClaimView) -> bool,
) -> RegistryView {
    RegistryView {
        files: survivors(r.files, now, ttl, stalled),
        task_claims: survivors(r.task_claims, now, ttl, stalled),
    }
}

// ---- claiming ------------------------------------------------------------

/// The run that claims, and when.
pub struct Claimant {
    pub run_id: Seq<char>,
    pub session_id: Option<Seq<char>>,
    pub pid: u32,
    pub now: i64,
}

/// Another run holds `k`, which overlaps `f`.
pub open spec fn clashes(
    m: Map<Seq<char>, ClaimView>,
    f: Seq<char>,
    run_id: Seq<char>,
    ov: spec_fn(Seq<char>, Seq<char>) -> bool,
    k: Seq<char>,
) -> bool {
    m.contains_key(k) && m[k].run_id != run_id && ov(f, k)
}

/// `k` is the first, in dictionary order, of the claims that `f` clashes with.
pub open spec fn first_clash(
    m: Map<Seq<char>, ClaimView>,
    f: Seq<char>,
    run_id: Seq<char>,
    ov: spec_fn(Seq<char>, Seq<char>) -> bool,
    k: Seq<char>,
) -> bool {
    clashes(m, f, run_id, ov, k) && forall|j: Seq<char>| #[trigger]
        clashes(m, f, run_id, ov, j) ==> j == k || text::precedes(k, j)
}

/// `f` clashes with some claim.
pub open spec fn is_taken(
    m: Map<Seq<char>, ClaimView>,
    f: Seq<char>,
    run_id: Seq<char>,
    ov: spec_fn(Seq<char>, Seq<char>) -> bool,
) -> bool {
    exists|k: Seq<char>| clashes(m, f, run_id, ov, k)
}

/// The claim that stands in the way of `f`.
pub open spec fn holder(
    m: Map<Seq<char>, ClaimView>,
    f: Seq<char>,
    run_id: Seq<char>,
    ov: spec_fn(Seq<char>, Seq<char>) -> bool,
) -> ClaimView {
    m[choose|k: Seq<char>| first_clash(m, f, run_id, ov, k)]
}

/// The record of something that `by` holds.
pub open spec fn skip_for(f: Seq<char>, by: ClaimView) -> SkippedView {
    SkippedView {
        file: f,
        holder_run: by.run_id,
        holder_pid: by.pid,
        holder_session: by.session_id,
    }
}

/// The claim that a run makes on `k`: the time of the first claim is kept.
pub open spec fn claim_on(
    m: Map<Seq<char>, ClaimView>,
    k: Seq<char>,
    who: Claimant,
    title: Option<Seq<char>>,
) -> ClaimView {
    ClaimView {
        run_id: who.run_id,
        session_id: who.session_id,
        pid: who.pid,
        claimed_at: if m.contains_key(k) {
            m[k].claimed_at
        } else {
            who.now
        },
        heartbeat_at: who.now,
        title,
    }
}

/// The table and the outcome after an attempt to claim one file.
pub open spec fn file_claimed(
    m: Map<Seq<char>, ClaimView>,
    o: OutcomeView,
    f: Seq<char>,
    who: Claimant,
    ov: spec_fn(Seq<char>, Seq<char>) -> bool,
) -> (Map<Seq<char>, ClaimView>, OutcomeView) {
    if is_taken(m, f, who.run_id, ov) {
        (
            m,
            OutcomeView {
                claimed: o.claimed,
                skipped: o.skipped.push(skip_for(f, holder(m, f, who.run_id, ov))),
            },
        )
    } else {
        (
            m.insert(f, claim_on(m, f, who, None)),
            OutcomeView { claimed: o.claimed.push(f), skipped: o.skipped },
        )
    }
}

/// The table and the outcome after an attempt to claim files, one by one.
pub open spec fn files_claimed(
    m: Map<Seq<char>, ClaimView>,
    files: Seq<Seq<char>>,
    who: Claimant,
    ov: spec_fn(Seq<char>, Seq<char>) -> bool,
) -> (Map<Seq<char>, ClaimView>, OutcomeView)
    decreases files.len(),
{
    if files.len() == 0 {
        (m, nothing_yet())
    } else {
        let (m1, o1) = files_claimed(m, files.drop_last(), who, ov);
        file_claimed(m1, o1, files.last(), who, ov)
    }
}

/// A claim under an exact name belongs to another run.
pub open spec fn held_by_other(
    m: Map<Seq<char>, ClaimView>,
    k: Seq<char>,
    run_id: Seq<char>,
) -> bool {
    m.contains_key(k) && m[k].run_id != run_id
}

/// `overlaps` may say `r` of `f` and `k`.
pub open spec fn may_say<O: Fn(&str, &str) -> bool>(
    overlaps: O,
    f: Seq<char>,
    k: Seq<char>,
    r: bool,
) -> bool {
    exists|a: &str, b: &str| #[trigger]
        call_ensures(overlaps, (a, b), r) && a@ == f && b@ == k
}

/// `overlaps` said that `f` overlaps the claim of another run on `k`, and none of
/// the claims of other runs that stand before it.
pub open spec fn said_to_clash<O: Fn(&str, &str) -> bool>(
    overlaps: O,
    m: Map<Seq<char>, ClaimView>,
    f: Seq<char>,
    run_id: Seq<char>,
    k: Seq<char>,
) -> bool {
    held_by_other(m, k, run_id) && may_say(overlaps, f, k, true) && forall|j: Seq<char>|
        #[trigger] held_by_other(m, j, run_id) && text::precedes(j, k) ==> may_say(
            overlaps,
            f,
            j,
            false,
        )
}

/// `overlaps` said that `f` overlaps no claim of another run.
pub open spec fn said_to_be_free<O: Fn(&str, &str) -> bool>(
    overlaps: O,
    m: Map<Seq<char>, ClaimView>,
    f: Seq<char>,
    run_id: Seq<char>,
) -> bool {
    forall|j: Seq<char>| #[trigger]
        held_by_other(m, j, run_id) ==> may_say(overlaps, f, j, false)
}

/// One file was claimed or skipped by what `overlaps` said of it.
pub open spec fn file_claimed_by<O: Fn(&str, &str) -> bool>(
    overlaps: O,
    before: (Map<Seq<char>, ClaimView>, OutcomeView),
    f: Seq<char>,
    who: Claimant,
    after: (Map<Seq<char>, ClaimView>, OutcomeView),
) -> bool {
    let (m, o) = before;
    ||| exists|k: Seq<char>| #[trigger]
        said_to_clash(overlaps, m, f, who.run_id, k) && after == (
            m,
            OutcomeView { claimed: o.claimed, skipped: o.skipped.push(skip_for(f, m[k])) },
        )
    ||| said_to_be_free(overlaps, m, f, who.run_id) && after == (
        m.insert(f, claim_on(m, f, who, None)),
        OutcomeView { claimed: o.claimed.push(f), skipped: o.skipped },
    )
}

/// Files were claimed or skipped, one by one, by what `overlaps` said of each.
pub open spec fn files_claimed_by<O: Fn(&str, &str) -> bool>(
    overlaps: O,
    m: Map<Seq<char>, ClaimView>,
    files: Seq<Seq<char>>,
    who: Claimant,
    after: (Map<Seq<char>, ClaimView>, OutcomeView),
) -> bool
    decreases files.len(),
{
    if files.len() == 0 {
        after == (m, nothing_yet())
    } else {
        exists|mid: (Map<Seq<char>, ClaimView>, OutcomeView)|
            files_claimed_by(overlaps, m, files.drop_last(), who, mid)
                && #[trigger] file_claimed_by(overlaps, mid, files.last(), who, after)
    }
}

/// The table and the outcome after an attempt to claim one task. A title that
/// is not given is kept.
pub open spec fn task_claimed(
    m: Map<Seq<char>, ClaimView>,
    o: OutcomeView,
    k: Seq<char>,
    who: Claimant,
    title: Option<Seq<char>>,
) -> (Map<Seq<char>, ClaimView>, OutcomeView) {
    if held_by_other(m, k, who.run_id) {
        (
            m,
            OutcomeView { claimed: o.claimed, skipped: o.skipped.push(skip_for(k, m[k])) },
        )
    } else {
        let kept_title = if title is Some {
            title
        } else if m.contains_key(k) {
            m[k].title
        } else {
            None
        };
        (
            m.insert(k, claim_on(m, k, who, kept_title)),
            OutcomeView { claimed: o.claimed.push(k), skipped: o.skipped },
        )
    }
}

/// The table and the outcome after an attempt to claim tasks, one by one.
pub open spec fn tasks_claimed(
    m: Map<Seq<char>, ClaimView>,
    keys: Seq<Seq<char>>,
    who: Claimant,
    title: Option<Seq<char>>,
) -> (Map<Seq<char>, ClaimView>, OutcomeView)
    decreases keys.len(),
{
    if keys.len() == 0 {
        (m, nothing_yet())
    } else {
        let (m1, o1) = tasks_claimed(m, keys.drop_last(), who, title);
        task_claimed(m1, o1, keys.last(), who, title)
    }
}

impl ClaimOutcome {
    fn skip(&mut self, name: &str, by: &Claim)
        ensures
            final(self)@ == (OutcomeView {
                claimed: old(self)@.claimed,
                skipped: old(self)@.skipped.push(skip_for(name@, by@)),
            }),
    {
        let one = Skipped {
            file: owned(name),
            holder_run: by.run_id.clone(),
            holder_pid: by.pid,
            holder_session: copy_opt(&by.session_id),
        };
        let ghost added = one@;
        self.skipped.push(one);
        assert(self@.skipped =~= old(self)@.skipped.push(added));
    }

    fn claim(&mut self, name: &str)
        ensures
            final(self)@ == (OutcomeView {
                claimed: old(self)@.claimed.push(name@),
                skipped: old(self)@.skipped,
            }),
    {
        self.claimed.push(owned(name));
        assert(self@.claimed =~= old(self)@.claimed.push(name@));
    }
}

impl Table {
    /// Where the first claim stands that `f` clashes with.
    fn clash<O: Fn(&str, &str) -> bool>(&self, f: &str, run_id: &str, overlaps: &O) -> (r: Option<
        usize,
    >)
        requires
            self.wf(),
            forall|a: &str, b: &str| call_requires(*overlaps, (a, b)),
        ensures
            r matches Some(i) ==> i < self.entries@.len() && said_to_clash(
                *overlaps,
                self@,
                f@,
                run_id@,
                self.entries@[i as int].key@,
            ),
            r is None ==> said_to_be_free(*overlaps, self@, f@, run_id@),
            forall|ov: spec_fn(Seq<char>, Seq<char>) -> bool| #[trigger]
                computes(*overlaps, ov) ==> match r {
                    Some(i) => first_clash(
                        self@,
                        f@,
                        run_id@,
                        ov,
                        self.entries@[i as int].key@,
                    ),
                    None => !is_taken(self@, f@, run_id@, ov),
                },
    {
        proof {
            self.lemma_view();
        }
        let mut i: usize = 0;
        while i < self.entries.len()
            invariant
                self.wf(),
                forall|a: &str, b: &str| call_requires(*overlaps, (a, b)),
                i <= self.entries@.len(),
                forall|j: int|
                    0 <= j < i && (#[trigger] self.entries@[j]).claim@.run_id != run_id@
                        ==> may_say(*overlaps, f@, self.entries@[j].key@, false),
                forall|ov: spec_fn(Seq<char>, Seq<char>) -> bool, j: int|
                    #![trigger computes(*overlaps, ov), self.entries@[j]]
                    computes(*overlaps, ov) && 0 <= j < i ==> !clashes(
                        self@,
                        f@,
                        run_id@,
                        ov,
                        self.entries@[j].key@,
                    ),
            decreases self.entries@.len() - i,
        {
            proof {
                self.lemma_view();
            }
            let e = &self.entries[i];
            if !same(&e.claim.run_id, run_id) {
                if overlaps(f, e.key.as_str()) {
                    proof {
                        assert(may_say(*overlaps, f@, e.key@, true));
                        assert forall|k: Seq<char>| #[trigger]
                            held_by_other(self@, k, run_id@) && text::precedes(
                                k,
                                e.key@,
                            ) implies may_say(*overlaps, f@, k, false) by {
                            let j = self.at(k);
                            assert(self.entries@[j].key@ == k);
                            if j > i {
                                text::lemma_precedes_antisymmetric(k, e.key@);
                            } else if j == i {
                                text::lemma_precedes_irreflexive(k);
                            }
                        }
                        assert forall|ov: spec_fn(Seq<char>, Seq<char>) -> bool| #[trigger]
                            computes(*overlaps, ov) implies first_clash(
                            self@,
                            f@,
                            run_id@,
                            ov,
                            e.key@,
                        ) by {
                            assert(clashes(self@, f@, run_id@, ov, e.key@));
                            assert forall|k: Seq<char>| #[trigger]
                                clashes(self@, f@, run_id@, ov, k) implies k == e.key@
                                || text::precedes(e.key@, k) by {
                                let j = self.at(k);
                                assert(self.entries@[j].key@ == k);
                            }
                        }
                    }
                    return Some(i);
                }
                assert(may_say(*overlaps, f@, e.key@, false));
            }
            i += 1;
        }
        proof {
            assert forall|k: Seq<char>| #[trigger]
                held_by_other(self@, k, run_id@) implies may_say(*overlaps, f@, k, false) by {
                let j = self.at(k);
                assert(self.entries@[j].key@ == k);
            }
            assert forall|ov: spec_fn(Seq<char>, Seq<char>) -> bool| #[trigger]
                computes(*overlaps, ov) implies !is_taken(self@, f@, run_id@, ov) by {
                assert forall|k: Seq<char>| !clashes(self@, f@, run_id@, ov, k) by {
                    if clashes(self@, f@, run_id@, ov, k) {
                        let j = self.at(k);
                        assert(self.entries@[j].key@ == k);
                    }
                }
            }
        }
        None
    }
}

proof fn lemma_holder(
    m: Map<Seq<char>, ClaimView>,
    f: Seq<char>,
    run_id: Seq<char>,
    ov: spec_fn(Seq<char>, Seq<char>) -> bool,
    k: Seq<char>,
)
    requires
        first_clash(m, f, run_id, ov, k),
    ensures
        is_taken(m, f, run_id, ov),
        holder(m, f, run_id, ov) == m[k],
{
    let j = choose|j: Seq<char>| first_clash(m, f, run_id, ov, j);
    assert(first_clash(m, f, run_id, ov, j));
    assert(clashes(m, f, run_id, ov, j) && clashes(m, f, run_id, ov, k));
    if j != k {
        text::lemma_precedes_antisymmetric(j, k);
    }
}

/// The claims of `files` for a run, over a registry from which the stale claims
/// are already gone.
fn claim_each_file<O: Fn(&str, &str) -> bool>(
    table: &mut Table,
    run_id: &str,
    session_id: Option<&str>,
    pid: u32,
    files: &Vec<String>,
    now: i64,
    overlaps: &O,
) -> (r: ClaimOutcome)
    requires
        old(table).wf(),
        forall|a: &str, b: &str| call_requires(*overlaps, (a, b)),
    ensures
        final(table).wf(),
        files_claimed_by(
            *overlaps,
            old(table)@,
            text::texts(files@),
            Claimant { run_id: run_id@, session_id: text::opt_str(session_id), pid, now },
            (final(table)@, r@),
        ),
        forall|ov: spec_fn(Seq<char>, Seq<char>) -> bool| #[trigger]
            computes(*overlaps, ov) ==> (final(table)@, r@) == files_claimed(
                old(table)@,
                text::texts(files@),
                Claimant { run_id: run_id@, session_id: text::opt_str(session_id), pid, now },
                ov,
            ),
{
    let ghost start = table@;
    let ghost names = text::texts(files@);
    let ghost who = Claimant {
        run_id: run_id@,
        session_id: text::opt_str(session_id),
        pid,
        now,
    };
    let mut outcome = ClaimOutcome::default();
    let mut i: usize = 0;
    while i < files.len()
        invariant
            table.wf(),
            forall|a: &str, b: &str| call_requires(*overlaps, (a, b)),
            i <= files@.len(),
            names == text::texts(files@),
            who == (Claimant {
                run_id: run_id@,
                session_id: text::opt_str(session_id),
                pid,
                now,
            }),
            files_claimed_by(*overlaps, start, names.take(i as int), who, (table@, outcome@)),
            forall|ov: spec_fn(Seq<char>, Seq<char>) -> bool| #[trigger]
                computes(*overlaps, ov) ==> (table@, outcome@) == files_claimed(
                    start,
                    names.take(i as int),
                    who,
                    ov,
                ),
        decreases files@.len() - i,
    {
        let ghost m = table@;
        let ghost o = outcome@;
        let ghost upto = names.take(i as int + 1);
        proof {
            table.lemma_view();
            assert(upto.drop_last() =~= names.take(i as int));
            assert(upto.last() == files@[i as int]@);
        }
        let f = files[i].as_str();
        match table.clash(f, run_id, overlaps) {
            Some(at) => {
                outcome.skip(f, &table.entries[at].claim);
                proof {
                    let k = table.entries@[at as int].key@;
                    assert(said_to_clash(*overlaps, m, f@, run_id@, k));
                    assert(file_claimed_by(*overlaps, (m, o), f@, who, (table@, outcome@)));
                    assert forall|ov: spec_fn(Seq<char>, Seq<char>) -> bool| #[trigger]
                        computes(*overlaps, ov) implies (table@, outcome@) == files_claimed(
                        start,
                        upto,
                        who,
                        ov,
                    ) by {
                        lemma_holder(m, f@, run_id@, ov, k);
                        assert(files_claimed(start, upto, who, ov) == file_claimed(
                            m,
                            o,
                            f@,
                            who,
                            ov,
                        ));
                    }
                }
            },
            None => {
                let claimed_at = match table.get(f) {
                    Some(c) => c.claimed_at,
                    None => now,
                };
                table.insert(
                    f,
                    Claim {
                        run_id: owned(run_id),
                        session_id: owned_opt(session_id),
                        pid,
                        claimed_at,
                        heartbeat_at: now,
                        title: None,
                    },
                );
                outcome.claim(f);
                proof {
                    assert(file_claimed_by(*overlaps, (m, o), f@, who, (table@, outcome@)));
                    assert forall|ov: spec_fn(Seq<char>, Seq<char>) -> bool| #[trigger]
                        computes(*overlaps, ov) implies (table@, outcome@) == files_claimed(
                        start,
                        upto,
                        who,
                        ov,
                    ) by {
                        assert(files_claimed(start, upto, who, ov) == file_claimed(
                            m,
                            o,
                            f@,
                            who,
                            ov,
                        ));
                    }
                }
            },
        }
        assert(file_claimed_by(*overlaps, (m, o), upto.last(), who, (table@, outcome@)));
        i += 1;
    }
    assert(names.take(i as int) =~= names);
    outcome
}

/// Claims files for a run. A file that overlaps a claim of another run is
/// skipped, and the others are claimed. The stale claims of stalled runs go
/// first; without the registry's lock nothing is touched and everything is
/// skipped.
pub fn claim_files<P: Fn(&Claim) -> Determination<Liveness>, O: Fn(&str, &str) -> bool>(
    lock: &RunLock,
    reg: &mut Registry,
    run_id: &str,
    session_id: Option<&str>,
    pid: u32,
    files: &Vec<String>,
    now: i64,
    ttl: i64,
    progress: &P,
    overlaps: &O,
) -> (r: ClaimOutcome)
    requires
        old(reg).wf(),
        forall|x: &Claim| call_requires(*progress, (x,)),
        forall|a: &str, b: &str| call_requires(*overlaps, (a, b)),
    ensures
        final(reg).wf(),
        !lock.is_held() ==> *final(reg) == *old(reg) && r@ == contended(text::texts(files@)),
        lock.is_held() ==> exists|live: RegistryView| #[trigger]
            registry_reaped_by(*progress, old(reg)@, live, now, ttl) && final(reg)@.task_claims
                == live.task_claims && files_claimed_by(
                *overlaps,
                live.files,
                text::texts(files@),
                Claimant { run_id: run_id@, session_id: text::opt_str(session_id), pid, now },
                (final(reg)@.files, r@),
            ) && forall|ov: spec_fn(Seq<char>, Seq<char>) -> bool| #[trigger]
                computes(*overlaps, ov) ==> (final(reg)@.files, r@) == files_claimed(
                    live.files,
                    text::texts(files@),
                    Claimant { run_id: run_id@, session_id: text::opt_str(session_id), pid, now },
                    ov,
                ),
        lock.is_held() ==> forall|
            stalled: spec_fn(ClaimView) -> bool,
            ov: spec_fn(Seq<char>, Seq<char>) -> bool,
        |
            #![trigger reports(*progress, stalled), computes(*overlaps, ov)]
            reports(*progress, stalled) && computes(*overlaps, ov) ==> {
                let live = reaped(old(reg)@, now, ttl, stalled);
                let (table, outcome) = files_claimed(
                    live.files,
                    text::texts(files@),
                    Claimant { run_id: run_id@, session_id: text::opt_str(session_id), pid, now },
                    ov,
                );
                r@ == outcome && final(reg)@ == (RegistryView { files: table, ..live })
            },
{
    if !lock.held() {
        return all_skipped(files);
    }
    reap(reg, now, ttl, progress);
    assert(registry_reaped_by(*progress, old(reg)@, reg@, now, ttl));
    claim_each_file(&mut reg.files, run_id, session_id, pid, files, now, overlaps)
}

/// The claims of `keys` for a run, over a registry from which the stale claims
/// are already gone.
fn claim_each_task(
    table: &mut Table,
    keys: &Vec<String>,
    run_id: &str,
    session_id: Option<&str>,
    pid: u32,
    now: i64,
    title: Option<&str>,
) -> (r: ClaimOutcome)
    requires
        old(table).wf(),
    ensures
        final(table).wf(),
        (final(table)@, r@) == tasks_claimed(
            old(table)@,
            text::texts(keys@),
            Claimant { run_id: run_id@, session_id: text::opt_str(session_id), pid, now },
            text::opt_str(title),
        ),
{
    let ghost start = table@;
    let ghost names = text::texts(keys@);
    let ghost who = Claimant {
        run_id: run_id@,
        session_id: text::opt_str(session_id),
        pid,
        now,
    };
    let mut outcome = ClaimOutcome::default();
    let mut i: usize = 0;
    while i < keys.len()
        invariant
            table.wf(),
            i <= keys@.len(),
            names == text::texts(keys@),
            who == (Claimant {
                run_id: run_id@,
                session_id: text::opt_str(session_id),
                pid,
                now,
            }),
            (table@, outcome@) == tasks_claimed(
                start,
                names.take(i as int),
                who,
                text::opt_str(title),
            ),
        decreases keys@.len() - i,
    {
        let ghost upto = names.take(i as int + 1);
        proof {
            assert(upto.drop_last() =~= names.take(i as int));
            assert(upto.last() == keys@[i as int]@);
        }
        let k = keys[i].as_str();
        let mut claimed_at: i64 = now;
        let mut kept_title: Option<String> = owned_opt(title);
        let mut taken = false;
        match table.get(k) {
            Some(held) => {
                if !same(&held.run_id, run_id) {
                    outcome.skip(k, held);
                    taken = true;
                } else {
                    claimed_at = held.claimed_at;
                    if title.is_none() {
                        kept_title = copy_opt(&held.title);
                    }
                }
            },
            None => {},
        }
        if !taken {
            table.insert(
                k,
                Claim {
                    run_id: owned(run_id),
                    session_id: owned_opt(session_id),
                    pid,
                    claimed_at,
                    heartbeat_at: now,
                    title: kept_title,
                },
            );
            outcome.claim(k);
        }
        i += 1;
    }
    assert(names.take(i as int) =~= names);
    outcome
}

/// Claims tasks for a run by their hashkeys. A task that another run holds is
/// skipped, and the others are claimed.
pub fn claim_tasks<P: Fn(&Claim) -> Determination<Liveness>>(
    lock: &RunLock,
    reg: &mut Registry,
    hashkeys: &Vec<String>,
    run_id: &str,
    session_id: Option<&str>,
    pid: u32,
    now: i64,
    ttl: i64,
    title: Option<&str>,
    progress: &P,
) -> (r: ClaimOutcome)
    requires
        old(reg).wf(),
        forall|x: &Claim| call_requires(*progress, (x,)),
    ensures
        final(reg).wf(),
        !lock.is_held() ==> *final(reg) == *old(reg) && r@ == contended(text::texts(hashkeys@)),
        lock.is_held() ==> exists|live: RegistryView| #[trigger]
            registry_reaped_by(*progress, old(reg)@, live, now, ttl) && final(reg)@.files
                == live.files && (final(reg)@.task_claims, r@) == tasks_claimed(
                live.task_claims,
                text::texts(hashkeys@),
                Claimant { run_id: run_id@, session_id: text::opt_str(session_id), pid, now },
                text::opt_str(title),
            ),
        lock.is_held() ==> forall|stalled: spec_fn(ClaimView) -> bool| #[trigger]
            reports(*progress, stalled) ==> {
                let live = reaped(old(reg)@, now, ttl, stalled);
                let (table, outcome) = tasks_claimed(
                    live.task_claims,
                    text::texts(hashkeys@),
                    Claimant { run_id: run_id@, session_id: text::opt_str(session_id), pid, now },
                    text::opt_str(title),
                );
                r@ == outcome && final(reg)@ == (RegistryView { task_claims: table, ..live })
            },
{
    if !lock.held() {
        return all_skipped(hashkeys);
    }
    reap(reg, now, ttl, progress);
    assert(registry_reaped_by(*progress, old(reg)@, reg@, now, ttl));
    claim_each_task(&mut reg.task_claims, hashkeys, run_id, session_id, pid, now, title)
}

// ---- releasing and refreshing --------------------------------------------

/// The claims of every other run.
pub open spec fn without_run(
    m: Map<Seq<char>, ClaimView>,
    run_id: Seq<char>,
) -> Map<Seq<char>, ClaimView> {
    kept(m, |k: Seq<char>, c: ClaimView| c.run_id != run_id)
}

/// The claims without those of a run on the listed names.
pub open spec fn without_files(
    m: Map<Seq<char>, ClaimView>,
    run_id: Seq<char>,
    names: Seq<Seq<char>>,
) -> Map<Seq<char>, ClaimView> {
    kept(m, |k: Seq<char>, c: ClaimView| !(c.run_id == run_id && names.contains(k)))
}

/// The claims without those on the listed names, whoever holds them.
pub open spec fn without_keys(
    m: Map<Seq<char>, ClaimView>,
    names: Seq<Seq<char>>,
) -> Map<Seq<char>, ClaimView> {
    kept(m, |k: Seq<char>, c: ClaimView| !names.contains(k))
}

proof fn lemma_smaller(before: Table, after: Table)
    requires
        before.wf(),
        after.wf(),
        after@.submap_of(before@),
    ensures
        after@.dom().len() <= before@.dom().len(),
{
    before.lemma_view();
    after.lemma_view();
    assert(after@.dom().subset_of(before@.dom()));
    vstd::set_lib::lemma_len_subset(after@.dom(), before@.dom());
}

impl Table {
    /// Drops the claims of a run, and counts them.
    fn drop_run(&mut self, run_id: &str) -> (n: usize)
        requires
            old(self).wf(),
        ensures
            final(self).wf(),
            final(self)@ == without_run(old(self)@, run_id@),
            n == old(self)@.dom().len() - final(self)@.dom().len(),
    {
        let before = self.len();
        let mut flags: Vec<bool> = Vec::new();
        let mut i: usize = 0;
        while i < self.entries.len()
            invariant
                *self == *old(self),
                i <= self.entries@.len(),
                flags@.len() == i,
                forall|j: int|
                    0 <= j < i ==> #[trigger] flags@[j] == (self.entries@[j].claim@.run_id
                        != run_id@),
            decreases self.entries@.len() - i,
        {
            let keep = !same(&self.entries[i].claim.run_id, run_id);
            flags.push(keep);
            i += 1;
        }
        self.sift(&flags);
        proof {
            Table::lemma_sifted(
                *old(self),
                *self,
                flags@,
                |k: Seq<char>, c: ClaimView| c.run_id != run_id@,
            );
            lemma_smaller(*old(self), *self);
        }
        before - self.len()
    }

    /// Drops the claims of a run on the listed names, and counts them.
    fn drop_files(&mut self, run_id: &str, names: &Vec<String>) -> (n: usize)
        requires
            old(self).wf(),
        ensures
            final(self).wf(),
            final(self)@ == without_files(old(self)@, run_id@, text::texts(names@)),
            n == old(self)@.dom().len() - final(self)@.dom().len(),
    {
        let before = self.len();
        let mut flags: Vec<bool> = Vec::new();
        let mut i: usize = 0;
        while i < self.entries.len()
            invariant
                *self == *old(self),
                i <= self.entries@.len(),
                flags@.len() == i,
                forall|j: int|
                    0 <= j < i ==> #[trigger] flags@[j] == !(self.entries@[j].claim@.run_id
                        == run_id@ && text::texts(names@).contains(self.entries@[j].key@)),
            decreases self.entries@.len() - i,
        {
            let e = &self.entries[i];
            let keep = !(same(&e.claim.run_id, run_id) && lists(names, e.key.as_str()));
            flags.push(keep);
            i += 1;
        }
        self.sift(&flags);
        proof {
            Table::lemma_sifted(
                *old(self),
                *self,
                flags@,
                |k: Seq<char>, c: ClaimView|
                    !(c.run_id == run_id@ && text::texts(names@).contains(k)),
            );
            lemma_smaller(*old(self), *self);
        }
        before - self.len()
    }

    /// Drops the claims on the listed names, and counts them.
    fn drop_keys(&mut self, names: &Vec<String>) -> (n: usize)
        requires
            old(self).wf(),
        ensures
            final(self).wf(),
            final(self)@ == without_keys(old(self)@, text::texts(names@)),
            n == old(self)@.dom().len() - final(self)@.dom().len(),
    {
        let before = self.len();
        let mut flags: Vec<bool> = Vec::new();
        let mut i: usize = 0;
        while i < self.entries.len()
            invariant
                *self == *old(self),
                i <= self.entries@.len(),
                flags@.len() == i,
                forall|j: int|
                    0 <= j < i ==> #[trigger] flags@[j] == !text::texts(names@).contains(
                        self.entries@[j].key@,
                    ),
            decreases self.entries@.len() - i,
        {
            let keep = !lists(names, self.entries[i].key.as_str());
            flags.push(keep);
            i += 1;
        }
        self.sift(&flags);
        proof {
            Table::lemma_sifted(
                *old(self),
                *self,
                flags@,
                |k: Seq<char>, c: ClaimView| !text::texts(names@).contains(k),
            );
            lemma_smaller(*old(self), *self);
        }
        before - self.len()
    }
}

/// Releases everything that a run holds, and counts it. Without the registry's
/// lock nothing is released.
pub fn release_run(lock: &RunLock, reg: &mut Registry, run_id: &str) -> (n: usize)
    requires
        old(reg).wf(),
        old(reg)@.files.dom().len() + old(reg)@.task_claims.dom().len() <= usize::MAX,
    ensures
        final(reg).wf(),
        !lock.is_held() ==> *final(reg) == *old(reg) && n == 0,
        lock.is_held() ==> final(reg)@ == (RegistryView {
            files: without_run(old(reg)@.files, run_id@),
            task_claims: without_run(old(reg)@.task_claims, run_id@),
        }),
        lock.is_held() ==> n == old(reg)@.files.dom().len() - final(reg)@.files.dom().len() + old(
            reg,
        )@.task_claims.dom().len() - final(reg)@.task_claims.dom().len(),
        forall|k: Seq<char>|
            old(reg)@.files.contains_key(k) && old(reg)@.files[k].run_id != run_id@
                ==> #[trigger] final(reg)@.files.contains_key(k) && final(reg)@.files[k] == old(
                reg,
            )@.files[k],
        forall|k: Seq<char>|
            old(reg)@.task_claims.contains_key(k) && old(reg)@.task_claims[k].run_id != run_id@
                ==> #[trigger] final(reg)@.task_claims.contains_key(k) && final(reg)@.task_claims[k]
                == old(reg)@.task_claims[k],
{
    if !lock.held() {
        return 0;
    }
    let files = reg.files.drop_run(run_id);
    let tasks = reg.task_claims.drop_run(run_id);
    files + tasks
}

/// Releases the listed files that a run holds, and counts them.
pub fn release_files(
    lock: &RunLock,
    reg: &mut Registry,
    run_id: &str,
    files: &Vec<String>,
) -> (n: usize)
    requires
        old(reg).wf(),
    ensures
        final(reg).wf(),
        !lock.is_held() ==> *final(reg) == *old(reg) && n == 0,
        lock.is_held() ==> final(reg)@ == (RegistryView {
            files: without_files(old(reg)@.files, run_id@, text::texts(files@)),
            task_claims: old(reg)@.task_claims,
        }),
        lock.is_held() ==> n == old(reg)@.files.dom().len() - final(reg)@.files.dom().len(),
        forall|k: Seq<char>|
            old(reg)@.files.contains_key(k) && !text::texts(files@).contains(k)
                ==> #[trigger] final(reg)@.files.contains_key(k) && final(reg)@.files[k] == old(
                reg,
            )@.files[k],
        forall|k: Seq<char>|
            old(reg)@.files.contains_key(k) && old(reg)@.files[k].run_id != run_id@
                ==> #[trigger] final(reg)@.files.contains_key(k) && final(reg)@.files[k] == old(
                reg,
            )@.files[k],
        lock.is_held() ==> n == Set::new(
            |k: Seq<char>|
                text::texts(files@).contains(k) && old(reg)@.files.contains_key(k) && old(
                    reg,
                )@.files[k].run_id == run_id@,
        ).len(),
        final(reg)@.task_claims == old(reg)@.task_claims,
{
    if !lock.held() {
        return 0;
    }
    proof {
        reg.files.lemma_view();
        releasing_files_lets_go_of_the_listed_alone(reg@.files, run_id@, text::texts(files@));
    }
    reg.files.drop_files(run_id, files)
}

/// Releases the listed tasks, whoever holds them, and counts them.
pub fn release_tasks(lock: &RunLock, reg: &mut Registry, hashkeys: &Vec<String>) -> (n: usize)
    requires
        old(reg).wf(),
    ensures
        final(reg).wf(),
        !lock.is_held() ==> *final(reg) == *old(reg) && n == 0,
        lock.is_held() ==> final(reg)@ == (RegistryView {
            files: old(reg)@.files,
            task_claims: without_keys(old(reg)@.task_claims, text::texts(hashkeys@)),
        }),
        lock.is_held() ==> n == old(reg)@.task_claims.dom().len()
            - final(reg)@.task_claims.dom().len(),
        forall|k: Seq<char>|
            old(reg)@.task_claims.contains_key(k) && !text::texts(hashkeys@).contains(k)
                ==> #[trigger] final(reg)@.task_claims.contains_key(k) && final(reg)@.task_claims[k]
                == old(reg)@.task_claims[k],
        final(reg)@.files == old(reg)@.files,
{
    if !lock.held() {
        return 0;
    }
    reg.task_claims.drop_keys(hashkeys)
}

/// Refreshes everything that a run holds, and counts it, after the stale claims
/// of stalled runs are gone.
pub fn heartbeat<P: Fn(&Claim) -> Determination<Liveness>>(
    lock: &RunLock,
    reg: &mut Registry,
    run_id: &str,
    now: i64,
    ttl: i64,
    progress: &P,
) -> (n: usize)
    requires
        old(reg).wf(),
        old(reg)@.files.dom().len() + old(reg)@.task_claims.dom().len() <= usize::MAX,
        forall|x: &Claim| call_requires(*progress, (x,)),
    ensures
        final(reg).wf(),
        !lock.is_held() ==> *final(reg) == *old(reg) && n == 0,
        lock.is_held() ==> n == held_by(final(reg)@.files, run_id@).len() + held_by(
            final(reg)@.task_claims,
            run_id@,
        ).len(),
        lock.is_held() ==> exists|live: RegistryView| #[trigger]
            registry_reaped_by(*progress, old(reg)@, live, now, ttl) && final(reg)@ == (
            RegistryView {
                files: beaten(live.files, run_id@, now),
                task_claims: beaten(live.task_claims, run_id@, now),
            }),
        lock.is_held() ==> forall|stalled: spec_fn(ClaimView) -> bool| #[trigger]
            reports(*progress, stalled) ==> {
                let live = reaped(old(reg)@, now, ttl, stalled);
                final(reg)@ == (RegistryView {
                    files: beaten(live.files, run_id@, now),
                    task_claims: beaten(live.task_claims, run_id@, now),
                })
            },
{
    if !lock.held() {
        return 0;
    }
    reap(reg, now, ttl, progress);
    proof {
        lemma_smaller(old(reg).files, reg.files);
        lemma_smaller(old(reg).task_claims, reg.task_claims);
    }
    let ghost mid = *reg;
    assert(registry_reaped_by(*progress, old(reg)@, mid@, now, ttl));
    let files = reg.files.refresh(run_id, now);
    let tasks = reg.task_claims.refresh(run_id, now);
    proof {
        assert(reg.files@.dom() =~= mid.files@.dom());
        assert(reg.task_claims@.dom() =~= mid.task_claims@.dom());
    }
    files + tasks
}

/// Takes away the stale claims of stalled runs for an inspection. Returns
/// whether the outcome is to be written back, which it is only under the
/// registry's lock.
pub fn active_claims<P: Fn(&Claim) -> Determination<Liveness>>(
    lock: &RunLock,
    reg: &mut Registry,
    now: i64,
    ttl: i64,
    progress: &P,
) -> (persist: bool)
    requires
        old(reg).wf(),
        forall|x: &Claim| call_requires(*progress, (x,)),
    ensures
        final(reg).wf(),
        persist == lock.is_held(),
        registry_reaped_by(*progress, old(reg)@, final(reg)@, now, ttl),
        forall|stalled: spec_fn(ClaimView) -> bool| #[trigger]
            reports(*progress, stalled) ==> final(reg)@ == reaped(old(reg)@, now, ttl, stalled),
{
    reap(reg, now, ttl, progress);
    lock.held()
}

// ---- liveness of a run ---------------------------------------------------

/// What a look at the registry says of a run.
#[derive(Debug, Clone, Copy, PartialEq, Eq, Structural)]
pub enum RunLiveness {
    /// The run holds a claim with a fresh heartbeat.
    Live,
    /// The registry was read and the run holds none.
    Dead,
    /// There is no telling, and the run is to be taken for live.
    Undetermined,
}

/// How reading the registry went.
#[derive(Debug)]
pub enum RegistryRead {
    /// There is no registry.
    Absent,
    /// There is one, and it cannot be read.
    Unreadable,
    Read(Registry),
}

/// A run holds a claim with a fresh heartbeat.
pub open spec fn beats(
    m: Map<Seq<char>, ClaimView>,
    run_id: Seq<char>,
    now: i64,
    ttl: i64,
) -> bool {
    exists|k: Seq<char>| #[trigger]
        m.contains_key(k) && m[k].run_id == run_id && !is_lapsed(m[k], now, ttl)
}

impl Table {
    fn has_beating(&self, run_id: &str, now: i64, ttl: i64) -> (r: bool)
        requires
            self.wf(),
        ensures
            r == beats(self@, run_id@, now, ttl),
    {
        proof {
            self.lemma_view();
        }
        let mut i: usize = 0;
        while i < self.entries.len()
            invariant
                self.wf(),
                i <= self.entries@.len(),
                forall|j: int|
                    0 <= j < i ==> !((#[trigger] self.entries@[j]).claim@.run_id == run_id@
                        && !is_lapsed(self.entries@[j].claim@, now, ttl)),
            decreases self.entries@.len() - i,
        {
            let c = &self.entries[i].claim;
            if same(&c.run_id, run_id) && !is_stale(c, now, ttl) {
                proof {
                    self.lemma_view();
                    assert(self@.contains_key(self.entries@[i as int].key@));
                }
                return true;
            }
            i += 1;
        }
        proof {
            assert forall|k: Seq<char>| #[trigger] self@.contains_key(k) implies !(self@[k].run_id
                == run_id@ && !is_lapsed(self@[k], now, ttl)) by {
                let j = self.at(k);
                assert(self.entries@[j].key@ == k);
            }
        }
        false
    }
}

/// Whether a run is alive. It is dead only where the registry was read and says
/// so; a registry that cannot be read, or a hold without a run, leaves it open.
pub fn run_liveness(read: &RegistryRead, run_id: &str, now: i64, ttl: i64) -> (r: RunLiveness)
    requires
        read matches RegistryRead::Read(reg) ==> reg.wf(),
    ensures
        r == (if run_id@.len() == 0 {
            RunLiveness::Undetermined
        } else {
            match *read {
                RegistryRead::Absent => RunLiveness::Dead,
                RegistryRead::Unreadable => RunLiveness::Undetermined,
                RegistryRead::Read(reg) => if beats(reg@.files, run_id@, now, ttl) || beats(
                    reg@.task_claims,
                    run_id@,
                    now,
                    ttl,
                ) {
                    RunLiveness::Live
                } else {
                    RunLiveness::Dead
                },
            }
        }),
        run_id@.len() == 0 ==> r == RunLiveness::Undetermined,
        *read == RegistryRead::Unreadable ==> r == RunLiveness::Undetermined,
        r == RunLiveness::Live ==> *read is Read,
        run_id@.len() > 0 && *read is Read ==> r != RunLiveness::Undetermined,
        run_id@.len() > 0 && *read is Read ==> forall|k: Seq<char>| #[trigger]
            read->Read_0@.files.contains_key(k) && read->Read_0@.files[k].run_id == run_id@ && now
                - read->Read_0@.files[k].heartbeat_at <= ttl ==> r == RunLiveness::Live,
        run_id@.len() > 0 && *read is Read ==> forall|k: Seq<char>| #[trigger]
            read->Read_0@.task_claims.contains_key(k) && read->Read_0@.task_claims[k].run_id
                == run_id@ && now - read->Read_0@.task_claims[k].heartbeat_at <= ttl ==> r
                == RunLiveness::Live,
{
    if run_id.is_empty() {
        return RunLiveness::Undetermined;
    }
    match read {
        RegistryRead::Absent => RunLiveness::Dead,
        RegistryRead::Unreadable => RunLiveness::Undetermined,
        RegistryRead::Read(reg) => {
            if reg.files.has_beating(run_id, now, ttl) || reg.task_claims.has_beating(
                run_id,
                now,
                ttl,
            ) {
                RunLiveness::Live
            } else {
                RunLiveness::Dead
            }
        },
    }
}

// ---- who is running what -------------------------------------------------

/// Who holds a task.
#[derive(Debug)]
pub struct ClaimedBy {
    pub session_id: Option<String>,
    pub run_id: String,
    pub heartbeat_at: i64,
}

/// One claimed task, joined with its row in the backlog where there is one.
#[derive(Debug)]
pub struct ExecutionEntry {
    pub hashkey: String,
    pub backlog_id: Option<String>,
    pub title: Option<String>,
    pub project: Option<String>,
    pub status: Option<String>,
    pub claimed_by: ClaimedBy,
}

pub struct ExecutionView {
    pub hashkey: Seq<char>,
    pub backlog_id: Option<Seq<char>>,
    pub title: Option<Seq<char>>,
    pub project: Option<Seq<char>>,
    pub status: Option<Seq<char>>,
    pub session_id: Option<Seq<char>>,
    pub run_id: Seq<char>,
    pub heartbeat_at: i64,
}

impl View for ExecutionEntry {
    type V = ExecutionView;

    open spec fn view(&self) -> ExecutionView {
        ExecutionView {
            hashkey: self.hashkey@,
            backlog_id: text::opt(self.backlog_id),
            title: text::opt(self.title),
            project: text::opt(self.project),
            status: text::opt(self.status),
            session_id: text::opt(self.claimed_by.session_id),
            run_id: self.claimed_by.run_id@,
            heartbeat_at: self.claimed_by.heartbeat_at,
        }
    }
}

/// A backlog id as text: a text as it is, and a number as it is written.
pub open spec fn id_text(v: Option<JsonView>) -> Option<Seq<char>> {
    match v {
        Some(JsonView::Text(s)) => Some(s),
        Some(JsonView::Number { text, .. }) => Some(text),
        _ => None,
    }
}

/// The last pending row with this title.
pub open spec fn row_titled(pending: Seq<JsonView>, title: Seq<char>) -> Option<JsonView>
    decreases pending.len(),
{
    if pending.len() == 0 {
        None
    } else if pending.last().text_at("title"@) == Some(title) {
        Some(pending.last())
    } else {
        row_titled(pending.drop_last(), title)
    }
}

/// The text under a key of a row, if there is a row and it has one there.
pub open spec fn field(row: Option<JsonView>, key: Seq<char>) -> Option<Seq<char>> {
    match row {
        Some(v) => v.text_at(key),
        None => None,
    }
}

/// The row of the execution state for one claim.
pub open spec fn execution_row(
    hashkey: Seq<char>,
    c: ClaimView,
    pending: Seq<JsonView>,
) -> ExecutionView {
    let row = match c.title {
        Some(t) => row_titled(pending, t),
        None => None,
    };
    ExecutionView {
        hashkey,
        backlog_id: match row {
            Some(v) => id_text(v.get("id"@)),
            None => None,
        },
        title: c.title,
        project: field(row, "project"@),
        status: field(row, "status"@),
        session_id: c.session_id,
        run_id: c.run_id,
        heartbeat_at: c.heartbeat_at,
    }
}

/// What each document of a list says.
pub open spec fn documents(list: Seq<Json>) -> Seq<JsonView> {
    list.map_values(|j: Json| j@)
}

/// `rows` holds one row for each claim, in the dictionary order of the hashkeys.
pub open spec fn is_execution_state(
    rows: Seq<ExecutionView>,
    m: Map<Seq<char>, ClaimView>,
    pending: Seq<JsonView>,
) -> bool {
    &&& rows.len() == m.dom().len()
    &&& forall|i: int|
        0 <= i < rows.len() ==> m.contains_key((#[trigger] rows[i]).hashkey) && rows[i]
            == execution_row(rows[i].hashkey, m[rows[i].hashkey], pending)
    &&& forall|i: int, j: int|
        0 <= i < j < rows.len() ==> text::precedes(
            (#[trigger] rows[i]).hashkey,
            (#[trigger] rows[j]).hashkey,
        )
}

/// A backlog id as text.
fn json_id(v: Option<&Json>) -> (r: Option<String>)
    ensures
        text::opt(r) == id_text(
            match v {
                Some(j) => Some(j@),
                None => None,
            },
        ),
{
    match v {
        Some(Json::Text(s)) => Some(s.clone()),
        Some(Json::Number(n)) => Some(n.text.clone()),
        _ => None,
    }
}

fn find_row<'a>(pending: &'a Vec<Json>, title: &str) -> (r: Option<&'a Json>)
    ensures
        r is Some <==> row_titled(documents(pending@), title@) is Some,
        r matches Some(j) ==> row_titled(documents(pending@), title@) == Some(j@),
{
    let ghost all = documents(pending@);
    let mut i: usize = pending.len();
    assert(all.take(i as int) =~= all);
    while i > 0
        invariant
            all == documents(pending@),
            i <= pending@.len(),
            row_titled(all, title@) == row_titled(all.take(i as int), title@),
        decreases i,
    {
        let j = &pending[i - 1];
        assert(all.take(i as int).last() == j@);
        assert(all.take(i as int).drop_last() =~= all.take(i as int - 1));
        match j.text_at("title") {
            Some(t) => {
                if same(t, title) {
                    return Some(j);
                }
            },
            None => {},
        }
        i -= 1;
    }
    None
}

fn copy_field(row: Option<&Json>, key: &str) -> (r: Option<String>)
    ensures
        text::opt(r) == field(
            match row {
                Some(j) => Some(j@),
                None => None,
            },
            key@,
        ),
{
    match row {
        Some(j) => match j.text_at(key) {
            Some(t) => Some(t.clone()),
            None => None,
        },
        None => None,
    }
}

/// The pending tasks of the backlog, given its listing: a list of them, or an
/// object with such a list under `tasks`, and none otherwise.
pub open spec fn pending_in(listing: Option<JsonView>) -> Seq<JsonView> {
    match listing {
        Some(JsonView::Array(items)) => items,
        Some(v) => match v.get("tasks"@) {
            Some(JsonView::Array(items)) => items,
            _ => Seq::empty(),
        },
        None => Seq::empty(),
    }
}

/// The pending tasks of the backlog, read off what it printed.
pub fn backlog_pending(stdout: &str) -> (r: Vec<Json>)
    ensures
        documents(r@) == pending_in(json::parsed(stdout@)),
{
    match json::parse(stdout) {
        Some(j) => pending_rows(j),
        None => {
            let none: Vec<Json> = Vec::new();
            assert(documents(none@) =~= Seq::<JsonView>::empty());
            none
        },
    }
}

/// The pending tasks of the backlog, read off its listing.
pub fn pending_rows(listing: Json) -> (r: Vec<Json>)
    ensures
        documents(r@) == pending_in(Some(listing@)),
{
    proof {
        if listing is Array {
            json::lemma_array(listing);
        }
        if listing is Object {
            json::lemma_object(listing);
        }
    }
    match listing {
        Json::Array(items) => {
            assert(documents(items@) =~= listing@->Array_0);
            items
        },
        Json::Object(members) => {
            let ghost all = listing@->Object_0;
            let mut rest = members;
            let mut i: usize = 0;
            assert(all.skip(0) =~= all);
            while i < rest.len()
                invariant
                    listing@ == JsonView::Object(all),
                    i <= rest@.len() == all.len(),
                    forall|k: int|
                        0 <= k < rest@.len() ==> #[trigger] all[k] == (
                            rest@[k].key@,
                            rest@[k].value@,
                        ),
                    json::member(all, "tasks"@) == json::member(all.skip(i as int), "tasks"@),
                decreases rest@.len() - i,
            {
                assert(all[i as int] == (rest@[i as int].key@, rest@[i as int].value@));
                assert(all.skip(i as int).drop_first() =~= all.skip(i as int + 1));
                if same(&rest[i].key, "tasks") {
                    let found = rest.remove(i);
                    proof {
                        if found.value is Array {
                            json::lemma_array(found.value);
                        }
                    }
                    match found.value {
                        Json::Array(items) => {
                            assert(documents(items@) =~= found.value@->Array_0);
                            return items;
                        },
                        _ => {
                            let none: Vec<Json> = Vec::new();
                            assert(documents(none@) =~= Seq::<JsonView>::empty());
                            return none;
                        },
                    }
                }
                i += 1;
            }
            let none: Vec<Json> = Vec::new();
            assert(documents(none@) =~= Seq::<JsonView>::empty());
            none
        },
        _ => {
            let none: Vec<Json> = Vec::new();
            assert(documents(none@) =~= Seq::<JsonView>::empty());
            none
        },
    }
}

/// Joins the claimed tasks with the pending tasks of the backlog by title.
pub fn join_execution_state(task_claims: &Table, pending: &Vec<Json>) -> (r: Vec<ExecutionEntry>)
    requires
        task_claims.wf(),
    ensures
        is_execution_state(
            r@.map_values(|e: ExecutionEntry| e@),
            task_claims@,
            documents(pending@),
        ),
{
    let ghost docs = documents(pending@);
    let mut out: Vec<ExecutionEntry> = Vec::new();
    let mut i: usize = 0;
    while i < task_claims.entries.len()
        invariant
            docs == documents(pending@),
            i <= task_claims.entries@.len(),
            out@.len() == i,
            forall|j: int|
                0 <= j < i ==> (#[trigger] out@[j])@ == execution_row(
                    task_claims.entries@[j].key@,
                    task_claims.entries@[j].claim@,
                    docs,
                ),
        decreases task_claims.entries@.len() - i,
    {
        let e = &task_claims.entries[i];
        let row = match &e.claim.title {
            Some(t) => find_row(pending, t.as_str()),
            None => None,
        };
        let backlog_id = match row {
            Some(j) => json_id(j.get("id")),
            None => None,
        };
        out.push(
            ExecutionEntry {
                hashkey: e.key.clone(),
                backlog_id,
                title: copy_opt(&e.claim.title),
                project: copy_field(row, "project"),
                status: copy_field(row, "status"),
                claimed_by: ClaimedBy {
                    session_id: copy_opt(&e.claim.session_id),
                    run_id: e.claim.run_id.clone(),
                    heartbeat_at: e.claim.heartbeat_at,
                },
            },
        );
        i += 1;
    }
    proof {
        task_claims.lemma_view();
        let rows = out@.map_values(|e: ExecutionEntry| e@);
        assert forall|x: int| 0 <= x < rows.len() implies task_claims@.contains_key(
            (#[trigger] rows[x]).hashkey,
        ) && rows[x] == execution_row(
            rows[x].hashkey,
            task_claims@[rows[x].hashkey],
            docs,
        ) by {
            assert(out@[x]@ == rows[x]);
            assert(task_claims.entries@[x].key@ == rows[x].hashkey);
        }
        assert forall|x: int, y: int| 0 <= x < y < rows.len() implies text::precedes(
            (#[trigger] rows[x]).hashkey,
            (#[trigger] rows[y]).hashkey,
        ) by {
            assert(out@[x]@ == rows[x] && out@[y]@ == rows[y]);
            assert(text::precedes(
                task_claims.entries@[x].key@,
                task_claims.entries@[y].key@,
            ));
        }
    }
    out
}

/// The execution state, and whether it is to be written down.
#[derive(Debug)]
pub struct ExecutionState {
    pub entries: Vec<ExecutionEntry>,
    /// The registry and the rows are written back, which they are only under the
    /// registry's lock.
    pub persist: bool,
}

/// Takes away the stale claims of stalled runs and joins the rest with the
/// pending tasks of the backlog.
pub fn write_execution_state<P: Fn(&Claim) -> Determination<Liveness>>(
    lock: &RunLock,
    reg: &mut Registry,
    pending: &Vec<Json>,
    now: i64,
    ttl: i64,
    progress: &P,
) -> (r: ExecutionState)
    requires
        old(reg).wf(),
        forall|x: &Claim| call_requires(*progress, (x,)),
    ensures
        final(reg).wf(),
        r.persist == lock.is_held(),
        is_execution_state(
            r.entries@.map_values(|e: ExecutionEntry| e@),
            final(reg)@.task_claims,
            documents(pending@),
        ),
        registry_reaped_by(*progress, old(reg)@, final(reg)@, now, ttl),
        forall|stalled: spec_fn(ClaimView) -> bool| #[trigger]
            reports(*progress, stalled) ==> final(reg)@ == reaped(old(reg)@, now, ttl, stalled),
{
    reap(reg, now, ttl, progress);
    let entries = join_execution_state(&reg.task_claims, pending);
    ExecutionState { entries, persist: lock.held() }
}

// ---- laws ----------------------------------------------------------------

/// No two runs hold overlapping names.
pub open spec fn exclusive(
    m: Map<Seq<char>, ClaimView>,
    ov: spec_fn(Seq<char>, Seq<char>) -> bool,
) -> bool {
    forall|j: Seq<char>, k: Seq<char>|
        #![trigger m.contains_key(j), m.contains_key(k)]
        m.contains_key(j) && m.contains_key(k) && m[j].run_id != m[k].run_id ==> !ov(j, k)
}

/// Claiming files never lets two runs hold overlapping names.
pub proof fn claiming_keeps_runs_apart(
    m: Map<Seq<char>, ClaimView>,
    files: Seq<Seq<char>>,
    who: Claimant,
    ov: spec_fn(Seq<char>, Seq<char>) -> bool,
)
    requires
        exclusive(m, ov),
        forall|a: Seq<char>, b: Seq<char>| #[trigger] ov(a, b) == ov(b, a),
    ensures
        exclusive(files_claimed(m, files, who, ov).0, ov),
    decreases files.len(),
{
    if files.len() > 0 {
        claiming_keeps_runs_apart(m, files.drop_last(), who, ov);
        let (m1, o1) = files_claimed(m, files.drop_last(), who, ov);
        let f = files.last();
        if !is_taken(m1, f, who.run_id, ov) {
            let m2 = m1.insert(f, claim_on(m1, f, who, None));
            assert forall|j: Seq<char>, k: Seq<char>|
                #![trigger m2.contains_key(j), m2.contains_key(k)]
                m2.contains_key(j) && m2.contains_key(k) && m2[j].run_id
                    != m2[k].run_id implies !ov(j, k) by {
                if j == f {
                    assert(m1.contains_key(k));
                    assert(!clashes(m1, f, who.run_id, ov, k));
                } else if k == f {
                    assert(m1.contains_key(j));
                    assert(!clashes(m1, f, who.run_id, ov, j));
                    assert(ov(j, f) == ov(f, j));
                } else {
                    assert(m1.contains_key(j) && m1.contains_key(k));
                }
            }
        }
    }
}

/// Neither giving claims up nor refreshing them lets two runs hold overlapping
/// names.
pub proof fn upkeep_keeps_runs_apart(
    m: Map<Seq<char>, ClaimView>,
    keep: spec_fn(Seq<char>, ClaimView) -> bool,
    run_id: Seq<char>,
    now: i64,
    ov: spec_fn(Seq<char>, Seq<char>) -> bool,
)
    requires
        exclusive(m, ov),
    ensures
        exclusive(kept(m, keep), ov),
        exclusive(beaten(m, run_id, now), ov),
{
    let left = kept(m, keep);
    assert forall|j: Seq<char>, k: Seq<char>|
        #![trigger left.contains_key(j), left.contains_key(k)]
        left.contains_key(j) && left.contains_key(k) && left[j].run_id
            != left[k].run_id implies !ov(j, k) by {
        assert(m.contains_key(j) && m.contains_key(k));
    }
    let fresh = beaten(m, run_id, now);
    assert forall|j: Seq<char>, k: Seq<char>|
        #![trigger fresh.contains_key(j), fresh.contains_key(k)]
        fresh.contains_key(j) && fresh.contains_key(k) && fresh[j].run_id
            != fresh[k].run_id implies !ov(j, k) by {
        assert(m.contains_key(j) && m.contains_key(k));
    }
}

/// Claiming files takes nothing from another run, where every name overlaps
/// itself.
pub proof fn claiming_files_takes_nothing_from_others(
    m: Map<Seq<char>, ClaimView>,
    files: Seq<Seq<char>>,
    who: Claimant,
    ov: spec_fn(Seq<char>, Seq<char>) -> bool,
    k: Seq<char>,
)
    requires
        forall|a: Seq<char>| #[trigger] ov(a, a),
        held_by_other(m, k, who.run_id),
    ensures
        files_claimed(m, files, who, ov).0.contains_key(k),
        files_claimed(m, files, who, ov).0[k] == m[k],
    decreases files.len(),
{
    if files.len() > 0 {
        claiming_files_takes_nothing_from_others(m, files.drop_last(), who, ov, k);
        let (m1, o1) = files_claimed(m, files.drop_last(), who, ov);
        if files.last() == k {
            assert(ov(k, k));
            assert(clashes(m1, k, who.run_id, ov, k));
        }
    }
}

/// A file that overlaps a fresh claim of another run is never handed out,
/// whatever is said of that run, where every name overlaps itself.
pub proof fn a_file_of_a_live_run_is_never_handed_out(
    before: Map<Seq<char>, ClaimView>,
    live: Map<Seq<char>, ClaimView>,
    files: Seq<Seq<char>>,
    who: Claimant,
    now: i64,
    ttl: i64,
    ov: spec_fn(Seq<char>, Seq<char>) -> bool,
    k: Seq<char>,
    f: Seq<char>,
)
    requires
        forall|a: Seq<char>| #[trigger] ov(a, a),
        safely_reaped(before, live, now, ttl),
        held_by_other(before, k, who.run_id),
        !is_lapsed(before[k], now, ttl),
        ov(f, k),
    ensures
        !files_claimed(live, files, who, ov).1.claimed.contains(f),
        files_claimed(live, files, who, ov).0[k] == before[k],
    decreases files.len(),
{
    assert(live.contains_key(k) && live[k] == before[k]);
    claiming_files_takes_nothing_from_others(live, files, who, ov, k);
    if files.len() > 0 {
        let (m1, o1) = files_claimed(live, files.drop_last(), who, ov);
        a_file_of_a_live_run_is_never_handed_out(
            before,
            live,
            files.drop_last(),
            who,
            now,
            ttl,
            ov,
            k,
            f,
        );
        claiming_files_takes_nothing_from_others(live, files.drop_last(), who, ov, k);
        if files.last() == f {
            assert(clashes(m1, f, who.run_id, ov, k));
        }
        let o2 = files_claimed(live, files, who, ov).1;
        assert forall|i: int| 0 <= i < o2.claimed.len() implies o2.claimed[i] != f by {
            if i < o1.claimed.len() {
                assert(o1.claimed.contains(o1.claimed[i]));
                assert(o2.claimed[i] == o1.claimed[i]);
            }
        }
    }
}

/// A task with a fresh claim of another run is never handed out, whatever is said
/// of that run.
pub proof fn a_task_of_a_live_run_is_never_handed_out(
    before: Map<Seq<char>, ClaimView>,
    live: Map<Seq<char>, ClaimView>,
    keys: Seq<Seq<char>>,
    who: Claimant,
    title: Option<Seq<char>>,
    now: i64,
    ttl: i64,
    k: Seq<char>,
)
    requires
        safely_reaped(before, live, now, ttl),
        held_by_other(before, k, who.run_id),
        !is_lapsed(before[k], now, ttl),
    ensures
        !tasks_claimed(live, keys, who, title).1.claimed.contains(k),
        tasks_claimed(live, keys, who, title).0[k] == before[k],
    decreases keys.len(),
{
    assert(live.contains_key(k) && live[k] == before[k]);
    claiming_tasks_takes_nothing_from_others(live, keys, who, title, k);
    if keys.len() > 0 {
        let o1 = tasks_claimed(live, keys.drop_last(), who, title).1;
        a_task_of_a_live_run_is_never_handed_out(
            before,
            live,
            keys.drop_last(),
            who,
            title,
            now,
            ttl,
            k,
        );
        claiming_tasks_takes_nothing_from_others(live, keys.drop_last(), who, title, k);
        let o2 = tasks_claimed(live, keys, who, title).1;
        assert forall|i: int| 0 <= i < o2.claimed.len() implies o2.claimed[i] != k by {
            if i < o1.claimed.len() {
                assert(o1.claimed.contains(o1.claimed[i]));
                assert(o2.claimed[i] == o1.claimed[i]);
            }
        }
    }
}

/// Claiming tasks takes nothing from another run.
pub proof fn claiming_tasks_takes_nothing_from_others(
    m: Map<Seq<char>, ClaimView>,
    keys: Seq<Seq<char>>,
    who: Claimant,
    title: Option<Seq<char>>,
    k: Seq<char>,
)
    requires
        held_by_other(m, k, who.run_id),
    ensures
        tasks_claimed(m, keys, who, title).0.contains_key(k),
        tasks_claimed(m, keys, who, title).0[k] == m[k],
    decreases keys.len(),
{
    if keys.len() > 0 {
        claiming_tasks_takes_nothing_from_others(m, keys.drop_last(), who, title, k);
    }
}

/// Every file is either claimed or skipped, and what is claimed is held by the
/// run afterwards, with a heartbeat of now.
pub proof fn every_file_is_claimed_or_skipped(
    m: Map<Seq<char>, ClaimView>,
    files: Seq<Seq<char>>,
    who: Claimant,
    ov: spec_fn(Seq<char>, Seq<char>) -> bool,
)
    ensures
        ({
            let (after, o) = files_claimed(m, files, who, ov);
            &&& o.claimed.len() + o.skipped.len() == files.len()
            &&& forall|i: int|
                0 <= i < o.claimed.len() ==> after.contains_key(#[trigger] o.claimed[i])
                    && after[o.claimed[i]].run_id == who.run_id
                    && after[o.claimed[i]].heartbeat_at == who.now
        }),
    decreases files.len(),
{
    if files.len() > 0 {
        every_file_is_claimed_or_skipped(m, files.drop_last(), who, ov);
    }
}

/// Every task is either claimed or skipped, and what is claimed is held by the
/// run afterwards, with a heartbeat of now.
pub proof fn every_task_is_claimed_or_skipped(
    m: Map<Seq<char>, ClaimView>,
    keys: Seq<Seq<char>>,
    who: Claimant,
    title: Option<Seq<char>>,
)
    ensures
        ({
            let (after, o) = tasks_claimed(m, keys, who, title);
            &&& o.claimed.len() + o.skipped.len() == keys.len()
            &&& forall|i: int|
                0 <= i < o.claimed.len() ==> after.contains_key(#[trigger] o.claimed[i])
                    && after[o.claimed[i]].run_id == who.run_id
                    && after[o.claimed[i]].heartbeat_at == who.now
        }),
    decreases keys.len(),
{
    if keys.len() > 0 {
        every_task_is_claimed_or_skipped(m, keys.drop_last(), who, title);
    }
}

/// A claim goes only where its heartbeat lapsed and its run has stalled.
pub proof fn only_a_stale_claim_of_a_stalled_run_goes(
    m: Map<Seq<char>, ClaimView>,
    now: i64,
    ttl: i64,
    stalled: spec_fn(ClaimView) -> bool,
    k: Seq<char>,
)
    requires
        m.contains_key(k),
    ensures
        survivors(m, now, ttl, stalled).contains_key(k) <==> !(is_lapsed(m[k], now, ttl)
            && stalled(m[k])),
        survivors(m, now, ttl, stalled).contains_key(k) ==> survivors(m, now, ttl, stalled)[k]
            == m[k],
{
}

/// A claim that was just refreshed does not go, whatever is said of its run, for
/// as long as its time to live.
pub proof fn a_heartbeat_protects_a_claim(
    m: Map<Seq<char>, ClaimView>,
    run_id: Seq<char>,
    at: i64,
    now: i64,
    ttl: i64,
    stalled: spec_fn(ClaimView) -> bool,
    k: Seq<char>,
)
    requires
        m.contains_key(k),
        m[k].run_id == run_id,
        now - at <= ttl,
    ensures
        survivors(beaten(m, run_id, at), now, ttl, stalled).contains_key(k),
{
}

/// Once a run released everything, it holds nothing, stands in nobody's way, and
/// the claims of the others are as they were.
pub proof fn a_released_run_holds_nothing(
    m: Map<Seq<char>, ClaimView>,
    run_id: Seq<char>,
    ov: spec_fn(Seq<char>, Seq<char>) -> bool,
)
    ensures
        held_by(without_run(m, run_id), run_id) == Set::<Seq<char>>::empty(),
        forall|k: Seq<char>|
            held_by_other(m, k, run_id) ==> #[trigger] without_run(m, run_id).contains_key(k)
                && without_run(m, run_id)[k] == m[k],
        forall|f: Seq<char>, other: Seq<char>, k: Seq<char>| #[trigger]
            clashes(without_run(m, run_id), f, other, ov, k) ==> m[k].run_id != run_id,
{
    assert(held_by(without_run(m, run_id), run_id) =~= Set::<Seq<char>>::empty());
}

/// A run that claims a file again keeps the time of its first claim.
pub proof fn a_second_claim_keeps_the_first_time(
    m: Map<Seq<char>, ClaimView>,
    f: Seq<char>,
    who: Claimant,
    ov: spec_fn(Seq<char>, Seq<char>) -> bool,
)
    requires
        m.contains_key(f),
        !is_taken(m, f, who.run_id, ov),
    ensures
        ({
            let after = files_claimed(m, seq![f], who, ov).0;
            after[f].claimed_at == m[f].claimed_at && after[f].heartbeat_at == who.now
                && after[f].run_id == who.run_id
        }),
{
    assert(seq![f].drop_last() =~= Seq::<Seq<char>>::empty());
    reveal_with_fuel(files_claimed, 2);
}

/// Taking some names out of a finite table makes it smaller by that many.
proof fn lemma_taken_out(
    m: Map<Seq<char>, ClaimView>,
    after: Map<Seq<char>, ClaimView>,
    gone: Set<Seq<char>>,
)
    requires
        m.dom().finite(),
        forall|k: Seq<char>| #[trigger]
            after.contains_key(k) <==> m.contains_key(k) && !gone.contains(k),
        forall|k: Seq<char>| #[trigger] gone.contains(k) ==> m.contains_key(k),
    ensures
        after.dom().finite(),
        gone.finite(),
        m.dom().len() - after.dom().len() == gone.len(),
{
    assert(gone.subset_of(m.dom()));
    vstd::set_lib::lemma_len_subset(gone, m.dom());
    assert(after.dom().subset_of(m.dom()));
    vstd::set_lib::lemma_len_subset(after.dom(), m.dom());
    assert(after.dom().disjoint(gone));
    vstd::set_lib::lemma_set_disjoint_lens(after.dom(), gone);
    assert(after.dom() + gone =~= m.dom());
}

/// Letting go of a list of files leaves every claim whose name is not listed
/// exactly as it was, whoever holds it, and every claim of another run; a listed
/// name that the run holds is gone. As many go as the run held of the list.
pub proof fn releasing_files_lets_go_of_the_listed_alone(
    m: Map<Seq<char>, ClaimView>,
    run_id: Seq<char>,
    names: Seq<Seq<char>>,
)
    ensures
        ({
            let after = without_files(m, run_id, names);
            &&& forall|k: Seq<char>| #[trigger]
                after.contains_key(k) ==> m.contains_key(k) && after[k] == m[k]
            &&& forall|k: Seq<char>|
                m.contains_key(k) && !names.contains(k) ==> #[trigger] after.contains_key(k)
            &&& forall|k: Seq<char>|
                m.contains_key(k) && m[k].run_id != run_id ==> #[trigger] after.contains_key(k)
            &&& forall|i: int|
                0 <= i < names.len() && m.contains_key(names[i]) && m[names[i]].run_id == run_id
                    ==> !after.contains_key(#[trigger] names[i])
            &&& m.dom().finite() ==> m.dom().len() - after.dom().len() == Set::new(
                |k: Seq<char>| names.contains(k) && m.contains_key(k) && m[k].run_id == run_id,
            ).len()
        }),
{
    let after = without_files(m, run_id, names);
    let gone = Set::new(
        |k: Seq<char>| names.contains(k) && m.contains_key(k) && m[k].run_id == run_id,
    );
    assert forall|i: int|
        0 <= i < names.len() && m.contains_key(names[i]) && m[names[i]].run_id
            == run_id implies !after.contains_key(#[trigger] names[i]) by {
        assert(names.contains(names[i]));
    }
    if m.dom().finite() {
        lemma_taken_out(m, after, gone);
    }
}

/// Letting go of no file changes nothing; and letting go of two lists one after
/// the other is letting go of both at once, in either order.
pub proof fn releases_of_files_add_up(
    m: Map<Seq<char>, ClaimView>,
    run_id: Seq<char>,
    some: Seq<Seq<char>>,
    more: Seq<Seq<char>>,
)
    ensures
        without_files(m, run_id, Seq::empty()) == m,
        without_files(without_files(m, run_id, some), run_id, more) == without_files(
            m,
            run_id,
            some + more,
        ),
        without_files(without_files(m, run_id, some), run_id, more) == without_files(
            without_files(m, run_id, more),
            run_id,
            some,
        ),
{
    assert forall|k: Seq<char>| (some + more).contains(k) <==> some.contains(k) || more.contains(
        k,
    ) by {
        let both = some + more;
        if some.contains(k) {
            let i = choose|i: int| 0 <= i < some.len() && some[i] == k;
            assert(both[i] == k);
        }
        if more.contains(k) {
            let i = choose|i: int| 0 <= i < more.len() && more[i] == k;
            assert(both[some.len() + i] == k);
        }
    }
    assert(without_files(m, run_id, Seq::empty()) =~= m);
    assert(without_files(without_files(m, run_id, some), run_id, more) =~= without_files(
        m,
        run_id,
        some + more,
    ));
    assert(without_files(without_files(m, run_id, some), run_id, more) =~= without_files(
        without_files(m, run_id, more),
        run_id,
        some,
    ));
}

/// Letting go of a run takes all that it holds, and nothing else: every claim of
/// another run stays as it was. As many go as the run held.
pub proof fn releasing_a_run_lets_go_of_its_own_alone(
    m: Map<Seq<char>, ClaimView>,
    run_id: Seq<char>,
)
    ensures
        ({
            let after = without_run(m, run_id);
            &&& forall|k: Seq<char>| #[trigger]
                after.contains_key(k) <==> m.contains_key(k) && m[k].run_id != run_id
            &&& forall|k: Seq<char>| #[trigger] after.contains_key(k) ==> after[k] == m[k]
            &&& m.dom().finite() ==> m.dom().len() - after.dom().len() == Set::new(
                |k: Seq<char>| m.contains_key(k) && m[k].run_id == run_id,
            ).len()
        }),
{
    if m.dom().finite() {
        lemma_taken_out(
            m,
            without_run(m, run_id),
            Set::new(|k: Seq<char>| m.contains_key(k) && m[k].run_id == run_id),
        );
    }
}

/// Letting go of a list of tasks takes the listed ones, whoever holds them, and
/// leaves every other as it was. As many go as were held of the list.
pub proof fn releasing_tasks_lets_go_of_the_listed(
    m: Map<Seq<char>, ClaimView>,
    names: Seq<Seq<char>>,
)
    ensures
        ({
            let after = without_keys(m, names);
            &&& forall|k: Seq<char>| #[trigger]
                after.contains_key(k) ==> m.contains_key(k) && after[k] == m[k]
            &&& forall|k: Seq<char>|
                m.contains_key(k) && !names.contains(k) ==> #[trigger] after.contains_key(k)
            &&& forall|i: int|
                0 <= i < names.len() ==> !after.contains_key(#[trigger] names[i])
            &&& m.dom().finite() ==> m.dom().len() - after.dom().len() == Set::new(
                |k: Seq<char>| names.contains(k) && m.contains_key(k),
            ).len()
        }),
{
    let after = without_keys(m, names);
    assert forall|i: int| 0 <= i < names.len() implies !after.contains_key(#[trigger] names[i]) by {
        assert(names.contains(names[i]));
    }
    if m.dom().finite() {
        lemma_taken_out(
            m,
            after,
            Set::new(|k: Seq<char>| names.contains(k) && m.contains_key(k)),
        );
    }
}

/// A heartbeat adds and drops nothing. It renews every claim of its run, in
/// nothing but the time of the last sign of life, and leaves those of the other
/// runs as they were; what a run holds is what is in the table under its name.
pub proof fn a_heartbeat_renews_its_own_run_alone(
    m: Map<Seq<char>, ClaimView>,
    run_id: Seq<char>,
    now: i64,
)
    ensures
        ({
            let after = beaten(m, run_id, now);
            &&& forall|k: Seq<char>| #[trigger] after.contains_key(k) <==> m.contains_key(k)
            &&& forall|k: Seq<char>|
                m.contains_key(k) && m[k].run_id != run_id ==> #[trigger] after[k] == m[k]
            &&& forall|k: Seq<char>|
                m.contains_key(k) && m[k].run_id == run_id ==> (#[trigger] after[k]).heartbeat_at
                    == now && after[k].run_id == run_id && after[k].session_id == m[k].session_id
                    && after[k].pid == m[k].pid && after[k].claimed_at == m[k].claimed_at
                    && after[k].title == m[k].title
        }),
        forall|k: Seq<char>| #[trigger]
            held_by(m, run_id).contains(k) <==> m.contains_key(k) && m[k].run_id == run_id,
        held_by(beaten(m, run_id, now), run_id) == held_by(m, run_id),
{
    assert(held_by(beaten(m, run_id, now), run_id) =~= held_by(m, run_id));
}

/// A claim goes stale by the time since its last sign of life alone: it is when
/// more than the time to live went by, where that can be told apart, and never
/// before; what is stale stays so as time goes on.
pub proof fn a_claim_goes_stale_with_time(c: ClaimView, now: i64, later: i64, ttl: i64)
    ensures
        now - c.heartbeat_at <= ttl ==> !is_lapsed(c, now, ttl),
        now - c.heartbeat_at > ttl && ttl < i64::MAX ==> is_lapsed(c, now, ttl),
        is_lapsed(c, now, ttl) && now <= later ==> is_lapsed(c, later, ttl),
        c.heartbeat_at >= now && ttl >= 0 ==> !is_lapsed(c, now, ttl),
{
}

/// Upkeep makes nothing up and changes no claim that stays. A claim whose last
/// sign of life is recent enough stays; a stale one stays too unless its run was
/// said to have stalled, and goes where every answer was that.
pub proof fn upkeep_drops_stale_claims_of_stalled_runs_alone<
    P: Fn(&Claim) -> Determination<Liveness>,
>(
    progress: P,
    before: Map<Seq<char>, ClaimView>,
    after: Map<Seq<char>, ClaimView>,
    now: i64,
    ttl: i64,
    k: Seq<char>,
)
    requires
        reaped_by(progress, before, after, now, ttl),
    ensures
        after.contains_key(k) ==> before.contains_key(k) && after[k] == before[k],
        before.contains_key(k) && now - before[k].heartbeat_at <= ttl ==> after.contains_key(k),
        before.contains_key(k) && (forall|x: &Claim, d: Determination<Liveness>| #[trigger]
            call_ensures(progress, (x,), d) ==> d != Determination::Known(Liveness::Stalled))
            ==> after.contains_key(k),
        before.contains_key(k) && now - before[k].heartbeat_at > ttl && ttl < i64::MAX && (forall|
            x: &Claim,
            d: Determination<Liveness>,
        | #[trigger]
            call_ensures(progress, (x,), d) ==> d == Determination::Known(Liveness::Stalled))
            ==> !after.contains_key(k),
{
    if after.contains_key(k) {
        assert(after.dom().contains(k));
        assert(before.dom().contains(k));
    }
    if before.contains_key(k) && is_lapsed(before[k], now, ttl) {
        assert(answered(progress, before[k], !after.contains_key(k)));
    }
}

/// The registry is kept up in both its tables by the same rule.
pub proof fn upkeep_covers_files_and_tasks<P: Fn(&Claim) -> Determination<Liveness>>(
    progress: P,
    before: RegistryView,
    after: RegistryView,
    now: i64,
    ttl: i64,
    stalled: spec_fn(ClaimView) -> bool,
)
    ensures
        registry_reaped_by(progress, before, after, now, ttl) <==> reaped_by(
            progress,
            before.files,
            after.files,
            now,
            ttl,
        ) && reaped_by(progress, before.task_claims, after.task_claims, now, ttl),
        reaped(before, now, ttl, stalled).files == survivors(before.files, now, ttl, stalled),
        reaped(before, now, ttl, stalled).task_claims == survivors(
            before.task_claims,
            now,
            ttl,
            stalled,
        ),
{
}

/// One more file on the list is skipped exactly where another run holds
/// something that overlaps it: nothing is then claimed, and the skip names the
/// file and the holder, the first in dictionary order. Otherwise it is claimed,
/// and nothing else in the table changes.
pub proof fn a_file_is_claimed_unless_another_run_overlaps(
    m: Map<Seq<char>, ClaimView>,
    files: Seq<Seq<char>>,
    f: Seq<char>,
    who: Claimant,
    ov: spec_fn(Seq<char>, Seq<char>) -> bool,
    first: Seq<char>,
)
    ensures
        files_claimed(m, Seq::empty(), who, ov).0 == m,
        files_claimed(m, Seq::empty(), who, ov).1.claimed.len() == 0,
        files_claimed(m, Seq::empty(), who, ov).1.skipped.len() == 0,
        ({
            let (m1, o1) = files_claimed(m, files, who, ov);
            let (m2, o2) = files_claimed(m, files.push(f), who, ov);
            let taken = exists|k: Seq<char>| #[trigger]
                m1.contains_key(k) && m1[k].run_id != who.run_id && ov(f, k);
            &&& taken ==> m2 == m1 && o2.claimed == o1.claimed && o2.skipped.len()
                == o1.skipped.len() + 1 && o2.skipped.drop_last() == o1.skipped
                && o2.skipped.last().file == f
            &&& m1.contains_key(first) && m1[first].run_id != who.run_id && ov(f, first) && (forall|
                k: Seq<char>,
            | #[trigger]
                m1.contains_key(k) && m1[k].run_id != who.run_id && ov(f, k) && k != first
                    ==> text::precedes(first, k)) ==> o2.skipped.last().holder_run
                == m1[first].run_id && o2.skipped.last().holder_pid == m1[first].pid
                && o2.skipped.last().holder_session == m1[first].session_id
            &&& !taken ==> o2.claimed == o1.claimed.push(f) && o2.skipped == o1.skipped
                && m2.contains_key(f) && (forall|k: Seq<char>|
                k != f ==> (#[trigger] m2.contains_key(k) <==> m1.contains_key(k))) && (forall|
                k: Seq<char>,
            |
                k != f && m1.contains_key(k) ==> #[trigger] m2[k] == m1[k])
            &&& !taken ==> {
                let c = m2[f];
                &&& c.run_id == who.run_id
                &&& c.session_id == who.session_id
                &&& c.pid == who.pid
                &&& c.heartbeat_at == who.now
                &&& m1.contains_key(f) ==> c.claimed_at == m1[f].claimed_at
                &&& !m1.contains_key(f) ==> c.claimed_at == who.now
                &&& c.title is None
            }
        }),
{
    let (m1, o1) = files_claimed(m, files, who, ov);
    let (m2, o2) = files_claimed(m, files.push(f), who, ov);
    assert(files.push(f).drop_last() =~= files);
    assert(files.push(f).last() == f);
    assert((m2, o2) == file_claimed(m1, o1, f, who, ov));
    if exists|k: Seq<char>| #[trigger]
        m1.contains_key(k) && m1[k].run_id != who.run_id && ov(f, k) {
        let k = choose|k: Seq<char>| #[trigger]
            m1.contains_key(k) && m1[k].run_id != who.run_id && ov(f, k);
        assert(clashes(m1, f, who.run_id, ov, k));
        assert(o2.skipped.drop_last() =~= o1.skipped);
    } else {
        assert forall|k: Seq<char>| !clashes(m1, f, who.run_id, ov, k) by {
            let _ = m1.contains_key(k);
        }
    }
    if m1.contains_key(first) && m1[first].run_id != who.run_id && ov(f, first) && (forall|
        k: Seq<char>,
    | #[trigger]
        m1.contains_key(k) && m1[k].run_id != who.run_id && ov(f, k) && k != first
            ==> text::precedes(first, k)) {
        assert forall|j: Seq<char>| #[trigger]
            clashes(m1, f, who.run_id, ov, j) implies j == first || text::precedes(first, j) by {
            let _ = m1.contains_key(j);
        }
        assert(first_clash(m1, f, who.run_id, ov, first));
        lemma_holder(m1, f, who.run_id, ov, first);
    }
}

/// One more task on the list is skipped exactly where another run holds it, and
/// the skip names the task and its holder. Otherwise it is claimed, with the title
/// given or else the one it had, and nothing else in the table changes.
pub proof fn a_task_is_claimed_unless_another_run_holds_it(
    m: Map<Seq<char>, ClaimView>,
    keys: Seq<Seq<char>>,
    k: Seq<char>,
    who: Claimant,
    title: Option<Seq<char>>,
)
    ensures
        tasks_claimed(m, Seq::empty(), who, title).0 == m,
        tasks_claimed(m, Seq::empty(), who, title).1.claimed.len() == 0,
        tasks_claimed(m, Seq::empty(), who, title).1.skipped.len() == 0,
        ({
            let (m1, o1) = tasks_claimed(m, keys, who, title);
            let (m2, o2) = tasks_claimed(m, keys.push(k), who, title);
            let taken = m1.contains_key(k) && m1[k].run_id != who.run_id;
            &&& taken ==> {
                let s = o2.skipped.last();
                &&& m2 == m1
                &&& o2.claimed == o1.claimed
                &&& o2.skipped == o1.skipped.push(s)
                &&& s.file == k
                &&& s.holder_run == m1[k].run_id
                &&& s.holder_pid == m1[k].pid
                &&& s.holder_session == m1[k].session_id
            }
            &&& !taken ==> {
                let c = m2[k];
                &&& o2.claimed == o1.claimed.push(k)
                &&& o2.skipped == o1.skipped
                &&& m2.contains_key(k)
                &&& forall|j: Seq<char>|
                    j != k ==> (#[trigger] m2.contains_key(j) <==> m1.contains_key(j))
                &&& forall|j: Seq<char>|
                    j != k && m1.contains_key(j) ==> #[trigger] m2[j] == m1[j]
                &&& c.run_id == who.run_id
                &&& c.session_id == who.session_id
                &&& c.pid == who.pid
                &&& c.heartbeat_at == who.now
                &&& m1.contains_key(k) ==> c.claimed_at == m1[k].claimed_at
                &&& !m1.contains_key(k) ==> c.claimed_at == who.now
                &&& title is Some ==> c.title == title
                &&& title is None && m1.contains_key(k) ==> c.title == m1[k].title
                &&& title is None && !m1.contains_key(k) ==> c.title is None
            }
        }),
{
    assert(keys.push(k).drop_last() =~= keys);
    assert(keys.push(k).last() == k);
}

/// Without the registry's lock everything that was asked for is skipped, in its
/// order, and nothing is claimed.
pub proof fn without_the_lock_nothing_is_claimed(names: Seq<Seq<char>>)
    ensures
        contended(names).claimed.len() == 0,
        contended(names).skipped.len() == names.len(),
        forall|i: int|
            0 <= i < names.len() ==> (#[trigger] contended(names).skipped[i]).file == names[i]
                && contended(names).skipped[i].holder_run == "__lock_contended__"@
                && contended(names).skipped[i].holder_session is None,
{
}

/// A run is alive where any claim of it had a sign of life that is recent enough,
/// and only by a claim of its own.
pub proof fn a_recent_claim_keeps_a_run_alive(
    m: Map<Seq<char>, ClaimView>,
    run_id: Seq<char>,
    now: i64,
    ttl: i64,
    k: Seq<char>,
)
    ensures
        m.contains_key(k) && m[k].run_id == run_id && now - m[k].heartbeat_at <= ttl ==> beats(
            m,
            run_id,
            now,
            ttl,
        ),
        (forall|j: Seq<char>| #[trigger] m.contains_key(j) ==> m[j].run_id != run_id) ==> !beats(
            m,
            run_id,
            now,
            ttl,
        ),
        ttl < i64::MAX && (forall|j: Seq<char>| #[trigger]
            m.contains_key(j) && m[j].run_id == run_id ==> now - m[j].heartbeat_at > ttl) ==> !beats(
            m,
            run_id,
            now,
            ttl,
        ),
{
    if m.contains_key(k) && m[k].run_id == run_id && now - m[k].heartbeat_at <= ttl {
        assert(m.contains_key(k) && m[k].run_id == run_id && !is_lapsed(m[k], now, ttl));
    }
}

/// The row for a title is the last task of the backlog that has it, if any has.
pub proof fn a_row_has_the_title(pending: Seq<JsonView>, title: Seq<char>)
    ensures
        row_titled(pending, title) is None <==> forall|i: int|
            0 <= i < pending.len() ==> (#[trigger] pending[i]).text_at("title"@) != Some(title),
        row_titled(pending, title) is Some ==> exists|i: int|
            0 <= i < pending.len() && row_titled(pending, title) == Some(#[trigger] pending[i])
                && pending[i].text_at("title"@) == Some(title) && forall|j: int|
                i < j < pending.len() ==> (#[trigger] pending[j]).text_at("title"@) != Some(title),
    decreases pending.len(),
{
    if pending.len() > 0 {
        let before = pending.drop_last();
        a_row_has_the_title(before, title);
        assert(pending[pending.len() - 1] == pending.last());
        assert(forall|i: int| 0 <= i < before.len() ==> #[trigger] before[i] == pending[i]);
        if pending.last().text_at("title"@) != Some(title) {
            if row_titled(before, title) is Some {
                let i = choose|i: int|
                    0 <= i < before.len() && row_titled(before, title) == Some(#[trigger] before[i])
                        && before[i].text_at("title"@) == Some(title) && forall|j: int|
                        i < j < before.len() ==> (#[trigger] before[j]).text_at("title"@) != Some(
                            title,
                        );
                assert(pending[i] == before[i]);
                assert forall|j: int| i < j < pending.len() implies (#[trigger] pending[j]).text_at(
                    "title"@,
                ) != Some(title) by {
                    if j < before.len() {
                        assert(before[j] == pending[j]);
                    }
                }
            } else {
                assert forall|i: int| 0 <= i < pending.len() implies (#[trigger] pending[i]).text_at(
                    "title"@,
                ) != Some(title) by {
                    if i < before.len() {
                        assert(before[i] == pending[i]);
                    }
                }
            }
        } else {
            assert(row_titled(pending, title) == Some(pending[pending.len() - 1]));
        }
    }
}

/// The state of execution has one row for each claimed task and none besides:
/// who holds it and since when the last sign of life, as the claim says.
pub proof fn every_claimed_task_has_its_row(
    rows: Seq<ExecutionView>,
    m: Map<Seq<char>, ClaimView>,
    pending: Seq<JsonView>,
    k: Seq<char>,
)
    requires
        is_execution_state(rows, m, pending),
        m.dom().finite(),
        m.contains_key(k),
    ensures
        exists|i: int|
            0 <= i < rows.len() && (#[trigger] rows[i]).hashkey == k && rows[i].run_id == m[k].run_id
                && rows[i].session_id == m[k].session_id && rows[i].heartbeat_at
                == m[k].heartbeat_at && rows[i].title == m[k].title,
{
    let keys = Seq::new(rows.len(), |i: int| rows[i].hashkey);
    assert forall|i: int, j: int| 0 <= i < j < keys.len() implies keys[i] != keys[j] by {
        text::lemma_precedes_antisymmetric(rows[i].hashkey, rows[j].hashkey);
    }
    assert(keys.no_duplicates());
    keys.unique_seq_to_set();
    assert(keys.to_set().subset_of(m.dom())) by {
        assert forall|x: Seq<char>| keys.to_set().contains(x) implies m.dom().contains(x) by {
            let i = choose|i: int| 0 <= i < keys.len() && keys[i] == x;
            assert(m.contains_key(rows[i].hashkey));
        }
    }
    vstd::set_lib::lemma_subset_equality(keys.to_set(), m.dom());
    assert(keys.to_set().contains(k));
    let i = choose|i: int| 0 <= i < keys.len() && keys[i] == k;
    assert(rows[i].hashkey == k);
}

/// A row takes its id, project and status from the task of the backlog with the
/// title of the claim; without a title, or without such a task, it has none.
pub proof fn a_row_is_joined_by_title(
    hashkey: Seq<char>,
    c: ClaimView,
    pending: Seq<JsonView>,
)
    ensures
        ({
            let row = execution_row(hashkey, c, pending);
            let found = c.title is Some && row_titled(pending, c.title->0) is Some;
            let task = row_titled(pending, c.title->0)->0;
            &&& row.hashkey == hashkey
            &&& !found ==> row.backlog_id is None && row.project is None && row.status is None
            &&& found ==> row.project == task.text_at("project"@) && row.status == task.text_at(
                "status"@,
            )
            &&& found ==> row.backlog_id == id_text(task.get("id"@))
        }),
{
}

/// The pending tasks are the listed ones, or those under the name for them; what
/// is neither lists none.
pub proof fn a_listing_is_a_list_or_holds_one(items: Seq<JsonView>, v: JsonView)
    ensures
        pending_in(Some(JsonView::Array(items))) == items,
        !(v is Array) && v.get("tasks"@) == Some(JsonView::Array(items)) ==> pending_in(Some(v))
            == items,
        !(v is Array) && v.get("tasks"@) is None ==> pending_in(Some(v)).len() == 0,
        pending_in(None).len() == 0,
{
}

/// A test of progress is summed up by whether it says that a run has stalled;
/// what it leaves open, or finds under way, is not stalled.
pub proof fn only_a_known_stall_counts<P: Fn(&Claim) -> Determination<Liveness>>(
    progress: P,
    stalled: spec_fn(ClaimView) -> bool,
    c: &Claim,
    d: Determination<Liveness>,
)
    requires
        reports(progress, stalled),
        call_ensures(progress, (c,), d),
    ensures
        stalled(c@) <==> d == Determination::Known(Liveness::Stalled),
        d is Undetermined ==> !stalled(c@),
        d == Determination::Known(Liveness::Progressing) ==> !stalled(c@),
{
}

/// A test of overlap is summed up by what it answers.
pub proof fn an_overlap_is_what_is_answered<O: Fn(&str, &str) -> bool>(
    overlaps: O,
    ov: spec_fn(Seq<char>, Seq<char>) -> bool,
    a: &str,
    b: &str,
    r: bool,
)
    requires
        computes(overlaps, ov),
        call_ensures(overlaps, (a, b), r),
    ensures
        r == ov(a@, b@),
{
}

/// Whatever the test of overlap answers, one file is either skipped, with the
/// table as it was, for the first claim of another run that was said to overlap
/// it; or claimed for the run, after every claim of another run was said not to.
pub proof fn a_file_is_skipped_for_a_claim_of_another_run<O: Fn(&str, &str) -> bool>(
    overlaps: O,
    before: (Map<Seq<char>, ClaimView>, OutcomeView),
    f: Seq<char>,
    who: Claimant,
    after: (Map<Seq<char>, ClaimView>, OutcomeView),
)
    requires
        file_claimed_by(overlaps, before, f, who, after),
    ensures
        after.1.claimed == before.1.claimed ==> after.0 == before.0 && after.1.skipped.len()
            == before.1.skipped.len() + 1 && after.1.skipped.last().file == f && exists|
            k: Seq<char>,
        | #[trigger]
            before.0.contains_key(k) && before.0[k].run_id != who.run_id && may_say(
                overlaps,
                f,
                k,
                true,
            ) && after.1.skipped.last().holder_run == before.0[k].run_id && forall|j: Seq<char>|
                #[trigger] before.0.contains_key(j) && before.0[j].run_id != who.run_id
                    && text::precedes(j, k) ==> may_say(overlaps, f, j, false),
        after.1.claimed != before.1.claimed ==> after.1.claimed == before.1.claimed.push(f)
            && after.1.skipped == before.1.skipped && after.0.contains_key(f)
            && after.0[f].run_id == who.run_id && after.0[f].heartbeat_at == who.now && (forall|
            k: Seq<char>,
        | #[trigger]
            before.0.contains_key(k) && before.0[k].run_id != who.run_id ==> may_say(
                overlaps,
                f,
                k,
                false,
            )) && (forall|k: Seq<char>|
            k != f && before.0.contains_key(k) ==> #[trigger] after.0[k] == before.0[k]),
{
    let (m, o) = before;
    let claimed = (
        m.insert(f, claim_on(m, f, who, None)),
        OutcomeView { claimed: o.claimed.push(f), skipped: o.skipped },
    );
    if exists|k: Seq<char>| #[trigger]
        said_to_clash(overlaps, m, f, who.run_id, k) && after == (
            m,
            OutcomeView { claimed: o.claimed, skipped: o.skipped.push(skip_for(f, m[k])) },
        ) {
        let k = choose|k: Seq<char>| #[trigger]
            said_to_clash(overlaps, m, f, who.run_id, k) && after == (
                m,
                OutcomeView { claimed: o.claimed, skipped: o.skipped.push(skip_for(f, m[k])) },
            );
        assert(m.contains_key(k));
        assert(after.1.skipped.last() == skip_for(f, m[k]));
        assert forall|j: Seq<char>| #[trigger]
            m.contains_key(j) && m[j].run_id != who.run_id && text::precedes(
                j,
                k,
            ) implies may_say(overlaps, f, j, false) by {
            assert(held_by_other(m, j, who.run_id));
        }
    } else {
        assert(after == claimed);
        assert(o.claimed.push(f).len() == o.claimed.len() + 1);
        assert forall|k: Seq<char>| #[trigger]
            m.contains_key(k) && m[k].run_id != who.run_id implies may_say(
            overlaps,
            f,
            k,
            false,
        ) by {
            assert(held_by_other(m, k, who.run_id));
        }
    }
}

/// A list of files is gone through one by one, from an empty outcome.
pub proof fn files_are_gone_through_one_by_one<O: Fn(&str, &str) -> bool>(
    overlaps: O,
    m: Map<Seq<char>, ClaimView>,
    files: Seq<Seq<char>>,
    who: Claimant,
    after: (Map<Seq<char>, ClaimView>, OutcomeView),
)
    requires
        files_claimed_by(overlaps, m, files, who, after),
    ensures
        files.len() == 0 ==> after.0 == m && after.1.claimed.len() == 0 && after.1.skipped.len()
            == 0,
        after.1.claimed.len() + after.1.skipped.len() == files.len(),
        forall|i: int|
            0 <= i < after.1.claimed.len() ==> files.contains(#[trigger] after.1.claimed[i]),
        forall|i: int|
            0 <= i < after.1.skipped.len() ==> files.contains((#[trigger] after.1.skipped[i]).file),
    decreases files.len(),
{
    if files.len() > 0 {
        let front = files.drop_last();
        let mid = choose|mid: (Map<Seq<char>, ClaimView>, OutcomeView)|
            files_claimed_by(overlaps, m, front, who, mid) && #[trigger] file_claimed_by(
                overlaps,
                mid,
                files.last(),
                who,
                after,
            );
        files_are_gone_through_one_by_one(overlaps, m, front, who, mid);
        assert(files[files.len() - 1] == files.last());
        assert forall|x: Seq<char>| front.contains(x) implies files.contains(x) by {
            let k = choose|k: int| 0 <= k < front.len() && front[k] == x;
            assert(files[k] == x);
        }
        assert forall|i: int| 0 <= i < after.1.claimed.len() implies files.contains(
            #[trigger] after.1.claimed[i],
        ) by {
            if i < mid.1.claimed.len() {
                assert(after.1.claimed[i] == mid.1.claimed[i]);
            }
        }
        assert forall|i: int| 0 <= i < after.1.skipped.len() implies files.contains(
            (#[trigger] after.1.skipped[i]).file,
        ) by {
            if i < mid.1.skipped.len() {
                assert(after.1.skipped[i] == mid.1.skipped[i]);
            }
        }
    }
}

/// An id of the backlog is taken as it is written, as text or as a number; what is
/// neither is none. What stands for a list of tasks but is no list holds none.
pub proof fn an_id_is_taken_as_written(v: JsonView, key_text: Seq<char>)
    ensures
        id_text(Some(JsonView::Text(key_text))) == Some(key_text),
        v matches JsonView::Number { text, .. } ==> id_text(Some(v)) == Some(text),
        v is Null || v is Bool || v is Array || v is Object ==> id_text(Some(v)) is None,
        id_text(None) is None,
        !(v is Array) && v.get("tasks"@) is Some && !(v.get("tasks"@)->0 is Array) ==> pending_in(
            Some(v),
        ).len() == 0,
{
}

} // verus!
