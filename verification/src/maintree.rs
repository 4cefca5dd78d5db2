//! The guard of the shared working tree: no commit is made from it while another
//! session is live.
//!
//! Everything that the decision rests on is an observation that may have failed.
//! One that failed blocks, as a finding does. A commit passes in four cases: it
//! is made from a linked worktree, an integration is in progress, nothing is
//! staged, or no other session is live.

use vstd::prelude::*;

use crate::gatelog;
use crate::gatelog::join_path;
use crate::json;
use crate::json::{Json, JsonView};
use crate::text;
use crate::text::{
    dec_signed, dec_text, dec_usize, leading_word, line_list, owned, put_around, same_str, starts,
    trimmed,
};
use crate::verdict;
use crate::verdict::{Determination, Verdict, VerdictView};

verus! {

/// The variable in which a human states why the guard is to be passed by.
pub const OVERRIDE_ENV: &'static str = "CONDUKT_MAINTREE_OVERRIDE";

/// The variable that holds the id of this session.
pub const SESSION_ENV: &'static str = "CLAUDE_CODE_SESSION_ID";

/// The variable in which a hook says which hook it is.
pub const HOOK_ENV: &'static str = "CONDUKT_GIT_HOOK";

/// The variable in which git says what it is doing.
pub const REFLOG_ACTION_ENV: &'static str = "GIT_REFLOG_ACTION";

/// Which working tree a commit is made from.
#[derive(Debug, Clone, Copy, PartialEq, Eq, Structural)]
pub enum TreeRole {
    /// The shared one.
    Primary,
    /// One with an index of its own.
    Linked,
}

/// An operation that is allowed in the shared tree.
#[derive(Debug, Clone, Copy, PartialEq, Eq, Structural)]
pub enum IntegrationKind {
    Merge,
    Rebase,
    CherryPick,
    Revert,
}

/// How it is known that an integration is in progress.
#[derive(Debug, Clone, Copy, PartialEq, Eq)]
pub enum IntegrationEvidence {
    /// git left a marker in its directory, which it does when the operation
    /// stops.
    OnDisk(&'static str),
    /// The merge hook said so, and git agrees.
    HookInvocation,
}

/// An integration in progress.
#[derive(Debug, Clone, Copy, PartialEq, Eq)]
pub struct Integration {
    pub kind: IntegrationKind,
    pub evidence: IntegrationEvidence,
}

/// The name of a kind of integration.
pub open spec fn kind_name(kind: IntegrationKind) -> Seq<char> {
    match kind {
        IntegrationKind::Merge => "Merge"@,
        IntegrationKind::Rebase => "Rebase"@,
        IntegrationKind::CherryPick => "CherryPick"@,
        IntegrationKind::Revert => "Revert"@,
    }
}

/// How an integration was noticed, in words.
pub open spec fn evidence_text(evidence: IntegrationEvidence) -> Seq<char> {
    match evidence {
        IntegrationEvidence::OnDisk(marker) => marker@ + " on disk"@,
        IntegrationEvidence::HookInvocation =>
            "declared by .githooks/pre-merge-commit and corroborated by GIT_REFLOG_ACTION"@,
    }
}

/// An integration in words.
pub open spec fn described(i: Integration) -> Seq<char> {
    kind_name(i.kind) + " in progress ("@ + evidence_text(i.evidence) + ")"@
}

impl Integration {
    /// One line that names the integration and how it was noticed.
    pub fn describe(&self) -> (r: String)
        ensures
            r@ == described(*self),
    {
        let mut r = owned(
            match self.kind {
                IntegrationKind::Merge => "Merge",
                IntegrationKind::Rebase => "Rebase",
                IntegrationKind::CherryPick => "CherryPick",
                IntegrationKind::Revert => "Revert",
            },
        );
        r.push_str(" in progress (");
        match self.evidence {
            IntegrationEvidence::OnDisk(marker) => {
                let mut how = owned(marker);
                how.push_str(" on disk");
                r.push_str(how.as_str());
            },
            IntegrationEvidence::HookInvocation => {
                r.push_str(
                    "declared by .githooks/pre-merge-commit and corroborated by GIT_REFLOG_ACTION",
                );
            },
        }
        r.push_str(")");
        r
    }
}

/// Who reported a session.
#[derive(Debug, Clone, Copy, PartialEq, Eq, Structural)]
pub enum PeerSource {
    /// A live lease.
    OverwatchLease,
    /// A held lock on the project's backlog.
    BacklogLock,
}

/// The name of a source.
pub open spec fn label_of(source: PeerSource) -> Seq<char> {
    match source {
        PeerSource::OverwatchLease => "overwatch lease"@,
        PeerSource::BacklogLock => "backlog lock"@,
    }
}

impl PeerSource {
    /// The name of the source in a message.
    pub fn label(self) -> (r: &'static str)
        ensures
            r@ == label_of(self),
    {
        match self {
            PeerSource::OverwatchLease => "overwatch lease",
            PeerSource::BacklogLock => "backlog lock",
        }
    }
}

/// Another session that is live.
#[derive(Debug, PartialEq, Eq)]
pub struct PeerSession {
    pub session_id: String,
    pub source: PeerSource,
    pub detail: String,
}

pub struct PeerView {
    pub session_id: Seq<char>,
    pub source: PeerSource,
    pub detail: Seq<char>,
}

impl View for PeerSession {
    type V = PeerView;

    open spec fn view(&self) -> PeerView {
        PeerView { session_id: self.session_id@, source: self.source, detail: self.detail@ }
    }
}

/// Sessions, one by one.
pub open spec fn peer_views(list: Seq<PeerSession>) -> Seq<PeerView> {
    list.map_values(|p: PeerSession| p@)
}

/// What the decision may look at.
#[derive(Debug, PartialEq, Eq)]
pub struct Observations {
    pub tree_role: Determination<TreeRole>,
    /// The integration in progress, if there is one.
    pub integration: Determination<Option<Integration>>,
    /// The paths that are staged.
    pub staged_paths: Determination<Vec<String>>,
    /// The live sessions other than this one.
    pub peers: Determination<Vec<PeerSession>>,
}

/// What the guard says of a commit.
#[derive(Debug, PartialEq, Eq)]
pub struct Decision {
    /// What was found, whether or not it is passed by.
    pub verdict: Verdict,
    /// Why the guard is passed by, where it blocks and somebody said why.
    pub override_reason: Option<String>,
    /// What let the commit through, where that is not the ordinary course.
    pub pass_note: Option<String>,
}

/// Whether a commit is refused.
pub open spec fn refuses(verdict: VerdictView, override_reason: Option<Seq<char>>) -> bool {
    override_reason is None && !(verdict is Clean)
}

/// How the guard exits.
pub open spec fn exit_of(verdict: VerdictView, override_reason: Option<Seq<char>>) -> i32 {
    if override_reason is Some {
        0
    } else {
        match verdict {
            VerdictView::Clean => 0,
            VerdictView::Violation(_) => 1,
            VerdictView::Undetermined(_) => 2,
        }
    }
}

impl Decision {
    /// Whether the commit is refused.
    pub fn blocks(&self) -> (r: bool)
        ensures
            r == refuses(self.verdict@, text::opt(self.override_reason)),
    {
        self.override_reason.is_none() && self.verdict.blocks()
    }

    /// The exit code: 0 where the commit goes through, 1 for a finding, 2 where
    /// the guard could not tell.
    pub fn exit_code(&self) -> (r: i32)
        ensures
            r == exit_of(self.verdict@, text::opt(self.override_reason)),
    {
        if self.override_reason.is_some() {
            return 0;
        }
        match &self.verdict {
            Verdict::Clean => 0,
            Verdict::Violation(_) => 1,
            Verdict::Undetermined(_) => 2,
        }
    }
}

/// The reason that somebody gives for passing the guard by: what they wrote,
/// trimmed, unless nothing is left of it.
pub open spec fn reason_given(raw: Option<Seq<char>>) -> Option<Seq<char>> {
    match raw {
        Some(s) => if text::trim(s).len() == 0 {
            None
        } else {
            Some(text::trim(s))
        },
        None => None,
    }
}

/// The reason for passing the guard by, if a real one is given.
pub fn sanitize_override(raw: Option<&str>) -> (r: Option<String>)
    ensures
        text::opt(r) == reason_given(text::opt_str(raw)),
{
    match raw {
        Some(s) => {
            let t = trimmed(s);
            if t.as_str().is_empty() {
                None
            } else {
                Some(t)
            }
        },
        None => None,
    }
}

/// The hook and git agree that a merge is in progress: only the merge hook is
/// believed, and only where git says that it is merging or pulling.
pub open spec fn declares_merge(hook: Option<Seq<char>>, action: Option<Seq<char>>) -> bool {
    &&& hook matches Some(h) && text::trim(h) == "pre-merge-commit"@
    &&& action matches Some(a) && (text::first_word(a) == "merge"@ || text::first_word(a)
        == "pull"@)
}

/// The integration that the invocation itself declares, if it does.
pub fn declared_integration(hook: Option<&str>, reflog_action: Option<&str>) -> (r: Option<
    Integration,
>)
    ensures
        r == (if declares_merge(text::opt_str(hook), text::opt_str(reflog_action)) {
            Some(
                Integration {
                    kind: IntegrationKind::Merge,
                    evidence: IntegrationEvidence::HookInvocation,
                },
            )
        } else {
            None
        }),
{
    let hook = match hook {
        Some(h) => trimmed(h),
        None => return None,
    };
    if !same_str(hook.as_str(), "pre-merge-commit") {
        return None;
    }
    let verb = match reflog_action {
        Some(a) => leading_word(a),
        None => return None,
    };
    if !same_str(verb.as_str(), "merge") && !same_str(verb.as_str(), "pull") {
        return None;
    }
    Some(
        Integration {
            kind: IntegrationKind::Merge,
            evidence: IntegrationEvidence::HookInvocation,
        },
    )
}

// ---- the decision --------------------------------------------------------

/// The finding on one live session.
pub open spec fn finding_on(p: PeerView, staged: nat) -> Seq<char> {
    "session "@ + p.session_id + " is live ("@ + label_of(p.source) + (if p.detail.len() == 0 {
        ""@
    } else {
        ": "@
    }) + p.detail + ") while "@ + text::dec(staged)
        + " path(s) are staged in the PRIMARY working tree — two sessions sharing one index is the collision git cannot merge (charter §8). Commit from a worktree instead: `condukt worktree create`, or move the change with `git stash` + `git worktree add`."@
}

fn finding(p: &PeerSession, staged: usize) -> (r: String)
    ensures
        r@ == finding_on(p@, staged as nat),
{
    let mut r = owned("session ");
    r.push_str(p.session_id.as_str());
    r.push_str(" is live (");
    r.push_str(p.source.label());
    if p.detail.as_str().is_empty() {
        r.push_str("");
    } else {
        r.push_str(": ");
    }
    r.push_str(p.detail.as_str());
    r.push_str(") while ");
    let count = dec_usize(staged);
    r.push_str(count.as_str());
    r.push_str(
        " path(s) are staged in the PRIMARY working tree — two sessions sharing one index is the collision git cannot merge (charter §8). Commit from a worktree instead: `condukt worktree create`, or move the change with `git stash` + `git worktree add`.",
    );
    r
}

/// What the observations come to: a verdict, and what let the commit through
/// where that is worth a word. The questions are asked in order, and the first
/// that settles the matter is the last one asked.
pub open spec fn adjudged(obs: Observations) -> (VerdictView, Option<Seq<char>>) {
    match obs.tree_role {
        Determination::Undetermined(why) => (VerdictView::Undetermined(why@), None),
        Determination::Known(TreeRole::Linked) => (VerdictView::Clean, None),
        Determination::Known(TreeRole::Primary) => match obs.integration {
            Determination::Undetermined(why) => (VerdictView::Undetermined(why@), None),
            Determination::Known(Some(i)) => (VerdictView::Clean, Some(described(i))),
            Determination::Known(None) => match obs.staged_paths {
                Determination::Undetermined(why) => (VerdictView::Undetermined(why@), None),
                Determination::Known(staged) => if staged@.len() == 0 {
                    (VerdictView::Clean, None)
                } else {
                    match obs.peers {
                        Determination::Undetermined(why) => (VerdictView::Undetermined(why@), None),
                        Determination::Known(peers) => (
                            verdict::verdict_on(
                                peer_views(peers@).map_values(
                                    |p: PeerView| finding_on(p, staged@.len()),
                                ),
                            ),
                            None,
                        ),
                    }
                },
            },
        },
    }
}

fn adjudicate(obs: Observations) -> (r: (Verdict, Option<String>))
    ensures
        (r.0@, text::opt(r.1)) == adjudged(obs),
{
    let role = match obs.tree_role {
        Determination::Known(role) => role,
        Determination::Undetermined(why) => return (Verdict::Undetermined(why), None),
    };
    if role == TreeRole::Linked {
        return (Verdict::Clean, None);
    }
    match obs.integration {
        Determination::Known(Some(i)) => return (Verdict::Clean, Some(i.describe())),
        Determination::Known(None) => {},
        Determination::Undetermined(why) => return (Verdict::Undetermined(why), None),
    }
    let staged = match obs.staged_paths {
        Determination::Known(staged) => staged,
        Determination::Undetermined(why) => return (Verdict::Undetermined(why), None),
    };
    if staged.len() == 0 {
        return (Verdict::Clean, None);
    }
    let peers = match obs.peers {
        Determination::Known(peers) => peers,
        Determination::Undetermined(why) => return (Verdict::Undetermined(why), None),
    };
    let ghost wanted = peer_views(peers@).map_values(|p: PeerView| finding_on(p, staged@.len()));
    let mut found: Vec<String> = Vec::new();
    let mut i: usize = 0;
    while i < peers.len()
        invariant
            i <= peers@.len(),
            found@.len() == i,
            wanted == peer_views(peers@).map_values(|p: PeerView| finding_on(p, staged@.len())),
            forall|k: int| 0 <= k < i ==> (#[trigger] found@[k])@ == wanted[k],
        decreases peers@.len() - i,
    {
        assert(peer_views(peers@)[i as int] == peers@[i as int]@);
        found.push(finding(&peers[i], staged.len()));
        i += 1;
    }
    assert(text::texts(found@) =~= wanted);
    (Verdict::from_findings(found), None)
}

/// Decides on a commit. A reason for passing the guard by is recorded beside
/// what was found, and only where the guard blocks.
pub fn decide(obs: Observations, override_raw: Option<&str>) -> (r: Decision)
    ensures
        (r.verdict@, text::opt(r.pass_note)) == adjudged(obs),
        text::opt(r.override_reason) == (if r.verdict@ is Clean {
            None
        } else {
            reason_given(text::opt_str(override_raw))
        }),
        r.verdict@ is Clean ==> r.override_reason is None,
        override_raw is None ==> r.override_reason is None,
{
    let (verdict, pass_note) = adjudicate(obs);
    let override_reason = if verdict.blocks() {
        sanitize_override(override_raw)
    } else {
        None
    };
    Decision { verdict, override_reason, pass_note }
}

// ---- observing the tree --------------------------------------------------

/// Output of a tool as lines: trimmed, and without the empty ones.
pub open spec fn tidy(rows: Seq<Seq<char>>) -> Seq<Seq<char>>
    decreases rows.len(),
{
    if rows.len() == 0 {
        Seq::empty()
    } else if text::trim(rows.last()).len() == 0 {
        tidy(rows.drop_last())
    } else {
        tidy(rows.drop_last()).push(text::trim(rows.last()))
    }
}

/// The lines of a tool's output, trimmed and without the empty ones.
pub fn git_lines(output: &str) -> (r: Vec<String>)
    ensures
        text::texts(r@) == tidy(text::lines(output@)),
{
    let rows = line_list(output);
    let ghost all = text::texts(rows@);
    let mut out: Vec<String> = Vec::new();
    assert(text::texts(out@) =~= tidy(all.take(0)));
    let mut i: usize = 0;
    while i < rows.len()
        invariant
            all == text::texts(rows@),
            i <= rows@.len(),
            text::texts(out@) == tidy(all.take(i as int)),
        decreases rows@.len() - i,
    {
        let ghost upto = all.take(i as int + 1);
        assert(upto.drop_last() =~= all.take(i as int));
        assert(upto.last() == rows@[i as int]@);
        let line = trimmed(rows[i].as_str());
        if !line.as_str().is_empty() {
            let ghost before = text::texts(out@);
            let ghost added = line@;
            out.push(line);
            assert(text::texts(out@) =~= before.push(added));
        }
        i += 1;
    }
    assert(all.take(i as int) =~= all);
    out
}

/// The first line of a tool's output that says anything.
pub fn git_line(output: &str) -> (r: String)
    ensures
        r@ == (if tidy(text::lines(output@)).len() == 0 {
            Seq::empty()
        } else {
            tidy(text::lines(output@))[0]
        }),
{
    let rows = git_lines(output);
    assert(text::texts(rows@).len() == rows@.len());
    if rows.len() == 0 {
        String::new()
    } else {
        assert(text::texts(rows@)[0] == rows@[0]@);
        rows[0].clone()
    }
}

/// The path of the common git directory: as git gives it, or within the
/// repository where git gives a relative one.
pub fn common_git_dir(repo: &str, common: &str) -> (r: String)
    ensures
        r@ == (if text::stands_at(common@, "/"@, 0) {
            common@
        } else {
            gatelog::path_in(repo@, common@)
        }),
{
    if starts(common, "/") {
        owned(common)
    } else {
        join_path(repo, common)
    }
}

/// What is known of the git directories of a working tree.
#[derive(Debug)]
pub struct GitDirs {
    /// This tree's own directory, as git gives it.
    pub own: Determination<String>,
    /// The common directory, as git gives it.
    pub common: Determination<String>,
    /// The own directory with every link resolved, or why that failed.
    pub own_resolved: Result<String, String>,
    /// The common directory as it was looked for.
    pub common_path: String,
    /// The common directory with every link resolved, or why that failed.
    pub common_resolved: Result<String, String>,
}

/// Which tree this is: the shared one exactly where its own directory is the
/// common one. Whatever is missing leaves that open, and says so.
pub open spec fn role_in(dirs: GitDirs) -> Result<TreeRole, Seq<char>> {
    match dirs.own {
        Determination::Undetermined(why) => Err(
            text::around(
                "cannot resolve --absolute-git-dir ("@,
                why@,
                "); which working tree this is cannot be told"@,
            ),
        ),
        Determination::Known(own) => match dirs.common {
            Determination::Undetermined(why) => Err(
                text::around(
                    "cannot resolve --git-common-dir ("@,
                    why@,
                    "); which working tree this is cannot be told"@,
                ),
            ),
            Determination::Known(_) => match dirs.own_resolved {
                Err(e) => Err(text::around("cannot canonicalize git dir "@, own@, ": "@) + e@),
                Ok(mine) => match dirs.common_resolved {
                    Err(e) => Err(
                        text::around("cannot canonicalize common git dir "@, dirs.common_path@, ": "@)
                            + e@,
                    ),
                    Ok(shared) => Ok(
                        if mine@ == shared@ {
                            TreeRole::Primary
                        } else {
                            TreeRole::Linked
                        },
                    ),
                },
            },
        },
    }
}

/// Which tree this is, or why that cannot be told.
pub fn observe_tree_role(dirs: &GitDirs) -> (r: Determination<TreeRole>)
    ensures
        match role_in(*dirs) {
            Ok(role) => r == Determination::Known(role),
            Err(why) => r is Undetermined && r->Undetermined_0@ == why,
        },
{
    let own = match &dirs.own {
        Determination::Known(own) => own,
        Determination::Undetermined(why) => {
            return Determination::Undetermined(
                put_around(
                    "cannot resolve --absolute-git-dir (",
                    why.as_str(),
                    "); which working tree this is cannot be told",
                ),
            );
        },
    };
    match &dirs.common {
        Determination::Known(_) => {},
        Determination::Undetermined(why) => {
            return Determination::Undetermined(
                put_around(
                    "cannot resolve --git-common-dir (",
                    why.as_str(),
                    "); which working tree this is cannot be told",
                ),
            );
        },
    }
    let mine = match &dirs.own_resolved {
        Ok(path) => path,
        Err(e) => {
            let mut why = put_around("cannot canonicalize git dir ", own.as_str(), ": ");
            why.push_str(e.as_str());
            return Determination::Undetermined(why);
        },
    };
    let shared = match &dirs.common_resolved {
        Ok(path) => path,
        Err(e) => {
            let mut why = put_around(
                "cannot canonicalize common git dir ",
                dirs.common_path.as_str(),
                ": ",
            );
            why.push_str(e.as_str());
            return Determination::Undetermined(why);
        },
    };
    if same_str(mine.as_str(), shared.as_str()) {
        Determination::Known(TreeRole::Primary)
    } else {
        Determination::Known(TreeRole::Linked)
    }
}

/// Whether a directory is there.
#[derive(Debug)]
pub enum Presence {
    Present,
    Absent,
    /// That could not be found out, and why.
    Failed(String),
}

/// The markers that git leaves of an operation that stopped.
#[derive(Debug)]
pub struct Markers {
    pub merge_head: Determination<bool>,
    pub cherry_pick_head: Determination<bool>,
    pub revert_head: Determination<bool>,
    pub rebase_merge: Presence,
    pub rebase_apply: Presence,
}

/// What a marker file says: an integration, nothing, or that nobody knows.
pub open spec fn marked(
    found: Determination<bool>,
    kind: IntegrationKind,
    name: &'static str,
) -> Result<Option<Integration>, Seq<char>> {
    match found {
        Determination::Known(true) => Ok(
            Some(Integration { kind, evidence: IntegrationEvidence::OnDisk(name) }),
        ),
        Determination::Known(false) => Ok(None),
        Determination::Undetermined(_) => Err(
            text::around("cannot read "@, name@, "; an in-progress integration cannot be ruled out"@),
        ),
    }
}

/// What a marker directory says.
pub open spec fn staged_rebase(found: Presence, name: &'static str) -> Result<
    Option<Integration>,
    Seq<char>,
> {
    match found {
        Presence::Present => Ok(
            Some(
                Integration {
                    kind: IntegrationKind::Rebase,
                    evidence: IntegrationEvidence::OnDisk(name),
                },
            ),
        ),
        Presence::Absent => Ok(None),
        Presence::Failed(e) => Err(
            text::around(
                text::around("cannot stat "@, name@, ": "@),
                e@,
                "; an in-progress rebase cannot be ruled out"@,
            ),
        ),
    }
}

/// What the markers say, looked at in order until one says something.
pub open spec fn marked_in(m: Markers) -> Result<Option<Integration>, Seq<char>> {
    let merge = marked(m.merge_head, IntegrationKind::Merge, "MERGE_HEAD");
    let pick = marked(m.cherry_pick_head, IntegrationKind::CherryPick, "CHERRY_PICK_HEAD");
    let revert = marked(m.revert_head, IntegrationKind::Revert, "REVERT_HEAD");
    let rebase = staged_rebase(m.rebase_merge, "rebase-merge");
    let apply = staged_rebase(m.rebase_apply, "rebase-apply");
    if merge != Ok::<Option<Integration>, Seq<char>>(None) {
        merge
    } else if pick != Ok::<Option<Integration>, Seq<char>>(None) {
        pick
    } else if revert != Ok::<Option<Integration>, Seq<char>>(None) {
        revert
    } else if rebase != Ok::<Option<Integration>, Seq<char>>(None) {
        rebase
    } else {
        apply
    }
}

/// Whether an integration is in progress. What the invocation declares comes
/// first; the markers are looked for otherwise.
pub open spec fn integration_in(
    hook: Option<Seq<char>>,
    action: Option<Seq<char>>,
    git_dir: Determination<String>,
    markers: Markers,
) -> Result<Option<Integration>, Seq<char>> {
    if declares_merge(hook, action) {
        Ok(
            Some(
                Integration {
                    kind: IntegrationKind::Merge,
                    evidence: IntegrationEvidence::HookInvocation,
                },
            ),
        )
    } else {
        match git_dir {
            Determination::Undetermined(why) => Err(
                text::around(
                    "cannot resolve --absolute-git-dir ("@,
                    why@,
                    "); an in-progress integration cannot be ruled out"@,
                ),
            ),
            Determination::Known(_) => marked_in(markers),
        }
    }
}

/// What a marker file says, or that it says nothing.
fn marker(found: &Determination<bool>, kind: IntegrationKind, name: &'static str) -> (r: Option<
    Determination<Option<Integration>>,
>)
    ensures
        match marked(*found, kind, name) {
            Ok(None) => r is None,
            Ok(i) => r == Some(Determination::Known(i)),
            Err(why) => r matches Some(d) && d is Undetermined && d->Undetermined_0@ == why,
        },
{
    match found {
        Determination::Known(true) => Some(
            Determination::Known(
                Some(Integration { kind, evidence: IntegrationEvidence::OnDisk(name) }),
            ),
        ),
        Determination::Known(false) => None,
        Determination::Undetermined(_) => Some(
            Determination::Undetermined(
                put_around(
                    "cannot read ",
                    name,
                    "; an in-progress integration cannot be ruled out",
                ),
            ),
        ),
    }
}

/// What a marker directory says, or that it says nothing.
fn rebase_marker(found: &Presence, name: &'static str) -> (r: Option<
    Determination<Option<Integration>>,
>)
    ensures
        match staged_rebase(*found, name) {
            Ok(None) => r is None,
            Ok(i) => r == Some(Determination::Known(i)),
            Err(why) => r matches Some(d) && d is Undetermined && d->Undetermined_0@ == why,
        },
{
    match found {
        Presence::Present => Some(
            Determination::Known(
                Some(
                    Integration {
                        kind: IntegrationKind::Rebase,
                        evidence: IntegrationEvidence::OnDisk(name),
                    },
                ),
            ),
        ),
        Presence::Absent => None,
        Presence::Failed(e) => {
            let head = put_around("cannot stat ", name, ": ");
            Some(
                Determination::Undetermined(
                    put_around(
                        head.as_str(),
                        e.as_str(),
                        "; an in-progress rebase cannot be ruled out",
                    ),
                ),
            )
        },
    }
}

/// Whether an integration is in progress, or why that cannot be told.
pub fn observe_integration(
    hook: Option<&str>,
    reflog_action: Option<&str>,
    git_dir: &Determination<String>,
    markers: &Markers,
) -> (r: Determination<Option<Integration>>)
    ensures
        match integration_in(
            text::opt_str(hook),
            text::opt_str(reflog_action),
            *git_dir,
            *markers,
        ) {
            Ok(i) => r == Determination::Known(i),
            Err(why) => r is Undetermined && r->Undetermined_0@ == why,
        },
{
    match declared_integration(hook, reflog_action) {
        Some(declared) => return Determination::Known(Some(declared)),
        None => {},
    }
    match git_dir {
        Determination::Known(_) => {},
        Determination::Undetermined(why) => {
            return Determination::Undetermined(
                put_around(
                    "cannot resolve --absolute-git-dir (",
                    why.as_str(),
                    "); an in-progress integration cannot be ruled out",
                ),
            );
        },
    }
    match marker(&markers.merge_head, IntegrationKind::Merge, "MERGE_HEAD") {
        Some(d) => return d,
        None => {},
    }
    match marker(&markers.cherry_pick_head, IntegrationKind::CherryPick, "CHERRY_PICK_HEAD") {
        Some(d) => return d,
        None => {},
    }
    match marker(&markers.revert_head, IntegrationKind::Revert, "REVERT_HEAD") {
        Some(d) => return d,
        None => {},
    }
    match rebase_marker(&markers.rebase_merge, "rebase-merge") {
        Some(d) => return d,
        None => {},
    }
    match rebase_marker(&markers.rebase_apply, "rebase-apply") {
        Some(d) => return d,
        None => {},
    }
    Determination::Known(None)
}

/// The staged paths, or why they are not known.
pub fn observe_staged(listed: Determination<Vec<String>>) -> (r: Determination<Vec<String>>)
    ensures
        match listed {
            Determination::Known(paths) => r == Determination::Known(paths),
            Determination::Undetermined(why) => r is Undetermined && r->Undetermined_0@ == text::around(
                "`git diff --cached --name-only` did not run to a conclusion ("@,
                why@,
                "); what this commit contains is unknown"@,
            ),
        },
{
    match listed {
        Determination::Known(paths) => Determination::Known(paths),
        Determination::Undetermined(why) => Determination::Undetermined(
            put_around(
                "`git diff --cached --name-only` did not run to a conclusion (",
                why.as_str(),
                "); what this commit contains is unknown",
            ),
        ),
    }
}

// ---- observing other sessions --------------------------------------------

/// The sessions of a roster that are live and not this one. The first entry that
/// does not say who it is or how many leases it holds leaves the whole question
/// open.
pub open spec fn roster(entries: Seq<JsonView>, me: Option<Seq<char>>) -> Result<
    Seq<PeerView>,
    Seq<char>,
>
    decreases entries.len(),
{
    if entries.len() == 0 {
        Ok(Seq::empty())
    } else {
        let entry = entries.last();
        match roster(entries.drop_last(), me) {
            Err(why) => Err(why),
            Ok(peers) => match entry.text_at("session_id"@) {
                None => Err(
                    "overwatch status --json: a session roster has no string `session_id`; liveness is unknown"@,
                ),
                Some(id) => match live_count(entry) {
                    None => Err(
                        "overwatch status --json: a session roster has no numeric `live_count`; liveness is unknown"@,
                    ),
                    Some(live) => if live == 0 || me == Some(id) {
                        Ok(peers)
                    } else {
                        Ok(
                            peers.push(
                                PeerView {
                                    session_id: id,
                                    source: PeerSource::OverwatchLease,
                                    detail: text::dec(live as nat) + " live lease(s)"@,
                                },
                            ),
                        )
                    },
                },
            },
        }
    }
}

/// How many live leases an entry of a roster holds, if it says.
pub open spec fn live_count(entry: JsonView) -> Option<u64> {
    match entry.get("live_count"@) {
        Some(v) => v.as_u64(),
        None => None,
    }
}

/// The live sessions in what `overwatch status --json` printed. No roster at all
/// is how it prints an empty one.
pub open spec fn sessions_in(document: Result<JsonView, Seq<char>>, me: Option<Seq<char>>) -> Result<
    Seq<PeerView>,
    Seq<char>,
> {
    match document {
        Err(e) => Err(
            text::around(
                "overwatch status --json did not emit JSON ("@,
                e,
                "); liveness is unknown"@,
            ),
        ),
        Ok(doc) => if !(doc is Object) {
            Err("overwatch status --json emitted a non-object; liveness is unknown"@)
        } else {
            match doc.get("sessions"@) {
                None => Ok(Seq::empty()),
                Some(JsonView::Array(entries)) => roster(entries, me),
                Some(_) => Err(
                    "overwatch status --json: `sessions` is not an array; liveness is unknown"@,
                ),
            }
        },
    }
}

/// What was found out about sessions.
pub open spec fn peers_found(d: Determination<Vec<PeerSession>>) -> Result<
    Seq<PeerView>,
    Seq<char>,
> {
    match d {
        Determination::Known(peers) => Ok(peer_views(peers@)),
        Determination::Undetermined(why) => Err(why@),
    }
}

/// The name of this session is `id`.
fn is_me(me: Option<&str>, id: &String) -> (r: bool)
    ensures
        r == (text::opt_str(me) == Some(id@)),
{
    match me {
        Some(m) => same_str(m, id.as_str()),
        None => false,
    }
}

/// The live sessions of a roster.
fn read_roster(entries: &Vec<Json>, me: Option<&str>) -> (r: Determination<Vec<PeerSession>>)
    ensures
        peers_found(r) == roster(entries@.map_values(|j: Json| j@), text::opt_str(me)),
{
    let ghost all = entries@.map_values(|j: Json| j@);
    let ghost my = text::opt_str(me);
    let mut peers: Vec<PeerSession> = Vec::new();
    assert(peer_views(peers@) =~= Seq::empty());
    let mut i: usize = 0;
    while i < entries.len()
        invariant
            all == entries@.map_values(|j: Json| j@),
            my == text::opt_str(me),
            i <= entries@.len(),
            roster(all.take(i as int), my) == Ok::<Seq<PeerView>, Seq<char>>(peer_views(peers@)),
        decreases entries@.len() - i,
    {
        let ghost upto = all.take(i as int + 1);
        assert(upto.drop_last() =~= all.take(i as int));
        assert(upto.last() == entries@[i as int]@);
        let entry = &entries[i];
        let id = match entry.text_at("session_id") {
            Some(id) => id,
            None => {
                proof {
                    lemma_roster_fails(all, my, i as int + 1);
                }
                return Determination::undetermined(
                    "overwatch status --json: a session roster has no string `session_id`; liveness is unknown",
                );
            },
        };
        let count = match entry.get("live_count") {
            Some(v) => v.as_u64(),
            None => None,
        };
        let live = match count {
            Some(live) => live,
            None => {
                proof {
                    lemma_roster_fails(all, my, i as int + 1);
                }
                return Determination::undetermined(
                    "overwatch status --json: a session roster has no numeric `live_count`; liveness is unknown",
                );
            },
        };
        if live != 0 && !is_me(me, id) {
            let mut detail = dec_text(live);
            detail.push_str(" live lease(s)");
            let p = PeerSession {
                session_id: id.clone(),
                source: PeerSource::OverwatchLease,
                detail,
            };
            let ghost before = peer_views(peers@);
            let ghost added = p@;
            peers.push(p);
            assert(peer_views(peers@) =~= before.push(added));
        }
        i += 1;
    }
    assert(all.take(i as int) =~= all);
    Determination::Known(peers)
}

/// A roster that fails at its beginning fails as a whole, for the same reason.
proof fn lemma_roster_fails(entries: Seq<JsonView>, me: Option<Seq<char>>, n: int)
    requires
        0 <= n <= entries.len(),
        roster(entries.take(n), me) is Err,
    ensures
        roster(entries, me) == roster(entries.take(n), me),
    decreases entries.len() - n,
{
    if n == entries.len() {
        assert(entries.take(n) =~= entries);
    } else {
        assert(entries.take(n + 1).drop_last() =~= entries.take(n));
        lemma_roster_fails(entries, me, n + 1);
    }
}

/// The live sessions in a document of `overwatch status --json`, or why they are
/// not known.
pub fn read_overwatch(document: &Result<Json, String>, self_session: Option<&str>) -> (r:
    Determination<Vec<PeerSession>>)
    ensures
        peers_found(r) == sessions_in(json::outcome(*document), text::opt_str(self_session)),
{
    let doc = match document {
        Ok(doc) => doc,
        Err(e) => {
            return Determination::Undetermined(
                put_around(
                    "overwatch status --json did not emit JSON (",
                    e.as_str(),
                    "); liveness is unknown",
                ),
            );
        },
    };
    match doc {
        Json::Object(_) => {},
        _ => {
            return Determination::undetermined(
                "overwatch status --json emitted a non-object; liveness is unknown",
            );
        },
    }
    match doc.get("sessions") {
        None => {
            let none: Vec<PeerSession> = Vec::new();
            assert(peer_views(none@) =~= Seq::empty());
            Determination::Known(none)
        },
        Some(Json::Array(entries)) => {
            assert(Json::Array(*entries)@->Array_0 =~= entries@.map_values(|j: Json| j@));
            read_roster(entries, self_session)
        },
        Some(_) => Determination::undetermined(
            "overwatch status --json: `sessions` is not an array; liveness is unknown",
        ),
    }
}

/// The live sessions in what `overwatch status --json` printed.
pub fn parse_overwatch_sessions(stdout: &str, self_session: Option<&str>) -> (r: Determination<
    Vec<PeerSession>,
>)
    ensures
        peers_found(r) == sessions_in(json::read(text::trim(stdout@)), text::opt_str(self_session)),
{
    let whole = trimmed(stdout);
    let document = json::parse_or_why(whole.as_str());
    read_overwatch(&document, self_session)
}

/// The session that holds the lock of the project's backlog, if it is live and
/// not this one. A stale lock is held by nobody.
pub open spec fn holder_in(
    said: Seq<char>,
    document: Result<JsonView, Seq<char>>,
    me: Option<Seq<char>>,
) -> Result<Option<PeerView>, Seq<char>> {
    if said == "none"@ {
        Ok(None)
    } else {
        match document {
            Err(e) => Err(
                text::around(
                    "backlog lock status emitted neither `none` nor JSON ("@,
                    e,
                    "); liveness is unknown"@,
                ),
            ),
            Ok(doc) => if is_stale(doc) {
                Ok(None)
            } else {
                match doc.text_at("session_id"@) {
                    None => Err(
                        "backlog lock status: lock JSON has no string `session_id`; liveness is unknown"@,
                    ),
                    Some(id) => if me == Some(id) {
                        Ok(None)
                    } else {
                        Ok(
                            Some(
                                PeerView {
                                    session_id: id,
                                    source: PeerSource::BacklogLock,
                                    detail: pid_text(doc),
                                },
                            ),
                        )
                    },
                }
            },
        }
    }
}

/// A lock says that it is stale.
pub open spec fn is_stale(doc: JsonView) -> bool {
    match doc.get("stale"@) {
        Some(v) => v.as_bool() == Some(true),
        None => false,
    }
}

/// The process that holds a lock, as far as it is known.
pub open spec fn pid_text(doc: JsonView) -> Seq<char> {
    match doc.get("pid"@) {
        Some(v) => match v.as_i64() {
            Some(p) => "pid "@ + text::signed_dec(p as int),
            None => "pid unknown"@,
        },
        None => "pid unknown"@,
    }
}

/// What was found out about a holder.
pub open spec fn holder_found(d: Determination<Option<PeerSession>>) -> Result<
    Option<PeerView>,
    Seq<char>,
> {
    match d {
        Determination::Known(Some(p)) => Ok(Some(p@)),
        Determination::Known(None) => Ok(None),
        Determination::Undetermined(why) => Err(why@),
    }
}

fn pid_words(doc: &Json) -> (r: String)
    ensures
        r@ == pid_text(doc@),
{
    let pid = match doc.get("pid") {
        Some(v) => v.as_i64(),
        None => None,
    };
    match pid {
        Some(p) => {
            let mut r = owned("pid ");
            let number = dec_signed(p);
            r.push_str(number.as_str());
            r
        },
        None => owned("pid unknown"),
    }
}

/// The live holder in what `backlog lock status` said, given the document that
/// it spells.
pub fn read_backlog_lock(
    said: &str,
    document: &Result<Json, String>,
    self_session: Option<&str>,
) -> (r: Determination<Option<PeerSession>>)
    ensures
        holder_found(r) == holder_in(
            said@,
            json::outcome(*document),
            text::opt_str(self_session),
        ),
{
    if same_str(said, "none") {
        return Determination::Known(None);
    }
    let doc = match document {
        Ok(doc) => doc,
        Err(e) => {
            return Determination::Undetermined(
                put_around(
                    "backlog lock status emitted neither `none` nor JSON (",
                    e.as_str(),
                    "); liveness is unknown",
                ),
            );
        },
    };
    let stale = match doc.get("stale") {
        Some(v) => match v.as_bool() {
            Some(b) => b,
            None => false,
        },
        None => false,
    };
    if stale {
        return Determination::Known(None);
    }
    let id = match doc.text_at("session_id") {
        Some(id) => id,
        None => {
            return Determination::undetermined(
                "backlog lock status: lock JSON has no string `session_id`; liveness is unknown",
            );
        },
    };
    if is_me(self_session, id) {
        return Determination::Known(None);
    }
    Determination::Known(
        Some(
            PeerSession {
                session_id: id.clone(),
                source: PeerSource::BacklogLock,
                detail: pid_words(doc),
            },
        ),
    )
}

/// The live holder in what `backlog lock status` printed.
pub fn parse_backlog_lock(stdout: &str, self_session: Option<&str>) -> (r: Determination<
    Option<PeerSession>,
>)
    ensures
        holder_found(r) == holder_in(
            text::trim(stdout@),
            json::read(text::trim(stdout@)),
            text::opt_str(self_session),
        ),
{
    let said = trimmed(stdout);
    let document = json::parse_or_why(said.as_str());
    read_backlog_lock(said.as_str(), &document, self_session)
}

/// The live sessions that both reports come to. Either that is not known leaves
/// the whole question open.
pub open spec fn peers_from(
    sessions: Result<Seq<PeerView>, Seq<char>>,
    holder: Result<Option<PeerView>, Seq<char>>,
) -> Result<Seq<PeerView>, Seq<char>> {
    match sessions {
        Err(why) => Err(why),
        Ok(peers) => match holder {
            Err(why) => Err(why),
            Ok(Some(p)) => Ok(peers.push(p)),
            Ok(None) => Ok(peers),
        },
    }
}

/// Puts the two reports together.
pub fn join_peers(
    sessions: Determination<Vec<PeerSession>>,
    holder: Determination<Option<PeerSession>>,
) -> (r: Determination<Vec<PeerSession>>)
    ensures
        peers_found(r) == peers_from(peers_found(sessions), holder_found(holder)),
        sessions is Known && holder is Known <==> r is Known,
        sessions is Known && holder is Known && holder->Known_0 is Some ==> r->Known_0@.len()
            == sessions->Known_0@.len() + 1 && r->Known_0@.last() == holder->Known_0->0,
        sessions is Known && holder is Known && holder->Known_0 is None ==> r->Known_0@
            == sessions->Known_0@,
{
    let mut peers = match sessions {
        Determination::Known(peers) => peers,
        Determination::Undetermined(why) => return Determination::Undetermined(why),
    };
    match holder {
        Determination::Known(Some(p)) => {
            let ghost before = peer_views(peers@);
            let ghost added = p@;
            peers.push(p);
            assert(peer_views(peers@) =~= before.push(added));
        },
        Determination::Known(None) => {},
        Determination::Undetermined(why) => return Determination::Undetermined(why),
    }
    Determination::Known(peers)
}

/// The live sessions other than this one, from what the two tools printed. A
/// tool that could not be asked leaves the question open.
pub fn observe_peers(
    overwatch: &Determination<String>,
    backlog: &Determination<String>,
    self_session: Option<&str>,
) -> (r: Determination<Vec<PeerSession>>)
    ensures
        peers_found(r) == (match *overwatch {
            Determination::Undetermined(why) => Err(why@),
            Determination::Known(status) => peers_from(
                sessions_in(json::read(text::trim(status@)), text::opt_str(self_session)),
                match *backlog {
                    Determination::Undetermined(why) => Err(why@),
                    Determination::Known(lock) => holder_in(
                        text::trim(lock@),
                        json::read(text::trim(lock@)),
                        text::opt_str(self_session),
                    ),
                },
            ),
        }),
        overwatch is Undetermined || backlog is Undetermined ==> r is Undetermined,
{
    let sessions = match overwatch {
        Determination::Known(status) => parse_overwatch_sessions(status.as_str(), self_session),
        Determination::Undetermined(why) => return Determination::Undetermined(why.clone()),
    };
    let holder = match backlog {
        Determination::Known(lock) => parse_backlog_lock(lock.as_str(), self_session),
        Determination::Undetermined(why) => Determination::Undetermined(why.clone()),
    };
    join_peers(sessions, holder)
}

/// Whether anything but the tree's role has to be looked at.
pub fn looks_further(tree_role: &Determination<TreeRole>) -> (r: bool)
    ensures
        r == (*tree_role != Determination::Known(TreeRole::Linked)),
{
    match tree_role {
        Determination::Known(TreeRole::Linked) => false,
        _ => true,
    }
}

/// Puts the observations together. In a linked tree nothing else counts.
pub fn observe(
    tree_role: Determination<TreeRole>,
    integration: Determination<Option<Integration>>,
    staged_paths: Determination<Vec<String>>,
    peers: Determination<Vec<PeerSession>>,
) -> (r: Observations)
    ensures
        r.tree_role == tree_role,
        tree_role != Determination::Known(TreeRole::Linked) ==> r.integration == integration
            && r.staged_paths == staged_paths && r.peers == peers,
        tree_role == Determination::Known(TreeRole::Linked) ==> {
            &&& r.integration == Determination::Known(None::<Integration>)
            &&& r.staged_paths is Known && r.staged_paths->Known_0@.len() == 0
            &&& r.peers is Known && r.peers->Known_0@.len() == 0
        },
{
    if looks_further(&tree_role) {
        Observations { tree_role, integration, staged_paths, peers }
    } else {
        Observations {
            tree_role,
            integration: Determination::Known(None),
            staged_paths: Determination::Known(Vec::new()),
            peers: Determination::Known(Vec::new()),
        }
    }
}

// ---- the command ---------------------------------------------------------

/// The word for a verdict.
pub open spec fn verdict_word(v: VerdictView) -> Seq<char> {
    match v {
        VerdictView::Clean => "clean"@,
        VerdictView::Violation(_) => "violation"@,
        VerdictView::Undetermined(_) => "undetermined"@,
    }
}

/// What the guard prints for a machine.
#[derive(Debug)]
pub struct GuardReport {
    pub verdict: &'static str,
    pub reason: Option<String>,
    pub override_reason: Option<String>,
    pub pass_note: Option<String>,
    pub blocks: bool,
    pub exit_code: i32,
}

/// The report on a decision.
pub fn guard_report(d: &Decision) -> (r: GuardReport)
    ensures
        r.verdict@ == verdict_word(d.verdict@),
        text::opt(r.reason) == verdict::reason_in(d.verdict@),
        text::opt(r.override_reason) == text::opt(d.override_reason),
        text::opt(r.pass_note) == text::opt(d.pass_note),
        r.blocks == refuses(d.verdict@, text::opt(d.override_reason)),
        r.exit_code == exit_of(d.verdict@, text::opt(d.override_reason)),
{
    GuardReport {
        verdict: match &d.verdict {
            Verdict::Clean => "clean",
            Verdict::Violation(_) => "violation",
            Verdict::Undetermined(_) => "undetermined",
        },
        reason: d.verdict.reason(),
        override_reason: text::copy_opt(&d.override_reason),
        pass_note: text::copy_opt(&d.pass_note),
        blocks: d.blocks(),
        exit_code: d.exit_code(),
    }
}

/// What the guard says about a pass that is worth a word.
pub open spec fn pass_line(note: Seq<char>) -> Seq<char> {
    text::around(
        "main-tree-guard: allowed — "@,
        note,
        " (charter §8 permits this in the main tree)"@,
    )
}

/// What the guard says about a verdict, if there is anything to say.
pub open spec fn verdict_line(v: VerdictView, override_reason: Option<Seq<char>>) -> Option<
    Seq<char>,
> {
    match v {
        VerdictView::Clean => None,
        _ => match override_reason {
            Some(why) => Some(
                text::around("main-tree-guard: BYPASSED by CONDUKT_MAINTREE_OVERRIDE: "@, why, ""@)
                    + "\n  the guard's finding stands and is not rewritten by the bypass:\n  "@
                    + verdict::reason_in(v)->0,
            ),
            None => match v {
                VerdictView::Undetermined(why) => Some(
                    text::around(
                        "main-tree-guard: UNDETERMINED — "@,
                        why,
                        "\n  \"could not check\" is not \"clean\", so this blocks."@,
                    ),
                ),
                _ => Some(
                    text::around("main-tree-guard: BLOCKED — "@, verdict::reason_in(v)->0, ""@),
                ),
            },
        },
    }
}

/// What the guard says for a human.
pub open spec fn guard_said(
    v: VerdictView,
    override_reason: Option<Seq<char>>,
    pass_note: Option<Seq<char>>,
) -> Seq<Seq<char>> {
    let notes = match pass_note {
        Some(note) => seq![pass_line(note)],
        None => Seq::empty(),
    };
    match verdict_line(v, override_reason) {
        Some(line) => notes.push(line),
        None => notes,
    }
}

fn verdict_text(d: &Decision) -> (r: Option<String>)
    ensures
        text::opt(r) == verdict_line(d.verdict@, text::opt(d.override_reason)),
{
    let reason = match d.verdict.reason() {
        Some(reason) => reason,
        None => return None,
    };
    match &d.override_reason {
        Some(why) => {
            let mut line = put_around(
                "main-tree-guard: BYPASSED by CONDUKT_MAINTREE_OVERRIDE: ",
                why.as_str(),
                "",
            );
            line.push_str("\n  the guard's finding stands and is not rewritten by the bypass:\n  ");
            line.push_str(reason.as_str());
            Some(line)
        },
        None => match &d.verdict {
            Verdict::Undetermined(_) => Some(
                put_around(
                    "main-tree-guard: UNDETERMINED — ",
                    reason.as_str(),
                    "\n  \"could not check\" is not \"clean\", so this blocks.",
                ),
            ),
            _ => Some(put_around("main-tree-guard: BLOCKED — ", reason.as_str(), "")),
        },
    }
}

/// What the guard says about a decision, line by line.
pub fn guard_lines(d: &Decision) -> (r: Vec<String>)
    ensures
        text::texts(r@) == guard_said(
            d.verdict@,
            text::opt(d.override_reason),
            text::opt(d.pass_note),
        ),
{
    let mut lines: Vec<String> = Vec::new();
    match &d.pass_note {
        Some(note) => {
            lines.push(
                put_around(
                    "main-tree-guard: allowed — ",
                    note.as_str(),
                    " (charter §8 permits this in the main tree)",
                ),
            );
        },
        None => {},
    }
    let ghost notes = match text::opt(d.pass_note) {
        Some(note) => seq![pass_line(note)],
        None => Seq::empty(),
    };
    assert(text::texts(lines@) =~= notes);
    match verdict_text(d) {
        Some(line) => {
            let ghost added = line@;
            lines.push(line);
            assert(text::texts(lines@) =~= notes.push(added));
        },
        None => {},
    }
    lines
}

/// What the guard does: what it says, what it reports, and how it exits.
#[derive(Debug)]
pub struct GuardRun {
    pub lines: Vec<String>,
    /// Printed in place of the lines, where a report was asked for.
    pub report: Option<GuardReport>,
    pub exit_code: i32,
}

/// Runs the guard. Without a root of the working tree there is nothing to decide
/// on, and the guard blocks, unless it is passed by.
pub fn run_guard(
    root: &Determination<String>,
    obs: Observations,
    override_raw: Option<&str>,
    json: bool,
) -> (r: GuardRun)
    ensures
        match *root {
            Determination::Undetermined(why) => {
                &&& text::texts(r.lines@) == seq![
                    "main-tree-guard: UNDETERMINED — cannot resolve the working tree root; this blocks."@,
                ]
                &&& r.report is None
                &&& r.exit_code == exit_of(
                    VerdictView::Undetermined(why@),
                    reason_given(text::opt_str(override_raw)),
                )
            },
            Determination::Known(_) => {
                let (v, note) = adjudged(obs);
                let passed_by = if v is Clean {
                    None
                } else {
                    reason_given(text::opt_str(override_raw))
                };
                &&& r.exit_code == exit_of(v, passed_by)
                &&& r.report is Some <==> json
                &&& r.report matches Some(rep) ==> {
                    &&& rep.verdict@ == verdict_word(v)
                    &&& text::opt(rep.reason) == verdict::reason_in(v)
                    &&& text::opt(rep.override_reason) == passed_by
                    &&& text::opt(rep.pass_note) == note
                    &&& rep.blocks == refuses(v, passed_by)
                    &&& rep.exit_code == r.exit_code
                }
                &&& text::texts(r.lines@) == (if json {
                    Seq::empty()
                } else {
                    guard_said(v, passed_by, note)
                })
            },
        },
        *root is Undetermined && override_raw is None ==> r.exit_code == 2,
        r.exit_code == 1 ==> *root is Known && adjudged(obs).0 is Violation,
{
    match root {
        Determination::Known(_) => {},
        Determination::Undetermined(why) => {
            let decision = Decision {
                verdict: Verdict::Undetermined(why.clone()),
                override_reason: sanitize_override(override_raw),
                pass_note: None,
            };
            let mut lines: Vec<String> = Vec::new();
            lines.push(
                owned(
                    "main-tree-guard: UNDETERMINED — cannot resolve the working tree root; this blocks.",
                ),
            );
            assert(text::texts(lines@) =~= seq![
                "main-tree-guard: UNDETERMINED — cannot resolve the working tree root; this blocks."@,
            ]);
            return GuardRun { lines, report: None, exit_code: decision.exit_code() };
        },
    }
    let decision = decide(obs, override_raw);
    let exit_code = decision.exit_code();
    if json {
        let lines: Vec<String> = Vec::new();
        assert(text::texts(lines@) =~= Seq::empty());
        GuardRun { lines, report: Some(guard_report(&decision)), exit_code }
    } else {
        GuardRun { lines: guard_lines(&decision), report: None, exit_code }
    }
}

// ---- laws ----------------------------------------------------------------

/// The guard is clean in exactly four cases: a linked tree, an integration in
/// progress, nothing staged, or nobody else live. In each of them everything
/// that had to be looked at was seen.
pub proof fn the_guard_is_clean_in_four_cases(obs: Observations)
    ensures
        adjudged(obs).0 is Clean <==> {
            ||| obs.tree_role == Determination::Known(TreeRole::Linked)
            ||| obs.tree_role is Known && obs.integration matches Determination::Known(Some(_))
            ||| obs.tree_role is Known && obs.integration is Known && obs.staged_paths is Known
                && obs.staged_paths->Known_0@.len() == 0
            ||| obs.tree_role is Known && obs.integration is Known && obs.staged_paths is Known
                && obs.peers is Known && obs.peers->Known_0@.len() == 0
        },
{
}

/// A commit that goes through is one with exit code 0, and the other way round.
pub proof fn exit_zero_is_going_through(v: VerdictView, override_reason: Option<Seq<char>>)
    ensures
        exit_of(v, override_reason) == 0 <==> !refuses(v, override_reason),
{
}

/// A pass is worth a word exactly where an integration is what let the commit
/// through.
pub proof fn only_an_integration_is_announced(obs: Observations)
    ensures
        adjudged(obs).1 is Some ==> adjudged(obs).0 is Clean && (obs.integration matches
            Determination::Known(Some(i)) && adjudged(obs).1 == Some(described(i))),
        obs.tree_role == Determination::Known(TreeRole::Primary) && (obs.integration matches
            Determination::Known(Some(_))) ==> adjudged(obs).1 is Some,
{
}

/// A session that cannot name itself counts every live session of a roster as
/// another one.
pub proof fn nobody_is_left_out_without_a_name(entries: Seq<JsonView>, i: int)
    requires
        0 <= i < entries.len(),
        roster(entries, None) is Ok,
        live_count(entries[i]) is Some,
        live_count(entries[i])->0 > 0,
    ensures
        exists|k: int|
            0 <= k < roster(entries, None)->Ok_0.len() && Some(
                (#[trigger] roster(entries, None)->Ok_0[k]).session_id,
            ) == entries[i].text_at("session_id"@),
    decreases entries.len(),
{
    let init = entries.drop_last();
    let all = roster(entries, None)->Ok_0;
    if i < entries.len() - 1 {
        assert(init[i] == entries[i]);
        nobody_is_left_out_without_a_name(init, i);
        let before = roster(init, None)->Ok_0;
        let k = choose|k: int|
            0 <= k < before.len() && Some((#[trigger] before[k]).session_id)
                == entries[i].text_at("session_id"@);
        assert(all[k] == before[k]);
    } else {
        assert(all[all.len() - 1].session_id == entries[i].text_at("session_id"@)->0);
    }
}

/// This session is never taken for another one.
pub proof fn a_session_is_not_its_own_peer(entries: Seq<JsonView>, me: Seq<char>)
    requires
        roster(entries, Some(me)) is Ok,
    ensures
        forall|k: int|
            0 <= k < roster(entries, Some(me))->Ok_0.len() ==> (#[trigger] roster(
                entries,
                Some(me),
            )->Ok_0[k]).session_id != me,
    decreases entries.len(),
{
    if entries.len() > 0 {
        a_session_is_not_its_own_peer(entries.drop_last(), me);
    }
}

/// Where both tools could be read, the peers are the sessions of the roster, in
/// their order, and after them the holder of the backlog lock, where there is
/// one, whatever the roster says; nobody else. Where either could not be read,
/// the peers are unknown, for the first reason.
pub proof fn the_peers_are_the_roster_and_the_holder(
    sessions: Result<Seq<PeerView>, Seq<char>>,
    holder: Result<Option<PeerView>, Seq<char>>,
)
    ensures
        peers_from(sessions, holder) is Ok <==> sessions is Ok && holder is Ok,
        sessions is Ok && holder is Ok ==> {
            let told = sessions->Ok_0;
            let peers = peers_from(sessions, holder)->Ok_0;
            &&& forall|k: int| 0 <= k < told.len() ==> #[trigger] peers[k] == told[k]
            &&& holder->Ok_0 is Some ==> peers.len() == told.len() + 1 && peers[told.len() as int]
                == holder->Ok_0->0 && peers.contains(holder->Ok_0->0)
            &&& holder->Ok_0 is None ==> peers.len() == told.len()
        },
        sessions is Err ==> peers_from(sessions, holder) == sessions,
        sessions is Ok && holder is Err ==> peers_from(sessions, holder)->Err_0 == holder->Err_0,
{
    if sessions is Ok && holder is Ok && holder->Ok_0 is Some {
        let peers = peers_from(sessions, holder)->Ok_0;
        assert(peers[sessions->Ok_0.len() as int] == holder->Ok_0->0);
    }
}

/// What was found of the peers is what each session says of itself.
pub proof fn peers_are_told_as_they_are(
    found: Determination<Vec<PeerSession>>,
    held: Determination<Option<PeerSession>>,
)
    ensures
        found is Known <==> peers_found(found) is Ok,
        found is Known ==> {
            let told = peers_found(found)->Ok_0;
            &&& told.len() == found->Known_0@.len()
            &&& forall|k: int|
                0 <= k < told.len() ==> (#[trigger] told[k]).session_id
                    == found->Known_0@[k].session_id@ && told[k].source
                    == found->Known_0@[k].source && told[k].detail
                    == found->Known_0@[k].detail@
        },
        found is Undetermined ==> peers_found(found)->Err_0 == found->Undetermined_0@,
        held is Known <==> holder_found(held) is Ok,
        held is Known ==> (held->Known_0 is Some <==> holder_found(held)->Ok_0 is Some),
        held is Known && held->Known_0 is Some ==> {
            let told = holder_found(held)->Ok_0->0;
            &&& told.session_id == held->Known_0->0.session_id@
            &&& told.source == held->Known_0->0.source
            &&& told.detail == held->Known_0->0.detail@
        },
        held is Undetermined ==> holder_found(held)->Err_0 == held->Undetermined_0@,
{
}

/// A live holder of the backlog lock stops a commit in the primary tree, though
/// the roster is empty: with something staged and no integration going on, the
/// guard finds a violation, and without a bypass it exits with one.
pub proof fn a_lone_holder_stops_the_commit(obs: Observations, p: PeerView)
    requires
        obs.tree_role == Determination::Known(TreeRole::Primary),
        obs.integration == Determination::Known(None::<Integration>),
        obs.staged_paths is Known,
        obs.staged_paths->Known_0@.len() > 0,
        peers_found(obs.peers) == peers_from(
            Ok::<Seq<PeerView>, Seq<char>>(Seq::empty()),
            Ok::<Option<PeerView>, Seq<char>>(Some(p)),
        ),
    ensures
        adjudged(obs).0 is Violation,
        adjudged(obs).0->Violation_0.len() == 1,
        exit_of(adjudged(obs).0, None) == 1,
{
    assert(peers_found(obs.peers)->Ok_0.len() == 1);
}

/// The guard finds a violation exactly in the primary tree, with no integration
/// going on, something staged and a peer alive: one finding for each peer. It
/// is undetermined exactly where something that it had to look at could not be
/// read.
pub proof fn the_guard_blocks_shared_work(obs: Observations)
    ensures
        ({
            let v = adjudged(obs).0;
            let primary = obs.tree_role == Determination::Known(TreeRole::Primary);
            let alone = primary && obs.integration == Determination::Known(None::<Integration>);
            let staged = alone && obs.staged_paths is Known && obs.staged_paths->Known_0@.len() != 0;
            &&& v is Violation <==> staged && obs.peers is Known && obs.peers->Known_0@.len() != 0
            &&& v is Violation ==> v->Violation_0.len() == obs.peers->Known_0@.len()
            &&& v is Undetermined <==> {
                ||| obs.tree_role is Undetermined
                ||| primary && obs.integration is Undetermined
                ||| alone && obs.staged_paths is Undetermined
                ||| staged && obs.peers is Undetermined
            }
        }),
{
}

/// A bypass goes through with zero; without one, clean work exits with zero, a
/// violation with one, and what could not be told with two.
pub proof fn each_verdict_has_its_exit(v: VerdictView, override_reason: Option<Seq<char>>)
    ensures
        exit_of(v, override_reason) == 0 <==> override_reason is Some || v is Clean,
        exit_of(v, override_reason) == 1 <==> override_reason is None && v is Violation,
        exit_of(v, override_reason) == 2 <==> override_reason is None && v is Undetermined,
{
}

/// A reason for a bypass counts only where it says something, and is trimmed.
pub proof fn a_blank_bypass_is_none(raw: Option<Seq<char>>)
    ensures
        raw is None ==> reason_given(raw) is None,
        raw is Some && text::trim(raw->0) == Seq::<char>::empty() ==> reason_given(raw) is None,
        raw is Some && text::trim(raw->0) != Seq::<char>::empty() ==> reason_given(raw) == Some(
            text::trim(raw->0),
        ),
        reason_given(raw) is Some ==> reason_given(raw)->0.len() > 0,
{
    if raw is Some && text::trim(raw->0).len() == 0 {
        assert(text::trim(raw->0) =~= Seq::<char>::empty());
    }
}

/// A merge is taken as declared only where the hook for it said so and git's own
/// account of what it is doing bears it out.
pub proof fn a_declared_merge_takes_both(hook: Option<Seq<char>>, action: Option<Seq<char>>)
    ensures
        hook is None ==> !declares_merge(hook, action),
        action is None ==> !declares_merge(hook, action),
        declares_merge(hook, action) ==> text::trim(hook->0) == "pre-merge-commit"@,
        declares_merge(hook, action) ==> text::first_word(action->0) == "merge"@ || text::first_word(
            action->0,
        ) == "pull"@,
        hook is Some && text::trim(hook->0) == "pre-merge-commit"@ && action is Some
            && text::first_word(action->0) == "merge"@ ==> declares_merge(hook, action),
        hook is Some && text::trim(hook->0) == "pre-merge-commit"@ && action is Some
            && text::first_word(action->0) == "pull"@ ==> declares_merge(hook, action),
{
}

/// A tree is the primary one exactly where its own git directory is the common
/// one, and a linked one exactly where it is another; where any of the two could
/// not be found or resolved, that is not guessed.
pub proof fn a_tree_is_primary_where_its_directory_is_shared(dirs: GitDirs)
    ensures
        role_in(dirs) is Ok <==> dirs.own is Known && dirs.common is Known && dirs.own_resolved is Ok
            && dirs.common_resolved is Ok,
        role_in(dirs) is Ok ==> (role_in(dirs)->Ok_0 == TreeRole::Primary <==> dirs.own_resolved->Ok_0@
            == dirs.common_resolved->Ok_0@),
        role_in(dirs) is Ok ==> (role_in(dirs)->Ok_0 == TreeRole::Linked <==> dirs.own_resolved->Ok_0@
            != dirs.common_resolved->Ok_0@),
{
}

/// No integration is going on exactly where every trace of one was looked for
/// and is absent. One that is present is found where those before it are absent,
/// as its own kind; and one that could not be read is never passed over.
pub proof fn every_trace_of_an_integration_counts(m: Markers)
    ensures
        ({
            let found = marked_in(m);
            let no_merge = m.merge_head == Determination::Known(false);
            let no_pick = no_merge && m.cherry_pick_head == Determination::Known(false);
            let no_revert = no_pick && m.revert_head == Determination::Known(false);
            let no_rebase = no_revert && m.rebase_merge is Absent;
            &&& (found is Ok && found->Ok_0 is None) <==> no_rebase && m.rebase_apply is Absent
            &&& m.merge_head is Undetermined ==> found is Err
            &&& m.merge_head == Determination::Known(true) ==> found is Ok && found->Ok_0
                is Some && found->Ok_0->0.kind == IntegrationKind::Merge
            &&& no_merge && m.cherry_pick_head is Undetermined ==> found is Err
            &&& no_merge && m.cherry_pick_head == Determination::Known(true) ==> found is Ok
                && found->Ok_0 is Some && found->Ok_0->0.kind == IntegrationKind::CherryPick
            &&& no_pick && m.revert_head is Undetermined ==> found is Err
            &&& no_pick && m.revert_head == Determination::Known(true) ==> found is Ok
                && found->Ok_0 is Some && found->Ok_0->0.kind == IntegrationKind::Revert
            &&& no_revert && m.rebase_merge is Failed ==> found is Err
            &&& no_revert && m.rebase_merge is Present ==> found is Ok && found->Ok_0 is Some
                && found->Ok_0->0.kind == IntegrationKind::Rebase
            &&& no_rebase && m.rebase_apply is Failed ==> found is Err
            &&& no_rebase && m.rebase_apply is Present ==> found is Ok && found->Ok_0 is Some
                && found->Ok_0->0.kind == IntegrationKind::Rebase
            &&& found is Ok && found->Ok_0 is Some ==> found->Ok_0->0.evidence is OnDisk
        }),
{
}

/// A declared merge is one, whatever is on disk; without it, the traces on disk
/// decide, and where the git directory could not be found nothing is ruled out.
pub proof fn an_integration_is_declared_or_traced(
    hook: Option<Seq<char>>,
    action: Option<Seq<char>>,
    git_dir: Determination<String>,
    m: Markers,
)
    ensures
        declares_merge(hook, action) ==> integration_in(hook, action, git_dir, m) is Ok
            && integration_in(hook, action, git_dir, m)->Ok_0 is Some && integration_in(
            hook,
            action,
            git_dir,
            m,
        )->Ok_0->0.kind == IntegrationKind::Merge && integration_in(
            hook,
            action,
            git_dir,
            m,
        )->Ok_0->0.evidence is HookInvocation,
        !declares_merge(hook, action) && git_dir is Undetermined ==> integration_in(
            hook,
            action,
            git_dir,
            m,
        ) is Err,
        !declares_merge(hook, action) && git_dir is Known ==> integration_in(
            hook,
            action,
            git_dir,
            m,
        ) == marked_in(m),
{
}

/// The roster can be read exactly where every entry has a name and a count, and
/// then each of its peers is a session of the roster with a live lease and another
/// name than this one's, told as such.
pub proof fn the_roster_is_read_whole_or_not_at_all(entries: Seq<JsonView>, me: Option<Seq<char>>)
    ensures
        roster(entries, me) is Ok <==> forall|i: int|
            0 <= i < entries.len() ==> (#[trigger] entries[i]).text_at("session_id"@) is Some
                && entries[i].get("live_count"@) is Some
                && entries[i].get("live_count"@)->0.as_u64() is Some,
        roster(entries, me) is Ok ==> forall|k: int|
            0 <= k < roster(entries, me)->Ok_0.len() ==> {
                let p = #[trigger] roster(entries, me)->Ok_0[k];
                &&& p.source == PeerSource::OverwatchLease
                &&& Some(p.session_id) != me
                &&& exists|i: int|
                    0 <= i < entries.len() && (#[trigger] entries[i]).text_at("session_id"@) == Some(
                        p.session_id,
                    ) && entries[i].get("live_count"@)->0.as_u64()->0 > 0
            },
    decreases entries.len(),
{
    if entries.len() > 0 {
        let before = entries.drop_last();
        the_roster_is_read_whole_or_not_at_all(before, me);
        let all_read = |es: Seq<JsonView>|
            forall|i: int|
                0 <= i < es.len() ==> (#[trigger] es[i]).text_at("session_id"@) is Some
                    && es[i].get("live_count"@) is Some && es[i].get("live_count"@)->0.as_u64()
                    is Some;
        assert(entries[entries.len() - 1] == entries.last());
        assert(forall|i: int| 0 <= i < before.len() ==> #[trigger] before[i] == entries[i]);
        if all_read(before) && all_read(seq![entries.last()]) {
            assert(seq![entries.last()][0] == entries.last());
            assert forall|i: int| 0 <= i < entries.len() implies (#[trigger] entries[i]).text_at(
                "session_id"@,
            ) is Some && entries[i].get("live_count"@) is Some && entries[i].get(
                "live_count"@,
            )->0.as_u64() is Some by {
                if i < before.len() {
                    assert(before[i] == entries[i]);
                }
            }
        }
        if all_read(entries) {
            assert forall|i: int| 0 <= i < before.len() implies (#[trigger] before[i]).text_at(
                "session_id"@,
            ) is Some && before[i].get("live_count"@) is Some && before[i].get(
                "live_count"@,
            )->0.as_u64() is Some by {
                assert(before[i] == entries[i]);
            }
        }
        if roster(entries, me) is Ok {
            let told = roster(before, me)->Ok_0;
            let here = roster(entries, me)->Ok_0;
            assert forall|k: int| 0 <= k < here.len() implies {
                let p = #[trigger] here[k];
                &&& p.source == PeerSource::OverwatchLease
                &&& Some(p.session_id) != me
                &&& exists|i: int|
                    0 <= i < entries.len() && (#[trigger] entries[i]).text_at("session_id"@) == Some(
                        p.session_id,
                    ) && entries[i].get("live_count"@)->0.as_u64()->0 > 0
            } by {
                if k < told.len() {
                    assert(here[k] == told[k]);
                    let i = choose|i: int|
                        0 <= i < before.len() && (#[trigger] before[i]).text_at("session_id"@)
                            == Some(told[k].session_id)
                            && before[i].get("live_count"@)->0.as_u64()->0 > 0;
                    assert(entries[i] == before[i]);
                } else {
                    assert(entries[entries.len() - 1].text_at("session_id"@) == Some(
                        here[k].session_id,
                    ));
                }
            }
        }
    }
}

/// Every session with a live lease and another name than this one's is a peer.
pub proof fn every_other_live_session_is_a_peer(
    entries: Seq<JsonView>,
    me: Option<Seq<char>>,
    i: int,
)
    requires
        0 <= i < entries.len(),
        roster(entries, me) is Ok,
        entries[i].text_at("session_id"@) is Some,
        entries[i].text_at("session_id"@) != me,
        entries[i].get("live_count"@) is Some,
        entries[i].get("live_count"@)->0.as_u64() is Some,
        entries[i].get("live_count"@)->0.as_u64()->0 != 0,
    ensures
        exists|k: int|
            0 <= k < roster(entries, me)->Ok_0.len() && Some(
                (#[trigger] roster(entries, me)->Ok_0[k]).session_id,
            ) == entries[i].text_at("session_id"@),
    decreases entries.len(),
{
    let before = entries.drop_last();
    let told = roster(before, me)->Ok_0;
    let here = roster(entries, me)->Ok_0;
    if i < entries.len() - 1 {
        assert(before[i] == entries[i]);
        every_other_live_session_is_a_peer(before, me, i);
        let k = choose|k: int|
            0 <= k < told.len() && Some((#[trigger] told[k]).session_id) == entries[i].text_at(
                "session_id"@,
            );
        assert(here[k] == told[k]);
    } else {
        assert(here[here.len() - 1].session_id == entries[i].text_at("session_id"@)->0);
    }
}

/// The status of the sessions can be read only as an object; one that lists no
/// sessions has none.
pub proof fn a_status_is_an_object(
    document: Result<JsonView, Seq<char>>,
    me: Option<Seq<char>>,
)
    ensures
        document is Err ==> sessions_in(document, me) is Err,
        document is Ok && !(document->Ok_0 is Object) ==> sessions_in(document, me) is Err,
        document is Ok && document->Ok_0 is Object && document->Ok_0.get("sessions"@) is None
            ==> sessions_in(document, me) is Ok && sessions_in(document, me)->Ok_0.len() == 0,
        document is Ok && document->Ok_0 is Object && document->Ok_0.get("sessions"@) is Some && !(
        document->Ok_0.get("sessions"@)->0 is Array) ==> sessions_in(document, me) is Err,
        document is Ok && document->Ok_0 is Object ==> (document->Ok_0.get("sessions"@) matches Some(
            JsonView::Array(entries),
        ) ==> sessions_in(document, me) == roster(entries, me)),
{
}

/// The backlog lock has a live holder exactly where its status is an entry that
/// is not stale and has another name than this session's; it has none where it
/// is free, stale or this session's own; and otherwise that is unknown.
pub proof fn a_live_lock_has_a_holder(
    said: Seq<char>,
    document: Result<JsonView, Seq<char>>,
    me: Option<Seq<char>>,
)
    ensures
        ({
            let r = holder_in(said, document, me);
            let free = said == "none"@;
            let stale = document is Ok && document->Ok_0.get("stale"@) is Some
                && document->Ok_0.get("stale"@)->0.as_bool() == Some(true);
            let name = document->Ok_0.text_at("session_id"@);
            &&& free ==> r is Ok && r->Ok_0 is None
            &&& !free && document is Err ==> r is Err
            &&& !free && document is Ok && stale ==> r is Ok && r->Ok_0 is None
            &&& !free && document is Ok && !stale && name is None ==> r is Err
            &&& !free && document is Ok && !stale && name is Some && name == me ==> r is Ok
                && r->Ok_0 is None
            &&& !free && document is Ok && !stale && name is Some && name != me ==> r is Ok
                && r->Ok_0 is Some && Some(r->Ok_0->0.session_id) == name && r->Ok_0->0.source
                == PeerSource::BacklogLock
        }),
{
}

/// A refusal is never silent, and clean work is: a line is said exactly where the
/// verdict is not clean, after the one that announces an integration.
pub proof fn a_refusal_is_always_said(
    v: VerdictView,
    override_reason: Option<Seq<char>>,
    pass_note: Option<Seq<char>>,
)
    ensures
        guard_said(v, override_reason, pass_note).len() == (if pass_note is Some {
            1int
        } else {
            0
        }) + (if v is Clean {
            0int
        } else {
            1
        }),
        pass_note is Some ==> guard_said(v, override_reason, pass_note)[0] == pass_line(
            pass_note->0,
        ),
{
}

/// The lines that git printed are kept in their order, trimmed, without the
/// blank ones.
pub proof fn blank_lines_are_left_out(rows: Seq<Seq<char>>)
    ensures
        tidy(rows) == rows.filter(|row: Seq<char>| text::trim(row).len() > 0).map_values(
            |row: Seq<char>| text::trim(row),
        ),
    decreases rows.len(),
{
    reveal(Seq::filter);
    let said = |row: Seq<char>| text::trim(row).len() > 0;
    let cut = |row: Seq<char>| text::trim(row);
    if rows.len() > 0 {
        let before = rows.drop_last();
        blank_lines_are_left_out(before);
        assert(before.filter(said).push(rows.last()).map_values(cut) =~= before.filter(
            said,
        ).map_values(cut).push(cut(rows.last())));
    }
    assert(tidy(rows) =~= rows.filter(said).map_values(cut));
}

/// A finding names the session that it is about, where it was seen, and how many
/// paths are staged.
pub proof fn a_finding_names_the_session(p: PeerView, staged: nat)
    ensures
        text::holds_text(finding_on(p, staged), p.session_id),
        text::holds_text(finding_on(p, staged), label_of(p.source)),
        text::holds_text(finding_on(p, staged), p.detail),
        text::holds_text(finding_on(p, staged), text::dec(staged)),
{
    let gap = if p.detail.len() == 0 {
        ""@
    } else {
        ": "@
    };
    let end =
        " path(s) are staged in the PRIMARY working tree — two sessions sharing one index is the collision git cannot merge (charter §8). Commit from a worktree instead: `condukt worktree create`, or move the change with `git stash` + `git worktree add`."@;
    let a = "session "@;
    let b = " is live ("@;
    let c = ") while "@;
    let whole = finding_on(p, staged);
    let label = label_of(p.source);
    let count = text::dec(staged);
    text::a_text_holds_its_parts(
        a,
        p.session_id,
        b + label + gap + p.detail + c + count + end,
        p.session_id,
    );
    assert(whole =~= a + p.session_id + (b + label + gap + p.detail + c + count + end));
    text::a_text_holds_its_parts(
        a + p.session_id + b,
        label,
        gap + p.detail + c + count + end,
        label,
    );
    assert(whole =~= (a + p.session_id + b) + label + (gap + p.detail + c + count + end));
    text::a_text_holds_its_parts(
        a + p.session_id + b + label + gap,
        p.detail,
        c + count + end,
        p.detail,
    );
    assert(whole =~= (a + p.session_id + b + label + gap) + p.detail + (c + count + end));
    text::a_text_holds_its_parts(
        a + p.session_id + b + label + gap + p.detail + c,
        count,
        end,
        count,
    );
    assert(whole =~= (a + p.session_id + b + label + gap + p.detail + c) + count + end);
}

/// Every kind, source and verdict has a word of its own.
pub proof fn kinds_sources_and_verdicts_are_worded_apart(
    kind: IntegrationKind,
    source: PeerSource,
    v: VerdictView,
)
    ensures
        kind_name(kind) == "Merge"@ <==> kind == IntegrationKind::Merge,
        kind_name(kind) == "Rebase"@ <==> kind == IntegrationKind::Rebase,
        kind_name(kind) == "CherryPick"@ <==> kind == IntegrationKind::CherryPick,
        kind_name(kind) == "Revert"@ <==> kind == IntegrationKind::Revert,
        label_of(source) == "overwatch lease"@ <==> source == PeerSource::OverwatchLease,
        label_of(source) == "backlog lock"@ <==> source == PeerSource::BacklogLock,
        verdict_word(v) == "clean"@ <==> v is Clean,
        verdict_word(v) == "violation"@ <==> v is Violation,
        verdict_word(v) == "undetermined"@ <==> v is Undetermined,
{
    reveal_strlit("Merge");
    reveal_strlit("Rebase");
    reveal_strlit("CherryPick");
    reveal_strlit("Revert");
    reveal_strlit("overwatch lease");
    reveal_strlit("backlog lock");
    reveal_strlit("clean");
    reveal_strlit("violation");
    reveal_strlit("undetermined");
    assert("Merge"@.len() == 5 && "CherryPick"@.len() == 10);
    assert("Rebase"@.len() == 6 && "Revert"@.len() == 6);
    assert("Rebase"@[2] == 'b' && "Revert"@[2] == 'v');
    assert("overwatch lease"@.len() == 15 && "backlog lock"@.len() == 12);
    assert("clean"@.len() == 5 && "violation"@.len() == 9 && "undetermined"@.len() == 12);
}

/// A bypass leaves what was found in the line that tells of it, and so does a
/// refusal.
pub proof fn what_was_found_is_told(v: VerdictView, override_reason: Option<Seq<char>>)
    ensures
        verdict_line(v, override_reason) is None <==> v is Clean,
        v is Violation ==> text::holds_text(
            verdict_line(v, override_reason)->0,
            verdict::reason_in(v)->0,
        ),
        v is Undetermined ==> text::holds_text(
            verdict_line(v, override_reason)->0,
            v->Undetermined_0,
        ),
        !(v is Clean) && override_reason is Some ==> text::holds_text(
            verdict_line(v, override_reason)->0,
            override_reason->0,
        ),
{
    if !(v is Clean) {
        let found = verdict::reason_in(v)->0;
        let line = verdict_line(v, override_reason)->0;
        match override_reason {
            Some(why) => {
                let a = "main-tree-guard: BYPASSED by CONDUKT_MAINTREE_OVERRIDE: "@;
                let b =
                    "\n  the guard's finding stands and is not rewritten by the bypass:\n  "@;
                text::a_text_holds_its_parts(a, why, ""@ + b + found, why);
                assert(line =~= a + why + (""@ + b + found));
                text::a_text_holds_its_parts(a + why + ""@ + b, found, Seq::empty(), found);
                assert(line =~= (a + why + ""@ + b) + found + Seq::empty());
            },
            None => match v {
                VerdictView::Undetermined(why) => {
                    text::a_text_holds_its_parts(
                        "main-tree-guard: UNDETERMINED — "@,
                        why,
                        "\n  \"could not check\" is not \"clean\", so this blocks."@,
                        why,
                    );
                },
                _ => {
                    text::a_text_holds_its_parts(
                        "main-tree-guard: BLOCKED — "@,
                        found,
                        ""@,
                        found,
                    );
                },
            },
        }
    }
}

/// The process of a holder is told where it is a number, and as unknown otherwise;
/// a lock is stale only where it says so.
pub proof fn a_holder_is_told_by_its_process(doc: JsonView)
    ensures
        doc.get("pid"@) is Some && doc.get("pid"@)->0.as_i64() is Some ==> pid_text(doc) == "pid "@
            + text::signed_dec(doc.get("pid"@)->0.as_i64()->0 as int),
        doc.get("pid"@) is None || doc.get("pid"@)->0.as_i64() is None ==> pid_text(doc)
            == "pid unknown"@,
        is_stale(doc) <==> doc.get("stale"@) is Some && doc.get("stale"@)->0.as_bool() == Some(true),
        live_count(doc) is Some <==> doc.get("live_count"@) is Some
            && doc.get("live_count"@)->0.as_u64() is Some,
        live_count(doc) is Some ==> live_count(doc) == doc.get("live_count"@)->0.as_u64(),
{
}

} // verus!
