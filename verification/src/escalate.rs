//! The durable escalation channel: questions that wait for a human answer while
//! the loop goes on.
//!
//! The store is an ordered list of records. A question that is still open is
//! not asked twice; an answered one stays in the store with its answer.

use vstd::prelude::*;

use crate::text;
use crate::text::{copy_opt, copy_texts, dec_usize, hex8, owned, same};

verus! {

/// One question and, once it is resolved, its answer.
#[derive(Debug, PartialEq, Eq)]
pub struct Escalation {
    pub id: String,
    pub run: String,
    pub task: String,
    pub question: String,
    pub options: Vec<String>,
    /// Which option is recommended.
    pub recommended: usize,
    /// When the question was asked, in seconds.
    pub created_at: i64,
    pub resolved: bool,
    pub chosen: Option<String>,
}

pub struct EscalationView {
    pub id: Seq<char>,
    pub run: Seq<char>,
    pub task: Seq<char>,
    pub question: Seq<char>,
    pub options: Seq<Seq<char>>,
    pub recommended: usize,
    pub created_at: i64,
    pub resolved: bool,
    pub chosen: Option<Seq<char>>,
}

impl View for Escalation {
    type V = EscalationView;

    open spec fn view(&self) -> EscalationView {
        EscalationView {
            id: self.id@,
            run: self.run@,
            task: self.task@,
            question: self.question@,
            options: text::texts(self.options@),
            recommended: self.recommended,
            created_at: self.created_at,
            resolved: self.resolved,
            chosen: text::opt(self.chosen),
        }
    }
}

impl Clone for Escalation {
    fn clone(&self) -> (r: Escalation)
        ensures
            r@ == self@,
    {
        Escalation {
            id: self.id.clone(),
            run: self.run.clone(),
            task: self.task.clone(),
            question: self.question.clone(),
            options: copy_texts(&self.options),
            recommended: self.recommended,
            created_at: self.created_at,
            resolved: self.resolved,
            chosen: copy_opt(&self.chosen),
        }
    }
}

/// The store, in the order in which the questions were asked.
#[derive(Debug)]
pub struct Registry {
    pub escalations: Vec<Escalation>,
}

impl View for Registry {
    type V = Seq<EscalationView>;

    open spec fn view(&self) -> Seq<EscalationView> {
        self.escalations@.map_values(|e: Escalation| e@)
    }
}

impl Default for Registry {
    fn default() -> (r: Registry)
        ensures
            r@ == Seq::<EscalationView>::empty(),
    {
        let r = Registry { escalations: Vec::new() };
        assert(r@ =~= Seq::<EscalationView>::empty());
        r
    }
}

// ---- identity ------------------------------------------------------------

/// The 32-bit FNV-1a hash.
pub open spec fn fnv1a(bytes: Seq<u8>) -> u32
    decreases bytes.len(),
{
    if bytes.len() == 0 {
        2166136261
    } else {
        (fnv1a(bytes.drop_last()) ^ (bytes.last() as u32)).wrapping_mul(16777619u32)
    }
}

/// The 32-bit FNV-1a hash of the bytes of `material`.
pub fn fnv1a32(material: &str) -> (h: u32)
    ensures
        h == fnv1a(vstd::utf8::encode_utf8(material@)),
{
    let bytes = material.as_bytes();
    let mut h: u32 = 2166136261;
    let mut i: usize = 0;
    while i < bytes.len()
        invariant
            i <= bytes@.len(),
            h == fnv1a(bytes@.take(i as int)),
        decreases bytes@.len() - i,
    {
        assert(bytes@.take(i as int + 1).drop_last() =~= bytes@.take(i as int));
        h = (h ^ (bytes[i] as u32)).wrapping_mul(16777619u32);
        i += 1;
    }
    assert(bytes@.take(i as int) =~= bytes@);
    h
}

/// What the identity of a question is hashed from: how many records there were,
/// then the run, the task and the question, with unit separators between them.
pub open spec fn id_material(
    run: Seq<char>,
    task: Seq<char>,
    question: Seq<char>,
    prior_count: nat,
) -> Seq<char> {
    text::dec(prior_count) + "\u{1f}"@ + run + "\u{1f}"@ + task + "\u{1f}"@ + question
}

/// The identity of a question.
pub open spec fn id_of(
    run: Seq<char>,
    task: Seq<char>,
    question: Seq<char>,
    prior_count: nat,
) -> Seq<char> {
    "esc-"@ + text::hex(
        fnv1a(vstd::utf8::encode_utf8(id_material(run, task, question, prior_count))) as nat,
        8,
    )
}

/// The identity of a question that is asked when the store holds `prior_count`
/// records. It does not depend on the time.
pub fn derive_id(run: &str, task: &str, question: &str, prior_count: usize) -> (id: String)
    ensures
        id@ == id_of(run@, task@, question@, prior_count as nat),
{
    let mut material = dec_usize(prior_count);
    material.push_str("\u{1f}");
    material.push_str(run);
    material.push_str("\u{1f}");
    material.push_str(task);
    material.push_str("\u{1f}");
    material.push_str(question);
    let mut id = owned("esc-");
    id.push_str(hex8(fnv1a32(material.as_str())).as_str());
    id
}

// ---- the operations ------------------------------------------------------

/// `e` asks this question and is still open.
pub open spec fn asks(
    e: EscalationView,
    run: Seq<char>,
    task: Seq<char>,
    question: Seq<char>,
) -> bool {
    !e.resolved && e.run == run && e.task == task && e.question == question
}

/// `i` is the first record that asks this question and is still open.
pub open spec fn first_asking(
    all: Seq<EscalationView>,
    run: Seq<char>,
    task: Seq<char>,
    question: Seq<char>,
    i: int,
) -> bool {
    &&& 0 <= i < all.len()
    &&& asks(all[i], run, task, question)
    &&& forall|k: int| 0 <= k < i ==> !asks(#[trigger] all[k], run, task, question)
}

/// No open record asks this question.
pub open spec fn unasked(
    all: Seq<EscalationView>,
    run: Seq<char>,
    task: Seq<char>,
    question: Seq<char>,
) -> bool {
    forall|k: int| 0 <= k < all.len() ==> !asks(#[trigger] all[k], run, task, question)
}

/// The record of a new question.
pub open spec fn new_question(
    all: Seq<EscalationView>,
    run: Seq<char>,
    task: Seq<char>,
    question: Seq<char>,
    options: Seq<Seq<char>>,
    recommended: usize,
    now: i64,
) -> EscalationView {
    EscalationView {
        id: id_of(run, task, question, all.len()),
        run,
        task,
        question,
        options,
        recommended,
        created_at: now,
        resolved: false,
        chosen: None,
    }
}

/// `i` is the first record with this identity.
pub open spec fn first_with_id(all: Seq<EscalationView>, id: Seq<char>, i: int) -> bool {
    &&& 0 <= i < all.len()
    &&& all[i].id == id
    &&& forall|k: int| 0 <= k < i ==> (#[trigger] all[k]).id != id
}

/// No record has this identity.
pub open spec fn no_id(all: Seq<EscalationView>, id: Seq<char>) -> bool {
    forall|k: int| 0 <= k < all.len() ==> (#[trigger] all[k]).id != id
}

/// A record with its answer.
pub open spec fn answered(e: EscalationView, choice: Seq<char>) -> EscalationView {
    EscalationView { resolved: true, chosen: Some(choice), ..e }
}

/// The open questions of a run, in the order in which they were asked.
pub open spec fn open_questions(all: Seq<EscalationView>, run: Seq<char>) -> Seq<EscalationView> {
    all.filter(|e: EscalationView| e.run == run && !e.resolved)
}

/// Where the first record with this identity stands.
fn position(reg: &Registry, id: &str) -> (r: Option<usize>)
    ensures
        match r {
            Some(i) => first_with_id(reg@, id@, i as int),
            None => no_id(reg@, id@),
        },
{
    let mut i: usize = 0;
    while i < reg.escalations.len()
        invariant
            i <= reg.escalations@.len(),
            forall|k: int| 0 <= k < i ==> (#[trigger] reg@[k]).id != id@,
        decreases reg.escalations@.len() - i,
    {
        assert(reg@[i as int] == reg.escalations@[i as int]@);
        if same(&reg.escalations[i].id, id) {
            return Some(i);
        }
        i += 1;
    }
    None
}

/// Asks a question. One that is still open is returned as it is, and nothing is
/// added; an answered one does not stand in the way of asking again.
pub fn add_escalation(
    reg: &mut Registry,
    run: &str,
    task: &str,
    question: &str,
    options: &Vec<String>,
    recommended: usize,
    now: i64,
) -> (r: Escalation)
    ensures
        !r.resolved,
        r.run@ == run@,
        r.task@ == task@,
        r.question@ == question@,
        unasked(old(reg)@, run@, task@, question@) ==> {
            &&& r@ == new_question(
                old(reg)@,
                run@,
                task@,
                question@,
                text::texts(options@),
                recommended,
                now,
            )
            &&& final(reg)@ == old(reg)@.push(r@)
        },
        !unasked(old(reg)@, run@, task@, question@) ==> {
            &&& final(reg)@ == old(reg)@
            &&& exists|i: int| #[trigger]
                first_asking(old(reg)@, run@, task@, question@, i) && r@ == old(reg)@[i]
        },
{
    let mut i: usize = 0;
    while i < reg.escalations.len()
        invariant
            i <= reg.escalations@.len(),
            *reg == *old(reg),
            forall|k: int| 0 <= k < i ==> !asks(#[trigger] reg@[k], run@, task@, question@),
        decreases reg.escalations@.len() - i,
    {
        let e = &reg.escalations[i];
        assert(reg@[i as int] == e@);
        if !e.resolved && same(&e.run, run) && same(&e.task, task) && same(&e.question, question) {
            assert(first_asking(reg@, run@, task@, question@, i as int));
            return e.clone();
        }
        i += 1;
    }
    let rec = Escalation {
        id: derive_id(run, task, question, reg.escalations.len()),
        run: owned(run),
        task: owned(task),
        question: owned(question),
        options: copy_texts(options),
        recommended,
        created_at: now,
        resolved: false,
        chosen: None,
    };
    let r = rec.clone();
    reg.escalations.push(rec);
    assert(reg@ =~= old(reg)@.push(r@));
    r
}

/// The questions of a run that are still open, in the order in which they were
/// asked.
pub fn list_escalations(reg: &Registry, run: &str) -> (r: Vec<Escalation>)
    ensures
        r@.map_values(|e: Escalation| e@) == open_questions(reg@, run@),
        forall|i: int| 0 <= i < r@.len() ==> !(#[trigger] r@[i]).resolved && r@[i].run@ == run@,
{
    let ghost keep = |e: EscalationView| e.run == run@ && !e.resolved;
    let mut out: Vec<Escalation> = Vec::new();
    let mut i: usize = 0;
    proof {
        reveal(Seq::filter);
        assert(out@.map_values(|e: Escalation| e@) =~= reg@.take(0).filter(keep));
    }
    while i < reg.escalations.len()
        invariant
            i <= reg.escalations@.len(),
            keep == (|e: EscalationView| e.run == run@ && !e.resolved),
            out@.map_values(|e: Escalation| e@) == reg@.take(i as int).filter(keep),
            forall|k: int|
                0 <= k < out@.len() ==> !(#[trigger] out@[k]).resolved && out@[k].run@ == run@,
        decreases reg.escalations@.len() - i,
    {
        let e = &reg.escalations[i];
        proof {
            reveal(Seq::filter);
            assert(reg@.take(i as int + 1).drop_last() =~= reg@.take(i as int));
            assert(reg@.take(i as int + 1).last() == e@);
        }
        if same(&e.run, run) && !e.resolved {
            let ghost before = out@.map_values(|e: Escalation| e@);
            out.push(e.clone());
            assert(out@.map_values(|e: Escalation| e@) =~= before.push(e@));
        }
        i += 1;
    }
    assert(reg@.take(i as int) =~= reg@);
    out
}

/// Answers the first question with this identity. It stays in the store; where
/// there is none, nothing changes.
pub fn resolve_escalation(reg: &mut Registry, id: &str, choice: &str) -> (r: Option<Escalation>)
    ensures
        no_id(old(reg)@, id@) ==> r is None && final(reg)@ == old(reg)@,
        !no_id(old(reg)@, id@) ==> exists|i: int| #[trigger]
            first_with_id(old(reg)@, id@, i) && r is Some && r->0@ == answered(
                old(reg)@[i],
                choice@,
            ) && final(reg)@ == old(reg)@.update(i, r->0@),
        r is Some <==> exists|k: int| 0 <= k < old(reg)@.len() && (#[trigger] old(reg)@[k]).id == id@,
        r matches Some(e) ==> e.resolved && e.id@ == id@ && e.chosen is Some && e.chosen->0@
            == choice@,
        final(reg)@.len() == old(reg)@.len(),
        forall|k: int|
            0 <= k < old(reg)@.len() && (#[trigger] old(reg)@[k]).id != id@ ==> final(reg)@[k]
                == old(reg)@[k],
{
    match position(reg, id) {
        None => None,
        Some(i) => {
            let ghost before = reg@;
            let mut rec = reg.escalations[i].clone();
            rec.resolved = true;
            rec.chosen = Some(owned(choice));
            let r = rec.clone();
            reg.escalations.set(i, rec);
            assert(reg@ =~= before.update(i as int, r@));
            assert(first_with_id(before, id@, i as int));
            Some(r)
        },
    }
}

/// The first question with this identity, open or answered.
pub fn get_escalation(reg: &Registry, id: &str) -> (r: Option<Escalation>)
    ensures
        no_id(reg@, id@) ==> r is None,
        !no_id(reg@, id@) ==> exists|i: int| #[trigger]
            first_with_id(reg@, id@, i) && r is Some && r->0@ == reg@[i],
        r is Some <==> exists|k: int| 0 <= k < reg@.len() && (#[trigger] reg@[k]).id == id@,
        r matches Some(e) ==> e.id@ == id@ && reg@.contains(e@),
{
    match position(reg, id) {
        None => None,
        Some(i) => {
            assert(first_with_id(reg@, id@, i as int));
            Some(reg.escalations[i].clone())
        },
    }
}

// ---- laws ----------------------------------------------------------------

/// Asking an open question again changes nothing: after a question was asked, it
/// is no longer unasked, whether it was added or found.
pub proof fn an_open_question_is_asked_once(
    all: Seq<EscalationView>,
    run: Seq<char>,
    task: Seq<char>,
    question: Seq<char>,
    options: Seq<Seq<char>>,
    recommended: usize,
    now: i64,
)
    ensures
        unasked(all, run, task, question) ==> {
            let rec = new_question(all, run, task, question, options, recommended, now);
            let after = all.push(rec);
            !unasked(after, run, task, question) && first_asking(
                after,
                run,
                task,
                question,
                all.len() as int,
            ) && after[all.len() as int] == rec
        },
{
    let rec = new_question(all, run, task, question, options, recommended, now);
    let after = all.push(rec);
    if unasked(all, run, task, question) {
        assert(asks(after[all.len() as int], run, task, question));
        assert forall|k: int| 0 <= k < all.len() implies !asks(
            #[trigger] after[k],
            run,
            task,
            question,
        ) by {
            assert(after[k] == all[k]);
        }
    }
}

/// A new question can be fetched by its identity, unless an older record happens
/// to have the same one.
pub proof fn an_added_question_is_retrievable(
    all: Seq<EscalationView>,
    run: Seq<char>,
    task: Seq<char>,
    question: Seq<char>,
    options: Seq<Seq<char>>,
    recommended: usize,
    now: i64,
)
    requires
        no_id(all, id_of(run, task, question, all.len())),
    ensures
        ({
            let rec = new_question(all, run, task, question, options, recommended, now);
            first_with_id(all.push(rec), rec.id, all.len() as int) && all.push(
                rec,
            )[all.len() as int] == rec
        }),
{
    let rec = new_question(all, run, task, question, options, recommended, now);
    let after = all.push(rec);
    assert forall|k: int| 0 <= k < all.len() implies (#[trigger] after[k]).id != rec.id by {
        assert(after[k] == all[k]);
    }
}

/// What is fetched after an answer is the answered record, and it is gone from
/// the open questions of every run.
pub proof fn an_answer_is_read_back(
    all: Seq<EscalationView>,
    id: Seq<char>,
    choice: Seq<char>,
    run: Seq<char>,
    i: int,
)
    requires
        first_with_id(all, id, i),
    ensures
        ({
            let after = all.update(i, answered(all[i], choice));
            &&& after.len() == all.len()
            &&& first_with_id(after, id, i)
            &&& after[i].resolved && after[i].chosen == Some(choice)
            &&& forall|k: int| 0 <= k < all.len() && k != i ==> #[trigger] after[k] == all[k]
            &&& !open_questions(after, run).contains(after[i])
        }),
{
    let after = all.update(i, answered(all[i], choice));
    assert forall|k: int| 0 <= k < i implies (#[trigger] after[k]).id != id by {
        assert(after[k] == all[k]);
    }
    assert(!open_questions(after, run).contains(after[i])) by {
        broadcast use vstd::seq_lib::group_filter_ensures;

    }
}

/// After an answer the same question may be asked anew, if no other open record
/// asks it.
pub proof fn an_answered_question_can_be_asked_again(
    all: Seq<EscalationView>,
    i: int,
    choice: Seq<char>,
)
    requires
        0 <= i < all.len(),
        forall|k: int|
            0 <= k < all.len() && k != i ==> !asks(
                #[trigger] all[k],
                all[i].run,
                all[i].task,
                all[i].question,
            ),
    ensures
        unasked(
            all.update(i, answered(all[i], choice)),
            all[i].run,
            all[i].task,
            all[i].question,
        ),
{
}

/// The record that a question finds is open and has the run, the task and the
/// question that were asked, and no record before it has all four; one that
/// differs in any of these is not found.
pub proof fn the_record_found_asks_just_that(
    all: Seq<EscalationView>,
    run: Seq<char>,
    task: Seq<char>,
    question: Seq<char>,
    i: int,
)
    ensures
        first_asking(all, run, task, question, i) ==> 0 <= i < all.len() && !all[i].resolved
            && all[i].run == run && all[i].task == task && all[i].question == question,
        first_asking(all, run, task, question, i) ==> forall|k: int|
            0 <= k < i ==> (#[trigger] all[k]).resolved || all[k].run != run || all[k].task != task
                || all[k].question != question,
        0 <= i < all.len() && !all[i].resolved && all[i].run == run && all[i].task == task
            && all[i].question == question ==> !unasked(all, run, task, question),
{
}

/// A question that differs from every open one of its run and task is added:
/// one record more, at the end, open and unanswered, with what was asked, the
/// options, the recommendation and the time as given. No other record changes.
pub proof fn a_new_question_is_added(
    all: Seq<EscalationView>,
    run: Seq<char>,
    task: Seq<char>,
    question: Seq<char>,
    options: Seq<Seq<char>>,
    recommended: usize,
    now: i64,
)
    requires
        forall|k: int|
            0 <= k < all.len() && !(#[trigger] all[k]).resolved && all[k].run == run && all[k].task
                == task ==> all[k].question != question,
    ensures
        unasked(all, run, task, question),
        ({
            let rec = new_question(all, run, task, question, options, recommended, now);
            &&& rec.run == run
            &&& rec.task == task
            &&& rec.question == question
            &&& rec.options == options
            &&& rec.recommended == recommended
            &&& rec.created_at == now
            &&& !rec.resolved
            &&& rec.chosen is None
            &&& open_questions(all.push(rec), run) == open_questions(all, run).push(rec)
            &&& forall|other: Seq<char>|
                other != run ==> #[trigger] open_questions(all.push(rec), other) == open_questions(
                    all,
                    other,
                )
        }),
{
    let rec = new_question(all, run, task, question, options, recommended, now);
    assert(all.push(rec).drop_last() =~= all);
    reveal(Seq::filter);
}

/// Two questions of one run and task that are worded differently are two
/// records: asking the second after the first adds it too.
pub proof fn differently_worded_questions_both_stand(
    all: Seq<EscalationView>,
    run: Seq<char>,
    task: Seq<char>,
    question: Seq<char>,
    other: Seq<char>,
    options: Seq<Seq<char>>,
    recommended: usize,
    now: i64,
)
    requires
        unasked(all, run, task, other),
        question != other,
    ensures
        unasked(
            all.push(new_question(all, run, task, question, options, recommended, now)),
            run,
            task,
            other,
        ),
{
}

/// The open questions of a run are the records that have the run and are not
/// resolved, each and no other, in the order of the store.
pub proof fn the_open_questions_are_told(
    all: Seq<EscalationView>,
    run: Seq<char>,
    e: EscalationView,
)
    ensures
        open_questions(all, run).contains(e) <==> all.contains(e) && e.run == run && !e.resolved,
        all.len() > 0 ==> open_questions(all, run) == (if all.last().run == run
            && !all.last().resolved {
            open_questions(all.drop_last(), run).push(all.last())
        } else {
            open_questions(all.drop_last(), run)
        }),
    decreases all.len(),
{
    reveal(Seq::filter);
    if all.len() > 0 {
        let before = all.drop_last();
        the_open_questions_are_told(before, run, e);
        let told = open_questions(before, run);
        assert(all =~= before.push(all.last()));
        if all.contains(e) {
            let k = choose|k: int| 0 <= k < all.len() && all[k] == e;
            if k < before.len() {
                assert(before[k] == e);
            }
        }
        if before.contains(e) {
            let k = choose|k: int| 0 <= k < before.len() && before[k] == e;
            assert(all[k] == e);
        }
        assert(all[all.len() - 1] == all.last());
        if all.last().run == run && !all.last().resolved {
            let now_told = told.push(all.last());
            assert(now_told[told.len() as int] == all.last());
            if told.contains(e) {
                let k = choose|k: int| 0 <= k < told.len() && told[k] == e;
                assert(now_told[k] == e);
            }
            if now_told.contains(e) && e != all.last() {
                let k = choose|k: int| 0 <= k < now_told.len() && now_told[k] == e;
                assert(told[k] == e);
            }
        }
    }
}

/// An answer changes nothing but that the record is resolved and what was
/// chosen; and it takes the question out of the open ones.
pub proof fn an_answer_settles_its_question_alone(
    all: Seq<EscalationView>,
    id: Seq<char>,
    choice: Seq<char>,
    i: int,
)
    requires
        first_with_id(all, id, i),
    ensures
        0 <= i < all.len(),
        all[i].id == id,
        forall|k: int| 0 <= k < i ==> (#[trigger] all[k]).id != id,
        ({
            let e = answered(all[i], choice);
            &&& e.resolved
            &&& e.chosen == Some(choice)
            &&& e.id == all[i].id
            &&& e.run == all[i].run
            &&& e.task == all[i].task
            &&& e.question == all[i].question
            &&& e.options == all[i].options
            &&& e.recommended == all[i].recommended
            &&& e.created_at == all[i].created_at
        }),
        !no_id(all, id),
{
}

/// Nothing is found under an id exactly where no record has it.
pub proof fn an_unknown_id_finds_nothing(all: Seq<EscalationView>, id: Seq<char>)
    ensures
        no_id(all, id) <==> !exists|k: int| 0 <= k < all.len() && (#[trigger] all[k]).id == id,
{
}

/// The hash takes in every byte, in its order, from its own start.
pub proof fn the_hash_takes_in_every_byte(bytes: Seq<u8>, more: u8)
    ensures
        fnv1a(Seq::empty()) == 2166136261,
        fnv1a(bytes.push(more)) == (fnv1a(bytes) ^ (more as u32)).wrapping_mul(16777619u32),
{
    assert(bytes.push(more).drop_last() =~= bytes);
    assert(bytes.push(more).last() == more);
}

/// An id is short and marked as one. It is made of the number of records, the
/// run, the task and the question: another number or another question is other
/// material.
pub proof fn an_id_is_made_of_what_is_asked(
    run: Seq<char>,
    task: Seq<char>,
    question: Seq<char>,
    other: Seq<char>,
    n: nat,
    m: nat,
)
    ensures
        id_of(run, task, question, n).len() == 12,
        id_of(run, task, question, n).take(4) == "esc-"@,
        id_material(run, task, question, n) == id_material(run, task, other, n) ==> question
            == other,
        id_material(run, task, question, n) == id_material(run, task, question, m) ==> n == m,
        text::holds_text(id_material(run, task, question, n), run),
        text::holds_text(id_material(run, task, question, n), task),
{
    reveal_strlit("esc-");
    let hash = fnv1a(vstd::utf8::encode_utf8(id_material(run, task, question, n))) as nat;
    text::a_hex_number_is_as_wide_as_asked_for(hash, 0, 8);
    assert(id_of(run, task, question, n).take(4) =~= "esc-"@);
    let u = "\u{1f}"@;
    let a = id_material(run, task, question, n);
    let front = text::dec(n) + u + run + u + task + u;
    assert(a =~= front + question);
    if a == id_material(run, task, other, n) {
        let b = id_material(run, task, other, n);
        assert(b =~= front + other);
        assert(question =~= a.skip(front.len() as int));
        assert(other =~= b.skip(front.len() as int));
    }
    if a == id_material(run, task, question, m) {
        let b = id_material(run, task, question, m);
        let back = u + run + u + task + u + question;
        assert(a =~= text::dec(n) + back);
        assert(b =~= text::dec(m) + back);
        assert(text::dec(n) =~= a.take(a.len() - back.len()));
        assert(text::dec(m) =~= b.take(b.len() - back.len()));
        text::numbers_are_told_apart(n, m);
    }
    text::a_text_holds_its_parts(text::dec(n) + u, run, u + task + u + question, run);
    assert(a =~= (text::dec(n) + u) + run + (u + task + u + question));
    text::a_text_holds_its_parts(text::dec(n) + u + run + u, task, u + question, task);
    assert(a =~= (text::dec(n) + u + run + u) + task + (u + question));
}

} // verus!
