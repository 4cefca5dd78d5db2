//! Answers that may be "could not find out".
//!
//! A check that could not be made is kept apart from a check that found
//! nothing, all the way to the decision that rests on it.

use vstd::prelude::*;

use crate::text;
use crate::text::{join, owned};

verus! {

/// What was found out, or why it could not be.
#[derive(Debug, PartialEq, Eq)]
pub enum Determination<T> {
    Known(T),
    Undetermined(String),
}

impl<T> Determination<T> {
    /// An answer.
    pub fn known(value: T) -> (d: Determination<T>)
        ensures
            d == Determination::Known(value),
    {
        Determination::Known(value)
    }

    /// The reason why there is no answer.
    pub fn undetermined(why: &str) -> (d: Determination<T>)
        ensures
            d is Undetermined,
            d->Undetermined_0@ == why@,
    {
        Determination::Undetermined(owned(why))
    }
}

impl<T: Clone> Clone for Determination<T> {
    fn clone(&self) -> (r: Determination<T>)
        ensures
            match *self {
                Determination::Known(value) => r is Known && cloned(value, r->Known_0),
                Determination::Undetermined(why) => r is Undetermined && r->Undetermined_0@ == why@,
            },
    {
        match self {
            Determination::Known(value) => Determination::Known(value.clone()),
            Determination::Undetermined(why) => Determination::Undetermined(why.clone()),
        }
    }
}

/// The outcome of a check that looks for violations.
#[derive(Debug, PartialEq, Eq)]
pub enum Verdict {
    /// The check was made and found nothing.
    Clean,
    /// The check was made and found these.
    Violation(Vec<String>),
    /// The check could not be made.
    Undetermined(String),
}

/// A verdict, with its texts spelt out.
pub enum VerdictView {
    Clean,
    Violation(Seq<Seq<char>>),
    Undetermined(Seq<char>),
}

impl View for Verdict {
    type V = VerdictView;

    open spec fn view(&self) -> VerdictView {
        match self {
            Verdict::Clean => VerdictView::Clean,
            Verdict::Violation(found) => VerdictView::Violation(text::texts(found@)),
            Verdict::Undetermined(why) => VerdictView::Undetermined(why@),
        }
    }
}

/// The verdict of a check that was made: clean exactly where nothing was found.
pub open spec fn verdict_on(found: Seq<Seq<char>>) -> VerdictView {
    if found.len() == 0 {
        VerdictView::Clean
    } else {
        VerdictView::Violation(found)
    }
}

/// What stands in the way, in one text.
pub open spec fn reason_in(v: VerdictView) -> Option<Seq<char>> {
    match v {
        VerdictView::Clean => None,
        VerdictView::Violation(found) => Some(text::joined(found, "; "@)),
        VerdictView::Undetermined(why) => Some(why),
    }
}

impl Verdict {
    /// The verdict of a check that was made and found `found`.
    pub fn from_findings(found: Vec<String>) -> (v: Verdict)
        ensures
            v@ == verdict_on(text::texts(found@)),
    {
        if found.len() == 0 {
            Verdict::Clean
        } else {
            Verdict::Violation(found)
        }
    }

    /// What stands in the way, if anything does.
    pub fn reason(&self) -> (r: Option<String>)
        ensures
            text::opt(r) == reason_in(self@),
    {
        match self {
            Verdict::Clean => None,
            Verdict::Violation(found) => Some(join(found, "; ")),
            Verdict::Undetermined(why) => Some(why.clone()),
        }
    }

    /// Whether the verdict stands in the way: everything but a clean one does.
    pub fn blocks(&self) -> (r: bool)
        ensures
            r == !(self@ is Clean),
    {
        match self {
            Verdict::Clean => false,
            _ => true,
        }
    }
}

/// A verdict is clean exactly where nothing was found, carries all that was found
/// otherwise, and only a clean one has no reason.
pub proof fn findings_alone_make_a_violation(found: Seq<Seq<char>>, v: VerdictView)
    ensures
        verdict_on(found) is Clean <==> found.len() == 0,
        verdict_on(found) is Violation <==> found.len() != 0,
        verdict_on(found) is Violation ==> verdict_on(found)->Violation_0 == found,
        reason_in(v) is None <==> v is Clean,
        v is Undetermined ==> reason_in(v) == Some(v->Undetermined_0),
        v is Violation && v->Violation_0.len() == 1 ==> reason_in(v) == Some(v->Violation_0[0]),
{
    if v is Violation && v->Violation_0.len() == 1 {
        assert(v->Violation_0 =~= seq![v->Violation_0[0]]);
    }
}

} // verus!
