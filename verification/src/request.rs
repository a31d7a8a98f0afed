//! Dialect-neutral requests that forms lower into: plain terms, session
//! commands and control plans.

use vstd::prelude::*;

use crate::term::{Term, TermV, term_view};

verus! {

/// When a definition's value is evaluated.
#[derive(Debug, Clone, Copy, PartialEq, Eq, Structural)]
pub enum BindingEvaluationPolicy {
    /// Evaluate the value, then store it.
    EvaluateBeforeStore,
    /// Store the value unevaluated; evaluate on use.
    StoreResidualTerm,
}

/// Scope of a definition.
#[derive(Debug, Clone, Copy, PartialEq, Eq, Structural)]
pub enum BindingKind {
    /// Session-wide (`Own`) definition.
    Session,
}

/// Session command.
#[derive(Debug, PartialEq, Eq)]
pub enum SessionCommand {
    /// Bind `symbol` to `value`.
    Define {
        /// Symbol name.
        symbol: String,
        /// Value term.
        value: Term,
        /// Scope.
        kind: BindingKind,
        /// Evaluation policy.
        evaluation: BindingEvaluationPolicy,
    },
}

/// Control plan.
#[derive(Debug, PartialEq, Eq)]
pub enum ControlPlan {
    /// Run each step in order.
    Sequence {
        /// Steps.
        steps: Vec<Request>,
    },
    /// Conditional.
    Branch {
        /// Condition term.
        condition: Term,
        /// Request when the condition holds.
        then_branch: Box<Request>,
        /// Request otherwise, if any.
        else_branch: Option<Box<Request>>,
    },
    /// Loop while the condition holds.
    LoopWhile {
        /// Condition term.
        condition: Term,
        /// Loop body.
        body: Box<Request>,
    },
    /// Iterate `binder` over the values of `range`.
    Iterate {
        /// Binder term.
        binder: Term,
        /// Range collection (or the unevaluated iterator).
        range: Term,
        /// Loop body.
        body: Box<Request>,
        /// Evaluation policy for each step.
        evaluation: BindingEvaluationPolicy,
    },
}

/// Dialect-neutral request.
#[derive(Debug, PartialEq, Eq)]
pub enum Request {
    /// Evaluate a term.
    Term(Term),
    /// Session command.
    Command(SessionCommand),
    /// Control plan.
    Control(ControlPlan),
}

/// View of a session command.
pub enum SessionCommandV {
    /// Definition.
    Define { symbol: Seq<char>, value: TermV, kind: BindingKind, evaluation: BindingEvaluationPolicy },
}

/// View of a control plan.
pub enum ControlPlanV {
    /// Sequence.
    Sequence { steps: Seq<RequestV> },
    /// Branch.
    Branch { condition: TermV, then_branch: Box<RequestV>, else_branch: Option<Box<RequestV>> },
    /// Loop.
    LoopWhile { condition: TermV, body: Box<RequestV> },
    /// Iteration.
    Iterate { binder: TermV, range: TermV, body: Box<RequestV>, evaluation: BindingEvaluationPolicy },
}

/// View of a request.
pub enum RequestV {
    /// Term.
    Term(TermV),
    /// Command.
    Command(SessionCommandV),
    /// Control plan.
    Control(ControlPlanV),
}

/// View of a request.
pub open spec fn request_view(r: Request) -> RequestV
    decreases r,
{
    match r {
        Request::Term(t) => RequestV::Term(term_view(t)),
        Request::Command(SessionCommand::Define { symbol, value, kind, evaluation }) => RequestV::Command(
            SessionCommandV::Define { symbol: symbol@, value: term_view(value), kind, evaluation },
        ),
        Request::Control(ControlPlan::Sequence { steps }) => RequestV::Control(
            ControlPlanV::Sequence { steps: requests_view(steps@) },
        ),
        Request::Control(ControlPlan::Branch { condition, then_branch, else_branch }) => RequestV::Control(
            ControlPlanV::Branch {
                condition: term_view(condition),
                then_branch: Box::new(request_view(*then_branch)),
                else_branch: match else_branch {
                    Some(e) => Some(Box::new(request_view(*e))),
                    None => None,
                },
            },
        ),
        Request::Control(ControlPlan::LoopWhile { condition, body }) => RequestV::Control(
            ControlPlanV::LoopWhile { condition: term_view(condition), body: Box::new(request_view(*body)) },
        ),
        Request::Control(ControlPlan::Iterate { binder, range, body, evaluation }) => RequestV::Control(
            ControlPlanV::Iterate {
                binder: term_view(binder),
                range: term_view(range),
                body: Box::new(request_view(*body)),
                evaluation,
            },
        ),
    }
}

/// Element-wise view of a sequence of requests.
pub open spec fn requests_view(s: Seq<Request>) -> Seq<RequestV>
    decreases s,
{
    if s.len() == 0 {
        seq![]
    } else {
        requests_view(s.drop_last()).push(request_view(s.last()))
    }
}

/// Viewing a prefix one element longer pushes that element's view.
pub proof fn lemma_requests_view_prefix(s: Seq<Request>, i: int)
    requires
        0 <= i < s.len(),
    ensures
        requests_view(s.subrange(0, i + 1)) == requests_view(s.subrange(0, i)).push(request_view(s[i])),
{
    assert(s.subrange(0, i + 1).drop_last() =~= s.subrange(0, i));
}

impl View for Request {
    type V = RequestV;

    open spec fn view(&self) -> RequestV {
        request_view(*self)
    }
}

} // verus!
