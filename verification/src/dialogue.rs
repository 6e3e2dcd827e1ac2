//! What the host application is asked between two positions of a journal.
use crate::engine::JsView;
use crate::host::{Answer, QueryView};
use crate::session::Step;
use vstd::prelude::*;

verus! {

/// The value at an index of a sequence, which is `undefined` past its end.
pub open spec fn nth(values: Seq<JsView>, i: int) -> JsView {
    if 0 <= i < values.len() {
        values[i]
    } else {
        JsView::Undefined
    }
}

/// A step asked the host application, and got an answer.
pub open spec fn asks(j: Seq<Step>, at: nat, query: QueryView, answer: Answer) -> bool {
    at < j.len() && (j[at as int] matches Step::Ask { query: own, answer: given, .. } && own == query
        && given == answer)
}

/// The questions to the host application between two positions, in their order, but for those for
/// numbers of functions.
pub open spec fn asked(j: Seq<Step>, p: nat, q: nat) -> Seq<QueryView>
    decreases q,
{
    if q <= p {
        Seq::empty()
    } else {
        let before = asked(j, p, (q - 1) as nat);
        match j[q - 1] {
            Step::Ask { query, .. } => if query is FunctionId {
                before
            } else {
                before.push(query)
            },
            _ => before,
        }
    }
}

/// No step between two positions asks the host application anything but for numbers of functions.
pub open spec fn asks_nothing(j: Seq<Step>, p: nat, q: nat) -> bool {
    forall|at: int|
        p <= at < q ==> (#[trigger] j[at] matches Step::Ask { query, .. } ==> query is FunctionId)
}

/// Questions up to a position and those from there on are all questions.
pub proof fn lemma_asked_joined(j: Seq<Step>, p: nat, r: nat, q: nat)
    requires
        p <= r <= q,
    ensures
        asked(j, p, q) == asked(j, p, r) + asked(j, r, q),
    decreases q,
{
    if r < q {
        lemma_asked_joined(j, p, r, (q - 1) as nat);
        assert(asked(j, p, q) =~= asked(j, p, r) + asked(j, r, q));
    } else {
        assert(asked(j, p, q) =~= asked(j, p, r) + asked(j, r, q));
    }
}

/// Where nothing is asked, there are no questions.
pub proof fn lemma_asked_nothing(j: Seq<Step>, p: nat, q: nat)
    requires
        asks_nothing(j, p, q),
    ensures
        asked(j, p, q) == Seq::<QueryView>::empty(),
    decreases q,
{
    if p < q {
        lemma_asked_nothing(j, p, (q - 1) as nat);
        assert(j[q - 1] matches Step::Ask { query, .. } ==> query is FunctionId);
    }
}

/// A question after which nothing is asked is the first of all questions from there on.
pub proof fn lemma_asked_first(j: Seq<Step>, p: nat, q: nat, query: QueryView, answer: Answer)
    requires
        p < q,
        asks(j, p, query, answer),
        !(query is FunctionId),
    ensures
        asked(j, p, q) == seq![query] + asked(j, p + 1, q),
{
    lemma_asked_joined(j, p, p + 1, q);
    assert(asked(j, p, p) == Seq::<QueryView>::empty());
    assert(asked(j, p, p + 1) =~= seq![query]);
}

/// Where nothing is asked up to a position, the questions are those from there on.
pub proof fn lemma_asked_later(j: Seq<Step>, p: nat, r: nat, q: nat)
    requires
        p <= r <= q,
        asks_nothing(j, p, r),
    ensures
        asked(j, p, q) == asked(j, r, q),
{
    lemma_asked_joined(j, p, r, q);
    lemma_asked_nothing(j, p, r);
    assert(asked(j, p, q) =~= asked(j, r, q));
}

} // verus!
