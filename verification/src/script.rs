//! What the scripting side has answered so far.
//!
//! Scripts are evaluated elsewhere. Their answers are put on a board, one
//! per node and expression, and properties read them from there. An
//! expression without an answer on the board is still being worked on.

use crate::ident::NodeId;
use crate::value::{Value, ValueView};
use vstd::prelude::*;

verus! {

/// The answer to one expression.
#[derive(Debug, PartialEq, Eq)]
pub enum ScriptPoll {
    /// No answer yet: ask again on a later tick.
    Pending,
    /// The expression has this value.
    Ready(Value),
    /// The expression raised an error, for this reason.
    Failed(String),
}

/// Mathematical value of a `ScriptPoll`.
pub enum ScriptPollView {
    Pending,
    Ready(ValueView),
    Failed(Seq<char>),
}

impl View for ScriptPoll {
    type V = ScriptPollView;

    open spec fn view(&self) -> ScriptPollView {
        match self {
            ScriptPoll::Pending => ScriptPollView::Pending,
            ScriptPoll::Ready(v) => ScriptPollView::Ready(v@),
            ScriptPoll::Failed(reason) => ScriptPollView::Failed(reason@),
        }
    }
}

impl Clone for ScriptPoll {
    fn clone(&self) -> (res: Self)
        ensures
            res@ == self@,
    {
        match self {
            ScriptPoll::Pending => ScriptPoll::Pending,
            ScriptPoll::Ready(v) => ScriptPoll::Ready(v.clone()),
            ScriptPoll::Failed(reason) => ScriptPoll::Failed(reason.clone()),
        }
    }
}

/// Mathematical value of the board: the answers given, by node and
/// expression.
pub type Answers = Map<(NodeId, Seq<char>), ScriptPollView>;

/// What the board says of `expression` for `node`: the answer given, and
/// `Pending` where none was given.
pub open spec fn answer(answers: Answers, node: NodeId, expression: Seq<char>) -> ScriptPollView {
    if answers.dom().contains((node, expression)) {
        answers[(node, expression)]
    } else {
        ScriptPollView::Pending
    }
}

struct ScriptEntry {
    node: NodeId,
    expression: String,
    poll: ScriptPoll,
}

/// The answers after the entries `entries`, where a later entry replaces
/// an earlier one for the same node and expression.
spec fn table(entries: Seq<ScriptEntry>) -> Answers
    decreases entries.len(),
{
    if entries.len() == 0 {
        Map::empty()
    } else {
        table(entries.drop_last()).insert(
            (entries.last().node, entries.last().expression@),
            entries.last().poll@,
        )
    }
}

/// The board of script answers.
pub struct ScriptContext {
    entries: Vec<ScriptEntry>,
}

impl View for ScriptContext {
    type V = Answers;

    closed spec fn view(&self) -> Answers {
        table(self.entries@)
    }
}

impl ScriptContext {
    /// A board without answers.
    pub fn new() -> (scripts: ScriptContext)
        ensures
            scripts@ == Map::<(NodeId, Seq<char>), ScriptPollView>::empty(),
    {
        ScriptContext { entries: Vec::new() }
    }

    /// Puts the answer `poll` to `expression` for `node` on the board, in
    /// place of any earlier one.
    pub fn set(&mut self, node: NodeId, expression: &str, poll: ScriptPoll)
        ensures
            final(self)@ == old(self)@.insert((node, expression@), poll@),
    {
        let ghost before = self.entries@;
        self.entries.push(ScriptEntry { node, expression: expression.to_owned(), poll });
        proof {
            assert(self.entries@.drop_last() =~= before);
        }
    }

    /// What the board says of `expression` for `node`.
    pub fn poll(&self, node: NodeId, expression: &String) -> (poll: ScriptPoll)
        ensures
            poll@ == answer(self@, node, expression@),
    {
        let ghost key = (node, expression@);
        let mut i: usize = self.entries.len();
        assert(self.entries@.take(i as int) =~= self.entries@);
        while i > 0
            invariant
                i <= self.entries@.len(),
                key == (node, expression@),
                answer(self@, node, expression@) == answer(
                    table(self.entries@.take(i as int)),
                    node,
                    expression@,
                ),
            decreases i,
        {
            let entry = &self.entries[i - 1];
            proof {
                assert(self.entries@.take(i as int).drop_last() =~= self.entries@.take(i - 1));
                assert(self.entries@.take(i as int).last() == self.entries@[i - 1]);
            }
            if entry.node == node && entry.expression == *expression {
                return entry.poll.clone();
            }
            i -= 1;
        }
        ScriptPoll::Pending
    }
}

} // verus!
