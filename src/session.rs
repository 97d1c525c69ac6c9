//! What a session does with each parsed command: either a fixed reply, or
//! the store operation to carry out together with the stored vectors it
//! reads. Reading value words as numbers, arithmetic on elements and
//! writing files belong to the numeric and I/O layers around this library.

use vstd::prelude::*;
use crate::command::{Command, CommandView};
use crate::store::{OperandError, Operation, VectorStore};

verus! {

/// The next thing a session does for a command.
pub enum Action<'a> {
    /// Send this text as the reply.
    Reply(&'static str),
    /// Read these value words as numbers, keep those that read, store the
    /// vector under the key (a generated one when none is given), reply `OK`.
    Insert(Option<&'a String>, &'a Vec<String>),
    /// Remove the key and reply `OK`.
    Remove(&'a String),
    /// Show this stored vector.
    Show(&'a Vec<u32>),
    /// List the stored vectors nearest to this one, at most this many.
    Nearest(&'a Vec<u32>, usize),
    /// Combine two stored vectors of one length.
    Combine(Operation, &'a Vec<u32>, &'a Vec<u32>),
    /// Multiply a stored vector by the factor that this word writes.
    Scale(&'a Vec<u32>, &'a String),
    /// Write the whole store to this path.
    Dump(&'a String),
}

/// An action as mathematical values.
pub enum ActionView {
    Reply(Seq<char>),
    Insert(Option<Seq<char>>, Seq<Seq<char>>),
    Remove(Seq<char>),
    Show(Seq<u32>),
    Nearest(Seq<u32>, usize),
    Combine(Operation, Seq<u32>, Seq<u32>),
    Scale(Seq<u32>, Seq<char>),
    Dump(Seq<char>),
}

impl<'a> View for Action<'a> {
    type V = ActionView;

    open spec fn view(&self) -> ActionView {
        match *self {
            Action::Reply(t) => ActionView::Reply(t@),
            Action::Insert(k, v) => ActionView::Insert(
                match k {
                    Some(k) => Some(k@),
                    None => None,
                },
                crate::command::texts(v@),
            ),
            Action::Remove(k) => ActionView::Remove(k@),
            Action::Show(v) => ActionView::Show(v@),
            Action::Nearest(v, n) => ActionView::Nearest(v@, n),
            Action::Combine(op, a, b) => ActionView::Combine(op, a@, b@),
            Action::Scale(v, s) => ActionView::Scale(v@, s@),
            Action::Dump(p) => ActionView::Dump(p@),
        }
    }
}

/// The action for a binary operation on the vectors under `a` and `b`.
pub open spec fn combine_of(m: Map<Seq<char>, Seq<u32>>, op: Operation, a: Seq<char>, b: Seq<char>) -> ActionView {
    if !(m.contains_key(a) && m.contains_key(b)) {
        ActionView::Reply(OperandError::NotFound.spec_message(op))
    } else if m[a].len() != m[b].len() {
        ActionView::Reply(OperandError::Incompatible.spec_message(op))
    } else {
        ActionView::Combine(op, m[a], m[b])
    }
}

/// The action for command `c` on a store holding `m`.
pub open spec fn action_of(m: Map<Seq<char>, Seq<u32>>, c: CommandView) -> ActionView {
    match c {
        CommandView::Ping => ActionView::Reply("pong"@),
        CommandView::Insert(v) => ActionView::Insert(None, v),
        CommandView::NamedInsert(k, v) => ActionView::Insert(Some(k), v),
        CommandView::Get(k) => if m.contains_key(k) {
            ActionView::Show(m[k])
        } else {
            ActionView::Reply("null"@)
        },
        CommandView::Remove(k) => ActionView::Remove(k),
        CommandView::KNearestNeighbors(k, n) => if m.contains_key(k) {
            ActionView::Nearest(m[k], n)
        } else {
            ActionView::Reply("Key not found"@)
        },
        CommandView::VectorAddition(a, b) => combine_of(m, Operation::Addition, a, b),
        CommandView::VectorSubtraction(a, b) => combine_of(m, Operation::Subtraction, a, b),
        CommandView::VectorScaling(k, s) => if m.contains_key(k) {
            ActionView::Scale(m[k], s)
        } else {
            ActionView::Reply("Key not found"@)
        },
        CommandView::CosineSimilarity(a, b) => combine_of(m, Operation::CosineSimilarity, a, b),
        CommandView::Dump(p) => ActionView::Dump(p),
    }
}

fn combine<'a>(store: &'a VectorStore, op: Operation, a: &String, b: &String) -> (r: Action<'a>)
    requires
        store.wf(),
    ensures
        r@ == combine_of(store@, op, a@, b@),
{
    match store.operands(a, b) {
        Ok((x, y)) => Action::Combine(op, x, y),
        Err(e) => Action::Reply(e.message(op)),
    }
}

/// Decides what to do with `cmd` on `store`.
pub fn plan<'a>(store: &'a VectorStore, cmd: &'a Command) -> (r: Action<'a>)
    requires
        store.wf(),
    ensures
        r@ == action_of(store@, cmd@),
{
    match cmd {
        Command::Ping => Action::Reply("pong"),
        Command::Insert(v) => Action::Insert(None, v),
        Command::NamedInsert(k, v) => Action::Insert(Some(k), v),
        Command::Get(k) => match store.get(k.clone()) {
            Some(v) => Action::Show(v),
            None => Action::Reply("null"),
        },
        Command::Remove(k) => Action::Remove(k),
        Command::KNearestNeighbors(k, n) => match store.get(k.clone()) {
            Some(v) => Action::Nearest(v, *n),
            None => Action::Reply("Key not found"),
        },
        Command::VectorAddition(a, b) => combine(store, Operation::Addition, a, b),
        Command::VectorSubtraction(a, b) => combine(store, Operation::Subtraction, a, b),
        Command::VectorScaling(k, s) => match store.get(k.clone()) {
            Some(v) => Action::Scale(v, s),
            None => Action::Reply("Key not found"),
        },
        Command::CosineSimilarity(a, b) => combine(store, Operation::CosineSimilarity, a, b),
        Command::Dump(p) => Action::Dump(p),
    }
}

/// Whether two keys give a pair of operands, and which reply is sent when
/// they do not, does not depend on the order of the keys.
pub proof fn operand_checks_are_symmetric(m: Map<Seq<char>, Seq<u32>>, op: Operation, a: Seq<char>, b: Seq<char>)
    ensures
        combine_of(m, op, a, b) is Reply <==> combine_of(m, op, b, a) is Reply,
        combine_of(m, op, a, b) is Reply ==> combine_of(m, op, a, b) == combine_of(m, op, b, a),
{
}

} // verus!
