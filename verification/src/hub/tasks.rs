//! The table of tasks in flight: for each task id, the slot on which the
//! caller that issued the task waits for its result.

use vstd::prelude::*;
use tokio::sync::oneshot::Sender;
use crate::assoc::{
    assoc_map, distinct_keys, lemma_assoc_at, lemma_assoc_dom, lemma_assoc_push,
    lemma_assoc_remove,
};
use crate::channel::fulfil;
use crate::hub::peers::lemma_pairs_count;
use crate::model::{CommandResult, TaskResponse};
use crate::text::same_text;

verus! {

/// The slot of one waiting caller. It takes `None` where a response came
/// without a result.
pub type Slot = Sender<Option<CommandResult>>;

/// How the completion of a task went.
#[derive(Debug, Clone, Copy, PartialEq, Eq, Structural)]
pub enum Completion {
    /// The result went to the caller that waits for it.
    Delivered,
    /// The task was pending, but its caller has given up waiting.
    Abandoned,
    /// No task is pending under the id: the response is stale or a duplicate.
    Stale,
}

/// Completion goes by id. Once a caller's slot is registered under an id,
/// completing that id takes exactly that slot and leaves the table as it was
/// before; completing any other id leaves the slot where it is.
pub proof fn lemma_completion_goes_by_id(
    pending: Map<Seq<char>, Slot>,
    id: Seq<char>,
    slot: Slot,
    other: Seq<char>,
)
    requires
        !pending.dom().contains(id),
        other != id,
    ensures
        pending.insert(id, slot).dom().contains(id),
        pending.insert(id, slot)[id] == slot,
        pending.insert(id, slot).remove(id) == pending,
        pending.insert(id, slot).remove(other).dom().contains(id),
        pending.insert(id, slot).remove(other)[id] == slot,
{
    assert(pending.insert(id, slot).remove(id) =~= pending);
}

struct PendingTask {
    id: String,
    slot: Slot,
}

/// Each entry as a pair of id and slot.
spec fn pending_pairs(entries: Seq<PendingTask>) -> Seq<(Seq<char>, Slot)> {
    Seq::new(entries.len(), |i: int| (entries[i].id@, entries[i].slot))
}

/// The pending tasks by id.
pub struct TaskList {
    tasks: Vec<PendingTask>,
}

impl View for TaskList {
    type V = Map<Seq<char>, Slot>;

    closed spec fn view(&self) -> Map<Seq<char>, Slot> {
        assoc_map(self.pairs())
    }
}

impl TaskList {
    spec fn pairs(&self) -> Seq<(Seq<char>, Slot)> {
        pending_pairs(self.tasks@)
    }

    #[verifier::type_invariant]
    spec fn inv(&self) -> bool {
        distinct_keys(self.pairs())
    }

    /// A table without tasks.
    pub fn new() -> (list: TaskList)
        ensures
            list@ == Map::<Seq<char>, Slot>::empty(),
    {
        let list = TaskList { tasks: Vec::new() };
        assert(list.pairs() =~= Seq::empty());
        list
    }

    /// Moves the entries out, leaving none behind.
    fn take_entries(&mut self) -> (entries: Vec<PendingTask>)
        ensures
            entries == old(self).tasks,
            final(self).tasks@.len() == 0,
    {
        let mut entries: Vec<PendingTask> = Vec::new();
        std::mem::swap(&mut self.tasks, &mut entries);
        entries
    }

    /// How many tasks are pending.
    pub fn len(&self) -> (n: usize)
        ensures
            n == self@.dom().len(),
            self@.dom().finite(),
    {
        proof {
            use_type_invariant(self);
            lemma_pairs_count(self.pairs());
        }
        self.tasks.len()
    }

    /// Where the task with the id is kept.
    fn position(&self, id: &str) -> (r: Option<usize>)
        ensures
            match r {
                Some(i) => i < self.tasks@.len() && self.tasks@[i as int].id@ == id@
                    && self@.dom().contains(id@) && self@[id@] == self.tasks@[i as int].slot,
                None => !self@.dom().contains(id@),
            },
    {
        proof {
            use_type_invariant(self);
        }
        let mut i: usize = 0;
        while i < self.tasks.len()
            invariant
                i <= self.tasks@.len(),
                forall|k: int| 0 <= k < i ==> self.tasks@[k].id@ != id@,
                distinct_keys(self.pairs()),
            decreases self.tasks@.len() - i,
        {
            if same_text(self.tasks[i].id.as_str(), id) {
                proof {
                    lemma_assoc_at(self.pairs(), i as int);
                }
                return Some(i);
            }
            i += 1;
        }
        proof {
            lemma_assoc_dom(self.pairs(), id@);
            if self@.dom().contains(id@) {
                let k = choose|k: int|
                    0 <= k < self.pairs().len() && (#[trigger] self.pairs()[k]).0 == id@;
                assert(self.tasks@[k].id@ == id@);
            }
        }
        None
    }

    /// Whether a task is pending under the id.
    pub fn is_pending(&self, id: &str) -> (pending: bool)
        ensures
            pending == self@.dom().contains(id@),
    {
        self.position(id).is_some()
    }

    /// Registers the slot of the caller that waits for the task with the
    /// given id. Ids are unique by construction: no task may be pending under
    /// the id already.
    pub fn add_task(&mut self, id: String, channel: Slot)
        requires
            !old(self)@.dom().contains(id@),
        ensures
            final(self)@ == old(self)@.insert(id@, channel),
    {
        proof {
            use_type_invariant(&*self);
            lemma_assoc_push(self.pairs(), id@, channel);
        }
        let ghost before = self.pairs();
        let mut entries = self.take_entries();
        entries.push(PendingTask { id, slot: channel });
        assert(pending_pairs(entries@) =~= before.push((id@, channel)));
        self.tasks = entries;
    }

    /// Takes the slot of the task with the given id out of the table. Every
    /// other task stays as it is.
    pub fn take(&mut self, id: &str) -> (r: Option<Slot>)
        ensures
            final(self)@ == old(self)@.remove(id@),
            match r {
                Some(slot) => old(self)@.dom().contains(id@) && slot == old(self)@[id@],
                None => !old(self)@.dom().contains(id@),
            },
    {
        proof {
            use_type_invariant(&*self);
        }
        let ghost before = self.pairs();
        match self.position(id) {
            Some(i) => {
                proof {
                    lemma_assoc_remove(before, i as int);
                }
                let mut entries = self.take_entries();
                let entry = entries.remove(i);
                assert(pending_pairs(entries@) =~= before.remove(i as int));
                self.tasks = entries;
                Some(entry.slot)
            },
            None => {
                assert(self@ =~= old(self)@.remove(id@));
                None
            },
        }
    }

    /// Completes the task that `result` names: takes its slot out of the table
    /// and hands the result to the caller that waits on it. A response for an
    /// id under which nothing is pending is dropped. No other pending task is
    /// touched.
    pub fn complete_task(&mut self, result: TaskResponse) -> (outcome: Completion)
        ensures
            final(self)@ == old(self)@.remove(result.id@),
            outcome == Completion::Stale <==> !old(self)@.dom().contains(result.id@),
            forall|other: Seq<char>|
                other != result.id@ ==> (final(self)@.dom().contains(other) <==> old(self)@.dom().contains(other)),
            forall|other: Seq<char>|
                other != result.id@ && old(self)@.dom().contains(other) ==> final(self)@[other]
                    == old(self)@[other],
    {
        match self.take(result.id.as_str()) {
            Some(slot) => {
                match fulfil(slot, result.response) {
                    Ok(_) => Completion::Delivered,
                    Err(_) => Completion::Abandoned,
                }
            },
            None => Completion::Stale,
        }
    }
}

} // verus!
