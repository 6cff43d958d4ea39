//! The record that a listener keeps of the handlers it has spawned. It is
//! bookkeeping only: handlers are never waited for, and a handle that is
//! dropped leaves its task running.

use tokio::task::{JoinError, JoinHandle};
use vstd::prelude::*;

verus! {

/// `tokio::task::JoinHandle`. Nothing is known of what is inside.
#[verifier::external_type_specification]
#[verifier::external_body]
#[verifier::reject_recursive_types(T)]
pub struct ExJoinHandle<T>(JoinHandle<T>);

/// `tokio::task::JoinError`, which awaiting a handle may yield. Nothing is
/// known of what is inside.
#[verifier::external_type_specification]
#[verifier::external_body]
pub struct ExJoinError(JoinError);

/// `tokio::task::JoinHandle::is_finished`. Nothing is claimed of the answer:
/// it depends on how far the task has come when it is asked.
pub assume_specification<T>[ JoinHandle::<T>::is_finished ](handle: &JoinHandle<T>) -> (b: bool)
;

/// Whether the entry at `index` was found finished. Entries without a flag
/// count as running.
pub open spec fn is_done(finished: Seq<bool>, index: int) -> bool {
    0 <= index < finished.len() && finished[index]
}

/// The entries that are kept when those found finished are swept: all the
/// others, in the order in which they were recorded.
pub open spec fn kept<T>(entries: Seq<T>, finished: Seq<bool>) -> Seq<T>
    decreases entries.len(),
{
    if entries.len() == 0 {
        Seq::empty()
    } else if is_done(finished, entries.len() - 1) {
        kept(entries.drop_last(), finished)
    } else {
        kept(entries.drop_last(), finished).push(entries.last())
    }
}

/// Sweeping never adds: what is kept is no longer than what was there. With
/// nothing finished everything is kept, and with everything finished nothing
/// is.
pub proof fn lemma_kept_bounds<T>(entries: Seq<T>, finished: Seq<bool>)
    ensures
        kept(entries, finished).len() <= entries.len(),
        (forall|i: int| 0 <= i < entries.len() ==> !is_done(finished, i)) ==> kept(
            entries,
            finished,
        ) == entries,
        (forall|i: int| 0 <= i < entries.len() ==> is_done(finished, i)) ==> kept(
            entries,
            finished,
        ) == Seq::<T>::empty(),
    decreases entries.len(),
{
    if entries.len() > 0 {
        lemma_kept_bounds(entries.drop_last(), finished);
        if forall|i: int| 0 <= i < entries.len() ==> !is_done(finished, i) {
            assert(forall|i: int|
                0 <= i < entries.drop_last().len() ==> !is_done(finished, i));
            assert(!is_done(finished, entries.len() - 1));
            assert(entries.drop_last().push(entries.last()) =~= entries);
        }
        if forall|i: int| 0 <= i < entries.len() ==> is_done(finished, i) {
            assert(forall|i: int| 0 <= i < entries.drop_last().len() ==> is_done(finished, i));
            assert(is_done(finished, entries.len() - 1));
        }
    }
}

/// Removes from `entries` those whose flag in `finished` is set, and keeps
/// the others in their order.
pub fn retain_running<T>(entries: &mut Vec<T>, finished: &Vec<bool>)
    ensures
        final(entries)@ == kept(old(entries)@, finished@),
{
    let ghost before = entries@;
    let total = entries.len();
    let mut reversed: Vec<T> = Vec::new();
    while entries.len() > 0
        invariant
            total == before.len(),
            entries@.len() + reversed@.len() == total,
            entries@ == before.take(entries@.len() as int),
            forall|j: int| 0 <= j < reversed@.len() ==> reversed@[j] == before[total - 1 - j],
        decreases entries@.len(),
    {
        let ghost rest = entries@.len() - 1;
        match entries.pop() {
            Some(entry) => {
                reversed.push(entry);
                assert(entries@ =~= before.take(rest as int));
            },
            None => {},
        }
    }
    let mut index: usize = 0;
    while index < total
        invariant
            total == before.len(),
            index <= total,
            reversed@.len() == total - index,
            forall|j: int| 0 <= j < reversed@.len() ==> reversed@[j] == before[total - 1 - j],
            entries@ == kept(before.take(index as int), finished@),
        decreases total - index,
    {
        let done = index < finished.len() && finished[index];
        proof {
            assert(before.take(index + 1).drop_last() =~= before.take(index as int));
            assert(before.take(index + 1).last() == before[index as int]);
        }
        match reversed.pop() {
            Some(entry) => {
                if !done {
                    entries.push(entry);
                }
            },
            None => {},
        }
        index += 1;
    }
    assert(before.take(total as int) =~= before);
}

/// Asks each handler, in order, whether it has finished.
fn completion_flags(client_handles: &Vec<JoinHandle<()>>) -> (r: Vec<bool>)
    ensures
        r@.len() == client_handles@.len(),
{
    let mut flags: Vec<bool> = Vec::new();
    let mut index: usize = 0;
    while index < client_handles.len()
        invariant
            index <= client_handles@.len(),
            flags@.len() == index,
        decreases client_handles@.len() - index,
    {
        flags.push(client_handles[index].is_finished());
        index += 1;
    }
    flags
}

/// Sweeps the record: handlers found finished are dropped from it, the
/// others stay, in the order in which they were spawned. Which ones are
/// finished is for the tasks to say, so the contract holds for whatever
/// they answered.
pub fn remove_completed_handles(client_handles: &mut Vec<JoinHandle<()>>)
    ensures
        exists|finished: Seq<bool>|
            finished.len() == old(client_handles)@.len() && final(client_handles)@ == #[trigger] kept(
                old(client_handles)@,
                finished,
            ),
{
    let flags = completion_flags(client_handles);
    retain_running(client_handles, &flags);
}

} // verus!
