//! The state a server keeps: the served root, the handle that stops it, and
//! the progress of every job by its id.

use crate::models::{ProgressView, ZipProgress};
use vstd::prelude::*;
use vstd::string::StringExecFns;

verus! {

/// The sending half of the one-shot channel that stops the server. The library
/// only keeps it and hands it out again.
#[verifier::external_type_specification]
#[verifier::external_body]
#[verifier::reject_recursive_types(T)]
pub struct ExShutdownSender<T>(tokio::sync::oneshot::Sender<T>);

/// The progress record of one job.
pub struct ProgressSlot {
    pub id: String,
    pub record: ZipProgress,
}

/// What a sequence of slots says of each job: the record of the last slot with
/// the job's id.
pub open spec fn records_by_id(slots: Seq<ProgressSlot>) -> Map<Seq<char>, ProgressView>
    decreases slots.len(),
{
    if slots.len() == 0 {
        Map::empty()
    } else {
        records_by_id(slots.drop_last()).insert(slots.last().id@, slots.last().record@)
    }
}

/// Taking out a slot changes nothing for any job but the slot's own.
pub proof fn lemma_without_slot(slots: Seq<ProgressSlot>, at: int)
    requires
        0 <= at < slots.len(),
    ensures
        records_by_id(slots.remove(at)).remove(slots[at].id@) == records_by_id(slots).remove(
            slots[at].id@,
        ),
    decreases slots.len(),
{
    let id = slots[at].id@;
    if at == slots.len() - 1 {
        assert(slots.remove(at) =~= slots.drop_last());
        assert(records_by_id(slots).remove(id) =~= records_by_id(slots.drop_last()).remove(id));
    } else {
        let front = slots.drop_last();
        lemma_without_slot(front, at);
        assert(slots.remove(at).drop_last() =~= front.remove(at));
        assert(slots.remove(at).last() == slots.last());
        let shorter = records_by_id(front.remove(at));
        let longer = records_by_id(front);
        let key = slots.last().id@;
        let value = slots.last().record@;
        assert(records_by_id(slots.remove(at)) == shorter.insert(key, value));
        assert(records_by_id(slots) == longer.insert(key, value));
        assert(shorter.insert(key, value).remove(id) =~= shorter.remove(id).insert(key, value).remove(
            id,
        ));
        assert(longer.insert(key, value).remove(id) =~= longer.remove(id).insert(key, value).remove(
            id,
        ));
    }
}

/// The fields of a server's state.
pub struct ServerStateInner {
    pub shutdown_tx: Option<tokio::sync::oneshot::Sender<()>>,
    pub root_path: String,
    pub zip_progress: Vec<ProgressSlot>,
}

/// The state of a server.
pub struct ServerState {
    inner: ServerStateInner,
}

impl ServerState {
    /// The progress record of every job that has one, by the job's id.
    pub closed spec fn records(&self) -> Map<Seq<char>, ProgressView> {
        records_by_id(self.inner.zip_progress@)
    }

    /// The root directory that is served.
    pub closed spec fn root(&self) -> Seq<char> {
        self.inner.root_path@
    }

    /// The handle that stops the server, while it has not been taken.
    pub closed spec fn shutdown_handle(&self) -> Option<tokio::sync::oneshot::Sender<()>> {
        self.inner.shutdown_tx
    }

    /// Whether `found` is what a search for the record of job `id` finds.
    pub open spec fn found_by(&self, id: Seq<char>, found: Option<ZipProgress>) -> bool {
        &&& found.is_some() == self.records().contains_key(id)
        &&& found.is_some() ==> found.unwrap()@ == self.records()[id]
    }

    /// The record that a poll for `id` is answered with: the job's record, or
    /// the empty record where the job is unknown.
    pub open spec fn answer(&self, id: Seq<char>) -> ProgressView {
        if self.records().contains_key(id) {
            self.records()[id]
        } else {
            ProgressView::empty()
        }
    }

    /// The state of a server that serves `root_path`: no job, no handle.
    pub fn new(root_path: String) -> (state: ServerState)
        ensures
            state.root() == root_path@,
            state.records() == Map::<Seq<char>, ProgressView>::empty(),
            state.shutdown_handle().is_none(),
    {
        ServerState {
            inner: ServerStateInner { shutdown_tx: None, root_path, zip_progress: Vec::new() },
        }
    }

    /// Keeps the handle that stops the server, in place of any kept before.
    pub fn set_shutdown_tx(&mut self, tx: tokio::sync::oneshot::Sender<()>)
        ensures
            final(self).shutdown_handle() == Some(tx),
            final(self).records() == old(self).records(),
            final(self).root() == old(self).root(),
    {
        self.inner.shutdown_tx = Some(tx);
    }

    /// Hands out the handle that stops the server; after that none is kept.
    pub fn take_shutdown_tx(&mut self) -> (tx: Option<tokio::sync::oneshot::Sender<()>>)
        ensures
            tx == old(self).shutdown_handle(),
            final(self).shutdown_handle().is_none(),
            final(self).records() == old(self).records(),
            final(self).root() == old(self).root(),
    {
        self.inner.shutdown_tx.take()
    }

    /// The root directory that is served.
    pub fn get_root_path(&self) -> (root: String)
        ensures
            root@ == self.root(),
    {
        self.inner.root_path.clone()
    }

    /// Stores `progress` as the record of job `operation_id`, in place of any
    /// record the job had. No other job is touched.
    pub fn update_progress(&mut self, operation_id: &str, progress: ZipProgress)
        ensures
            final(self).records() == old(self).records().insert(operation_id@, progress@),
            final(self).shutdown_handle() == old(self).shutdown_handle(),
            final(self).root() == old(self).root(),
    {
        self.remove_progress(operation_id);
        let ghost before = self.inner.zip_progress@;
        self.inner.zip_progress.push(
            ProgressSlot { id: String::from_str(operation_id), record: progress },
        );
        proof {
            assert(self.inner.zip_progress@.drop_last() =~= before);
        }
    }

    /// A copy of the record of job `operation_id`, if it has one. The state is
    /// not changed, so asking again gives the same answer.
    pub fn get_progress(&self, operation_id: &str) -> (found: Option<ZipProgress>)
        ensures
            self.found_by(operation_id@, found),
    {
        let key = String::from_str(operation_id);
        let ghost slots = self.inner.zip_progress@;
        let mut at: usize = self.inner.zip_progress.len();
        assert(slots.take(at as int) =~= slots);
        while at > 0
            invariant
                at <= slots.len(),
                slots == self.inner.zip_progress@,
                key@ == operation_id@,
                records_by_id(slots).contains_key(key@) == records_by_id(
                    slots.take(at as int),
                ).contains_key(key@),
                records_by_id(slots).contains_key(key@) ==> records_by_id(slots)[key@]
                    == records_by_id(slots.take(at as int))[key@],
            decreases at,
        {
            proof {
                assert(slots.take(at as int).drop_last() =~= slots.take(at - 1));
            }
            at = at - 1;
            if self.inner.zip_progress[at].id == key {
                return Some(self.inner.zip_progress[at].record.clone());
            }
        }
        None
    }

    /// Forgets the record of job `operation_id`. Where the job has none,
    /// nothing changes.
    pub fn remove_progress(&mut self, operation_id: &str)
        ensures
            final(self).records() == old(self).records().remove(operation_id@),
            final(self).shutdown_handle() == old(self).shutdown_handle(),
            final(self).root() == old(self).root(),
    {
        let key = String::from_str(operation_id);
        let ghost initial = self.inner.zip_progress@;
        let mut at: usize = 0;
        while at < self.inner.zip_progress.len()
            invariant
                at <= self.inner.zip_progress.len(),
                key@ == operation_id@,
                self.inner.shutdown_tx == old(self).inner.shutdown_tx,
                self.inner.root_path == old(self).inner.root_path,
                !records_by_id(self.inner.zip_progress@.take(at as int)).contains_key(key@),
                records_by_id(self.inner.zip_progress@).remove(key@) == records_by_id(
                    initial,
                ).remove(key@),
            decreases self.inner.zip_progress.len() - at,
        {
            let ghost slots = self.inner.zip_progress@;
            if self.inner.zip_progress[at].id == key {
                proof {
                    lemma_without_slot(slots, at as int);
                }
                let _ = self.inner.zip_progress.remove(at);
                proof {
                    assert(self.inner.zip_progress@.take(at as int) =~= slots.take(at as int));
                }
            } else {
                proof {
                    assert(slots.take(at + 1).drop_last() =~= slots.take(at as int));
                }
                at = at + 1;
            }
        }
        proof {
            let slots = self.inner.zip_progress@;
            assert(slots.take(at as int) =~= slots);
        }
    }
}

/// How the records of the jobs behave under the three operations.
///
/// A record that was stored is the one that is found, and storing again
/// replaces it. Forgetting a job twice is forgetting it once, and a job that
/// was forgotten is unknown. What is done to one job leaves every other job
/// as it was.
pub proof fn lemma_records_laws(
    records: Map<Seq<char>, ProgressView>,
    id: Seq<char>,
    other: Seq<char>,
    first: ProgressView,
    second: ProgressView,
)
    requires
        other != id,
    ensures
        records.insert(id, first)[id] == first,
        records.insert(id, first).insert(id, second) == records.insert(id, second),
        records.remove(id).remove(id) == records.remove(id),
        !records.remove(id).contains_key(id),
        records.insert(id, first).contains_key(other) == records.contains_key(other),
        records.remove(id).contains_key(other) == records.contains_key(other),
        records.contains_key(other) ==> records.insert(id, first)[other] == records[other]
            && records.remove(id)[other] == records[other],
{
    assert(records.insert(id, first).insert(id, second) =~= records.insert(id, second));
    assert(records.remove(id).remove(id) =~= records.remove(id));
}

/// Two polls for one job with nothing stored or forgotten between them find the
/// same: what is found depends on the state and the id alone.
pub proof fn lemma_polls_agree(
    state: ServerState,
    id: Seq<char>,
    first: Option<ZipProgress>,
    second: Option<ZipProgress>,
)
    requires
        state.found_by(id, first),
        state.found_by(id, second),
    ensures
        first.is_some() == second.is_some(),
        first.is_some() ==> first.unwrap()@ == second.unwrap()@,
{
}

} // verus!
