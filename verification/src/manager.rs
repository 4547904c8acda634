//! The manager: the state machine that spreads each client operation over the
//! write buffer and the trees, folds what comes back, attaches the snapshots
//! that the write buffer flushes, and keeps compacting trees of similar size.
//!
//! The manager does no waiting and no sending of its own. It is stepped: the
//! driver asks which sources to wait on, hands in the event that arrived, and
//! carries out the actions that come back, in their order.

use vstd::prelude::*;
use crate::Info;
use crate::bin_merger::{BinMerger, pair_bin, settled};
use crate::kv::{Key, KeyValuePair, Value, ValueCell};
use crate::mem_cache::MemCache;
use crate::merger::{IterView, KeyValuesIter};
use crate::range::SearchRangeBounds;
use crate::refset::{Ref, RefSet, lemma_member_refs, occupied, put};
use crate::search_tree;
use crate::storage::{BlockHeader, BlockRef, NodeType, ValueBlockRef};
use crate::manager::model::{
    ManagerView, at, attached, cache_flush_taken, cache_flushed, done_expected, expected,
    flush_butcher_done, flush_launched, flush_search_tree_done, flush_tree_tasks, handled, holds,
    info_done, info_launched, info_sum, info_tree_tasks, invalidated, invalidated_slot,
    is_lookup_butcher, is_lookup_range_search_tree, is_lookup_search_tree, iter_views,
    lemma_attached_settled, lemma_attached_wf, lemma_idle_without_requests, lemma_initial_owes_nothing,
    lemma_merged_trees_gone, lemma_not_ready_refs, lemma_owed_flush, lemma_owed_flush_put,
    lemma_owed_info, lemma_owed_info_put, lemma_owed_lookup, lemma_owed_lookup_put,
    lemma_owed_lookup_range, lemma_owed_lookup_range_put, lemma_owed_tables, lemma_queue_tables,
    lemma_scheduled_wf, lemma_waiting_bound, lemma_wf_tables, loaded, lookup_answered,
    lookup_butcher_done, lookup_launched, lookup_range_butcher_done,
    lookup_range_search_tree_done, lookup_search_tree_done, merge_expected, not_ready_refs,
    range_requested, request_taken, scheduled, scheduled_actions, started, starts, task_done,
    trees_merged,
};
use crate::manager::task::{
    KeyValuesTx, MergeLookupRangeDone, ReplyTx, RetrieveValueDone, TaskArgs, TaskDone,
};

pub mod task;
pub mod model;
pub mod retrieve_value;
pub mod merge_lookup_range;

verus! {

/// The sizes and delays of the manager and of the trees that it starts.
#[derive(Clone, Copy, Debug)]
pub struct Params {
    /// Seconds before the manager is started again after a failure.
    pub task_restart_sec: usize,
    pub search_tree_params: search_tree::Params,
}

impl Default for Params {
    fn default() -> (params: Params)
        ensures
            params.task_restart_sec == 4,
            params.search_tree_params.task_restart_sec == 1,
            params.search_tree_params.tree_block_size == 32,
            params.search_tree_params.remove_tasks_limit == 64,
            params.search_tree_params.iter_send_buffer == 4,
            params.search_tree_params.values_inline_size_limit == 128,
    {
        Params { task_restart_sec: 4, search_tree_params: search_tree::Params::default() }
    }
}

/// What the manager is doing at large.
#[derive(Clone, Copy, PartialEq, Eq, Structural, Debug)]
pub enum Mode {
    /// The steady state.
    Regular,
    /// A client has asked for a flush. No request is taken until every task
    /// has come back; then the client is answered.
    Flushing { done_reply_tx: ReplyTx },
}

/// Where the write buffer's answer to a lookup stands.
#[derive(Clone, Copy, PartialEq, Eq, Structural, Debug)]
pub enum LookupRequestButcherStatus {
    /// The write buffer has not answered yet.
    NotReady,
    /// The write buffer has answered.
    Done,
    /// The write buffer was flushed before it answered. Its answer, when it
    /// comes, counts for nothing: the tree made from the flush is asked instead.
    Invalidated,
}

/// A request for the counts that is under way.
#[derive(Debug)]
pub struct InfoRequest {
    pub reply_tx: ReplyTx,
    /// How many answers are still owed.
    pub pending_count: usize,
    /// The sum of the answers so far.
    pub info_fold: Info,
}

/// A lookup that is under way.
#[derive(Debug)]
pub struct LookupRequest {
    pub key: Key,
    pub reply_tx: ReplyTx,
    pub butcher_status: LookupRequestButcherStatus,
    /// How many answers are still owed.
    pub pending_count: usize,
    /// The answer with the highest version so far.
    pub found_fold: Option<ValueCell<ValueBlockRef>>,
}

/// A range scan that is waiting for the streams of the trees.
#[derive(Debug)]
pub struct LookupRangeRequest {
    pub range: SearchRangeBounds,
    pub key_values_tx: KeyValuesTx,
    /// What the write buffer held in the range.
    pub butcher_iter_items: Vec<KeyValuePair<Value>>,
    /// The streams that have come in.
    pub merger_iters: Vec<KeyValuesIter>,
    /// How many streams are still owed.
    pub pending_count: usize,
}

/// A flush that is under way.
#[derive(Clone, Copy, PartialEq, Eq, Structural, Debug)]
pub struct FlushRequest {
    pub butcher_done: bool,
    /// How many trees still owe their answer.
    pub search_trees_pending_count: usize,
}

/// What the manager keeps of a tree that serves reads.
#[derive(Clone, Copy, PartialEq, Eq, Structural, Debug)]
pub struct SearchTree {
    pub items_count: usize,
    /// The tree is being merged with another: it has left the queue of trees
    /// to compact and goes when the merge is done.
    pub merging: bool,
}

/// A tree in the queue of trees to compact.
#[derive(Clone, Copy, PartialEq, Eq, Structural, Debug)]
pub struct SearchTreeRef {
    pub items_count: usize,
    pub search_tree_ref: Ref,
}

/// The write buffer has reached its size and hands over what it held.
#[derive(Debug)]
pub struct ButcherFlush {
    pub cache: MemCache,
}

/// What a client asks for.
#[derive(Debug)]
pub enum Request {
    Info { reply_tx: ReplyTx },
    Insert { key: Key, value: Value, reply_tx: ReplyTx },
    Lookup { key: Key, reply_tx: ReplyTx },
    LookupRange { range: SearchRangeBounds, reply_tx: ReplyTx },
    Remove { key: Key, reply_tx: ReplyTx },
    FlushAll { reply_tx: ReplyTx },
}

/// What the driver has to carry out.
#[derive(Debug)]
pub enum Action {
    /// Start a tree, to be known by `search_tree_ref`.
    SpawnSearchTree { search_tree_ref: Ref, mode: search_tree::Mode },
    /// Run a task among the ordinary ones.
    Task(TaskArgs),
    /// Run a task apart from the ordinary ones.
    BgTask(TaskArgs),
    /// Answer a request for the counts.
    ReplyInfo { reply_tx: ReplyTx, info: Info },
    /// Open a channel of `buffer` items for a range scan, keep its sending end
    /// as `key_values_tx`, and answer the client with the receiving end.
    ReplyLookupRange { reply_tx: ReplyTx, key_values_tx: KeyValuesTx, buffer: usize },
}

/// What the driver's sources deliver. `None` stands for a source that has
/// come to its end.
#[derive(Debug)]
pub enum Event {
    Request(Option<Request>),
    FlushCache(Option<ButcherFlush>),
    /// An ordinary task has come back.
    Task(Result<TaskDone, task::Error>),
    /// A task that ran apart has come back.
    BgTask(Result<TaskDone, task::Error>),
}

/// How the manager goes on after an event.
#[derive(Debug)]
pub enum Transition {
    /// Carry these actions out, in their order, and go on.
    Proceed(Vec<Action>),
    /// The clients or the write buffer are gone: stop in peace.
    Terminate,
    /// Stop in error.
    Fatal(Error),
}

/// What the block store lists while the manager comes up.
#[derive(Debug)]
pub enum IterBlocksItem {
    /// A block, and what decoding its header gave.
    Block { block_ref: BlockRef, decoded: Result<BlockHeader, crate::storage::Error> },
    /// The list is complete.
    NoMoreBlocks,
}

/// How the manager goes on after an item of the list of blocks.
#[derive(Debug)]
pub enum LoadStep {
    /// Nothing to do for this block.
    Skipped,
    /// Start a tree, to be known by `search_tree_ref`.
    Spawn { search_tree_ref: Ref, mode: search_tree::Mode },
    /// Every block has been seen.
    Done,
}

/// Why the manager gave up.
#[derive(Clone, Copy, PartialEq, Eq, Structural, Debug)]
pub enum Error {
    /// A task failed.
    Task(task::Error),
    /// The list of the store's blocks broke off.
    WheelsIterBlocksRxDropped,
    /// A block of this store did not decode.
    DeserializeBlock { block_ref: BlockRef, error: crate::storage::Error },
}

/// Whether an answer from one source takes the place of the best answer so
/// far: only if it holds a cell, and one of a higher version than the best.
pub fn replace_fold_found(
    current: &Option<ValueCell<ValueBlockRef>>,
    incoming: &Option<ValueCell<ValueBlockRef>>,
) -> (replace: bool)
    ensures
        replace == spec_replace_fold_found(*current, *incoming),
{
    match (current, incoming) {
        (None, None) => false,
        (Some(_), None) => false,
        (None, Some(_)) => true,
        (Some(cell_current), Some(cell_incoming)) => cell_current.version < cell_incoming.version,
    }
}

/// What `replace_fold_found` tells.
pub open spec fn spec_replace_fold_found(
    current: Option<ValueCell<ValueBlockRef>>,
    incoming: Option<ValueCell<ValueBlockRef>>,
) -> bool {
    match incoming {
        None => false,
        Some(cell_incoming) => match current {
            None => true,
            Some(cell_current) => cell_current.version < cell_incoming.version,
        },
    }
}

/// The best answer after `incoming` has been folded into `current`.
pub open spec fn folded(
    current: Option<ValueCell<ValueBlockRef>>,
    incoming: Option<ValueCell<ValueBlockRef>>,
) -> Option<ValueCell<ValueBlockRef>> {
    if spec_replace_fold_found(current, incoming) {
        incoming
    } else {
        current
    }
}

/// Which sources of events the driver has to wait on.
#[derive(Clone, Copy, PartialEq, Eq, Structural, Debug)]
pub enum Poll {
    /// Wait for whichever of these sources delivers first.
    Select { requests: bool, flush_cache: bool, tasks: bool, bg_tasks: bool },
    /// Every task has come back: answer the client that asked for the flush,
    /// then ask again.
    Flushed { done_reply_tx: ReplyTx },
}

/// The manager's state: its mode, the trees that serve reads, the queue of
/// trees to compact, the requests that are under way, and how many tasks are
/// out.
pub struct Manager {
    params: Params,
    mode: Mode,
    search_trees: RefSet<SearchTree>,
    search_tree_refs: BinMerger<SearchTreeRef>,
    info_requests: RefSet<InfoRequest>,
    lookup_requests: RefSet<LookupRequest>,
    lookup_range_requests: RefSet<LookupRangeRequest>,
    flush_requests: RefSet<FlushRequest>,
    tasks_count: usize,
    bg_tasks_count: usize,
    merge_search_trees_tasks_count: usize,
    /// How many ordinary tasks are out whose results no request waits for.
    loose_tasks_count: usize,
}

impl View for Manager {
    type V = ManagerView;

    closed spec fn view(&self) -> ManagerView {
        ManagerView {
            mode: self.mode,
            search_trees: self.search_trees@,
            search_tree_refs: self.search_tree_refs@,
            info_requests: self.info_requests@,
            lookup_requests: self.lookup_requests@,
            lookup_range_requests: self.lookup_range_requests@,
            flush_requests: self.flush_requests@,
            tasks_count: self.tasks_count as nat,
            bg_tasks_count: self.bg_tasks_count as nat,
            merge_search_trees_tasks_count: self.merge_search_trees_tasks_count as nat,
            params: self.params,
        }
    }
}

impl Manager {
    /// The state is in order. A manager is made in order and stays so through
    /// every event that it takes in.
    pub closed spec fn wf(&self) -> bool {
        self.wf_owing(0)
    }

    /// The state is in order, but for `short` results that have been counted
    /// off the tasks and not yet off what is owed.
    closed spec fn wf_owing(&self, short: nat) -> bool {
        &&& self.search_trees.wf()
        &&& self.info_requests.wf()
        &&& self.lookup_requests.wf()
        &&& self.lookup_range_requests.wf()
        &&& self.flush_requests.wf()
        &&& self@.wf()
        &&& self.loose_tasks_count + self@.owed_total() == self.tasks_count + short
    }

    /// What being in order means for the state as mathematics: the queue of
    /// trees to compact is sound, every request in a table is owed an answer,
    /// and every answer owed is a task that is out.
    pub proof fn lemma_wf(&self)
        requires
            self.wf(),
        ensures
            self@.wf(),
            self@.tasks_cover_requests(),
    {
    }

    /// A manager in the steady state, without trees, requests or tasks.
    pub fn new(params: Params) -> (manager: Manager)
        ensures
            manager.wf(),
            manager@ == ManagerView::initial(params),
    {
        let manager = Manager {
            params,
            mode: Mode::Regular,
            search_trees: RefSet::new(),
            search_tree_refs: BinMerger::new(),
            info_requests: RefSet::new(),
            lookup_requests: RefSet::new(),
            lookup_range_requests: RefSet::new(),
            flush_requests: RefSet::new(),
            tasks_count: 0,
            bg_tasks_count: 0,
            merge_search_trees_tasks_count: 0,
            loose_tasks_count: 0,
        };
        proof {
            lemma_initial_owes_nothing(params);
        }
        manager
    }

    /// Tells whether the counters leave room for one more event.
    pub fn has_room(&self) -> (room: bool)
        ensures
            room == self@.has_room(),
    {
        let trees = self.search_trees.slots_count();
        let lookups = self.lookup_requests.slots_count();
        trees <= usize::MAX - 4 && lookups <= usize::MAX - 4 - trees && self.tasks_count <= usize::MAX
            - 4 - trees - lookups && self.bg_tasks_count <= usize::MAX - 2 - trees
            && self.merge_search_trees_tasks_count <= usize::MAX - 2 - trees
    }

    /// Which sources the driver has to wait on next.
    ///
    /// In the steady state every source counts. During a flush no request is
    /// taken. Once the last task has come back, the client that asked for the
    /// flush is to be answered and the steady state returns; no request is
    /// under way then, so the write buffer and every tree have answered the
    /// flush.
    pub fn poll(&mut self) -> (poll: Poll)
        ensures
            match old(self)@.mode {
                Mode::Regular => {
                    &&& poll == (Poll::Select {
                        requests: true,
                        flush_cache: true,
                        tasks: old(self)@.tasks_count > 0,
                        bg_tasks: true,
                    })
                    &&& final(self)@ == old(self)@
                },
                Mode::Flushing { done_reply_tx } => if old(self)@.tasks_count + old(
                    self,
                )@.bg_tasks_count == 0 {
                    &&& poll == (Poll::Flushed { done_reply_tx })
                    &&& final(self)@ == (ManagerView { mode: Mode::Regular, ..old(self)@ })
                } else {
                    &&& poll == (Poll::Select {
                        requests: false,
                        flush_cache: true,
                        tasks: old(self)@.tasks_count > 0,
                        bg_tasks: old(self)@.bg_tasks_count > 0,
                    })
                    &&& final(self)@ == old(self)@
                },
            },
            old(self).wf() ==> final(self).wf(),
            old(self).wf() && poll is Flushed ==> final(self)@.no_requests(),
    {
        proof {
            if self.wf() && self.tasks_count == 0 {
                lemma_idle_without_requests(self@);
            }
        }
        match self.mode {
            Mode::Regular => Poll::Select {
                requests: true,
                flush_cache: true,
                tasks: self.tasks_count > 0,
                bg_tasks: true,
            },
            Mode::Flushing { done_reply_tx } => {
                if self.tasks_count == 0 && self.bg_tasks_count == 0 {
                    self.mode = Mode::Regular;
                    Poll::Flushed { done_reply_tx }
                } else {
                    Poll::Select {
                        requests: false,
                        flush_cache: true,
                        tasks: self.tasks_count > 0,
                        bg_tasks: self.bg_tasks_count > 0,
                    }
                }
            },
        }
    }

    /// Starts a lookup: enters it in the table and asks the write buffer and
    /// every tree.
    fn launch_lookup_request(&mut self, key: Key, reply_tx: ReplyTx, actions: &mut Vec<Action>) -> (request_ref: Ref)
        requires
            old(self).wf(),
            old(self)@.has_room(),
            old(actions)@.len() == 0,
        ensures
            final(self).wf(),
            lookup_launched(old(self)@, final(self)@, final(actions)@, key, reply_tx, request_ref),
    {
        let trees = self.search_trees.refs();
        proof {
            lemma_member_refs(self.search_trees@, self.search_trees@.len() as int);
        }
        let butcher_key = key.clone();
        let tree_key = key.clone();
        let request_ref = self.lookup_requests.insert(
            LookupRequest {
                key,
                reply_tx,
                butcher_status: LookupRequestButcherStatus::NotReady,
                pending_count: 1 + trees.len(),
                found_fold: None,
            },
        );
        actions.push(Action::Task(TaskArgs::LookupButcher { request_ref, key: butcher_key }));
        self.tasks_count = self.tasks_count + 1;
        let mut i: usize = 0;
        while i < trees.len()
            invariant
                i <= trees.len(),
                trees@ == old(self)@.tree_refs(),
                tree_key@ == key@,
                actions@.len() == 1 + i,
                is_lookup_butcher(actions@[0], request_ref, key@),
                forall|j: int|
                    0 <= j < i ==> is_lookup_search_tree(
                        #[trigger] actions@[1 + j],
                        request_ref,
                        key@,
                        trees@[j],
                    ),
                self.tasks_count == old(self).tasks_count + 1 + i,
                old(self)@.has_room(),
                trees@.len() <= old(self)@.search_trees.len(),
                self@ == (ManagerView { tasks_count: self.tasks_count as nat, ..self@ }),
                self.lookup_requests@ == put(
                    old(self).lookup_requests@,
                    request_ref.index as int,
                    LookupRequest {
                        key,
                        reply_tx,
                        butcher_status: LookupRequestButcherStatus::NotReady,
                        pending_count: (1 + trees.len()) as usize,
                        found_fold: None,
                    },
                ),
                self.mode == old(self).mode,
                self.params == old(self).params,
                self.search_trees == old(self).search_trees,
                self.search_tree_refs == old(self).search_tree_refs,
                self.info_requests == old(self).info_requests,
                self.lookup_range_requests == old(self).lookup_range_requests,
                self.flush_requests == old(self).flush_requests,
                self.bg_tasks_count == old(self).bg_tasks_count,
                self.merge_search_trees_tasks_count == old(self).merge_search_trees_tasks_count,
                self.loose_tasks_count == old(self).loose_tasks_count,
                self.lookup_requests.wf(),
            decreases trees.len() - i,
        {
            actions.push(
                Action::Task(
                    TaskArgs::LookupSearchTree {
                        request_ref,
                        key: tree_key.clone(),
                        search_tree_ref: trees[i],
                    },
                ),
            );
            self.tasks_count = self.tasks_count + 1;
            i += 1;
        }
        proof {
            let before = old(self)@.lookup_requests;
            let after = self@.lookup_requests;
            assert forall|i: int| 0 <= i < after.len() && (#[trigger] after[i]) is Some implies {
                &&& after[i]->0.pending_count > 0
                &&& after[i]->0.butcher_status == LookupRequestButcherStatus::NotReady
                    ==> after[i]->0.pending_count < usize::MAX
            } by {
                if i != request_ref.index {
                    assert(after[i] == before[i]);
                }
            }
            assert(self@.search_trees == old(self)@.search_trees);
            assert(self@.search_tree_refs == old(self)@.search_tree_refs);
            assert(self@.queue_sound());
            assert(self@.queue_distinct());
            assert(self@.requests_pending());
            lemma_owed_lookup_put(
                old(self)@,
                self@,
                request_ref.index as int,
                LookupRequest {
                    key,
                    reply_tx,
                    butcher_status: LookupRequestButcherStatus::NotReady,
                    pending_count: (1 + trees.len()) as usize,
                    found_fold: None,
                },
            );
        }
        request_ref
    }

    /// Starts a request for the counts: enters it in the table and asks the
    /// write buffer and every tree.
    fn launch_info_request(&mut self, reply_tx: ReplyTx, actions: &mut Vec<Action>) -> (request_ref: Ref)
        requires
            old(self).wf(),
            old(self)@.has_room(),
            old(actions)@.len() == 0,
        ensures
            final(self).wf(),
            info_launched(old(self)@, final(self)@, final(actions)@, reply_tx, request_ref),
    {
        let trees = self.search_trees.refs();
        proof {
            lemma_member_refs(self.search_trees@, self.search_trees@.len() as int);
        }
        let request_ref = self.info_requests.insert(
            InfoRequest { reply_tx, pending_count: 1 + trees.len(), info_fold: Info::default() },
        );
        actions.push(Action::Task(TaskArgs::InfoButcher { request_ref }));
        self.tasks_count = self.tasks_count + 1;
        let mut i: usize = 0;
        while i < trees.len()
            invariant
                i <= trees.len(),
                trees@ == old(self)@.tree_refs(),
                actions@ == seq![Action::Task(TaskArgs::InfoButcher { request_ref })]
                    + info_tree_tasks(request_ref, trees@.subrange(0, i as int)),
                self.tasks_count == old(self).tasks_count + 1 + i,
                old(self)@.has_room(),
                trees@.len() <= old(self)@.search_trees.len(),
                self.info_requests@ == put(
                    old(self).info_requests@,
                    request_ref.index as int,
                    InfoRequest {
                        reply_tx,
                        pending_count: (1 + trees.len()) as usize,
                        info_fold: Info { alive_cells_count: 0, tombstones_count: 0 },
                    },
                ),
                self.mode == old(self).mode,
                self.params == old(self).params,
                self.search_trees == old(self).search_trees,
                self.search_tree_refs == old(self).search_tree_refs,
                self.lookup_requests == old(self).lookup_requests,
                self.lookup_range_requests == old(self).lookup_range_requests,
                self.flush_requests == old(self).flush_requests,
                self.bg_tasks_count == old(self).bg_tasks_count,
                self.merge_search_trees_tasks_count == old(self).merge_search_trees_tasks_count,
                self.loose_tasks_count == old(self).loose_tasks_count,
                self.info_requests.wf(),
            decreases trees.len() - i,
        {
            let ghost so_far = actions@;
            actions.push(
                Action::Task(TaskArgs::InfoSearchTree { request_ref, search_tree_ref: trees[i] }),
            );
            self.tasks_count = self.tasks_count + 1;
            i += 1;
            assert(actions@ =~= seq![Action::Task(TaskArgs::InfoButcher { request_ref })]
                + info_tree_tasks(request_ref, trees@.subrange(0, i as int)));
        }
        proof {
            assert(trees@.subrange(0, trees@.len() as int) == trees@);
            let before = old(self)@.info_requests;
            let after = self@.info_requests;
            assert forall|i: int| 0 <= i < after.len() && (#[trigger] after[i]) is Some implies after[i]->0.pending_count
                > 0 by {
                if i != request_ref.index {
                    assert(after[i] == before[i]);
                }
            }
            assert(self@.search_trees == old(self)@.search_trees);
            assert(self@.search_tree_refs == old(self)@.search_tree_refs);
            assert(self@.queue_sound());
            assert(self@.queue_distinct());
            assert(self@.requests_pending());
            lemma_owed_info_put(
                old(self)@,
                self@,
                request_ref.index as int,
                InfoRequest {
                    reply_tx,
                    pending_count: (1 + trees.len()) as usize,
                    info_fold: Info { alive_cells_count: 0, tombstones_count: 0 },
                },
            );
        }
        request_ref
    }

    /// Takes in a client's request.
    pub fn request(&mut self, request: Request) -> (actions: Vec<Action>)
        requires
            old(self).wf(),
            old(self)@.has_room(),
            old(self)@.mode == Mode::Regular,
        ensures
            final(self).wf(),
            request_taken(old(self)@, final(self)@, actions@, request),
            final(self)@.search_tree_refs == old(self)@.search_tree_refs,
    {
        let mut actions: Vec<Action> = Vec::new();
        match request {
            Request::Info { reply_tx } => {
                let request_ref = self.launch_info_request(reply_tx, &mut actions);
            },
            Request::Insert { key, value, reply_tx } => {
                actions.push(Action::Task(TaskArgs::InsertButcher { key, value, reply_tx }));
                self.tasks_count = self.tasks_count + 1;
                self.loose_tasks_count = self.loose_tasks_count + 1;
                assert(actions@ == seq![
                    Action::Task(TaskArgs::InsertButcher { key, value, reply_tx }),
                ]);
                proof {
                    lemma_wf_tables(old(self)@, self@);
                    lemma_owed_tables(old(self)@, self@);
                }
            },
            Request::Lookup { key, reply_tx } => {
                let request_ref = self.launch_lookup_request(key, reply_tx, &mut actions);
            },
            Request::LookupRange { range, reply_tx } => {
                let key_values_tx = KeyValuesTx { id: reply_tx.id };
                actions.push(
                    Action::ReplyLookupRange {
                        reply_tx,
                        key_values_tx,
                        buffer: self.params.search_tree_params.iter_send_buffer,
                    },
                );
                actions.push(Action::Task(TaskArgs::LookupRangeButcher { range, key_values_tx }));
                self.tasks_count = self.tasks_count + 1;
                self.loose_tasks_count = self.loose_tasks_count + 1;
                assert(actions@ == seq![
                    Action::ReplyLookupRange {
                        reply_tx,
                        key_values_tx,
                        buffer: old(self)@.params.search_tree_params.iter_send_buffer,
                    },
                    Action::Task(TaskArgs::LookupRangeButcher { range, key_values_tx }),
                ]);
                proof {
                    lemma_wf_tables(old(self)@, self@);
                    lemma_owed_tables(old(self)@, self@);
                }
            },
            Request::Remove { key, reply_tx } => {
                actions.push(Action::Task(TaskArgs::RemoveButcher { key, reply_tx }));
                self.tasks_count = self.tasks_count + 1;
                self.loose_tasks_count = self.loose_tasks_count + 1;
                assert(actions@ == seq![Action::Task(TaskArgs::RemoveButcher { key, reply_tx })]);
                proof {
                    lemma_wf_tables(old(self)@, self@);
                    lemma_owed_tables(old(self)@, self@);
                }
            },
            Request::FlushAll { reply_tx } => {
                let request_ref = self.flush_requests.insert(
                    FlushRequest { butcher_done: false, search_trees_pending_count: 0 },
                );
                actions.push(Action::Task(TaskArgs::FlushButcher { request_ref }));
                self.tasks_count = self.tasks_count + 1;
                self.mode = Mode::Flushing { done_reply_tx: reply_tx };
                proof {
                    assert(actions@ == seq![Action::Task(TaskArgs::FlushButcher { request_ref })]);
                    let before = old(self)@.flush_requests;
                    let after = self@.flush_requests;
                    assert forall|i: int|
                        0 <= i < after.len() && (#[trigger] after[i]) is Some
                            && after[i]->0.butcher_done implies after[i]->0.search_trees_pending_count
                        > 0 by {
                        if i != request_ref.index {
                            assert(after[i] == before[i]);
                        }
                    }
                    lemma_queue_tables(old(self)@, self@);
                    assert(self@.requests_pending());
                    lemma_owed_flush_put(
                        old(self)@,
                        self@,
                        request_ref.index as int,
                        FlushRequest { butcher_done: false, search_trees_pending_count: 0 },
                    );
                    assert(flush_launched(old(self)@, self@, actions@, reply_tx, request_ref));
                }
            },
        }
        actions
    }

    /// Starts a compaction if the queue holds a pair of trees: both are
    /// marked as being merged, and the merge is handed out to run apart.
    fn maybe_merge_search_trees(&mut self, actions: &mut Vec<Action>)
        requires
            old(self).wf(),
            pair_bin(old(self)@.search_tree_refs) is Some ==> old(self)@.bg_tasks_count + 1
                <= usize::MAX && old(self)@.merge_search_trees_tasks_count + 1 <= usize::MAX,
        ensures
            final(self).wf(),
            final(self)@ == scheduled(old(self)@),
            final(actions)@ == old(actions)@ + scheduled_actions(old(self)@),
    {
        proof {
            lemma_scheduled_wf(self@);
        }
        match self.search_tree_refs.pop() {
            None => {
                assert(actions@ == old(actions)@ + scheduled_actions(old(self)@));
            },
            Some((tree_a, tree_b)) => {
                let search_tree_a = self.search_trees.get_mut(tree_a.search_tree_ref);
                search_tree_a.merging = true;
                let search_tree_b = self.search_trees.get_mut(tree_b.search_tree_ref);
                search_tree_b.merging = true;
                actions.push(
                    Action::BgTask(
                        TaskArgs::MergeSearchTrees {
                            search_tree_a_ref: tree_a.search_tree_ref,
                            search_tree_b_ref: tree_b.search_tree_ref,
                            tree_block_size: self.params.search_tree_params.tree_block_size,
                        },
                    ),
                );
                self.bg_tasks_count = self.bg_tasks_count + 1;
                self.merge_search_trees_tasks_count = self.merge_search_trees_tasks_count + 1;
                proof {
                    assert(self@.search_trees == scheduled(old(self)@).search_trees);
                    assert(self@ == scheduled(old(self)@));
                    assert(actions@ == old(actions)@ + scheduled_actions(old(self)@));
                    assert(self@.requests_pending());
                }
            },
        }
    }

    /// Enters a tree of `items_count` items in the table and queues it for
    /// compaction.
    fn attach_search_tree(&mut self, items_count: usize) -> (search_tree_ref: Ref)
        requires
            old(self).wf(),
        ensures
            final(self).wf(),
            search_tree_ref.index <= old(self)@.search_trees.len(),
            !holds(old(self)@.search_trees, search_tree_ref),
            final(self)@ == attached(old(self)@, search_tree_ref, items_count),
    {
        let search_tree_ref = self.search_trees.insert(SearchTree { items_count, merging: false });
        self.search_tree_refs.push(SearchTreeRef { items_count, search_tree_ref }, items_count);
        proof {
            lemma_attached_wf(old(self)@, search_tree_ref, items_count);
            assert(self@ == attached(old(self)@, search_tree_ref, items_count));
            assert(self@.requests_pending());
        }
        search_tree_ref
    }

    /// Takes in a merge of two trees that has come to its end.
    fn merge_search_trees_done(
        &mut self,
        search_tree_a_ref: Ref,
        search_tree_b_ref: Ref,
        root_block: BlockRef,
        items_count: usize,
        actions: &mut Vec<Action>,
    ) -> (search_tree_ref: Ref)
        requires
            old(self).wf(),
            old(self)@.has_room(),
            merge_expected(old(self)@, search_tree_a_ref, search_tree_b_ref),
            old(actions)@.len() == 0,
        ensures
            final(self).wf(),
            trees_merged(
                old(self)@,
                final(self)@,
                final(actions)@,
                search_tree_a_ref,
                search_tree_b_ref,
                root_block,
                items_count,
                search_tree_ref,
            ),
            settled(old(self)@.search_tree_refs) ==> settled(final(self)@.search_tree_refs),
    {
        let removed_a = self.search_trees.remove(search_tree_a_ref);
        actions.push(Action::Task(TaskArgs::DemolishSearchTree { search_tree_ref: search_tree_a_ref }));
        self.tasks_count = self.tasks_count + 1;
        let removed_b = self.search_trees.remove(search_tree_b_ref);
        actions.push(Action::Task(TaskArgs::DemolishSearchTree { search_tree_ref: search_tree_b_ref }));
        self.tasks_count = self.tasks_count + 1;
        self.loose_tasks_count = self.loose_tasks_count + 2;
        self.merge_search_trees_tasks_count = self.merge_search_trees_tasks_count - 1;
        let ghost gone = self@;
        proof {
            lemma_merged_trees_gone(old(self)@, gone, search_tree_a_ref, search_tree_b_ref);
            assert(gone.requests_pending());
            lemma_owed_tables(old(self)@, gone);
        }
        let search_tree_ref = self.attach_search_tree(items_count);
        actions.push(
            Action::SpawnSearchTree { search_tree_ref, mode: search_tree::Mode::Regular { root_block } },
        );
        let ghost with_tree = self@;
        self.maybe_merge_search_trees(actions);
        proof {
            if settled(old(self)@.search_tree_refs) {
                lemma_attached_settled(gone, search_tree_ref, items_count);
            }
            assert(actions@ == seq![
                Action::Task(TaskArgs::DemolishSearchTree { search_tree_ref: search_tree_a_ref }),
                Action::Task(TaskArgs::DemolishSearchTree { search_tree_ref: search_tree_b_ref }),
                Action::SpawnSearchTree {
                    search_tree_ref,
                    mode: search_tree::Mode::Regular { root_block },
                },
            ] + scheduled_actions(with_tree));
        }
        search_tree_ref
    }

    /// Starts every compaction that is due. This is for the trees that were
    /// found in the store when the manager came up.
    pub fn start(&mut self) -> (actions: Vec<Action>)
        requires
            old(self).wf(),
            old(self)@.has_room(),
        ensures
            final(self).wf(),
            settled(final(self)@.search_tree_refs),
            started(old(self)@, final(self)@, actions@),
    {
        let mut actions: Vec<Action> = Vec::new();
        let mut more = true;
        proof {
            assert(starts(old(self)@, 0) == (self@, actions@));
            lemma_waiting_bound(self@.search_trees);
        }
        while more
            invariant
                self.wf(),
                self@.bg_tasks_count + crate::bin_merger::total(self@.search_tree_refs) <= usize::MAX,
                self@.merge_search_trees_tasks_count + crate::bin_merger::total(self@.search_tree_refs)
                    <= usize::MAX,
                exists|steps: nat| starts(old(self)@, steps) == (self@, actions@),
                !more ==> pair_bin(self@.search_tree_refs) is None,
            decreases crate::bin_merger::total(self@.search_tree_refs) + (if more {
                1nat
            } else {
                0nat
            }),
        {
            let ghost before = self@;
            let ghost steps = choose|steps: nat| starts(old(self)@, steps) == (self@, actions@);
            proof {
                crate::bin_merger::lemma_pair_bin_none(before.search_tree_refs);
                if pair_bin(before.search_tree_refs) is Some {
                    let bin = pair_bin(before.search_tree_refs)->0;
                    crate::bin_merger::lemma_total_popped(before.search_tree_refs, bin);
                    crate::bin_merger::lemma_total_bounds_bin(before.search_tree_refs, bin);
                }
            }
            let count = actions.len();
            let ghost so_far = actions@;
            self.maybe_merge_search_trees(&mut actions);
            if actions.len() == count {
                more = false;
                proof {
                    assert(pair_bin(before.search_tree_refs) is None);
                    assert(actions@ =~= so_far);
                }
            } else {
                proof {
                    assert(pair_bin(before.search_tree_refs) is Some);
                    assert(starts(old(self)@, steps + 1) == (self@, actions@));
                }
            }
        }
        proof {
            crate::bin_merger::lemma_pair_bin_none(self@.search_tree_refs);
        }
        actions
    }

    /// Takes in a snapshot that the write buffer has flushed.
    pub fn flush_cache(&mut self, flush: ButcherFlush) -> (done: (Vec<Action>, Ref))
        requires
            old(self).wf(),
            old(self)@.has_room(),
        ensures
            final(self).wf(),
            cache_flushed(old(self)@, final(self)@, done.0@, flush.cache, done.1),
            settled(old(self)@.search_tree_refs) ==> settled(final(self)@.search_tree_refs),
    {
        let ButcherFlush { cache } = flush;
        let mut actions: Vec<Action> = Vec::new();
        let items_count = cache.len();
        let search_tree_ref = self.attach_search_tree(items_count);
        let ghost with_tree = self@;
        actions.push(
            Action::SpawnSearchTree {
                search_tree_ref,
                mode: search_tree::Mode::CacheBootstrap { cache },
            },
        );
        self.maybe_merge_search_trees(&mut actions);
        let ghost base = self@;
        proof {
            if settled(old(self)@.search_tree_refs) {
                lemma_attached_settled(old(self)@, search_tree_ref, items_count);
            }
        }
        let ghost lookups = old(self)@.lookup_requests;
        let ghost merging = scheduled_actions(with_tree);
        let ghost head = actions@;
        assert(head.subrange(1, 1 + merging.len() as int) == merging);
        let slots = self.lookup_requests.slots_count();
        let mut index: usize = 0;
        while index < slots
            invariant
                index <= slots,
                slots == lookups.len(),
                lookups == old(self)@.lookup_requests,
                old(self)@.wf(),
                old(self)@.has_room(),
                base.tasks_count == old(self)@.tasks_count,
                base.lookup_requests == lookups,
                base.queue_sound(),
                base.queue_distinct(),
                base.requests_pending(),
                self.search_trees.wf(),
                self.info_requests.wf(),
                self.lookup_requests.wf(),
                self.lookup_range_requests.wf(),
                self.flush_requests.wf(),
                self@ == (ManagerView {
                    lookup_requests: self@.lookup_requests,
                    tasks_count: self@.tasks_count,
                    ..base
                }),
                self@.lookup_requests.len() == lookups.len(),
                self.loose_tasks_count + self@.owed_total() == self.tasks_count,
                forall|j: int|
                    0 <= j < lookups.len() ==> #[trigger] self@.lookup_requests[j] == (if j < index {
                        invalidated_slot(lookups[j])
                    } else {
                        lookups[j]
                    }),
                self@.tasks_count == old(self)@.tasks_count + not_ready_refs(lookups, index as int).len(),
                head.len() == 1 + merging.len(),
                actions@.len() == head.len() + not_ready_refs(lookups, index as int).len(),
                actions@.subrange(0, head.len() as int) == head,
                forall|i: int|
                    0 <= i < not_ready_refs(lookups, index as int).len() ==> is_lookup_search_tree(
                        #[trigger] actions@[1 + merging.len() + i],
                        not_ready_refs(lookups, index as int)[i],
                        at(lookups, not_ready_refs(lookups, index as int)[i]).key@,
                        search_tree_ref,
                    ),
            decreases slots - index,
        {
            let request_ref = Ref { index };
            proof {
                lemma_not_ready_refs(lookups, index as int);
                lemma_not_ready_refs(lookups, index + 1);
            }
            let ghost stale = not_ready_refs(lookups, index as int);
            let ghost so_far = actions@;
            let ghost state = self@;
            let stale_key: Option<Key> = match self.lookup_requests.get(request_ref) {
                Some(lookup_request) => match lookup_request.butcher_status {
                    LookupRequestButcherStatus::NotReady => Some(lookup_request.key.clone()),
                    _ => None,
                },
                None => None,
            };
            match stale_key {
                Some(key) => {
                    assert(lookups[index as int] is Some);
                    let lookup_request = self.lookup_requests.get_mut(request_ref);
                    lookup_request.butcher_status = LookupRequestButcherStatus::Invalidated;
                    lookup_request.pending_count = lookup_request.pending_count + 1;
                    actions.push(
                        Action::Task(TaskArgs::LookupSearchTree { request_ref, key, search_tree_ref }),
                    );
                    self.tasks_count = self.tasks_count + 1;
                    proof {
                        lemma_owed_lookup(
                            state,
                            self@,
                            index as int,
                            self@.lookup_requests[index as int],
                        );
                        assert(not_ready_refs(lookups, index + 1) == stale.push(request_ref));
                        assert(actions@.subrange(0, head.len() as int) == so_far.subrange(
                            0,
                            head.len() as int,
                        ));
                        assert forall|i: int|
                            0 <= i < stale.len() + 1 implies is_lookup_search_tree(
                            #[trigger] actions@[1 + merging.len() + i],
                            stale.push(request_ref)[i],
                            at(lookups, stale.push(request_ref)[i]).key@,
                            search_tree_ref,
                        ) by {
                            if i < stale.len() {
                                assert(actions@[1 + merging.len() + i] == so_far[1 + merging.len() + i]);
                            }
                        }
                    }
                },
                None => {
                    assert(not_ready_refs(lookups, index + 1) == stale);
                },
            }
            index += 1;
        }
        proof {
            assert(self@.lookup_requests =~= invalidated(lookups));
            let after = self@.lookup_requests;
            assert forall|i: int| 0 <= i < after.len() && (#[trigger] after[i]) is Some implies {
                &&& after[i]->0.pending_count > 0
                &&& after[i]->0.butcher_status == LookupRequestButcherStatus::NotReady
                    ==> after[i]->0.pending_count < usize::MAX
            } by {
                assert(after[i] == invalidated_slot(lookups[i]));
                assert(lookups[i] is Some);
            }
            lemma_queue_tables(base, self@);
            assert(actions@.subrange(1, 1 + merging.len() as int) == head.subrange(
                1,
                1 + merging.len() as int,
            ));
            assert(actions@[0] == head[0]);
        }
        (actions, search_tree_ref)
    }

    /// Takes in an answer to a request for the counts.
    fn info_done(&mut self, request_ref: Ref, info: Info, actions: &mut Vec<Action>)
        requires
            old(self).wf_owing(1),
            holds(old(self)@.info_requests, request_ref),
            at(old(self)@.info_requests, request_ref).info_fold.fits(info),
            old(actions)@.len() == 0,
        ensures
            final(self).wf(),
            info_done(old(self)@, final(self)@, final(actions)@, request_ref, info),
    {
        assert(old(self)@.info_requests[request_ref.index as int] is Some);
        let info_request = self.info_requests.get_mut(request_ref);
        info_request.pending_count = info_request.pending_count - 1;
        info_request.info_fold.add_assign(info);
        let pending_count = info_request.pending_count;
        let ghost answered = self@;
        proof {
            lemma_owed_info(
                old(self)@,
                answered,
                request_ref.index as int,
                answered.info_requests[request_ref.index as int],
            );
        }
        if pending_count == 0 {
            let ghost changed = self.info_requests@;
            match self.info_requests.remove(request_ref) {
                Some(info_request) => {
                    actions.push(
                        Action::ReplyInfo {
                            reply_tx: info_request.reply_tx,
                            info: info_request.info_fold,
                        },
                    );
                },
                None => {},
            }
            proof {
                assert(self.info_requests@ =~= old(self).info_requests@.update(
                    request_ref.index as int,
                    None,
                ));
                let request = at(old(self)@.info_requests, request_ref);
                assert(actions@ == seq![
                    Action::ReplyInfo { reply_tx: request.reply_tx, info: info_sum(request.info_fold, info) },
                ]);
                lemma_owed_info(answered, self@, request_ref.index as int, None);
            }
        }
        proof {
            lemma_queue_tables(old(self)@, self@);
            let before = old(self)@.info_requests;
            let after = self@.info_requests;
            assert forall|i: int| 0 <= i < after.len() && (#[trigger] after[i]) is Some implies after[i]->0.pending_count
                > 0 by {
                if i != request_ref.index {
                    assert(after[i] == before[i]);
                }
            }
            assert(self@.requests_pending());
        }
    }

    /// Takes in an answer to a lookup, which leaves the lookup with
    /// `butcher_status`, and which is folded in if `fold` says so.
    fn lookup_answered(
        &mut self,
        request_ref: Ref,
        butcher_status: LookupRequestButcherStatus,
        found: Option<ValueCell<ValueBlockRef>>,
        fold: bool,
        actions: &mut Vec<Action>,
    )
        requires
            old(self).wf_owing(1),
            old(self)@.has_room(),
            holds(old(self)@.lookup_requests, request_ref),
            butcher_status != LookupRequestButcherStatus::NotReady || at(
                old(self)@.lookup_requests,
                request_ref,
            ).butcher_status == LookupRequestButcherStatus::NotReady,
            old(actions)@.len() == 0,
        ensures
            final(self).wf(),
            lookup_answered(
                old(self)@,
                final(self)@,
                final(actions)@,
                request_ref,
                butcher_status,
                if fold {
                    folded(at(old(self)@.lookup_requests, request_ref).found_fold, found)
                } else {
                    at(old(self)@.lookup_requests, request_ref).found_fold
                },
            ),
    {
        let ghost request = at(old(self)@.lookup_requests, request_ref);
        let ghost found_fold = if fold {
            folded(request.found_fold, found)
        } else {
            request.found_fold
        };
        let lookup_request = self.lookup_requests.get_mut(request_ref);
        lookup_request.pending_count = lookup_request.pending_count - 1;
        lookup_request.butcher_status = butcher_status;
        if fold && replace_fold_found(&lookup_request.found_fold, &found) {
            lookup_request.found_fold = found;
        }
        let pending_count = lookup_request.pending_count;
        let ghost answered = self@;
        proof {
            lemma_owed_lookup(
                old(self)@,
                answered,
                request_ref.index as int,
                answered.lookup_requests[request_ref.index as int],
            );
        }
        assert(self.lookup_requests@ == old(self).lookup_requests@.update(
            request_ref.index as int,
            Some(
                LookupRequest {
                    butcher_status,
                    pending_count: (request.pending_count - 1) as usize,
                    found_fold,
                    ..request
                },
            ),
        ));
        if pending_count == 0 {
            match self.lookup_requests.remove(request_ref) {
                Some(lookup_request) => {
                    actions.push(
                        Action::Task(
                            TaskArgs::RetrieveValue {
                                key: lookup_request.key,
                                found_fold: lookup_request.found_fold,
                                reply_tx: lookup_request.reply_tx,
                            },
                        ),
                    );
                    self.tasks_count = self.tasks_count + 1;
                    self.loose_tasks_count = self.loose_tasks_count + 1;
                },
                None => {},
            }
            proof {
                lemma_owed_lookup(answered, self@, request_ref.index as int, None);
                assert(self.lookup_requests@ =~= old(self).lookup_requests@.update(
                    request_ref.index as int,
                    None,
                ));
                assert(actions@ == seq![
                    Action::Task(
                        TaskArgs::RetrieveValue {
                            key: request.key,
                            found_fold,
                            reply_tx: request.reply_tx,
                        },
                    ),
                ]);
            }
        }
        proof {
            lemma_queue_tables(old(self)@, self@);
            let before = old(self)@.lookup_requests;
            let after = self@.lookup_requests;
            assert forall|i: int| 0 <= i < after.len() && (#[trigger] after[i]) is Some implies {
                &&& after[i]->0.pending_count > 0
                &&& after[i]->0.butcher_status == LookupRequestButcherStatus::NotReady
                    ==> after[i]->0.pending_count < usize::MAX
            } by {
                if i != request_ref.index {
                    assert(after[i] == before[i]);
                }
            }
            assert(self@.requests_pending());
        }
    }

    /// Takes in the write buffer's answer to a lookup.
    fn lookup_butcher_done(
        &mut self,
        request_ref: Ref,
        found: Option<ValueCell<ValueBlockRef>>,
        actions: &mut Vec<Action>,
    )
        requires
            old(self).wf_owing(1),
            old(self)@.has_room(),
            holds(old(self)@.lookup_requests, request_ref),
            at(old(self)@.lookup_requests, request_ref).butcher_status
                != LookupRequestButcherStatus::Done,
            old(actions)@.len() == 0,
        ensures
            final(self).wf(),
            lookup_butcher_done(old(self)@, final(self)@, final(actions)@, request_ref, found),
    {
        let invalidated = match self.lookup_requests.get(request_ref) {
            Some(lookup_request) => match lookup_request.butcher_status {
                LookupRequestButcherStatus::Invalidated => true,
                _ => false,
            },
            None => false,
        };
        if invalidated {
            self.lookup_answered(
                request_ref,
                LookupRequestButcherStatus::Invalidated,
                found,
                false,
                actions,
            );
        } else {
            self.lookup_answered(request_ref, LookupRequestButcherStatus::Done, found, true, actions);
        }
    }

    /// Takes in a tree's answer to a lookup.
    fn lookup_search_tree_done(
        &mut self,
        request_ref: Ref,
        found: Option<ValueCell<ValueBlockRef>>,
        actions: &mut Vec<Action>,
    )
        requires
            old(self).wf_owing(1),
            old(self)@.has_room(),
            holds(old(self)@.lookup_requests, request_ref),
            old(actions)@.len() == 0,
        ensures
            final(self).wf(),
            lookup_search_tree_done(old(self)@, final(self)@, final(actions)@, request_ref, found),
    {
        let butcher_status = match self.lookup_requests.get(request_ref) {
            Some(lookup_request) => lookup_request.butcher_status,
            None => LookupRequestButcherStatus::Done,
        };
        self.lookup_answered(request_ref, butcher_status, found, true, actions);
    }

    /// Takes in the write buffer's answer to a flush.
    fn flush_butcher_done(&mut self, request_ref: Ref, actions: &mut Vec<Action>)
        requires
            old(self).wf_owing(1),
            old(self)@.has_room(),
            holds(old(self)@.flush_requests, request_ref),
            !at(old(self)@.flush_requests, request_ref).butcher_done,
            old(actions)@.len() == 0,
        ensures
            final(self).wf(),
            flush_butcher_done(old(self)@, final(self)@, final(actions)@, request_ref),
    {
        let trees = self.search_trees.refs();
        proof {
            lemma_member_refs(self.search_trees@, self.search_trees@.len() as int);
        }
        assert(old(self)@.flush_requests[request_ref.index as int] is Some);
        if trees.len() == 0 {
            let removed = self.flush_requests.remove(request_ref);
            proof {
                lemma_owed_flush(old(self)@, self@, request_ref.index as int, None);
            }
        } else {
            let flush_request = self.flush_requests.get_mut(request_ref);
            flush_request.butcher_done = true;
            flush_request.search_trees_pending_count = trees.len();
            proof {
                lemma_owed_flush(
                    old(self)@,
                    self@,
                    request_ref.index as int,
                    Some(FlushRequest { butcher_done: true, search_trees_pending_count: trees.len() }),
                );
            }
            let mut i: usize = 0;
            while i < trees.len()
                invariant
                    i <= trees.len(),
                    trees@ == old(self)@.tree_refs(),
                    trees@.len() <= old(self)@.search_trees.len(),
                    old(self)@.has_room(),
                    actions@ == flush_tree_tasks(request_ref, trees@.subrange(0, i as int)),
                    self@ == (ManagerView {
                        flush_requests: old(self)@.flush_requests.update(
                            request_ref.index as int,
                            Some(
                                FlushRequest {
                                    butcher_done: true,
                                    search_trees_pending_count: trees.len(),
                                },
                            ),
                        ),
                        tasks_count: old(self)@.tasks_count + i as nat,
                        ..old(self)@
                    }),
                    self.loose_tasks_count == old(self).loose_tasks_count,
                    self.search_trees.wf(),
                    self.info_requests.wf(),
                    self.lookup_requests.wf(),
                    self.lookup_range_requests.wf(),
                    self.flush_requests.wf(),
                decreases trees.len() - i,
            {
                actions.push(
                    Action::Task(TaskArgs::FlushSearchTree { request_ref, search_tree_ref: trees[i] }),
                );
                self.tasks_count = self.tasks_count + 1;
                i += 1;
                assert(actions@ =~= flush_tree_tasks(request_ref, trees@.subrange(0, i as int)));
            }
            assert(trees@.subrange(0, trees@.len() as int) == trees@);
        }
        proof {
            lemma_queue_tables(old(self)@, self@);
            let before = old(self)@.flush_requests;
            let after = self@.flush_requests;
            assert forall|i: int| 0 <= i < after.len() && (#[trigger] after[i]) is Some implies (
            after[i]->0.butcher_done <==> after[i]->0.search_trees_pending_count > 0) by {
                if i != request_ref.index {
                    assert(after[i] == before[i]);
                }
            }
            assert(self@.requests_pending());
        }
    }

    /// Takes in a tree's answer to a flush.
    fn flush_search_tree_done(&mut self, request_ref: Ref, actions: &mut Vec<Action>)
        requires
            old(self).wf_owing(1),
            holds(old(self)@.flush_requests, request_ref),
            at(old(self)@.flush_requests, request_ref).butcher_done,
            old(actions)@.len() == 0,
        ensures
            final(self).wf(),
            flush_search_tree_done(old(self)@, final(self)@, final(actions)@, request_ref),
    {
        assert(old(self)@.flush_requests[request_ref.index as int] is Some);
        let flush_request = self.flush_requests.get_mut(request_ref);
        flush_request.search_trees_pending_count = flush_request.search_trees_pending_count - 1;
        let pending_count = flush_request.search_trees_pending_count;
        let ghost answered = self@;
        if pending_count == 0 {
            let removed = self.flush_requests.remove(request_ref);
            assert(self.flush_requests@ =~= old(self).flush_requests@.update(
                request_ref.index as int,
                None,
            ));
        }
        proof {
            lemma_owed_flush(
                old(self)@,
                self@,
                request_ref.index as int,
                self@.flush_requests[request_ref.index as int],
            );
            lemma_queue_tables(old(self)@, self@);
            let before = old(self)@.flush_requests;
            let after = self@.flush_requests;
            assert forall|i: int| 0 <= i < after.len() && (#[trigger] after[i]) is Some implies (
            after[i]->0.butcher_done <==> after[i]->0.search_trees_pending_count > 0) by {
                if i != request_ref.index {
                    assert(after[i] == before[i]);
                }
            }
            assert(self@.requests_pending());
        }
    }

    /// Takes in the write buffer's part of a range scan.
    fn lookup_range_butcher_done(
        &mut self,
        range: SearchRangeBounds,
        key_values_tx: KeyValuesTx,
        iter_items: Vec<KeyValuePair<Value>>,
        actions: &mut Vec<Action>,
    )
        requires
            old(self).wf(),
            old(self)@.has_room(),
            old(actions)@.len() == 0,
        ensures
            final(self).wf(),
            lookup_range_butcher_done(
                old(self)@,
                final(self)@,
                final(actions)@,
                range,
                key_values_tx,
                iter_items,
            ),
    {
        let merger_iters: Vec<KeyValuesIter> = Vec::new();
        let trees = self.search_trees.refs();
        proof {
            lemma_member_refs(self.search_trees@, self.search_trees@.len() as int);
        }
        if trees.len() == 0 {
            assert(iter_views(merger_iters@) =~= Seq::<IterView>::empty());
            actions.push(
                Action::BgTask(
                    TaskArgs::MergeLookupRange {
                        range,
                        key_values_tx,
                        butcher_iter_items: iter_items,
                        merger_iters,
                    },
                ),
            );
            self.bg_tasks_count = self.bg_tasks_count + 1;
            proof {
                lemma_wf_tables(old(self)@, self@);
                lemma_owed_tables(old(self)@, self@);
            }
        } else {
            let task_range = range.clone();
            let request_ref = self.lookup_range_requests.insert(
                LookupRangeRequest {
                    range,
                    key_values_tx,
                    butcher_iter_items: iter_items,
                    merger_iters,
                    pending_count: trees.len(),
                },
            );
            let ghost request = at(self@.lookup_range_requests, request_ref);
            let mut i: usize = 0;
            while i < trees.len()
                invariant
                    i <= trees.len(),
                    trees@ == old(self)@.tree_refs(),
                    trees@.len() <= old(self)@.search_trees.len(),
                    old(self)@.has_room(),
                    task_range@ == range@,
                    actions@.len() == i,
                    forall|j: int|
                        0 <= j < i ==> is_lookup_range_search_tree(
                            #[trigger] actions@[j],
                            request_ref,
                            range@,
                            trees@[j],
                        ),
                    self@ == (ManagerView {
                        lookup_range_requests: put(
                            old(self)@.lookup_range_requests,
                            request_ref.index as int,
                            request,
                        ),
                        tasks_count: old(self)@.tasks_count + i as nat,
                        ..old(self)@
                    }),
                    self.loose_tasks_count == old(self).loose_tasks_count,
                    self.search_trees.wf(),
                    self.info_requests.wf(),
                    self.lookup_requests.wf(),
                    self.lookup_range_requests.wf(),
                    self.flush_requests.wf(),
                decreases trees.len() - i,
            {
                actions.push(
                    Action::Task(
                        TaskArgs::LookupRangeSearchTree {
                            request_ref,
                            range: task_range.clone(),
                            search_tree_ref: trees[i],
                        },
                    ),
                );
                self.tasks_count = self.tasks_count + 1;
                i += 1;
            }
            proof {
                lemma_queue_tables(old(self)@, self@);
                let before = old(self)@.lookup_range_requests;
                let after = self@.lookup_range_requests;
                assert forall|i: int| 0 <= i < after.len() && (#[trigger] after[i]) is Some implies after[i]->0.pending_count
                    > 0 by {
                    if i != request_ref.index {
                        assert(after[i] == before[i]);
                    }
                }
                assert(self@.requests_pending());
                lemma_owed_lookup_range_put(old(self)@, self@, request_ref.index as int, request);
                assert(range_requested(
                    old(self)@,
                    self@,
                    actions@,
                    range,
                    key_values_tx,
                    iter_items,
                    request_ref,
                ));
            }
        }
    }

    /// Takes in a tree's stream for a range scan.
    fn lookup_range_search_tree_done(
        &mut self,
        request_ref: Ref,
        items_source: usize,
        actions: &mut Vec<Action>,
    )
        requires
            old(self).wf_owing(1),
            old(self)@.has_room(),
            holds(old(self)@.lookup_range_requests, request_ref),
            old(actions)@.len() == 0,
        ensures
            final(self).wf(),
            lookup_range_search_tree_done(
                old(self)@,
                final(self)@,
                final(actions)@,
                request_ref,
                items_source,
            ),
    {
        let ghost request = at(old(self)@.lookup_range_requests, request_ref);
        let ghost merger_iters = iter_views(request.merger_iters@).push(
            IterView { source: items_source, front: None },
        );
        assert(old(self)@.lookup_range_requests[request_ref.index as int] is Some);
        let lookup_range_request = self.lookup_range_requests.get_mut(request_ref);
        lookup_range_request.pending_count = lookup_range_request.pending_count - 1;
        lookup_range_request.merger_iters.push(KeyValuesIter::new(items_source));
        let pending_count = lookup_range_request.pending_count;
        let ghost changed = at(self@.lookup_range_requests, request_ref);
        let ghost answered = self@;
        proof {
            lemma_owed_lookup_range(old(self)@, answered, request_ref.index as int, Some(changed));
        }
        assert(iter_views(changed.merger_iters@) =~= merger_iters);
        if pending_count == 0 {
            match self.lookup_range_requests.remove(request_ref) {
                Some(lookup_range_request) => {
                    actions.push(
                        Action::BgTask(
                            TaskArgs::MergeLookupRange {
                                range: lookup_range_request.range,
                                key_values_tx: lookup_range_request.key_values_tx,
                                butcher_iter_items: lookup_range_request.butcher_iter_items,
                                merger_iters: lookup_range_request.merger_iters,
                            },
                        ),
                    );
                    self.bg_tasks_count = self.bg_tasks_count + 1;
                },
                None => {},
            }
            assert(self.lookup_range_requests@ =~= old(self).lookup_range_requests@.update(
                request_ref.index as int,
                None,
            ));
            proof {
                lemma_owed_lookup_range(answered, self@, request_ref.index as int, None);
            }
        }
        proof {
            lemma_queue_tables(old(self)@, self@);
            let before = old(self)@.lookup_range_requests;
            let after = self@.lookup_range_requests;
            assert forall|i: int| 0 <= i < after.len() && (#[trigger] after[i]) is Some implies after[i]->0.pending_count
                > 0 by {
                if i != request_ref.index {
                    assert(after[i] == before[i]);
                }
            }
            assert(self@.requests_pending());
        }
    }

    /// Counts a task off whose result no request waits for.
    fn loose_task_done(&mut self)
        requires
            old(self).wf_owing(1),
            old(self).loose_tasks_count > 0,
        ensures
            final(self).wf(),
            final(self)@ == old(self)@,
    {
        self.loose_tasks_count = self.loose_tasks_count - 1;
        proof {
            lemma_owed_tables(old(self)@, self@);
        }
    }

    /// Takes in the result of an ordinary task, which has been counted off
    /// the tasks that are out.
    fn task_done(&mut self, done: TaskDone) -> (actions: Vec<Action>)
        requires
            old(self).wf_owing(1),
            old(self)@.has_room(),
            done_expected(old(self)@, done),
            !done.spec_kind().spec_is_background(),
            !done.spec_kind().spec_answers_request() ==> old(self).loose_tasks_count > 0,
        ensures
            final(self).wf(),
            task_done(old(self)@, final(self)@, actions@, done),
            final(self)@.search_tree_refs == old(self)@.search_tree_refs,
    {
        let mut actions: Vec<Action> = Vec::new();
        match done {
            TaskDone::InfoButcher { request_ref, info } => {
                self.info_done(request_ref, info, &mut actions);
            },
            TaskDone::InfoSearchTree { request_ref, info } => {
                self.info_done(request_ref, info, &mut actions);
            },
            TaskDone::InsertButcher => {
                self.loose_task_done();
            },
            TaskDone::RemoveButcher => {
                self.loose_task_done();
            },
            TaskDone::LookupButcher { request_ref, found } => {
                self.lookup_butcher_done(request_ref, found, &mut actions);
            },
            TaskDone::LookupSearchTree { request_ref, found } => {
                self.lookup_search_tree_done(request_ref, found, &mut actions);
            },
            TaskDone::LookupRangeButcher { range, key_values_tx, iter_items } => {
                self.loose_task_done();
                self.lookup_range_butcher_done(range, key_values_tx, iter_items, &mut actions);
            },
            TaskDone::LookupRangeSearchTree { request_ref, items_source } => {
                self.lookup_range_search_tree_done(request_ref, items_source, &mut actions);
            },
            TaskDone::RetrieveValue(RetrieveValueDone::RetrieveSuccess) => {
                self.loose_task_done();
            },
            TaskDone::RetrieveValue(RetrieveValueDone::DeprecatedResults { key, reply_tx }) => {
                self.loose_task_done();
                let request_ref = self.launch_lookup_request(key, reply_tx, &mut actions);
            },
            TaskDone::DemolishSearchTree => {
                self.loose_task_done();
            },
            TaskDone::FlushButcher { request_ref } => {
                self.flush_butcher_done(request_ref, &mut actions);
            },
            TaskDone::FlushSearchTree { request_ref } => {
                self.flush_search_tree_done(request_ref, &mut actions);
            },
            TaskDone::MergeLookupRange(_) => {},
            TaskDone::MergeSearchTrees { .. } => {},
        }
        actions
    }

    /// Takes in the result of a task that ran apart, which has been counted
    /// off the tasks that are out.
    fn bg_task_done(&mut self, done: TaskDone) -> (actions: Vec<Action>)
        requires
            old(self).wf(),
            old(self)@.has_room(),
            done_expected(old(self)@, done),
            done.spec_kind().spec_is_background(),
        ensures
            final(self).wf(),
            task_done(old(self)@, final(self)@, actions@, done),
            settled(old(self)@.search_tree_refs) ==> settled(final(self)@.search_tree_refs),
    {
        let mut actions: Vec<Action> = Vec::new();
        match done {
            TaskDone::MergeLookupRange(MergeLookupRangeDone::MergeSuccess) => {},
            TaskDone::MergeLookupRange(
                MergeLookupRangeDone::DeprecatedResults { modified_range, key_values_tx },
            ) => {
                actions.push(
                    Action::Task(TaskArgs::LookupRangeButcher { range: modified_range, key_values_tx }),
                );
                self.tasks_count = self.tasks_count + 1;
                self.loose_tasks_count = self.loose_tasks_count + 1;
                proof {
                    lemma_wf_tables(old(self)@, self@);
                    lemma_owed_tables(old(self)@, self@);
                    assert(actions@ == seq![
                        Action::Task(
                            TaskArgs::LookupRangeButcher { range: modified_range, key_values_tx },
                        ),
                    ]);
                }
            },
            TaskDone::MergeSearchTrees {
                search_tree_a_ref,
                search_tree_b_ref,
                root_block,
                items_count,
            } => {
                let search_tree_ref = self.merge_search_trees_done(
                    search_tree_a_ref,
                    search_tree_b_ref,
                    root_block,
                    items_count,
                    &mut actions,
                );
            },
            _ => {},
        }
        actions
    }

    /// Takes in an event and says how to go on. The manager stays in order
    /// unless it has to stop in error. Where no pair of trees waited to be
    /// compacted, none waits afterwards: as soon as two trees of one size are
    /// there, their merge is under way.
    pub fn handle(&mut self, event: Event) -> (transition: Transition)
        requires
            old(self).wf(),
            old(self)@.has_room(),
            expected(old(self)@, event),
        ensures
            !(transition is Fatal) ==> final(self).wf(),
            handled(old(self)@, final(self)@, transition, event),
            settled(old(self)@.search_tree_refs) ==> settled(final(self)@.search_tree_refs),
    {
        match event {
            Event::Request(None) => Transition::Terminate,
            Event::FlushCache(None) => Transition::Terminate,
            Event::Request(Some(request)) => {
                let actions = self.request(request);
                Transition::Proceed(actions)
            },
            Event::FlushCache(Some(flush)) => {
                let (actions, search_tree_ref) = self.flush_cache(flush);
                assert(cache_flush_taken(old(self)@, self@, actions@, flush.cache));
                Transition::Proceed(actions)
            },
            Event::Task(result) => {
                self.tasks_count = self.tasks_count - 1;
                let ghost taken = self@;
                proof {
                    lemma_wf_tables(old(self)@, self@);
                    lemma_owed_tables(old(self)@, self@);
                    assert(taken == (ManagerView {
                        tasks_count: (old(self)@.tasks_count - 1) as nat,
                        ..old(self)@
                    }));
                }
                match result {
                    Err(error) => Transition::Fatal(Error::Task(error)),
                    Ok(done) => {
                        assert(done_expected(old(self)@, done));
                        assert(done_expected(taken, done));
                        let actions = self.task_done(done);
                        Transition::Proceed(actions)
                    },
                }
            },
            Event::BgTask(result) => {
                self.bg_tasks_count = self.bg_tasks_count - 1;
                let ghost taken = self@;
                proof {
                    lemma_wf_tables(old(self)@, self@);
                    lemma_owed_tables(old(self)@, self@);
                    assert(taken == (ManagerView {
                        bg_tasks_count: (old(self)@.bg_tasks_count - 1) as nat,
                        ..old(self)@
                    }));
                }
                match result {
                    Err(error) => Transition::Fatal(Error::Task(error)),
                    Ok(done) => {
                        assert(done_expected(old(self)@, done));
                        assert(done_expected(taken, done));
                        let actions = self.bg_task_done(done);
                        Transition::Proceed(actions)
                    },
                }
            },
        }
    }

    /// Tells whether the result of a task can be taken in.
    fn expects_done(&self, done: &TaskDone) -> (ok: bool)
        ensures
            ok == done_expected(self@, *done),
    {
        match done {
            TaskDone::InfoButcher { request_ref, info } => match self.info_requests.get(*request_ref) {
                Some(info_request) => info_request.info_fold.can_add(info),
                None => false,
            },
            TaskDone::InfoSearchTree { request_ref, info } => match self.info_requests.get(
                *request_ref,
            ) {
                Some(info_request) => info_request.info_fold.can_add(info),
                None => false,
            },
            TaskDone::LookupButcher { request_ref, found } => match self.lookup_requests.get(
                *request_ref,
            ) {
                Some(lookup_request) => match lookup_request.butcher_status {
                    LookupRequestButcherStatus::Done => false,
                    _ => true,
                },
                None => false,
            },
            TaskDone::LookupSearchTree { request_ref, found } => self.lookup_requests.get(
                *request_ref,
            ).is_some(),
            TaskDone::LookupRangeSearchTree {
                request_ref,
                items_source,
            } => self.lookup_range_requests.get(*request_ref).is_some(),
            TaskDone::MergeSearchTrees {
                search_tree_a_ref,
                search_tree_b_ref,
                root_block,
                items_count,
            } => {
                let merging_a = match self.search_trees.get(*search_tree_a_ref) {
                    Some(search_tree) => search_tree.merging,
                    None => false,
                };
                let merging_b = match self.search_trees.get(*search_tree_b_ref) {
                    Some(search_tree) => search_tree.merging,
                    None => false,
                };
                search_tree_a_ref.index != search_tree_b_ref.index && merging_a && merging_b
                    && self.merge_search_trees_tasks_count > 0
            },
            TaskDone::FlushButcher { request_ref } => {
                let flushing = match self.mode {
                    Mode::Flushing { .. } => true,
                    Mode::Regular => false,
                };
                match self.flush_requests.get(*request_ref) {
                    Some(flush_request) => flushing && !flush_request.butcher_done,
                    None => false,
                }
            },
            TaskDone::FlushSearchTree { request_ref } => {
                let flushing = match self.mode {
                    Mode::Flushing { .. } => true,
                    Mode::Regular => false,
                };
                match self.flush_requests.get(*request_ref) {
                    Some(flush_request) => flushing && flush_request.butcher_done,
                    None => false,
                }
            },
            _ => true,
        }
    }

    /// Tells whether `handle` can take the event in. A driver that gets
    /// `false` has lost track of its tasks.
    pub fn expects(&self, event: &Event) -> (ok: bool)
        requires
            self.wf(),
        ensures
            ok == expected(self@, *event),
    {
        match event {
            Event::Request(Some(_)) => match self.mode {
                Mode::Regular => true,
                Mode::Flushing { .. } => false,
            },
            Event::Task(Ok(done)) => {
                let kind = done.kind();
                self.tasks_count > 0 && !kind.is_background() && self.expects_done(done) && (
                kind.answers_request() || self.loose_tasks_count > 0)
            },
            Event::Task(Err(_)) => self.tasks_count > 0,
            Event::BgTask(Ok(done)) => self.bg_tasks_count > 0 && done.kind().is_background()
                && self.expects_done(done),
            Event::BgTask(Err(_)) => self.bg_tasks_count > 0,
            _ => true,
        }
    }

    /// The parameters that the manager was made with.
    pub fn params(&self) -> (params: Params)
        ensures
            params == self@.params,
    {
        self.params
    }

    /// How many trees serve reads.
    pub fn search_trees_count(&self) -> (count: usize)
        requires
            self.wf(),
        ensures
            count == occupied(self@.search_trees),
    {
        self.search_trees.len()
    }

    /// How many tasks are out, ordinary ones and those that run apart.
    pub fn tasks_out(&self) -> (counts: (usize, usize))
        ensures
            counts.0 == self@.tasks_count,
            counts.1 == self@.bg_tasks_count,
    {
        (self.tasks_count, self.bg_tasks_count)
    }

    /// Takes in one item of the list of the store's blocks, while the manager
    /// comes up.
    pub fn load(&mut self, item: Option<IterBlocksItem>) -> (step: Result<LoadStep, Error>)
        requires
            old(self).wf(),
        ensures
            final(self).wf(),
            loaded(old(self)@, final(self)@, step, item),
    {
        match item {
            None => Err(Error::WheelsIterBlocksRxDropped),
            Some(IterBlocksItem::NoMoreBlocks) => Ok(LoadStep::Done),
            Some(IterBlocksItem::Block { block_ref, decoded }) => match decoded {
                Err(crate::storage::Error::InvalidBlockMagic { expected, provided }) => Ok(
                    LoadStep::Skipped,
                ),
                Err(error) => Err(Error::DeserializeBlock { block_ref, error }),
                Ok(header) => match header.node_type {
                    NodeType::Leaf => Ok(LoadStep::Skipped),
                    NodeType::Root { tree_entries_count } => {
                        let search_tree_ref = self.attach_search_tree(tree_entries_count);
                        Ok(
                            LoadStep::Spawn {
                                search_tree_ref,
                                mode: search_tree::Mode::Regular { root_block: block_ref },
                            },
                        )
                    },
                },
            },
        }
    }
}

} // verus!
