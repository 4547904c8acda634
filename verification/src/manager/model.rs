//! The manager's state as mathematics, and what each event makes of it.

use vstd::prelude::*;
use crate::Info;
use crate::bin_merger::{bin_of, pair_bin, popped, pushed};
use crate::kv::{Key, KeyValuePair, Value, ValueCell};
use crate::merger::KeyValuesIter;
use crate::range::{RangeView, SearchRangeBounds};
use crate::refset::{
    Ref, lemma_weigh_bounds, lemma_weigh_put, lemma_weigh_update, member_refs, put, slot_weight,
    weigh,
};
use crate::search_tree;
use crate::storage::{BlockRef, NodeType, ValueBlockRef};
use crate::manager::{
    Action, Error, Event, FlushRequest, InfoRequest, IterBlocksItem, LoadStep, LookupRangeRequest,
    LookupRequest, LookupRequestButcherStatus, Mode, Params, Request, SearchTree, SearchTreeRef,
    Transition, folded,
};
use crate::manager::task::{
    KeyValuesTx, MergeLookupRangeDone, ReplyTx, RetrieveValueDone, TaskArgs, TaskDone,
};
use crate::merger::IterView;

verus! {

/// The manager's state. Each table is given by its slots: a member at the
/// index of its reference, `None` where there is none.
pub ghost struct ManagerView {
    pub mode: Mode,
    pub search_trees: Seq<Option<SearchTree>>,
    /// The queue of trees to compact, by bin.
    pub search_tree_refs: Seq<Seq<SearchTreeRef>>,
    pub info_requests: Seq<Option<InfoRequest>>,
    pub lookup_requests: Seq<Option<LookupRequest>>,
    pub lookup_range_requests: Seq<Option<LookupRangeRequest>>,
    pub flush_requests: Seq<Option<FlushRequest>>,
    /// How many ordinary tasks are out.
    pub tasks_count: nat,
    /// How many tasks that run apart are out.
    pub bg_tasks_count: nat,
    /// How many merges of two trees are out.
    pub merge_search_trees_tasks_count: nat,
    /// The parameters that the manager was made with.
    pub params: Params,
}

/// The slot that `set_ref` names holds a member.
pub open spec fn holds<T>(slots: Seq<Option<T>>, set_ref: Ref) -> bool {
    set_ref.index < slots.len() && slots[set_ref.index as int] is Some
}

/// The member that `set_ref` names.
pub open spec fn at<T>(slots: Seq<Option<T>>, set_ref: Ref) -> T {
    slots[set_ref.index as int]->0
}

/// How many answers are owed to a request for the counts.
pub open spec fn info_owed(request: InfoRequest) -> nat {
    request.pending_count as nat
}

/// How many answers are owed to a lookup.
pub open spec fn lookup_owed(request: LookupRequest) -> nat {
    request.pending_count as nat
}

/// How many streams are owed to a range scan.
pub open spec fn lookup_range_owed(request: LookupRangeRequest) -> nat {
    request.pending_count as nat
}

/// How many answers are owed to a flush: that of the write buffer first,
/// then those of the trees.
pub open spec fn flush_owed(request: FlushRequest) -> nat {
    if request.butcher_done {
        request.search_trees_pending_count as nat
    } else {
        1
    }
}

/// What a tree counts for in the queue of trees to compact: one, unless it
/// is being merged.
pub open spec fn waiting_weight() -> spec_fn(SearchTree) -> nat {
    |search_tree: SearchTree|
        if search_tree.merging {
            0nat
        } else {
            1nat
        }
}

/// There are no more trees waiting to be compacted than the table of trees
/// has slots.
pub proof fn lemma_waiting_bound(trees: Seq<Option<SearchTree>>)
    ensures
        weigh(trees, waiting_weight()) <= trees.len(),
    decreases trees.len(),
{
    if trees.len() > 0 {
        lemma_waiting_bound(trees.drop_last());
    }
}

/// `info_owed` as a weight for sums.
pub open spec fn info_weight() -> spec_fn(InfoRequest) -> nat {
    |request: InfoRequest| info_owed(request)
}

/// `lookup_owed` as a weight for sums.
pub open spec fn lookup_weight() -> spec_fn(LookupRequest) -> nat {
    |request: LookupRequest| lookup_owed(request)
}

/// `lookup_range_owed` as a weight for sums.
pub open spec fn lookup_range_weight() -> spec_fn(LookupRangeRequest) -> nat {
    |request: LookupRangeRequest| lookup_range_owed(request)
}

/// `flush_owed` as a weight for sums.
pub open spec fn flush_weight() -> spec_fn(FlushRequest) -> nat {
    |request: FlushRequest| flush_owed(request)
}

impl ManagerView {
    /// How many answers are owed to all requests together. Each of them is an
    /// ordinary task that is out.
    pub open spec fn owed_total(self) -> nat {
        weigh(self.info_requests, info_weight()) + weigh(self.lookup_requests, lookup_weight()) + weigh(
            self.lookup_range_requests,
            lookup_range_weight(),
        ) + weigh(self.flush_requests, flush_weight())
    }

    /// No request of any kind is under way.
    pub open spec fn no_requests(self) -> bool {
        &&& forall|i: int| 0 <= i < self.info_requests.len() ==> (#[trigger] self.info_requests[i]) is None
        &&& forall|i: int|
            0 <= i < self.lookup_requests.len() ==> (#[trigger] self.lookup_requests[i]) is None
        &&& forall|i: int|
            0 <= i < self.lookup_range_requests.len() ==> (#[trigger] self.lookup_range_requests[i])
                is None
        &&& forall|i: int|
            0 <= i < self.flush_requests.len() ==> (#[trigger] self.flush_requests[i]) is None
    }

    /// The state of a manager that has just been made.
    pub open spec fn initial(params: Params) -> ManagerView {
        ManagerView {
            mode: Mode::Regular,
            search_trees: Seq::empty(),
            search_tree_refs: Seq::empty(),
            info_requests: Seq::empty(),
            lookup_requests: Seq::empty(),
            lookup_range_requests: Seq::empty(),
            flush_requests: Seq::empty(),
            tasks_count: 0,
            bg_tasks_count: 0,
            merge_search_trees_tasks_count: 0,
            params,
        }
    }

    /// The references of the trees that serve reads, by rising index.
    pub open spec fn tree_refs(self) -> Seq<Ref> {
        member_refs(self.search_trees, self.search_trees.len() as int)
    }

    /// Every entry of the queue of trees to compact names a tree that serves
    /// reads, is not being merged, and has the size that the entry says.
    pub open spec fn queue_sound(self) -> bool {
        forall|bin: int, i: int|
            0 <= bin < self.search_tree_refs.len() && 0 <= i < self.search_tree_refs[bin].len() ==> {
                let entry = #[trigger] self.search_tree_refs[bin][i];
                &&& holds(self.search_trees, entry.search_tree_ref)
                &&& !at(self.search_trees, entry.search_tree_ref).merging
                &&& at(self.search_trees, entry.search_tree_ref).items_count == entry.items_count
            }
    }

    /// No tree stands in the queue of trees to compact twice.
    pub open spec fn queue_distinct(self) -> bool {
        forall|bin_a: int, i: int, bin_b: int, j: int|
            #![trigger self.search_tree_refs[bin_a][i], self.search_tree_refs[bin_b][j]]
            0 <= bin_a < self.search_tree_refs.len() && 0 <= i < self.search_tree_refs[bin_a].len() && 0
                <= bin_b < self.search_tree_refs.len() && 0 <= j < self.search_tree_refs[bin_b].len()
                && self.search_tree_refs[bin_a][i].search_tree_ref
                == self.search_tree_refs[bin_b][j].search_tree_ref ==> bin_a == bin_b && i == j
    }

    /// A request stays in its table exactly as long as answers are owed to it.
    pub open spec fn requests_pending(self) -> bool {
        &&& forall|i: int|
            0 <= i < self.info_requests.len() && (#[trigger] self.info_requests[i]) is Some
                ==> self.info_requests[i]->0.pending_count > 0
        &&& forall|i: int|
            0 <= i < self.lookup_requests.len() && (#[trigger] self.lookup_requests[i]) is Some ==> {
                &&& self.lookup_requests[i]->0.pending_count > 0
                &&& self.lookup_requests[i]->0.butcher_status == LookupRequestButcherStatus::NotReady
                    ==> self.lookup_requests[i]->0.pending_count < usize::MAX
            }
        &&& forall|i: int|
            0 <= i < self.lookup_range_requests.len() && (#[trigger] self.lookup_range_requests[i])
                is Some ==> self.lookup_range_requests[i]->0.pending_count > 0
        &&& forall|i: int|
            0 <= i < self.flush_requests.len() && (#[trigger] self.flush_requests[i]) is Some ==> (
            self.flush_requests[i]->0.butcher_done <==> self.flush_requests[i]->0.search_trees_pending_count
                > 0)
    }

    /// The queue of trees to compact holds as many entries as there are
    /// trees that serve reads and are not being merged.
    pub open spec fn queue_counted(self) -> bool {
        crate::bin_merger::total(self.search_tree_refs) == weigh(self.search_trees, waiting_weight())
    }

    /// The queue of trees to compact and the tables of requests are in
    /// order.
    pub open spec fn wf(self) -> bool {
        &&& self.queue_sound()
        &&& self.queue_distinct()
        &&& self.queue_counted()
        &&& self.requests_pending()
    }

    /// Every answer that is owed to a request is an ordinary task that is
    /// out.
    pub open spec fn tasks_cover_requests(self) -> bool {
        self.owed_total() <= self.tasks_count
    }

    /// The counters and tables are far enough from the largest number that
    /// the machine can count to for one more event to be taken in.
    pub open spec fn has_room(self) -> bool {
        &&& self.tasks_count + self.search_trees.len() + self.lookup_requests.len() + 4 <= usize::MAX
        &&& self.bg_tasks_count + self.search_trees.len() + 2 <= usize::MAX
        &&& self.merge_search_trees_tasks_count + self.search_trees.len() + 2 <= usize::MAX
    }
}

/// Whether a state is well formed depends on its tables alone.
pub proof fn lemma_wf_tables(before: ManagerView, after: ManagerView)
    requires
        before.wf(),
        after.search_trees == before.search_trees,
        after.search_tree_refs == before.search_tree_refs,
        after.info_requests == before.info_requests,
        after.lookup_requests == before.lookup_requests,
        after.lookup_range_requests == before.lookup_range_requests,
        after.flush_requests == before.flush_requests,
    ensures
        after.wf(),
{
}

/// Whether the queue of trees to compact is in order depends on the trees
/// and the queue alone.
pub proof fn lemma_queue_tables(before: ManagerView, after: ManagerView)
    requires
        before.queue_sound(),
        before.queue_distinct(),
        before.queue_counted(),
        after.search_trees == before.search_trees,
        after.search_tree_refs == before.search_tree_refs,
    ensures
        after.queue_sound(),
        after.queue_distinct(),
        after.queue_counted(),
{
}

/// Changing one request for the counts changes what is owed in all by the difference.
pub proof fn lemma_owed_info(before: ManagerView, after: ManagerView, i: int, slot: Option<InfoRequest>)
    requires
        0 <= i < before.info_requests.len(),
        after.info_requests == before.info_requests.update(i, slot),
        after.lookup_requests == before.lookup_requests,
        after.lookup_range_requests == before.lookup_range_requests,
        after.flush_requests == before.flush_requests,
    ensures
        after.owed_total() + slot_weight(before.info_requests[i], info_weight()) == before.owed_total()
            + slot_weight(slot, info_weight()),
{
    lemma_weigh_update(before.info_requests, info_weight(), i, slot);
}

/// Entering a request for the counts adds what is owed to it to what is owed in all.
pub proof fn lemma_owed_info_put(before: ManagerView, after: ManagerView, index: int, request: InfoRequest)
    requires
        0 <= index <= before.info_requests.len(),
        index < before.info_requests.len() ==> before.info_requests[index] is None,
        after.info_requests == put(before.info_requests, index, request),
        after.lookup_requests == before.lookup_requests,
        after.lookup_range_requests == before.lookup_range_requests,
        after.flush_requests == before.flush_requests,
    ensures
        after.owed_total() == before.owed_total() + info_owed(request),
{
    lemma_weigh_put(before.info_requests, info_weight(), index, request);
}

/// Changing one lookup changes what is owed in all by the difference.
pub proof fn lemma_owed_lookup(before: ManagerView, after: ManagerView, i: int, slot: Option<LookupRequest>)
    requires
        0 <= i < before.lookup_requests.len(),
        after.lookup_requests == before.lookup_requests.update(i, slot),
        after.info_requests == before.info_requests,
        after.lookup_range_requests == before.lookup_range_requests,
        after.flush_requests == before.flush_requests,
    ensures
        after.owed_total() + slot_weight(before.lookup_requests[i], lookup_weight()) == before.owed_total()
            + slot_weight(slot, lookup_weight()),
{
    lemma_weigh_update(before.lookup_requests, lookup_weight(), i, slot);
}

/// Entering a lookup adds what is owed to it to what is owed in all.
pub proof fn lemma_owed_lookup_put(before: ManagerView, after: ManagerView, index: int, request: LookupRequest)
    requires
        0 <= index <= before.lookup_requests.len(),
        index < before.lookup_requests.len() ==> before.lookup_requests[index] is None,
        after.lookup_requests == put(before.lookup_requests, index, request),
        after.info_requests == before.info_requests,
        after.lookup_range_requests == before.lookup_range_requests,
        after.flush_requests == before.flush_requests,
    ensures
        after.owed_total() == before.owed_total() + lookup_owed(request),
{
    lemma_weigh_put(before.lookup_requests, lookup_weight(), index, request);
}

/// Changing one range scan changes what is owed in all by the difference.
pub proof fn lemma_owed_lookup_range(before: ManagerView, after: ManagerView, i: int, slot: Option<LookupRangeRequest>)
    requires
        0 <= i < before.lookup_range_requests.len(),
        after.lookup_range_requests == before.lookup_range_requests.update(i, slot),
        after.info_requests == before.info_requests,
        after.lookup_requests == before.lookup_requests,
        after.flush_requests == before.flush_requests,
    ensures
        after.owed_total() + slot_weight(before.lookup_range_requests[i], lookup_range_weight()) == before.owed_total()
            + slot_weight(slot, lookup_range_weight()),
{
    lemma_weigh_update(before.lookup_range_requests, lookup_range_weight(), i, slot);
}

/// Entering a range scan adds what is owed to it to what is owed in all.
pub proof fn lemma_owed_lookup_range_put(before: ManagerView, after: ManagerView, index: int, request: LookupRangeRequest)
    requires
        0 <= index <= before.lookup_range_requests.len(),
        index < before.lookup_range_requests.len() ==> before.lookup_range_requests[index] is None,
        after.lookup_range_requests == put(before.lookup_range_requests, index, request),
        after.info_requests == before.info_requests,
        after.lookup_requests == before.lookup_requests,
        after.flush_requests == before.flush_requests,
    ensures
        after.owed_total() == before.owed_total() + lookup_range_owed(request),
{
    lemma_weigh_put(before.lookup_range_requests, lookup_range_weight(), index, request);
}

/// Changing one flush changes what is owed in all by the difference.
pub proof fn lemma_owed_flush(before: ManagerView, after: ManagerView, i: int, slot: Option<FlushRequest>)
    requires
        0 <= i < before.flush_requests.len(),
        after.flush_requests == before.flush_requests.update(i, slot),
        after.info_requests == before.info_requests,
        after.lookup_requests == before.lookup_requests,
        after.lookup_range_requests == before.lookup_range_requests,
    ensures
        after.owed_total() + slot_weight(before.flush_requests[i], flush_weight()) == before.owed_total()
            + slot_weight(slot, flush_weight()),
{
    lemma_weigh_update(before.flush_requests, flush_weight(), i, slot);
}

/// Entering a flush adds what is owed to it to what is owed in all.
pub proof fn lemma_owed_flush_put(before: ManagerView, after: ManagerView, index: int, request: FlushRequest)
    requires
        0 <= index <= before.flush_requests.len(),
        index < before.flush_requests.len() ==> before.flush_requests[index] is None,
        after.flush_requests == put(before.flush_requests, index, request),
        after.info_requests == before.info_requests,
        after.lookup_requests == before.lookup_requests,
        after.lookup_range_requests == before.lookup_range_requests,
    ensures
        after.owed_total() == before.owed_total() + flush_owed(request),
{
    lemma_weigh_put(before.flush_requests, flush_weight(), index, request);
}

/// A manager that has just been made owes nothing.
pub proof fn lemma_initial_owes_nothing(params: Params)
    ensures
        ManagerView::initial(params).owed_total() == 0,
        ManagerView::initial(params).wf(),
{
}

/// What is owed in all depends on the tables of requests alone.
pub proof fn lemma_owed_tables(before: ManagerView, after: ManagerView)
    requires
        after.info_requests == before.info_requests,
        after.lookup_requests == before.lookup_requests,
        after.lookup_range_requests == before.lookup_range_requests,
        after.flush_requests == before.flush_requests,
    ensures
        after.owed_total() == before.owed_total(),
{
}

/// While answers are owed, tasks are out: a manager without an ordinary
/// task that is out has no request under way.
pub proof fn lemma_idle_without_requests(state: ManagerView)
    requires
        state.requests_pending(),
        state.tasks_cover_requests(),
        state.tasks_count == 0,
    ensures
        state.no_requests(),
{
    assert forall|i: int| 0 <= i < state.info_requests.len() implies (#[trigger] state.info_requests[i])
        is None by {
        lemma_weigh_bounds(state.info_requests, info_weight(), i);
    }
    assert forall|i: int| 0 <= i < state.lookup_requests.len() implies (#[trigger] state.lookup_requests[i])
        is None by {
        lemma_weigh_bounds(state.lookup_requests, lookup_weight(), i);
    }
    assert forall|i: int|
        0 <= i < state.lookup_range_requests.len() implies (#[trigger] state.lookup_range_requests[i])
        is None by {
        lemma_weigh_bounds(state.lookup_range_requests, lookup_range_weight(), i);
    }
    assert forall|i: int| 0 <= i < state.flush_requests.len() implies (#[trigger] state.flush_requests[i])
        is None by {
        lemma_weigh_bounds(state.flush_requests, flush_weight(), i);
    }
}

/// One task for each tree in `trees`, asking it for its counts on behalf of
/// `request_ref`.
pub open spec fn info_tree_tasks(request_ref: Ref, trees: Seq<Ref>) -> Seq<Action> {
    Seq::new(
        trees.len(),
        |i: int| Action::Task(TaskArgs::InfoSearchTree { request_ref, search_tree_ref: trees[i] }),
    )
}

/// One task for each tree in `trees`, asking it to flush on behalf of
/// `request_ref`.
pub open spec fn flush_tree_tasks(request_ref: Ref, trees: Seq<Ref>) -> Seq<Action> {
    Seq::new(
        trees.len(),
        |i: int| Action::Task(TaskArgs::FlushSearchTree { request_ref, search_tree_ref: trees[i] }),
    )
}

/// `action` asks the write buffer for `key` on behalf of `request_ref`.
pub open spec fn is_lookup_butcher(action: Action, request_ref: Ref, key: Seq<u8>) -> bool {
    match action {
        Action::Task(TaskArgs::LookupButcher { request_ref: r, key: k }) => r == request_ref && k@
            == key,
        _ => false,
    }
}

/// `action` asks the tree `search_tree_ref` for `key` on behalf of
/// `request_ref`.
pub open spec fn is_lookup_search_tree(
    action: Action,
    request_ref: Ref,
    key: Seq<u8>,
    search_tree_ref: Ref,
) -> bool {
    match action {
        Action::Task(TaskArgs::LookupSearchTree { request_ref: r, key: k, search_tree_ref: t }) => r
            == request_ref && k@ == key && t == search_tree_ref,
        _ => false,
    }
}

/// `action` asks the tree `search_tree_ref` for its stream over `range` on
/// behalf of `request_ref`.
pub open spec fn is_lookup_range_search_tree(
    action: Action,
    request_ref: Ref,
    range: RangeView,
    search_tree_ref: Ref,
) -> bool {
    match action {
        Action::Task(
            TaskArgs::LookupRangeSearchTree { request_ref: r, range: g, search_tree_ref: t },
        ) => r == request_ref && g@ == range && t == search_tree_ref,
        _ => false,
    }
}

/// A lookup of `key` has been started: it stands in the table under
/// `request_ref`, which named a vacant slot or the slot behind the last, with
/// one answer owed by the write buffer and one by each tree, and `actions` ask
/// each of them, the write buffer first.
pub open spec fn lookup_launched(
    before: ManagerView,
    after: ManagerView,
    actions: Seq<Action>,
    key: Key,
    reply_tx: ReplyTx,
    request_ref: Ref,
) -> bool {
    let trees = before.tree_refs();
    &&& request_ref.index <= before.lookup_requests.len()
    &&& !holds(before.lookup_requests, request_ref)
    &&& after == (ManagerView {
        lookup_requests: put(
            before.lookup_requests,
            request_ref.index as int,
            LookupRequest {
                key,
                reply_tx,
                butcher_status: LookupRequestButcherStatus::NotReady,
                pending_count: (1 + trees.len()) as usize,
                found_fold: None,
            },
        ),
        tasks_count: before.tasks_count + 1 + trees.len(),
        ..before
    })
    &&& actions.len() == 1 + trees.len()
    &&& is_lookup_butcher(actions[0], request_ref, key@)
    &&& forall|i: int|
        0 <= i < trees.len() ==> is_lookup_search_tree(
            #[trigger] actions[1 + i],
            request_ref,
            key@,
            trees[i],
        )
}

/// A request for the counts has been started: it stands in the table under
/// `request_ref`, which was free, with one answer owed by the write buffer and
/// one by each tree, and `actions` ask each of them, the write buffer first.
pub open spec fn info_launched(
    before: ManagerView,
    after: ManagerView,
    actions: Seq<Action>,
    reply_tx: ReplyTx,
    request_ref: Ref,
) -> bool {
    let trees = before.tree_refs();
    &&& request_ref.index <= before.info_requests.len()
    &&& !holds(before.info_requests, request_ref)
    &&& after == (ManagerView {
        info_requests: put(
            before.info_requests,
            request_ref.index as int,
            InfoRequest {
                reply_tx,
                pending_count: (1 + trees.len()) as usize,
                info_fold: Info { alive_cells_count: 0, tombstones_count: 0 },
            },
        ),
        tasks_count: before.tasks_count + 1 + trees.len(),
        ..before
    })
    &&& actions == seq![Action::Task(TaskArgs::InfoButcher { request_ref })] + info_tree_tasks(
        request_ref,
        trees,
    )
}

/// A flush has been started: it stands in the table under `request_ref`,
/// which was free, the write buffer is asked to flush, and the manager takes
/// no request until every task has come back.
pub open spec fn flush_launched(
    before: ManagerView,
    after: ManagerView,
    actions: Seq<Action>,
    reply_tx: ReplyTx,
    request_ref: Ref,
) -> bool {
    &&& request_ref.index <= before.flush_requests.len()
    &&& !holds(before.flush_requests, request_ref)
    &&& after == (ManagerView {
        mode: Mode::Flushing { done_reply_tx: reply_tx },
        flush_requests: put(
            before.flush_requests,
            request_ref.index as int,
            FlushRequest { butcher_done: false, search_trees_pending_count: 0 },
        ),
        tasks_count: before.tasks_count + 1,
        ..before
    })
    &&& actions == seq![Action::Task(TaskArgs::FlushButcher { request_ref })]
}

/// What taking in a client's request comes to.
///
/// Writes go to the write buffer alone. Reads go to the write buffer and to
/// every tree. A range scan is answered at once with the receiving end of its
/// channel, and starts with the write buffer. A flush starts with the write
/// buffer and closes the door to further requests.
pub open spec fn request_taken(
    before: ManagerView,
    after: ManagerView,
    actions: Seq<Action>,
    request: Request,
) -> bool {
    match request {
        Request::Info { reply_tx } => exists|request_ref: Ref|
            info_launched(before, after, actions, reply_tx, request_ref),
        Request::Insert { key, value, reply_tx } => {
            &&& after == (ManagerView { tasks_count: before.tasks_count + 1, ..before })
            &&& actions == seq![Action::Task(TaskArgs::InsertButcher { key, value, reply_tx })]
        },
        Request::Lookup { key, reply_tx } => exists|request_ref: Ref|
            lookup_launched(before, after, actions, key, reply_tx, request_ref),
        Request::LookupRange { range, reply_tx } => {
            let key_values_tx = KeyValuesTx { id: reply_tx.id };
            &&& after == (ManagerView { tasks_count: before.tasks_count + 1, ..before })
            &&& actions == seq![
                Action::ReplyLookupRange {
                    reply_tx,
                    key_values_tx,
                    buffer: before.params.search_tree_params.iter_send_buffer,
                },
                Action::Task(TaskArgs::LookupRangeButcher { range, key_values_tx }),
            ]
        },
        Request::Remove { key, reply_tx } => {
            &&& after == (ManagerView { tasks_count: before.tasks_count + 1, ..before })
            &&& actions == seq![Action::Task(TaskArgs::RemoveButcher { key, reply_tx })]
        },
        Request::FlushAll { reply_tx } => exists|request_ref: Ref|
            flush_launched(before, after, actions, reply_tx, request_ref),
    }
}

/// The slots of the trees after the tree that `set_ref` names has been
/// marked as being merged.
pub open spec fn marked_merging(trees: Seq<Option<SearchTree>>, set_ref: Ref) -> Seq<
    Option<SearchTree>,
> {
    trees.update(
        set_ref.index as int,
        Some(SearchTree { items_count: at(trees, set_ref).items_count, merging: true }),
    )
}

/// The state after an attempt to start a compaction. Where the queue holds
/// a pair, the pair leaves the queue, both trees are marked as being merged,
/// and one more task runs apart. Otherwise nothing changes.
pub open spec fn scheduled(before: ManagerView) -> ManagerView {
    match pair_bin(before.search_tree_refs) {
        None => before,
        Some(bin) => {
            let a = before.search_tree_refs[bin][0];
            let b = before.search_tree_refs[bin][1];
            ManagerView {
                search_trees: marked_merging(
                    marked_merging(before.search_trees, a.search_tree_ref),
                    b.search_tree_ref,
                ),
                search_tree_refs: popped(before.search_tree_refs, bin),
                bg_tasks_count: before.bg_tasks_count + 1,
                merge_search_trees_tasks_count: before.merge_search_trees_tasks_count + 1,
                ..before
            }
        },
    }
}

/// What an attempt to start a compaction asks of the driver: to merge the
/// pair that is due, if there is one.
pub open spec fn scheduled_actions(before: ManagerView) -> Seq<Action> {
    match pair_bin(before.search_tree_refs) {
        None => Seq::empty(),
        Some(bin) => seq![
            Action::BgTask(
                TaskArgs::MergeSearchTrees {
                    search_tree_a_ref: before.search_tree_refs[bin][0].search_tree_ref,
                    search_tree_b_ref: before.search_tree_refs[bin][1].search_tree_ref,
                    tree_block_size: before.params.search_tree_params.tree_block_size,
                },
            ),
        ],
    }
}

/// The state after a tree of `items_count` items has been entered under
/// `search_tree_ref` and queued for compaction.
pub open spec fn attached(before: ManagerView, search_tree_ref: Ref, items_count: usize) -> ManagerView {
    ManagerView {
        search_trees: put(
            before.search_trees,
            search_tree_ref.index as int,
            SearchTree { items_count, merging: false },
        ),
        search_tree_refs: pushed(
            before.search_tree_refs,
            bin_of(items_count as nat),
            SearchTreeRef { items_count, search_tree_ref },
        ),
        ..before
    }
}

/// The state and the actions after `steps` compactions have been started
/// one after the other.
pub open spec fn starts(before: ManagerView, steps: nat) -> (ManagerView, Seq<Action>)
    decreases steps,
{
    if steps == 0 {
        (before, Seq::empty())
    } else {
        let (state, actions) = starts(before, (steps - 1) as nat);
        (scheduled(state), actions + scheduled_actions(state))
    }
}

/// Compactions have been started one after the other until no pair was left
/// in the queue.
pub open spec fn started(before: ManagerView, after: ManagerView, actions: Seq<Action>) -> bool {
    &&& exists|steps: nat| starts(before, steps) == (after, actions)
    &&& pair_bin(after.search_tree_refs) is None
}

/// The lookups among the first `n` slots that still wait for the write
/// buffer, by rising index.
pub open spec fn not_ready_refs(lookups: Seq<Option<LookupRequest>>, n: int) -> Seq<Ref>
    decreases n,
{
    if n <= 0 {
        Seq::empty()
    } else if n <= lookups.len() && lookups[n - 1] is Some && lookups[n - 1]->0.butcher_status
        == LookupRequestButcherStatus::NotReady {
        not_ready_refs(lookups, n - 1).push(Ref { index: (n - 1) as usize })
    } else {
        not_ready_refs(lookups, n - 1)
    }
}

/// Every listed lookup stands in the table and still waits for the write
/// buffer.
pub proof fn lemma_not_ready_refs(lookups: Seq<Option<LookupRequest>>, n: int)
    requires
        0 <= n <= lookups.len() <= usize::MAX,
    ensures
        not_ready_refs(lookups, n).len() <= n,
        forall|i: int|
            0 <= i < not_ready_refs(lookups, n).len() ==> {
                let r = #[trigger] not_ready_refs(lookups, n)[i];
                &&& r.index < n
                &&& holds(lookups, r)
                &&& at(lookups, r).butcher_status == LookupRequestButcherStatus::NotReady
            },
    decreases n,
{
    if n > 0 {
        lemma_not_ready_refs(lookups, n - 1);
    }
}

/// A lookup after the write buffer was flushed under it: if it still waited
/// for the write buffer, that answer is written off and one more answer is
/// owed, by the tree made from the flush.
pub open spec fn invalidated_slot(slot: Option<LookupRequest>) -> Option<LookupRequest> {
    match slot {
        Some(request) => if request.butcher_status == LookupRequestButcherStatus::NotReady {
            Some(
                LookupRequest {
                    butcher_status: LookupRequestButcherStatus::Invalidated,
                    pending_count: (request.pending_count + 1) as usize,
                    ..request
                },
            )
        } else {
            slot
        },
        None => None,
    }
}

/// The table of lookups after the write buffer was flushed.
pub open spec fn invalidated(lookups: Seq<Option<LookupRequest>>) -> Seq<Option<LookupRequest>> {
    Seq::new(lookups.len(), |i: int| invalidated_slot(lookups[i]))
}

/// What a flush of the write buffer comes to.
///
/// The snapshot becomes a tree under `search_tree_ref`, which was free; the
/// tree is started, and queued for compaction with the number of keys in the
/// snapshot as its size. A compaction is started if a pair is due. Every
/// lookup that still waited for the write buffer writes that answer off and
/// asks the new tree instead.
pub open spec fn cache_flushed(
    before: ManagerView,
    after: ManagerView,
    actions: Seq<Action>,
    cache: crate::mem_cache::MemCache,
    search_tree_ref: Ref,
) -> bool {
    let with_tree = attached(before, search_tree_ref, cache@.len() as usize);
    let merging = scheduled_actions(with_tree);
    let stale = not_ready_refs(before.lookup_requests, before.lookup_requests.len() as int);
    &&& search_tree_ref.index <= before.search_trees.len()
    &&& !holds(before.search_trees, search_tree_ref)
    &&& after == (ManagerView {
        lookup_requests: invalidated(before.lookup_requests),
        tasks_count: before.tasks_count + stale.len(),
        ..scheduled(with_tree)
    })
    &&& actions.len() == 1 + merging.len() + stale.len()
    &&& actions[0] == (Action::SpawnSearchTree {
        search_tree_ref,
        mode: search_tree::Mode::CacheBootstrap { cache },
    })
    &&& actions.subrange(1, 1 + merging.len() as int) == merging
    &&& forall|i: int|
        0 <= i < stale.len() ==> is_lookup_search_tree(
            #[trigger] actions[1 + merging.len() + i],
            stale[i],
            at(before.lookup_requests, stale[i]).key@,
            search_tree_ref,
        )
}

/// A flush of the write buffer has been taken in, and the tree made of the
/// snapshot entered under some free reference.
pub open spec fn cache_flush_taken(
    before: ManagerView,
    after: ManagerView,
    actions: Seq<Action>,
    cache: crate::mem_cache::MemCache,
) -> bool {
    exists|search_tree_ref: Ref| cache_flushed(before, after, actions, cache, search_tree_ref)
}

/// Trees that are being merged leave the table without a trace in the
/// queue of trees to compact.
pub proof fn lemma_merged_trees_gone(before: ManagerView, after: ManagerView, a: Ref, b: Ref)
    requires
        before.queue_sound(),
        before.queue_distinct(),
        before.queue_counted(),
        merge_expected(before, a, b),
        after.search_trees == before.search_trees.update(a.index as int, None).update(
            b.index as int,
            None,
        ),
        after.search_tree_refs == before.search_tree_refs,
    ensures
        after.queue_sound(),
        after.queue_distinct(),
        after.queue_counted(),
{
    let first = before.search_trees.update(a.index as int, None);
    lemma_weigh_update(before.search_trees, waiting_weight(), a.index as int, None);
    lemma_weigh_update(first, waiting_weight(), b.index as int, None);
    assert forall|bin: int, i: int|
        0 <= bin < after.search_tree_refs.len() && 0 <= i < after.search_tree_refs[bin].len() implies {
        let e = #[trigger] after.search_tree_refs[bin][i];
        &&& holds(after.search_trees, e.search_tree_ref)
        &&& !at(after.search_trees, e.search_tree_ref).merging
        &&& at(after.search_trees, e.search_tree_ref).items_count == e.items_count
    } by {
        let e = before.search_tree_refs[bin][i];
        assert(holds(before.search_trees, e.search_tree_ref));
    }
}

/// Where no pair waited in the queue of trees to compact, none waits after
/// a tree has been entered and a compaction started.
pub proof fn lemma_attached_settled(before: ManagerView, search_tree_ref: Ref, items_count: usize)
    requires
        crate::bin_merger::settled(before.search_tree_refs),
    ensures
        crate::bin_merger::settled(
            scheduled(attached(before, search_tree_ref, items_count)).search_tree_refs,
        ),
{
    crate::bin_merger::lemma_push_pop_settled(
        before.search_tree_refs,
        bin_of(items_count as nat),
        SearchTreeRef { items_count, search_tree_ref },
    );
}

/// The end of a merge leaves one tree less to serve reads, and starts at
/// most one merge in place of the one that ended.
pub proof fn lemma_merge_leaves_one_tree_less(
    before: ManagerView,
    after: ManagerView,
    actions: Seq<Action>,
    a: Ref,
    b: Ref,
    root_block: BlockRef,
    items_count: usize,
    search_tree_ref: Ref,
)
    requires
        before.wf(),
        merge_expected(before, a, b),
        trees_merged(before, after, actions, a, b, root_block, items_count, search_tree_ref),
    ensures
        crate::refset::occupied(after.search_trees) + 1 == crate::refset::occupied(
            before.search_trees,
        ),
        actions.len() == 3 || actions.len() == 4,
        after.merge_search_trees_tasks_count + 4 == before.merge_search_trees_tasks_count
            + actions.len(),
{
    let first = before.search_trees.update(a.index as int, None);
    let gone = ManagerView {
        search_trees: first.update(b.index as int, None),
        tasks_count: before.tasks_count + 2,
        merge_search_trees_tasks_count: (before.merge_search_trees_tasks_count - 1) as nat,
        ..before
    };
    crate::refset::lemma_occupied_update(before.search_trees, a.index as int, None);
    crate::refset::lemma_occupied_update(first, b.index as int, None);
    lemma_merged_trees_gone(before, gone, a, b);
    let tree = SearchTree { items_count, merging: false };
    let with_tree = attached(gone, search_tree_ref, items_count);
    if search_tree_ref.index < gone.search_trees.len() {
        crate::refset::lemma_occupied_update(gone.search_trees, search_tree_ref.index as int, Some(tree));
    } else {
        crate::refset::lemma_occupied_push(gone.search_trees, Some(tree));
    }
    lemma_attached_wf(gone, search_tree_ref, items_count);
    lemma_scheduled_wf(with_tree);
    match pair_bin(with_tree.search_tree_refs) {
        None => {},
        Some(bin) => {
            let x = with_tree.search_tree_refs[bin][0].search_tree_ref;
            let y = with_tree.search_tree_refs[bin][1].search_tree_ref;
            let marked = marked_merging(with_tree.search_trees, x);
            crate::refset::lemma_occupied_update(
                with_tree.search_trees,
                x.index as int,
                marked[x.index as int],
            );
            crate::refset::lemma_occupied_update(
                marked,
                y.index as int,
                marked_merging(marked, y)[y.index as int],
            );
        },
    }
}

/// A merge of the trees `a` and `b` can be taken in: both serve reads and
/// are marked as being merged, and the merge is counted.
pub open spec fn merge_expected(before: ManagerView, a: Ref, b: Ref) -> bool {
    &&& a != b
    &&& holds(before.search_trees, a)
    &&& holds(before.search_trees, b)
    &&& at(before.search_trees, a).merging
    &&& at(before.search_trees, b).merging
    &&& before.merge_search_trees_tasks_count > 0
}

/// What the end of a merge comes to.
///
/// The two trees leave the table and are to be demolished. The merged tree is
/// entered under `search_tree_ref`, which is free once the two have left, is
/// started from its root block, and is queued for compaction. A further
/// compaction is started if a pair is due.
pub open spec fn trees_merged(
    before: ManagerView,
    after: ManagerView,
    actions: Seq<Action>,
    a: Ref,
    b: Ref,
    root_block: BlockRef,
    items_count: usize,
    search_tree_ref: Ref,
) -> bool {
    let gone = ManagerView {
        search_trees: before.search_trees.update(a.index as int, None).update(b.index as int, None),
        tasks_count: before.tasks_count + 2,
        merge_search_trees_tasks_count: (before.merge_search_trees_tasks_count - 1) as nat,
        ..before
    };
    let with_tree = attached(gone, search_tree_ref, items_count);
    &&& search_tree_ref.index <= before.search_trees.len()
    &&& !holds(gone.search_trees, search_tree_ref)
    &&& after == scheduled(with_tree)
    &&& actions == seq![
        Action::Task(TaskArgs::DemolishSearchTree { search_tree_ref: a }),
        Action::Task(TaskArgs::DemolishSearchTree { search_tree_ref: b }),
        Action::SpawnSearchTree { search_tree_ref, mode: search_tree::Mode::Regular { root_block } },
    ] + scheduled_actions(with_tree)
}

/// Entering a tree under a free reference keeps the queue in order.
pub proof fn lemma_attached_wf(before: ManagerView, search_tree_ref: Ref, items_count: usize)
    requires
        before.queue_sound(),
        before.queue_distinct(),
        before.queue_counted(),
        !holds(before.search_trees, search_tree_ref),
        search_tree_ref.index <= before.search_trees.len(),
    ensures
        attached(before, search_tree_ref, items_count).queue_sound(),
        attached(before, search_tree_ref, items_count).queue_distinct(),
        attached(before, search_tree_ref, items_count).queue_counted(),
{
    let after = attached(before, search_tree_ref, items_count);
    let entry = SearchTreeRef { items_count, search_tree_ref };
    crate::bin_merger::lemma_total_pushed(before.search_tree_refs, bin_of(items_count as nat), entry);
    lemma_weigh_put(
        before.search_trees,
        waiting_weight(),
        search_tree_ref.index as int,
        SearchTree { items_count, merging: false },
    );
    crate::bin_merger::lemma_pushed_items(before.search_tree_refs, bin_of(items_count as nat), entry);
    assert forall|bin: int, i: int|
        0 <= bin < after.search_tree_refs.len() && 0 <= i < after.search_tree_refs[bin].len() implies {
        let e = #[trigger] after.search_tree_refs[bin][i];
        &&& holds(after.search_trees, e.search_tree_ref)
        &&& !at(after.search_trees, e.search_tree_ref).merging
        &&& at(after.search_trees, e.search_tree_ref).items_count == e.items_count
    } by {
        let e = after.search_tree_refs[bin][i];
        if bin < before.search_tree_refs.len() && i < before.search_tree_refs[bin].len() && e
            == before.search_tree_refs[bin][i] {
            assert(holds(before.search_trees, e.search_tree_ref));
        }
    }
    assert forall|bin_a: int, i: int, bin_b: int, j: int|
        #![trigger after.search_tree_refs[bin_a][i], after.search_tree_refs[bin_b][j]]
        0 <= bin_a < after.search_tree_refs.len() && 0 <= i < after.search_tree_refs[bin_a].len() && 0
            <= bin_b < after.search_tree_refs.len() && 0 <= j < after.search_tree_refs[bin_b].len()
            && after.search_tree_refs[bin_a][i].search_tree_ref
            == after.search_tree_refs[bin_b][j].search_tree_ref implies bin_a == bin_b && i == j by {
        let ea = after.search_tree_refs[bin_a][i];
        let eb = after.search_tree_refs[bin_b][j];
        let old_a = bin_a < before.search_tree_refs.len() && i < before.search_tree_refs[bin_a].len()
            && ea == before.search_tree_refs[bin_a][i];
        let old_b = bin_b < before.search_tree_refs.len() && j < before.search_tree_refs[bin_b].len()
            && eb == before.search_tree_refs[bin_b][j];
        if old_a {
            assert(holds(before.search_trees, ea.search_tree_ref));
        }
        if old_b {
            assert(holds(before.search_trees, eb.search_tree_ref));
        }
    }
}

/// Starting a compaction keeps the queue in order.
pub proof fn lemma_scheduled_wf(before: ManagerView)
    requires
        before.queue_sound(),
        before.queue_distinct(),
        before.queue_counted(),
    ensures
        scheduled(before).queue_sound(),
        scheduled(before).queue_distinct(),
        scheduled(before).queue_counted(),
        pair_bin(before.search_tree_refs) matches Some(bin) ==> {
            let a = before.search_tree_refs[bin][0].search_tree_ref;
            let b = before.search_tree_refs[bin][1].search_tree_ref;
            &&& a != b
            &&& holds(before.search_trees, a)
            &&& holds(before.search_trees, b)
        },
{
    crate::bin_merger::lemma_pair_bin_none(before.search_tree_refs);
    match pair_bin(before.search_tree_refs) {
        None => {},
        Some(bin) => {
            let after = scheduled(before);
            let a = before.search_tree_refs[bin][0];
            let b = before.search_tree_refs[bin][1];
            crate::bin_merger::lemma_popped_items(before.search_tree_refs, bin);
            assert(holds(before.search_trees, a.search_tree_ref));
            assert(holds(before.search_trees, b.search_tree_ref));
            assert(a.search_tree_ref != b.search_tree_ref);
            crate::bin_merger::lemma_total_popped(before.search_tree_refs, bin);
            let marked = marked_merging(before.search_trees, a.search_tree_ref);
            lemma_weigh_update(
                before.search_trees,
                waiting_weight(),
                a.search_tree_ref.index as int,
                marked[a.search_tree_ref.index as int],
            );
            lemma_weigh_update(
                marked,
                waiting_weight(),
                b.search_tree_ref.index as int,
                after.search_trees[b.search_tree_ref.index as int],
            );
            assert forall|bn: int, i: int|
                0 <= bn < after.search_tree_refs.len() && 0 <= i < after.search_tree_refs[bn].len() implies {
                let e = #[trigger] after.search_tree_refs[bn][i];
                &&& holds(after.search_trees, e.search_tree_ref)
                &&& !at(after.search_trees, e.search_tree_ref).merging
                &&& at(after.search_trees, e.search_tree_ref).items_count == e.items_count
            } by {
                let k = if bn == bin {
                    i + 2
                } else {
                    i
                };
                let e = before.search_tree_refs[bn][k];
                assert(after.search_tree_refs[bn][i] == e);
                assert(holds(before.search_trees, e.search_tree_ref));
                assert(e.search_tree_ref != a.search_tree_ref);
                assert(e.search_tree_ref != b.search_tree_ref);
            }
            assert forall|bin_a: int, i: int, bin_b: int, j: int|
                #![trigger after.search_tree_refs[bin_a][i], after.search_tree_refs[bin_b][j]]
                0 <= bin_a < after.search_tree_refs.len() && 0 <= i < after.search_tree_refs[bin_a].len()
                    && 0 <= bin_b < after.search_tree_refs.len() && 0 <= j
                    < after.search_tree_refs[bin_b].len()
                    && after.search_tree_refs[bin_a][i].search_tree_ref
                    == after.search_tree_refs[bin_b][j].search_tree_ref implies bin_a == bin_b && i
                == j by {
                let ka = if bin_a == bin {
                    i + 2
                } else {
                    i
                };
                let kb = if bin_b == bin {
                    j + 2
                } else {
                    j
                };
                assert(after.search_tree_refs[bin_a][i] == before.search_tree_refs[bin_a][ka]);
                assert(after.search_tree_refs[bin_b][j] == before.search_tree_refs[bin_b][kb]);
            }
        },
    }
}

/// The sum of two counts.
pub open spec fn info_sum(a: Info, b: Info) -> Info {
    Info {
        alive_cells_count: (a.alive_cells_count + b.alive_cells_count) as usize,
        tombstones_count: (a.tombstones_count + b.tombstones_count) as usize,
    }
}

/// What an answer to a request for the counts comes to: it is added to the
/// sum, and with the last answer the client gets the sum and the request
/// leaves the table.
pub open spec fn info_done(
    before: ManagerView,
    after: ManagerView,
    actions: Seq<Action>,
    request_ref: Ref,
    info: Info,
) -> bool {
    let request = at(before.info_requests, request_ref);
    let info_fold = info_sum(request.info_fold, info);
    if request.pending_count == 1 {
        &&& after == (ManagerView {
            info_requests: before.info_requests.update(request_ref.index as int, None),
            ..before
        })
        &&& actions == seq![Action::ReplyInfo { reply_tx: request.reply_tx, info: info_fold }]
    } else {
        &&& after == (ManagerView {
            info_requests: before.info_requests.update(
                request_ref.index as int,
                Some(
                    InfoRequest {
                        pending_count: (request.pending_count - 1) as usize,
                        info_fold,
                        ..request
                    },
                ),
            ),
            ..before
        })
        &&& actions.len() == 0
    }
}

/// A lookup after one more answer: `request` with one answer less owed, the
/// best answer and the standing with the write buffer as given.
pub open spec fn lookup_answered(
    before: ManagerView,
    after: ManagerView,
    actions: Seq<Action>,
    request_ref: Ref,
    butcher_status: LookupRequestButcherStatus,
    found_fold: Option<ValueCell<ValueBlockRef>>,
) -> bool {
    let request = at(before.lookup_requests, request_ref);
    if request.pending_count == 1 {
        &&& after == (ManagerView {
            lookup_requests: before.lookup_requests.update(request_ref.index as int, None),
            tasks_count: before.tasks_count + 1,
            ..before
        })
        &&& actions == seq![
            Action::Task(
                TaskArgs::RetrieveValue { key: request.key, found_fold, reply_tx: request.reply_tx },
            ),
        ]
    } else {
        &&& after == (ManagerView {
            lookup_requests: before.lookup_requests.update(
                request_ref.index as int,
                Some(
                    LookupRequest {
                        butcher_status,
                        pending_count: (request.pending_count - 1) as usize,
                        found_fold,
                        ..request
                    },
                ),
            ),
            ..before
        })
        &&& actions.len() == 0
    }
}

/// What the write buffer's answer to a lookup comes to. If the write buffer
/// was flushed since the lookup began, the answer counts for nothing;
/// otherwise it takes the place of the best answer so far if its version is
/// higher. With the last answer the lookup leaves the table and the value of
/// the best answer is retrieved.
pub open spec fn lookup_butcher_done(
    before: ManagerView,
    after: ManagerView,
    actions: Seq<Action>,
    request_ref: Ref,
    found: Option<ValueCell<ValueBlockRef>>,
) -> bool {
    let request = at(before.lookup_requests, request_ref);
    if request.butcher_status == LookupRequestButcherStatus::Invalidated {
        lookup_answered(
            before,
            after,
            actions,
            request_ref,
            LookupRequestButcherStatus::Invalidated,
            request.found_fold,
        )
    } else {
        lookup_answered(
            before,
            after,
            actions,
            request_ref,
            LookupRequestButcherStatus::Done,
            folded(request.found_fold, found),
        )
    }
}

/// What a tree's answer to a lookup comes to: it takes the place of the best
/// answer so far if its version is higher. With the last answer the lookup
/// leaves the table and the value of the best answer is retrieved.
pub open spec fn lookup_search_tree_done(
    before: ManagerView,
    after: ManagerView,
    actions: Seq<Action>,
    request_ref: Ref,
    found: Option<ValueCell<ValueBlockRef>>,
) -> bool {
    let request = at(before.lookup_requests, request_ref);
    lookup_answered(
        before,
        after,
        actions,
        request_ref,
        request.butcher_status,
        folded(request.found_fold, found),
    )
}

/// `action` merges the streams `merger_iters` with `butcher_iter_items` into
/// the channel `key_values_tx`, for `range`.
pub open spec fn is_merge_lookup_range(
    action: Action,
    range: SearchRangeBounds,
    key_values_tx: KeyValuesTx,
    butcher_iter_items: Vec<KeyValuePair<Value>>,
    merger_iters: Seq<IterView>,
) -> bool {
    match action {
        Action::BgTask(
            TaskArgs::MergeLookupRange {
                range: r,
                key_values_tx: tx,
                butcher_iter_items: items,
                merger_iters: iters,
            },
        ) => r == range && tx == key_values_tx && items == butcher_iter_items && iter_views(iters@)
            == merger_iters,
        _ => false,
    }
}

/// The streams of a range scan, as mathematics.
pub open spec fn iter_views(iters: Seq<KeyValuesIter>) -> Seq<IterView> {
    iters.map_values(|iter: KeyValuesIter| iter@)
}

/// A range scan has entered the table under `request_ref`, which was free,
/// with the write buffer's items and no stream yet, and `actions` ask every
/// tree for its stream.
pub open spec fn range_requested(
    before: ManagerView,
    after: ManagerView,
    actions: Seq<Action>,
    range: SearchRangeBounds,
    key_values_tx: KeyValuesTx,
    iter_items: Vec<KeyValuePair<Value>>,
    request_ref: Ref,
) -> bool {
    let trees = before.tree_refs();
    let request = at(after.lookup_range_requests, request_ref);
    &&& request_ref.index <= before.lookup_range_requests.len()
    &&& !holds(before.lookup_range_requests, request_ref)
    &&& after == (ManagerView {
        lookup_range_requests: put(before.lookup_range_requests, request_ref.index as int, request),
        tasks_count: before.tasks_count + trees.len(),
        ..before
    })
    &&& request.range == range
    &&& request.key_values_tx == key_values_tx
    &&& request.butcher_iter_items == iter_items
    &&& request.merger_iters@.len() == 0
    &&& request.pending_count == trees.len()
    &&& actions.len() == trees.len()
    &&& forall|i: int|
        0 <= i < trees.len() ==> is_lookup_range_search_tree(
            #[trigger] actions[i],
            request_ref,
            range@,
            trees[i],
        )
}

/// What the write buffer's part of a range scan comes to. Without trees the
/// merge starts at once, over the write buffer's items alone. Otherwise the
/// scan enters the table under a free reference, and every tree is asked for
/// its stream.
pub open spec fn lookup_range_butcher_done(
    before: ManagerView,
    after: ManagerView,
    actions: Seq<Action>,
    range: SearchRangeBounds,
    key_values_tx: KeyValuesTx,
    iter_items: Vec<KeyValuePair<Value>>,
) -> bool {
    if before.tree_refs().len() == 0 {
        &&& after == (ManagerView { bg_tasks_count: before.bg_tasks_count + 1, ..before })
        &&& actions.len() == 1
        &&& is_merge_lookup_range(actions[0], range, key_values_tx, iter_items, Seq::empty())
    } else {
        exists|request_ref: Ref|
            range_requested(before, after, actions, range, key_values_tx, iter_items, request_ref)
    }
}

/// What a tree's stream for a range scan comes to: it joins the streams of
/// the scan, as one of which nothing has been read. With the last stream the
/// scan leaves the table and the merge starts.
pub open spec fn lookup_range_search_tree_done(
    before: ManagerView,
    after: ManagerView,
    actions: Seq<Action>,
    request_ref: Ref,
    items_source: usize,
) -> bool {
    let request = at(before.lookup_range_requests, request_ref);
    let merger_iters = iter_views(request.merger_iters@).push(
        IterView { source: items_source, front: None },
    );
    if request.pending_count == 1 {
        &&& after == (ManagerView {
            lookup_range_requests: before.lookup_range_requests.update(request_ref.index as int, None),
            bg_tasks_count: before.bg_tasks_count + 1,
            ..before
        })
        &&& actions.len() == 1
        &&& is_merge_lookup_range(
            actions[0],
            request.range,
            request.key_values_tx,
            request.butcher_iter_items,
            merger_iters,
        )
    } else {
        let changed = at(after.lookup_range_requests, request_ref);
        &&& holds(after.lookup_range_requests, request_ref)
        &&& after == (ManagerView {
            lookup_range_requests: before.lookup_range_requests.update(
                request_ref.index as int,
                Some(changed),
            ),
            ..before
        })
        &&& changed.range == request.range
        &&& changed.key_values_tx == request.key_values_tx
        &&& changed.butcher_iter_items == request.butcher_iter_items
        &&& iter_views(changed.merger_iters@) == merger_iters
        &&& changed.pending_count == request.pending_count - 1
        &&& actions.len() == 0
    }
}

/// What the write buffer's answer to a flush comes to. Without trees the
/// flush leaves the table. Otherwise every tree is asked to flush.
pub open spec fn flush_butcher_done(
    before: ManagerView,
    after: ManagerView,
    actions: Seq<Action>,
    request_ref: Ref,
) -> bool {
    let trees = before.tree_refs();
    if trees.len() == 0 {
        &&& after == (ManagerView {
            flush_requests: before.flush_requests.update(request_ref.index as int, None),
            ..before
        })
        &&& actions.len() == 0
    } else {
        &&& after == (ManagerView {
            flush_requests: before.flush_requests.update(
                request_ref.index as int,
                Some(
                    FlushRequest {
                        butcher_done: true,
                        search_trees_pending_count: trees.len() as usize,
                    },
                ),
            ),
            tasks_count: before.tasks_count + trees.len(),
            ..before
        })
        &&& actions == flush_tree_tasks(request_ref, trees)
    }
}

/// What a tree's answer to a flush comes to: one answer less is owed, and
/// with the last the flush leaves the table.
pub open spec fn flush_search_tree_done(
    before: ManagerView,
    after: ManagerView,
    actions: Seq<Action>,
    request_ref: Ref,
) -> bool {
    let request = at(before.flush_requests, request_ref);
    &&& actions.len() == 0
    &&& after == (ManagerView {
        flush_requests: before.flush_requests.update(
            request_ref.index as int,
            if request.search_trees_pending_count == 1 {
                None
            } else {
                Some(
                    FlushRequest {
                        search_trees_pending_count: (request.search_trees_pending_count - 1) as usize,
                        ..request
                    },
                )
            },
        ),
        ..before
    })
}

/// The result of a task can be taken in: what it refers to is there, and in
/// the state that the task left it in.
pub open spec fn done_expected(before: ManagerView, done: TaskDone) -> bool {
    match done {
        TaskDone::InfoButcher { request_ref, info } => holds(before.info_requests, request_ref)
            && at(before.info_requests, request_ref).info_fold.fits(info),
        TaskDone::InfoSearchTree { request_ref, info } => holds(before.info_requests, request_ref)
            && at(before.info_requests, request_ref).info_fold.fits(info),
        TaskDone::LookupButcher { request_ref, found } => holds(before.lookup_requests, request_ref)
            && at(before.lookup_requests, request_ref).butcher_status
            != LookupRequestButcherStatus::Done,
        TaskDone::LookupSearchTree { request_ref, found } => holds(
            before.lookup_requests,
            request_ref,
        ),
        TaskDone::LookupRangeSearchTree { request_ref, items_source } => holds(
            before.lookup_range_requests,
            request_ref,
        ),
        TaskDone::MergeSearchTrees { search_tree_a_ref, search_tree_b_ref, root_block, items_count } =>
            merge_expected(before, search_tree_a_ref, search_tree_b_ref),
        TaskDone::FlushButcher { request_ref } => before.mode is Flushing && holds(
            before.flush_requests,
            request_ref,
        ) && !at(before.flush_requests, request_ref).butcher_done,
        TaskDone::FlushSearchTree { request_ref } => before.mode is Flushing && holds(
            before.flush_requests,
            request_ref,
        ) && at(before.flush_requests, request_ref).butcher_done,
        _ => true,
    }
}

/// What the result of a task comes to.
pub open spec fn task_done(
    before: ManagerView,
    after: ManagerView,
    actions: Seq<Action>,
    done: TaskDone,
) -> bool {
    match done {
        TaskDone::InfoButcher { request_ref, info } => info_done(
            before,
            after,
            actions,
            request_ref,
            info,
        ),
        TaskDone::InfoSearchTree { request_ref, info } => info_done(
            before,
            after,
            actions,
            request_ref,
            info,
        ),
        TaskDone::InsertButcher => after == before && actions.len() == 0,
        TaskDone::RemoveButcher => after == before && actions.len() == 0,
        TaskDone::LookupButcher { request_ref, found } => lookup_butcher_done(
            before,
            after,
            actions,
            request_ref,
            found,
        ),
        TaskDone::LookupSearchTree { request_ref, found } => lookup_search_tree_done(
            before,
            after,
            actions,
            request_ref,
            found,
        ),
        TaskDone::LookupRangeButcher { range, key_values_tx, iter_items } => lookup_range_butcher_done(
            before,
            after,
            actions,
            range,
            key_values_tx,
            iter_items,
        ),
        TaskDone::LookupRangeSearchTree { request_ref, items_source } => lookup_range_search_tree_done(
            before,
            after,
            actions,
            request_ref,
            items_source,
        ),
        TaskDone::MergeLookupRange(MergeLookupRangeDone::MergeSuccess) => after == before
            && actions.len() == 0,
        TaskDone::MergeLookupRange(
            MergeLookupRangeDone::DeprecatedResults { modified_range, key_values_tx },
        ) => {
            &&& after == (ManagerView { tasks_count: before.tasks_count + 1, ..before })
            &&& actions == seq![
                Action::Task(TaskArgs::LookupRangeButcher { range: modified_range, key_values_tx }),
            ]
        },
        TaskDone::RetrieveValue(RetrieveValueDone::RetrieveSuccess) => after == before
            && actions.len() == 0,
        TaskDone::RetrieveValue(RetrieveValueDone::DeprecatedResults { key, reply_tx }) => exists|
            request_ref: Ref,
        |
            lookup_launched(before, after, actions, key, reply_tx, request_ref),
        TaskDone::MergeSearchTrees { search_tree_a_ref, search_tree_b_ref, root_block, items_count } =>
            exists|search_tree_ref: Ref|
                trees_merged(
                    before,
                    after,
                    actions,
                    search_tree_a_ref,
                    search_tree_b_ref,
                    root_block,
                    items_count,
                    search_tree_ref,
                ),
        TaskDone::DemolishSearchTree => after == before && actions.len() == 0,
        TaskDone::FlushButcher { request_ref } => flush_butcher_done(
            before,
            after,
            actions,
            request_ref,
        ),
        TaskDone::FlushSearchTree { request_ref } => flush_search_tree_done(
            before,
            after,
            actions,
            request_ref,
        ),
    }
}

/// The event can be taken in. Requests come in the steady state only. The
/// result of a task comes while a task of its sort is out, on the side that
/// the task went out on, and refers to what is there. A result that no request
/// waits for comes while more tasks are out than answers are owed.
pub open spec fn expected(before: ManagerView, event: Event) -> bool {
    match event {
        Event::Request(Some(_)) => before.mode == Mode::Regular,
        Event::Task(Ok(done)) => {
            &&& before.tasks_count > 0
            &&& !done.spec_kind().spec_is_background()
            &&& done_expected(before, done)
            &&& !done.spec_kind().spec_answers_request() ==> before.tasks_count > before.owed_total()
        },
        Event::Task(Err(_)) => before.tasks_count > 0,
        Event::BgTask(Ok(done)) => {
            &&& before.bg_tasks_count > 0
            &&& done.spec_kind().spec_is_background()
            &&& done_expected(before, done)
        },
        Event::BgTask(Err(_)) => before.bg_tasks_count > 0,
        _ => true,
    }
}

/// What an event comes to.
///
/// The end of either channel ends the manager in peace, the failure of a
/// task ends it in error. Everything else goes on, with actions for the
/// driver.
pub open spec fn handled(
    before: ManagerView,
    after: ManagerView,
    transition: Transition,
    event: Event,
) -> bool {
    match event {
        Event::Request(None) => transition is Terminate && after == before,
        Event::FlushCache(None) => transition is Terminate && after == before,
        Event::Request(Some(request)) => transition matches Transition::Proceed(actions)
            && request_taken(before, after, actions@, request),
        Event::FlushCache(Some(flush)) => transition matches Transition::Proceed(actions)
            && cache_flush_taken(before, after, actions@, flush.cache),
        Event::Task(Ok(done)) => transition matches Transition::Proceed(actions) && task_done(
            ManagerView { tasks_count: (before.tasks_count - 1) as nat, ..before },
            after,
            actions@,
            done,
        ),
        Event::Task(Err(error)) => transition == Transition::Fatal(Error::Task(error)) && after == (
        ManagerView { tasks_count: (before.tasks_count - 1) as nat, ..before }),
        Event::BgTask(Ok(done)) => transition matches Transition::Proceed(actions) && task_done(
            ManagerView { bg_tasks_count: (before.bg_tasks_count - 1) as nat, ..before },
            after,
            actions@,
            done,
        ),
        Event::BgTask(Err(error)) => transition == Transition::Fatal(Error::Task(error)) && after == (
        ManagerView { bg_tasks_count: (before.bg_tasks_count - 1) as nat, ..before }),
    }
}

/// What one item of the list of the store's blocks comes to, while the
/// manager comes up.
///
/// A root block becomes a tree of as many items as its header says, entered
/// under a free reference and queued for compaction. A leaf is passed over, and
/// so is a block that is not this store's. Any other block that does not
/// decode ends the manager, and so does a list that breaks off.
pub open spec fn loaded(
    before: ManagerView,
    after: ManagerView,
    step: Result<LoadStep, Error>,
    item: Option<IterBlocksItem>,
) -> bool {
    match item {
        None => step == Err::<LoadStep, Error>(Error::WheelsIterBlocksRxDropped) && after == before,
        Some(IterBlocksItem::NoMoreBlocks) => step == Ok::<LoadStep, Error>(LoadStep::Done) && after
            == before,
        Some(IterBlocksItem::Block { block_ref, decoded }) => match decoded {
            Err(crate::storage::Error::InvalidBlockMagic { expected, provided }) => step == Ok::<
                LoadStep,
                Error,
            >(LoadStep::Skipped) && after == before,
            Err(error) => step == Err::<LoadStep, Error>(
                Error::DeserializeBlock { block_ref, error },
            ) && after == before,
            Ok(header) => match header.node_type {
                NodeType::Leaf => step == Ok::<LoadStep, Error>(LoadStep::Skipped) && after == before,
                NodeType::Root { tree_entries_count } => step matches Ok(
                    LoadStep::Spawn { search_tree_ref, mode },
                ) && search_tree_ref.index <= before.search_trees.len() && !holds(
                    before.search_trees,
                    search_tree_ref,
                ) && mode == (search_tree::Mode::Regular {
                    root_block: block_ref,
                }) && after == attached(before, search_tree_ref, tree_entries_count),
            },
        },
    }
}

/// The version of an answer, or -1 for an answer that found nothing.
pub open spec fn version_of(found: Option<ValueCell<ValueBlockRef>>) -> int {
    match found {
        Some(value_cell) => value_cell.version as int,
        None => -1,
    }
}

/// The best answer after `answers` have been folded into `current`, in
/// their order.
pub open spec fn folded_all(
    current: Option<ValueCell<ValueBlockRef>>,
    answers: Seq<Option<ValueCell<ValueBlockRef>>>,
) -> Option<ValueCell<ValueBlockRef>>
    decreases answers.len(),
{
    if answers.len() == 0 {
        current
    } else {
        folded(folded_all(current, answers.drop_last()), answers.last())
    }
}

/// Folding an answer in never lowers the version of the best answer, and
/// the best answer is the old one or the new one.
pub proof fn lemma_folded_never_lowers(
    current: Option<ValueCell<ValueBlockRef>>,
    incoming: Option<ValueCell<ValueBlockRef>>,
)
    ensures
        version_of(folded(current, incoming)) >= version_of(current),
        version_of(folded(current, incoming)) >= version_of(incoming),
        folded(current, incoming) == current || folded(current, incoming) == incoming,
{
}

/// The best answer has the highest version of all answers: no answer that
/// was folded in has a higher one, and it is one of them unless none of them
/// beat what the fold began with.
pub proof fn lemma_folded_all_highest(
    current: Option<ValueCell<ValueBlockRef>>,
    answers: Seq<Option<ValueCell<ValueBlockRef>>>,
)
    ensures
        version_of(folded_all(current, answers)) >= version_of(current),
        forall|i: int|
            0 <= i < answers.len() ==> version_of(folded_all(current, answers)) >= version_of(
                #[trigger] answers[i],
            ),
        folded_all(current, answers) == current || exists|i: int|
            0 <= i < answers.len() && #[trigger] answers[i] == folded_all(current, answers),
    decreases answers.len(),
{
    if answers.len() > 0 {
        let rest = answers.drop_last();
        lemma_folded_all_highest(current, rest);
        lemma_folded_never_lowers(folded_all(current, rest), answers.last());
        assert forall|i: int| 0 <= i < answers.len() implies version_of(folded_all(current, answers))
            >= version_of(#[trigger] answers[i]) by {
            if i < rest.len() {
                assert(rest[i] == answers[i]);
            }
        }
        if folded_all(current, answers) != current {
            if folded_all(current, answers) == answers.last() {
                assert(answers[answers.len() - 1] == folded_all(current, answers));
            } else {
                let i = choose|i: int| 0 <= i < rest.len() && #[trigger] rest[i] == folded_all(current, rest);
                assert(answers[i] == folded_all(current, answers));
            }
        }
    }
}

/// A lookup reads what was written last: if one of the answers holds a
/// cell of a higher version than every other answer, the fold of all answers
/// is that cell, whatever the order in which the answers come.
pub proof fn lemma_fold_reads_latest(answers: Seq<Option<ValueCell<ValueBlockRef>>>, latest: int)
    requires
        0 <= latest < answers.len(),
        answers[latest] is Some,
        forall|i: int|
            0 <= i < answers.len() && i != latest ==> version_of(#[trigger] answers[i]) < version_of(
                answers[latest],
            ),
    ensures
        folded_all(None, answers) == answers[latest],
{
    lemma_folded_all_highest(None, answers);
    let best = folded_all(None, answers);
    assert(version_of(best) >= version_of(answers[latest]));
    if best != answers[latest] {
        let i = choose|i: int| 0 <= i < answers.len() && #[trigger] answers[i] == best;
        assert(i != latest);
    }
}

/// A flush of the write buffer under a lookup that still waits for the
/// write buffer: the lookup is owed one more answer, and the tree made from
/// the flush is asked for the key on its behalf.
pub proof fn lemma_flush_invalidates(
    before: ManagerView,
    after: ManagerView,
    actions: Seq<Action>,
    cache: crate::mem_cache::MemCache,
    search_tree_ref: Ref,
    request_ref: Ref,
)
    requires
        before.lookup_requests.len() <= usize::MAX,
        cache_flushed(before, after, actions, cache, search_tree_ref),
        holds(before.lookup_requests, request_ref),
        at(before.lookup_requests, request_ref).butcher_status == LookupRequestButcherStatus::NotReady,
    ensures
        holds(after.lookup_requests, request_ref),
        at(after.lookup_requests, request_ref) == (LookupRequest {
            butcher_status: LookupRequestButcherStatus::Invalidated,
            pending_count: (at(before.lookup_requests, request_ref).pending_count + 1) as usize,
            ..at(before.lookup_requests, request_ref)
        }),
        exists|k: int|
            0 <= k < actions.len() && is_lookup_search_tree(
                #[trigger] actions[k],
                request_ref,
                at(before.lookup_requests, request_ref).key@,
                search_tree_ref,
            ),
{
    let lookups = before.lookup_requests;
    let stale = not_ready_refs(lookups, lookups.len() as int);
    let merging = scheduled_actions(attached(before, search_tree_ref, cache@.len() as usize));
    lemma_not_ready_listed(lookups, lookups.len() as int, request_ref.index as int);
    let i = choose|i: int| 0 <= i < stale.len() && stale[i] == request_ref;
    assert(after.lookup_requests[request_ref.index as int] == invalidated_slot(
        lookups[request_ref.index as int],
    ));
    assert(is_lookup_search_tree(
        actions[1 + merging.len() + i],
        stale[i],
        at(lookups, stale[i]).key@,
        search_tree_ref,
    ));
}

/// Every lookup that still waits for the write buffer is listed.
pub proof fn lemma_not_ready_listed(lookups: Seq<Option<LookupRequest>>, n: int, index: int)
    requires
        0 <= index < n <= lookups.len() <= usize::MAX,
        lookups[index] is Some,
        lookups[index]->0.butcher_status == LookupRequestButcherStatus::NotReady,
    ensures
        exists|i: int|
            0 <= i < not_ready_refs(lookups, n).len() && #[trigger] not_ready_refs(lookups, n)[i] == (
            Ref { index: index as usize }),
    decreases n,
{
    let all = not_ready_refs(lookups, n);
    if index == n - 1 {
        assert(all[all.len() - 1] == Ref { index: index as usize });
    } else {
        lemma_not_ready_listed(lookups, n - 1, index);
        let rest = not_ready_refs(lookups, n - 1);
        let i = choose|i: int| 0 <= i < rest.len() && #[trigger] rest[i] == (Ref { index: index as usize });
        assert(all[i] == Ref { index: index as usize });
    }
}

/// The answer of the write buffer to a lookup under which the write buffer
/// was flushed counts for nothing: the best answer stays what it was.
pub proof fn lemma_invalidated_answer_discarded(
    before: ManagerView,
    after: ManagerView,
    actions: Seq<Action>,
    request_ref: Ref,
    found: Option<ValueCell<ValueBlockRef>>,
)
    requires
        holds(before.lookup_requests, request_ref),
        at(before.lookup_requests, request_ref).butcher_status
            == LookupRequestButcherStatus::Invalidated,
        lookup_butcher_done(before, after, actions, request_ref, found),
    ensures
        at(before.lookup_requests, request_ref).pending_count == 1 ==> actions == seq![
            Action::Task(
                TaskArgs::RetrieveValue {
                    key: at(before.lookup_requests, request_ref).key,
                    found_fold: at(before.lookup_requests, request_ref).found_fold,
                    reply_tx: at(before.lookup_requests, request_ref).reply_tx,
                },
            ),
        ],
        at(before.lookup_requests, request_ref).pending_count != 1 ==> holds(
            after.lookup_requests,
            request_ref,
        ) && at(after.lookup_requests, request_ref).found_fold == at(
            before.lookup_requests,
            request_ref,
        ).found_fold,
{
}

} // verus!
