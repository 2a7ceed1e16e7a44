//! The per-partition leadership state machine: a tagged Follower/Leader state
//! whose transitions decide what the surrounding runtime must do. Becoming
//! leader registers the partition with the invoker, resumes the invocations a
//! storage scan found, and spawns the shuffle task; becoming follower cancels
//! that task and aborts the outgoing epoch's invocations. The decisions come
//! back as [`Command`] values: the runtime performs each in order and feeds
//! observed effects back in.

use crate::task_center::{ShutdownError, TaskCenter};
use crate::timer_service::{is_max_key, is_min_key, key_lt, TimerKey, TimerKeyValue, TimerQueue};
use vstd::prelude::*;

verus! {

/// Key-range shard of the workflow state.
pub type PartitionId = u64;

/// Term of leadership for a partition; fences stale leaders.
pub type LeaderEpoch = u64;

/// Key within a partition's range.
pub type PartitionKey = u64;

/// Identifier of one invocation.
pub type InvocationId = u64;

/// Identifier of a spawned task.
pub type TaskId = u64;

/// A node of the cluster, with the generation of its registration.
#[derive(Clone, Copy, Debug, PartialEq, Eq, Structural)]
pub struct GenerationalNodeId {
    pub id: u32,
    pub generation: u32,
}

/// Fencing stamp of a leader's appends: its epoch, then a sequence number
/// counting the proposals of that epoch.
#[derive(Clone, Copy, Debug, PartialEq, Eq, Structural)]
pub struct EpochSequenceNumber {
    pub leader_epoch: LeaderEpoch,
    pub sequence_number: u64,
}

/// The component handler an invocation addresses.
#[derive(Debug, PartialEq, Eq)]
pub struct InvocationTarget {
    pub component: String,
    pub handler: String,
}

/// Journal handed to the invoker alongside an invocation.
#[derive(Debug, PartialEq, Eq)]
pub enum InvokeInputJournal {
    /// The invoker reads the journal from storage.
    NoCachedJournal,
    /// The serialized journal rides along.
    CachedJournal(Vec<u8>),
}

/// Completion of one journal entry, forwarded to the invoker.
#[derive(Debug, PartialEq, Eq)]
pub struct Completion {
    pub entry_index: u32,
    pub result: Vec<u8>,
}

/// Message sent to an ingress node; delivery is detached and best-effort.
#[derive(Debug, PartialEq, Eq)]
pub enum IngressMessage {
    InvocationResponse { invocation_id: Option<InvocationId>, response: Vec<u8> },
    SubmittedInvocationNotification { original_invocation_id: InvocationId, attach_notification: Vec<u8> },
}

/// A command the deterministic state machine emits for the leadership layer.
#[derive(Debug, PartialEq, Eq)]
pub enum Action {
    /// Drive this invocation through the invoker.
    Invoke {
        invocation_id: InvocationId,
        invocation_target: InvocationTarget,
        invoke_input_journal: InvokeInputJournal,
    },
    /// A new outbox entry exists; hint the shuffle (lossy).
    NewOutboxMessage { seq_number: u64, message: Vec<u8> },
    /// Schedule a timer.
    RegisterTimer { timer_value: TimerKeyValue },
    /// Drop a scheduled timer.
    DeleteTimer { timer_key: TimerKey },
    /// Tell the invoker a journal entry is durable.
    AckStoredEntry { invocation_id: InvocationId, entry_index: u32 },
    /// Forward a completion to the invoker.
    ForwardCompletion { invocation_id: InvocationId, completion: Completion },
    /// Abort one invocation.
    AbortInvocation { invocation_id: InvocationId },
    /// Answer an ingress node (detached, best-effort).
    IngressResponse {
        target_node: GenerationalNodeId,
        invocation_id: Option<InvocationId>,
        response: Vec<u8>,
    },
    /// Notify an ingress node that an invocation was attached.
    IngressSubmitNotification {
        target_node: GenerationalNodeId,
        original_invocation_id: InvocationId,
        attach_notification: Vec<u8>,
    },
    /// Ask the processor to clean an invocation's status later; the send is
    /// non-blocking and may be dropped during shutdown.
    ScheduleInvocationStatusCleanup { invocation_id: InvocationId, retention_millis: u64 },
}

/// An observation fed back into the processor's state machine.
#[derive(Debug, PartialEq, Eq)]
pub enum ActionEffect {
    /// Progress the invoker reported.
    Invoker { invocation_id: InvocationId, payload: Vec<u8> },
    /// The shuffle drained the outbox up to this index.
    Shuffle { outbox_truncation_index: u64 },
    /// A requested status cleanup became due.
    ScheduleCleanupTimer { invocation_id: InvocationId, retention_millis: u64 },
}

/// A proposal appended to the replicated log, stamped with the epoch whose
/// leader appends it: the log rejects stamps of ended epochs, which fences
/// stale leaders.
#[derive(Debug, PartialEq, Eq)]
pub struct Proposal {
    pub partition_id: PartitionId,
    pub leader_epoch: LeaderEpoch,
    pub sequence_number: u64,
    pub partition_key_range_start: PartitionKey,
    pub partition_key_range_end: PartitionKey,
    pub effect: ActionEffect,
}

/// What the runtime must do on the state machine's behalf, in order. The
/// library decides; the runtime performs the outside work and feeds events
/// back.
#[derive(Debug, PartialEq, Eq)]
pub enum Command {
    /// Register the partition with the invoker under this epoch, with a
    /// storage reader and an effects channel of the given capacity.
    RegisterInvoker {
        partition_id: PartitionId,
        leader_epoch: LeaderEpoch,
        partition_key_range_start: PartitionKey,
        partition_key_range_end: PartitionKey,
        channel_size: usize,
    },
    /// Hand an invocation to the invoker.
    Invoke {
        partition_id: PartitionId,
        leader_epoch: LeaderEpoch,
        invocation_id: InvocationId,
        invocation_target: InvocationTarget,
        invoke_input_journal: InvokeInputJournal,
    },
    /// Start the shuffle task under this identifier.
    SpawnShuffle {
        task_id: TaskId,
        partition_id: PartitionId,
        leader_epoch: LeaderEpoch,
        node_id: GenerationalNodeId,
        channel_size: usize,
    },
    /// Cancel and join the shuffle task.
    CancelShuffleTask { task_id: TaskId },
    /// Abort every invocation of this partition and epoch.
    AbortAllPartition { partition_id: PartitionId, leader_epoch: LeaderEpoch },
    /// Wake the shuffle (lossy hint; correctness never depends on receipt).
    SendShuffleHint { seq_number: u64, message: Vec<u8> },
    /// Tell the invoker a journal entry is durable.
    NotifyStoredEntryAck {
        partition_id: PartitionId,
        leader_epoch: LeaderEpoch,
        invocation_id: InvocationId,
        entry_index: u32,
    },
    /// Forward a completion to the invoker.
    NotifyCompletion {
        partition_id: PartitionId,
        leader_epoch: LeaderEpoch,
        invocation_id: InvocationId,
        completion: Completion,
    },
    /// Abort one invocation at the invoker.
    AbortInvocation {
        partition_id: PartitionId,
        leader_epoch: LeaderEpoch,
        invocation_id: InvocationId,
    },
    /// Send to an ingress node from a detached task: a slow or unreachable
    /// node never blocks the processor, and a failed send drops the message.
    SendIngressMessage {
        target_node: GenerationalNodeId,
        invocation_id: Option<InvocationId>,
        message: IngressMessage,
    },
    /// Feed an effect into the processor's own queue without blocking; a full
    /// or closed queue during shutdown drops it.
    EnqueueActionEffect { effect: ActionEffect },
    /// Append a proposal to the replicated log.
    AppendToBifrost { proposal: Proposal },
}

/// Errors of the leadership layer.
#[derive(Clone, Copy, Debug, PartialEq, Eq, Structural)]
pub enum Error {
    /// The invoker is unreachable; fatal to the partition.
    Invoker,
    /// Storage failed; fatal to the current epoch.
    Storage,
    /// Clean termination: the runtime is shutting down.
    Shutdown,
}

/// Merged source of action effects the processor's main loop reads; a
/// follower's is forever pending.
#[derive(Clone, Copy, Debug, PartialEq, Eq, Structural)]
pub enum ActionEffectStream {
    Follower,
    Leader,
}

/// Fields every state carries.
#[derive(Clone, Copy, Debug, PartialEq, Eq, Structural)]
pub struct FollowerState {
    pub partition_id: PartitionId,
    pub partition_key_range_start: PartitionKey,
    pub partition_key_range_end: PartitionKey,
    pub num_timers_in_memory_limit: Option<usize>,
    pub channel_size: usize,
}

/// Appends effect-derived proposals to the replicated log, stamping each with
/// the current epoch sequence number.
#[derive(Clone, Copy, Debug, PartialEq, Eq, Structural)]
pub struct ActionEffectHandler {
    pub partition_id: PartitionId,
    pub epoch_sequence_number: EpochSequenceNumber,
    pub partition_key_range_start: PartitionKey,
    pub partition_key_range_end: PartitionKey,
}

/// What a leader owns on top of the follower fields.
#[derive(Debug)]
pub struct LeaderState {
    pub leader_epoch: LeaderEpoch,
    pub shuffle_task_id: TaskId,
    pub timer_service: TimerQueue,
    pub action_effect_handler: ActionEffectHandler,
}

/// The tagged leadership state.
#[derive(Debug)]
pub enum LeadershipState {
    Follower(FollowerState),
    Leader { follower_state: FollowerState, leader_state: LeaderState },
}

/// The follower fields a state carries, whatever its tag.
pub open spec fn follower_fields(s: LeadershipState) -> FollowerState {
    match s {
        LeadershipState::Follower(fs) => fs,
        LeadershipState::Leader { follower_state, .. } => follower_state,
    }
}

/// The task identifiers a state owns: a leader owns its shuffle task, a
/// follower owns nothing.
pub open spec fn owned_task_ids(s: LeadershipState) -> Set<TaskId> {
    match s {
        LeadershipState::Follower(_) => Set::<TaskId>::empty(),
        LeadershipState::Leader { leader_state, .. } => Set::<TaskId>::empty().insert(
            leader_state.shuffle_task_id,
        ),
    }
}

/// The commands that release what a state owns: cancel the shuffle task and
/// abort the outgoing epoch's invocations; a follower owns nothing.
pub open spec fn release_commands(s: LeadershipState) -> Seq<Command> {
    match s {
        LeadershipState::Follower(_) => Seq::<Command>::empty(),
        LeadershipState::Leader { follower_state, leader_state } => seq![
            Command::CancelShuffleTask { task_id: leader_state.shuffle_task_id },
            Command::AbortAllPartition {
                partition_id: follower_state.partition_id,
                leader_epoch: leader_state.leader_epoch,
            },
        ],
    }
}

/// The commands that register the partition with the invoker and resume the
/// invocations a storage scan found, in scan order.
pub open spec fn resume_commands(
    fs: FollowerState,
    leader_epoch: LeaderEpoch,
    invoked: Seq<(InvocationId, InvocationTarget)>,
) -> Seq<Command>
    decreases invoked.len(),
{
    if invoked.len() == 0 {
        seq![
            Command::RegisterInvoker {
                partition_id: fs.partition_id,
                leader_epoch,
                partition_key_range_start: fs.partition_key_range_start,
                partition_key_range_end: fs.partition_key_range_end,
                channel_size: fs.channel_size,
            },
        ]
    } else {
        resume_commands(fs, leader_epoch, invoked.drop_last()).push(
            Command::Invoke {
                partition_id: fs.partition_id,
                leader_epoch,
                invocation_id: invoked.last().0,
                invocation_target: invoked.last().1,
                invoke_input_journal: InvokeInputJournal::NoCachedJournal,
            },
        )
    }
}

/// The command one action dispatches to. Timer actions act on the timer
/// service and dispatch nothing; ingress sends are dropped silently once the
/// runtime is shutting down.
pub open spec fn action_commands(
    a: Action,
    partition_id: PartitionId,
    leader_epoch: LeaderEpoch,
    shutdown: bool,
) -> Seq<Command> {
    match a {
        Action::Invoke { invocation_id, invocation_target, invoke_input_journal } => seq![
            Command::Invoke {
                partition_id,
                leader_epoch,
                invocation_id,
                invocation_target,
                invoke_input_journal,
            },
        ],
        Action::NewOutboxMessage { seq_number, message } => seq![
            Command::SendShuffleHint { seq_number, message },
        ],
        Action::RegisterTimer { .. } => Seq::<Command>::empty(),
        Action::DeleteTimer { .. } => Seq::<Command>::empty(),
        Action::AckStoredEntry { invocation_id, entry_index } => seq![
            Command::NotifyStoredEntryAck {
                partition_id,
                leader_epoch,
                invocation_id,
                entry_index,
            },
        ],
        Action::ForwardCompletion { invocation_id, completion } => seq![
            Command::NotifyCompletion { partition_id, leader_epoch, invocation_id, completion },
        ],
        Action::AbortInvocation { invocation_id } => seq![
            Command::AbortInvocation { partition_id, leader_epoch, invocation_id },
        ],
        Action::IngressResponse { target_node, invocation_id, response } => if shutdown {
            Seq::<Command>::empty()
        } else {
            seq![
                Command::SendIngressMessage {
                    target_node,
                    invocation_id,
                    message: IngressMessage::InvocationResponse { invocation_id, response },
                },
            ]
        },
        Action::IngressSubmitNotification {
            target_node,
            original_invocation_id,
            attach_notification,
        } => if shutdown {
            Seq::<Command>::empty()
        } else {
            seq![
                Command::SendIngressMessage {
                    target_node,
                    invocation_id: Some(original_invocation_id),
                    message: IngressMessage::SubmittedInvocationNotification {
                        original_invocation_id,
                        attach_notification,
                    },
                },
            ]
        },
        Action::ScheduleInvocationStatusCleanup { invocation_id, retention_millis } => seq![
            Command::EnqueueActionEffect {
                effect: ActionEffect::ScheduleCleanupTimer { invocation_id, retention_millis },
            },
        ],
    }
}

/// The commands a sequence of actions dispatches to, in order.
pub open spec fn commands_of_actions(
    actions: Seq<Action>,
    partition_id: PartitionId,
    leader_epoch: LeaderEpoch,
    shutdown: bool,
) -> Seq<Command>
    decreases actions.len(),
{
    if actions.len() == 0 {
        Seq::<Command>::empty()
    } else {
        commands_of_actions(actions.drop_last(), partition_id, leader_epoch, shutdown)
            + action_commands(actions.last(), partition_id, leader_epoch, shutdown)
    }
}

/// The timer working set (table and count) after one action.
pub open spec fn timer_step(
    m: Map<TimerKey, Seq<u8>>,
    count: nat,
    limit: Option<usize>,
    a: Action,
) -> (Map<TimerKey, Seq<u8>>, nat) {
    match a {
        Action::RegisterTimer { timer_value } => {
            let t = timer_value@;
            if m.contains_key(t.key) {
                (m.insert(t.key, t.payload), count)
            } else if match limit {
                Some(l) => count >= l,
                None => false,
            } {
                if count == 0 {
                    (m, count)
                } else {
                    let mx = choose|mx: TimerKey| is_max_key(m, mx);
                    if key_lt(t.key, mx) {
                        (m.remove(mx).insert(t.key, t.payload), count)
                    } else {
                        (m, count)
                    }
                }
            } else {
                (m.insert(t.key, t.payload), (count + 1) as nat)
            }
        },
        Action::DeleteTimer { timer_key } => if m.contains_key(timer_key) {
            (m.remove(timer_key), (count - 1) as nat)
        } else {
            (m, count)
        },
        _ => (m, count),
    }
}

/// The timer working set after a sequence of actions.
pub open spec fn timers_after(
    m: Map<TimerKey, Seq<u8>>,
    count: nat,
    limit: Option<usize>,
    actions: Seq<Action>,
) -> (Map<TimerKey, Seq<u8>>, nat)
    decreases actions.len(),
{
    if actions.len() == 0 {
        (m, count)
    } else {
        let prev = timers_after(m, count, limit, actions.drop_last());
        timer_step(prev.0, prev.1, limit, actions.last())
    }
}

/// The proposals a sequence of effects appends, stamped with consecutive
/// sequence numbers of the current epoch.
pub open spec fn proposals_of(
    handler: ActionEffectHandler,
    effects: Seq<ActionEffect>,
) -> Seq<Command>
    decreases effects.len(),
{
    if effects.len() == 0 {
        Seq::<Command>::empty()
    } else {
        seq![
            Command::AppendToBifrost {
                proposal: Proposal {
                    partition_id: handler.partition_id,
                    leader_epoch: handler.epoch_sequence_number.leader_epoch,
                    sequence_number: handler.epoch_sequence_number.sequence_number,
                    partition_key_range_start: handler.partition_key_range_start,
                    partition_key_range_end: handler.partition_key_range_end,
                    effect: effects[0],
                },
            },
        ] + proposals_of(
            ActionEffectHandler {
                epoch_sequence_number: EpochSequenceNumber {
                    leader_epoch: handler.epoch_sequence_number.leader_epoch,
                    sequence_number: (handler.epoch_sequence_number.sequence_number + 1) as u64,
                },
                ..handler
            },
            effects.drop_first(),
        )
    }
}

/// Law: leadership terms taken at strictly increasing epochs never repeat an
/// epoch, so each (partition, epoch) pair sees at most one leader. Becoming
/// leader pins the term's epoch to the handed epoch sequence number; that the
/// epochs handed out grow strictly is the consensus layer's guarantee.
pub proof fn lemma_leader_terms_unique(epochs: Seq<LeaderEpoch>)
    requires
        forall|i: int, j: int| 0 <= i < j < epochs.len() ==> epochs[i] < epochs[j],
    ensures
        forall|i: int, j: int| 0 <= i < j < epochs.len() ==> epochs[i] != epochs[j],
{
}

impl ActionEffectHandler {
    /// Turn observed effects into proposals for the replicated log, stamped
    /// with consecutive sequence numbers of the current epoch.
    #[verifier::loop_isolation(false)]
    pub fn handle(&mut self, action_effects: Vec<ActionEffect>) -> (r: Vec<Command>)
        requires
            old(self).epoch_sequence_number.sequence_number + action_effects@.len() <= u64::MAX,
        ensures
            r@ == proposals_of(*old(self), action_effects@),
            final(self).partition_id == old(self).partition_id,
            final(self).partition_key_range_start == old(self).partition_key_range_start,
            final(self).partition_key_range_end == old(self).partition_key_range_end,
            final(self).epoch_sequence_number.leader_epoch == old(
                self,
            ).epoch_sequence_number.leader_epoch,
            final(self).epoch_sequence_number.sequence_number == old(
                self,
            ).epoch_sequence_number.sequence_number + action_effects@.len(),
    {
        let ghost pre = *self;
        let ghost all = action_effects@;
        let mut effects = action_effects;
        let mut commands: Vec<Command> = Vec::new();
        let ghost mut k: int = 0;
        proof {
            assert(effects@ =~= all.skip(0));
        }
        while effects.len() > 0
            invariant
                0 <= k <= all.len(),
                effects@ == all.skip(k),
                self.partition_id == pre.partition_id,
                self.partition_key_range_start == pre.partition_key_range_start,
                self.partition_key_range_end == pre.partition_key_range_end,
                self.epoch_sequence_number.leader_epoch == pre.epoch_sequence_number.leader_epoch,
                self.epoch_sequence_number.sequence_number
                    == pre.epoch_sequence_number.sequence_number + k,
                commands@ + proposals_of(*self, all.skip(k)) == proposals_of(pre, all),
            decreases effects@.len(),
        {
            proof {
                assert(all.skip(k)[0] == all[k]);
            }
            let effect = effects.remove(0);
            let proposal = Proposal {
                partition_id: self.partition_id,
                leader_epoch: self.epoch_sequence_number.leader_epoch,
                sequence_number: self.epoch_sequence_number.sequence_number,
                partition_key_range_start: self.partition_key_range_start,
                partition_key_range_end: self.partition_key_range_end,
                effect,
            };
            let ghost mid = *self;
            commands.push(Command::AppendToBifrost { proposal });
            self.epoch_sequence_number.sequence_number = self.epoch_sequence_number.sequence_number
                + 1;
            proof {
                assert(effects@ =~= all.skip(k + 1));
                assert(all.skip(k).drop_first() =~= all.skip(k + 1));
                assert(proposals_of(mid, all.skip(k)) == seq![
                    Command::AppendToBifrost { proposal },
                ] + proposals_of(*self, all.skip(k + 1)));
                k = k + 1;
            }
        }
        proof {
            assert(all.skip(k).len() == 0);
            assert(k == all.len());
            assert(proposals_of(*self, all.skip(k)) =~= Seq::<Command>::empty());
            assert(commands@ =~= commands@ + proposals_of(*self, all.skip(k)));
        }
        commands
    }
}

/// The message an ingress node gets for one response or notification; nothing
/// when the runtime is shutting down — the message is then dropped silently,
/// favoring processor availability over guaranteed delivery to ingress.
fn send_ingress_message(
    task_center: &TaskCenter,
    invocation_id: Option<InvocationId>,
    target_node: GenerationalNodeId,
    ingress_message: IngressMessage,
) -> (r: Option<Command>)
    ensures
        task_center.spec_shutdown() ==> r is None,
        !task_center.spec_shutdown() ==> r == Some(
            Command::SendIngressMessage {
                target_node,
                invocation_id,
                message: ingress_message,
            },
        ),
{
    if task_center.is_shutdown() {
        None
    } else {
        Some(Command::SendIngressMessage { target_node, invocation_id, message: ingress_message })
    }
}

/// Dispatch one action: invoker and network work becomes a command; timer
/// actions act on the timer service directly.
fn handle_action(
    action: Action,
    partition_id: PartitionId,
    leader_epoch: LeaderEpoch,
    timer_service: &mut TimerQueue,
    task_center: &TaskCenter,
) -> (r: Vec<Command>)
    ensures
        r@ == action_commands(action, partition_id, leader_epoch, task_center.spec_shutdown()),
        final(timer_service)@ == timer_step(
            old(timer_service)@,
            old(timer_service).count(),
            old(timer_service).spec_limit(),
            action,
        ).0,
        final(timer_service).count() == timer_step(
            old(timer_service)@,
            old(timer_service).count(),
            old(timer_service).spec_limit(),
            action,
        ).1,
        final(timer_service).spec_limit() == old(timer_service).spec_limit(),
{
    let ghost pre_ts = *timer_service;
    let mut commands: Vec<Command> = Vec::new();
    match action {
        Action::Invoke { invocation_id, invocation_target, invoke_input_journal } => {
            commands.push(
                Command::Invoke {
                    partition_id,
                    leader_epoch,
                    invocation_id,
                    invocation_target,
                    invoke_input_journal,
                },
            );
        },
        Action::NewOutboxMessage { seq_number, message } => {
            commands.push(Command::SendShuffleHint { seq_number, message });
        },
        Action::RegisterTimer { timer_value } => {
            let ghost tv = timer_value@;
            timer_service.add_timer(timer_value);
            proof {
                if !pre_ts@.contains_key(tv.key) && pre_ts.at_capacity() && pre_ts.count() > 0 {
                    let mx = choose|mx: TimerKey| is_max_key(pre_ts@, mx);
                    assert(timer_service@ == (if key_lt(tv.key, mx) {
                        pre_ts@.remove(mx).insert(tv.key, tv.payload)
                    } else {
                        pre_ts@
                    }));
                }
            }
        },
        Action::DeleteTimer { timer_key } => {
            timer_service.remove_timer(timer_key);
        },
        Action::AckStoredEntry { invocation_id, entry_index } => {
            commands.push(
                Command::NotifyStoredEntryAck {
                    partition_id,
                    leader_epoch,
                    invocation_id,
                    entry_index,
                },
            );
        },
        Action::ForwardCompletion { invocation_id, completion } => {
            commands.push(
                Command::NotifyCompletion { partition_id, leader_epoch, invocation_id, completion },
            );
        },
        Action::AbortInvocation { invocation_id } => {
            commands.push(Command::AbortInvocation { partition_id, leader_epoch, invocation_id });
        },
        Action::IngressResponse { target_node, invocation_id, response } => {
            match send_ingress_message(
                task_center,
                invocation_id,
                target_node,
                IngressMessage::InvocationResponse { invocation_id, response },
            ) {
                Some(c) => commands.push(c),
                None => {},
            }
        },
        Action::IngressSubmitNotification {
            target_node,
            original_invocation_id,
            attach_notification,
        } => {
            match send_ingress_message(
                task_center,
                Some(original_invocation_id),
                target_node,
                IngressMessage::SubmittedInvocationNotification {
                    original_invocation_id,
                    attach_notification,
                },
            ) {
                Some(c) => commands.push(c),
                None => {},
            }
        },
        Action::ScheduleInvocationStatusCleanup { invocation_id, retention_millis } => {
            commands.push(
                Command::EnqueueActionEffect {
                    effect: ActionEffect::ScheduleCleanupTimer { invocation_id, retention_millis },
                },
            );
        },
    }
    commands
}

impl LeadershipState {
    /// The initial state: a follower with these partition parameters; its
    /// action-effect source pends forever.
    pub fn follower(
        partition_id: PartitionId,
        partition_key_range_start: PartitionKey,
        partition_key_range_end: PartitionKey,
        num_timers_in_memory_limit: Option<usize>,
        channel_size: usize,
    ) -> (r: (Self, ActionEffectStream))
        ensures
            r.0 == LeadershipState::Follower(
                FollowerState {
                    partition_id,
                    partition_key_range_start,
                    partition_key_range_end,
                    num_timers_in_memory_limit,
                    channel_size,
                },
            ),
            r.1 == ActionEffectStream::Follower,
    {
        (
            LeadershipState::Follower(
                FollowerState {
                    partition_id,
                    partition_key_range_start,
                    partition_key_range_end,
                    num_timers_in_memory_limit,
                    channel_size,
                },
            ),
            ActionEffectStream::Follower,
        )
    }

    /// Whether this state is a leader term.
    pub fn is_leader(&self) -> (r: bool)
        ensures
            r == (*self is Leader),
    {
        match self {
            LeadershipState::Leader { .. } => true,
            LeadershipState::Follower(_) => false,
        }
    }

    /// Step down: cancel the owned shuffle task and abort the outgoing
    /// epoch's invocations. Afterwards no owned task remains live, so the next
    /// leader term starts from a clean slate. A follower stays as it is.
    pub fn become_follower(self, task_center: &mut TaskCenter) -> (r: (
        Self,
        ActionEffectStream,
        Vec<Command>,
    ))
        ensures
            r.0 == LeadershipState::Follower(follower_fields(self)),
            r.1 == ActionEffectStream::Follower,
            r.2@ == release_commands(self),
            owned_task_ids(r.0) == Set::<TaskId>::empty(),
            forall|t: TaskId| owned_task_ids(self).contains(t) ==> !final(task_center)@.contains(t),
            self is Leader ==> final(task_center)@ == old(task_center)@.remove(
                self->Leader_leader_state.shuffle_task_id,
            ),
            self is Follower ==> *final(task_center) == *old(task_center),
            final(task_center).spec_shutdown() == old(task_center).spec_shutdown(),
            final(task_center).spec_next_id() == old(task_center).spec_next_id(),
            self is Leader ==> forall|t: TaskId| #[trigger] old(task_center)@.contains(t) ==> t
                < old(task_center).spec_next_id(),
    {
        match self {
            LeadershipState::Follower(fs) => {
                (LeadershipState::Follower(fs), ActionEffectStream::Follower, Vec::new())
            },
            LeadershipState::Leader { follower_state, leader_state } => {
                task_center.cancel_task(leader_state.shuffle_task_id);
                let mut commands: Vec<Command> = Vec::new();
                commands.push(
                    Command::CancelShuffleTask { task_id: leader_state.shuffle_task_id },
                );
                commands.push(
                    Command::AbortAllPartition {
                        partition_id: follower_state.partition_id,
                        leader_epoch: leader_state.leader_epoch,
                    },
                );
                proof {
                    assert(commands@ =~= release_commands(
                        LeadershipState::Leader { follower_state, leader_state },
                    ));
                }
                (LeadershipState::Follower(follower_state), ActionEffectStream::Follower, commands)
            },
        }
    }

    /// Take leadership for this epoch: step down first when already leading,
    /// then acquire the leader's resources.
    pub fn become_leader(
        self,
        task_center: &mut TaskCenter,
        epoch_sequence_number: EpochSequenceNumber,
        node_id: GenerationalNodeId,
        invoked_invocations: Vec<(InvocationId, InvocationTarget)>,
    ) -> (r: (Self, ActionEffectStream, Vec<Command>, Result<(), Error>))
        requires
            old(task_center).spec_next_id() < u64::MAX,
        ensures
            ({
                let fs = follower_fields(self);
                let epoch = epoch_sequence_number.leader_epoch;
                let prefix = release_commands(self) + resume_commands(
                    fs,
                    epoch,
                    invoked_invocations@,
                );
                if old(task_center).spec_shutdown() {
                    &&& r.0 == LeadershipState::Follower(fs)
                    &&& r.1 == ActionEffectStream::Follower
                    &&& r.3 == Err::<(), Error>(Error::Shutdown)
                    &&& r.2@ == prefix.push(
                        Command::AbortAllPartition {
                            partition_id: fs.partition_id,
                            leader_epoch: epoch,
                        },
                    )
                } else {
                    &&& r.3 == Ok::<(), Error>(())
                    &&& r.1 == ActionEffectStream::Leader
                    &&& r.0 matches LeadershipState::Leader { follower_state, leader_state } && {
                        &&& follower_state == fs
                        &&& leader_state.leader_epoch == epoch
                        &&& leader_state.timer_service@ == Map::<TimerKey, Seq<u8>>::empty()
                        &&& leader_state.timer_service.count() == 0
                        &&& leader_state.timer_service.spec_limit()
                            == fs.num_timers_in_memory_limit
                        &&& leader_state.action_effect_handler == (ActionEffectHandler {
                            partition_id: fs.partition_id,
                            epoch_sequence_number,
                            partition_key_range_start: fs.partition_key_range_start,
                            partition_key_range_end: fs.partition_key_range_end,
                        })
                        &&& r.2@ == prefix.push(
                            Command::SpawnShuffle {
                                task_id: leader_state.shuffle_task_id,
                                partition_id: fs.partition_id,
                                leader_epoch: epoch,
                                node_id,
                                channel_size: fs.channel_size,
                            },
                        )
                        &&& final(task_center)@.contains(leader_state.shuffle_task_id)
                        &&& forall|t: TaskId| #[trigger] old(task_center)@.contains(t)
                            ==> t < leader_state.shuffle_task_id
                    }
                }
            }),
            final(task_center).spec_shutdown() == old(task_center).spec_shutdown(),
    {
        let ghost whole = self;
        let (cur, _stream, mut commands) = self.become_follower(task_center);
        let fs = match cur {
            LeadershipState::Follower(fs) => fs,
            LeadershipState::Leader { .. } => {
                proof {
                    assert(false);
                }
                vstd::pervasive::unreached()
            },
        };
        let (state, stream, mut tail, result) = Self::unchecked_become_leader(
            fs,
            task_center,
            epoch_sequence_number,
            node_id,
            invoked_invocations,
        );
        commands.append(&mut tail);
        proof {
            let st = state;
            let epoch = epoch_sequence_number.leader_epoch;
            let prefix = release_commands(whole) + resume_commands(
                fs,
                epoch,
                invoked_invocations@,
            );
            match st {
                LeadershipState::Follower(_) => {
                    assert(commands@ =~= prefix.push(
                        Command::AbortAllPartition {
                            partition_id: fs.partition_id,
                            leader_epoch: epoch,
                        },
                    ));
                },
                LeadershipState::Leader { leader_state, .. } => {
                    assert(commands@ =~= prefix.push(
                        Command::SpawnShuffle {
                            task_id: leader_state.shuffle_task_id,
                            partition_id: fs.partition_id,
                            leader_epoch: epoch,
                            node_id,
                            channel_size: fs.channel_size,
                        },
                    ));
                },
            }
        }
        (state, stream, commands, result)
    }

    /// Acquire a leader term over the given follower fields: register the
    /// partition with the invoker; resume every invocation the storage scan
    /// found, in scan order; and spawn the shuffle task under a fresh
    /// identifier — an identifier above everything ever spawned, so no stale
    /// task is confused with it. When the runtime is shutting down the spawn
    /// fails; the commands then end by releasing what was acquired, and the
    /// state stays a follower.
    fn unchecked_become_leader(
        follower_state: FollowerState,
        task_center: &mut TaskCenter,
        epoch_sequence_number: EpochSequenceNumber,
        node_id: GenerationalNodeId,
        invoked_invocations: Vec<(InvocationId, InvocationTarget)>,
    ) -> (r: (Self, ActionEffectStream, Vec<Command>, Result<(), Error>))
        requires
            old(task_center).spec_next_id() < u64::MAX,
        ensures
            ({
                let epoch = epoch_sequence_number.leader_epoch;
                let prefix = resume_commands(follower_state, epoch, invoked_invocations@);
                if old(task_center).spec_shutdown() {
                    &&& r.0 == LeadershipState::Follower(follower_state)
                    &&& r.1 == ActionEffectStream::Follower
                    &&& r.3 == Err::<(), Error>(Error::Shutdown)
                    &&& r.2@ == prefix.push(
                        Command::AbortAllPartition {
                            partition_id: follower_state.partition_id,
                            leader_epoch: epoch,
                        },
                    )
                    &&& *final(task_center) == *old(task_center)
                } else {
                    &&& r.3 == Ok::<(), Error>(())
                    &&& r.1 == ActionEffectStream::Leader
                    &&& r.0 matches LeadershipState::Leader {
                        follower_state: result_fs,
                        leader_state,
                    } && {
                        &&& result_fs == follower_state
                        &&& leader_state.leader_epoch == epoch
                        &&& leader_state.timer_service@ == Map::<TimerKey, Seq<u8>>::empty()
                        &&& leader_state.timer_service.count() == 0
                        &&& leader_state.timer_service.spec_limit()
                            == follower_state.num_timers_in_memory_limit
                        &&& leader_state.action_effect_handler == (ActionEffectHandler {
                            partition_id: follower_state.partition_id,
                            epoch_sequence_number,
                            partition_key_range_start: follower_state.partition_key_range_start,
                            partition_key_range_end: follower_state.partition_key_range_end,
                        })
                        &&& r.2@ == prefix.push(
                            Command::SpawnShuffle {
                                task_id: leader_state.shuffle_task_id,
                                partition_id: follower_state.partition_id,
                                leader_epoch: epoch,
                                node_id,
                                channel_size: follower_state.channel_size,
                            },
                        )
                        &&& leader_state.shuffle_task_id == old(task_center).spec_next_id()
                        &&& final(task_center)@.contains(leader_state.shuffle_task_id)
                        &&& forall|t: TaskId| #[trigger] old(task_center)@.contains(t)
                            ==> t < leader_state.shuffle_task_id
                    }
                }
            }),
            final(task_center).spec_shutdown() == old(task_center).spec_shutdown(),
            final(task_center).spec_next_id() >= old(task_center).spec_next_id(),
    {
        let fs = follower_state;
        let epoch = epoch_sequence_number.leader_epoch;
        let mut commands = Self::resume_invoked_invocations(fs, epoch, invoked_invocations);
        let timer_service = TimerQueue::new(fs.num_timers_in_memory_limit);
        match task_center.spawn_child() {
            Err(_) => {
                commands.push(
                    Command::AbortAllPartition { partition_id: fs.partition_id, leader_epoch: epoch },
                );
                (
                    LeadershipState::Follower(fs),
                    ActionEffectStream::Follower,
                    commands,
                    Err(Error::Shutdown),
                )
            },
            Ok(shuffle_task_id) => {
                commands.push(
                    Command::SpawnShuffle {
                        task_id: shuffle_task_id,
                        partition_id: fs.partition_id,
                        leader_epoch: epoch,
                        node_id,
                        channel_size: fs.channel_size,
                    },
                );
                let action_effect_handler = ActionEffectHandler {
                    partition_id: fs.partition_id,
                    epoch_sequence_number,
                    partition_key_range_start: fs.partition_key_range_start,
                    partition_key_range_end: fs.partition_key_range_end,
                };
                (
                    LeadershipState::Leader {
                        follower_state: fs,
                        leader_state: LeaderState {
                            leader_epoch: epoch,
                            shuffle_task_id,
                            timer_service,
                            action_effect_handler,
                        },
                    },
                    ActionEffectStream::Leader,
                    commands,
                    Ok(()),
                )
            },
        }
    }

    /// The commands that register the partition with the invoker and resume
    /// each scanned invocation, in scan order, with no cached journal.
    #[verifier::loop_isolation(false)]
    fn resume_invoked_invocations(
        fs: FollowerState,
        leader_epoch: LeaderEpoch,
        invoked_invocations: Vec<(InvocationId, InvocationTarget)>,
    ) -> (r: Vec<Command>)
        ensures
            r@ == resume_commands(fs, leader_epoch, invoked_invocations@),
    {
        let ghost all = invoked_invocations@;
        let mut invoked = invoked_invocations;
        let mut commands: Vec<Command> = Vec::new();
        commands.push(
            Command::RegisterInvoker {
                partition_id: fs.partition_id,
                leader_epoch,
                partition_key_range_start: fs.partition_key_range_start,
                partition_key_range_end: fs.partition_key_range_end,
                channel_size: fs.channel_size,
            },
        );
        let ghost mut k: int = 0;
        proof {
            assert(all.take(0) =~= Seq::<(InvocationId, InvocationTarget)>::empty());
            assert(commands@ =~= resume_commands(fs, leader_epoch, all.take(0)));
            assert(invoked@ =~= all.skip(0));
        }
        while invoked.len() > 0
            invariant
                0 <= k <= all.len(),
                invoked@ == all.skip(k),
                commands@ == resume_commands(fs, leader_epoch, all.take(k)),
            decreases invoked@.len(),
        {
            proof {
                assert(all.skip(k)[0] == all[k]);
            }
            let (invocation_id, invocation_target) = invoked.remove(0);
            commands.push(
                Command::Invoke {
                    partition_id: fs.partition_id,
                    leader_epoch,
                    invocation_id,
                    invocation_target,
                    invoke_input_journal: InvokeInputJournal::NoCachedJournal,
                },
            );
            proof {
                assert(invoked@ =~= all.skip(k + 1));
                assert(all.take(k + 1).drop_last() =~= all.take(k));
                assert(all.take(k + 1).last() == all[k]);
                k = k + 1;
            }
        }
        proof {
            assert(all.skip(k).len() == 0);
            assert(k == all.len());
            assert(all.take(k) =~= all);
        }
        commands
    }

    /// The next timer to fire: a leader takes the earliest timer of its
    /// working set; a follower pends forever, which `None` stands for.
    pub fn run_timer(&mut self) -> (r: Option<TimerKeyValue>)
        ensures
            *old(self) is Follower ==> r is None && *final(self) == *old(self),
            *old(self) is Leader ==> {
                let pre = old(self)->Leader_leader_state.timer_service;
                match r {
                    Some(timer) => {
                        &&& is_min_key(pre@, timer@.key)
                        &&& timer@.payload == pre@[timer@.key]
                        &&& *final(self) matches LeadershipState::Leader {
                            follower_state,
                            leader_state,
                        } && follower_state == old(self)->Leader_follower_state
                            && leader_state.leader_epoch == old(
                            self,
                        )->Leader_leader_state.leader_epoch && leader_state.shuffle_task_id == old(
                            self,
                        )->Leader_leader_state.shuffle_task_id
                            && leader_state.action_effect_handler == old(
                            self,
                        )->Leader_leader_state.action_effect_handler && leader_state.timer_service@
                            == pre@.remove(timer@.key)
                    },
                    None => pre@ =~= Map::<TimerKey, Seq<u8>>::empty() && *final(self) == *old(
                        self,
                    ),
                }
            },
    {
        match self {
            LeadershipState::Follower(_) => None,
            LeadershipState::Leader { leader_state, .. } => leader_state.timer_service.pop_next(),
        }
    }

    /// Apply the state machine's actions: a follower ignores them; a leader
    /// dispatches each in order, acting on its timer working set and emitting
    /// the commands [`commands_of_actions`] names. Never fails: ingress sends
    /// during shutdown are dropped silently, and the cleanup enqueue is
    /// non-blocking by design.
    #[verifier::loop_isolation(false)]
    pub fn handle_actions(&mut self, task_center: &TaskCenter, actions: Vec<Action>) -> (r: Result<
        Vec<Command>,
        Error,
    >)
        ensures
            r is Ok,
            *old(self) is Follower ==> *final(self) == *old(self) && (r matches Ok(cmds)
                && cmds@ == Seq::<Command>::empty()),
            *old(self) is Leader ==> {
                let fs = old(self)->Leader_follower_state;
                let ls_epoch = old(self)->Leader_leader_state.leader_epoch;
                let pre_ts = old(self)->Leader_leader_state.timer_service;
                let after = timers_after(pre_ts@, pre_ts.count(), pre_ts.spec_limit(), actions@);
                &&& (r matches Ok(cmds) && cmds@ == commands_of_actions(
                    actions@,
                    fs.partition_id,
                    ls_epoch,
                    task_center.spec_shutdown(),
                ))
                &&& *final(self) matches LeadershipState::Leader { follower_state, leader_state }
                    && follower_state == fs && leader_state.leader_epoch == ls_epoch
                    && leader_state.shuffle_task_id == old(
                    self,
                )->Leader_leader_state.shuffle_task_id && leader_state.action_effect_handler == old(
                    self,
                )->Leader_leader_state.action_effect_handler && leader_state.timer_service@
                    == after.0 && leader_state.timer_service.count() == after.1
                    && leader_state.timer_service.spec_limit() == pre_ts.spec_limit()
            },
    {
        match self {
            LeadershipState::Follower(_) => Ok(Vec::new()),
            LeadershipState::Leader { follower_state, leader_state } => {
                let ghost all = actions@;
                let ghost pre_ts = leader_state.timer_service;
                let ghost pre_tid = leader_state.shuffle_task_id;
                let ghost pre_handler = leader_state.action_effect_handler;
                let partition_id = follower_state.partition_id;
                let leader_epoch = leader_state.leader_epoch;
                let mut actions = actions;
                let mut commands: Vec<Command> = Vec::new();
                let ghost mut k: int = 0;
                proof {
                    assert(actions@ =~= all.skip(0));
                    assert(commands@ =~= commands_of_actions(
                        all.take(0),
                        partition_id,
                        leader_epoch,
                        task_center.spec_shutdown(),
                    ));
                }
                while actions.len() > 0
                    invariant
                        0 <= k <= all.len(),
                        actions@ == all.skip(k),
                        commands@ == commands_of_actions(
                            all.take(k),
                            partition_id,
                            leader_epoch,
                            task_center.spec_shutdown(),
                        ),
                        leader_state.timer_service@ == timers_after(
                            pre_ts@,
                            pre_ts.count(),
                            pre_ts.spec_limit(),
                            all.take(k),
                        ).0,
                        leader_state.timer_service.count() == timers_after(
                            pre_ts@,
                            pre_ts.count(),
                            pre_ts.spec_limit(),
                            all.take(k),
                        ).1,
                        leader_state.timer_service.spec_limit() == pre_ts.spec_limit(),
                        leader_state.leader_epoch == leader_epoch,
                        leader_state.shuffle_task_id == pre_tid,
                        leader_state.action_effect_handler == pre_handler,
                    decreases actions@.len(),
                {
                    proof {
                        assert(all.skip(k)[0] == all[k]);
                    }
                    let action = actions.remove(0);
                    let mut step_commands = handle_action(
                        action,
                        partition_id,
                        leader_epoch,
                        &mut leader_state.timer_service,
                        task_center,
                    );
                    commands.append(&mut step_commands);
                    proof {
                        assert(actions@ =~= all.skip(k + 1));
                        assert(all.take(k + 1).drop_last() =~= all.take(k));
                        assert(all.take(k + 1).last() == all[k]);
                        k = k + 1;
                    }
                }
                proof {
                    assert(all.skip(k).len() == 0);
                    assert(k == all.len());
                    assert(all.take(k) =~= all);
                }
                Ok(commands)
            },
        }
    }

    /// Forward observed effects: a leader appends one epoch-stamped proposal
    /// per effect to the replicated log; a follower ignores them.
    pub fn handle_action_effect(&mut self, action_effects: Vec<ActionEffect>) -> (r: Result<
        Vec<Command>,
        Error,
    >)
        requires
            *old(self) is Leader ==> old(
                self,
            )->Leader_leader_state.action_effect_handler.epoch_sequence_number.sequence_number
                + action_effects@.len() <= u64::MAX,
        ensures
            r is Ok,
            *old(self) is Follower ==> *final(self) == *old(self) && (r matches Ok(cmds)
                && cmds@ == Seq::<Command>::empty()),
            *old(self) is Leader ==> {
                let pre_handler = old(self)->Leader_leader_state.action_effect_handler;
                &&& (r matches Ok(cmds) && cmds@ == proposals_of(pre_handler, action_effects@))
                &&& *final(self) matches LeadershipState::Leader { follower_state, leader_state }
                    && follower_state == old(self)->Leader_follower_state
                    && leader_state.leader_epoch == old(self)->Leader_leader_state.leader_epoch
                    && leader_state.shuffle_task_id == old(
                    self,
                )->Leader_leader_state.shuffle_task_id && leader_state.timer_service == old(
                    self,
                )->Leader_leader_state.timer_service
                    && leader_state.action_effect_handler.epoch_sequence_number.sequence_number
                    == pre_handler.epoch_sequence_number.sequence_number + action_effects@.len()
                    && leader_state.action_effect_handler.epoch_sequence_number.leader_epoch
                    == pre_handler.epoch_sequence_number.leader_epoch
            },
    {
        match self {
            LeadershipState::Follower(_) => Ok(Vec::new()),
            LeadershipState::Leader { leader_state, .. } => {
                let commands = leader_state.action_effect_handler.handle(action_effects);
                Ok(commands)
            },
        }
    }
}

} // verus!
