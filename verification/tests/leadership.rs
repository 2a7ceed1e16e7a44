//! Leadership transitions, action dispatch, and effect proposals.

use workflow_core::leadership::{
    Action, ActionEffect, ActionEffectStream, Command, EpochSequenceNumber, GenerationalNodeId,
    IngressMessage, InvocationTarget, InvokeInputJournal, LeadershipState,
};
use workflow_core::task_center::TaskCenter;
use workflow_core::timer_service::{TimerKey, TimerKeyValue};

fn node() -> GenerationalNodeId {
    GenerationalNodeId { id: 1, generation: 1 }
}

fn esn(leader_epoch: u64) -> EpochSequenceNumber {
    EpochSequenceNumber { leader_epoch, sequence_number: 0 }
}

fn target(component: &str, handler: &str) -> InvocationTarget {
    InvocationTarget { component: component.to_string(), handler: handler.to_string() }
}

#[test]
fn leadership_handoff() {
    let mut task_center = TaskCenter::new();
    let (state, stream) = LeadershipState::follower(17, 0, 1024, Some(8), 4);
    assert_eq!(stream, ActionEffectStream::Follower);
    assert!(!state.is_leader());

    // Follower to leader at the first epoch: invoker registration, the scan's
    // resumptions and the shuffle spawn all come out, in order.
    let (state, stream, commands, result) = state.become_leader(
        &mut task_center,
        esn(1),
        node(),
        vec![(7, target("greeter.Greeter", "greet"))],
    );
    result.unwrap();
    assert_eq!(stream, ActionEffectStream::Leader);
    assert!(state.is_leader());
    assert_eq!(
        commands[0],
        Command::RegisterInvoker {
            partition_id: 17,
            leader_epoch: 1,
            partition_key_range_start: 0,
            partition_key_range_end: 1024,
            channel_size: 4,
        }
    );
    assert_eq!(
        commands[1],
        Command::Invoke {
            partition_id: 17,
            leader_epoch: 1,
            invocation_id: 7,
            invocation_target: target("greeter.Greeter", "greet"),
            invoke_input_journal: InvokeInputJournal::NoCachedJournal,
        }
    );
    let first_task = match commands[2] {
        Command::SpawnShuffle { task_id, partition_id: 17, leader_epoch: 1, .. } => task_id,
        ref other => panic!("unexpected command {other:?}"),
    };
    assert_eq!(commands.len(), 3);
    assert!(task_center.is_live(first_task));

    // Leader to follower: the shuffle task is cancelled and the outgoing
    // epoch's invocations aborted; no owned task stays live.
    let (state, stream, commands) = state.become_follower(&mut task_center);
    assert!(!state.is_leader());
    assert_eq!(stream, ActionEffectStream::Follower);
    assert_eq!(
        commands,
        vec![
            Command::CancelShuffleTask { task_id: first_task },
            Command::AbortAllPartition { partition_id: 17, leader_epoch: 1 },
        ]
    );
    assert!(!task_center.is_live(first_task));

    // Follower to leader at a later epoch: a clean slate with a fresh task.
    let (state, _, commands, result) = state.become_leader(&mut task_center, esn(2), node(), vec![]);
    result.unwrap();
    assert!(state.is_leader());
    let second_task = match commands[1] {
        Command::SpawnShuffle { task_id, leader_epoch: 2, .. } => task_id,
        ref other => panic!("unexpected command {other:?}"),
    };
    assert_ne!(first_task, second_task);
    assert!(task_center.is_live(second_task));

    // Actions during a follower term are a no-op.
    let (mut state, _) = LeadershipState::follower(17, 0, 1024, Some(8), 4);
    let commands = state
        .handle_actions(&task_center, vec![Action::AbortInvocation { invocation_id: 7 }])
        .unwrap();
    assert!(commands.is_empty());
}

#[test]
fn leader_to_leader_steps_down_first() {
    let mut task_center = TaskCenter::new();
    let (state, _) = LeadershipState::follower(17, 0, 1024, None, 4);
    let (state, _, commands, result) = state.become_leader(&mut task_center, esn(1), node(), vec![]);
    result.unwrap();
    assert_eq!(commands.len(), 2);
    let first_task = match commands[1] {
        Command::SpawnShuffle { task_id, .. } => task_id,
        ref other => panic!("unexpected command {other:?}"),
    };

    let (state, _, commands, result) = state.become_leader(&mut task_center, esn(2), node(), vec![]);
    result.unwrap();
    assert!(state.is_leader());
    assert_eq!(commands[0], Command::CancelShuffleTask { task_id: first_task });
    assert_eq!(commands[1], Command::AbortAllPartition { partition_id: 17, leader_epoch: 1 });
    assert!(matches!(
        commands[2],
        Command::RegisterInvoker { partition_id: 17, leader_epoch: 2, .. }
    ));
    assert!(matches!(commands[3], Command::SpawnShuffle { leader_epoch: 2, .. }));
    assert!(!task_center.is_live(first_task));
}

#[test]
fn become_leader_fails_cleanly_during_shutdown() {
    let mut task_center = TaskCenter::new();
    let (state, _) = LeadershipState::follower(17, 0, 1024, None, 4);
    task_center.begin_shutdown();
    let (state, stream, commands, result) =
        state.become_leader(&mut task_center, esn(1), node(), vec![]);
    assert!(!state.is_leader());
    assert_eq!(stream, ActionEffectStream::Follower);
    assert!(result.is_err());
    // The partial acquisition is released before returning.
    assert_eq!(
        commands.last().unwrap(),
        &Command::AbortAllPartition { partition_id: 17, leader_epoch: 1 }
    );
}

#[test]
fn ingress_drop_on_shutdown() {
    let mut task_center = TaskCenter::new();
    let (state, _) = LeadershipState::follower(17, 0, 1024, None, 4);
    let (mut state, _, _, result) = state.become_leader(&mut task_center, esn(1), node(), vec![]);
    result.unwrap();

    let response = Action::IngressResponse {
        target_node: node(),
        invocation_id: Some(7),
        response: vec![1, 2, 3],
    };

    // Before shutdown the response goes out as a detached send.
    let commands = state.handle_actions(&task_center, vec![response]).unwrap();
    assert_eq!(
        commands,
        vec![Command::SendIngressMessage {
            target_node: node(),
            invocation_id: Some(7),
            message: IngressMessage::InvocationResponse {
                invocation_id: Some(7),
                response: vec![1, 2, 3],
            },
        }]
    );

    // After task-center shutdown the call still succeeds and the message is
    // silently dropped.
    task_center.begin_shutdown();
    let response = Action::IngressResponse {
        target_node: node(),
        invocation_id: Some(7),
        response: vec![1, 2, 3],
    };
    let result = state.handle_actions(&task_center, vec![response]);
    assert!(result.is_ok());
    assert!(result.unwrap().is_empty());
}

#[test]
fn leader_dispatches_actions() {
    let mut task_center = TaskCenter::new();
    let (state, _) = LeadershipState::follower(17, 0, 1024, None, 4);
    let (mut state, _, _, result) = state.become_leader(&mut task_center, esn(3), node(), vec![]);
    result.unwrap();

    let key = TimerKey { wake_up_time: 50, seq: 0 };
    let actions = vec![
        Action::Invoke {
            invocation_id: 9,
            invocation_target: target("greeter.Greeter", "greet"),
            invoke_input_journal: InvokeInputJournal::NoCachedJournal,
        },
        Action::NewOutboxMessage { seq_number: 2, message: vec![9] },
        Action::RegisterTimer { timer_value: TimerKeyValue { key, payload: vec![7] } },
        Action::AckStoredEntry { invocation_id: 9, entry_index: 1 },
        Action::AbortInvocation { invocation_id: 9 },
        Action::ScheduleInvocationStatusCleanup { invocation_id: 9, retention_millis: 1000 },
    ];
    let commands = state.handle_actions(&task_center, actions).unwrap();
    assert_eq!(commands.len(), 5);
    assert!(matches!(commands[0], Command::Invoke { invocation_id: 9, leader_epoch: 3, .. }));
    assert_eq!(commands[1], Command::SendShuffleHint { seq_number: 2, message: vec![9] });
    assert!(matches!(
        commands[2],
        Command::NotifyStoredEntryAck { invocation_id: 9, entry_index: 1, .. }
    ));
    assert!(matches!(commands[3], Command::AbortInvocation { invocation_id: 9, .. }));
    assert_eq!(
        commands[4],
        Command::EnqueueActionEffect {
            effect: ActionEffect::ScheduleCleanupTimer { invocation_id: 9, retention_millis: 1000 },
        }
    );

    // The registered timer is due next; a deleted timer never fires.
    let fired = state.run_timer().unwrap();
    assert_eq!(fired.key, key);
    assert_eq!(fired.payload, vec![7]);
    assert!(state.run_timer().is_none());

    let actions = vec![
        Action::RegisterTimer { timer_value: TimerKeyValue { key, payload: vec![7] } },
        Action::DeleteTimer { timer_key: key },
    ];
    state.handle_actions(&task_center, actions).unwrap();
    assert!(state.run_timer().is_none());
}

#[test]
fn follower_timer_pends_forever() {
    let (mut state, _) = LeadershipState::follower(17, 0, 1024, None, 4);
    assert!(state.run_timer().is_none());
    let effects = state.handle_action_effect(vec![ActionEffect::Shuffle {
        outbox_truncation_index: 4,
    }]);
    assert!(effects.unwrap().is_empty());
}

#[test]
fn effects_become_epoch_stamped_proposals() {
    let mut task_center = TaskCenter::new();
    let (state, _) = LeadershipState::follower(17, 100, 200, None, 4);
    let (mut state, _, _, result) = state.become_leader(&mut task_center, esn(5), node(), vec![]);
    result.unwrap();

    let commands = state
        .handle_action_effect(vec![
            ActionEffect::Shuffle { outbox_truncation_index: 4 },
            ActionEffect::Invoker { invocation_id: 9, payload: vec![1] },
        ])
        .unwrap();
    assert_eq!(commands.len(), 2);
    match &commands[0] {
        Command::AppendToBifrost { proposal } => {
            assert_eq!(proposal.partition_id, 17);
            assert_eq!(proposal.leader_epoch, 5);
            assert_eq!(proposal.sequence_number, 0);
            assert_eq!(proposal.partition_key_range_start, 100);
            assert_eq!(proposal.partition_key_range_end, 200);
            assert_eq!(proposal.effect, ActionEffect::Shuffle { outbox_truncation_index: 4 });
        }
        other => panic!("unexpected command {other:?}"),
    }
    match &commands[1] {
        Command::AppendToBifrost { proposal } => {
            assert_eq!(proposal.sequence_number, 1);
            assert_eq!(
                proposal.effect,
                ActionEffect::Invoker { invocation_id: 9, payload: vec![1] }
            );
        }
        other => panic!("unexpected command {other:?}"),
    }
}
