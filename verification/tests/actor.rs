use std::collections::VecDeque;
use std::sync::mpsc::{channel, TryRecvError};

use oraide::{
    after_gathering, push_all_pending, ActorStep, PushAllPendingError, QueryRequest, ReceiveAction,
    ReceiveEvent,
};

#[test]
fn empty_queue_blocks_first() {
    let mut q: VecDeque<u32> = VecDeque::new();
    assert_eq!(push_all_pending(&mut q, ReceiveEvent::Start), ReceiveAction::BlockingReceive);
    assert!(q.is_empty());
}

#[test]
fn pending_queue_polls_first() {
    let mut q: VecDeque<u32> = VecDeque::from(vec![1]);
    assert_eq!(push_all_pending(&mut q, ReceiveEvent::Start), ReceiveAction::TryReceive);
    assert_eq!(q, VecDeque::from(vec![1]));
}

#[test]
fn messages_are_appended_in_order() {
    let mut q: VecDeque<u32> = VecDeque::from(vec![1]);
    assert_eq!(push_all_pending(&mut q, ReceiveEvent::Message(2)), ReceiveAction::TryReceive);
    assert_eq!(push_all_pending(&mut q, ReceiveEvent::Message(3)), ReceiveAction::TryReceive);
    assert_eq!(q, VecDeque::from(vec![1, 2, 3]));
    assert_eq!(push_all_pending(&mut q, ReceiveEvent::Empty), ReceiveAction::Finish(Ok(())));
    assert_eq!(q, VecDeque::from(vec![1, 2, 3]));
}

#[test]
fn disconnection_fails() {
    let mut q: VecDeque<u32> = VecDeque::new();
    assert_eq!(
        push_all_pending(&mut q, ReceiveEvent::Disconnected),
        ReceiveAction::Finish(Err(PushAllPendingError::Disconnected))
    );
    let mut q: VecDeque<u32> = VecDeque::from(vec![5]);
    assert_eq!(
        push_all_pending(&mut q, ReceiveEvent::Disconnected),
        ReceiveAction::Finish(Err(PushAllPendingError::Disconnected))
    );
    assert_eq!(q, VecDeque::from(vec![5]));
}

#[test]
fn nothing_waiting_on_an_empty_queue_blocks_again() {
    let mut q: VecDeque<u32> = VecDeque::new();
    assert_eq!(push_all_pending(&mut q, ReceiveEvent::Empty), ReceiveAction::BlockingReceive);
}

#[test]
fn a_full_gathering_over_a_channel() {
    let (tx, rx) = channel::<u32>();
    tx.send(10).unwrap();
    tx.send(20).unwrap();
    let mut q = VecDeque::new();
    let mut action = push_all_pending(&mut q, ReceiveEvent::Start);
    let result = loop {
        let event = match action {
            ReceiveAction::BlockingReceive => match rx.recv() {
                Ok(m) => ReceiveEvent::Message(m),
                Err(_) => ReceiveEvent::Disconnected,
            },
            ReceiveAction::TryReceive => match rx.try_recv() {
                Ok(m) => ReceiveEvent::Message(m),
                Err(TryRecvError::Empty) => ReceiveEvent::Empty,
                Err(TryRecvError::Disconnected) => ReceiveEvent::Disconnected,
            },
            ReceiveAction::Finish(r) => break r,
        };
        action = push_all_pending(&mut q, event);
    };
    assert_eq!(result, Ok(()));
    assert_eq!(q, VecDeque::from(vec![10, 20]));
}

#[test]
fn which_requests_mutate_state() {
    let url = url::Url::parse("file:///a.yaml").unwrap();
    let pos = languageserver_types::Position::new(1, 2);
    assert!(QueryRequest::Initialize { task_id: 1, workspace_root_url: None }.will_mutate_server_state());
    assert!(QueryRequest::FileOpened { file_url: url.clone(), file_text: String::new() }
        .will_mutate_server_state());
    assert!(QueryRequest::FileChanged { file_url: url.clone(), changes: Vec::new() }
        .will_mutate_server_state());
    assert!(!QueryRequest::HoverAtPosition { task_id: 2, file_url: url.clone(), file_pos: pos }
        .will_mutate_server_state());
    assert!(!QueryRequest::GoToDefinition { task_id: 3, file_url: url.clone(), file_pos: pos }
        .will_mutate_server_state());
    assert!(!QueryRequest::FileSymbols { task_id: 4, file_url: url }.will_mutate_server_state());
}

#[test]
fn invoke_while_messages_remain() {
    let empty: VecDeque<u32> = VecDeque::new();
    assert_eq!(after_gathering(&empty), ActorStep::Stop);
    let one: VecDeque<u32> = VecDeque::from(vec![1]);
    assert_eq!(after_gathering(&one), ActorStep::Invoke);
}

#[test]
fn queued_messages_outlive_the_senders() {
    let (tx, rx) = channel::<u32>();
    tx.send(1).unwrap();
    tx.send(2).unwrap();
    drop(tx);
    let mut q = VecDeque::new();
    let mut delivered = Vec::new();
    loop {
        let mut action = push_all_pending(&mut q, ReceiveEvent::Start);
        let gathered = loop {
            let event = match action {
                ReceiveAction::BlockingReceive => match rx.recv() {
                    Ok(m) => ReceiveEvent::Message(m),
                    Err(_) => ReceiveEvent::Disconnected,
                },
                ReceiveAction::TryReceive => match rx.try_recv() {
                    Ok(m) => ReceiveEvent::Message(m),
                    Err(TryRecvError::Empty) => ReceiveEvent::Empty,
                    Err(TryRecvError::Disconnected) => ReceiveEvent::Disconnected,
                },
                ReceiveAction::Finish(r) => break r,
            };
            action = push_all_pending(&mut q, event);
        };
        assert_eq!(gathered, Err(PushAllPendingError::Disconnected));
        match after_gathering(&q) {
            // an actor that handles one message per call
            ActorStep::Invoke => delivered.push(q.pop_front().unwrap()),
            ActorStep::Stop => break,
        }
    }
    assert_eq!(delivered, vec![1, 2]);
}
