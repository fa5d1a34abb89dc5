use vsmtp_core::delivery::{
    handle_one_in_deferred_queue, handle_one_in_delivery_queue, sender_outcome,
    sort_mx_candidates, DeferredAction, DeliveryAction, SenderOutcome,
};
use vsmtp_core::address::Address;
use vsmtp_core::context::{RcptStatus, Recipient, TransportTag};
use vsmtp_core::queue::{QueueEntry, QueueError, QueueID, QueueManager, SelectedQueue};

#[test]
fn write_move_remove_cycle() {
    let mut qm = QueueManager::new();
    assert!(qm.write_both(QueueID::Working, 7, 0).is_ok());
    assert!(qm.get_ctx(QueueID::Working, 7).is_some());

    assert!(qm.move_to(QueueID::Working, QueueID::Deliver, 7).is_ok());
    assert!(qm.get_ctx(QueueID::Working, 7).is_none());
    assert!(qm.get_ctx(QueueID::Deliver, 7).is_some());

    assert!(qm.remove_both(QueueID::Deliver, 7).is_ok());
    assert!(qm.get_ctx(QueueID::Deliver, 7).is_none());
}

#[test]
fn one_queue_per_identifier() {
    let mut qm = QueueManager::new();
    assert!(qm.write_both(QueueID::Working, 7, 0).is_ok());
    // The same message cannot be written into a second queue.
    assert_eq!(
        qm.write_both(QueueID::Deliver, 7, 0).unwrap_err(),
        QueueError::AlreadyQueued,
    );
    // Rewriting it in its own queue is allowed.
    assert!(qm.write_both(QueueID::Working, 7, 3).is_ok());
    assert_eq!(qm.get_ctx(QueueID::Working, 7), Some(3));
}

#[test]
fn moving_an_absent_message_reports_not_found() {
    let mut qm = QueueManager::new();
    assert_eq!(
        qm.move_to(QueueID::Working, QueueID::Deliver, 9).unwrap_err(),
        QueueError::NotFound,
    );
    assert!(qm.write_both(QueueID::Dead, 9, 0).is_ok());
    assert_eq!(
        qm.move_to(QueueID::Working, QueueID::Deliver, 9).unwrap_err(),
        QueueError::NotFound,
    );
}

#[test]
fn half_written_entries_are_orphans() {
    let mut qm = QueueManager::new();
    qm.entries.push(QueueEntry {
        uuid: 11,
        queue: QueueID::Working,
        has_ctx: true,
        has_eml: false,
        retry: 0,
    });
    // A reader treats the entry as absent.
    assert!(qm.get_ctx(QueueID::Working, 11).is_none());
    // A move refuses to leave partial state behind.
    assert_eq!(
        qm.move_to(QueueID::Working, QueueID::Deliver, 11).unwrap_err(),
        QueueError::Orphan,
    );
    assert!(qm.entries.len() == 1);
    // Removal reports the orphan distinctly and leaves the remainder in
    // place for inspection.
    assert_eq!(
        qm.remove_both(QueueID::Working, 11).unwrap_err(),
        QueueError::Orphan,
    );
    assert!(qm.entries.len() == 1);
    assert!(qm.entries[0].has_ctx);
}

#[test]
fn listing_skips_partial_entries() {
    let mut qm = QueueManager::new();
    assert!(qm.write_both(QueueID::Working, 1, 0).is_ok());
    assert!(qm.write_both(QueueID::Deliver, 2, 0).is_ok());
    assert!(qm.write_both(QueueID::Working, 3, 0).is_ok());
    qm.entries.push(QueueEntry {
        uuid: 4,
        queue: QueueID::Working,
        has_ctx: false,
        has_eml: true,
        retry: 0,
    });
    assert_eq!(qm.list(QueueID::Working), vec![1, 3]);
    assert_eq!(qm.list(QueueID::Deliver), vec![2]);
    assert_eq!(qm.list(QueueID::Dead), Vec::<u128>::new());
}

#[test]
fn deferred_cycle_retries_then_succeeds() {
    let mut qm = QueueManager::new();
    assert!(qm.write_both(QueueID::Deliver, 21, 0).is_ok());
    // The destination answered with a transient failure: the message
    // arrives in the deferred queue with its first retry recorded.
    let action = handle_one_in_delivery_queue(&mut qm, 21, false, false, false);
    assert_eq!(action, DeliveryAction::MovedToDeferred);
    assert_eq!(qm.get_ctx(QueueID::Deferred, 21), Some(1));

    // The next sweep fails again: the retry count rises in place.
    let action = handle_one_in_deferred_queue(&mut qm, 21, 100, false);
    assert_eq!(action, DeferredAction::RetryIncremented);
    assert_eq!(qm.get_ctx(QueueID::Deferred, 21), Some(2));

    // The next sweep delivers: the entry is gone.
    let action = handle_one_in_deferred_queue(&mut qm, 21, 100, true);
    assert_eq!(action, DeferredAction::Removed);
    assert!(qm.get_ctx(QueueID::Deferred, 21).is_none());
    assert!(qm.list(QueueID::Deferred).is_empty());
    assert!(qm.list(QueueID::Dead).is_empty());
}

#[test]
fn retry_cap_sends_to_dead() {
    let mut qm = QueueManager::new();
    assert!(qm.write_both(QueueID::Deferred, 22, 99).is_ok());
    // One below the cap: even a failed attempt only increments.
    let action = handle_one_in_deferred_queue(&mut qm, 22, 100, false);
    assert_eq!(action, DeferredAction::RetryIncremented);
    assert_eq!(qm.get_ctx(QueueID::Deferred, 22), Some(100));
    // At the cap the message is given up, whatever an attempt would do.
    let action = handle_one_in_deferred_queue(&mut qm, 22, 100, true);
    assert_eq!(action, DeferredAction::MovedToDead);
    assert!(qm.get_ctx(QueueID::Dead, 22).is_some());
    assert!(qm.get_ctx(QueueID::Deferred, 22).is_none());
}

#[test]
fn denied_delivery_goes_to_dead() {
    let mut qm = QueueManager::new();
    assert!(qm.write_both(QueueID::Deliver, 23, 0).is_ok());
    let action = handle_one_in_delivery_queue(&mut qm, 23, true, false, false);
    assert_eq!(action, DeliveryAction::DeniedToDead);
    assert!(qm.get_ctx(QueueID::Dead, 23).is_some());

    assert!(qm.write_both(QueueID::Deliver, 24, 0).is_ok());
    let action = handle_one_in_delivery_queue(&mut qm, 24, false, true, false);
    assert_eq!(action, DeliveryAction::Skipped);
    assert!(qm.get_ctx(QueueID::Deliver, 24).is_some());

    let action = handle_one_in_delivery_queue(&mut qm, 24, false, false, true);
    assert_eq!(action, DeliveryAction::Delivered);
    assert!(qm.get_ctx(QueueID::Deliver, 24).is_none());
}

fn rcpt(domain: &str, status: RcptStatus) -> Recipient {
    Recipient {
        address: Address { local: b"user".to_vec(), domain: domain.as_bytes().to_vec() },
        status,
        transport: TransportTag::Remote,
    }
}

#[test]
fn outcome_policy_over_recipient_states() {
    let all_sent = vec![
        rcpt("a", RcptStatus::Sent { at: 1 }),
        rcpt("b", RcptStatus::Sent { at: 2 }),
    ];
    assert_eq!(sender_outcome(&all_sent), SenderOutcome::RemoveFromDisk);

    let one_waiting = vec![
        rcpt("a", RcptStatus::Sent { at: 1 }),
        rcpt("b", RcptStatus::Waiting),
    ];
    assert_eq!(sender_outcome(&one_waiting), SenderOutcome::MoveToDeferred);

    let held_back = vec![rcpt("a", RcptStatus::HeldBack { errors: vec![451] })];
    assert_eq!(sender_outcome(&held_back), SenderOutcome::MoveToDeferred);

    let all_failed = vec![
        rcpt("a", RcptStatus::Failed { code: 550 }),
        rcpt("b", RcptStatus::Sent { at: 3 }),
    ];
    assert_eq!(sender_outcome(&all_failed), SenderOutcome::MoveToDead);

    assert_eq!(sender_outcome(&Vec::new()), SenderOutcome::MoveToDead);
}

#[test]
fn queue_selection_cycles_in_display_order() {
    assert_eq!(SelectedQueue::Nothing.next(), SelectedQueue::Dead);
    assert_eq!(SelectedQueue::Dead.next(), SelectedQueue::Deferred);
    assert_eq!(SelectedQueue::Deferred.next(), SelectedQueue::Delegated);
    assert_eq!(SelectedQueue::Delegated.next(), SelectedQueue::Deliver);
    assert_eq!(SelectedQueue::Deliver.next(), SelectedQueue::Working);
    assert_eq!(SelectedQueue::Working.next(), SelectedQueue::Dead);

    assert_eq!(SelectedQueue::Nothing.previous(), SelectedQueue::Working);
    assert_eq!(SelectedQueue::Dead.previous(), SelectedQueue::Working);
    assert_eq!(SelectedQueue::Deferred.previous(), SelectedQueue::Dead);
    assert_eq!(SelectedQueue::Delegated.previous(), SelectedQueue::Deferred);
    assert_eq!(SelectedQueue::Deliver.previous(), SelectedQueue::Delegated);
    assert_eq!(SelectedQueue::Working.previous(), SelectedQueue::Deliver);
}

#[test]
fn mx_candidates_sort_by_preference_and_keep_answer_order() {
    // (preference, position in the DNS answer)
    let records = vec![(20u16, 0usize), (5, 1), (10, 2), (5, 3), (10, 4)];
    let sorted = sort_mx_candidates(&records);
    assert_eq!(sorted, vec![(5, 1), (5, 3), (10, 2), (10, 4), (20, 0)]);
    assert!(sort_mx_candidates(&Vec::new()).is_empty());
}
