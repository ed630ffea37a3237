use walltaker::codec::{announce_message, check_message, subscribe_message, unsubscribe_message};
use walltaker::reconcile::{check, contains_id, reconcile, subscribe_to, unsubscribe_from,
    DesiredState};

#[test]
fn empty_to_two_ids() {
    let old_ids: Vec<usize> = vec![];
    let new_ids: Vec<usize> = vec![1, 2];
    let mut out: Vec<String> = Vec::new();
    reconcile(&old_ids, &new_ids, &mut out);
    assert_eq!(
        out,
        vec![
            subscribe_message(1),
            announce_message(1),
            subscribe_message(2),
            announce_message(2),
        ]
    );
}

#[test]
fn overlap_keeps_shared_id_untouched() {
    let old_ids: Vec<usize> = vec![1, 2];
    let new_ids: Vec<usize> = vec![2, 3];
    let mut out: Vec<String> = Vec::new();
    reconcile(&old_ids, &new_ids, &mut out);
    assert_eq!(
        out,
        vec![
            unsubscribe_message(1),
            subscribe_message(3),
            announce_message(3),
        ]
    );
    for msg in &out {
        assert_ne!(*msg, subscribe_message(2));
        assert_ne!(*msg, announce_message(2));
        assert_ne!(*msg, unsubscribe_message(2));
    }
}

#[test]
fn equal_sets_issue_nothing() {
    let old_ids: Vec<usize> = vec![4, 9];
    let new_ids: Vec<usize> = vec![9, 4];
    let mut out: Vec<String> = Vec::new();
    reconcile(&old_ids, &new_ids, &mut out);
    assert!(out.is_empty());
}

#[test]
fn disjoint_sets_remove_then_add() {
    let old_ids: Vec<usize> = vec![1];
    let new_ids: Vec<usize> = vec![2];
    let mut out: Vec<String> = Vec::new();
    reconcile(&old_ids, &new_ids, &mut out);
    assert_eq!(
        out,
        vec![
            unsubscribe_message(1),
            subscribe_message(2),
            announce_message(2),
        ]
    );
}

#[test]
fn reconcile_appends_after_existing_queue() {
    let old_ids: Vec<usize> = vec![];
    let new_ids: Vec<usize> = vec![8];
    let mut out: Vec<String> = vec![String::from("already queued")];
    reconcile(&old_ids, &new_ids, &mut out);
    assert_eq!(out[0], "already queued");
    assert_eq!(out[1], subscribe_message(8));
    assert_eq!(out[2], announce_message(8));
}

#[test]
fn subscribe_to_queues_pair() {
    let mut out: Vec<String> = Vec::new();
    subscribe_to(&mut out, 6);
    assert_eq!(out, vec![subscribe_message(6), announce_message(6)]);
}

#[test]
fn unsubscribe_from_queues_one() {
    let mut out: Vec<String> = Vec::new();
    unsubscribe_from(&mut out, 6);
    assert_eq!(out, vec![unsubscribe_message(6)]);
}

#[test]
fn check_queues_one() {
    let mut out: Vec<String> = Vec::new();
    check(&mut out, 11);
    assert_eq!(out, vec![check_message(11)]);
}

#[test]
fn desired_state_dedups_ids() {
    let mut d = DesiredState::new();
    d.add_id(3);
    d.add_id(3);
    d.add_id(4);
    assert_eq!(d.ids, vec![3, 4]);
    assert!(!d.run_on_boot);
}

#[test]
fn contains_id_finds_members_only() {
    let ids: Vec<usize> = vec![10, 20];
    assert!(contains_id(&ids, 10));
    assert!(contains_id(&ids, 20));
    assert!(!contains_id(&ids, 30));
}

#[test]
fn largest_id_encodes_and_reconciles() {
    let big = usize::MAX;
    let old_ids: Vec<usize> = vec![];
    let new_ids: Vec<usize> = vec![big];
    let mut out: Vec<String> = Vec::new();
    reconcile(&old_ids, &new_ids, &mut out);
    assert_eq!(out, vec![subscribe_message(big), announce_message(big)]);
    assert!(out[0].contains(&format!("\\\"id\\\":{big}")));
}
