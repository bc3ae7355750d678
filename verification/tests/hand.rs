use rmtg::hand::{place_pos, sort_by_cost, swap_pos, Hand};

#[test]
fn entering_card_pushes_later_cards_up() {
    let mut slots = vec![0, 1, 2];
    assert_eq!(place_pos(3, &mut slots, 1), 1);
    assert_eq!(slots, vec![0, 2, 3]);
}

#[test]
fn entering_card_at_the_end_moves_nothing() {
    let mut slots = vec![1, 0];
    assert_eq!(place_pos(2, &mut slots, 7), 2);
    assert_eq!(slots, vec![1, 0]);
}

#[test]
fn moving_card_swaps_with_the_holder() {
    let mut slots = vec![0, 1, 2, 3];
    let entry = swap_pos(4, &mut slots, 3, 1);
    assert_eq!(entry, 3);
    assert_eq!(slots, vec![0, 1, 2, 1]);
    slots[1] = entry;
    assert_eq!(slots, vec![0, 3, 2, 1]);
}

#[test]
fn moving_card_onto_its_own_slot_changes_nothing() {
    let mut slots = vec![0, 1, 2];
    assert_eq!(swap_pos(3, &mut slots, 9, 2), 2);
    assert_eq!(slots, vec![0, 1, 2]);
}

#[test]
fn leaving_cards_free_their_slots() {
    let mut hand = Hand { count: 4, removed: vec![] };
    hand.leave(1);
    assert_eq!(hand.count, 3);
    assert_eq!(hand.removed, vec![1]);
}

#[test]
fn compaction_closes_the_gaps() {
    let mut hand = Hand { count: 3, removed: vec![1, 3] };
    let mut slots = vec![4, 0, 2];
    hand.compact(&mut slots);
    let mut sorted = slots.clone();
    sorted.sort();
    assert_eq!(sorted, vec![0, 1, 2]);
    assert!(hand.removed.is_empty());
    assert_eq!(hand.count, 3);
    assert_eq!(slots[1], 0);
}

#[test]
fn compaction_in_card_order() {
    let mut hand = Hand { count: 3, removed: vec![1] };
    let mut slots = vec![3, 2, 0];
    hand.compact(&mut slots);
    assert_eq!(slots, vec![1, 2, 0]);
}

#[test]
fn sorting_by_cost_orders_slots() {
    let mut slots = vec![0, 1, 2, 3];
    let costs = vec![5, 1, 3, 0];
    sort_by_cost(&mut slots, &costs);
    assert_eq!(slots, vec![3, 1, 2, 0]);
}

#[test]
fn sorting_by_cost_keeps_a_permutation_with_ties() {
    let mut slots = vec![2, 0, 1];
    let costs = vec![2, 2, 1];
    sort_by_cost(&mut slots, &costs);
    let mut sorted = slots.clone();
    sorted.sort();
    assert_eq!(sorted, vec![0, 1, 2]);
    assert_eq!(slots[2], 0);
}
