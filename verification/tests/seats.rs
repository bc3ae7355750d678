use rmtg::seats::{free_seat, next_turn, release_seats};
use rmtg::sync::PeerId;
use std::collections::HashMap;

#[test]
fn turn_goes_round_zero_two_three_one() {
    let all = [true; 4];
    assert_eq!(next_turn(0, &all), 2);
    assert_eq!(next_turn(2, &all), 3);
    assert_eq!(next_turn(3, &all), 1);
    assert_eq!(next_turn(1, &all), 0);
}

#[test]
fn turn_skips_seats_that_cannot_take_it() {
    let two = [true, true, false, false];
    assert_eq!(next_turn(0, &two), 1);
    assert_eq!(next_turn(1, &two), 0);
    let alone = [false, false, true, false];
    assert_eq!(next_turn(2, &alone), 2);
    assert_eq!(next_turn(1, &alone), 2);
}

#[test]
fn joining_player_gets_smallest_free_seat() {
    let mut who: HashMap<usize, PeerId> = HashMap::new();
    assert_eq!(free_seat(&who), 1);
    who.insert(1, PeerId(10));
    who.insert(2, PeerId(11));
    assert_eq!(free_seat(&who), 3);
    who.remove(&1);
    assert_eq!(free_seat(&who), 1);
    who.insert(0, PeerId(9));
    assert_eq!(free_seat(&who), 1);
}

#[test]
fn leaving_player_frees_all_their_seats() {
    let mut who: HashMap<usize, PeerId> = HashMap::new();
    who.insert(1, PeerId(10));
    who.insert(2, PeerId(11));
    who.insert(3, PeerId(10));
    release_seats(&mut who, PeerId(10));
    assert_eq!(who.len(), 1);
    assert_eq!(who.get(&2), Some(&PeerId(11)));
    release_seats(&mut who, PeerId(99));
    assert_eq!(who.len(), 1);
    assert_eq!(free_seat(&who), 1);
}
