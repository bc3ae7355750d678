use rmtg::card::{Card, CardData, CardInfo, Id, Layout, SubCard, Value};
use rmtg::cost::{ColorIdentity, Cost};
use rmtg::packet::{
    draw_cards, draw_range, flip_at, merge_local, merge_onto, reorder, Counter,
};
use rmtg::pile::Pile;
use rmtg::types::{MainTypes, SubTypes, SuperTypes, Types};
use bevy_prng::WyRand;
use rand::SeedableRng;

fn info(name: &str) -> CardInfo {
    CardInfo {
        name: name.to_string(),
        mana_cost: Cost::default(),
        card_type: Types {
            super_type: SuperTypes(vec![]),
            main_type: MainTypes(vec![]),
            sub_type: SubTypes(vec![]),
        },
        text: String::new(),
        color: ColorIdentity::default(),
        power: None,
        toughness: None,
        loyalty: None,
    }
}

fn card(n: u128) -> SubCard {
    SubCard {
        id: Id(n),
        tokens: vec![],
        data: CardData { face: info("card"), back: None, layout: Layout::Normal },
        flipped: false,
    }
}

fn two_faced(n: u128) -> SubCard {
    let mut c = card(n);
    c.data.back = Some(info("back"));
    c
}

fn stack(ids: &[u128]) -> Pile {
    Pile::Multiple(ids.iter().map(|n| card(*n)).collect())
}

fn ids(p: &Pile) -> Vec<u128> {
    p.ids().iter().map(|i| i.0).collect()
}

fn idv(ns: &[u128]) -> Vec<Id> {
    ns.iter().map(|n| Id(*n)).collect()
}

#[test]
fn reorder_puts_listed_cards_first() {
    let mut p = stack(&[1, 2, 3, 4]);
    assert!(reorder(&mut p, &idv(&[3, 1])));
    let got = ids(&p);
    assert_eq!(&got[..2], &[3, 1]);
    let mut rest = got[2..].to_vec();
    rest.sort();
    assert_eq!(rest, vec![2, 4]);
}

#[test]
fn reorder_with_the_same_cards_gives_that_order() {
    let mut p = stack(&[1, 2, 3, 4]);
    assert!(reorder(&mut p, &idv(&[4, 2, 3, 1])));
    assert_eq!(ids(&p), vec![4, 2, 3, 1]);
    let mut twins = stack(&[7, 7, 5]);
    assert!(reorder(&mut twins, &idv(&[5, 7, 7])));
    assert_eq!(ids(&twins), vec![5, 7, 7]);
}

#[test]
fn reorder_fails_on_a_missing_card() {
    let mut p = stack(&[1, 2, 3]);
    assert!(!reorder(&mut p, &idv(&[2, 9])));
    let mut got = ids(&p);
    got.sort();
    assert_eq!(got, vec![1, 2, 3]);
    let mut twice = stack(&[1, 2]);
    assert!(!reorder(&mut twice, &idv(&[1, 1])));
    let mut longer = stack(&[1]);
    assert!(!reorder(&mut longer, &idv(&[1, 1])));
}

#[test]
fn reorder_leaves_lone_card_alone() {
    let mut p = Pile::new(vec![card(1)]);
    assert!(!reorder(&mut p, &idv(&[1])));
    assert!(matches!(p, Pile::Single(_)));
}

#[test]
fn flip_turns_only_two_faced_cards() {
    let mut p = Pile::Multiple(vec![card(1), two_faced(2)]);
    assert_eq!(flip_at(&mut p, 0, true), Some(false));
    assert_eq!(flip_at(&mut p, 1, true), Some(true));
    assert!(p.get(1).unwrap().flipped);
    assert_eq!(flip_at(&mut p, 1, true), Some(false));
    assert!(p.get(1).unwrap().flipped);
    assert_eq!(flip_at(&mut p, 1, false), Some(true));
    assert!(!p.get(1).unwrap().flipped);
    assert_eq!(flip_at(&mut p, 2, true), None);
}

#[test]
fn flip_reaches_equipment_of_lone_card() {
    let mut c = Card::from(card(1));
    c.equiped.push(two_faced(2));
    c.power = Some(Value(2));
    let mut p = Pile::Single(Box::new(c));
    assert_eq!(flip_at(&mut p, 1, true), Some(true));
    match &p {
        Pile::Single(c) => {
            assert!(c.equiped[0].flipped);
            assert_eq!(c.power, Some(Value(2)));
        },
        _ => panic!("expected a lone card"),
    }
    assert_eq!(flip_at(&mut p, 2, true), None);
}

#[test]
fn draw_range_takes_cards_below_start() {
    let mut p = stack(&[1, 2, 3, 4, 5]);
    let got: Vec<u128> = draw_range(&mut p, 4, 2).unwrap().iter().map(|c| c.id.0).collect();
    assert_eq!(got, vec![3, 4]);
    assert_eq!(ids(&p), vec![1, 2, 5]);
}

#[test]
fn draw_range_refuses_misfits() {
    let mut p = stack(&[1, 2]);
    assert!(draw_range(&mut p, 3, 1).is_none());
    assert!(draw_range(&mut p, 1, 2).is_none());
    assert_eq!(ids(&p), vec![1, 2]);
    let mut lone = Pile::new(vec![card(7)]);
    let got: Vec<u128> = draw_range(&mut lone, 1, 1).unwrap().iter().map(|c| c.id.0).collect();
    assert_eq!(got, vec![7]);
    assert!(matches!(lone, Pile::Empty));
}

#[test]
fn draw_cards_from_top_and_bottom() {
    let mut p = stack(&[1, 2, 3, 4]);
    let (cards, start) = draw_cards(&mut p, false, 3);
    assert_eq!(cards.iter().map(|c| c.id.0).collect::<Vec<_>>(), vec![2, 3, 4]);
    assert_eq!(start, 4);
    assert_eq!(ids(&p), vec![1]);
    let mut q = stack(&[1, 2, 3, 4]);
    let (cards, start) = draw_cards(&mut q, true, 9);
    assert_eq!(cards.iter().map(|c| c.id.0).collect::<Vec<_>>(), vec![1, 2, 3, 4]);
    assert_eq!(start, 4);
    assert!(q.is_empty());
}

#[test]
fn draw_replays_on_the_other_side() {
    for reversed in [false, true] {
        for n in 1..6usize {
            let mut mine = stack(&[1, 2, 3, 4]);
            let mut theirs = stack(&[1, 2, 3, 4]);
            let (cards, start) = draw_cards(&mut mine, reversed, n);
            let got = draw_range(&mut theirs, start, cards.len()).unwrap();
            assert_eq!(
                got.iter().map(|c| c.id.0).collect::<Vec<_>>(),
                cards.iter().map(|c| c.id.0).collect::<Vec<_>>()
            );
            assert_eq!(ids(&mine), ids(&theirs));
        }
    }
}

#[test]
fn merge_onto_slides_plain_piles_in() {
    let mut base = stack(&[1, 2, 3]);
    assert_eq!(merge_onto(&mut base, stack(&[8, 9]), 1, true), Some(false));
    assert_eq!(ids(&base), vec![1, 8, 9, 2, 3]);
}

#[test]
fn merge_onto_refuses_past_the_end_when_checking() {
    let mut base = stack(&[1, 2]);
    assert_eq!(merge_onto(&mut base, stack(&[9]), 3, true), None);
    assert_eq!(ids(&base), vec![1, 2]);
    let mut own = stack(&[1, 2]);
    assert_eq!(merge_onto(&mut own, stack(&[9]), 2, false), Some(false));
    assert_eq!(ids(&own), vec![1, 2, 9]);
}

#[test]
fn merge_onto_lays_modified_card_as_face() {
    let mut base = stack(&[1, 2]);
    let mut top = Card::from(card(5));
    top.counters = Some(Value(1));
    assert_eq!(merge_onto(&mut base, Pile::Single(Box::new(top)), 0, true), Some(true));
    assert_eq!(ids(&base), vec![5, 1, 2]);
    assert!(base.is_equiped());
}

#[test]
fn merge_local_by_orientation() {
    let mut up = stack(&[1, 2]);
    assert_eq!(merge_local(&mut up, stack(&[3]), false), (2, false));
    assert_eq!(ids(&up), vec![1, 2, 3]);
    let mut down = stack(&[1, 2]);
    assert_eq!(merge_local(&mut down, stack(&[3]), true), (0, false));
    assert_eq!(ids(&down), vec![3, 1, 2]);
}

#[test]
fn merge_replays_on_the_other_side() {
    for reversed in [false, true] {
        let mut mine = stack(&[1, 2, 3]);
        let mut theirs = stack(&[1, 2, 3]);
        let (at, equip) = merge_local(&mut mine, stack(&[7, 8]), reversed);
        assert_eq!(merge_onto(&mut theirs, stack(&[7, 8]), at, true), Some(equip));
        assert_eq!(ids(&mine), ids(&theirs));
    }
}

#[test]
fn merge_onto_equipped_lone_card_differs_from_local() {
    let mut c = Card::from(card(1));
    c.equiped.push(card(2));
    c.equiped.push(card(3));
    let mut mine = Pile::Single(Box::new(c));
    let (at, _) = merge_local(&mut mine, stack(&[9]), false);
    assert_eq!(at, 1);
    assert_eq!(ids(&mine), vec![2, 3, 1, 9]);
    let mut c = Card::from(card(1));
    c.equiped.push(card(2));
    c.equiped.push(card(3));
    let mut theirs = Pile::Single(Box::new(c));
    assert_eq!(merge_onto(&mut theirs, stack(&[9]), at, true), Some(false));
    assert_eq!(ids(&theirs), vec![2, 9, 3, 1]);
}

#[test]
fn set_counter_changes_one_statistic() {
    let mut c = Card::from(card(1));
    c.set_counter(Counter::Toughness, Some(Value(5)));
    assert_eq!(c.toughness, Some(Value(5)));
    assert_eq!(c.power, None);
    c.set_counter(Counter::Misc, Some(Value(-2)));
    assert_eq!(c.misc, Some(Value(-2)));
    c.set_counter(Counter::Toughness, None);
    assert_eq!(c.toughness, None);
}

#[test]
fn step_counter_up_then_down_cancels() {
    let mut c = Card::from(card(1));
    c.set_counter(Counter::Loyalty, Some(Value(3)));
    assert_eq!(c.step_counter(Counter::Loyalty, true), Value(4));
    assert_eq!(c.loyalty, Some(Value(4)));
    assert_eq!(c.step_counter(Counter::Loyalty, false), Value(3));
    assert_eq!(c.loyalty, Some(Value(3)));
    c.set_counter(Counter::Counters, Some(Value(0)));
    assert_eq!(c.step_counter(Counter::Counters, false), Value(-1));
}

#[test]
fn shuffle_replays_on_the_other_side() {
    let mut rng = WyRand::seed_from_u64(5);
    let mut mine = stack(&[1, 2, 3, 4, 5, 6, 7, 7, 9]);
    mine.shuffle(&mut rng);
    let order = mine.ids();
    let mut theirs = stack(&[1, 2, 3, 4, 5, 6, 7, 7, 9]);
    assert!(reorder(&mut theirs, &order));
    assert_eq!(theirs.ids(), order);
}

#[test]
fn reorder_swaps_in_place() {
    let mut p = stack(&[1, 2, 3, 4]);
    assert!(reorder(&mut p, &idv(&[3, 1])));
    assert_eq!(ids(&p), vec![3, 1, 2, 4]);
    let mut q = stack(&[1, 2, 3, 4]);
    assert!(!reorder(&mut q, &idv(&[3, 9, 1])));
    assert_eq!(ids(&q), vec![3, 2, 1, 4]);
}
