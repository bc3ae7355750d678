use bevy_prng::WyRand;
use rand::SeedableRng;
use rmtg::card::{Card, CardData, CardInfo, Id, Layout, SubCard, Value};
use rmtg::cost::{ColorIdentity, Cost};
use rmtg::pile::Pile;
use rmtg::types::{MainTypes, SubTypes, SuperTypes, Types};

fn info(name: &str) -> CardInfo {
    CardInfo {
        name: name.to_string(),
        mana_cost: Cost::default(),
        card_type: Types {
            super_type: SuperTypes(vec![]),
            main_type: MainTypes(vec![]),
            sub_type: SubTypes(vec![]),
        },
        text: String::new(),
        color: ColorIdentity::default(),
        power: None,
        toughness: None,
        loyalty: None,
    }
}

fn card(n: u128) -> SubCard {
    SubCard {
        id: Id(n),
        tokens: vec![],
        data: CardData { face: info("card"), back: None, layout: Layout::Normal },
        flipped: false,
    }
}

fn stack(ids: &[u128]) -> Pile {
    Pile::Multiple(ids.iter().map(|n| card(*n)).collect())
}

fn ids(p: &Pile) -> Vec<u128> {
    p.ids().iter().map(|i| i.0).collect()
}

#[test]
fn new_pile_of_one_is_lone_plain_card() {
    let p = Pile::new(vec![card(4)]);
    match &p {
        Pile::Single(c) => {
            assert_eq!(c.subcard.id, Id(4));
            assert!(c.equiped.is_empty());
            assert!(!c.is_token);
            assert!(!c.has_counters());
        },
        _ => panic!("expected a lone card"),
    }
    assert!(matches!(Pile::new(vec![]), Pile::Multiple(ref v) if v.is_empty()));
    assert_eq!(ids(&Pile::new(vec![card(1), card(2)])), vec![1, 2]);
}

#[test]
fn len_counts_lone_card_once() {
    let mut p = stack(&[1, 2, 3]);
    assert!(p.equip());
    assert_eq!(p.len(), 1);
    assert!(!p.is_empty());
    assert!(Pile::Empty.is_empty());
    assert_eq!(Pile::Empty.len(), 0);
    assert!(stack(&[]).is_empty());
}

#[test]
fn equip_makes_top_card_the_face() {
    let mut p = stack(&[1, 2, 3]);
    assert!(p.equip());
    match &p {
        Pile::Single(c) => {
            assert_eq!(c.subcard.id, Id(3));
            assert_eq!(c.equiped.iter().map(|s| s.id.0).collect::<Vec<_>>(), vec![1, 2]);
        },
        _ => panic!("expected a lone card"),
    }
    assert!(p.is_equiped());
    assert!(p.is_modified());
    assert_eq!(ids(&p), vec![3, 1, 2]);
}

#[test]
fn equip_twice_gives_the_stack_back() {
    let mut p = stack(&[5, 6, 7]);
    assert!(p.equip());
    assert!(!p.equip());
    assert!(matches!(p, Pile::Multiple(_)));
    assert_eq!(ids(&p), vec![5, 6, 7]);
}

#[test]
fn equip_plain_lone_card_keeps_it() {
    let mut p = Pile::new(vec![card(9)]);
    assert!(!p.equip());
    assert!(matches!(p, Pile::Single(_)));
    assert!(!p.is_equiped());
}

#[test]
fn take_card_from_top_or_bottom() {
    let mut p = stack(&[1, 2, 3]);
    assert_eq!(p.take_card(false).id, Id(3));
    assert_eq!(ids(&p), vec![1, 2]);
    assert_eq!(p.take_card(true).id, Id(1));
    assert_eq!(ids(&p), vec![2]);
    assert!(matches!(p, Pile::Multiple(_)));
    let mut lone = Pile::new(vec![card(8)]);
    assert_eq!(lone.take_card(true).id, Id(8));
    assert!(matches!(lone, Pile::Empty));
}

#[test]
fn draw_then_put_back_restores_stack() {
    let mut p = stack(&[1, 2, 3]);
    let c = p.take_card(false);
    let n = p.len();
    p.insert(n, c);
    assert_eq!(ids(&p), vec![1, 2, 3]);
    let c = p.take_card(true);
    p.insert(0, c);
    assert_eq!(ids(&p), vec![1, 2, 3]);
}

#[test]
fn take_n_card_orders() {
    let mut p = stack(&[1, 2, 3, 4]);
    let top: Vec<u128> = p.take_n_card(false, 2).iter().map(|c| c.id.0).collect();
    assert_eq!(top, vec![4, 3]);
    assert_eq!(ids(&p), vec![1, 2]);
    let mut q = stack(&[1, 2, 3, 4]);
    let bottom: Vec<u128> = q.take_n_card(true, 9).iter().map(|c| c.id.0).collect();
    assert_eq!(bottom, vec![1, 2, 3, 4]);
    assert!(q.is_empty());
}

#[test]
fn pop_remove_insert() {
    let mut p = stack(&[1, 2, 3]);
    assert_eq!(p.pop().id, Id(3));
    assert_eq!(p.remove(0).id, Id(1));
    assert_eq!(ids(&p), vec![2]);
    p.insert(1, card(9));
    assert_eq!(ids(&p), vec![2, 9]);
    let mut lone = Pile::new(vec![card(5)]);
    lone.insert(1, card(6));
    assert_eq!(ids(&lone), vec![5, 6]);
    let mut lone = Pile::new(vec![card(5)]);
    lone.insert(0, card(6));
    assert_eq!(ids(&lone), vec![6, 5]);
}

#[test]
fn drain_extend_splice() {
    let mut p = stack(&[1, 2, 3, 4, 5]);
    let out: Vec<u128> = p.drain(1, 3).iter().map(|c| c.id.0).collect();
    assert_eq!(out, vec![2, 3]);
    assert_eq!(ids(&p), vec![1, 4, 5]);
    p.extend(stack(&[6]));
    assert_eq!(ids(&p), vec![1, 4, 5, 6]);
    p.extend_start(stack(&[0]));
    assert_eq!(ids(&p), vec![0, 1, 4, 5, 6]);
    p.splice_at(2, stack(&[7, 8]));
    assert_eq!(ids(&p), vec![0, 1, 7, 8, 4, 5, 6]);
    let mut lone = Pile::new(vec![card(3)]);
    let out: Vec<u128> = lone.drain(0, 1).iter().map(|c| c.id.0).collect();
    assert_eq!(out, vec![3]);
    assert!(matches!(lone, Pile::Empty));
}

#[test]
fn merge_lays_card_on_top_as_face() {
    let mut base = stack(&[1, 2]);
    let mut top = Card::from(card(9));
    top.power = Some(Value(3));
    top.equiped.push(card(8));
    base.merge(Pile::Single(Box::new(top)));
    match &base {
        Pile::Single(c) => {
            assert_eq!(c.subcard.id, Id(9));
            assert_eq!(c.equiped.iter().map(|s| s.id.0).collect::<Vec<_>>(), vec![1, 2, 8]);
            assert_eq!(c.power, Some(Value(3)));
        },
        _ => panic!("expected a lone card"),
    }
}

#[test]
fn shuffle_keeps_the_cards() {
    let mut rng = WyRand::seed_from_u64(11);
    let mut p = stack(&[1, 2, 3, 4, 5, 6, 7, 8]);
    p.shuffle(&mut rng);
    let mut got = ids(&p);
    got.sort();
    assert_eq!(got, vec![1, 2, 3, 4, 5, 6, 7, 8]);
    let mut lone = Pile::new(vec![card(4)]);
    lone.shuffle(&mut rng);
    assert_eq!(ids(&lone), vec![4]);
}

#[test]
fn set_single_breaks_lone_card_into_stack() {
    let mut lone = Pile::new(vec![card(2)]);
    lone.set_single();
    assert!(matches!(lone, Pile::Multiple(ref v) if v.len() == 1));
    let mut s = stack(&[1, 2]);
    s.set_single();
    assert_eq!(ids(&s), vec![1, 2]);
}

#[test]
fn first_last_get_card() {
    let p = stack(&[1, 2, 3]);
    assert_eq!(p.first().id, Id(1));
    assert_eq!(p.last().id, Id(3));
    assert_eq!(p.get_card(true).id, Id(1));
    assert_eq!(p.get_card(false).id, Id(3));
    assert_eq!(p.get(1).map(|c| c.id), Some(Id(2)));
    assert!(p.get(3).is_none());
}

#[test]
fn counters_mark_a_lone_card_modified() {
    let mut c = Card::from(card(1));
    assert!(!c.is_modified());
    c.loyalty = Some(Value(4));
    assert!(c.has_counters());
    assert!(c.is_modified());
    let p = Pile::Single(Box::new(c));
    assert!(p.has_counters());
    assert!(p.is_modified());
    assert!(!p.is_equiped());
}

#[test]
fn card_get_and_flatten() {
    let mut c = Card::from(card(1));
    c.equiped.push(card(2));
    assert_eq!(c.get(0).map(|s| s.id), Some(Id(1)));
    assert_eq!(c.get(1).map(|s| s.id), Some(Id(2)));
    assert!(c.get(2).is_none());
    let flat: Vec<u128> = c.flatten().iter().map(|s| s.id.0).collect();
    assert_eq!(flat, vec![2, 1]);
}

#[test]
fn face_and_back_follow_flipped() {
    let mut c = card(1);
    c.data.back = Some(info("other"));
    assert_eq!(c.face().name, "card");
    assert_eq!(c.back().map(|b| b.name.clone()), Some("other".to_string()));
    c.flipped = true;
    assert_eq!(c.face().name, "other");
    assert_eq!(c.back().map(|b| b.name.clone()), Some("card".to_string()));
}

#[test]
fn copies_keep_cards_but_not_counters() {
    let mut first = card(1);
    first.tokens = vec![Id(9)];
    first.data.back = Some(info("other"));
    first.flipped = true;
    let copy = first.clone_no_image();
    assert_eq!(copy.id, Id(1));
    assert_eq!(copy.tokens, vec![Id(9)]);
    assert!(copy.flipped);
    assert_eq!(copy.data.back.map(|b| b.name), Some("other".to_string()));
    let stack_copy = stack(&[3, 1, 2]).clone_no_image();
    assert_eq!(ids(&stack_copy), vec![3, 1, 2]);
    let mut c = Card::from(card(5));
    c.equiped.push(card(6));
    c.power = Some(Value(3));
    c.is_token = true;
    match Pile::Single(Box::new(c)).clone_no_image() {
        Pile::Single(d) => {
            assert_eq!(d.subcard.id, Id(5));
            assert_eq!(d.equiped.len(), 1);
            assert_eq!(d.equiped[0].id, Id(6));
            assert!(!d.has_counters());
            assert!(!d.is_token);
        },
        _ => panic!("expected a lone card"),
    }
    assert!(Pile::Empty.clone_no_image().is_empty());
}
