use bevy_prng::WyRand;
use rand::SeedableRng;
use rmtg::sync::{
    bookkeeping_step, update_applies, Bookkeeping, Held, SyncAction, gather_updates, ObjectState, PeerId, Phys, Pos, Rot, Sent, SyncCount, SyncEntry, SyncObject,
    SyncObjectMe, Trans,
};

fn obj(user: u64, id: u64) -> SyncObject {
    SyncObject { user: PeerId(user), id: SyncObjectMe(id) }
}

fn entry(id: u64, follow: bool) -> SyncEntry {
    let t = Trans::from([1, 2, 3], [4, 5, 6, 7]);
    let p = Phys { vel: (0, 0, 0), ang: (0, 0, 0) };
    (SyncObjectMe(id), t, p, false, follow)
}

#[test]
fn object_key_packs_user_above_id() {
    assert_eq!(obj(1, 2).key(), (1u128 << 64) + 2);
    assert_eq!(obj(u64::MAX, u64::MAX).key(), u128::MAX);
    assert_ne!(obj(1, 0).key(), obj(0, 1).key());
}

#[test]
fn rotation_packs_and_unpacks() {
    let r = Rot::from([1, 2, 3, 4]);
    assert_eq!(r.0, 1 | (2u128 << 32) | (3u128 << 64) | (4u128 << 96));
    assert_eq!(r.parts(), [1, 2, 3, 4]);
    let q = [u32::MAX, 0, 7, 0x8000_0000];
    assert_eq!(Rot::from(q).parts(), q);
}

#[test]
fn rotation_bits_match_quaternion_layout() {
    let q = [0.5f32, -0.5, 0.25, 1.0];
    let bits = q.map(f32::to_bits);
    let r = Rot::from(bits);
    let mut bytes = [0u8; 16];
    for (k, b) in bits.iter().enumerate() {
        bytes[4 * k..4 * k + 4].copy_from_slice(&b.to_le_bytes());
    }
    assert_eq!(r.0, u128::from_le_bytes(bytes));
}

#[test]
fn placement_from_bits() {
    let t = Trans::from([1, 2, 3], [4, 5, 6, 7]);
    assert_eq!(t.translation, Pos(1, 2, 3));
    assert_eq!(t.rotation.parts(), [4, 5, 6, 7]);
    assert_eq!(Trans::from_transform([1, 2, 3], [4, 5, 6, 7]), t);
}

#[test]
fn sync_count_counts_and_keeps_buffer() {
    let mut c = SyncCount::new();
    c.add(3);
    assert_eq!(c.count, 3);
    c.rem(1);
    assert_eq!(c.count, 2);
    let mut v = c.take();
    assert!(v.is_empty());
    v.push(entry(1, false));
    c.give(v);
    assert_eq!(c.vec.len(), 1);
    let v = c.take();
    assert_eq!(v.len(), 1);
    assert!(c.vec.is_empty());
    assert_eq!(c.count, 2);
}

#[test]
fn new_object_counts_one_more() {
    let mut rng = WyRand::seed_from_u64(3);
    let mut c = SyncCount::new();
    let a = SyncObjectMe::new(&mut rng, &mut c);
    let b = SyncObjectMe::new(&mut rng, &mut c);
    assert_eq!(c.count, 2);
    assert_ne!(a, b);
}

#[test]
fn request_then_ack_clears_the_record() {
    let mut s = Sent::new();
    let o = obj(5, 6);
    assert!(!s.has(&o));
    assert!(s.add(o));
    assert!(s.has(&o));
    assert!(!s.add(o));
    assert!(s.del(o));
    assert!(!s.has(&o));
    assert!(s.0.is_empty());
}

#[test]
fn ack_before_request_cancels() {
    let mut s = Sent::new();
    let o = obj(5, 7);
    assert!(!s.del(o));
    assert!(!s.has(&o));
    assert_eq!(s.0.len(), 1);
    assert!(s.add(o));
    assert!(s.0.is_empty());
}

#[test]
fn forgetting_a_request() {
    let mut s = Sent::new();
    let o = obj(1, 1);
    s.add(o);
    s.rem(&o);
    assert!(!s.has(&o));
    assert!(s.0.is_empty());
}

#[test]
fn updates_go_out_when_awake_following_or_forced() {
    let states: Vec<ObjectState> = vec![
        (entry(1, false), true),
        (entry(2, false), false),
        (entry(3, true), true),
    ];
    let out = gather_updates(vec![], &states, false);
    assert_eq!(out.iter().map(|e| e.0 .0).collect::<Vec<_>>(), vec![2, 3]);
    let out = gather_updates(vec![entry(9, false)], &states, true);
    assert_eq!(out.iter().map(|e| e.0 .0).collect::<Vec<_>>(), vec![9, 1, 2, 3]);
}

#[test]
fn bookkeeping_steps() {
    let me = PeerId(1);
    let them = PeerId(2);
    let mut sent = Sent::new();
    let mut ignored = Vec::new();
    let take_mine = Bookkeeping::Take(obj(1, 5), SyncObjectMe(9));
    assert_eq!(
        bookkeeping_step(&mut sent, &mut ignored, me, them, take_mine, Held::Mine),
        SyncAction::GiveUp { received: SyncObjectMe(5), new: obj(2, 9) }
    );
    let take_copy = Bookkeeping::Take(obj(3, 4), SyncObjectMe(9));
    assert_eq!(bookkeeping_step(&mut sent, &mut ignored, me, them, take_copy, Held::Copy), SyncAction::Rename { new: obj(2, 9) });
    assert!(sent.has(&obj(3, 4)));
    let take_missing = Bookkeeping::Take(obj(3, 6), SyncObjectMe(8));
    assert_eq!(
        bookkeeping_step(&mut sent, &mut ignored, me, them, take_missing, Held::Missing),
        SyncAction::Ask { to: them, id: SyncObjectMe(8) }
    );
    assert_eq!(bookkeeping_step(&mut sent, &mut ignored, me, them, take_missing, Held::Missing), SyncAction::Nothing);
    assert_eq!(
        bookkeeping_step(&mut sent, &mut ignored, me, them, Bookkeeping::Received(SyncObjectMe(8)), Held::Missing),
        SyncAction::Nothing
    );
    assert!(!sent.has(&obj(2, 8)));
    let req = Bookkeeping::Request(SyncObjectMe(7));
    assert_eq!(bookkeeping_step(&mut sent, &mut ignored, me, them, req, Held::Mine), SyncAction::Send { to: them, id: SyncObjectMe(7) });
    assert_eq!(bookkeeping_step(&mut sent, &mut ignored, me, them, req, Held::Mine), SyncAction::Nothing);
    let gone = Bookkeeping::Request(SyncObjectMe(6));
    assert_eq!(bookkeeping_step(&mut sent, &mut ignored, me, them, gone, Held::Missing), SyncAction::Nothing);
    assert!(!sent.has(&obj(2, 6)));
    let failed = Bookkeeping::Failed(obj(4, 1));
    assert_eq!(bookkeeping_step(&mut sent, &mut ignored, me, them, failed, Held::Copy), SyncAction::Ask { to: PeerId(4), id: SyncObjectMe(1) });
    assert_eq!(bookkeeping_step(&mut sent, &mut ignored, me, them, failed, Held::Copy), SyncAction::Nothing);
}

#[test]
fn updates_of_taken_or_requested_objects_are_skipped() {
    let mut sent = Sent::new();
    let mut ignored = Vec::new();
    let take = Bookkeeping::Take(obj(3, 4), SyncObjectMe(9));
    bookkeeping_step(&mut sent, &mut ignored, PeerId(1), PeerId(2), take, Held::Copy);
    assert_eq!(ignored, vec![obj(2, 9)]);
    assert!(!update_applies(&sent, &ignored, obj(2, 9)));
    assert!(!update_applies(&sent, &ignored, obj(3, 4)));
    assert!(update_applies(&sent, &ignored, obj(2, 8)));
    bookkeeping_step(&mut sent, &mut ignored, PeerId(1), PeerId(2), Bookkeeping::Received(SyncObjectMe(1)), Held::Missing);
    assert_eq!(ignored.len(), 1);
}
