use vstd::prelude::*;

use crate::rng::next_u64;
use bevy_prng::WyRand;
use std::collections::HashMap;

verus! {

broadcast use vstd::std_specs::hash::group_hash_axioms;

/// A player's identity on the network.
#[derive(Clone, Copy, PartialEq, Eq, Structural, Hash, Debug)]
pub struct PeerId(pub u64);

/// An object this player created, numbered locally.
#[derive(Clone, Copy, PartialEq, Eq, Structural, Hash, Debug, Default)]
pub struct SyncObjectMe(pub u64);

/// An object of the shared table: who created it and their number for it.
#[derive(Clone, Copy, PartialEq, Eq, Structural, Hash, Debug)]
pub struct SyncObject {
    pub user: PeerId,
    pub id: SyncObjectMe,
}

impl SyncObject {
    /// The object as one number: the creator above, their number below.
    pub open spec fn spec_key(self) -> u128 {
        (self.user.0 as int * 0x1_0000_0000_0000_0000 + self.id.0 as int) as u128
    }

    pub fn key(&self) -> (r: u128)
        ensures
            r == self.spec_key(),
    {
        let r = (self.user.0 as u128) * 0x1_0000_0000_0000_0000 + (self.id.0 as u128);
        assert(self.user.0 as int * 0x1_0000_0000_0000_0000 + self.id.0 as int <= u128::MAX)
            by (nonlinear_arith);
        r
    }
}

/// Two objects with the same number are the same object.
pub proof fn law_key_identifies(a: SyncObject, b: SyncObject)
    requires
        a.spec_key() == b.spec_key(),
    ensures
        a == b,
{
    let ka = a.user.0 as int * 0x1_0000_0000_0000_0000 + a.id.0 as int;
    let kb = b.user.0 as int * 0x1_0000_0000_0000_0000 + b.id.0 as int;
    assert(0 <= ka <= u128::MAX) by (nonlinear_arith)
        requires
            ka == a.user.0 as int * 0x1_0000_0000_0000_0000 + a.id.0 as int,
    ;
    assert(0 <= kb <= u128::MAX) by (nonlinear_arith)
        requires
            kb == b.user.0 as int * 0x1_0000_0000_0000_0000 + b.id.0 as int,
    ;
    assert(ka == kb);
    assert(a.user.0 == b.user.0 && a.id.0 == b.id.0) by (nonlinear_arith)
        requires
            a.user.0 as int * 0x1_0000_0000_0000_0000 + a.id.0 as int == b.user.0 as int
                * 0x1_0000_0000_0000_0000 + b.id.0 as int,
            0 <= a.id.0 < 0x1_0000_0000_0000_0000,
            0 <= b.id.0 < 0x1_0000_0000_0000_0000,
    ;
}

/// A position: the bits of its three coordinates, `x`, `y`, `z`.
#[derive(Clone, Copy, PartialEq, Eq, Structural, Debug)]
pub struct Pos(pub u32, pub u32, pub u32);

/// A rotation: the bits of its four quaternion parts packed into one
/// number, `x` lowest, then `y`, `z` and `w` highest.
#[derive(Clone, Copy, PartialEq, Eq, Structural, Debug)]
pub struct Rot(pub u128);

/// A placement sent to the other players.
#[derive(Clone, Copy, PartialEq, Eq, Structural, Debug)]
pub struct Trans {
    pub translation: Pos,
    pub rotation: Rot,
}

/// Linear and angular velocity: the bits of their three parts each.
#[derive(Clone, Copy, Debug)]
pub struct Phys {
    pub vel: (u32, u32, u32),
    pub ang: (u32, u32, u32),
}

/// The number the four quaternion parts pack into.
pub open spec fn pack(q: [u32; 4]) -> u128 {
    (q[0] as u128) | ((q[1] as u128) << 32u128) | ((q[2] as u128) << 64u128) | ((q[3] as u128)
        << 96u128)
}

impl Rot {
    /// Packs the bits of the quaternion parts `[x, y, z, w]`.
    pub fn from(q: [u32; 4]) -> (r: Rot)
        ensures
            r.0 == pack(q),
    {
        Rot(
            (q[0] as u128) | ((q[1] as u128) << 32u128) | ((q[2] as u128) << 64u128) | ((
            q[3] as u128) << 96u128),
        )
    }

    /// The bits of the quaternion parts `[x, y, z, w]`.
    pub fn parts(&self) -> (r: [u32; 4])
        ensures
            pack(r) == self.0,
    {
        let v = self.0;
        let x = v as u32;
        let y = (v >> 32u128) as u32;
        let z = (v >> 64u128) as u32;
        let w = (v >> 96u128) as u32;
        assert(((x as u128) | ((y as u128) << 32u128) | ((z as u128) << 64u128) | ((w as u128)
            << 96u128)) == v) by (bit_vector)
            requires
                x == v as u32,
                y == (v >> 32u128) as u32,
                z == (v >> 64u128) as u32,
                w == (v >> 96u128) as u32,
        ;
        [x, y, z, w]
    }
}

/// Packing the quaternion parts and reading them back gives the same parts.
pub proof fn law_rot_round_trip(q: [u32; 4])
    ensures
        (pack(q) as u32) == q[0],
        ((pack(q) >> 32u128) as u32) == q[1],
        ((pack(q) >> 64u128) as u32) == q[2],
        ((pack(q) >> 96u128) as u32) == q[3],
{
    let (a, b, c, d) = (q[0], q[1], q[2], q[3]);
    assert(((a as u128) | ((b as u128) << 32u128) | ((c as u128) << 64u128) | ((d as u128)
        << 96u128)) as u32 == a) by (bit_vector);
    assert((((a as u128) | ((b as u128) << 32u128) | ((c as u128) << 64u128) | ((d as u128)
        << 96u128)) >> 32u128) as u32 == b) by (bit_vector);
    assert((((a as u128) | ((b as u128) << 32u128) | ((c as u128) << 64u128) | ((d as u128)
        << 96u128)) >> 64u128) as u32 == c) by (bit_vector);
    assert((((a as u128) | ((b as u128) << 32u128) | ((c as u128) << 64u128) | ((d as u128)
        << 96u128)) >> 96u128) as u32 == d) by (bit_vector);
}

impl Trans {
    /// The placement with the bits of a translation `[x, y, z]` and of a
    /// rotation's quaternion parts `[x, y, z, w]`.
    pub fn from(translation: [u32; 3], rotation: [u32; 4]) -> (r: Trans)
        ensures
            r.translation == Pos(translation[0], translation[1], translation[2]),
            r.rotation.0 == pack(rotation),
    {
        Trans {
            translation: Pos(translation[0], translation[1], translation[2]),
            rotation: Rot::from(rotation),
        }
    }

    /// The placement of a local transform, given as the same bits as for
    /// `from`.
    pub fn from_transform(translation: [u32; 3], rotation: [u32; 4]) -> (r: Trans)
        ensures
            r.translation == Pos(translation[0], translation[1], translation[2]),
            r.rotation.0 == pack(rotation),
    {
        Self::from(translation, rotation)
    }
}

/// One object's update for the other players: what it is, where, how it
/// moves, whether it is in its owner's hand, and whether it follows its
/// owner's mouse.
pub type SyncEntry = (SyncObjectMe, Trans, Phys, bool, bool);

/// How many objects this player has created, with the buffer their
/// updates are gathered in.
pub struct SyncCount {
    pub vec: Vec<SyncEntry>,
    pub count: usize,
}

impl SyncCount {
    pub fn new() -> (r: SyncCount)
        ensures
            r.count == 0,
            r.vec@ == Seq::<SyncEntry>::empty(),
    {
        SyncCount { vec: Vec::new(), count: 0 }
    }

    /// Counts `n` more objects; the buffer keeps room for an update of each.
    pub fn add(&mut self, n: usize)
        requires
            old(self).count + n <= usize::MAX,
        ensures
            final(self).count == old(self).count + n,
            final(self).vec@ == old(self).vec@,
    {
        self.count = self.count + n;
        self.vec.reserve(self.count);
    }

    /// Counts `n` fewer objects.
    pub fn rem(&mut self, n: usize)
        requires
            n <= old(self).count,
        ensures
            final(self).count == old(self).count - n,
            final(self).vec@ == old(self).vec@,
    {
        self.count = self.count - n;
    }

    /// Takes the buffer out, leaving an empty one.
    pub fn take(&mut self) -> (r: Vec<SyncEntry>)
        ensures
            r@ == old(self).vec@,
            final(self).vec@ == Seq::<SyncEntry>::empty(),
            final(self).count == old(self).count,
    {
        let mut v = Vec::new();
        std::mem::swap(&mut v, &mut self.vec);
        v
    }

    /// Puts a buffer back.
    pub fn give(&mut self, vec: Vec<SyncEntry>)
        ensures
            final(self).vec@ == vec@,
            final(self).count == old(self).count,
    {
        self.vec = vec;
    }
}

impl SyncObjectMe {
    /// A fresh number for a new object of this player, who now has one more.
    pub fn new(rand: &mut WyRand, count: &mut SyncCount) -> (r: SyncObjectMe)
        requires
            old(count).count < usize::MAX,
        ensures
            final(count).count == old(count).count + 1,
            final(count).vec@ == old(count).vec@,
    {
        count.add(1);
        SyncObjectMe(next_u64(rand))
    }
}

/// Which requests for objects are in flight: an object maps to `true` once
/// this player asked for it, and to `false` when its acknowledgment came
/// before the request was recorded.
pub struct Sent(pub HashMap<u128, bool>);

/// What `Sent::add` does.
pub open spec fn sent_add_spec(before: Map<u128, bool>, key: u128, r: bool, after: Map<u128, bool>) -> bool {
    &&& before.dom().contains(key) && before[key] ==> !r && after == before
    &&& before.dom().contains(key) && !before[key] ==> r && after == before.remove(key)
    &&& !before.dom().contains(key) ==> r && after == before.insert(key, true)
}

/// What `Sent::del` does.
pub open spec fn sent_del_spec(before: Map<u128, bool>, key: u128, r: bool, after: Map<u128, bool>) -> bool {
    &&& before.dom().contains(key) ==> r && after == before.remove(key)
    &&& !before.dom().contains(key) ==> !r && after == before.insert(key, false)
}

impl Sent {
    pub open spec fn view(&self) -> Map<u128, bool> {
        self.0@
    }

    pub fn new() -> (r: Sent)
        ensures
            r@ == Map::<u128, bool>::empty(),
    {
        Sent(HashMap::new())
    }

    /// Records a request for `key`; answers whether a request should go out:
    /// not when one is already in flight, and yes (clearing the record) when
    /// the acknowledgment already came.
    pub fn add(&mut self, key: SyncObject) -> (r: bool)
        ensures
            sent_add_spec(old(self)@, key.spec_key(), r, final(self)@),
    {
        let k = key.key();
        let ghost before = self@;
        match self.0.insert(k, true) {
            Some(b) => {
                if b {
                    assert(before.insert(k, true) =~= before);
                    false
                } else {
                    self.0.remove(&k);
                    assert(before.insert(k, true).remove(k) =~= before.remove(k));
                    true
                }
            },
            None => true,
        }
    }

    /// Records the acknowledgment for `key`; answers whether a request was
    /// in flight (and clears it), or else remembers that it came first.
    pub fn del(&mut self, key: SyncObject) -> (r: bool)
        ensures
            sent_del_spec(old(self)@, key.spec_key(), r, final(self)@),
    {
        let k = key.key();
        let ghost before = self@;
        match self.0.remove(&k) {
            Some(_) => true,
            None => {
                assert(before.remove(k) =~= before);
                self.0.insert(k, false);
                false
            },
        }
    }

    /// Forgets `key`.
    pub fn rem(&mut self, key: &SyncObject)
        ensures
            final(self)@ == old(self)@.remove(key.spec_key()),
    {
        let k = key.key();
        self.0.remove(&k);
    }

    /// Whether a request for `key` is in flight.
    pub fn has(&self, key: &SyncObject) -> (r: bool)
        ensures
            r == (self@.dom().contains(key.spec_key()) && self@[key.spec_key()]),
    {
        let k = key.key();
        match self.0.get(&k) {
            Some(b) => *b,
            None => false,
        }
    }
}

/// A request and its acknowledgment cancel out, whichever comes first: the
/// record of an object not pending before is gone again after both.
pub proof fn law_sent_request_ack(
    m0: Map<u128, bool>,
    m1: Map<u128, bool>,
    m2: Map<u128, bool>,
    key: u128,
    r1: bool,
    r2: bool,
    ack_first: bool,
)
    requires
        !m0.dom().contains(key),
        ack_first ==> sent_del_spec(m0, key, r1, m1) && sent_add_spec(m1, key, r2, m2),
        !ack_first ==> sent_add_spec(m0, key, r1, m1) && sent_del_spec(m1, key, r2, m2),
    ensures
        m2 == m0,
        ack_first ==> !r1 && r2,
        !ack_first ==> r1 && r2,
{
    assert(m0.insert(key, false).remove(key) =~= m0);
    assert(m0.insert(key, true).remove(key) =~= m0);
}


/// A bookkeeping message of the sync, or an edit that failed here.
#[derive(Clone, Copy, PartialEq, Eq, Structural, Debug)]
pub enum Bookkeeping {
    /// The sender took the object `0` over and numbers it `1`.
    Take(SyncObject, SyncObjectMe),
    /// The sender asks for this player's object.
    Request(SyncObjectMe),
    /// The sender acknowledges an object of theirs this player asked for.
    Received(SyncObjectMe),
    /// An edit of the object could not be applied to this player's copy.
    Failed(SyncObject),
}

/// What the table holds of the object a message names: it is this player's
/// own, a copy of another player's, or not there.
#[derive(Clone, Copy, PartialEq, Eq, Structural, Debug)]
pub enum Held {
    Mine,
    Copy,
    Missing,
}

/// What a player does after a bookkeeping message.
#[derive(Clone, Copy, PartialEq, Eq, Structural, Debug)]
pub enum SyncAction {
    Nothing,
    /// Tell everyone the object `received` is handed over, and hold it from
    /// now on as the copy `new`.
    GiveUp { received: SyncObjectMe, new: SyncObject },
    /// Hold the copy from now on as `new`.
    Rename { new: SyncObject },
    /// Ask the player `to` for their object `id`.
    Ask { to: PeerId, id: SyncObjectMe },
    /// Send this player's object `id` to the player `to`.
    Send { to: PeerId, id: SyncObjectMe },
}

/// What a bookkeeping message from `sender` does, for the player `me`, to
/// the requests in flight (`before` to `after`) and what is done next:
/// - a take of one of `me`'s objects hands it over;
/// - a take of an object `me` holds a copy of records a request for the old
///   object and renames the copy;
/// - a take of an object `me` lacks asks the sender for it, unless a request
///   is already in flight;
/// - a request for an object sends it, when it is `me`'s and no request for
///   it is recorded; a request for a missing object leaves no record;
/// - an acknowledgment is recorded;
/// - a failed edit asks the object's owner for it, unless a request is
///   already in flight.
pub open spec fn bookkeeping_spec(
    before: Map<u128, bool>,
    me: PeerId,
    sender: PeerId,
    msg: Bookkeeping,
    held: Held,
    after: Map<u128, bool>,
    r: SyncAction,
) -> bool {
    match msg {
        Bookkeeping::Take(from, to) => {
            let new = SyncObject { user: sender, id: to };
            if from.user == me {
                after == before && r == SyncAction::GiveUp { received: from.id, new }
            } else if held == Held::Copy {
                after == added(before, from.spec_key()) && r == SyncAction::Rename { new }
            } else {
                after == added(before, new.spec_key()) && r == (if asks(before, new.spec_key()) {
                    SyncAction::Ask { to: sender, id: to }
                } else {
                    SyncAction::Nothing
                })
            }
        },
        Bookkeeping::Request(lid) => {
            let key = SyncObject { user: sender, id: lid }.spec_key();
            if !asks(before, key) {
                after == before && r == SyncAction::Nothing
            } else if held == Held::Mine {
                after == added(before, key) && r == SyncAction::Send { to: sender, id: lid }
            } else {
                after == added(before, key).remove(key) && r == SyncAction::Nothing
            }
        },
        Bookkeeping::Received(lid) => {
            let key = SyncObject { user: sender, id: lid }.spec_key();
            r == SyncAction::Nothing && after == (if before.dom().contains(key) {
                before.remove(key)
            } else {
                before.insert(key, false)
            })
        },
        Bookkeeping::Failed(id) => {
            after == added(before, id.spec_key()) && r == (if asks(before, id.spec_key()) {
                SyncAction::Ask { to: id.user, id: id.id }
            } else {
                SyncAction::Nothing
            })
        },
    }
}

/// Whether recording a request for `key` answers that it should go out:
/// unless one is already in flight.
pub open spec fn asks(m: Map<u128, bool>, key: u128) -> bool {
    !(m.dom().contains(key) && m[key])
}

/// The requests in flight after recording one for `key` (see `Sent::add`).
pub open spec fn added(m: Map<u128, bool>, key: u128) -> Map<u128, bool> {
    if m.dom().contains(key) && m[key] {
        m
    } else if m.dom().contains(key) {
        m.remove(key)
    } else {
        m.insert(key, true)
    }
}

/// Handles a bookkeeping message from `sender` for the player `me`, given
/// what the table holds of the object it names; the caller performs the
/// action returned. A take also puts the object under its new name among
/// those whose position updates are ignored for the rest of the messages
/// received with it (`ignored`).
pub fn bookkeeping_step(
    sent: &mut Sent,
    ignored: &mut Vec<SyncObject>,
    me: PeerId,
    sender: PeerId,
    msg: Bookkeeping,
    held: Held,
) -> (r: SyncAction)
    ensures
        bookkeeping_spec(old(sent)@, me, sender, msg, held, final(sent)@, r),
        final(ignored)@ == (match msg {
            Bookkeeping::Take(_, to) => old(ignored)@.push(SyncObject { user: sender, id: to }),
            _ => old(ignored)@,
        }),
{
    match msg {
        Bookkeeping::Take(from, to) => {
            let new = SyncObject { user: sender, id: to };
            ignored.push(new);
            if from.user == me {
                SyncAction::GiveUp { received: from.id, new }
            } else if held == Held::Copy {
                sent.add(from);
                SyncAction::Rename { new }
            } else if sent.add(new) {
                SyncAction::Ask { to: sender, id: to }
            } else {
                SyncAction::Nothing
            }
        },
        Bookkeeping::Request(lid) => {
            let id = SyncObject { user: sender, id: lid };
            if sent.add(id) {
                if held == Held::Mine {
                    SyncAction::Send { to: sender, id: lid }
                } else {
                    sent.rem(&id);
                    SyncAction::Nothing
                }
            } else {
                SyncAction::Nothing
            }
        },
        Bookkeeping::Received(lid) => {
            sent.del(SyncObject { user: sender, id: lid });
            SyncAction::Nothing
        },
        Bookkeeping::Failed(id) => {
            if sent.add(id) {
                SyncAction::Ask { to: id.user, id: id.id }
            } else {
                SyncAction::Nothing
            }
        },
    }
}

/// Whether a position update for `id` is applied: not while a request for
/// the object is in flight, nor when the object was just taken over.
pub fn update_applies(sent: &Sent, ignored: &Vec<SyncObject>, id: SyncObject) -> (r: bool)
    ensures
        r == !((sent@.dom().contains(id.spec_key()) && sent@[id.spec_key()]) || ignored@.contains(id)),
{
    if sent.has(&id) {
        return false;
    }
    for i in 0..ignored.len()
        invariant
            forall|k: int| 0 <= k < i ==> ignored@[k] != id,
    {
        if ignored[i] == id {
            assert(ignored@[i as int] == id);
            return false;
        }
    }
    true
}

/// An object's update with whether the physics engine has put it to sleep.
pub type ObjectState = (SyncEntry, bool);

/// Whether an object's update goes out: when sleeping objects are to be
/// sent again (after someone joined), when it is awake, or when it follows
/// its owner's mouse.
pub open spec fn update_goes_out(state: ObjectState, send_sleep: bool) -> bool {
    send_sleep || !state.1 || (state.0).4
}

/// The updates of the objects whose update goes out, in order.
pub open spec fn outgoing(states: Seq<ObjectState>, send_sleep: bool) -> Seq<SyncEntry>
    decreases states.len(),
{
    if states.len() == 0 {
        Seq::empty()
    } else {
        let rest = outgoing(states.drop_last(), send_sleep);
        if update_goes_out(states.last(), send_sleep) {
            rest.push(states.last().0)
        } else {
            rest
        }
    }
}

/// Gathers into the buffer the updates of this player's objects that go
/// out (see `update_goes_out`).
pub fn gather_updates(buf: Vec<SyncEntry>, states: &Vec<ObjectState>, send_sleep: bool) -> (r: Vec<
    SyncEntry,
>)
    ensures
        r@ == buf@ + outgoing(states@, send_sleep),
{
    let mut r = buf;
    let ghost b = r@;
    let mut i: usize = 0;
    while i < states.len()
        invariant
            i <= states@.len(),
            r@ == b + outgoing(states@.subrange(0, i as int), send_sleep),
        decreases states@.len() - i,
    {
        assert(states@.subrange(0, i + 1 as int).drop_last() =~= states@.subrange(0, i as int));
        let s = states[i];
        if send_sleep || !s.1 || (s.0).4 {
            r.push(s.0);
        }
        i = i + 1;
    }
    assert(states@.subrange(0, states@.len() as int) =~= states@);
    r
}

} // verus!
