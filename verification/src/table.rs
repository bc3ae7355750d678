use vstd::prelude::*;

verus! {

/// Width of a card image, in pixels.
pub const IMAGE_WIDTH: i32 = 500;

/// Height of a card image, in pixels.
pub const IMAGE_HEIGHT: i32 = 700;

/// The quarter turn, `0` to `3`, reached from quarter `n` by one more.
pub open spec fn quarter_after(n: int) -> int {
    (n + 1) % 4
}

/// The quarter turn, `0` to `3`, reached from quarter `n` by one less.
pub open spec fn quarter_before(n: int) -> int {
    (n - 1) % 4
}

/// `q` taken modulo four, for any sign of `q`.
fn wrap_quarter(q: i128) -> (r: isize)
    ensures
        r == q % 4,
        0 <= r < 4,
{
    if q >= 0 {
        let m = q % 4;
        m as isize
    } else {
        let k = -(q + 1);
        let p = k % 4;
        assert((-(k + 1)) % 4 == 3 - k % 4) by (nonlinear_arith)
            requires
                k >= 0,
        ;
        (3 - p) as isize
    }
}

/// The resting quarter turn of a card after turning it left once: one more
/// quarter, counted modulo four. The quarter may come in as any integer
/// (the angle it was measured from is rounded to the nearest quarter).
pub fn rotate_left(quarter: isize) -> (r: isize)
    ensures
        r == quarter_after(quarter as int),
        0 <= r < 4,
{
    wrap_quarter(quarter as i128 + 1)
}

/// The resting quarter turn of a card after turning it right once: one less
/// quarter, counted modulo four.
pub fn rotate_right(quarter: isize) -> (r: isize)
    ensures
        r == quarter_before(quarter as int),
        0 <= r < 4,
{
    wrap_quarter(quarter as i128 - 1)
}

/// Turning left and then right, or right and then left, comes back to the
/// quarter one started from.
pub proof fn law_rotate_left_right(n: int)
    ensures
        quarter_before(quarter_after(n)) == n % 4,
        quarter_after(quarter_before(n)) == n % 4,
{
    assert(((n + 1) % 4 - 1) % 4 == n % 4) by (nonlinear_arith);
    assert(((n - 1) % 4 + 1) % 4 == n % 4) by (nonlinear_arith);
}

/// Four turns to the same side come back to the quarter one started from.
pub proof fn law_four_turns(n: int)
    ensures
        quarter_after(quarter_after(quarter_after(quarter_after(n)))) == n % 4,
        quarter_before(quarter_before(quarter_before(quarter_before(n)))) == n % 4,
{
    assert(((((n + 1) % 4 + 1) % 4 + 1) % 4 + 1) % 4 == n % 4) by (nonlinear_arith);
    assert(((((n - 1) % 4 - 1) % 4 - 1) % 4 - 1) % 4 == n % 4) by (nonlinear_arith);
}

/// The angle of a card image in the interface: one of four quarter turns.
#[derive(Clone, Copy, PartialEq, Eq, Structural, Debug)]
pub enum UiAngle {
    Zero,
    Ninety,
    OneEighty,
    TwoSeventy,
}

impl UiAngle {
    /// The angle in quarter turns.
    pub open spec fn quarters(self) -> int {
        match self {
            UiAngle::Zero => 0,
            UiAngle::Ninety => 1,
            UiAngle::OneEighty => 2,
            UiAngle::TwoSeventy => 3,
        }
    }

    /// Whether the image stands sideways at this angle.
    pub open spec fn is_sideways(self) -> bool {
        self is Ninety || self is TwoSeventy
    }
}

/// An offset in pixels.
#[derive(Clone, Copy, PartialEq, Eq, Structural, Debug)]
pub struct Offset {
    pub x: i32,
    pub y: i32,
}

/// How a card image is placed in the interface: its angle and its offset in
/// pixels.
#[derive(Clone, Copy, PartialEq, Eq, Structural, Debug)]
pub struct UiTransform {
    pub rotation: UiAngle,
    pub translation: Offset,
}

/// The offset that keeps an image of the given angle in its frame: a
/// sideways image moves by half the difference of height and width.
pub open spec fn ui_offset(a: UiAngle) -> Offset {
    if a.is_sideways() {
        Offset {
            x: ((IMAGE_HEIGHT - IMAGE_WIDTH) / 2) as i32,
            y: ((IMAGE_WIDTH - IMAGE_HEIGHT) / 2) as i32,
        }
    } else {
        Offset { x: 0, y: 0 }
    }
}

fn offset_for(a: UiAngle) -> (r: Offset)
    ensures
        r == ui_offset(a),
{
    match a {
        UiAngle::Ninety | UiAngle::TwoSeventy => Offset {
            x: (IMAGE_HEIGHT - IMAGE_WIDTH) / 2,
            y: (IMAGE_WIDTH - IMAGE_HEIGHT) / 2,
        },
        _ => Offset { x: 0, y: 0 },
    }
}

/// Turns an image a quarter turn clockwise in the interface, and moves it so
/// that it stays in its frame.
pub fn ui_rotate_right(transform: &mut UiTransform)
    ensures
        final(transform).rotation.quarters() == quarter_after(old(transform).rotation.quarters()),
        final(transform).translation == ui_offset(final(transform).rotation),
{
    let r = match transform.rotation {
        UiAngle::Zero => UiAngle::Ninety,
        UiAngle::Ninety => UiAngle::OneEighty,
        UiAngle::OneEighty => UiAngle::TwoSeventy,
        UiAngle::TwoSeventy => UiAngle::Zero,
    };
    transform.rotation = r;
    transform.translation = offset_for(r);
}

/// Turns an image a quarter turn counterclockwise in the interface, and
/// moves it so that it stays in its frame.
pub fn ui_rotate_left(transform: &mut UiTransform)
    ensures
        final(transform).rotation.quarters() == quarter_before(old(transform).rotation.quarters()),
        final(transform).translation == ui_offset(final(transform).rotation),
{
    let r = match transform.rotation {
        UiAngle::Zero => UiAngle::TwoSeventy,
        UiAngle::TwoSeventy => UiAngle::OneEighty,
        UiAngle::OneEighty => UiAngle::Ninety,
        UiAngle::Ninety => UiAngle::Zero,
    };
    transform.rotation = r;
    transform.translation = offset_for(r);
}

/// A corner of the table: on which side of each axis through its middle it
/// lies.
#[derive(Clone, Copy, PartialEq, Eq, Structural, Debug)]
pub struct Seat {
    pub x_positive: bool,
    pub z_positive: bool,
}

/// The corner a player's camera starts over: players `0` and `1` on the
/// positive `x` side, the others on the negative one; even players on the
/// positive `z` side, odd ones on the negative one.
pub open spec fn camera_seat(n: nat) -> Seat {
    Seat { x_positive: n / 2 == 0, z_positive: n % 2 == 0 }
}

/// The corner of a player's hand: one for each of the four players `0` to
/// `3`, none for others.
pub open spec fn hand_seat(n: nat) -> Option<Seat> {
    if n == 0 {
        Some(Seat { x_positive: true, z_positive: true })
    } else if n == 1 {
        Some(Seat { x_positive: true, z_positive: false })
    } else if n == 2 {
        Some(Seat { x_positive: false, z_positive: true })
    } else if n == 3 {
        Some(Seat { x_positive: false, z_positive: false })
    } else {
        None
    }
}

/// The corner a player's camera starts over.
pub fn default_cam_pos(n: usize) -> (r: Seat)
    ensures
        r == camera_seat(n as nat),
{
    Seat { x_positive: n / 2 == 0, z_positive: n % 2 == 0 }
}

/// The corner where a player's hand lies; `None` for a player past the
/// fourth, whose hand lies at the table's middle.
pub fn spawn_hand(me: usize) -> (r: Option<Seat>)
    ensures
        r == hand_seat(me as nat),
{
    match me {
        0 => Some(Seat { x_positive: true, z_positive: true }),
        1 => Some(Seat { x_positive: true, z_positive: false }),
        2 => Some(Seat { x_positive: false, z_positive: true }),
        3 => Some(Seat { x_positive: false, z_positive: false }),
        _ => None,
    }
}

/// Each of the four seated players starts with the camera over the corner
/// of their own hand, and no two of them share a corner.
pub proof fn law_camera_over_hand(n: nat, m: nat)
    requires
        n < 4,
        m < 4,
    ensures
        hand_seat(n) == Some(camera_seat(n)),
        n != m ==> camera_seat(n) != camera_seat(m),
{
}

} // verus!
