use rmtg::table::{
    default_cam_pos, rotate_left, rotate_right, spawn_hand, ui_rotate_left, ui_rotate_right,
    Offset, Seat, UiAngle, UiTransform,
};

#[test]
fn rotate_left_counts_one_more_quarter() {
    assert_eq!(rotate_left(0), 1);
    assert_eq!(rotate_left(1), 2);
    assert_eq!(rotate_left(2), 3);
    assert_eq!(rotate_left(3), 0);
}

#[test]
fn rotate_left_wraps_negative_quarters() {
    assert_eq!(rotate_left(-1), 0);
    assert_eq!(rotate_left(-2), 3);
    assert_eq!(rotate_left(-5), 0);
}

#[test]
fn rotate_right_counts_one_less_quarter() {
    assert_eq!(rotate_right(0), 3);
    assert_eq!(rotate_right(1), 0);
    assert_eq!(rotate_right(2), 1);
    assert_eq!(rotate_right(-2), 1);
    assert_eq!(rotate_right(-1), 2);
}

#[test]
fn rotate_extremes_do_not_overflow() {
    assert_eq!(rotate_left(isize::MAX), (((isize::MAX as i128) + 1) % 4) as isize);
    assert_eq!(rotate_right(isize::MIN), (((isize::MIN as i128) - 1).rem_euclid(4)) as isize);
}

#[test]
fn rotate_left_then_right_comes_back() {
    for n in -9isize..9 {
        assert_eq!(rotate_right(rotate_left(n)), n.rem_euclid(4));
        assert_eq!(rotate_left(rotate_right(n)), n.rem_euclid(4));
    }
}

#[test]
fn four_turns_come_back() {
    for n in -9isize..9 {
        let mut q = n;
        for _ in 0..4 {
            q = rotate_left(q);
        }
        assert_eq!(q, n.rem_euclid(4));
        let mut q = n;
        for _ in 0..4 {
            q = rotate_right(q);
        }
        assert_eq!(q, n.rem_euclid(4));
    }
}

#[test]
fn ui_rotate_right_turns_and_offsets_sideways_images() {
    let mut t = UiTransform { rotation: UiAngle::Zero, translation: Offset { x: 0, y: 0 } };
    ui_rotate_right(&mut t);
    assert_eq!(t.rotation, UiAngle::Ninety);
    assert_eq!(t.translation, Offset { x: 100, y: -100 });
    ui_rotate_right(&mut t);
    assert_eq!(t.rotation, UiAngle::OneEighty);
    assert_eq!(t.translation, Offset { x: 0, y: 0 });
    ui_rotate_right(&mut t);
    assert_eq!(t.rotation, UiAngle::TwoSeventy);
    assert_eq!(t.translation, Offset { x: 100, y: -100 });
    ui_rotate_right(&mut t);
    assert_eq!(t.rotation, UiAngle::Zero);
    assert_eq!(t.translation, Offset { x: 0, y: 0 });
}

#[test]
fn ui_rotate_left_undoes_right() {
    let mut t = UiTransform { rotation: UiAngle::Zero, translation: Offset { x: 0, y: 0 } };
    ui_rotate_left(&mut t);
    assert_eq!(t.rotation, UiAngle::TwoSeventy);
    assert_eq!(t.translation, Offset { x: 100, y: -100 });
    ui_rotate_right(&mut t);
    assert_eq!(t.rotation, UiAngle::Zero);
    assert_eq!(t.translation, Offset { x: 0, y: 0 });
}

#[test]
fn camera_corners() {
    assert_eq!(default_cam_pos(0), Seat { x_positive: true, z_positive: true });
    assert_eq!(default_cam_pos(1), Seat { x_positive: true, z_positive: false });
    assert_eq!(default_cam_pos(2), Seat { x_positive: false, z_positive: true });
    assert_eq!(default_cam_pos(3), Seat { x_positive: false, z_positive: false });
    assert_eq!(default_cam_pos(6), Seat { x_positive: false, z_positive: true });
}

#[test]
fn hand_corners_and_beyond() {
    assert_eq!(spawn_hand(0), Some(Seat { x_positive: true, z_positive: true }));
    assert_eq!(spawn_hand(3), Some(Seat { x_positive: false, z_positive: false }));
    assert_eq!(spawn_hand(4), None);
    assert_eq!(spawn_hand(usize::MAX), None);
}

#[test]
fn camera_starts_over_own_hand() {
    for n in 0..4usize {
        assert_eq!(spawn_hand(n), Some(default_cam_pos(n)));
        for m in 0..4usize {
            if m != n {
                assert_ne!(default_cam_pos(n), default_cam_pos(m));
            }
        }
    }
}
