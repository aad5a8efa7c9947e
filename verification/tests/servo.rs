use folley::format::PanTiltStatus;
use folley::pan_tilt::{pan_deg_to_off_val, tilt_deg_to_off_val, PanTilt, ServoPulses};

#[test]
fn pulse_widths_follow_the_calibration_line() {
    assert_eq!(tilt_deg_to_off_val(0), 760);
    assert_eq!(tilt_deg_to_off_val(1), 771);
    assert_eq!(tilt_deg_to_off_val(2), 783);
    assert_eq!(tilt_deg_to_off_val(90), 1830);
    assert_eq!(tilt_deg_to_off_val(179), 2888);
    assert_eq!(tilt_deg_to_off_val(180), 2900);
    assert_eq!(tilt_deg_to_off_val(181), 2900);
    assert_eq!(tilt_deg_to_off_val(200), 2900);
    assert_eq!(tilt_deg_to_off_val(i32::MAX), 2900);
    assert_eq!(pan_deg_to_off_val(0), 760);
    assert_eq!(pan_deg_to_off_val(1), 772);
    assert_eq!(pan_deg_to_off_val(90), 1845);
    assert_eq!(pan_deg_to_off_val(179), 2917);
    assert_eq!(pan_deg_to_off_val(180), 2930);
    assert_eq!(pan_deg_to_off_val(400), 2930);
}

#[test]
fn a_new_bracket_rests_at_zero_with_clamped_goals() {
    let bracket = PanTilt::new(200, -5);
    assert_eq!(bracket.angles(), (0, 0));
    assert_eq!(bracket.status(), PanTiltStatus { pan_deg: 180, tilt_deg: 0 });
    let bracket = PanTilt::new(45, 91);
    assert_eq!(bracket.status(), PanTiltStatus { pan_deg: 45, tilt_deg: 90 });
}

#[test]
fn setting_a_goal_does_not_move_the_bracket() {
    let mut bracket = PanTilt::new(0, 0);
    bracket.pan_to_deg(30);
    bracket.tilt_to_deg(120);
    assert_eq!(bracket.angles(), (0, 0));
    assert_eq!(bracket.status(), PanTiltStatus { pan_deg: 30, tilt_deg: 90 });
    bracket.pan_to_deg(i32::MIN);
    bracket.tilt_to_deg(90);
    assert_eq!(bracket.status(), PanTiltStatus { pan_deg: 0, tilt_deg: 90 });
    bracket.pan_to_deg(180);
    bracket.tilt_to_deg(-1);
    assert_eq!(bracket.status(), PanTiltStatus { pan_deg: 180, tilt_deg: 0 });
}

#[test]
fn steps_reach_the_goal_exactly_and_then_hold() {
    let mut bracket = PanTilt::new(5, 3);
    for tick in 1..=5 {
        let pulses = bracket.step();
        let (pan, tilt) = bracket.angles();
        assert_eq!(pan, tick);
        assert_eq!(tilt, tick.min(3));
        assert_eq!(
            pulses,
            ServoPulses {
                tilt: (760 + 2140 * tilt / 180) as u16,
                pan: (760 + 2170 * pan / 180) as u16
            }
        );
    }
    assert_eq!(bracket.angles(), (5, 3));
    for _ in 0..3 {
        assert_eq!(bracket.step(), ServoPulses { tilt: 795, pan: 820 });
        assert_eq!(bracket.angles(), (5, 3));
    }
}

#[test]
fn a_new_goal_redirects_the_next_step() {
    let mut bracket = PanTilt::new(10, 0);
    bracket.step();
    bracket.step();
    bracket.step();
    assert_eq!(bracket.angles(), (3, 0));
    bracket.pan_to_deg(1);
    bracket.step();
    assert_eq!(bracket.angles(), (2, 0));
    bracket.step();
    bracket.step();
    assert_eq!(bracket.angles(), (1, 0));
}

#[test]
fn offsets_are_taken_from_the_current_angle() {
    let mut bracket = PanTilt::new(100, 50);
    for _ in 0..20 {
        bracket.step();
    }
    assert_eq!(bracket.angles(), (20, 20));
    bracket.pan_with_deg(15);
    bracket.tilt_with_deg(-5);
    assert_eq!(bracket.status(), PanTiltStatus { pan_deg: 35, tilt_deg: 15 });
    bracket.pan_with_deg(-21);
    bracket.tilt_with_deg(71);
    assert_eq!(bracket.status(), PanTiltStatus { pan_deg: 0, tilt_deg: 90 });
    bracket.pan_with_deg(i32::MAX);
    bracket.tilt_with_deg(i32::MIN);
    assert_eq!(bracket.status(), PanTiltStatus { pan_deg: 180, tilt_deg: 0 });
    assert_eq!(bracket.angles(), (20, 20));
}
