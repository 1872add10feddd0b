use yomiage_bot::scale::Scale;
use yomiage_bot::volume::{percent_of, share_of, DEFAULT_VOLUME};

fn scale(value: f32) -> Scale {
    Scale {
        bits: value.to_bits(),
    }
}

#[test]
fn percents_are_hundredths() {
    for percent in 0..=100u32 {
        let share = share_of(percent);
        assert_eq!(share, scale(percent as f32 / 100.0), "{percent}");
        assert_eq!(percent_of(share), percent);
    }
    assert_eq!(DEFAULT_VOLUME, 0.3f32.to_bits());
}

#[test]
fn volumes_are_shown_as_a_machine_rounds_them() {
    let mut values = vec![
        0.0, -0.0, -0.5, 0.004, 0.005, 0.015, 0.755, 0.305, 0.3049999, 1.5, 1e-40, 1e-3, 12345.678,
        4.2949672e7, 4.294967e7, 1e30, f32::MAX, f32::INFINITY, f32::NEG_INFINITY, f32::NAN, -f32::NAN,
    ];
    let mut bits: u32 = 1;
    for _ in 0..5_000 {
        bits = bits.wrapping_mul(1_664_525).wrapping_add(1_013_904_223);
        values.push(f32::from_bits(bits));
        values.push((bits >> 8) as f32 / 16_777_216.0);
        values.push((bits % 20_000) as f32 / 200.0);
    }
    for value in values {
        let shown = (value * 100.0).round() as u32;
        assert_eq!(percent_of(scale(value)), shown, "{value:e}");
    }
}
