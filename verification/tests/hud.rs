use terra_link::hud::{connection_indicator, network_pulse, signal_bar, Rgb};

#[test]
fn pulse_bounces_over_a_cycle() {
    assert_eq!(network_pulse(0), "▁");
    assert_eq!(network_pulse(3), "▄");
    assert_eq!(network_pulse(7), "█");
    assert_eq!(network_pulse(8), "▆"); // coming back down
    assert_eq!(network_pulse(13), "▁");
    assert_eq!(network_pulse(14), "▁"); // cycle restarts
    assert_eq!(network_pulse(21), "█");
}

#[test]
fn indicator_blinks_red_when_alone() {
    assert_eq!(connection_indicator(0, 0), ('●', Rgb { r: 255, g: 50, b: 50 }));
    assert_eq!(connection_indicator(0, 3), ('○', Rgb { r: 255, g: 50, b: 50 }));
    assert_eq!(connection_indicator(0, 6), ('●', Rgb { r: 255, g: 50, b: 50 }));
}

#[test]
fn indicator_colors_scale_with_peers() {
    assert_eq!(connection_indicator(1, 0), ('●', Rgb { r: 255, g: 215, b: 0 }));
    assert_eq!(connection_indicator(2, 5), ('●', Rgb { r: 255, g: 215, b: 0 }));
    assert_eq!(connection_indicator(3, 0), ('●', Rgb { r: 0, g: 255, b: 100 }));
    assert_eq!(connection_indicator(50, 9), ('●', Rgb { r: 0, g: 255, b: 100 }));
}

#[test]
fn signal_bar_distinguishes_relayed_links() {
    assert_eq!(signal_bar(true), ("▰▰▱▱▱", Rgb { r: 255, g: 215, b: 0 }));
    assert_eq!(signal_bar(false), ("▰▰▰▰▱", Rgb { r: 0, g: 255, b: 100 }));
}
