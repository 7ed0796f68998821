use zskins::zbar::battery::find_battery;
use zskins::zbar::battery::read_battery;
use zskins::zbar::battery::BatteryModule;
use zskins::zbar::battery::BatteryStatus;
use zskins::zbar::brightness::parse_level;
use zskins::zbar::brightness::read_brightness;
use zskins::zbar::brightness::BrightnessModule;
use zskins::zbar::clock::secs_until_next_min;
use zskins::zbar::clock::ClockModule;
use zskins::zbar::cpu_mem::read_cpu_times;
use zskins::zbar::cpu_mem::read_mem;
use zskins::zbar::cpu_mem::CpuMemModule;
use zskins::zbar::outputs::matching_output;
use zskins::zbar::outputs::output_name_uuid;
use zskins::zbar::outputs::output_of_display;
use zskins::zbar::outputs::width_entry;
use zskins::zbar::popup_catcher::PopupRegistry;
use zskins::zbar::settings::theme_row;
use zskins::zbar::theme::pct_label;
use zskins::zbar::theme::Tone;
use zskins::zbar::volume::concerns_sink;
use zskins::zbar::volume::read_pactl;
use zskins::zbar::volume::read_volume;
use zskins::zbar::volume::wpctl_fields;
use zskins::zbar::volume::VolumeModule;

#[test]
fn percentages_are_aligned() {
    assert_eq!(pct_label(5), "  5%");
    assert_eq!(pct_label(42), " 42%");
    assert_eq!(pct_label(100), "100%");
}

#[test]
fn first_battery_is_taken() {
    let names = vec!["AC".to_string(), "BAT1".to_string(), "BAT0".to_string()];
    assert_eq!(find_battery(&names), Some(1));
    assert_eq!(find_battery(&vec!["AC".to_string()]), None);
}

#[test]
fn battery_files_are_read() {
    assert_eq!(
        read_battery(true, Some("87\n"), Some("Not charging\n")),
        (Some(87), BatteryStatus::Discharging)
    );
    assert_eq!(
        read_battery(true, Some("300"), Some("Full")),
        (None, BatteryStatus::Full)
    );
    assert_eq!(
        read_battery(true, None, Some("odd")),
        (None, BatteryStatus::Unknown)
    );
    assert_eq!(
        read_battery(false, Some("5"), Some("Full")),
        (None, BatteryStatus::Unknown)
    );
}

#[test]
fn battery_pill_follows_charge() {
    let m = BatteryModule::new(Some("BAT0".into()), Some("10"), Some("Discharging"));
    let pill = m.pill().unwrap();
    assert_eq!(pill.icon, '\u{f007a}');
    assert_eq!(pill.tone, Tone::Urgent);
    assert_eq!(pill.label, " 10%");
    let mut m = BatteryModule::new(Some("BAT0".into()), Some("26"), Some("Charging"));
    assert_eq!(m.pill().unwrap().icon, '\u{f0084}');
    assert_eq!(m.pill().unwrap().tone, Tone::Success);
    assert!(!m.update(Some(26), BatteryStatus::Charging));
    assert!(m.update(Some(25), BatteryStatus::Discharging));
    assert_eq!(m.pill().unwrap().tone, Tone::Warning);
    assert!(BatteryModule::new(None, None, None).pill().is_none());
}

#[test]
fn brightness_is_a_share() {
    assert_eq!(parse_level(Some(" 120\n")), Some(120));
    assert_eq!(parse_level(Some("x")), None);
    assert_eq!(read_brightness(Some(50), 200), Some(25));
    assert_eq!(read_brightness(Some(50), 0), None);
    assert_eq!(read_brightness(None, 200), None);
    let mut m = BrightnessModule::new(Some("b".into()), Some("200"), Some(50));
    assert_eq!(m.pill(), Some(('\u{f00de}', " 25%".to_string())));
    assert!(m.update(Some(71)));
    assert!(!m.update(Some(71)));
    assert_eq!(m.pill(), Some(('\u{f00e0}', " 71%".to_string())));
}

#[test]
fn clock_waits_for_the_minute() {
    assert_eq!(secs_until_next_min(0), 60);
    assert_eq!(secs_until_next_min(59), 1);
    let mut c = ClockModule::new("09:00".into());
    assert!(!c.update("09:00".into()));
    assert!(c.update("09:01".into()));
    assert_eq!(c.text, "09:01");
}

#[test]
fn processor_times_are_summed() {
    assert_eq!(read_cpu_times("cpu  1 2 3 4 5 x 6"), Some((4, 21)));
    assert_eq!(read_cpu_times("cpu 1 2 3"), Some((0, 0)));
    let mut m = CpuMemModule::new(10, 100);
    assert_eq!(m.sample(20, 150), (10, 50));
    assert_eq!((m.prev_idle, m.prev_total), (20, 150));
}

#[test]
fn memory_is_read() {
    assert_eq!(
        read_mem("MemTotal:   16000 kB\nMemFree: 1 kB\nMemAvailable:    4000 kB\n"),
        (16000, 4000)
    );
    assert_eq!(read_mem("nothing"), (0, 0));
}

#[test]
fn volume_is_read() {
    assert_eq!(
        read_pactl("Volume: front-left: 32768 /  50% / -18.06 dB", "Mute: no"),
        (Some(50), false)
    );
    assert_eq!(read_pactl("odd", "Mute: yes"), (None, true));
    assert_eq!(
        wpctl_fields("Volume: 0.40 [MUTED]"),
        (Some("0.40".to_string()), true)
    );
    assert_eq!(wpctl_fields(""), (None, false));
    assert_eq!(
        read_volume(Some((Some(3), true)), Some((Some(4), false))),
        (Some(3), true)
    );
    assert_eq!(read_volume(None, Some((Some(4), false))), (Some(4), false));
    assert_eq!(read_volume(None, None), (None, false));
    assert!(concerns_sink("Event 'change' on sink #1"));
    assert!(!concerns_sink("Event 'change' on client #1"));
}

#[test]
fn volume_pill_shows_mute() {
    let mut m = VolumeModule::new(Some(30), false);
    let p = m.pill().unwrap();
    assert_eq!((p.icon, p.icon_tone, p.text_tone), ('\u{f0580}', Tone::Accent, Tone::FgDim));
    assert_eq!(p.label, " 30%");
    assert!(m.update(Some(30), true));
    let p = m.pill().unwrap();
    assert_eq!((p.icon, p.icon_tone, p.text_tone), ('\u{f075f}', Tone::Urgent, Tone::Urgent));
    assert!(VolumeModule::new(None, false).pill().is_none());
}

#[test]
fn output_ids_are_those_of_their_names() {
    let u = uuid::Uuid::new_v5(&uuid::Uuid::NAMESPACE_DNS, b"DP-1");
    assert_eq!(output_name_uuid("DP-1"), u.as_u128());
    assert_ne!(output_name_uuid("DP-1"), output_name_uuid("DP-2"));
    let names = vec!["DP-2".to_string(), "DP-1".to_string()];
    assert_eq!(output_of_display(&names, u.as_u128()), Some(1));
    assert_eq!(matching_output(&vec![3, 4, 4], 4), Some(2));
    assert_eq!(matching_output(&vec![3], 4), None);
    assert_eq!(width_entry(&names, "DP-1"), Some(1));
}

#[test]
fn opening_a_popup_closes_the_others() {
    let mut r = PopupRegistry::new();
    let a = r.register();
    let b = r.register();
    let c = r.register();
    assert_eq!(r.dismiss_others(b), vec![a, c]);
}

#[test]
fn the_theme_in_use_is_marked() {
    assert_eq!(theme_row("x", Some("x")).mark, '\u{2713}');
    assert_eq!(theme_row("x", Some("y")).mark, ' ');
    assert_eq!(theme_row("x", None).background, Tone::Transparent);
}
