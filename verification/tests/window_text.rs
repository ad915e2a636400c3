use cosmic_applet_system_monitor::monitor::{GpuStats, SystemStats};
use cosmic_applet_system_monitor::number::{Rounded, RoundedTenths};
use cosmic_applet_system_monitor::window::{
    fmt_usage, gpu_text, popup_cpu_text, popup_ram_text, Command, Message, Window,
};

/// A reading rounded as `{:.0}` rounds it.
fn whole(x: f32) -> Rounded {
    if x.is_nan() {
        return Rounded::NotANumber;
    }
    let negative = x.is_sign_negative();
    if x.is_infinite() {
        return Rounded::Infinite { negative };
    }
    let m = x.abs();
    let whole = if m >= 16_777_216.0 {
        m as u128
    } else {
        f64::from(m).round_ties_even() as u128
    };
    Rounded::Number { negative, whole }
}

/// A reading rounded as `{:.1}` rounds it.
fn tenths(x: f32) -> RoundedTenths {
    if x.is_nan() {
        return RoundedTenths::NotANumber;
    }
    let negative = x.is_sign_negative();
    if x.is_infinite() {
        return RoundedTenths::Infinite { negative };
    }
    let m = x.abs();
    let tenths = if m >= 16_777_216.0 {
        (m as u128).saturating_mul(10)
    } else {
        (f64::from(m) * 10.0).round_ties_even() as u128
    };
    RoundedTenths::Number { negative, tenths }
}

fn stats(cpu: f32, ram: f32, gpus: Vec<GpuStats>) -> SystemStats {
    SystemStats {
        cpu_percent: whole(cpu),
        cpu_temp: None,
        ram_used_gb: tenths(3.25),
        ram_total_gb: tenths(15.5),
        ram_percent: whole(ram),
        gpus,
    }
}

#[test]
fn fmt_usage_handles_known_and_unknown() {
    assert_eq!(fmt_usage(Some(whole(0.0))), "0%");
    assert_eq!(fmt_usage(Some(whole(42.4))), "42%");
    assert_eq!(fmt_usage(None), "--");
}

#[test]
fn gpu_text_includes_temp_when_present() {
    let with_temp = GpuStats {
        name: "AMD (card1)".into(),
        usage_percent: Some(whole(30.0)),
        temp: Some(whole(48.0)),
    };
    assert_eq!(gpu_text(&with_temp), "AMD (card1)  30%  48°C");

    let no_temp = GpuStats {
        name: "NVIDIA RTX 5090".into(),
        usage_percent: None,
        temp: None,
    };
    assert_eq!(gpu_text(&no_temp), "NVIDIA RTX 5090  --");
}

#[test]
fn rounded_readings_match_std_formatting() {
    for x in [0.0f32, 0.5, 1.5, 2.5, 42.4, 99.5, -0.3, 1234567.0, 3.0e9] {
        assert_eq!(fmt_usage(Some(whole(x))), format!("{x:.0}%"));
    }
    assert_eq!(fmt_usage(Some(whole(f32::NAN))), "NaN%");
    assert_eq!(fmt_usage(Some(whole(f32::NEG_INFINITY))), "-inf%");
    assert_eq!(fmt_usage(Some(Rounded::Number { negative: true, whole: 0 })), "-0%");
}

#[test]
fn popup_lines() {
    let mut s = stats(12.6, 20.9, Vec::new());
    assert_eq!(popup_cpu_text(&s), "13%");
    s.cpu_temp = Some(whole(51.5));
    assert_eq!(popup_cpu_text(&s), "13%  52°C");
    assert_eq!(popup_ram_text(&s), "3.2 / 15.5 GB  (21%)");
    assert_eq!(popup_ram_text(&s), format!("{:.1} / {:.1} GB  ({:.0}%)", 3.25f32, 15.5f32, 20.9f32));
}

#[test]
fn panel_text_without_and_with_gpus() {
    let (mut w, first) = Window::<u64>::init();
    assert_eq!(first, Command::Refresh);
    assert_eq!(w.panel_text(), "CPU:  0%  RAM:  0%  GPU: --");

    let gpus = vec![
        GpuStats { name: "AMD (card0)".into(), usage_percent: Some(whole(7.0)), temp: None },
        GpuStats { name: "Intel (card1)".into(), usage_percent: None, temp: None },
    ];
    assert_eq!(w.update(Message::StatsUpdate(stats(100.0, 5.2, gpus))), Command::Nothing);
    assert_eq!(w.panel_text(), "CPU:100%  RAM:  5%  GPU:  7%  GPU:  --");
    assert_eq!(
        w.panel_text(),
        format!("CPU:{:3.0}%  RAM:{:3.0}%  GPU:{:>4}  GPU:{:>4}", 100.0f32, 5.2f32, "7%", "--")
    );
}

#[test]
fn popup_toggles_and_closes() {
    let (mut w, _) = Window::<u64>::init();
    assert_eq!(w.update(Message::TogglePopup), Command::OpenPopup);
    w.popup_opened(7);
    assert_eq!(w.popup, Some(7));
    assert_eq!(w.update(Message::Tick), Command::Refresh);
    assert_eq!(w.popup, Some(7));
    assert_eq!(w.update(Message::CloseRequested(3)), Command::Nothing);
    assert_eq!(w.popup, Some(7));
    assert_eq!(w.update(Message::TogglePopup), Command::DestroyPopup(7));
    assert_eq!(w.popup, None);
    assert_eq!(w.update(Message::TogglePopup), Command::OpenPopup);
    w.popup_opened(8);
    assert_eq!(w.update(Message::CloseRequested(8)), Command::Nothing);
    assert_eq!(w.popup, None);
}
