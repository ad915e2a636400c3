use cosmic_applet_system_monitor::monitor::{
    device_dir, hwmon_dir, path_join, DeviceProbe, DrmEntry, GpuReader,
};

fn names(list: &[&str]) -> Option<Vec<String>> {
    Some(list.iter().map(|s| s.to_string()).collect())
}

fn probe(busy: bool, hwmon0: Option<Vec<String>>, temp1: bool, vendor: Option<&str>) -> DeviceProbe {
    DeviceProbe {
        busy_percent_exists: busy,
        hwmon: [hwmon0, None, None, None],
        temp1_input_exists: temp1,
        vendor: vendor.map(str::to_owned),
    }
}

fn entry(name: &str, device: DeviceProbe) -> DrmEntry {
    DrmEntry { name: Some(name.to_owned()), is_dir: true, device_is_dir: true, device }
}

#[test]
fn joins_paths_like_std() {
    assert_eq!(path_join("/sys/class/drm", "card0"), "/sys/class/drm/card0");
    assert_eq!(path_join("/sys/class/drm/", "card0"), "/sys/class/drm/card0");
    assert_eq!(path_join("", "card0"), "card0");
    assert_eq!(path_join("/a", "/b"), "/b");
    assert_eq!(device_dir("/sys/class/drm", "card1"), "/sys/class/drm/card1/device");
    assert_eq!(hwmon_dir("/d", 2), "/d/hwmon/hwmon2");
}

#[test]
fn usage_file_only_when_present() {
    assert_eq!(
        GpuReader::find_usage_file("/d", true),
        Some("/d/gpu_busy_percent".to_owned())
    );
    assert_eq!(GpuReader::find_usage_file("/d", false), None);
}

#[test]
fn temp_file_is_first_match_of_first_hwmon_dir() {
    let hwmon = [
        None,
        names(&["name", "temp2_crit", "temp2_input", "temp1_input"]),
        names(&["temp1_input"]),
        None,
    ];
    assert_eq!(
        GpuReader::find_temp_file("/d", &hwmon, true),
        Some("/d/hwmon/hwmon1/temp2_input".to_owned())
    );
    let empty = [names(&["power1_average"]), None, None, None];
    assert_eq!(GpuReader::find_temp_file("/d", &empty, true), Some("/d/temp1_input".to_owned()));
    assert_eq!(GpuReader::find_temp_file("/d", &empty, false), None);
}

#[test]
fn vendor_names_by_pci_id() {
    assert_eq!(GpuReader::vendor_name("0x10de\n"), Some("NVIDIA".to_owned()));
    assert_eq!(GpuReader::vendor_name("  0x1002 "), Some("AMD".to_owned()));
    assert_eq!(GpuReader::vendor_name("0x8086"), Some("Intel".to_owned()));
    assert_eq!(GpuReader::vendor_name("0x1af4\n"), None);
    assert_eq!(GpuReader::vendor_name("0X10DE"), None);
}

#[test]
fn discovery_keeps_cards_sorted_by_name() {
    let entries = vec![
        entry("card1", probe(true, names(&["temp1_input"]), false, Some("0x1002\n"))),
        entry("renderD128", probe(true, None, false, Some("0x1002\n"))),
        entry("card0", probe(false, None, true, Some("0x10de\n"))),
        DrmEntry { name: Some("card2".into()), is_dir: false, device_is_dir: true, device: probe(true, None, false, None) },
        entry("card0-DP-1", probe(false, None, false, None)),
        DrmEntry { name: None, is_dir: true, device_is_dir: true, device: probe(true, None, false, None) },
        entry("card3", probe(false, names(&["temp1_input"]), false, Some("0xabcd"))),
    ];
    let readers = GpuReader::discover("/sys/class/drm", entries);
    let shown: Vec<(&str, Option<&str>, Option<&str>)> = readers
        .iter()
        .map(|r| (r.name.as_str(), r.usage_path.as_deref(), r.temp_path.as_deref()))
        .collect();
    // Sorted by name the readers are AMD, GPU, NVIDIA; GPU and NVIDIA both
    // have no load file, so the second of the two is dropped.
    assert_eq!(
        shown,
        vec![
            (
                "AMD (card1)",
                Some("/sys/class/drm/card1/device/gpu_busy_percent"),
                Some("/sys/class/drm/card1/device/hwmon/hwmon0/temp1_input"),
            ),
            ("GPU (card3)", None, Some("/sys/class/drm/card3/device/hwmon/hwmon0/temp1_input")),
        ]
    );
}

#[test]
fn discovery_drops_readers_that_share_a_load_file() {
    let entries = vec![
        entry("card0", probe(false, None, true, Some("0x10de"))),
        entry("card1", probe(true, None, false, Some("0x8086"))),
    ];
    let readers = GpuReader::discover("/drm", entries);
    assert_eq!(readers.len(), 2);
    assert_eq!(readers[0].name, "Intel (card1)");
    assert_eq!(readers[1].name, "NVIDIA (card0)");
    assert_eq!(readers[1].temp_path.as_deref(), Some("/drm/card0/device/temp1_input"));
    assert!(GpuReader::discover("/drm", Vec::new()).is_empty());
}
