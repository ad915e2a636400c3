use std::collections::HashMap;

use cosmic_applet_system_monitor::cpu_temp::{
    is_cpu_sensor_name, is_package_label, CpuTempScan, ScanEvent, ScanRequest,
};

/// Runs the search against a fixed set of files and returns the file whose
/// reading it settles on, with the files it read in order.
fn run(dirs: Option<Vec<&str>>, files: &HashMap<&str, &str>) -> (Option<String>, Vec<String>) {
    let mut scan = CpuTempScan::start(dirs.map(|d| d.iter().map(|s| s.to_string()).collect()));
    let mut last = None;
    let mut read = Vec::new();
    loop {
        match scan.request() {
            ScanRequest::ReadText(path) => {
                let text = files.get(path.as_str()).map(|s| s.to_string());
                read.push(path);
                scan.advance(ScanEvent::Text(text));
            }
            ScanRequest::ReadTemperature(path) => {
                let ok = files
                    .get(path.as_str())
                    .map_or(false, |s| s.trim().parse::<f32>().is_ok());
                read.push(path.clone());
                last = Some(path);
                scan.advance(ScanEvent::Temperature(ok));
            }
            ScanRequest::Finished(found) => {
                return (if found { last } else { None }, read);
            }
        }
    }
}

#[test]
fn sensor_names_and_labels_ignore_case_and_whitespace() {
    assert!(is_cpu_sensor_name("  CoreTemp\n"));
    assert!(is_cpu_sensor_name("k10temp\n"));
    assert!(is_cpu_sensor_name("CPU_THERMAL"));
    assert!(!is_cpu_sensor_name("amdgpu\n"));
    assert!(is_package_label("Package id 0\n"));
    assert!(is_package_label("TDIE"));
    assert!(is_package_label("Tctl"));
    assert!(!is_package_label("Core 0"));
}

#[test]
fn package_label_wins_over_fallback() {
    let files = HashMap::from([
        ("/h/hwmon0/name", "amdgpu\n"),
        ("/h/hwmon0/temp1_input", "40000\n"),
        ("/h/hwmon1/name", "coretemp\n"),
        ("/h/hwmon1/temp1_label", "Core 0\n"),
        ("/h/hwmon1/temp1_input", "50000\n"),
        ("/h/hwmon1/temp2_label", "Package id 0\n"),
        ("/h/hwmon1/temp2_input", "61000\n"),
    ]);
    let (found, read) = run(Some(vec!["/h/hwmon0", "/h/hwmon1"]), &files);
    assert_eq!(found.as_deref(), Some("/h/hwmon1/temp2_input"));
    assert_eq!(
        read,
        vec![
            "/h/hwmon0/name",
            "/h/hwmon1/name",
            "/h/hwmon1/temp1_label",
            "/h/hwmon1/temp2_label",
            "/h/hwmon1/temp2_input",
        ]
    );
}

#[test]
fn falls_back_to_temp1_input_after_ten_labels() {
    let files = HashMap::from([
        ("/h/a/name", "k10temp"),
        ("/h/a/temp3_label", "Tctl"),
        ("/h/a/temp3_input", "not a number"),
        ("/h/a/temp1_input", "45500"),
    ]);
    let (found, read) = run(Some(vec!["/h/a"]), &files);
    assert_eq!(found.as_deref(), Some("/h/a/temp1_input"));
    assert_eq!(read.len(), 1 + 10 + 1 + 1);
    assert_eq!(read[4], "/h/a/temp3_input");
    assert_eq!(read[11], "/h/a/temp10_label");
}

#[test]
fn nothing_found_without_a_cpu_sensor() {
    let files = HashMap::from([("/h/a/name", "nvme"), ("/h/a/temp1_input", "30000")]);
    assert_eq!(run(Some(vec!["/h/a"]), &files).0, None);
    assert_eq!(run(None, &files), (None, Vec::new()));
    assert_eq!(run(Some(Vec::new()), &files), (None, Vec::new()));
    let unparsable = HashMap::from([("/h/a/name", "cpu"), ("/h/a/temp1_input", "hot")]);
    assert_eq!(run(Some(vec!["/h/a"]), &unparsable).0, None);
}
