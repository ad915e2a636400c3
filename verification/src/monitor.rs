//! GPU discovery over a snapshot of `/sys/class/drm`, and the statistics
//! that the applet shows.

use vstd::prelude::*;
use vstd::string::*;
use crate::order::{
    name_less, str_less, lemma_name_less_irreflexive, lemma_name_less_transitive,
    lemma_name_less_total,
};
use crate::number::{spec_digit, Rounded, RoundedTenths};
use crate::text::{chars_of, trim, spec_trim, starts_with, ends_with, spec_starts_with, spec_ends_with};


verus! {

/// One GPU's readings as the applet shows them: its name, its load in
/// percent and its temperature in degrees Celsius, each rounded to whole
/// units, or absent where it could not be read.
#[derive(Debug)]
pub struct GpuStats {
    pub name: String,
    pub usage_percent: Option<Rounded>,
    pub temp: Option<Rounded>,
}

/// One sample of the system as the applet shows it: CPU load (percent) and
/// temperature (degrees Celsius), memory used and total (gigabytes, to
/// tenths) and used (percent), and the GPUs.
#[derive(Debug)]
pub struct SystemStats {
    pub cpu_percent: Rounded,
    pub cpu_temp: Option<Rounded>,
    pub ram_used_gb: RoundedTenths,
    pub ram_total_gb: RoundedTenths,
    pub ram_percent: Rounded,
    pub gpus: Vec<GpuStats>,
}

/// The sample before the first one arrives: all zero, no temperature, no
/// GPU.
pub open spec fn spec_default_stats(s: SystemStats) -> bool {
    &&& s.cpu_percent == Rounded::Number { negative: false, whole: 0 }
    &&& s.cpu_temp is None
    &&& s.ram_used_gb == RoundedTenths::Number { negative: false, tenths: 0 }
    &&& s.ram_total_gb == RoundedTenths::Number { negative: false, tenths: 0 }
    &&& s.ram_percent == Rounded::Number { negative: false, whole: 0 }
    &&& s.gpus@.len() == 0
}

impl Default for SystemStats {
    fn default() -> (s: Self)
        ensures
            spec_default_stats(s),
    {
        SystemStats {
            cpu_percent: Rounded::Number { negative: false, whole: 0 },
            cpu_temp: None,
            ram_used_gb: RoundedTenths::Number { negative: false, tenths: 0 },
            ram_total_gb: RoundedTenths::Number { negative: false, tenths: 0 },
            ram_percent: Rounded::Number { negative: false, whole: 0 },
            gpus: Vec::new(),
        }
    }
}

/// Where the readings of one GPU come from: its display name and the sysfs
/// files that hold its load (percent) and its temperature (millidegrees).
#[derive(Debug)]
pub struct GpuReader {
    pub name: String,
    pub usage_path: Option<String>,
    pub temp_path: Option<String>,
}

/// A reader as plain values: name, load file, temperature file.
pub type ReaderView = (Seq<char>, Option<Seq<char>>, Option<Seq<char>>);

impl View for GpuReader {
    type V = ReaderView;

    open spec fn view(&self) -> ReaderView {
        (self.name@, self.usage_path.deep_view(), self.temp_path.deep_view())
    }
}

/// The plain values of a sequence of readers.
pub open spec fn views(s: Seq<GpuReader>) -> Seq<ReaderView> {
    s.map_values(|g: GpuReader| g@)
}

/// `sorted` with `x` placed before the first element whose name comes after
/// `x`'s, that is after every element whose name does not.
pub open spec fn insert_by_name(sorted: Seq<ReaderView>, x: ReaderView) -> Seq<ReaderView>
    decreases sorted.len(),
{
    if sorted.len() == 0 {
        seq![x]
    } else if name_less(x.0, sorted[0].0) {
        seq![x] + sorted
    } else {
        seq![sorted[0]] + insert_by_name(sorted.drop_first(), x)
    }
}

/// The readers sorted by name, readers with equal names kept in their
/// order: what `sort_by(|a, b| a.name.cmp(&b.name))` (a stable sort) gives.
pub open spec fn sort_by_name(s: Seq<ReaderView>) -> Seq<ReaderView>
    decreases s.len(),
{
    if s.len() == 0 {
        s
    } else {
        insert_by_name(sort_by_name(s.drop_last()), s.last())
    }
}

/// The readers with each run of consecutive readers that share a load file
/// reduced to its first: what `dedup_by(|a, b| a.usage_path == b.usage_path)`
/// gives.
pub open spec fn dedup_by_usage(s: Seq<ReaderView>) -> Seq<ReaderView>
    decreases s.len(),
{
    if s.len() <= 1 {
        s
    } else if s.last().1 == s[s.len() - 2].1 {
        dedup_by_usage(s.drop_last())
    } else {
        dedup_by_usage(s.drop_last()).push(s.last())
    }
}

/// The first position in `sorted` whose name comes after `x`'s.
pub open spec fn insert_position(sorted: Seq<ReaderView>, x: ReaderView, j: int) -> bool {
    &&& 0 <= j <= sorted.len()
    &&& forall|k: int| 0 <= k < j ==> !name_less(x.0, #[trigger] sorted[k].0)
    &&& j < sorted.len() ==> name_less(x.0, sorted[j].0)
}

proof fn lemma_insert_by_name(sorted: Seq<ReaderView>, x: ReaderView, j: int)
    requires
        insert_position(sorted, x, j),
    ensures
        insert_by_name(sorted, x) == sorted.insert(j, x),
    decreases sorted.len(),
{
    if sorted.len() == 0 {
        assert(sorted.insert(j, x) =~= seq![x]);
    } else if j == 0 {
        assert(sorted.insert(j, x) =~= seq![x] + sorted);
    } else {
        let t = sorted.drop_first();
        assert(!name_less(x.0, sorted[0].0));
        assert forall|k: int| 0 <= k < j - 1 implies !name_less(x.0, #[trigger] t[k].0) by {
            assert(t[k] == sorted[k + 1]);
        }
        if j - 1 < t.len() {
            assert(t[j - 1] == sorted[j]);
        }
        lemma_insert_by_name(t, x, j - 1);
        assert(sorted.insert(j, x) =~= seq![sorted[0]] + t.insert(j - 1, x));
    }
}

fn same_path(a: &Option<String>, b: &Option<String>) -> (r: bool)
    ensures
        r == (a.deep_view() == b.deep_view()),
{
    match (a, b) {
        (Some(x), Some(y)) => *x == *y,
        (None, None) => true,
        _ => false,
    }
}

/// The readers sorted by name; readers with equal names stay in their
/// order.
pub fn sort_readers_by_name(readers: Vec<GpuReader>) -> (r: Vec<GpuReader>)
    ensures
        views(r@) == sort_by_name(views(readers@)),
{
    let ghost input = views(readers@);
    let mut rest = readers;
    let mut sorted: Vec<GpuReader> = Vec::new();
    let mut i: usize = 0;
    let n = rest.len();
    while rest.len() > 0
        invariant
            n == input.len(),
            i + rest.len() == n,
            views(rest@) == input.skip(i as int),
            views(sorted@) == sort_by_name(input.take(i as int)),
        decreases rest.len(),
    {
        let ghost old_rest = rest@;
        let x = rest.remove(0);
        assert(rest@ =~= old_rest.drop_first());
        assert(views(rest@) =~= views(old_rest).drop_first());
        let ghost xv = x@;
        assert(xv == input[i as int]) by {
            assert(input.skip(i as int)[0] == input[i as int]);
        }
        let mut j: usize = 0;
        while j < sorted.len() && !str_less(x.name.as_str(), sorted[j].name.as_str())
            invariant
                j <= sorted.len(),
                xv == x@,
                forall|k: int|
                    0 <= k < j ==> !name_less(xv.0, #[trigger] views(sorted@)[k].0),
            decreases sorted.len() - j,
        {
            j = j + 1;
        }
        let ghost before = views(sorted@);
        proof {
            lemma_insert_by_name(before, xv, j as int);
            assert(input.take(i + 1).drop_last() =~= input.take(i as int));
            assert(input.take(i + 1).last() == xv);
        }
        sorted.insert(j, x);
        assert(views(sorted@) =~= before.insert(j as int, xv));
        i = i + 1;
        assert(views(rest@) =~= input.skip(i as int));
    }
    assert(input.take(n as int) =~= input);
    sorted
}

/// The readers with each run of consecutive readers that share a load file
/// reduced to its first.
pub fn dedup_readers_by_usage(readers: Vec<GpuReader>) -> (r: Vec<GpuReader>)
    ensures
        views(r@) == dedup_by_usage(views(readers@)),
{
    let ghost input = views(readers@);
    let mut rest = readers;
    let mut kept: Vec<GpuReader> = Vec::new();
    let mut i: usize = 0;
    let n = rest.len();
    while rest.len() > 0
        invariant
            n == input.len(),
            i + rest.len() == n,
            views(rest@) == input.skip(i as int),
            views(kept@) == dedup_by_usage(input.take(i as int)),
            i > 0 ==> kept@.len() > 0 && kept@.last()@.1 == input[i - 1].1,
        decreases rest.len(),
    {
        let ghost old_rest = rest@;
        let x = rest.remove(0);
        assert(rest@ =~= old_rest.drop_first());
        assert(views(rest@) =~= views(old_rest).drop_first());
        let ghost xv = x@;
        assert(xv == input[i as int]) by {
            assert(input.skip(i as int)[0] == input[i as int]);
        }
        let ghost before = views(kept@);
        let ghost pre = input.take(i + 1);
        assert(pre.drop_last() =~= input.take(i as int));
        assert(pre.last() == xv);
        let keep = if kept.len() == 0 {
            true
        } else {
            let last = kept.len() - 1;
            !same_path(&kept[last].usage_path, &x.usage_path)
        };
        if keep {
            kept.push(x);
            assert(views(kept@) =~= before.push(xv));
            if i > 0 {
                assert(pre[pre.len() - 2] == input[i - 1]);
            } else {
                assert(input.take(i as int).len() == 0);
                assert(dedup_by_usage(pre) == pre);
                assert(pre =~= seq![xv]);
            }
        } else {
            assert(pre[pre.len() - 2] == input[i - 1]);
        }
        i = i + 1;
        assert(views(rest@) =~= input.skip(i as int));
    }
    assert(input.take(n as int) =~= input);
    kept
}

/// `base.join(rel)` for Unix paths: `rel` itself when it is absolute, else
/// `base` and `rel` with a `/` between them unless `base` is empty or
/// already ends in one.
pub open spec fn spec_join(base: Seq<char>, rel: Seq<char>) -> Seq<char> {
    if rel.len() > 0 && rel[0] == '/' {
        rel
    } else if base.len() > 0 && base.last() != '/' {
        base + seq!['/'] + rel
    } else {
        base + rel
    }
}

/// `base.join(rel)` for Unix paths.
pub fn path_join(base: &str, rel: &str) -> (r: String)
    ensures
        r@ == spec_join(base@, rel@),
{
    let b = chars_of(base);
    let rc = chars_of(rel);
    if rc.len() > 0 && rc[0] == '/' {
        return rel.to_owned();
    }
    let mut r = base.to_owned();
    if b.len() > 0 && b[b.len() - 1] != '/' {
        r.push('/');
    }
    r.append(rel);
    r
}

/// The `device` directory of the DRM entry `name` under `drm_dir`.
pub open spec fn spec_device_dir(drm_dir: Seq<char>, name: Seq<char>) -> Seq<char> {
    spec_join(spec_join(drm_dir, name), "device"@)
}

pub fn device_dir(drm_dir: &str, name: &str) -> (r: String)
    ensures
        r@ == spec_device_dir(drm_dir@, name@),
{
    let entry = path_join(drm_dir, name);
    path_join(entry.as_str(), "device")
}

/// The file that reports a GPU's load, in its device directory.
pub open spec fn spec_usage_candidate(device: Seq<char>) -> Seq<char> {
    spec_join(device, "gpu_busy_percent"@)
}

pub fn usage_candidate(device: &str) -> (r: String)
    ensures
        r@ == spec_usage_candidate(device@),
{
    path_join(device, "gpu_busy_percent")
}

/// The temperature file that a device directory may hold itself.
pub open spec fn spec_temp1_candidate(device: Seq<char>) -> Seq<char> {
    spec_join(device, "temp1_input"@)
}

pub fn temp1_candidate(device: &str) -> (r: String)
    ensures
        r@ == spec_temp1_candidate(device@),
{
    path_join(device, "temp1_input")
}

/// The file that names a device's PCI vendor.
pub open spec fn spec_vendor_file(device: Seq<char>) -> Seq<char> {
    spec_join(device, "vendor"@)
}

pub fn vendor_file(device: &str) -> (r: String)
    ensures
        r@ == spec_vendor_file(device@),
{
    path_join(device, "vendor")
}

/// The number of hwmon directories of a device that are searched for a
/// temperature file: `hwmon/hwmon0` to `hwmon/hwmon3`.
pub const HWMON_DIRS: usize = 4;

/// The hwmon directory `i` of a device: `hwmon/hwmon<i>` under it.
pub open spec fn spec_hwmon_dir(device: Seq<char>, i: nat) -> Seq<char> {
    spec_join(device, "hwmon/hwmon"@ + seq![spec_digit(i)])
}

pub fn hwmon_dir(device: &str, i: usize) -> (r: String)
    requires
        i < HWMON_DIRS,
    ensures
        r@ == spec_hwmon_dir(device@, i as nat),
{
    let mut rel = String::new();
    rel.append("hwmon/hwmon");
    crate::number::push_decimal(&mut rel, i as u128);
    assert(crate::number::spec_decimal(i as nat) =~= seq![spec_digit(i as nat)]);
    path_join(device, rel.as_str())
}

/// What a device directory shows of its GPU: each item is read by the caller
/// from the files that the functions above name.
#[derive(Debug)]
pub struct DeviceProbe {
    /// Whether `gpu_busy_percent` exists.
    pub busy_percent_exists: bool,
    /// The file names in each hwmon directory `hwmon/hwmon0` to
    /// `hwmon/hwmon3`, in the order the directory lists them; `None` where it
    /// is not a directory or cannot be listed.
    pub hwmon: [Option<Vec<String>>; 4],
    /// Whether `temp1_input` exists.
    pub temp1_input_exists: bool,
    /// The contents of `vendor`, where it can be read.
    pub vendor: Option<String>,
}

/// One entry of the DRM directory as the caller found it.
#[derive(Debug)]
pub struct DrmEntry {
    /// The entry's file name, where it is valid UTF-8.
    pub name: Option<String>,
    /// Whether the entry is a directory.
    pub is_dir: bool,
    /// Whether its `device` subdirectory is a directory.
    pub device_is_dir: bool,
    /// What the `device` directory holds.
    pub device: DeviceProbe,
}

/// A hwmon file name that reports a temperature.
pub open spec fn is_temp_input_name(n: Seq<char>) -> bool {
    (spec_starts_with(n, "temp"@) && spec_ends_with(n, "_input"@)) || n == "temp1_input"@
}

/// The first temperature file name of a listing.
pub open spec fn first_temp_input(names: Seq<Seq<char>>) -> Option<Seq<char>>
    decreases names.len(),
{
    if names.len() == 0 {
        None
    } else if is_temp_input_name(names[0]) {
        Some(names[0])
    } else {
        first_temp_input(names.drop_first())
    }
}

/// The temperature file found from hwmon directory `i` on.
pub open spec fn temp_file_from(
    device: Seq<char>,
    hwmon: Seq<Option<Seq<Seq<char>>>>,
    temp1_input_exists: bool,
    i: nat,
) -> Option<Seq<char>>
    decreases HWMON_DIRS - i,
{
    if i >= HWMON_DIRS {
        if temp1_input_exists {
            Some(spec_temp1_candidate(device))
        } else {
            None
        }
    } else {
        match if i < hwmon.len() { hwmon[i as int] } else { None } {
            Some(names) => match first_temp_input(names) {
                Some(n) => Some(spec_join(spec_hwmon_dir(device, i), n)),
                None => temp_file_from(device, hwmon, temp1_input_exists, i + 1),
            },
            None => temp_file_from(device, hwmon, temp1_input_exists, i + 1),
        }
    }
}

/// The load file of a device: `gpu_busy_percent` where it exists.
pub open spec fn spec_find_usage_file(device: Seq<char>, busy_percent_exists: bool) -> Option<
    Seq<char>,
> {
    if busy_percent_exists {
        Some(spec_usage_candidate(device))
    } else {
        None
    }
}

/// The temperature file of a device: the first `temp*_input` of the first
/// hwmon directory that has one, else the device's own `temp1_input` where
/// it exists.
pub open spec fn spec_find_temp_file(
    device: Seq<char>,
    hwmon: Seq<Option<Seq<Seq<char>>>>,
    temp1_input_exists: bool,
) -> Option<Seq<char>> {
    temp_file_from(device, hwmon, temp1_input_exists, 0)
}

/// The vendor name for the contents of a device's `vendor` file.
pub open spec fn spec_vendor_name(contents: Seq<char>) -> Option<Seq<char>> {
    let id = spec_trim(contents);
    if id == "0x10de"@ {
        Some("NVIDIA"@)
    } else if id == "0x1002"@ {
        Some("AMD"@)
    } else if id == "0x8086"@ {
        Some("Intel"@)
    } else {
        None
    }
}

fn first_temp_input_in(names: &Vec<String>) -> (r: Option<usize>)
    ensures
        match r {
            Some(k) => k < names.len() && first_temp_input(names.deep_view()) == Some(
                names[k as int]@,
            ),
            None => first_temp_input(names.deep_view()) is None,
        },
{
    let ghost all = names.deep_view();
    let temp = chars_of("temp");
    let input = chars_of("_input");
    let one = "temp1_input".to_owned();
    let mut k: usize = 0;
    assert(all.skip(0) =~= all);
    while k < names.len()
        invariant
            k <= names.len(),
            all == names.deep_view(),
            temp@ == "temp"@,
            input@ == "_input"@,
            one@ == "temp1_input"@,
            first_temp_input(all) == first_temp_input(all.skip(k as int)),
        decreases names.len() - k,
    {
        let n = chars_of(names[k].as_str());
        let ghost rest = all.skip(k as int);
        assert(rest[0] == names[k as int]@);
        if (starts_with(&n, &temp) && ends_with(&n, &input)) || names[k] == one {
            return Some(k);
        }
        assert(rest.drop_first() =~= all.skip(k + 1));
        k = k + 1;
    }
    None
}

impl GpuReader {
    /// The load file of a device, given whether `gpu_busy_percent` exists in
    /// it.
    pub fn find_usage_file(device: &str, busy_percent_exists: bool) -> (r: Option<String>)
        ensures
            r.deep_view() == spec_find_usage_file(device@, busy_percent_exists),
    {
        if busy_percent_exists {
            Some(usage_candidate(device))
        } else {
            None
        }
    }

    /// The temperature file of a device, given the listings of its hwmon
    /// directories and whether its own `temp1_input` exists.
    pub fn find_temp_file(
        device: &str,
        hwmon: &[Option<Vec<String>>; 4],
        temp1_input_exists: bool,
    ) -> (r: Option<String>)
        ensures
            r.deep_view() == spec_find_temp_file(device@, hwmon.deep_view(), temp1_input_exists),
    {
        let ghost listings = hwmon.deep_view();
        let mut i: usize = 0;
        while i < HWMON_DIRS
            invariant
                i <= HWMON_DIRS,
                listings == hwmon.deep_view(),
                spec_find_temp_file(device@, listings, temp1_input_exists) == temp_file_from(
                    device@,
                    listings,
                    temp1_input_exists,
                    i as nat,
                ),
            decreases HWMON_DIRS - i,
        {
            match &hwmon[i] {
                Some(names) => {
                    assert(listings[i as int] == Some(names.deep_view()));
                    match first_temp_input_in(names) {
                        Some(k) => {
                            let base = hwmon_dir(device, i);
                            return Some(path_join(base.as_str(), names[k].as_str()));
                        },
                        None => {},
                    }
                },
                None => {
                    assert(listings[i as int] is None);
                },
            }
            i = i + 1;
        }
        if temp1_input_exists {
            Some(temp1_candidate(device))
        } else {
            None
        }
    }

    /// The vendor name for the contents of a device's `vendor` file: the PCI
    /// vendor id, surrounding whitespace ignored, of NVIDIA, AMD or Intel.
    pub fn vendor_name(contents: &str) -> (r: Option<String>)
        ensures
            r.deep_view() == spec_vendor_name(contents@),
    {
        let id = trim(contents);
        if id == "0x10de".to_owned() {
            Some("NVIDIA".to_owned())
        } else if id == "0x1002".to_owned() {
            Some("AMD".to_owned())
        } else if id == "0x8086".to_owned() {
            Some("Intel".to_owned())
        } else {
            None
        }
    }
}

/// The vendor shown for a device: the name its `vendor` file gives, else
/// "GPU".
pub open spec fn spec_vendor_or_gpu(vendor: Option<String>) -> Seq<char> {
    match vendor {
        Some(v) => match spec_vendor_name(v@) {
            Some(n) => n,
            None => "GPU"@,
        },
        None => "GPU"@,
    }
}

/// The reader that one DRM entry gives: for a directory named `card*` with a
/// `device` directory that has a load file or a temperature file, a reader
/// named "<vendor> (<entry name>)".
pub open spec fn spec_reader_for(drm_dir: Seq<char>, e: DrmEntry) -> Option<ReaderView> {
    match e.name {
        None => None,
        Some(name) => {
            let name = name@;
            if !spec_starts_with(name, "card"@) || !e.is_dir || !e.device_is_dir {
                None
            } else {
                let device = spec_device_dir(drm_dir, name);
                let usage = spec_find_usage_file(device, e.device.busy_percent_exists);
                let temp = spec_find_temp_file(
                    device,
                    e.device.hwmon.deep_view(),
                    e.device.temp1_input_exists,
                );
                if usage is Some || temp is Some {
                    Some(
                        (
                            spec_vendor_or_gpu(e.device.vendor) + " ("@ + name + ")"@,
                            usage,
                            temp,
                        ),
                    )
                } else {
                    None
                }
            }
        },
    }
}

/// The readers of the entries, in the entries' order.
pub open spec fn collect_readers(drm_dir: Seq<char>, entries: Seq<DrmEntry>) -> Seq<ReaderView>
    decreases entries.len(),
{
    if entries.len() == 0 {
        Seq::empty()
    } else {
        let prev = collect_readers(drm_dir, entries.drop_last());
        match spec_reader_for(drm_dir, entries.last()) {
            Some(r) => prev.push(r),
            None => prev,
        }
    }
}

/// The readers that discovery keeps: those of the entries, sorted by name,
/// with each run of readers that share a load file reduced to its first.
pub open spec fn spec_discover(drm_dir: Seq<char>, entries: Seq<DrmEntry>) -> Seq<ReaderView> {
    dedup_by_usage(sort_by_name(collect_readers(drm_dir, entries)))
}

impl GpuReader {
    /// The reader that one DRM entry gives, if any.
    pub fn reader_for(drm_dir: &str, entry: DrmEntry) -> (r: Option<GpuReader>)
        ensures
            match r {
                Some(g) => spec_reader_for(drm_dir@, entry) == Some(g@),
                None => spec_reader_for(drm_dir@, entry) is None,
            },
    {
        let ghost e = entry;
        let DrmEntry { name, is_dir, device_is_dir, device: probe } = entry;
        let name = match name {
            Some(n) => n,
            None => {
                return None;
            },
        };
        let card = chars_of("card");
        let name_chars = chars_of(name.as_str());
        if !starts_with(&name_chars, &card) || !is_dir || !device_is_dir {
            return None;
        }
        let device = device_dir(drm_dir, name.as_str());
        let usage_path = Self::find_usage_file(device.as_str(), probe.busy_percent_exists);
        let temp_path = Self::find_temp_file(
            device.as_str(),
            &probe.hwmon,
            probe.temp1_input_exists,
        );
        if usage_path.is_none() && temp_path.is_none() {
            return None;
        }
        let vendor = match &probe.vendor {
            Some(v) => match Self::vendor_name(v.as_str()) {
                Some(n) => n,
                None => "GPU".to_owned(),
            },
            None => "GPU".to_owned(),
        };
        let mut label = vendor;
        label.append(" (");
        label.append(name.as_str());
        label.append(")");
        Some(GpuReader { name: label, usage_path, temp_path })
    }

    /// The GPU readers of a DRM directory, from what the caller found in each
    /// of its entries: one reader for each `card*` directory whose `device`
    /// directory has a load file or a temperature file, sorted by name, where
    /// of readers that follow one another with the same load file only the
    /// first stays.
    pub fn discover(drm_dir: &str, entries: Vec<DrmEntry>) -> (r: Vec<GpuReader>)
        ensures
            views(r@) == spec_discover(drm_dir@, entries@),
            sorted_by_name(views(r@)),
            neighbours_differ_in_usage(views(r@)),
            all_read_something(views(r@)),
    {
        proof {
            law_discover(drm_dir@, entries@);
        }
        let ghost all = entries@;
        let mut rest = entries;
        let mut readers: Vec<GpuReader> = Vec::new();
        let mut i: usize = 0;
        let n = rest.len();
        while rest.len() > 0
            invariant
                n == all.len(),
                i + rest.len() == n,
                rest@ == all.skip(i as int),
                views(readers@) == collect_readers(drm_dir@, all.take(i as int)),
            decreases rest.len(),
        {
            let ghost old_rest = rest@;
            let e = rest.remove(0);
            assert(rest@ =~= all.skip(i + 1));
            assert(e == all[i as int]);
            let ghost pre = all.take(i + 1);
            assert(pre.drop_last() =~= all.take(i as int));
            assert(pre.last() == e);
            let ghost before = views(readers@);
            match Self::reader_for(drm_dir, e) {
                Some(g) => {
                    readers.push(g);
                    assert(views(readers@) =~= before.push(readers@.last()@));
                },
                None => {},
            }
            i = i + 1;
        }
        assert(all.take(n as int) =~= all);
        let sorted = sort_readers_by_name(readers);
        dedup_readers_by_usage(sorted)
    }
}

/// No reader's name comes before the name of a reader ahead of it.
pub open spec fn sorted_by_name(s: Seq<ReaderView>) -> bool {
    forall|i: int, j: int| 0 <= i < j < s.len() ==> !name_less(#[trigger] s[j].0, #[trigger] s[i].0)
}

/// No two neighbouring readers share a load file.
pub open spec fn neighbours_differ_in_usage(s: Seq<ReaderView>) -> bool {
    forall|i: int| 0 <= i < s.len() - 1 ==> #[trigger] s[i].1 != s[i + 1].1
}

/// Every reader has a load file or a temperature file.
pub open spec fn all_read_something(s: Seq<ReaderView>) -> bool {
    forall|i: int| 0 <= i < s.len() ==> (#[trigger] s[i]).1 is Some || s[i].2 is Some
}

proof fn lemma_insert_by_name_multiset(sorted: Seq<ReaderView>, x: ReaderView)
    ensures
        insert_by_name(sorted, x).to_multiset() == sorted.to_multiset().insert(x),
    decreases sorted.len(),
{
    broadcast use vstd::seq_lib::to_multiset_insert;

    if sorted.len() == 0 {
        assert(seq![x] =~= sorted.insert(0, x));
    } else if name_less(x.0, sorted[0].0) {
        assert(seq![x] + sorted =~= sorted.insert(0, x));
    } else {
        let t = sorted.drop_first();
        lemma_insert_by_name_multiset(t, x);
        vstd::seq_lib::lemma_multiset_commutative(seq![sorted[0]], insert_by_name(t, x));
        vstd::seq_lib::lemma_multiset_commutative(seq![sorted[0]], t);
        assert(seq![sorted[0]] + t =~= sorted);
        assert(insert_by_name(sorted, x).to_multiset() =~= sorted.to_multiset().insert(x));
    }
}

proof fn lemma_insert_by_name_sorted(sorted: Seq<ReaderView>, x: ReaderView)
    requires
        sorted_by_name(sorted),
    ensures
        sorted_by_name(insert_by_name(sorted, x)),
        forall|k: int|
            0 <= k < insert_by_name(sorted, x).len() ==> #[trigger] insert_by_name(sorted, x)[k]
                == x || sorted.contains(insert_by_name(sorted, x)[k]),
    decreases sorted.len(),
{
    let r = insert_by_name(sorted, x);
    if sorted.len() == 0 {
    } else if name_less(x.0, sorted[0].0) {
        assert forall|i: int, j: int| 0 <= i < j < r.len() implies !name_less(
            #[trigger] r[j].0,
            #[trigger] r[i].0,
        ) by {
            if i == 0 {
                assert(r[j] == sorted[j - 1]);
                if name_less(sorted[j - 1].0, x.0) {
                    lemma_name_less_transitive(sorted[j - 1].0, x.0, sorted[0].0);
                    if j - 1 == 0 {
                        lemma_name_less_irreflexive(sorted[0].0);
                    }
                }
            } else {
                assert(r[i] == sorted[i - 1] && r[j] == sorted[j - 1]);
            }
        }
        assert forall|k: int| 0 <= k < r.len() implies #[trigger] r[k] == x || sorted.contains(
            r[k],
        ) by {
            if k > 0 {
                assert(r[k] == sorted[k - 1]);
            }
        }
    } else {
        let t = sorted.drop_first();
        assert(sorted_by_name(t)) by {
            assert forall|i: int, j: int| 0 <= i < j < t.len() implies !name_less(
                #[trigger] t[j].0,
                #[trigger] t[i].0,
            ) by {
                assert(t[i] == sorted[i + 1] && t[j] == sorted[j + 1]);
            }
        }
        lemma_insert_by_name_sorted(t, x);
        let rt = insert_by_name(t, x);
        assert(r == seq![sorted[0]] + rt);
        assert forall|i: int, j: int| 0 <= i < j < r.len() implies !name_less(
            #[trigger] r[j].0,
            #[trigger] r[i].0,
        ) by {
            if i == 0 {
                assert(r[j] == rt[j - 1]);
                if rt[j - 1] != x {
                    let m = choose|m: int| 0 <= m < t.len() && t[m] == rt[j - 1];
                    assert(t[m] == sorted[m + 1]);
                }
            } else {
                assert(r[i] == rt[i - 1] && r[j] == rt[j - 1]);
            }
        }
        assert forall|k: int| 0 <= k < r.len() implies #[trigger] r[k] == x || sorted.contains(
            r[k],
        ) by {
            if k == 0 {
                assert(sorted[0] == r[k]);
            } else {
                assert(r[k] == rt[k - 1]);
                if rt[k - 1] != x {
                    let m = choose|m: int| 0 <= m < t.len() && t[m] == rt[k - 1];
                    assert(sorted[m + 1] == r[k]);
                }
            }
        }
    }
}

/// Sorting by name keeps every reader and adds none: the result holds the
/// same readers, each as often, and is sorted by name.
pub proof fn law_sort_by_name(s: Seq<ReaderView>)
    ensures
        sort_by_name(s).to_multiset() == s.to_multiset(),
        sorted_by_name(sort_by_name(s)),
    decreases s.len(),
{
    broadcast use vstd::seq_lib::group_to_multiset_ensures;

    if s.len() > 0 {
        law_sort_by_name(s.drop_last());
        lemma_insert_by_name_multiset(sort_by_name(s.drop_last()), s.last());
        lemma_insert_by_name_sorted(sort_by_name(s.drop_last()), s.last());
        assert(s.drop_last().push(s.last()) =~= s);
    }
}

proof fn lemma_dedup_by_usage(s: Seq<ReaderView>)
    ensures
        forall|k: int|
            0 <= k < dedup_by_usage(s).len() ==> s.contains(#[trigger] dedup_by_usage(s)[k]),
        s.len() > 0 ==> dedup_by_usage(s).len() > 0 && dedup_by_usage(s).last().1 == s.last().1,
        neighbours_differ_in_usage(dedup_by_usage(s)),
        sorted_by_name(s) ==> sorted_by_name(dedup_by_usage(s)),
    decreases s.len(),
{
    if s.len() > 1 {
        let d = s.drop_last();
        lemma_dedup_by_usage(d);
        let dd = dedup_by_usage(d);
        assert(d.last() == s[s.len() - 2]);
        assert forall|k: int| 0 <= k < dd.len() implies s.contains(#[trigger] dd[k]) by {
            let m = choose|m: int| 0 <= m < d.len() && d[m] == dd[k];
            assert(s[m] == dd[k]);
        }
        if sorted_by_name(s) {
            assert(sorted_by_name(d)) by {
                assert forall|i: int, j: int| 0 <= i < j < d.len() implies !name_less(
                    #[trigger] d[j].0,
                    #[trigger] d[i].0,
                ) by {
                    assert(d[i] == s[i] && d[j] == s[j]);
                }
            }
        }
        if s.last().1 != s[s.len() - 2].1 {
            let r = dd.push(s.last());
            assert(r[r.len() - 1] == s.last());
            assert forall|k: int| 0 <= k < r.len() implies s.contains(#[trigger] r[k]) by {
                if k < dd.len() {
                    assert(r[k] == dd[k]);
                } else {
                    assert(s[s.len() - 1] == r[k]);
                }
            }
            assert forall|i: int| 0 <= i < r.len() - 1 implies #[trigger] r[i].1 != r[i + 1].1 by {
                if i < dd.len() - 1 {
                    assert(r[i] == dd[i] && r[i + 1] == dd[i + 1]);
                } else {
                    assert(r[i] == dd.last());
                }
            }
            if sorted_by_name(s) {
                assert forall|i: int, j: int| 0 <= i < j < r.len() implies !name_less(
                    #[trigger] r[j].0,
                    #[trigger] r[i].0,
                ) by {
                    if j < dd.len() {
                        assert(r[i] == dd[i] && r[j] == dd[j]);
                    } else {
                        assert(r[i] == dd[i]);
                        let m = choose|m: int| 0 <= m < d.len() && d[m] == dd[i];
                        assert(s[m] == dd[i]);
                        if m == s.len() - 1 {
                        } else {
                            assert(m < s.len() - 1);
                        }
                    }
                }
            }
        }
    }
}

proof fn lemma_collect_readers(drm_dir: Seq<char>, entries: Seq<DrmEntry>)
    ensures
        all_read_something(collect_readers(drm_dir, entries)),
    decreases entries.len(),
{
    if entries.len() > 0 {
        lemma_collect_readers(drm_dir, entries.drop_last());
        let prev = collect_readers(drm_dir, entries.drop_last());
        match spec_reader_for(drm_dir, entries.last()) {
            Some(r) => {
                assert forall|i: int| 0 <= i < prev.push(r).len() implies (#[trigger] prev.push(
                    r,
                )[i]).1 is Some || prev.push(r)[i].2 is Some by {
                    if i < prev.len() {
                        assert(prev.push(r)[i] == prev[i]);
                    }
                }
            },
            None => {},
        }
    }
}

/// What discovery gives: readers sorted by name, no two neighbours sharing a
/// load file, each reading a load or a temperature file, and each the reader
/// of one of the entries.
pub proof fn law_discover(drm_dir: Seq<char>, entries: Seq<DrmEntry>)
    ensures
        sorted_by_name(spec_discover(drm_dir, entries)),
        neighbours_differ_in_usage(spec_discover(drm_dir, entries)),
        all_read_something(spec_discover(drm_dir, entries)),
        forall|k: int|
            0 <= k < spec_discover(drm_dir, entries).len() ==> collect_readers(
                drm_dir,
                entries,
            ).contains(#[trigger] spec_discover(drm_dir, entries)[k]),
{
    broadcast use vstd::seq_lib::group_to_multiset_ensures;

    let c = collect_readers(drm_dir, entries);
    let sorted = sort_by_name(c);
    let r = spec_discover(drm_dir, entries);
    law_sort_by_name(c);
    lemma_dedup_by_usage(sorted);
    lemma_collect_readers(drm_dir, entries);
    assert forall|k: int| 0 <= k < r.len() implies c.contains(#[trigger] r[k]) by {
        assert(sorted.contains(r[k]));
        assert(sorted.to_multiset().count(r[k]) > 0);
    }
    assert forall|i: int| 0 <= i < r.len() implies (#[trigger] r[i]).1 is Some || r[i].2 is Some by {
        assert(c.contains(r[i]));
        let m = choose|m: int| 0 <= m < c.len() && c[m] == r[i];
    }
}

/// A file name that starts with `temp` and ends with `_input`, in plain
/// characters.
pub open spec fn temp_input_by_letters(n: Seq<char>) -> bool {
    &&& n.len() >= 6
    &&& n.take(4) == seq!['t', 'e', 'm', 'p']
    &&& n.skip(n.len() - 6) == seq!['_', 'i', 'n', 'p', 'u', 't']
}

/// Name `k` of a listing is a temperature input.
pub open spec fn listing_hit(l: Option<Seq<Seq<char>>>, k: int) -> bool {
    match l {
        Some(ns) => 0 <= k < ns.len() && temp_input_by_letters(ns[k]),
        None => false,
    }
}

proof fn lemma_temp_name_letters(n: Seq<char>)
    ensures
        is_temp_input_name(n) <==> temp_input_by_letters(n),
{
    reveal_strlit("temp");
    reveal_strlit("_input");
    reveal_strlit("temp1_input");
    assert("temp"@ =~= seq!['t', 'e', 'm', 'p']);
    assert("_input"@ =~= seq!['_', 'i', 'n', 'p', 'u', 't']);
    if n == "temp1_input"@ {
        assert(n.take(4) =~= seq!['t', 'e', 'm', 'p']);
        assert(n.skip(n.len() - 6) =~= seq!['_', 'i', 'n', 'p', 'u', 't']);
    }
    if temp_input_by_letters(n) {
        assert(n.subrange(0, 4) =~= n.take(4));
        assert(n.subrange(n.len() - 6, n.len() as int) =~= n.skip(n.len() - 6));
    }
    if spec_starts_with(n, "temp"@) && spec_ends_with(n, "_input"@) {
        assert(n.subrange(0, 4) =~= n.take(4));
        assert(n.subrange(n.len() - 6, n.len() as int) =~= n.skip(n.len() - 6));
    }
}

proof fn lemma_first_temp_input(ns: Seq<Seq<char>>, k: int)
    requires
        0 <= k <= ns.len(),
        forall|m: int| 0 <= m < k ==> !temp_input_by_letters(#[trigger] ns[m]),
        k < ns.len() ==> temp_input_by_letters(ns[k]),
    ensures
        first_temp_input(ns) == if k < ns.len() {
            Some(ns[k])
        } else {
            None
        },
    decreases k,
{
    if ns.len() > 0 {
        lemma_temp_name_letters(ns[0]);
        if k > 0 {
            let t = ns.drop_first();
            assert forall|m: int| 0 <= m < k - 1 implies !temp_input_by_letters(#[trigger] t[m]) by {
                assert(t[m] == ns[m + 1]);
            }
            if k < ns.len() {
                assert(t[k - 1] == ns[k]);
            }
            lemma_first_temp_input(t, k - 1);
        }
    }
}

proof fn lemma_no_temp_input(ns: Seq<Seq<char>>)
    requires
        forall|m: int| 0 <= m < ns.len() ==> !temp_input_by_letters(#[trigger] ns[m]),
    ensures
        first_temp_input(ns) is None,
{
    lemma_first_temp_input(ns, ns.len() as int);
}

proof fn lemma_temp_file_from(
    device: Seq<char>,
    hwmon: Seq<Option<Seq<Seq<char>>>>,
    temp1_input_exists: bool,
    i: int,
)
    requires
        hwmon.len() == HWMON_DIRS,
        0 <= i <= HWMON_DIRS,
    ensures
        forall|j: int, k: int|
            i <= j < HWMON_DIRS && listing_hit(hwmon[j], k) && (forall|jj: int, m: int|
                i <= jj < j ==> !#[trigger] listing_hit(hwmon[jj], m)) && (forall|m: int|
                0 <= m < k ==> !#[trigger] listing_hit(hwmon[j], m)) ==> temp_file_from(
                device,
                hwmon,
                temp1_input_exists,
                i as nat,
            ) == Some(spec_join(spec_hwmon_dir(device, j as nat), hwmon[j]->Some_0[k])),
        (forall|jj: int, m: int| i <= jj < HWMON_DIRS ==> !#[trigger] listing_hit(hwmon[jj], m))
            ==> temp_file_from(device, hwmon, temp1_input_exists, i as nat) == if temp1_input_exists {
            Some(spec_temp1_candidate(device))
        } else {
            None
        },
    decreases HWMON_DIRS - i,
{
    if i < HWMON_DIRS {
        lemma_temp_file_from(device, hwmon, temp1_input_exists, i + 1);
        let here = hwmon[i];
        let none_here = forall|m: int| !#[trigger] listing_hit(here, m);
        match here {
            Some(ns) => {
                if none_here {
                    assert forall|m: int| 0 <= m < ns.len() implies !temp_input_by_letters(
                        #[trigger] ns[m],
                    ) by {
                        assert(!listing_hit(here, m));
                    }
                    lemma_no_temp_input(ns);
                } else {
                    let k0 = choose|m: int| #[trigger] listing_hit(here, m);
                    assert(0 <= k0 < ns.len());
                }
            },
            None => {},
        }
        assert forall|j: int, k: int|
            i <= j < HWMON_DIRS && listing_hit(hwmon[j], k) && (forall|jj: int, m: int|
                i <= jj < j ==> !#[trigger] listing_hit(hwmon[jj], m)) && (forall|m: int|
                0 <= m < k ==> !#[trigger] listing_hit(hwmon[j], m)) implies temp_file_from(
            device,
            hwmon,
            temp1_input_exists,
            i as nat,
        ) == Some(spec_join(spec_hwmon_dir(device, j as nat), hwmon[j]->Some_0[k])) by {
            if j == i {
                let ns = hwmon[i]->Some_0;
                assert forall|m: int| 0 <= m < k implies !temp_input_by_letters(#[trigger] ns[m]) by {
                    assert(!listing_hit(hwmon[j], m));
                }
                lemma_first_temp_input(ns, k);
            } else {
                assert(!listing_hit(here, k)) by {
                    assert(!listing_hit(hwmon[i], k));
                }
                assert forall|m: int| !#[trigger] listing_hit(here, m) by {
                    assert(!listing_hit(hwmon[i], m));
                }
                if here is Some {
                    let ns = here->Some_0;
                    assert forall|m: int| 0 <= m < ns.len() implies !temp_input_by_letters(
                        #[trigger] ns[m],
                    ) by {
                        assert(!listing_hit(here, m));
                    }
                    lemma_no_temp_input(ns);
                }
            }
        }
        if forall|jj: int, m: int| i <= jj < HWMON_DIRS ==> !#[trigger] listing_hit(hwmon[jj], m) {
            if here is Some {
                let ns = here->Some_0;
                assert forall|m: int| 0 <= m < ns.len() implies !temp_input_by_letters(
                    #[trigger] ns[m],
                ) by {
                    assert(!listing_hit(hwmon[i], m));
                }
                lemma_no_temp_input(ns);
            }
        }
    }
}

/// The temperature file of a device is the first name that starts with
/// `temp` and ends with `_input` in the first of the four listings
/// `hwmon/hwmon0` to `hwmon/hwmon3` that has one, joined under that
/// directory; no other listed name (such as `in0_input` or `fan1_input`) is
/// ever taken. Only when no listing has such a name does the device's own
/// `temp1_input` count, and then only when it exists.
pub proof fn law_find_temp_file(
    device: Seq<char>,
    hwmon: Seq<Option<Seq<Seq<char>>>>,
    temp1_input_exists: bool,
)
    requires
        hwmon.len() == HWMON_DIRS,
    ensures
        forall|j: int, k: int|
            0 <= j < HWMON_DIRS && listing_hit(hwmon[j], k) && (forall|jj: int, m: int|
                0 <= jj < j ==> !#[trigger] listing_hit(hwmon[jj], m)) && (forall|m: int|
                0 <= m < k ==> !#[trigger] listing_hit(hwmon[j], m)) ==> spec_find_temp_file(
                device,
                hwmon,
                temp1_input_exists,
            ) == Some(spec_join(spec_hwmon_dir(device, j as nat), hwmon[j]->Some_0[k])),
        (forall|jj: int, m: int| 0 <= jj < HWMON_DIRS ==> !#[trigger] listing_hit(hwmon[jj], m))
            ==> spec_find_temp_file(device, hwmon, temp1_input_exists) == if temp1_input_exists {
            Some(spec_join(device, seq!['t', 'e', 'm', 'p', '1', '_', 'i', 'n', 'p', 'u', 't']))
        } else {
            None
        },
{
    lemma_temp_file_from(device, hwmon, temp1_input_exists, 0);
    reveal_strlit("temp1_input");
    assert("temp1_input"@ =~= seq!['t', 'e', 'm', 'p', '1', '_', 'i', 'n', 'p', 'u', 't']);
}

/// `base.join(rel)` for a relative `rel`: `base`, a `/` unless `base` is
/// empty or ends in one, then `rel`; an absolute `rel` replaces `base`.
pub proof fn law_join(base: Seq<char>, rel: Seq<char>)
    ensures
        rel.len() > 0 && rel[0] == '/' ==> spec_join(base, rel) == rel,
        !(rel.len() > 0 && rel[0] == '/') && base.len() > 0 && base.last() != '/' ==> spec_join(
            base,
            rel,
        ) == base + seq!['/'] + rel,
        !(rel.len() > 0 && rel[0] == '/') && (base.len() == 0 || base.last() == '/') ==> spec_join(
            base,
            rel,
        ) == base + rel,
{
}

/// The hwmon directory `i` of a device is `hwmon/hwmon<i>` under it, with
/// `<i>` the digit of `i`.
pub proof fn law_hwmon_dir(device: Seq<char>, i: nat)
    requires
        i < HWMON_DIRS,
    ensures
        spec_hwmon_dir(device, i) == spec_join(
            device,
            seq!['h', 'w', 'm', 'o', 'n', '/', 'h', 'w', 'm', 'o', 'n'] + seq![
                seq!['0', '1', '2', '3'][i as int],
            ],
        ),
{
    reveal_strlit("hwmon/hwmon");
    assert("hwmon/hwmon"@ =~= seq!['h', 'w', 'm', 'o', 'n', '/', 'h', 'w', 'm', 'o', 'n']);
    assert(seq![spec_digit(i)] =~= seq![seq!['0', '1', '2', '3'][i as int]]);
}

/// The vendor is named by the PCI id in the `vendor` file, surrounding
/// whitespace ignored: `0x10de` is NVIDIA, `0x1002` AMD, `0x8086` Intel, and
/// any other id names none.
pub proof fn law_vendor_name(contents: Seq<char>)
    ensures
        ({
            let id = spec_trim(contents);
            let nvidia = seq!['0', 'x', '1', '0', 'd', 'e'];
            let amd = seq!['0', 'x', '1', '0', '0', '2'];
            let intel = seq!['0', 'x', '8', '0', '8', '6'];
            &&& id == nvidia ==> spec_vendor_name(contents) == Some(
                seq!['N', 'V', 'I', 'D', 'I', 'A'],
            )
            &&& id == amd ==> spec_vendor_name(contents) == Some(seq!['A', 'M', 'D'])
            &&& id == intel ==> spec_vendor_name(contents) == Some(
                seq!['I', 'n', 't', 'e', 'l'],
            )
            &&& id != nvidia && id != amd && id != intel ==> spec_vendor_name(contents) is None
        }),
{
    reveal_strlit("0x10de");
    reveal_strlit("0x1002");
    reveal_strlit("0x8086");
    reveal_strlit("NVIDIA");
    reveal_strlit("AMD");
    reveal_strlit("Intel");
    assert("0x10de"@ =~= seq!['0', 'x', '1', '0', 'd', 'e']);
    assert("0x1002"@ =~= seq!['0', 'x', '1', '0', '0', '2']);
    assert("0x8086"@ =~= seq!['0', 'x', '8', '0', '8', '6']);
    assert("NVIDIA"@ =~= seq!['N', 'V', 'I', 'D', 'I', 'A']);
    assert("AMD"@ =~= seq!['A', 'M', 'D']);
    assert("Intel"@ =~= seq!['I', 'n', 't', 'e', 'l']);
}

/// A DRM entry gives a reader exactly when it has a name that starts with
/// `card`, is a directory, has a `device` directory, and that device has a
/// load file or a temperature file; the reader is named
/// `<vendor> (<entry name>)`, reads `gpu_busy_percent` of the device where it
/// exists, and the device's temperature file.
pub proof fn law_reader_for(drm_dir: Seq<char>, e: DrmEntry)
    ensures
        ({
            let r = spec_reader_for(drm_dir, e);
            match e.name {
                None => r is None,
                Some(n) => {
                    let name = n@;
                    let device = spec_join(
                        spec_join(drm_dir, name),
                        seq!['d', 'e', 'v', 'i', 'c', 'e'],
                    );
                    let usage = if e.device.busy_percent_exists {
                        Some(
                            spec_join(
                                device,
                                seq![
                                    'g',
                                    'p',
                                    'u',
                                    '_',
                                    'b',
                                    'u',
                                    's',
                                    'y',
                                    '_',
                                    'p',
                                    'e',
                                    'r',
                                    'c',
                                    'e',
                                    'n',
                                    't',
                                ],
                            ),
                        )
                    } else {
                        None
                    };
                    let temp = spec_find_temp_file(
                        device,
                        e.device.hwmon.deep_view(),
                        e.device.temp1_input_exists,
                    );
                    let is_card = name.len() >= 4 && name.take(4) == seq!['c', 'a', 'r', 'd'];
                    if is_card && e.is_dir && e.device_is_dir && (usage is Some || temp is Some) {
                        r == Some(
                            (
                                spec_vendor_or_gpu(e.device.vendor) + seq![' ', '('] + name + seq![
                                    ')',
                                ],
                                usage,
                                temp,
                            ),
                        )
                    } else {
                        r is None
                    }
                },
            }
        }),
{
    reveal_strlit("card");
    reveal_strlit("device");
    reveal_strlit("gpu_busy_percent");
    reveal_strlit(" (");
    reveal_strlit(")");
    assert("card"@ =~= seq!['c', 'a', 'r', 'd']);
    assert("device"@ =~= seq!['d', 'e', 'v', 'i', 'c', 'e']);
    assert("gpu_busy_percent"@ =~= seq![
        'g',
        'p',
        'u',
        '_',
        'b',
        'u',
        's',
        'y',
        '_',
        'p',
        'e',
        'r',
        'c',
        'e',
        'n',
        't',
    ]);
    assert(" ("@ =~= seq![' ', '(']);
    assert(")"@ =~= seq![')']);
    match e.name {
        Some(n) => {
            let name = n@;
            if name.len() >= 4 {
                assert(name.subrange(0, 4) =~= name.take(4));
            }
        },
        None => {},
    }
}

/// Deduplication only drops a reader whose load file equals the one before
/// it: every reader that starts a run is kept, nothing is added, and no two
/// kept neighbours share a load file.
pub proof fn law_dedup_by_usage(s: Seq<ReaderView>)
    ensures
        forall|i: int|
            0 <= i < s.len() && (i == 0 || s[i].1 != s[i - 1].1) ==> dedup_by_usage(s).contains(
                #[trigger] s[i],
            ),
        forall|k: int|
            0 <= k < dedup_by_usage(s).len() ==> s.contains(#[trigger] dedup_by_usage(s)[k]),
        neighbours_differ_in_usage(dedup_by_usage(s)),
        dedup_by_usage(s).len() <= s.len(),
    decreases s.len(),
{
    lemma_dedup_by_usage(s);
    if s.len() > 1 {
        let d = s.drop_last();
        law_dedup_by_usage(d);
        let dd = dedup_by_usage(d);
        assert forall|i: int|
            0 <= i < s.len() && (i == 0 || s[i].1 != s[i - 1].1) implies dedup_by_usage(
            s,
        ).contains(#[trigger] s[i]) by {
            if i < s.len() - 1 {
                assert(s[i] == d[i]);
                if i > 0 {
                    assert(s[i - 1] == d[i - 1]);
                }
                assert(dd.contains(d[i]));
                let m = choose|m: int| 0 <= m < dd.len() && dd[m] == d[i];
                if s.last().1 != s[s.len() - 2].1 {
                    assert(dd.push(s.last())[m] == dd[m]);
                }
            } else {
                assert(s.last().1 != s[s.len() - 2].1);
                assert(dd.push(s.last())[dd.len() as int] == s[i]);
            }
        }
    } else if s.len() == 1 {
        assert(dedup_by_usage(s)[0] == s[0]);
    }
}

/// Whether a reader is named `n`.
pub open spec fn name_is(n: Seq<char>) -> spec_fn(ReaderView) -> bool {
    |r: ReaderView| r.0 == n
}

/// The readers named `n`, in their order.
pub open spec fn named(s: Seq<ReaderView>, n: Seq<char>) -> Seq<ReaderView> {
    s.filter(name_is(n))
}

proof fn lemma_filter_single(x: ReaderView, n: Seq<char>)
    ensures
        named(seq![x], n) == if x.0 == n {
            seq![x]
        } else {
            Seq::<ReaderView>::empty()
        },
{
    let e = Seq::<ReaderView>::empty();
    assert(e.filter(name_is(n)) =~= e) by {
        reveal(Seq::filter);
    }
    e.lemma_filter_push(x, name_is(n));
    assert(e.push(x) =~= seq![x]);
}

proof fn lemma_named_empty_after(sorted: Seq<ReaderView>, x: ReaderView)
    requires
        sorted_by_name(sorted),
        sorted.len() > 0,
        name_less(x.0, sorted[0].0),
    ensures
        named(sorted, x.0) == Seq::<ReaderView>::empty(),
    decreases sorted.len(),
{
    let last = sorted.last();
    let d = sorted.drop_last();
    if sorted.len() > 1 {
        assert(sorted_by_name(d)) by {
            assert forall|i: int, j: int| 0 <= i < j < d.len() implies !name_less(
                #[trigger] d[j].0,
                #[trigger] d[i].0,
            ) by {
                assert(d[i] == sorted[i] && d[j] == sorted[j]);
            }
        }
        assert(d[0] == sorted[0]);
        lemma_named_empty_after(d, x);
        assert(!name_less(sorted[sorted.len() - 1].0, sorted[0].0));
    } else {
        assert(d.filter(name_is(x.0)) =~= d) by {
            reveal(Seq::filter);
        }
    }
    lemma_name_less_total(last.0, sorted[0].0);
    if name_less(sorted[0].0, last.0) {
        lemma_name_less_transitive(x.0, sorted[0].0, last.0);
    }
    lemma_name_less_irreflexive(x.0);
    d.lemma_filter_push(last, name_is(x.0));
    assert(d.push(last) =~= sorted);
}

proof fn lemma_insert_by_name_named(sorted: Seq<ReaderView>, x: ReaderView, n: Seq<char>)
    requires
        sorted_by_name(sorted),
    ensures
        named(insert_by_name(sorted, x), n) == if x.0 == n {
            named(sorted, n).push(x)
        } else {
            named(sorted, n)
        },
    decreases sorted.len(),
{
    let f = name_is(n);
    lemma_filter_single(x, n);
    if sorted.len() == 0 {
        assert(sorted.filter(f) =~= sorted) by {
            reveal(Seq::filter);
        }
        assert(seq![x] =~= sorted.push(x));
    } else if name_less(x.0, sorted[0].0) {
        Seq::filter_distributes_over_add(seq![x], sorted, f);
        if x.0 == n {
            lemma_named_empty_after(sorted, x);
            assert(seq![x] + Seq::<ReaderView>::empty() =~= Seq::<ReaderView>::empty().push(x));
        } else {
            assert(Seq::<ReaderView>::empty() + sorted.filter(f) =~= sorted.filter(f));
        }
    } else {
        let t = sorted.drop_first();
        assert(sorted_by_name(t)) by {
            assert forall|i: int, j: int| 0 <= i < j < t.len() implies !name_less(
                #[trigger] t[j].0,
                #[trigger] t[i].0,
            ) by {
                assert(t[i] == sorted[i + 1] && t[j] == sorted[j + 1]);
            }
        }
        lemma_insert_by_name_named(t, x, n);
        Seq::filter_distributes_over_add(seq![sorted[0]], insert_by_name(t, x), f);
        Seq::filter_distributes_over_add(seq![sorted[0]], t, f);
        assert(seq![sorted[0]] + t =~= sorted);
        if x.0 == n {
            assert(seq![sorted[0]].filter(f) + t.filter(f).push(x) =~= (seq![sorted[0]].filter(f)
                + t.filter(f)).push(x));
        }
    }
}

/// Sorting by name is stable: for every name, the readers with that name
/// come out in the order they came in.
pub proof fn law_sort_by_name_stable(s: Seq<ReaderView>, n: Seq<char>)
    ensures
        named(sort_by_name(s), n) == named(s, n),
    decreases s.len(),
{
    if s.len() == 0 {
        assert(s.filter(name_is(n)) =~= s) by {
            reveal(Seq::filter);
        }
    } else {
        law_sort_by_name_stable(s.drop_last(), n);
        law_sort_by_name(s.drop_last());
        lemma_insert_by_name_named(sort_by_name(s.drop_last()), s.last(), n);
        s.drop_last().lemma_filter_push(s.last(), name_is(n));
        assert(s.drop_last().push(s.last()) =~= s);
    }
}

} // verus!
