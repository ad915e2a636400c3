//! Finding the CPU temperature among the hwmon sensors: the decisions of the
//! search, as a state machine that asks its caller to read one file at a
//! time.
//!
//! The search goes through the entries of `/sys/class/hwmon` in the order
//! they are listed. An entry counts when its `name` file, trimmed and in
//! lower case, contains `coretemp`, `k10temp` or `cpu`. Of such an entry it
//! tries the labels `temp1_label` to `temp10_label`: a label that, trimmed and
//! in lower case, contains `package`, `tdie` or `tctl` makes it read the
//! matching `temp<i>_input`, and a reading that parses is the answer. When no
//! label gives one, the entry's `temp1_input` is tried. The first answer ends
//! the search.

use vstd::prelude::*;
use vstd::string::*;
use crate::monitor::{path_join, spec_join};
use crate::number::{push_decimal, spec_decimal};
use crate::text::{chars_of, contains, spec_contains, spec_trim, trim};

verus! {

/// What `str::to_lowercase` gives for a string: its characters mapped by the
/// Unicode lowercase mapping.
pub uninterp spec fn spec_lowercase(s: Seq<char>) -> Seq<char>;

/// Calls `str::to_lowercase`, which maps each character of `s` to its
/// Unicode lowercase form. The contract only names the result: the mapping
/// itself is not stated here.
#[verifier::external_body]
fn to_lowercase(s: &str) -> (r: String)
    ensures
        r@ == spec_lowercase(s@),
{
    s.to_lowercase()
}

/// The highest label number tried in a sensor directory.
pub const MAX_LABEL: u8 = 10;

/// A sensor name, already trimmed and lowered, that marks a CPU sensor.
pub open spec fn spec_cpu_sensor_lowered(lowered: Seq<char>) -> bool {
    spec_contains(lowered, "coretemp"@) || spec_contains(lowered, "k10temp"@) || spec_contains(
        lowered,
        "cpu"@,
    )
}

/// The contents of a sensor's `name` file mark a CPU sensor.
pub open spec fn spec_cpu_sensor_name(raw: Seq<char>) -> bool {
    spec_cpu_sensor_lowered(spec_lowercase(spec_trim(raw)))
}

/// A label, already trimmed and lowered, that marks the package or die
/// temperature.
pub open spec fn spec_package_label_lowered(lowered: Seq<char>) -> bool {
    spec_contains(lowered, "package"@) || spec_contains(lowered, "tdie"@) || spec_contains(
        lowered,
        "tctl"@,
    )
}

/// The contents of a `temp<i>_label` file mark the package or die
/// temperature.
pub open spec fn spec_package_label(raw: Seq<char>) -> bool {
    spec_package_label_lowered(spec_lowercase(spec_trim(raw)))
}

/// `w` occurs somewhere in `s`, character for character.
pub open spec fn has_word(s: Seq<char>, w: Seq<char>) -> bool {
    exists|i: int| 0 <= i && i + w.len() <= s.len() && #[trigger] s.subrange(i, i + w.len()) == w
}

proof fn lemma_contains_literal(s: Seq<char>, lit: Seq<char>, w: Seq<char>)
    requires
        lit == w,
    ensures
        spec_contains(s, lit) <==> has_word(s, w),
{
    if has_word(s, w) {
        let i = choose|i: int| 0 <= i && i + w.len() <= s.len() && #[trigger] s.subrange(i, i + w.len()) == w;
        assert(crate::text::occurs_at(s, lit, i));
    }
}

/// A sensor counts as the CPU's exactly when its trimmed, lowered name
/// contains one of the words `coretemp`, `k10temp` or `cpu`; so `drivetemp`,
/// `acpitz` or `nvme` never does.
pub proof fn law_cpu_sensor_lowered(lowered: Seq<char>)
    ensures
        spec_cpu_sensor_lowered(lowered) <==> (has_word(
            lowered,
            seq!['c', 'o', 'r', 'e', 't', 'e', 'm', 'p'],
        ) || has_word(lowered, seq!['k', '1', '0', 't', 'e', 'm', 'p']) || has_word(
            lowered,
            seq!['c', 'p', 'u'],
        )),
{
    reveal_strlit("coretemp");
    reveal_strlit("k10temp");
    reveal_strlit("cpu");
    assert("coretemp"@ =~= seq!['c', 'o', 'r', 'e', 't', 'e', 'm', 'p']);
    lemma_contains_literal(lowered, "coretemp"@, seq!['c', 'o', 'r', 'e', 't', 'e', 'm', 'p']);
    assert("k10temp"@ =~= seq!['k', '1', '0', 't', 'e', 'm', 'p']);
    lemma_contains_literal(lowered, "k10temp"@, seq!['k', '1', '0', 't', 'e', 'm', 'p']);
    assert("cpu"@ =~= seq!['c', 'p', 'u']);
    lemma_contains_literal(lowered, "cpu"@, seq!['c', 'p', 'u']);
}

/// A label marks the package or die temperature exactly when, trimmed and
/// lowered, it contains `package`, `tdie` or `tctl`.
pub proof fn law_package_label_lowered(lowered: Seq<char>)
    ensures
        spec_package_label_lowered(lowered) <==> (has_word(
            lowered,
            seq!['p', 'a', 'c', 'k', 'a', 'g', 'e'],
        ) || has_word(lowered, seq!['t', 'd', 'i', 'e']) || has_word(
            lowered,
            seq!['t', 'c', 't', 'l'],
        )),
{
    reveal_strlit("package");
    reveal_strlit("tdie");
    reveal_strlit("tctl");
    assert("package"@ =~= seq!['p', 'a', 'c', 'k', 'a', 'g', 'e']);
    lemma_contains_literal(lowered, "package"@, seq!['p', 'a', 'c', 'k', 'a', 'g', 'e']);
    assert("tdie"@ =~= seq!['t', 'd', 'i', 'e']);
    lemma_contains_literal(lowered, "tdie"@, seq!['t', 'd', 'i', 'e']);
    assert("tctl"@ =~= seq!['t', 'c', 't', 'l']);
    lemma_contains_literal(lowered, "tctl"@, seq!['t', 'c', 't', 'l']);
}

/// Whether a trimmed, lowered sensor name marks a CPU sensor.
pub fn cpu_sensor_lowered(lowered: &str) -> (r: bool)
    ensures
        r == spec_cpu_sensor_lowered(lowered@),
{
    let s = chars_of(lowered);
    contains(&s, &chars_of("coretemp")) || contains(&s, &chars_of("k10temp")) || contains(
        &s,
        &chars_of("cpu"),
    )
}

/// Whether the contents of a sensor's `name` file mark a CPU sensor.
pub fn is_cpu_sensor_name(raw: &str) -> (r: bool)
    ensures
        r == spec_cpu_sensor_name(raw@),
{
    let t = trim(raw);
    let lowered = to_lowercase(t.as_str());
    cpu_sensor_lowered(lowered.as_str())
}

/// Whether a trimmed, lowered label marks the package or die temperature.
pub fn package_label_lowered(lowered: &str) -> (r: bool)
    ensures
        r == spec_package_label_lowered(lowered@),
{
    let s = chars_of(lowered);
    contains(&s, &chars_of("package")) || contains(&s, &chars_of("tdie")) || contains(
        &s,
        &chars_of("tctl"),
    )
}

/// Whether the contents of a `temp<i>_label` file mark the package or die
/// temperature.
pub fn is_package_label(raw: &str) -> (r: bool)
    ensures
        r == spec_package_label(raw@),
{
    let t = trim(raw);
    let lowered = to_lowercase(t.as_str());
    package_label_lowered(lowered.as_str())
}

/// The `name` file of a sensor directory.
pub open spec fn spec_name_path(dir: Seq<char>) -> Seq<char> {
    spec_join(dir, "name"@)
}

/// The `temp<i>_label` file of a sensor directory.
pub open spec fn spec_label_path(dir: Seq<char>, i: nat) -> Seq<char> {
    spec_join(dir, "temp"@ + spec_decimal(i) + "_label"@)
}

/// The `temp<i>_input` file of a sensor directory.
pub open spec fn spec_input_path(dir: Seq<char>, i: nat) -> Seq<char> {
    spec_join(dir, "temp"@ + spec_decimal(i) + "_input"@)
}

fn name_path(dir: &str) -> (r: String)
    ensures
        r@ == spec_name_path(dir@),
{
    path_join(dir, "name")
}

fn numbered_path(dir: &str, i: u8, label: bool) -> (r: String)
    ensures
        r@ == if label {
            spec_label_path(dir@, i as nat)
        } else {
            spec_input_path(dir@, i as nat)
        },
{
    let mut rel = String::new();
    rel.append("temp");
    push_decimal(&mut rel, i as u128);
    if label {
        rel.append("_label");
    } else {
        rel.append("_input");
    }
    path_join(dir, rel.as_str())
}

/// Where the search stands within the current sensor directory.
#[derive(Clone, Copy, Debug, PartialEq, Eq, Structural)]
pub enum ScanPhase {
    /// About to read the directory's `name`.
    Name,
    /// About to read `temp<i>_label`.
    Label(u8),
    /// About to read and parse `temp<i>_input` after a matching label.
    Input(u8),
    /// About to read and parse the directory's `temp1_input`.
    Fallback,
    /// Done: the reading of `temp<i>_input` of the current directory is the
    /// CPU temperature.
    Found(u8),
    /// Done: no sensor gave a reading.
    NotFound,
}

/// What the caller is asked to do next.
#[derive(Debug)]
pub enum ScanRequest {
    /// Read this file as text and report `ScanEvent::Text`.
    ReadText(String),
    /// Read this file, parse it as a number and report
    /// `ScanEvent::Temperature` with whether both worked; the parsed value
    /// is the reading.
    ReadTemperature(String),
    /// The search is over; `true` when the last parsed reading is the answer.
    Finished(bool),
}

/// What the caller found when it did what it was asked.
#[derive(Debug)]
pub enum ScanEvent {
    /// The file's contents, or `None` when it could not be read.
    Text(Option<String>),
    /// Whether the file could be read and parsed as a number.
    Temperature(bool),
}

/// The search for the CPU temperature over a listing of sensor
/// directories.
pub struct CpuTempScan {
    dirs: Vec<String>,
    dir: usize,
    phase: ScanPhase,
}

/// The search as plain values: the directories, the current one, the phase.
pub type ScanView = (Seq<Seq<char>>, nat, ScanPhase);

impl View for CpuTempScan {
    type V = ScanView;

    closed spec fn view(&self) -> ScanView {
        (self.dirs.deep_view(), self.dir as nat, self.phase)
    }
}

/// A view in which the phase's label number is in range and, unless the
/// search is over, the current directory exists.
pub open spec fn scan_wf(v: ScanView) -> bool {
    match v.2 {
        ScanPhase::Name | ScanPhase::Fallback => v.1 < v.0.len(),
        ScanPhase::Label(i) | ScanPhase::Input(i) | ScanPhase::Found(i) => v.1 < v.0.len() && 1
            <= i <= MAX_LABEL,
        ScanPhase::NotFound => true,
    }
}

impl CpuTempScan {
    #[verifier::type_invariant]
    closed spec fn inv(self) -> bool {
        scan_wf(self@)
    }
}

/// The start of the search over a listing: nothing to search when the
/// listing failed or is empty.
pub open spec fn spec_start(dirs: Option<Seq<Seq<char>>>) -> ScanView {
    match dirs {
        Some(d) => if d.len() > 0 {
            (d, 0, ScanPhase::Name)
        } else {
            (d, 0, ScanPhase::NotFound)
        },
        None => (Seq::empty(), 0, ScanPhase::NotFound),
    }
}

/// Moving on to the next directory.
pub open spec fn next_dir(v: ScanView) -> ScanView {
    if v.1 + 1 < v.0.len() {
        (v.0, v.1 + 1, ScanPhase::Name)
    } else {
        (v.0, v.1, ScanPhase::NotFound)
    }
}

/// Moving on from label `i` to the next label, or to the fallback after the
/// last one.
pub open spec fn next_label(v: ScanView, i: u8) -> ScanView {
    if i < MAX_LABEL {
        (v.0, v.1, ScanPhase::Label((i + 1) as u8))
    } else {
        (v.0, v.1, ScanPhase::Fallback)
    }
}

/// The text an event reports (for a text read).
pub open spec fn event_text(ev: ScanEvent) -> Option<Seq<char>> {
    match ev {
        ScanEvent::Text(t) => t.deep_view(),
        ScanEvent::Temperature(_) => None,
    }
}

/// Whether an event reports a parsed reading (for a temperature read).
pub open spec fn event_ok(ev: ScanEvent) -> bool {
    ev matches ScanEvent::Temperature(true)
}

/// One step of the search: where it goes when the caller found `text` (for
/// a text read) or `ok` (for a temperature read).
pub open spec fn spec_next(v: ScanView, text: Option<Seq<char>>, ok: bool) -> ScanView {
    match v.2 {
        ScanPhase::Name => match text {
            Some(t) => if spec_cpu_sensor_name(t) {
                (v.0, v.1, ScanPhase::Label(1))
            } else {
                next_dir(v)
            },
            None => next_dir(v),
        },
        ScanPhase::Label(i) => match text {
            Some(t) => if spec_package_label(t) {
                (v.0, v.1, ScanPhase::Input(i))
            } else {
                next_label(v, i)
            },
            None => next_label(v, i),
        },
        ScanPhase::Input(i) => if ok {
            (v.0, v.1, ScanPhase::Found(i))
        } else {
            next_label(v, i)
        },
        ScanPhase::Fallback => if ok {
            (v.0, v.1, ScanPhase::Found(1))
        } else {
            next_dir(v)
        },
        _ => v,
    }
}

/// Whether the search waits for a text read (`true`) or a temperature read
/// (`false`); it waits for neither once it is over.
pub open spec fn waits_for_text(p: ScanPhase) -> bool {
    p is Name || p is Label
}

pub open spec fn waits_for_temperature(p: ScanPhase) -> bool {
    p is Input || p is Fallback
}

/// The event fits what the search waits for.
pub open spec fn event_fits(p: ScanPhase, ev: ScanEvent) -> bool {
    ||| waits_for_text(p) && ev is Text
    ||| waits_for_temperature(p) && ev is Temperature
}

/// The file the search asks for in a waiting phase.
pub open spec fn pending_path(v: ScanView) -> Seq<char> {
    let dir = v.0[v.1 as int];
    match v.2 {
        ScanPhase::Name => spec_name_path(dir),
        ScanPhase::Label(i) => spec_label_path(dir, i as nat),
        ScanPhase::Input(i) => spec_input_path(dir, i as nat),
        ScanPhase::Fallback => spec_input_path(dir, 1),
        ScanPhase::Found(i) => spec_input_path(dir, i as nat),
        ScanPhase::NotFound => Seq::empty(),
    }
}

/// The request that goes with a view.
pub open spec fn spec_request(v: ScanView, r: ScanRequest) -> bool {
    match r {
        ScanRequest::ReadText(p) => waits_for_text(v.2) && p@ == pending_path(v),
        ScanRequest::ReadTemperature(p) => waits_for_temperature(v.2) && p@ == pending_path(v),
        ScanRequest::Finished(found) => (v.2 is Found && found) || (v.2 is NotFound && !found),
    }
}

/// A bound on the steps left: each step lowers it.
pub open spec fn scan_measure(v: ScanView) -> int {
    let left = v.0.len() - v.1;
    let rank: int = match v.2 {
        ScanPhase::Name => 25,
        ScanPhase::Label(i) => 26 - 2 * i,
        ScanPhase::Input(i) => 25 - 2 * i,
        ScanPhase::Fallback => 4,
        _ => 0,
    };
    match v.2 {
        ScanPhase::Found(_) | ScanPhase::NotFound => 0,
        _ => left * 32 + rank,
    }
}

impl CpuTempScan {
    /// The search over the sensor directories of a listing, `None` when the
    /// listing failed.
    pub fn start(dirs: Option<Vec<String>>) -> (r: Self)
        ensures
            r@ == spec_start(
                match dirs {
                    Some(d) => Some(d.deep_view()),
                    None => None,
                },
            ),
    {
        match dirs {
            Some(d) => {
                if d.len() > 0 {
                    CpuTempScan { dirs: d, dir: 0, phase: ScanPhase::Name }
                } else {
                    CpuTempScan { dirs: d, dir: 0, phase: ScanPhase::NotFound }
                }
            },
            None => {
                let r = CpuTempScan { dirs: Vec::new(), dir: 0, phase: ScanPhase::NotFound };
                assert(r.dirs.deep_view() =~= Seq::<Seq<char>>::empty());
                r
            },
        }
    }

    /// What the caller is to do next.
    pub fn request(&self) -> (r: ScanRequest)
        ensures
            spec_request(self@, r),
    {
        proof {
            use_type_invariant(self);
        }
        let ghost v = self@;
        match self.phase {
            ScanPhase::Name => {
                assert(self.dirs.deep_view()[self.dir as int] == self.dirs[self.dir as int]@);
                ScanRequest::ReadText(name_path(self.dirs[self.dir].as_str()))
            },
            ScanPhase::Label(i) => {
                assert(self.dirs.deep_view()[self.dir as int] == self.dirs[self.dir as int]@);
                ScanRequest::ReadText(numbered_path(self.dirs[self.dir].as_str(), i, true))
            },
            ScanPhase::Input(i) => {
                assert(self.dirs.deep_view()[self.dir as int] == self.dirs[self.dir as int]@);
                ScanRequest::ReadTemperature(numbered_path(self.dirs[self.dir].as_str(), i, false))
            },
            ScanPhase::Fallback => {
                assert(self.dirs.deep_view()[self.dir as int] == self.dirs[self.dir as int]@);
                ScanRequest::ReadTemperature(numbered_path(self.dirs[self.dir].as_str(), 1, false))
            },
            ScanPhase::Found(_) => ScanRequest::Finished(true),
            ScanPhase::NotFound => ScanRequest::Finished(false),
        }
    }

    fn move_to_next_dir(&mut self)
        requires
            scan_wf(old(self)@),
            old(self)@.1 < old(self)@.0.len(),
        ensures
            final(self)@ == next_dir(old(self)@),
    {
        assert(self.dirs.deep_view().len() == self.dirs.len());
        if self.dir + 1 < self.dirs.len() {
            self.dir = self.dir + 1;
            self.phase = ScanPhase::Name;
        } else {
            self.phase = ScanPhase::NotFound;
        }
    }

    fn move_to_next_label(&mut self, i: u8)
        requires
            scan_wf(old(self)@),
            old(self)@.1 < old(self)@.0.len(),
            1 <= i <= MAX_LABEL,
        ensures
            final(self)@ == next_label(old(self)@, i),
    {
        if i < MAX_LABEL {
            self.phase = ScanPhase::Label(i + 1);
        } else {
            self.phase = ScanPhase::Fallback;
        }
    }

    /// Takes what the caller found for the last request and moves the
    /// search on.
    pub fn advance(&mut self, ev: ScanEvent)
        requires
            event_fits(old(self)@.2, ev),
        ensures
            final(self)@ == spec_next(old(self)@, event_text(ev), event_ok(ev)),
            scan_measure(final(self)@) < scan_measure(old(self)@),
    {
        proof {
            use_type_invariant(&*self);
        }
        match self.phase {
            ScanPhase::Name => {
                let hit = match &ev {
                    ScanEvent::Text(Some(t)) => is_cpu_sensor_name(t.as_str()),
                    _ => false,
                };
                if hit {
                    self.phase = ScanPhase::Label(1);
                } else {
                    self.move_to_next_dir();
                }
            },
            ScanPhase::Label(i) => {
                let hit = match &ev {
                    ScanEvent::Text(Some(t)) => is_package_label(t.as_str()),
                    _ => false,
                };
                if hit {
                    self.phase = ScanPhase::Input(i);
                } else {
                    self.move_to_next_label(i);
                }
            },
            ScanPhase::Input(i) => {
                if ev matches ScanEvent::Temperature(true) {
                    self.phase = ScanPhase::Found(i);
                } else {
                    self.move_to_next_label(i);
                }
            },
            ScanPhase::Fallback => {
                if ev matches ScanEvent::Temperature(true) {
                    self.phase = ScanPhase::Found(1);
                } else {
                    self.move_to_next_dir();
                }
            },
            _ => {},
        }
    }
}

/// The text of file `p` in a fixed state of the files: `texts` maps each
/// readable file to its contents.
pub open spec fn file_text(texts: Map<Seq<char>, Seq<char>>, p: Seq<char>) -> Option<Seq<char>> {
    if texts.contains_key(p) {
        Some(texts[p])
    } else {
        None
    }
}

/// Label `i` of `dir` marks the package temperature and its input gives a
/// reading (`parses` holds the files that read and parse as a number).
pub open spec fn label_gives_reading(
    texts: Map<Seq<char>, Seq<char>>,
    parses: Set<Seq<char>>,
    dir: Seq<char>,
    i: nat,
) -> bool {
    match file_text(texts, spec_label_path(dir, i)) {
        Some(t) => spec_package_label(t) && parses.contains(spec_input_path(dir, i)),
        None => false,
    }
}

/// The first label from `i` to the last that gives a reading.
pub open spec fn first_label_from(
    texts: Map<Seq<char>, Seq<char>>,
    parses: Set<Seq<char>>,
    dir: Seq<char>,
    i: nat,
) -> Option<nat>
    decreases MAX_LABEL + 1 - i,
{
    if i > MAX_LABEL {
        None
    } else if label_gives_reading(texts, parses, dir, i) {
        Some(i)
    } else {
        first_label_from(texts, parses, dir, i + 1)
    }
}

/// The directory's `name` marks a CPU sensor.
pub open spec fn is_cpu_sensor_dir(texts: Map<Seq<char>, Seq<char>>, dir: Seq<char>) -> bool {
    match file_text(texts, spec_name_path(dir)) {
        Some(t) => spec_cpu_sensor_name(t),
        None => false,
    }
}

/// The number `i` of the `temp<i>_input` that gives a directory's reading:
/// the first package label's, else `temp1_input` when it parses.
pub open spec fn dir_reading(
    texts: Map<Seq<char>, Seq<char>>,
    parses: Set<Seq<char>>,
    dir: Seq<char>,
) -> Option<nat> {
    if !is_cpu_sensor_dir(texts, dir) {
        None
    } else {
        match first_label_from(texts, parses, dir, 1) {
            Some(i) => Some(i),
            None => if parses.contains(spec_input_path(dir, 1)) {
                Some(1)
            } else {
                None
            },
        }
    }
}

/// The file that gives the reading, searching from directory `k` on.
pub open spec fn reading_from(
    texts: Map<Seq<char>, Seq<char>>,
    parses: Set<Seq<char>>,
    dirs: Seq<Seq<char>>,
    k: nat,
) -> Option<Seq<char>>
    decreases dirs.len() - k,
{
    if k >= dirs.len() {
        None
    } else {
        match dir_reading(texts, parses, dirs[k as int]) {
            Some(i) => Some(spec_input_path(dirs[k as int], i)),
            None => reading_from(texts, parses, dirs, k + 1),
        }
    }
}

/// The file whose reading is the CPU temperature, for a listing of sensor
/// directories (`None` when the listing failed) and a fixed state of the
/// files.
pub open spec fn spec_cpu_temp_file(
    dirs: Option<Seq<Seq<char>>>,
    texts: Map<Seq<char>, Seq<char>>,
    parses: Set<Seq<char>>,
) -> Option<Seq<char>> {
    match dirs {
        Some(d) => reading_from(texts, parses, d, 0),
        None => None,
    }
}

/// The search as the files answer it, from a view on to its end.
pub open spec fn drive(
    v: ScanView,
    texts: Map<Seq<char>, Seq<char>>,
    parses: Set<Seq<char>>,
) -> ScanView
    decreases scan_measure(v),
{
    if !scan_wf(v) || v.2 is Found || v.2 is NotFound {
        v
    } else {
        let p = pending_path(v);
        let next = spec_next(v, file_text(texts, p), parses.contains(p));
        if scan_measure(next) < scan_measure(v) {
            drive(next, texts, parses)
        } else {
            v
        }
    }
}

/// What the current directory's `temp1_input` gives, else the directories
/// after it.
pub open spec fn fallback_outcome(
    v: ScanView,
    texts: Map<Seq<char>, Seq<char>>,
    parses: Set<Seq<char>>,
) -> Option<Seq<char>> {
    let dir = v.0[v.1 as int];
    if parses.contains(spec_input_path(dir, 1)) {
        Some(spec_input_path(dir, 1))
    } else {
        reading_from(texts, parses, v.0, v.1 + 1)
    }
}

/// What the current directory's labels from `j` on give, else its fallback.
pub open spec fn labels_outcome(
    v: ScanView,
    texts: Map<Seq<char>, Seq<char>>,
    parses: Set<Seq<char>>,
    j: nat,
) -> Option<Seq<char>> {
    let dir = v.0[v.1 as int];
    match first_label_from(texts, parses, dir, j) {
        Some(k) => Some(spec_input_path(dir, k)),
        None => fallback_outcome(v, texts, parses),
    }
}

/// What the search will still find from a view.
pub open spec fn scan_outcome(
    v: ScanView,
    texts: Map<Seq<char>, Seq<char>>,
    parses: Set<Seq<char>>,
) -> Option<Seq<char>> {
    let dir = v.0[v.1 as int];
    match v.2 {
        ScanPhase::Name => reading_from(texts, parses, v.0, v.1),
        ScanPhase::Label(i) => labels_outcome(v, texts, parses, i as nat),
        ScanPhase::Input(i) => if parses.contains(spec_input_path(dir, i as nat)) {
            Some(spec_input_path(dir, i as nat))
        } else {
            labels_outcome(v, texts, parses, (i + 1) as nat)
        },
        ScanPhase::Fallback => fallback_outcome(v, texts, parses),
        ScanPhase::Found(i) => Some(spec_input_path(dir, i as nat)),
        ScanPhase::NotFound => None,
    }
}

proof fn lemma_step_keeps_outcome(
    v: ScanView,
    texts: Map<Seq<char>, Seq<char>>,
    parses: Set<Seq<char>>,
)
    requires
        scan_wf(v),
        !(v.2 is Found || v.2 is NotFound),
    ensures
        ({
            let p = pending_path(v);
            let next = spec_next(v, file_text(texts, p), parses.contains(p));
            &&& scan_wf(next)
            &&& scan_measure(next) < scan_measure(v)
            &&& scan_outcome(next, texts, parses) == scan_outcome(v, texts, parses)
        }),
{
    let p = pending_path(v);
    let dir = v.0[v.1 as int];
    let next = spec_next(v, file_text(texts, p), parses.contains(p));
    if v.1 + 1 >= v.0.len() {
        assert(reading_from(texts, parses, v.0, v.1 + 1) is None);
    }
    match v.2 {
        ScanPhase::Name => {
            assert(reading_from(texts, parses, v.0, v.1) == match dir_reading(texts, parses, dir) {
                Some(i) => Some(spec_input_path(dir, i)),
                None => reading_from(texts, parses, v.0, v.1 + 1),
            });
            if next.2 is Label {
                assert(is_cpu_sensor_dir(texts, dir));
            } else {
                assert(dir_reading(texts, parses, dir) is None);
            }
        },
        ScanPhase::Label(i) => {
            assert(first_label_from(texts, parses, dir, i as nat) == if label_gives_reading(
                texts,
                parses,
                dir,
                i as nat,
            ) {
                Some(i as nat)
            } else {
                first_label_from(texts, parses, dir, (i + 1) as nat)
            });
            assert(first_label_from(texts, parses, dir, (MAX_LABEL + 1) as nat) is None);
        },
        ScanPhase::Input(i) => {
            assert(first_label_from(texts, parses, dir, (MAX_LABEL + 1) as nat) is None);
        },
        _ => {},
    }
}

proof fn lemma_drive(v: ScanView, texts: Map<Seq<char>, Seq<char>>, parses: Set<Seq<char>>)
    requires
        scan_wf(v),
    ensures
        scan_wf(drive(v, texts, parses)),
        drive(v, texts, parses).2 is Found || drive(v, texts, parses).2 is NotFound,
        scan_outcome(drive(v, texts, parses), texts, parses) == scan_outcome(v, texts, parses),
    decreases scan_measure(v),
{
    if !(v.2 is Found || v.2 is NotFound) {
        lemma_step_keeps_outcome(v, texts, parses);
        let p = pending_path(v);
        let next = spec_next(v, file_text(texts, p), parses.contains(p));
        lemma_drive(next, texts, parses);
    }
}

/// The search finds what the description of the CPU temperature names:
/// driven to its end by a fixed state of the files, it stops at the
/// `temp<i>_input` file of the first CPU sensor directory that gives a
/// reading (the first package label's, else its `temp1_input`), and finds
/// nothing when no directory gives one.
pub proof fn law_cpu_temp_search(
    dirs: Option<Seq<Seq<char>>>,
    texts: Map<Seq<char>, Seq<char>>,
    parses: Set<Seq<char>>,
)
    ensures
        ({
            let end = drive(spec_start(dirs), texts, parses);
            match spec_cpu_temp_file(dirs, texts, parses) {
                Some(p) => end.2 is Found && pending_path(end) == p,
                None => end.2 is NotFound,
            }
        }),
{
    let v = spec_start(dirs);
    lemma_drive(v, texts, parses);
    match dirs {
        Some(d) => {
            if d.len() == 0 {
                assert(reading_from(texts, parses, d, 0) is None);
            }
        },
        None => {},
    }
}

/// The sensor directory `dir` is named as a CPU sensor, in the plain words
/// of `law_cpu_sensor_lowered`.
pub open spec fn named_as_cpu_sensor(texts: Map<Seq<char>, Seq<char>>, dir: Seq<char>) -> bool {
    &&& texts.contains_key(spec_name_path(dir))
    &&& {
        let l = spec_lowercase(spec_trim(texts[spec_name_path(dir)]));
        has_word(l, seq!['c', 'o', 'r', 'e', 't', 'e', 'm', 'p']) || has_word(
            l,
            seq!['k', '1', '0', 't', 'e', 'm', 'p'],
        ) || has_word(l, seq!['c', 'p', 'u'])
    }
}

/// Label `i` of `dir` can be read and, trimmed and lowered, contains
/// `package`, `tdie` or `tctl`, in plain words.
pub open spec fn labelled_package(texts: Map<Seq<char>, Seq<char>>, dir: Seq<char>, i: nat) -> bool {
    &&& texts.contains_key(spec_label_path(dir, i))
    &&& {
        let l = spec_lowercase(spec_trim(texts[spec_label_path(dir, i)]));
        has_word(l, seq!['p', 'a', 'c', 'k', 'a', 'g', 'e']) || has_word(
            l,
            seq!['t', 'd', 'i', 'e'],
        ) || has_word(l, seq!['t', 'c', 't', 'l'])
    }
}

proof fn lemma_label_gives_reading(
    texts: Map<Seq<char>, Seq<char>>,
    parses: Set<Seq<char>>,
    dir: Seq<char>,
    i: nat,
)
    ensures
        label_gives_reading(texts, parses, dir, i) <==> labelled_package(texts, dir, i)
            && parses.contains(spec_input_path(dir, i)),
{
    if texts.contains_key(spec_label_path(dir, i)) {
        law_package_label_lowered(spec_lowercase(spec_trim(texts[spec_label_path(dir, i)])));
    }
}

proof fn lemma_is_cpu_sensor_dir(texts: Map<Seq<char>, Seq<char>>, dir: Seq<char>)
    ensures
        is_cpu_sensor_dir(texts, dir) <==> named_as_cpu_sensor(texts, dir),
{
    if texts.contains_key(spec_name_path(dir)) {
        law_cpu_sensor_lowered(spec_lowercase(spec_trim(texts[spec_name_path(dir)])));
    }
}

proof fn lemma_first_label_from(
    texts: Map<Seq<char>, Seq<char>>,
    parses: Set<Seq<char>>,
    dir: Seq<char>,
    j: nat,
)
    requires
        j >= 1,
    ensures
        match first_label_from(texts, parses, dir, j) {
            Some(i) => j <= i <= 10 && labelled_package(texts, dir, i) && parses.contains(
                spec_input_path(dir, i),
            ) && forall|m: nat|
                j <= m < i ==> !(#[trigger] labelled_package(texts, dir, m) && parses.contains(
                    spec_input_path(dir, m),
                )),
            None => forall|m: nat|
                j <= m <= 10 ==> !(#[trigger] labelled_package(texts, dir, m) && parses.contains(
                    spec_input_path(dir, m),
                )),
        },
    decreases MAX_LABEL + 1 - j,
{
    if j <= MAX_LABEL {
        lemma_label_gives_reading(texts, parses, dir, j);
        if !label_gives_reading(texts, parses, dir, j) {
            lemma_first_label_from(texts, parses, dir, j + 1);
            assert forall|m: nat| j <= m < j + 1 implies !(#[trigger] labelled_package(
                texts,
                dir,
                m,
            ) && parses.contains(spec_input_path(dir, m))) by {
                assert(m == j);
            }
        }
    }
}

proof fn lemma_first_label_range(
    texts: Map<Seq<char>, Seq<char>>,
    parses: Set<Seq<char>>,
    dir: Seq<char>,
    j: nat,
)
    ensures
        first_label_from(texts, parses, dir, j) matches Some(i) ==> j <= i <= MAX_LABEL
            && parses.contains(spec_input_path(dir, i)),
    decreases MAX_LABEL + 1 - j,
{
    if j <= MAX_LABEL && !label_gives_reading(texts, parses, dir, j) {
        lemma_first_label_range(texts, parses, dir, j + 1);
    }
}

proof fn lemma_reading_from_found(
    texts: Map<Seq<char>, Seq<char>>,
    parses: Set<Seq<char>>,
    dirs: Seq<Seq<char>>,
    k: nat,
)
    ensures
        reading_from(texts, parses, dirs, k) matches Some(p) ==> exists|d: int, i: nat|
            k <= d < dirs.len() && 1 <= i <= MAX_LABEL && p == #[trigger] spec_input_path(
                dirs[d],
                i,
            ) && parses.contains(p) && named_as_cpu_sensor(texts, dirs[d]),
    decreases dirs.len() - k,
{
    if k < dirs.len() {
        let dir = dirs[k as int];
        match dir_reading(texts, parses, dir) {
            Some(i) => {
                lemma_first_label_range(texts, parses, dir, 1);
                let t = texts[spec_name_path(dir)];
                law_cpu_sensor_lowered(spec_lowercase(spec_trim(t)));
                assert(named_as_cpu_sensor(texts, dir));
                assert(1 <= i <= MAX_LABEL);
            },
            None => {
                lemma_reading_from_found(texts, parses, dirs, k + 1);
            },
        }
    }
}

/// The CPU temperature always comes from a directory named as a CPU sensor
/// (`coretemp`, `k10temp` or `cpu` in its trimmed, lowered name), from one of
/// its `temp1_input` to `temp10_input` files, and from a file that parses:
/// a disk or chipset sensor listed first is never taken for the CPU.
pub proof fn law_cpu_temp_from_cpu_sensor(
    dirs: Seq<Seq<char>>,
    texts: Map<Seq<char>, Seq<char>>,
    parses: Set<Seq<char>>,
    p: Seq<char>,
)
    requires
        spec_cpu_temp_file(Some(dirs), texts, parses) == Some(p),
    ensures
        exists|d: int, i: nat|
            0 <= d < dirs.len() && 1 <= i <= MAX_LABEL && p == #[trigger] spec_input_path(dirs[d], i)
                && parses.contains(p) && named_as_cpu_sensor(texts, dirs[d]),
{
    lemma_reading_from_found(texts, parses, dirs, 0);
}

proof fn lemma_reading_from_first(
    texts: Map<Seq<char>, Seq<char>>,
    parses: Set<Seq<char>>,
    dirs: Seq<Seq<char>>,
    k: nat,
)
    ensures
        match reading_from(texts, parses, dirs, k) {
            Some(p) => exists|d: int, i: nat|
                k <= d < dirs.len() && 1 <= i <= 10 && p == #[trigger] spec_input_path(dirs[d], i)
                    && parses.contains(p) && named_as_cpu_sensor(texts, dirs[d]) && (i != 1
                    ==> labelled_package(texts, dirs[d], i)) && (forall|m: nat|
                    1 <= m < i ==> !(#[trigger] labelled_package(texts, dirs[d], m)
                        && parses.contains(spec_input_path(dirs[d], m)))) && (i == 1
                    && !labelled_package(texts, dirs[d], 1) ==> forall|m: nat|
                    1 <= m <= 10 ==> !(#[trigger] labelled_package(texts, dirs[d], m)
                        && parses.contains(spec_input_path(dirs[d], m)))) && (forall|e: int|
                    k <= e < d ==> !(named_as_cpu_sensor(texts, #[trigger] dirs[e])
                        && parses.contains(spec_input_path(dirs[e], 1)))),
            None => forall|e: int|
                k <= e < dirs.len() ==> !(named_as_cpu_sensor(texts, #[trigger] dirs[e])
                    && parses.contains(spec_input_path(dirs[e], 1))) && (named_as_cpu_sensor(
                    texts,
                    dirs[e],
                ) ==> forall|m: nat|
                    1 <= m <= 10 ==> !(#[trigger] labelled_package(texts, dirs[e], m)
                        && parses.contains(spec_input_path(dirs[e], m)))),
        },
    decreases dirs.len() - k,
{
    if k < dirs.len() {
        let dir = dirs[k as int];
        lemma_is_cpu_sensor_dir(texts, dir);
        lemma_first_label_from(texts, parses, dir, 1);
        lemma_reading_from_first(texts, parses, dirs, k + 1);
        match dir_reading(texts, parses, dir) {
            Some(i) => {
                let p = spec_input_path(dir, i);
                assert(k <= k < dirs.len() && 1 <= i <= 10 && p == spec_input_path(dirs[k as int], i));
            },
            None => {
                assert(!(named_as_cpu_sensor(texts, dir) && parses.contains(spec_input_path(dir, 1))));
                match reading_from(texts, parses, dirs, k + 1) {
                    Some(p) => {
                        let (d, i) = choose|d: int, i: nat|
                            k + 1 <= d < dirs.len() && 1 <= i <= 10 && p == #[trigger] spec_input_path(dirs[d], i)
                                && parses.contains(p) && named_as_cpu_sensor(texts, dirs[d]) && (i != 1
                                ==> labelled_package(texts, dirs[d], i)) && (forall|m: nat|
                                1 <= m < i ==> !(#[trigger] labelled_package(texts, dirs[d], m)
                                    && parses.contains(spec_input_path(dirs[d], m)))) && (forall|e: int|
                                k + 1 <= e < d ==> !(named_as_cpu_sensor(texts, #[trigger] dirs[e])
                                    && parses.contains(spec_input_path(dirs[e], 1))));
                        assert forall|e: int| k <= e < d implies !(named_as_cpu_sensor(
                            texts,
                            #[trigger] dirs[e],
                        ) && parses.contains(spec_input_path(dirs[e], 1))) by {
                            if e == k {
                            }
                        }
                    },
                    None => {
                        assert forall|e: int| k <= e < dirs.len() implies !(named_as_cpu_sensor(
                            texts,
                            #[trigger] dirs[e],
                        ) && parses.contains(spec_input_path(dirs[e], 1))) by {
                            if e == k {
                            }
                        }
                    },
                }
            },
        }
    }
}

/// Which reading the search settles on, in plain terms: it comes from a
/// directory named as a CPU sensor; from `temp<i>_input` with `i` from 1 to
/// 10, where for `i` other than 1 label `i` marks the package or die, and no
/// smaller label marks it with an input that parses; when it is
/// `temp1_input` without label 1 marking the package, none of the labels 1
/// to 10 marks it with an input that parses; and every directory before it
/// that is named as a CPU sensor has a `temp1_input` that does not parse.
/// When nothing is found, no directory named as a CPU sensor has a
/// `temp1_input` that parses or a package label 1 to 10 whose input parses.
pub proof fn law_cpu_temp_choice(
    dirs: Seq<Seq<char>>,
    texts: Map<Seq<char>, Seq<char>>,
    parses: Set<Seq<char>>,
)
    ensures
        match spec_cpu_temp_file(Some(dirs), texts, parses) {
            Some(p) => exists|d: int, i: nat|
                0 <= d < dirs.len() && 1 <= i <= 10 && p == #[trigger] spec_input_path(dirs[d], i)
                    && parses.contains(p) && named_as_cpu_sensor(texts, dirs[d]) && (i != 1
                    ==> labelled_package(texts, dirs[d], i)) && (forall|m: nat|
                    1 <= m < i ==> !(#[trigger] labelled_package(texts, dirs[d], m)
                        && parses.contains(spec_input_path(dirs[d], m)))) && (i == 1
                    && !labelled_package(texts, dirs[d], 1) ==> forall|m: nat|
                    1 <= m <= 10 ==> !(#[trigger] labelled_package(texts, dirs[d], m)
                        && parses.contains(spec_input_path(dirs[d], m)))) && (forall|e: int|
                    0 <= e < d ==> !(named_as_cpu_sensor(texts, #[trigger] dirs[e])
                        && parses.contains(spec_input_path(dirs[e], 1)))),
            None => forall|e: int|
                0 <= e < dirs.len() ==> !(named_as_cpu_sensor(texts, #[trigger] dirs[e])
                    && parses.contains(spec_input_path(dirs[e], 1))) && (named_as_cpu_sensor(
                    texts,
                    dirs[e],
                ) ==> forall|m: nat|
                    1 <= m <= 10 ==> !(#[trigger] labelled_package(texts, dirs[e], m)
                        && parses.contains(spec_input_path(dirs[e], m)))),
        },
{
    lemma_reading_from_first(texts, parses, dirs, 0);
}

/// The files a sensor directory is asked for: `name`, `temp<i>_label` and
/// `temp<i>_input`, with `<i>` in decimal, joined under the directory.
pub proof fn law_sensor_paths(dir: Seq<char>, i: nat)
    ensures
        spec_name_path(dir) == spec_join(dir, seq!['n', 'a', 'm', 'e']),
        spec_label_path(dir, i) == spec_join(
            dir,
            seq!['t', 'e', 'm', 'p'] + spec_decimal(i) + seq!['_', 'l', 'a', 'b', 'e', 'l'],
        ),
        spec_input_path(dir, i) == spec_join(
            dir,
            seq!['t', 'e', 'm', 'p'] + spec_decimal(i) + seq!['_', 'i', 'n', 'p', 'u', 't'],
        ),
{
    reveal_strlit("name");
    reveal_strlit("temp");
    reveal_strlit("_label");
    reveal_strlit("_input");
    assert("name"@ =~= seq!['n', 'a', 'm', 'e']);
    assert("temp"@ =~= seq!['t', 'e', 'm', 'p']);
    assert("_label"@ =~= seq!['_', 'l', 'a', 'b', 'e', 'l']);
    assert("_input"@ =~= seq!['_', 'i', 'n', 'p', 'u', 't']);
}

} // verus!
