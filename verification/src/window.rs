//! The applet's text and its reactions to its messages.

use vstd::prelude::*;
use vstd::string::*;
use vstd::std_specs::cmp::PartialEqSpec;
use crate::monitor::{GpuStats, SystemStats, spec_default_stats};
use crate::number::{
    Rounded, push_padded, push_tenths, push_whole, show_whole, spec_pad_left, spec_show_tenths,
    spec_show_whole,
};

verus! {

/// A load as the applet shows it: the rounded percentage and `%`, or `--`
/// when it is unknown.
pub open spec fn spec_fmt_usage(usage: Option<Rounded>) -> Seq<char> {
    match usage {
        Some(u) => spec_show_whole(u) + "%"@,
        None => "--"@,
    }
}

/// Formats an optional usage percentage as `"42%"` or `"--"`.
pub fn fmt_usage(usage: Option<Rounded>) -> (r: String)
    ensures
        r@ == spec_fmt_usage(usage),
{
    match usage {
        Some(u) => {
            let mut s = show_whole(u);
            s.append("%");
            s
        },
        None => "--".to_owned(),
    }
}

/// One line of GPU detail: the name, the load and, when known, the
/// temperature, two spaces apart.
pub open spec fn spec_gpu_text(gpu: GpuStats) -> Seq<char> {
    let head = gpu.name@ + "  "@ + spec_fmt_usage(gpu.usage_percent);
    match gpu.temp {
        Some(t) => head + "  "@ + spec_show_whole(t) + "°C"@,
        None => head,
    }
}

/// One line of GPU detail, e.g. `"NVIDIA GeForce RTX 5090  37%  52°C"`.
pub fn gpu_text(gpu: &GpuStats) -> (r: String)
    ensures
        r@ == spec_gpu_text(*gpu),
{
    let mut s = gpu.name.clone();
    s.append("  ");
    let usage = fmt_usage(gpu.usage_percent);
    s.append(usage.as_str());
    match gpu.temp {
        Some(t) => {
            s.append("  ");
            push_whole(&mut s, t);
            s.append("°C");
        },
        None => {},
    }
    s
}

/// A known load is shown as its rounded value followed by `%`; an unknown
/// one as `--`.
pub proof fn law_fmt_usage(usage: Option<Rounded>)
    ensures
        usage matches Some(u) ==> spec_fmt_usage(usage) == spec_show_whole(u) + seq!['%'],
        usage is None ==> spec_fmt_usage(usage) == seq!['-', '-'],
{
    reveal_strlit("%");
    reveal_strlit("--");
    assert("--"@ =~= seq!['-', '-']);
    assert("%"@ =~= seq!['%']);
}

/// The GPU detail line starts with the GPU's name and its load, two spaces
/// apart; when the temperature is known, whatever the load, the line goes on
/// with two spaces, the rounded temperature and `°C`, and without it the line
/// is exactly what it would be with the temperature left out.
pub proof fn law_gpu_text(gpu: GpuStats)
    ensures
        ({
            let line = spec_gpu_text(gpu);
            let head = gpu.name@ + seq![' ', ' '] + spec_fmt_usage(gpu.usage_percent);
            let without = spec_gpu_text(
                GpuStats { name: gpu.name, usage_percent: gpu.usage_percent, temp: None },
            );
            &&& line.take(head.len() as int) == head
            &&& without == head
            &&& match gpu.temp {
                Some(t) => line == without + seq![' ', ' '] + spec_show_whole(t) + seq!['°', 'C'],
                None => line == without,
            }
        }),
{
    reveal_strlit("  ");
    reveal_strlit("°C");
    assert("  "@ =~= seq![' ', ' ']);
    assert("°C"@ =~= seq!['°', 'C']);
    let line = spec_gpu_text(gpu);
    let head = gpu.name@ + seq![' ', ' '] + spec_fmt_usage(gpu.usage_percent);
    match gpu.temp {
        Some(t) => {
            assert(line =~= head + (seq![' ', ' '] + spec_show_whole(t) + seq!['°', 'C']));
            assert(line.take(head.len() as int) =~= head);
        },
        None => {
            assert(line.take(head.len() as int) =~= head);
        },
    }
}

/// The CPU line of the popup: load and, when known, temperature.
pub open spec fn spec_popup_cpu_text(stats: SystemStats) -> Seq<char> {
    match stats.cpu_temp {
        Some(t) => spec_show_whole(stats.cpu_percent) + "%  "@ + spec_show_whole(t) + "°C"@,
        None => spec_show_whole(stats.cpu_percent) + "%"@,
    }
}

pub fn popup_cpu_text(stats: &SystemStats) -> (r: String)
    ensures
        r@ == spec_popup_cpu_text(*stats),
{
    let mut s = show_whole(stats.cpu_percent);
    match stats.cpu_temp {
        Some(t) => {
            s.append("%  ");
            push_whole(&mut s, t);
            s.append("°C");
        },
        None => {
            s.append("%");
        },
    }
    s
}

/// The memory line of the popup: used and total gigabytes and the
/// percentage used.
pub open spec fn spec_popup_ram_text(stats: SystemStats) -> Seq<char> {
    spec_show_tenths(stats.ram_used_gb) + " / "@ + spec_show_tenths(stats.ram_total_gb)
        + " GB  ("@ + spec_show_whole(stats.ram_percent) + "%)"@
}

pub fn popup_ram_text(stats: &SystemStats) -> (r: String)
    ensures
        r@ == spec_popup_ram_text(*stats),
{
    let mut s = String::new();
    push_tenths(&mut s, stats.ram_used_gb);
    s.append(" / ");
    push_tenths(&mut s, stats.ram_total_gb);
    s.append(" GB  (");
    push_whole(&mut s, stats.ram_percent);
    s.append("%)");
    assert(s@ =~= spec_popup_ram_text(*stats));
    s
}

/// The parts joined with `sep` between each two, as `join` does.
pub open spec fn spec_join_parts(parts: Seq<Seq<char>>, sep: Seq<char>) -> Seq<char>
    decreases parts.len(),
{
    if parts.len() == 0 {
        Seq::empty()
    } else if parts.len() == 1 {
        parts[0]
    } else {
        spec_join_parts(parts.drop_last(), sep) + sep + parts.last()
    }
}

/// The panel entry of one GPU: its load right-aligned in four columns.
pub open spec fn spec_gpu_panel_part(gpu: GpuStats) -> Seq<char> {
    "GPU:"@ + spec_pad_left(spec_fmt_usage(gpu.usage_percent), 4)
}

/// The parts of the panel text: CPU and memory load, each right-aligned in
/// three columns, then one part per GPU, or `GPU: --` when there is none.
pub open spec fn spec_panel_parts(stats: SystemStats) -> Seq<Seq<char>> {
    seq![
        "CPU:"@ + spec_pad_left(spec_show_whole(stats.cpu_percent), 3) + "%"@,
        "RAM:"@ + spec_pad_left(spec_show_whole(stats.ram_percent), 3) + "%"@,
    ] + if stats.gpus@.len() == 0 {
        seq!["GPU: --"@]
    } else {
        Seq::new(stats.gpus@.len(), |i: int| spec_gpu_panel_part(stats.gpus@[i]))
    }
}

/// The text in the panel: its parts two spaces apart.
pub open spec fn spec_panel_text(stats: SystemStats) -> Seq<char> {
    spec_join_parts(spec_panel_parts(stats), "  "@)
}

fn cpu_panel_part(stats: &SystemStats) -> (r: String)
    ensures
        r@ == spec_panel_parts(*stats)[0],
{
    let mut s = "CPU:".to_owned();
    let shown = show_whole(stats.cpu_percent);
    push_padded(&mut s, &shown, 3);
    s.append("%");
    s
}

fn ram_panel_part(stats: &SystemStats) -> (r: String)
    ensures
        r@ == spec_panel_parts(*stats)[1],
{
    let mut s = "RAM:".to_owned();
    let shown = show_whole(stats.ram_percent);
    push_padded(&mut s, &shown, 3);
    s.append("%");
    s
}

fn gpu_panel_part(gpu: &GpuStats) -> (r: String)
    ensures
        r@ == spec_gpu_panel_part(*gpu),
{
    let mut s = "GPU:".to_owned();
    let usage = fmt_usage(gpu.usage_percent);
    push_padded(&mut s, &usage, 4);
    s
}

/// The text in the panel for a sample.
pub fn panel_text_of(stats: &SystemStats) -> (r: String)
    ensures
        r@ == spec_panel_text(*stats),
{
    let ghost parts = spec_panel_parts(*stats);
    let mut s = cpu_panel_part(stats);
    assert(parts.take(1) =~= seq![parts[0]]);
    assert(spec_join_parts(parts.take(1), "  "@) == parts[0]);
    s.append("  ");
    let ram = ram_panel_part(stats);
    s.append(ram.as_str());
    assert(parts.take(2).drop_last() =~= parts.take(1));
    assert(parts.take(2).last() == parts[1]);
    assert(s@ =~= spec_join_parts(parts.take(2), "  "@));
    if stats.gpus.len() == 0 {
        s.append("  ");
        s.append("GPU: --");
        assert(parts.take(3).drop_last() =~= parts.take(2));
        assert(parts.take(3).last() == parts[2]);
        assert(parts.take(3) =~= parts);
    } else {
        let mut i: usize = 0;
        while i < stats.gpus.len()
            invariant
                i <= stats.gpus@.len(),
                stats.gpus@.len() > 0,
                parts == spec_panel_parts(*stats),
                parts.len() == stats.gpus@.len() + 2,
                s@ == spec_join_parts(parts.take(i + 2), "  "@),
            decreases stats.gpus.len() - i,
        {
            s.append("  ");
            let part = gpu_panel_part(&stats.gpus[i]);
            s.append(part.as_str());
            assert(parts.take(i + 3).drop_last() =~= parts.take(i + 2));
            assert(parts[i + 2] == spec_gpu_panel_part(stats.gpus@[i as int]));
            assert(parts.take(i + 3).last() == parts[i + 2]);
            i = i + 1;
        }
        assert(parts.take(i + 2) =~= parts);
    }
    s
}

/// The popup's CPU line is the rounded load and `%`, followed, when the
/// temperature is known, by two spaces, the rounded temperature and `°C`.
pub proof fn law_popup_cpu_text(stats: SystemStats)
    ensures
        spec_popup_cpu_text(stats) == spec_show_whole(stats.cpu_percent) + seq!['%'] + match stats.cpu_temp {
            Some(t) => seq![' ', ' '] + spec_show_whole(t) + seq!['°', 'C'],
            None => Seq::empty(),
        },
{
    reveal_strlit("%  ");
    reveal_strlit("%");
    reveal_strlit("°C");
    assert("%  "@ =~= seq!['%', ' ', ' ']);
    assert("%"@ =~= seq!['%']);
    assert("°C"@ =~= seq!['°', 'C']);
    assert(spec_popup_cpu_text(stats) =~= spec_show_whole(stats.cpu_percent) + seq!['%'] + match stats.cpu_temp {
        Some(t) => seq![' ', ' '] + spec_show_whole(t) + seq!['°', 'C'],
        None => Seq::empty(),
    });
}

/// The popup's memory line is `<used> / <total> GB  (<percent>%)`, the
/// gigabytes to tenths and the percentage rounded to whole units.
pub proof fn law_popup_ram_text(stats: SystemStats)
    ensures
        spec_popup_ram_text(stats) == spec_show_tenths(stats.ram_used_gb) + seq![' ', '/', ' ']
            + spec_show_tenths(stats.ram_total_gb) + seq![' ', 'G', 'B', ' ', ' ', '(']
            + spec_show_whole(stats.ram_percent) + seq!['%', ')'],
{
    reveal_strlit(" / ");
    reveal_strlit(" GB  (");
    reveal_strlit("%)");
    assert(" / "@ =~= seq![' ', '/', ' ']);
    assert(" GB  ("@ =~= seq![' ', 'G', 'B', ' ', ' ', '(']);
    assert("%)"@ =~= seq!['%', ')']);
}

/// Joining two non-empty lists of parts is joining each and putting the
/// separator between the two results.
pub proof fn law_join_parts(a: Seq<Seq<char>>, b: Seq<Seq<char>>, sep: Seq<char>)
    requires
        a.len() > 0,
        b.len() > 0,
    ensures
        spec_join_parts(a + b, sep) == spec_join_parts(a, sep) + sep + spec_join_parts(b, sep),
    decreases b.len(),
{
    if b.len() == 1 {
        assert((a + b).drop_last() =~= a);
    } else {
        let b1 = b.drop_last();
        law_join_parts(a, b1, sep);
        assert((a + b).drop_last() =~= a + b1);
        assert(spec_join_parts(a + b, sep) =~= spec_join_parts(a, sep) + sep + spec_join_parts(
            b,
            sep,
        ));
    }
}

/// The panel has a CPU part `CPU:` with the load right-aligned in three
/// columns and `%`, a memory part `RAM:` likewise, and then one part
/// `GPU:` with the load right-aligned in four columns for each GPU in order,
/// or the single part `GPU: --` when there is none; the parts are two spaces
/// apart.
pub proof fn law_panel_parts(stats: SystemStats)
    ensures
        ({
            let parts = spec_panel_parts(stats);
            let n = stats.gpus@.len();
            &&& parts.len() == 2 + if n == 0 { 1 } else { n }
            &&& parts[0] == seq!['C', 'P', 'U', ':'] + spec_pad_left(
                spec_show_whole(stats.cpu_percent),
                3,
            ) + seq!['%']
            &&& parts[1] == seq!['R', 'A', 'M', ':'] + spec_pad_left(
                spec_show_whole(stats.ram_percent),
                3,
            ) + seq!['%']
            &&& n == 0 ==> parts[2] == seq!['G', 'P', 'U', ':', ' ', '-', '-']
            &&& forall|i: int|
                0 <= i < n ==> parts[2 + i] == seq!['G', 'P', 'U', ':'] + spec_pad_left(
                    spec_fmt_usage(#[trigger] stats.gpus@[i].usage_percent),
                    4,
                )
            &&& spec_panel_text(stats) == spec_join_parts(parts, seq![' ', ' '])
        }),
{
    reveal_strlit("CPU:");
    reveal_strlit("RAM:");
    reveal_strlit("GPU:");
    reveal_strlit("GPU: --");
    reveal_strlit("%");
    reveal_strlit("  ");
    assert("CPU:"@ =~= seq!['C', 'P', 'U', ':']);
    assert("RAM:"@ =~= seq!['R', 'A', 'M', ':']);
    assert("GPU:"@ =~= seq!['G', 'P', 'U', ':']);
    assert("GPU: --"@ =~= seq!['G', 'P', 'U', ':', ' ', '-', '-']);
    assert("%"@ =~= seq!['%']);
    assert("  "@ =~= seq![' ', ' ']);
}

/// A message of the applet.
#[derive(Debug)]
pub enum Message<I> {
    /// The panel button was pressed.
    TogglePopup,
    /// The window with this id asks to be closed.
    CloseRequested(I),
    /// Time to sample the system again.
    Tick,
    /// A new sample arrived.
    StatsUpdate(SystemStats),
}

/// What the applet asks its runtime to do after a message.
#[derive(Debug, PartialEq, Eq)]
pub enum Command<I> {
    /// Nothing.
    Nothing,
    /// Sample the system off the UI thread and send `StatsUpdate`.
    Refresh,
    /// Destroy the popup with this id.
    DestroyPopup(I),
    /// Create a popup with a new id and report it with `popup_opened`.
    OpenPopup,
}

/// The applet's state: the last sample and the open popup, if any.
#[derive(Debug)]
pub struct Window<I> {
    pub stats: SystemStats,
    pub popup: Option<I>,
}

impl<I: PartialEq> Window<I> {
    /// The applet at start: no sample yet, no popup, and a first sample
    /// asked for.
    pub fn init() -> (r: (Self, Command<I>))
        ensures
            spec_default_stats(r.0.stats),
            r.0.popup is None,
            r.1 == Command::<I>::Refresh,
    {
        (Window { stats: SystemStats::default(), popup: None }, Command::Refresh)
    }

    /// The applet's reaction to a message: a tick asks for a sample; a
    /// sample replaces the last one; the panel button destroys the open
    /// popup, or asks for a new one when none is open; a close request for
    /// the open popup forgets it.
    pub fn update(&mut self, message: Message<I>) -> (c: Command<I>)
        ensures
            match message {
                Message::Tick => c == Command::<I>::Refresh && final(self).popup == old(
                    self,
                ).popup && final(self).stats == old(self).stats,
                Message::StatsUpdate(s) => c == Command::<I>::Nothing && final(self).stats == s
                    && final(self).popup == old(self).popup,
                Message::TogglePopup => final(self).stats == old(self).stats && match old(
                    self,
                ).popup {
                    Some(p) => c == Command::DestroyPopup(p) && final(self).popup is None,
                    None => c == Command::<I>::OpenPopup && final(self).popup is None,
                },
                Message::CloseRequested(id) => c == Command::<I>::Nothing && final(self).stats
                    == old(self).stats && (I::obeys_eq_spec() ==> final(self).popup == match old(
                    self,
                ).popup {
                    Some(p) => if p.eq_spec(&id) {
                        None
                    } else {
                        Some(p)
                    },
                    None => None,
                }) && (final(self).popup is None || final(self).popup == old(self).popup),
            },
    {
        match message {
            Message::Tick => Command::Refresh,
            Message::StatsUpdate(s) => {
                self.stats = s;
                Command::Nothing
            },
            Message::TogglePopup => {
                match self.popup.take() {
                    Some(p) => Command::DestroyPopup(p),
                    None => Command::OpenPopup,
                }
            },
            Message::CloseRequested(id) => {
                let same = match &self.popup {
                    Some(p) => *p == id,
                    None => false,
                };
                if same {
                    self.popup = None;
                }
                Command::Nothing
            },
        }
    }

    /// Records the popup that was opened after `OpenPopup`.
    pub fn popup_opened(&mut self, id: I)
        ensures
            final(self).popup == Some(id),
            final(self).stats == old(self).stats,
    {
        self.popup = Some(id);
    }

    /// The text in the panel: CPU and memory load, then the load of each
    /// GPU, or `GPU: --` when there is none.
    pub fn panel_text(&self) -> (r: String)
        ensures
            r@ == spec_panel_text(self.stats),
    {
        panel_text_of(&self.stats)
    }
}

} // verus!
