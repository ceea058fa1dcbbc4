//! Processor load and temperatures, with their running extrema.
use vstd::prelude::*;
use crate::extrema::Extrema;
use crate::panel::Mouse;
use crate::sensors::{FileRead, SensorChip, channel_temp, chip_temp};
use crate::text::{starts_with, contains, contains_str, decimal, push_decimal, push_tenths, tenths, trim, trimmed};

verus! {

/// What `str::to_lowercase` makes of a text.
pub uninterp spec fn lower_of(s: Seq<char>) -> Seq<char>;

/// Relies on `str::to_lowercase`: the lowercase mapping of each character, which
/// depends on the text alone.
#[verifier::external_body]
fn lowercase(s: &str) -> (r: String)
    ensures
        r@ == lower_of(s@),
{
    s.to_lowercase()
}

/// Temperatures of the processor, in thousandths of a degree Celsius; zero when
/// no sensor gave one.
#[derive(Clone, Copy, Debug, PartialEq, Eq)]
pub struct CpuTemps {
    pub tctl: i64,
    pub tccd1: i64,
    pub composite: i64,
}

/// The chip's `name` file, trimmed, is `n`.
pub open spec fn chip_named(c: SensorChip, n: Seq<char>) -> bool {
    c.name is Some && trimmed(c.name->0@) == n
}

/// Index of the first chip named `n`, or `cs.len()`.
pub open spec fn first_chip(cs: Seq<SensorChip>, n: Seq<char>) -> int
    decreases cs.len(),
{
    if cs.len() == 0 {
        0
    } else if chip_named(cs[0], n) {
        0
    } else {
        1 + first_chip(cs.drop_first(), n)
    }
}

proof fn lemma_first_chip(cs: Seq<SensorChip>, n: Seq<char>)
    ensures
        0 <= first_chip(cs, n) <= cs.len(),
        first_chip(cs, n) < cs.len() ==> chip_named(cs[first_chip(cs, n)], n),
        forall|i: int| 0 <= i < first_chip(cs, n) ==> !chip_named(#[trigger] cs[i], n),
    decreases cs.len(),
{
    if cs.len() > 0 && !chip_named(cs[0], n) {
        lemma_first_chip(cs.drop_first(), n);
        assert forall|i: int| 0 <= i < first_chip(cs, n) implies !chip_named(#[trigger] cs[i], n) by {
            if i > 0 {
                assert(cs[i] == cs.drop_first()[i - 1]);
            }
        }
    }
}

/// A lowercased channel label names the first core complex.
pub open spec fn names_ccd1(l: Seq<char>) -> bool {
    contains(l, "ccd1"@) || contains(l, "tccd1"@)
}

/// Whether a lowercased channel label names the first core complex.
pub fn label_names_ccd1(l: &str) -> (r: bool)
    ensures
        r == names_ccd1(l@),
{
    contains_str(l, "ccd1") || contains_str(l, "tccd1")
}

/// Channel `k + 1` of an AMD chip carries the first core complex: its label says
/// so, or, without a label file, it is the second channel.
pub open spec fn is_ccd1_channel(c: SensorChip, k: int) -> bool {
    let label = if 0 <= k < c.labels@.len() {
        c.labels@[k]
    } else {
        FileRead::Absent
    };
    match label {
        FileRead::Absent => k == 1,
        FileRead::Unreadable => false,
        FileRead::Text(t) => names_ccd1(lower_of(t@)),
    }
}

/// The first of channels 2 to 4 that carries the first core complex and reads.
pub open spec fn ccd1_from(c: SensorChip, k: int) -> int
    decreases 4 - k,
{
    if k >= 4 {
        0
    } else if is_ccd1_channel(c, k) && channel_temp(c, k) is Some {
        channel_temp(c, k)->0
    } else {
        ccd1_from(c, k + 1)
    }
}

/// What the AMD sensor chip gives: Tctl on channel 1, Tccd1 as found above,
/// and Tctl again as composite.
pub open spec fn amd_temps(cs: Seq<SensorChip>) -> CpuTemps {
    let i = first_chip(cs, "k10temp"@);
    if i < cs.len() {
        let tctl = match channel_temp(cs[i], 0) {
            Some(v) => v,
            None => 0,
        };
        CpuTemps { tctl: tctl as i64, tccd1: ccd1_from(cs[i], 1) as i64, composite: tctl as i64 }
    } else {
        CpuTemps { tctl: 0, tccd1: 0, composite: 0 }
    }
}

/// The processor temperatures: the AMD chip first; when it gives no Tctl, the
/// Intel chip's package temperature stands for both Tctl and composite.
pub open spec fn cpu_temps(cs: Seq<SensorChip>) -> CpuTemps {
    let a = amd_temps(cs);
    let i = first_chip(cs, "coretemp"@);
    if a.tctl == 0 && i < cs.len() && channel_temp(cs[i], 0) is Some {
        let v = channel_temp(cs[i], 0)->0;
        CpuTemps { tctl: v as i64, tccd1: a.tccd1, composite: v as i64 }
    } else {
        a
    }
}

fn find_chip(chips: &Vec<SensorChip>, n: &str) -> (r: usize)
    ensures
        r == first_chip(chips@, n@),
{
    proof {
        lemma_first_chip(chips@, n@);
    }
    let mut i: usize = 0;
    while i < chips.len()
        invariant
            i <= chips@.len(),
            i <= first_chip(chips@, n@),
            0 <= first_chip(chips@, n@) <= chips@.len(),
            first_chip(chips@, n@) < chips@.len() ==> chip_named(chips@[first_chip(chips@, n@)], n@),
            forall|j: int| 0 <= j < first_chip(chips@, n@) ==> !chip_named(#[trigger] chips@[j], n@),
        decreases chips.len() - i,
    {
        let named = match &chips[i].name {
            Some(t) => {
                let a = String::from_str(trim(t.as_str()));
                let b = String::from_str(n);
                a == b
            },
            None => false,
        };
        if named {
            return i;
        }
        assert(!chip_named(chips@[i as int], n@));
        i = i + 1;
    }
    i
}

fn is_ccd1(chip: &SensorChip, k: usize) -> (r: bool)
    ensures
        r == is_ccd1_channel(*chip, k as int),
{
    if k < chip.labels.len() {
        match &chip.labels[k] {
            FileRead::Absent => k == 1,
            FileRead::Unreadable => false,
            FileRead::Text(t) => {
                let l = lowercase(t.as_str());
                label_names_ccd1(l.as_str())
            },
        }
    } else {
        k == 1
    }
}

fn ccd1_temp(chip: &SensorChip) -> (r: i64)
    ensures
        r == ccd1_from(*chip, 1),
{
    let mut k: usize = 1;
    while k < 4
        invariant
            1 <= k <= 4,
            ccd1_from(*chip, 1) == ccd1_from(*chip, k as int),
        decreases 4 - k,
    {
        if is_ccd1(chip, k) {
            if let Some(v) = chip_temp(chip, k) {
                return v;
            }
        }
        k = k + 1;
    }
    0
}

/// Reads the processor temperatures from the sensor chips.
pub fn read_cpu_temperatures(chips: &Vec<SensorChip>) -> (r: CpuTemps)
    ensures
        r == cpu_temps(chips@),
{
    let mut temps = CpuTemps { tctl: 0, tccd1: 0, composite: 0 };
    let a = find_chip(chips, "k10temp");
    if a < chips.len() {
        let chip = &chips[a];
        if let Some(v) = chip_temp(chip, 0) {
            temps.tctl = v;
        }
        temps.tccd1 = ccd1_temp(chip);
        temps.composite = temps.tctl;
        assert(temps == amd_temps(chips@));
    }
    assert(temps == amd_temps(chips@));
    if temps.tctl == 0 {
        let i = find_chip(chips, "coretemp");
        if i < chips.len() {
            if let Some(v) = chip_temp(&chips[i], 0) {
                temps.composite = v;
                temps.tctl = v;
            }
        }
    }
    temps
}

/// Processor figures of the latest poll, with running extrema. Load is in
/// thousandths of a percent, temperatures in thousandths of a degree Celsius.
pub struct CpuStats {
    name: String,
    core_count: usize,
    thread_count: usize,
    overall_usage: i64,
    core_usage: Vec<i64>,
    temps: CpuTemps,
    usage: Extrema,
    tctl: Extrema,
    tccd1: Extrema,
    composite: Extrema,
}

/// Extrema after a temperature reading, which only a positive reading moves.
pub open spec fn after_temp(e: Extrema, v: int) -> Extrema {
    if v > 0 {
        e.observed(v)
    } else {
        e
    }
}

/// A line of the CPU panel for one temperature.
pub open spec fn temp_line(label: Seq<char>, v: int, e: Extrema) -> Seq<char> {
    label + tenths(v) + "°C (Min: "@ + tenths(e.min as int) + "°C, Max: "@ + tenths(e.max as int)
        + "°C)"@
}

/// The entry of core `i` on a per-core line.
pub open spec fn core_entry(i: nat, u: int) -> Seq<char> {
    "CPU"@ + decimal(i) + ": "@ + tenths(u) + "%"@
}

/// Entries `start` to `end - 1`, joined by `", "`.
pub open spec fn core_group(us: Seq<i64>, start: int, end: int) -> Seq<char>
    decreases end - start,
{
    if end <= start {
        Seq::empty()
    } else if end == start + 1 {
        core_entry(start as nat, us[start] as int)
    } else {
        core_group(us, start, end - 1) + ", "@ + core_entry((end - 1) as nat, us[end - 1] as int)
    }
}

/// The number of per-core lines shown: groups of four, at most four groups.
pub open spec fn group_count(n: nat) -> nat {
    if (n + 3) / 4 > 4 {
        4
    } else {
        (n + 3) / 4
    }
}

/// The per-core lines: four cores a line, the first sixteen cores only.
pub open spec fn core_lines(us: Seq<i64>) -> Seq<Seq<char>> {
    Seq::new(
        group_count(us.len()),
        |g: int|
            core_group(us, 4 * g, if 4 * g + 4 < us.len() { 4 * g + 4 } else { us.len() as int }),
    )
}

/// The per-core part of the panel: a blank line, a heading, the per-core lines,
/// and a count of the cores left out.
pub open spec fn per_core_block(us: Seq<i64>) -> Seq<Seq<char>> {
    if us.len() == 0 {
        Seq::empty()
    } else {
        let head = seq![Seq::<char>::empty(), "Per-core Usage:"@] + core_lines(us);
        if us.len() > 16 {
            head.push("... and "@ + decimal((us.len() - 16) as nat) + " more cores"@)
        } else {
            head
        }
    }
}

/// Past sixteen cores the per-core block is four lines of four cores, for
/// cores 0 to 15, and a count of the cores left out.
pub proof fn lemma_per_core_cap(us: Seq<i64>)
    requires
        us.len() > 16,
    ensures
        per_core_block(us).len() == 7,
        forall|g: int| 0 <= g < 4 ==> #[trigger] per_core_block(us)[2 + g] == core_group(us, 4 * g, 4 * g + 4),
        per_core_block(us)[6] == "... and "@ + decimal((us.len() - 16) as nat) + " more cores"@,
{
    assert(group_count(us.len()) == 4);
}

/// Without an AMD chip, the first Intel chip's package temperature, when it
/// reads, stands for both Tctl and composite, and Tccd1 stays zero.
pub proof fn lemma_intel_fallback(cs: Seq<SensorChip>)
    requires
        forall|i: int| 0 <= i < cs.len() ==> !chip_named(#[trigger] cs[i], "k10temp"@),
        first_chip(cs, "coretemp"@) < cs.len(),
        channel_temp(cs[first_chip(cs, "coretemp"@)], 0) is Some,
    ensures
        ({
            let v = channel_temp(cs[first_chip(cs, "coretemp"@)], 0)->0;
            cpu_temps(cs) == (CpuTemps { tctl: v as i64, tccd1: 0, composite: v as i64 })
        }),
{
    lemma_first_chip(cs, "k10temp"@);
    if first_chip(cs, "k10temp"@) < cs.len() {
        assert(!chip_named(cs[first_chip(cs, "k10temp"@)], "k10temp"@));
    }
}

proof fn lemma_differs_at(s: Seq<char>, p: Seq<char>, j: int)
    requires
        0 <= j < p.len(),
        j < s.len(),
        s[j] != p[j],
    ensures
        !starts_with(s, p),
{
    if starts_with(s, p) {
        assert(s.subrange(0, p.len() as int)[j] == s[j]);
    }
}

proof fn lemma_core_group_lead(us: Seq<i64>, start: int, end: int)
    requires
        0 <= start < end,
    ensures
        core_group(us, start, end).len() >= 3,
        core_group(us, start, end)[0] == 'C',
        core_group(us, start, end)[1] == 'P',
    decreases end - start,
{
    reveal_strlit("CPU");
    if end > start + 1 {
        lemma_core_group_lead(us, start, end - 1);
    }
}

/// A line that is neither a Tccd1 nor a composite temperature line.
pub open spec fn plain_line(l: Seq<char>) -> bool {
    !starts_with(l, "Tccd1:"@) && !starts_with(l, "Composite:"@)
}

/// With no Tccd1 reading and a composite equal to Tctl, the panel has no Tccd1
/// line and no composite line; Tctl, when positive, is its only temperature line.
pub proof fn lemma_single_temperature_line(s: CpuStats)
    requires
        s.temperatures().tccd1 == 0,
        s.temperatures().composite == s.temperatures().tctl,
    ensures
        forall|i: int| 0 <= i < s.panel_lines().len() ==> plain_line(#[trigger] s.panel_lines()[i]),
        s.temperatures().tctl > 0 ==> s.panel_lines()[3] == temp_line(
            "Tctl: "@,
            s.temperatures().tctl as int,
            s.tctl_extrema(),
        ),
{
    reveal_strlit("Tccd1:");
    reveal_strlit("Composite:");
    reveal_strlit("Model: ");
    reveal_strlit("Cores: ");
    reveal_strlit("Usage: ");
    reveal_strlit("Tctl: ");
    reveal_strlit("Per-core Usage:");
    reveal_strlit("... and ");
    let ls = s.panel_lines();
    let t = s.temperatures();
    let k: int = if t.tctl > 0 { 4 } else { 3 };
    let us = s.core_loads();
    assert forall|i: int| 0 <= i < ls.len() implies plain_line(#[trigger] ls[i]) by {
        let l = ls[i];
        if i == 0 {
            lemma_differs_at(l, "Tccd1:"@, 0);
            lemma_differs_at(l, "Composite:"@, 0);
        } else if i == 1 {
            lemma_differs_at(l, "Tccd1:"@, 0);
            lemma_differs_at(l, "Composite:"@, 2);
        } else if i == 2 {
            lemma_differs_at(l, "Tccd1:"@, 0);
            lemma_differs_at(l, "Composite:"@, 0);
        } else if i < k {
            lemma_differs_at(l, "Tccd1:"@, 2);
            lemma_differs_at(l, "Composite:"@, 0);
        } else {
            let j = i - k;
            let b = per_core_block(us);
            assert(l == b[j]);
            if j == 0 {
                assert(l.len() == 0);
            } else if j == 1 {
                lemma_differs_at(l, "Tccd1:"@, 0);
                lemma_differs_at(l, "Composite:"@, 0);
            } else if j < 2 + group_count(us.len()) {
                let g = j - 2;
                let end = if 4 * g + 4 < us.len() { 4 * g + 4 } else { us.len() as int };
                lemma_core_group_lead(us, 4 * g, end);
                lemma_differs_at(l, "Tccd1:"@, 0);
                lemma_differs_at(l, "Composite:"@, 1);
            } else {
                lemma_differs_at(l, "Tccd1:"@, 0);
                lemma_differs_at(l, "Composite:"@, 0);
            }
        }
    }
}

pub(crate) fn temp_text(label: &str, v: i64, e: Extrema) -> (r: String)
    ensures
        r@ == temp_line(label@, v as int, e),
{
    let mut line = String::from_str(label);
    push_tenths(&mut line, v);
    line.append("°C (Min: ");
    push_tenths(&mut line, e.min);
    line.append("°C, Max: ");
    push_tenths(&mut line, e.max);
    line.append("°C)");
    line
}

fn push_core_entry(out: &mut String, i: usize, u: i64)
    ensures
        final(out)@ == old(out)@ + core_entry(i as nat, u as int),
{
    out.append("CPU");
    push_decimal(out, i as u64);
    out.append(": ");
    push_tenths(out, u);
    out.append("%");
    assert(final(out)@ =~= old(out)@ + core_entry(i as nat, u as int));
}

fn group_text(us: &Vec<i64>, start: usize, end: usize) -> (r: String)
    requires
        start < end <= us@.len(),
    ensures
        r@ == core_group(us@, start as int, end as int),
{
    let mut line = String::new();
    let mut k: usize = start;
    assert(line@ =~= Seq::<char>::empty());
    while k < end
        invariant
            start <= k <= end <= us@.len(),
            line@ == core_group(us@, start as int, k as int),
        decreases end - k,
    {
        if k > start {
            line.append(", ");
        }
        push_core_entry(&mut line, k, us[k]);
        assert(line@ =~= core_group(us@, start as int, k + 1));
        k = k + 1;
    }
    line
}

fn add_per_core(mouse: &mut Mouse, us: &Vec<i64>)
    ensures
        final(mouse).heading() == old(mouse).heading(),
        final(mouse).lines() == old(mouse).lines() + per_core_block(us@),
{
    let ghost upper = mouse.lines();
    let n = us.len();
    if n > 0 {
        mouse.add(String::new());
        mouse.add(String::from_str("Per-core Usage:"));
        let groups: usize = if n > 16 { 4 } else { (n + 3) / 4 };
        let mut g: usize = 0;
        while g < groups
            invariant
                n == us@.len(),
                n > 0,
                groups == group_count(n as nat),
                g <= groups,
                mouse.heading() == old(mouse).heading(),
                mouse.lines() == upper + seq![Seq::<char>::empty(), "Per-core Usage:"@]
                    + core_lines(us@).subrange(0, g as int),
            decreases groups - g,
        {
            let end: usize = if 4 * g + 4 < n { 4 * g + 4 } else { n };
            mouse.add(group_text(us, 4 * g, end));
            assert(mouse.lines() =~= upper + seq![Seq::<char>::empty(), "Per-core Usage:"@]
                + core_lines(us@).subrange(0, g + 1));
            g = g + 1;
        }
        assert(core_lines(us@).subrange(0, g as int) =~= core_lines(us@));
        if n > 16 {
            let mut more = String::from_str("... and ");
            push_decimal(&mut more, (n - 16) as u64);
            more.append(" more cores");
            mouse.add(more);
        }
    }
    assert(mouse.lines() =~= upper + per_core_block(us@));
}

impl CpuStats {
    pub closed spec fn model(&self) -> Seq<char> {
        self.name@
    }

    pub closed spec fn cores(&self) -> nat {
        self.core_count as nat
    }

    pub closed spec fn threads(&self) -> nat {
        self.thread_count as nat
    }

    pub closed spec fn load(&self) -> int {
        self.overall_usage as int
    }

    pub closed spec fn core_loads(&self) -> Seq<i64> {
        self.core_usage@
    }

    pub closed spec fn temperatures(&self) -> CpuTemps {
        self.temps
    }

    pub closed spec fn load_extrema(&self) -> Extrema {
        self.usage
    }

    pub closed spec fn tctl_extrema(&self) -> Extrema {
        self.tctl
    }

    pub closed spec fn tccd1_extrema(&self) -> Extrema {
        self.tccd1
    }

    pub closed spec fn composite_extrema(&self) -> Extrema {
        self.composite
    }

    /// The lines of the CPU panel.
    pub open spec fn panel_lines(&self) -> Seq<Seq<char>> {
        let t = self.temperatures();
        let base = seq![
            "Model: "@ + self.model(),
            "Cores: "@ + decimal(self.cores()) + ", Threads: "@ + decimal(self.threads()),
            "Usage: "@ + tenths(self.load()) + "% (Min: "@ + tenths(self.load_extrema().min as int)
                + "%, Max: "@ + tenths(self.load_extrema().max as int) + "%)"@,
        ];
        let with_tctl = if t.tctl > 0 {
            base.push(temp_line("Tctl: "@, t.tctl as int, self.tctl_extrema()))
        } else {
            base
        };
        let with_tccd1 = if t.tccd1 > 0 {
            with_tctl.push(temp_line("Tccd1: "@, t.tccd1 as int, self.tccd1_extrema()))
        } else {
            with_tctl
        };
        let with_composite = if t.composite > 0 && t.composite != t.tctl {
            with_tccd1.push(temp_line("Composite: "@, t.composite as int, self.composite_extrema()))
        } else {
            with_tccd1
        };
        with_composite + per_core_block(self.core_loads())
    }

    pub fn temps(&self) -> (r: CpuTemps)
        ensures
            r == self.temperatures(),
    {
        self.temps
    }

    pub fn usage_extrema(&self) -> (r: Extrema)
        ensures
            r == self.load_extrema(),
    {
        self.usage
    }

    pub fn tctl_temp_extrema(&self) -> (r: Extrema)
        ensures
            r == self.tctl_extrema(),
    {
        self.tctl
    }

    /// The CPU panel.
    pub fn get_mouse(&self) -> (r: Mouse)
        ensures
            r.heading() == "CPU"@,
            r.lines() == self.panel_lines(),
    {
        let mut mouse = Mouse::new(String::from_str("CPU"));
        let mut model = String::from_str("Model: ");
        model.append(self.name.as_str());
        mouse.add(model);
        let mut counts = String::from_str("Cores: ");
        push_decimal(&mut counts, self.core_count as u64);
        counts.append(", Threads: ");
        push_decimal(&mut counts, self.thread_count as u64);
        mouse.add(counts);
        let mut usage = String::from_str("Usage: ");
        push_tenths(&mut usage, self.overall_usage);
        usage.append("% (Min: ");
        push_tenths(&mut usage, self.usage.min);
        usage.append("%, Max: ");
        push_tenths(&mut usage, self.usage.max);
        usage.append("%)");
        mouse.add(usage);
        let t = self.temps;
        if t.tctl > 0 {
            mouse.add(temp_text("Tctl: ", t.tctl, self.tctl));
        }
        if t.tccd1 > 0 {
            mouse.add(temp_text("Tccd1: ", t.tccd1, self.tccd1));
        }
        if t.composite > 0 && t.composite != t.tctl {
            mouse.add(temp_text("Composite: ", t.composite, self.composite));
        }
        let ghost upper = mouse.lines();
        add_per_core(&mut mouse, &self.core_usage);
        assert(mouse.lines() =~= self.panel_lines());
        mouse
    }

    /// Nothing read yet.
    pub fn new() -> (r: CpuStats)
        ensures
            r.model() == "Unknown CPU"@,
            r.cores() == 0,
            r.threads() == 0,
            r.load() == 0,
            r.core_loads().len() == 0,
            r.temperatures() == (CpuTemps { tctl: 0, tccd1: 0, composite: 0 }),
            r.load_extrema() == (Extrema { min: 0, max: 0 }),
            r.tctl_extrema() == (Extrema { min: 0, max: 0 }),
            r.tccd1_extrema() == (Extrema { min: 0, max: 0 }),
            r.composite_extrema() == (Extrema { min: 0, max: 0 }),
    {
        CpuStats {
            name: String::from_str("Unknown CPU"),
            core_count: 0,
            thread_count: 0,
            overall_usage: 0,
            core_usage: Vec::new(),
            temps: CpuTemps { tctl: 0, tccd1: 0, composite: 0 },
            usage: Extrema::unset(),
            tctl: Extrema::unset(),
            tccd1: Extrema::unset(),
            composite: Extrema::unset(),
        }
    }

    /// Takes in a poll: the brand of the first logical processor (if any), the
    /// overall load, the load of each logical processor, and the sensor chips.
    /// The core count is estimated as half the thread count.
    pub fn update(
        &mut self,
        brand: Option<&str>,
        overall_usage: i64,
        core_usage: Vec<i64>,
        chips: &Vec<SensorChip>,
    )
        ensures
            final(self).model() == match brand {
                Some(b) => b@,
                None => "Unknown CPU"@,
            },
            final(self).threads() == core_usage@.len(),
            final(self).cores() == core_usage@.len() / 2,
            final(self).load() == overall_usage,
            final(self).core_loads() == core_usage@,
            final(self).temperatures() == cpu_temps(chips@),
            final(self).load_extrema() == old(self).load_extrema().observed(overall_usage as int),
            final(self).tctl_extrema() == after_temp(old(self).tctl_extrema(), cpu_temps(chips@).tctl as int),
            final(self).tccd1_extrema() == after_temp(old(self).tccd1_extrema(), cpu_temps(chips@).tccd1 as int),
            final(self).composite_extrema() == after_temp(old(self).composite_extrema(), cpu_temps(chips@).composite as int),
            final(self).load_extrema().min <= overall_usage <= final(self).load_extrema().max,
            cpu_temps(chips@).tctl > 0 ==> final(self).tctl_extrema().min <= cpu_temps(chips@).tctl <= final(self).tctl_extrema().max,
            cpu_temps(chips@).tccd1 > 0 ==> final(self).tccd1_extrema().min <= cpu_temps(chips@).tccd1 <= final(self).tccd1_extrema().max,
            cpu_temps(chips@).composite > 0 ==> final(self).composite_extrema().min <= cpu_temps(chips@).composite <= final(self).composite_extrema().max,
    {
        self.name = match brand {
            Some(b) => String::from_str(b),
            None => String::from_str("Unknown CPU"),
        };
        self.thread_count = core_usage.len();
        self.core_count = self.thread_count / 2;
        self.overall_usage = overall_usage;
        self.usage.observe(overall_usage);
        self.core_usage = core_usage;
        let t = read_cpu_temperatures(chips);
        self.temps = t;
        if t.tctl > 0 {
            self.tctl.observe(t.tctl);
        }
        if t.tccd1 > 0 {
            self.tccd1.observe(t.tccd1);
        }
        if t.composite > 0 {
            self.composite.observe(t.composite);
        }
    }
}

} // verus!
