//! GPUs: what one poll finds, the running extrema of each GPU identity, and
//! the GPU panel.
use vstd::prelude::*;
use crate::cpu::{temp_line, temp_text};
use crate::extrema::Extrema;
use crate::gpu_extrema::{reconcile, step, fold_readings, identities, GpuExtrema};
use crate::gpu_source::{parse_nvidia_output, polled, read_amd_gpus, DrmCard};
use crate::panel::{binary_size_text, push_size, Mouse};
use crate::text::{decimal, push_decimal, push_tenths, replace_str, replaced, tenths};

verus! {

/// Who made a GPU, which decides how it is read.
#[derive(Clone, Copy, Debug, PartialEq, Eq, Structural)]
pub enum GpuVendor {
    Nvidia,
    Amd,
    Unknown,
}

pub open spec fn vendor_label(v: GpuVendor) -> Seq<char> {
    match v {
        GpuVendor::Nvidia => "NVIDIA"@,
        GpuVendor::Amd => "AMD"@,
        GpuVendor::Unknown => "Unknown"@,
    }
}

impl GpuVendor {
    /// The vendor's label.
    pub fn as_string(&self) -> (r: &'static str)
        ensures
            r@ == vendor_label(*self),
    {
        match self {
            GpuVendor::Nvidia => "NVIDIA",
            GpuVendor::Amd => "AMD",
            GpuVendor::Unknown => "Unknown",
        }
    }
}

/// One GPU as read in one poll. Temperatures are in thousandths of a degree
/// Celsius, percentages in thousandths of a percent, memory in bytes.
pub struct GpuInfo {
    pub name: String,
    pub vendor: GpuVendor,
    pub edge_temp: i64,
    pub junction_temp: i64,
    pub memory_temp: i64,
    pub usage_percent: i64,
    pub memory_total: u64,
    pub memory_used: u64,
    pub memory_percent: i64,
}

/// The key that follows a GPU from one poll to the next: vendor label, a space,
/// and the device name.
pub open spec fn identity(g: GpuInfo) -> Seq<char> {
    vendor_label(g.vendor) + seq![' '] + g.name@
}

struct GpuMinMaxStats {
    id: String,
    stats: GpuExtrema,
}

spec fn distinct_ids(rs: Seq<GpuMinMaxStats>) -> bool {
    forall|i: int, j: int| 0 <= i < rs.len() && 0 <= j < rs.len() && i != j ==> rs[i].id@ != rs[j].id@
}

spec fn has_id(rs: Seq<GpuMinMaxStats>, k: Seq<char>) -> bool {
    exists|i: int| 0 <= i < rs.len() && rs[i].id@ == k
}

spec fn table_of(rs: Seq<GpuMinMaxStats>) -> Map<Seq<char>, GpuExtrema> {
    Map::new(
        |k: Seq<char>| has_id(rs, k),
        |k: Seq<char>| rs[choose|i: int| 0 <= i < rs.len() && rs[i].id@ == k].stats,
    )
}

proof fn lemma_table_at(rs: Seq<GpuMinMaxStats>, i: int)
    requires
        distinct_ids(rs),
        0 <= i < rs.len(),
    ensures
        table_of(rs).contains_key(rs[i].id@),
        table_of(rs)[rs[i].id@] == rs[i].stats,
{
    let k = rs[i].id@;
    assert(has_id(rs, k));
    let j = choose|j: int| 0 <= j < rs.len() && rs[j].id@ == k;
    assert(j == i);
}

proof fn lemma_table_update(rs: Seq<GpuMinMaxStats>, i: int, r: GpuMinMaxStats)
    requires
        distinct_ids(rs),
        0 <= i < rs.len(),
        r.id@ == rs[i].id@,
    ensures
        distinct_ids(rs.update(i, r)),
        table_of(rs.update(i, r)) == table_of(rs).insert(r.id@, r.stats),
{
    let ns = rs.update(i, r);
    assert(distinct_ids(ns));
    assert forall|k: Seq<char>| #[trigger] has_id(ns, k) == has_id(rs, k) || k == r.id@ by {
        if has_id(ns, k) {
            let j = choose|j: int| 0 <= j < ns.len() && ns[j].id@ == k;
            assert(rs[j].id@ == k || j == i);
        }
        if has_id(rs, k) {
            let j = choose|j: int| 0 <= j < rs.len() && rs[j].id@ == k;
            assert(ns[j].id@ == k);
        }
    }
    assert forall|k: Seq<char>| #[trigger] table_of(ns).contains_key(k) && k != r.id@ implies table_of(ns)[k] == table_of(rs)[k] by {
        if k != r.id@ {
            let j = choose|j: int| 0 <= j < ns.len() && ns[j].id@ == k;
            lemma_table_at(ns, j);
            lemma_table_at(rs, j);
        }
    }
    lemma_table_at(ns, i);
    assert(has_id(ns, r.id@));
    assert(table_of(ns) =~= table_of(rs).insert(r.id@, r.stats));
}

proof fn lemma_table_push(rs: Seq<GpuMinMaxStats>, r: GpuMinMaxStats)
    requires
        distinct_ids(rs),
        !has_id(rs, r.id@),
    ensures
        distinct_ids(rs.push(r)),
        table_of(rs.push(r)) == table_of(rs).insert(r.id@, r.stats),
{
    let ns = rs.push(r);
    assert(distinct_ids(ns)) by {
        assert forall|i: int, j: int| 0 <= i < ns.len() && 0 <= j < ns.len() && i != j implies ns[i].id@ != ns[j].id@ by {
            if i < rs.len() && j < rs.len() {
                assert(ns[i] == rs[i] && ns[j] == rs[j]);
            } else if i < rs.len() {
                assert(ns[i] == rs[i]);
            } else if j < rs.len() {
                assert(ns[j] == rs[j]);
            }
        }
    }
    assert forall|k: Seq<char>| #[trigger] has_id(ns, k) == (has_id(rs, k) || k == r.id@) by {
        if has_id(ns, k) {
            let j = choose|j: int| 0 <= j < ns.len() && ns[j].id@ == k;
            if j < rs.len() {
                assert(rs[j] == ns[j]);
            }
        }
        if has_id(rs, k) {
            let j = choose|j: int| 0 <= j < rs.len() && rs[j].id@ == k;
            assert(ns[j] == rs[j]);
        }
        if k == r.id@ {
            assert(ns[rs.len() as int].id@ == k);
        }
    }
    assert forall|k: Seq<char>| #[trigger] table_of(ns).contains_key(k) && k != r.id@ implies table_of(ns)[k] == table_of(rs)[k] by {
        if k != r.id@ {
            let j = choose|j: int| 0 <= j < ns.len() && ns[j].id@ == k;
            lemma_table_at(ns, j);
            assert(ns[j] == rs[j]);
            lemma_table_at(rs, j);
        }
    }
    lemma_table_at(ns, rs.len() as int);
    assert(table_of(ns) =~= table_of(rs).insert(r.id@, r.stats));
}

/// The identity of a GPU as text.
fn gpu_identity(g: &GpuInfo) -> (r: String)
    ensures
        r@ == identity(*g),
{
    let mut id = String::from_str(g.vendor.as_string());
    proof {
        reveal_strlit(" ");
    }
    id.append(" ");
    id.append(g.name.as_str());
    id
}

fn position_of(rs: &Vec<GpuMinMaxStats>, id: &String) -> (r: Option<usize>)
    ensures
        match r {
            Some(j) => j < rs@.len() && rs@[j as int].id@ == id@,
            None => !has_id(rs@, id@),
        },
{
    let mut j: usize = 0;
    while j < rs.len()
        invariant
            j <= rs@.len(),
            forall|k: int| 0 <= k < j ==> rs@[k].id@ != id@,
        decreases rs.len() - j,
    {
        if rs[j].id == *id {
            return Some(j);
        }
        j = j + 1;
    }
    None
}

fn holds_id(ids: &Vec<String>, id: &String) -> (r: bool)
    ensures
        r == exists|k: int| 0 <= k < ids@.len() && ids@[k]@ == id@,
{
    let mut j: usize = 0;
    while j < ids.len()
        invariant
            j <= ids@.len(),
            forall|k: int| 0 <= k < j ==> ids@[k]@ != id@,
        decreases ids.len() - j,
    {
        if ids[j] == *id {
            return true;
        }
        j = j + 1;
    }
    false
}

proof fn lemma_prefix_push(rs: Seq<GpuMinMaxStats>, j: int)
    requires
        distinct_ids(rs),
        0 <= j < rs.len(),
    ensures
        distinct_ids(rs.subrange(0, j)),
        !has_id(rs.subrange(0, j), rs[j].id@),
        rs.subrange(0, j + 1) == rs.subrange(0, j).push(rs[j]),
{
    assert(rs.subrange(0, j + 1) =~= rs.subrange(0, j).push(rs[j]));
    let p = rs.subrange(0, j);
    assert(distinct_ids(p)) by {
        assert forall|a: int, b: int| 0 <= a < p.len() && 0 <= b < p.len() && a != b implies p[a].id@ != p[b].id@ by {
            assert(p[a] == rs[a] && p[b] == rs[b]);
        }
    }
    if has_id(p, rs[j].id@) {
        let a = choose|a: int| 0 <= a < p.len() && p[a].id@ == rs[j].id@;
        assert(p[a] == rs[a]);
    }
}

/// A percentage line with its extrema.
pub open spec fn percent_line(label: Seq<char>, v: int, e: Extrema) -> Seq<char> {
    label + tenths(v) + "% (Min: "@ + tenths(e.min as int) + "%, Max: "@ + tenths(e.max as int) + "%)"@
}

/// The memory line of a GPU: used and total sizes and the share in use.
pub open spec fn memory_line(g: GpuInfo) -> Seq<char> {
    "Memory: "@ + binary_size_text(g.memory_used as nat) + "/"@ + binary_size_text(
        g.memory_total as nat,
    ) + " ("@ + tenths(g.memory_percent as int) + "%)"@
}

/// The name shown for a GPU, with AMD's long vendor prefix shortened.
pub open spec fn shown_name(g: GpuInfo) -> Seq<char> {
    replaced(g.name@, "Advanced Micro Devices, Inc. [AMD/ATI]"@, "AMD"@)
}

/// The lines of GPU `i` (counted from zero): its name, then its readings with
/// their extrema when its identity has a record, else the bare readings.
pub open spec fn stanza(i: nat, g: GpuInfo, t: Map<Seq<char>, GpuExtrema>) -> Seq<Seq<char>> {
    stanza_with(i, g, if t.contains_key(identity(g)) { Some(t[identity(g)]) } else { None })
}

/// The lines of GPU `i`, given the extrema of its identity if recorded.
pub open spec fn stanza_with(i: nat, g: GpuInfo, rec: Option<GpuExtrema>) -> Seq<Seq<char>> {
    let title = "GPU "@ + decimal(i + 1) + ": "@ + shown_name(g);
    if rec is Some {
        let e = rec->0;
        let first = seq![title, temp_line("Temp: Edge: "@, g.edge_temp as int, e.edge_temp)];
        let junct = if g.junction_temp > 0 {
            seq![temp_line("Junct: "@, g.junction_temp as int, e.junction_temp)]
        } else {
            Seq::empty()
        };
        let mem_temp = if g.memory_temp > 0 {
            seq![temp_line("Mem Temp: "@, g.memory_temp as int, e.memory_temp)]
        } else {
            Seq::empty()
        };
        first + junct + mem_temp + seq![
            percent_line("GPU Usage: "@, g.usage_percent as int, e.usage_percent),
            memory_line(g),
            "Mem Usage: Min: "@ + tenths(e.memory_percent.min as int) + "%, Max: "@ + tenths(
                e.memory_percent.max as int,
            ) + "%"@,
        ]
    } else {
        seq![
            title,
            "Temp: Edge: "@ + tenths(g.edge_temp as int) + "°C, Junction: "@ + tenths(
                g.junction_temp as int,
            ) + "°C, Memory: "@ + tenths(g.memory_temp as int) + "°C"@,
            "GPU Usage: "@ + tenths(g.usage_percent as int) + "%"@,
            memory_line(g),
        ]
    }
}

/// The stanzas of the first `n` GPUs, separated by blank lines.
pub open spec fn stanzas(gs: Seq<GpuInfo>, t: Map<Seq<char>, GpuExtrema>, n: nat) -> Seq<Seq<char>>
    decreases n,
{
    if n == 0 {
        Seq::empty()
    } else {
        let before = stanzas(gs, t, (n - 1) as nat);
        let sep: Seq<Seq<char>> = if n > 1 {
            seq![Seq::<char>::empty()]
        } else {
            Seq::empty()
        };
        before + sep + stanza((n - 1) as nat, gs[n - 1], t)
    }
}

/// The lines of the GPU panel.
pub open spec fn gpu_panel(gs: Seq<GpuInfo>, t: Map<Seq<char>, GpuExtrema>) -> Seq<Seq<char>> {
    if gs.len() == 0 {
        seq!["No GPUs detected"@]
    } else {
        stanzas(gs, t, gs.len())
    }
}

fn memory_text(g: &GpuInfo) -> (r: String)
    ensures
        r@ == memory_line(*g),
{
    let mut line = String::from_str("Memory: ");
    push_size(&mut line, g.memory_used);
    line.append("/");
    push_size(&mut line, g.memory_total);
    line.append(" (");
    push_tenths(&mut line, g.memory_percent);
    line.append("%)");
    line
}

fn add_stanza(mouse: &mut Mouse, i: usize, g: &GpuInfo, rec: Option<GpuExtrema>)
    requires
        i < u64::MAX,
    ensures
        final(mouse).heading() == old(mouse).heading(),
        final(mouse).lines() == old(mouse).lines() + stanza_with(i as nat, *g, rec),
{
    let ghost start = mouse.lines();
    proof {
        reveal_strlit("Advanced Micro Devices, Inc. [AMD/ATI]");
    }
    let mut title = String::from_str("GPU ");
    push_decimal(&mut title, i as u64 + 1);
    title.append(": ");
    let shown = replace_str(g.name.as_str(), "Advanced Micro Devices, Inc. [AMD/ATI]", "AMD");
    title.append(shown.as_str());
    mouse.add(title);
    match rec {
        Some(e) => {
            mouse.add(temp_text("Temp: Edge: ", g.edge_temp, e.edge_temp));
            if g.junction_temp > 0 {
                mouse.add(temp_text("Junct: ", g.junction_temp, e.junction_temp));
            }
            if g.memory_temp > 0 {
                mouse.add(temp_text("Mem Temp: ", g.memory_temp, e.memory_temp));
            }
            let mut usage = String::from_str("GPU Usage: ");
            push_tenths(&mut usage, g.usage_percent);
            usage.append("% (Min: ");
            push_tenths(&mut usage, e.usage_percent.min);
            usage.append("%, Max: ");
            push_tenths(&mut usage, e.usage_percent.max);
            usage.append("%)");
            mouse.add(usage);
            mouse.add(memory_text(g));
            let mut mem = String::from_str("Mem Usage: Min: ");
            push_tenths(&mut mem, e.memory_percent.min);
            mem.append("%, Max: ");
            push_tenths(&mut mem, e.memory_percent.max);
            mem.append("%");
            mouse.add(mem);
        },
        None => {
            let mut temps = String::from_str("Temp: Edge: ");
            push_tenths(&mut temps, g.edge_temp);
            temps.append("°C, Junction: ");
            push_tenths(&mut temps, g.junction_temp);
            temps.append("°C, Memory: ");
            push_tenths(&mut temps, g.memory_temp);
            temps.append("°C");
            mouse.add(temps);
            let mut usage = String::from_str("GPU Usage: ");
            push_tenths(&mut usage, g.usage_percent);
            usage.append("%");
            mouse.add(usage);
            mouse.add(memory_text(g));
        },
    }
    assert(mouse.lines() =~= start + stanza_with(i as nat, *g, rec));
}

/// GPUs of the latest poll, and the running extrema of each GPU identity.
pub struct GpuStats {
    gpus: Vec<GpuInfo>,
    previous_gpu_states: Vec<GpuMinMaxStats>,
}

impl GpuStats {
    /// The GPUs of the latest poll, in order.
    pub closed spec fn inventory(&self) -> Seq<GpuInfo> {
        self.gpus@
    }

    /// The running extrema, keyed by GPU identity.
    pub closed spec fn table(&self) -> Map<Seq<char>, GpuExtrema> {
        table_of(self.previous_gpu_states@)
    }

    /// Each identity has one record.
    pub closed spec fn wf(&self) -> bool {
        distinct_ids(self.previous_gpu_states@)
    }

    /// No GPU seen yet.
    pub fn new() -> (r: GpuStats)
        ensures
            r.wf(),
            r.inventory().len() == 0,
            r.table() == Map::<Seq<char>, GpuExtrema>::empty(),
    {
        let r = GpuStats { gpus: Vec::new(), previous_gpu_states: Vec::new() };
        assert(r.table() =~= Map::<Seq<char>, GpuExtrema>::empty());
        r
    }

    /// Takes in the GPUs of a poll: each one's extrema are updated (or seeded when
    /// its identity is new), then the extrema of identities that the poll did not
    /// see are dropped.
    pub fn record_inventory(&mut self, gpus: Vec<GpuInfo>)
        requires
            old(self).wf(),
        ensures
            final(self).wf(),
            final(self).inventory() == gpus@,
            final(self).table() == reconcile(old(self).table(), gpus@),
    {
        let ghost start = self.table();
        let mut ids: Vec<String> = Vec::new();
        let mut i: usize = 0;
        assert(gpus@.subrange(0, 0) =~= Seq::<GpuInfo>::empty());
        while i < gpus.len()
            invariant
                i <= gpus@.len(),
                ids@.len() == i,
                forall|k: int| 0 <= k < i ==> (#[trigger] ids@[k])@ == identity(gpus@[k]),
                distinct_ids(self.previous_gpu_states@),
                table_of(self.previous_gpu_states@) == fold_readings(start, gpus@.subrange(0, i as int)),
            decreases gpus.len() - i,
        {
            let g = &gpus[i];
            let id = gpu_identity(g);
            let ghost before = table_of(self.previous_gpu_states@);
            assert(gpus@.subrange(0, i + 1).drop_last() =~= gpus@.subrange(0, i as int));
            assert(gpus@.subrange(0, i + 1).last() == *g);
            match position_of(&self.previous_gpu_states, &id) {
                Some(j) => {
                    let mut st = self.previous_gpu_states[j].stats;
                    proof {
                        lemma_table_at(self.previous_gpu_states@, j as int);
                    }
                    st.usage_percent.observe(g.usage_percent);
                    st.memory_percent.observe(g.memory_percent);
                    st.edge_temp.observe(g.edge_temp);
                    st.junction_temp.observe(g.junction_temp);
                    st.memory_temp.observe(g.memory_temp);
                    let rec = GpuMinMaxStats { id: id.clone(), stats: st };
                    proof {
                        lemma_table_update(self.previous_gpu_states@, j as int, rec);
                    }
                    self.previous_gpu_states.set(j, rec);
                },
                None => {
                    let rec = GpuMinMaxStats {
                        id: id.clone(),
                        stats: GpuExtrema {
                            usage_percent: Extrema::seeded(g.usage_percent),
                            memory_percent: Extrema::seeded(g.memory_percent),
                            edge_temp: Extrema::seeded(g.edge_temp),
                            junction_temp: Extrema::seeded(g.junction_temp),
                            memory_temp: Extrema::seeded(g.memory_temp),
                        },
                    };
                    proof {
                        lemma_table_push(self.previous_gpu_states@, rec);
                    }
                    self.previous_gpu_states.push(rec);
                },
            }
            assert(table_of(self.previous_gpu_states@) =~= step(before, *g));
            ids.push(id);
            i = i + 1;
        }
        assert(gpus@.subrange(0, i as int) =~= gpus@);
        let ghost seen = identities(gpus@);
        let ghost full = self.previous_gpu_states@;
        let mut kept: Vec<GpuMinMaxStats> = Vec::new();
        let mut j: usize = 0;
        assert(full.subrange(0, 0) =~= Seq::<GpuMinMaxStats>::empty());
        assert(table_of(kept@) =~= table_of(full.subrange(0, 0)).restrict(seen));
        while j < self.previous_gpu_states.len()
            invariant
                full == self.previous_gpu_states@,
                distinct_ids(full),
                j <= full.len(),
                ids@.len() == gpus@.len(),
                forall|k: int| 0 <= k < ids@.len() ==> (#[trigger] ids@[k])@ == identity(gpus@[k]),
                seen == identities(gpus@),
                distinct_ids(kept@),
                forall|k: Seq<char>| has_id(kept@, k) ==> has_id(full.subrange(0, j as int), k),
                table_of(kept@) == table_of(full.subrange(0, j as int)).restrict(seen),
            decreases full.len() - j,
        {
            let r = &self.previous_gpu_states[j];
            proof {
                lemma_prefix_push(full, j as int);
                lemma_table_push(full.subrange(0, j as int), full[j as int]);
            }
            let ghost before = kept@;
            let present = holds_id(&ids, &r.id);
            assert(present == seen.contains(r.id@)) by {
                if present {
                    let k = choose|k: int| 0 <= k < ids@.len() && ids@[k]@ == r.id@;
                    assert(identity(gpus@[k]) == r.id@);
                }
                if seen.contains(r.id@) {
                    let k = choose|k: int| 0 <= k < gpus@.len() && identity(gpus@[k]) == r.id@;
                    assert(ids@[k]@ == r.id@);
                }
            }
            if present {
                let rec = GpuMinMaxStats { id: r.id.clone(), stats: r.stats };
                proof {
                    lemma_table_push(kept@, rec);
                }
                kept.push(rec);
                assert(table_of(kept@) =~= table_of(full.subrange(0, j + 1)).restrict(seen));
            } else {
                assert(table_of(kept@) =~= table_of(full.subrange(0, j + 1)).restrict(seen));
            }
            assert forall|k: Seq<char>| has_id(kept@, k) implies has_id(full.subrange(0, j + 1), k) by {
                if has_id(before, k) {
                    let a = choose|a: int| 0 <= a < full.subrange(0, j as int).len() && full.subrange(0, j as int)[a].id@ == k;
                    assert(full.subrange(0, j + 1)[a] == full.subrange(0, j as int)[a]);
                } else {
                    assert(full.subrange(0, j + 1)[j as int].id@ == k);
                }
            }
            j = j + 1;
        }
        assert(full.subrange(0, j as int) =~= full);
        self.previous_gpu_states = kept;
        self.gpus = gpus;
    }

    /// Polls the GPUs: the rows of the vendor query tool's output (`None` when the
    /// tool is missing or failed), then the AMD cards of the device registry; the
    /// extrema table is reconciled with what was found.
    pub fn update(&mut self, nvidia_output: Option<&str>, cards: &Vec<DrmCard>)
        requires
            old(self).wf(),
        ensures
            final(self).wf(),
            polled(final(self).inventory(), nvidia_output, cards@),
            final(self).table() == reconcile(old(self).table(), final(self).inventory()),
    {
        let mut gpus = match nvidia_output {
            Some(o) => parse_nvidia_output(o),
            None => Vec::new(),
        };
        let mut amd = read_amd_gpus(cards);
        gpus.append(&mut amd);
        self.record_inventory(gpus);
    }

    /// The GPU panel.
    pub fn get_mouse(&self) -> (r: Mouse)
        requires
            self.wf(),
        ensures
            r.heading() == "GPU"@,
            r.lines() == gpu_panel(self.inventory(), self.table()),
    {
        let mut mouse = Mouse::new(String::from_str("GPU"));
        if self.gpus.len() == 0 {
            mouse.add(String::from_str("No GPUs detected"));
            assert(mouse.lines() =~= gpu_panel(self.inventory(), self.table()));
            return mouse;
        }
        let mut i: usize = 0;
        assert(mouse.lines() =~= stanzas(self.gpus@, self.table(), 0));
        while i < self.gpus.len()
            invariant
                i <= self.gpus@.len(),
                self.wf(),
                mouse.heading() == "GPU"@,
                mouse.lines() == stanzas(self.gpus@, self.table(), i as nat),
            decreases self.gpus.len() - i,
        {
            let ghost before = mouse.lines();
            let g = &self.gpus[i];
            if i > 0 {
                mouse.add(String::new());
            }
            let ghost sep = mouse.lines();
            let id = gpu_identity(g);
            add_stanza(&mut mouse, i, g, self.extrema_for(&id));
            assert(mouse.lines() =~= sep + stanza(i as nat, *g, self.table()));
            assert(self.gpus@.subrange(0, i + 1).drop_last() =~= self.gpus@.subrange(0, i as int));
            i = i + 1;
        }
        mouse
    }

    /// The extrema recorded for an identity.
    pub fn extrema_for(&self, id: &String) -> (r: Option<GpuExtrema>)
        requires
            self.wf(),
        ensures
            match r {
                Some(e) => self.table().contains_key(id@) && self.table()[id@] == e,
                None => !self.table().contains_key(id@),
            },
    {
        match position_of(&self.previous_gpu_states, id) {
            Some(j) => {
                proof {
                    lemma_table_at(self.previous_gpu_states@, j as int);
                }
                Some(self.previous_gpu_states[j].stats)
            },
            None => None,
        }
    }

    /// The GPUs of the latest poll.
    pub fn get_gpus(&self) -> (r: &Vec<GpuInfo>)
        ensures
            r@ == self.inventory(),
    {
        &self.gpus
    }
}

} // verus!
