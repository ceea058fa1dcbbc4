//! Where GPUs are found: the rows of the vendor query tool, and the AMD cards
//! of the device registry with their sensor, memory and load files.
use vstd::prelude::*;
use crate::gpu::{GpuInfo, GpuVendor};
use crate::sensors::{FileRead, SensorChip, channel_temp, chip_temp, read_u64, read_value_milli, value_milli, value_u64};
use crate::text::{starts_with, starts_with_str, lemma_find_from, pieces, split_char, contains, contains_str, find, find_str, lines, lines_of, trim, trimmed, views};

verus! {

pub open spec fn or_zero(o: Option<int>) -> int {
    match o {
        Some(v) => v,
        None => 0,
    }
}

pub open spec fn or_zero_nat(o: Option<nat>) -> nat {
    match o {
        Some(v) => v,
        None => 0,
    }
}

/// Mebibytes in bytes, held at the largest `u64`.
pub open spec fn mib_bytes(mb: nat) -> nat {
    if mb * 1048576 > u64::MAX {
        u64::MAX as nat
    } else {
        mb * 1048576
    }
}

/// `used` as a share of `total`, in thousandths of a percent rounded half up;
/// zero when `total` is zero, held at the largest `i64`.
pub open spec fn percent_milli(used: nat, total: nat) -> int {
    if total == 0 {
        0
    } else if (used * 200000 + total) / (2 * total) > i64::MAX {
        i64::MAX as int
    } else {
        ((used * 200000 + total) / (2 * total)) as int
    }
}

pub fn share_milli(used: u64, total: u64) -> (r: i64)
    ensures
        r == percent_milli(used as nat, total as nat),
{
    if total == 0 {
        return 0;
    }
    let q: u128 = (used as u128 * 200000 + total as u128) / (2 * total as u128);
    if q > i64::MAX as u128 {
        i64::MAX
    } else {
        q as i64
    }
}

fn mib_to_bytes(mb: u64) -> (r: u64)
    ensures
        r == mib_bytes(mb as nat),
{
    if mb > u64::MAX / 1048576 {
        u64::MAX
    } else {
        mb * 1048576
    }
}

/// The GPU that one CSV row of the vendor query tool describes: name,
/// temperature, utilisation, memory used and memory total in MiB. Unreadable
/// numbers count as zero; the tool gives one temperature, which stands for the
/// junction too, and no memory temperature.
pub open spec fn nvidia_row(g: GpuInfo, l: Seq<char>) -> bool {
    let fs = pieces(l, ',');
    let used = or_zero_nat(value_u64(fs[3]));
    let total = or_zero_nat(value_u64(fs[4]));
    &&& g.name@ == trimmed(fs[0])
    &&& g.vendor == GpuVendor::Nvidia
    &&& g.edge_temp == or_zero(value_milli(fs[1]))
    &&& g.junction_temp == g.edge_temp
    &&& g.memory_temp == 0
    &&& g.usage_percent == or_zero(value_milli(fs[2]))
    &&& g.memory_used == mib_bytes(used)
    &&& g.memory_total == mib_bytes(total)
    &&& g.memory_percent == percent_milli(used, total)
}

/// The rows with at least five fields; shorter ones are dropped.
pub open spec fn csv_rows(ls: Seq<Seq<char>>) -> Seq<Seq<char>>
    decreases ls.len(),
{
    if ls.len() == 0 {
        Seq::empty()
    } else if pieces(ls.last(), ',').len() >= 5 {
        csv_rows(ls.drop_last()).push(ls.last())
    } else {
        csv_rows(ls.drop_last())
    }
}


/// A line that lists an AMD display controller and names it after `": "`.
pub open spec fn is_amd_controller_line(l: Seq<char>) -> bool {
    &&& (contains(l, "VGA compatible controller"@) || contains(l, "Display controller"@))
    &&& (contains(l, "AMD"@) || contains(l, "ATI"@))
    &&& contains(l, ": "@)
}

/// The device name on a controller line: what follows the first `": "`, up to a
/// `" (rev "` suffix, trimmed.
pub open spec fn controller_name(l: Seq<char>) -> Seq<char> {
    let part = l.subrange(find(l, ": "@) + 2, l.len() as int);
    let r = find(part, " (rev "@);
    if r >= 0 {
        trimmed(part.subrange(0, r))
    } else {
        trimmed(part)
    }
}

/// The name on the first AMD controller line among `ls`.
pub open spec fn first_controller_name(ls: Seq<Seq<char>>) -> Option<Seq<char>>
    decreases ls.len(),
{
    if ls.len() == 0 {
        None
    } else if is_amd_controller_line(ls[0]) {
        Some(controller_name(ls[0]))
    } else {
        first_controller_name(ls.drop_first())
    }
}

/// The GPU name that a PCI device listing gives for an AMD display controller.
pub open spec fn lspci_gpu_name(out: Seq<char>) -> Option<Seq<char>> {
    first_controller_name(lines_of(out))
}

/// Finds the marketing name of an AMD GPU in the listing of a PCI-info tool.
pub fn extract_gpu_name_from_lspci(lspci_output: &str) -> (r: Option<String>)
    ensures
        match r {
            Some(n) => lspci_gpu_name(lspci_output@) == Some(n@),
            None => lspci_gpu_name(lspci_output@) is None,
        },
{
    let ls = lines(lspci_output);
    let ghost lv = views(ls@);
    let mut i: usize = 0;
    assert(lv.subrange(0, lv.len() as int) =~= lv);
    while i < ls.len()
        invariant
            i <= ls@.len(),
            lv.len() == ls@.len(),
            lv == views(ls@),
            lv == lines_of(lspci_output@),
            first_controller_name(lv) == first_controller_name(lv.subrange(i as int, lv.len() as int)),
        decreases ls.len() - i,
    {
        let line = ls[i];
        let ghost rest = lv.subrange(i as int, lv.len() as int);
        assert(rest[0] == line@);
        assert(rest.drop_first() =~= lv.subrange(i + 1, lv.len() as int));
        if (contains_str(line, "VGA compatible controller") || contains_str(line, "Display controller"))
            && (contains_str(line, "AMD") || contains_str(line, "ATI")) {
            if let Some(colon) = find_str(line, ": ") {
                let n = line.unicode_len();
                proof {
                    reveal_strlit(": ");
                    lemma_find_from(line@, ": "@, 0);
                }
                let part = line.substring_char(colon + 2, n);
                proof {
                    lemma_find_from(part@, " (rev "@, 0);
                }
                let name = match find_str(part, " (rev ") {
                    Some(rev) => trim(part.substring_char(0, rev)),
                    None => trim(part),
                };
                return Some(String::from_str(name));
            }
        }
        i = i + 1;
    }
    None
}

/// Reads one CSV row of the vendor query tool; `None` when it has fewer than
/// five fields.
fn nvidia_gpu(line: &str) -> (r: Option<GpuInfo>)
    ensures
        match r {
            Some(g) => pieces(line@, ',').len() >= 5 && nvidia_row(g, line@),
            None => pieces(line@, ',').len() < 5,
        },
{
    let fs = split_char(line, ',');
    let ghost pv = pieces(line@, ',');
    assert(fs@.len() == pv.len());
    if fs.len() < 5 {
        return None;
    }
    assert(fs@[0]@ == pv[0] && fs@[1]@ == pv[1] && fs@[2]@ == pv[2]);
    assert(fs@[3]@ == pv[3] && fs@[4]@ == pv[4]);
    let used_mb = match read_u64(fs[3]) {
        Some(v) => v,
        None => 0,
    };
    let total_mb = match read_u64(fs[4]) {
        Some(v) => v,
        None => 0,
    };
    let edge_temp = match read_value_milli(fs[1]) {
        Some(v) => v,
        None => 0,
    };
    let usage_percent = match read_value_milli(fs[2]) {
        Some(v) => v,
        None => 0,
    };
    Some(GpuInfo {
        name: String::from_str(trim(fs[0])),
        vendor: GpuVendor::Nvidia,
        edge_temp,
        junction_temp: edge_temp,
        memory_temp: 0,
        usage_percent,
        memory_total: mib_to_bytes(total_mb),
        memory_used: mib_to_bytes(used_mb),
        memory_percent: share_milli(used_mb, total_mb),
    })
}

/// The GPUs listed in the output of the vendor query tool, one for each line
/// with at least five comma-separated fields, in order.
pub fn parse_nvidia_output(output: &str) -> (r: Vec<GpuInfo>)
    ensures
        r@.len() == csv_rows(lines_of(output@)).len(),
        forall|i: int| 0 <= i < r@.len() ==> nvidia_row(#[trigger] r@[i], csv_rows(lines_of(output@))[i]),
{
    let ls = lines(output);
    let ghost lv = views(ls@);
    let mut gpus: Vec<GpuInfo> = Vec::new();
    let mut i: usize = 0;
    assert(lv.subrange(0, 0) =~= Seq::<Seq<char>>::empty());
    while i < ls.len()
        invariant
            i <= ls@.len(),
            lv.len() == ls@.len(),
            lv == views(ls@),
            lv == lines_of(output@),
            gpus@.len() == csv_rows(lv.subrange(0, i as int)).len(),
            forall|k: int| 0 <= k < gpus@.len() ==> nvidia_row(#[trigger] gpus@[k], csv_rows(lv.subrange(0, i as int))[k]),
        decreases ls.len() - i,
    {
        let ghost before = csv_rows(lv.subrange(0, i as int));
        assert(lv.subrange(0, i + 1).drop_last() =~= lv.subrange(0, i as int));
        assert(lv.subrange(0, i + 1).last() == ls@[i as int]@);
        match nvidia_gpu(ls[i]) {
            Some(g) => {
                gpus.push(g);
                assert(csv_rows(lv.subrange(0, i + 1)) == before.push(ls@[i as int]@));
            },
            None => {},
        }
        i = i + 1;
    }
    assert(lv.subrange(0, i as int) =~= lv);
    gpus
}

/// One entry of the GPU device registry, with what reading its files produced.
pub struct DrmCard {
    /// The entry's file name (`card0`, `card1`, ...).
    pub entry_name: String,
    /// Whether the entry is a directory.
    pub is_dir: bool,
    /// `device/vendor`, when it could be read.
    pub vendor: Option<String>,
    /// What the PCI-info tool printed for the device's bus address, when it ran
    /// and succeeded.
    pub lspci_output: Option<String>,
    /// `device/product`, when it could be read.
    pub product: Option<String>,
    /// The sensor chips under `device/hwmon`, in directory order.
    pub hwmon: Vec<SensorChip>,
    /// `device/mem_info_vram_total`.
    pub vram_total: FileRead,
    /// `device/mem_info_vram_used`.
    pub vram_used: FileRead,
    /// `device/gpu_busy_percent`, when it could be read.
    pub busy_percent: Option<String>,
}

/// A card directory whose vendor file names AMD's PCI vendor id.
pub open spec fn is_amd_card_spec(c: DrmCard) -> bool {
    &&& starts_with(c.entry_name@, "card"@)
    &&& c.is_dir
    &&& c.vendor is Some
    &&& trimmed(c.vendor->0@) == "0x1002"@
}

/// Whether `card` is an AMD GPU to be read.
pub fn is_amd_card(card: &DrmCard) -> (r: bool)
    ensures
        r == is_amd_card_spec(*card),
{
    if !starts_with_str(card.entry_name.as_str(), "card") || !card.is_dir {
        return false;
    }
    match &card.vendor {
        Some(v) => {
            let t = trim(v.as_str());
            let amd = String::from_str("0x1002");
            let t_owned = String::from_str(t);
            t_owned == amd
        },
        None => false,
    }
}

/// The name of an AMD GPU: from the PCI-info listing; failing that, the product
/// file when it is not blank; failing that, `"AMD GPU"`.
pub open spec fn amd_name(c: DrmCard) -> Seq<char> {
    let listed = match c.lspci_output {
        Some(o) => match lspci_gpu_name(o@) {
            Some(n) => n,
            None => "AMD GPU"@,
        },
        None => "AMD GPU"@,
    };
    if listed == "AMD GPU"@ && c.product is Some && trimmed(c.product->0@).len() > 0 {
        trimmed(c.product->0@)
    } else {
        listed
    }
}

pub open spec fn file_text(f: FileRead) -> Option<Seq<char>> {
    match f {
        FileRead::Text(t) => Some(t@),
        _ => None,
    }
}

/// Video memory total, when both memory files are there and the total reads.
pub open spec fn amd_vram_total(c: DrmCard) -> Option<nat> {
    if c.vram_total is Absent || c.vram_used is Absent {
        None
    } else {
        match file_text(c.vram_total) {
            Some(t) => value_u64(t),
            None => None,
        }
    }
}

/// Video memory in use, when the total reads too.
pub open spec fn amd_vram_used(c: DrmCard) -> Option<nat> {
    if amd_vram_total(c) is None {
        None
    } else {
        match file_text(c.vram_used) {
            Some(t) => value_u64(t),
            None => None,
        }
    }
}

/// Temperature of channel `k + 1` of the first sensor chip, zero when missing.
pub open spec fn amd_temp(c: DrmCard, k: int) -> int {
    if c.hwmon@.len() > 0 {
        or_zero(channel_temp(c.hwmon@[0], k))
    } else {
        0
    }
}

/// The GPU that an AMD card's files describe. The first sensor chip gives edge,
/// junction and memory temperatures in its first three channels, by position.
pub open spec fn amd_reading(g: GpuInfo, c: DrmCard) -> bool {
    &&& g.name@ == amd_name(c)
    &&& g.vendor == GpuVendor::Amd
    &&& g.edge_temp == amd_temp(c, 0)
    &&& g.junction_temp == amd_temp(c, 1)
    &&& g.memory_temp == amd_temp(c, 2)
    &&& g.usage_percent == match c.busy_percent {
        Some(b) => or_zero(value_milli(b@)),
        None => 0,
    }
    &&& g.memory_total == or_zero_nat(amd_vram_total(c))
    &&& g.memory_used == or_zero_nat(amd_vram_used(c))
    &&& g.memory_percent == match amd_vram_used(c) {
        Some(u) => percent_milli(u, amd_vram_total(c)->0),
        None => 0,
    }
}

fn first_chip_temp(card: &DrmCard, k: usize) -> (r: i64)
    ensures
        r == amd_temp(*card, k as int),
{
    if card.hwmon.len() > 0 {
        match chip_temp(&card.hwmon[0], k) {
            Some(v) => v,
            None => 0,
        }
    } else {
        0
    }
}

/// Reads an AMD GPU from its registry entry.
pub fn add_amd_gpu_info(card: &DrmCard) -> (r: GpuInfo)
    ensures
        amd_reading(r, *card),
{
    let mut gpu_name = String::from_str("AMD GPU");
    if let Some(out) = &card.lspci_output {
        if let Some(name) = extract_gpu_name_from_lspci(out.as_str()) {
            gpu_name = name;
        }
    }
    let fallback = String::from_str("AMD GPU");
    if gpu_name == fallback {
        if let Some(p) = &card.product {
            let t = trim(p.as_str());
            if t.unicode_len() > 0 {
                gpu_name = String::from_str(t);
            }
        }
    }
    let mut memory_total: u64 = 0;
    let mut memory_used: u64 = 0;
    let mut memory_percent: i64 = 0;
    let both_there = match (&card.vram_total, &card.vram_used) {
        (FileRead::Absent, _) => false,
        (_, FileRead::Absent) => false,
        _ => true,
    };
    if both_there {
        if let FileRead::Text(total_text) = &card.vram_total {
            if let Some(total) = read_u64(total_text.as_str()) {
                memory_total = total;
                if let FileRead::Text(used_text) = &card.vram_used {
                    if let Some(used) = read_u64(used_text.as_str()) {
                        memory_used = used;
                        memory_percent = share_milli(used, total);
                    }
                }
            }
        }
    }
    let usage_percent = match &card.busy_percent {
        Some(b) => match read_value_milli(b.as_str()) {
            Some(v) => v,
            None => 0,
        },
        None => 0,
    };
    GpuInfo {
        name: gpu_name,
        vendor: GpuVendor::Amd,
        edge_temp: first_chip_temp(card, 0),
        junction_temp: first_chip_temp(card, 1),
        memory_temp: first_chip_temp(card, 2),
        usage_percent,
        memory_total,
        memory_used,
        memory_percent,
    }
}

/// `s` with every leading repetition of `p` removed, as `str::trim_start_matches`
/// leaves it.
pub open spec fn strip_leading(s: Seq<char>, p: Seq<char>) -> Seq<char>
    decreases s.len(),
{
    if p.len() > 0 && starts_with(s, p) {
        strip_leading(s.subrange(p.len() as int, s.len() as int), p)
    } else {
        s
    }
}

/// The last path segment that holds a PCI address in domain `0000`.
pub open spec fn last_pci_segment(segs: Seq<Seq<char>>) -> Option<Seq<char>>
    decreases segs.len(),
{
    if segs.len() == 0 {
        None
    } else if starts_with(segs.last(), "0000:"@) {
        Some(segs.last())
    } else {
        last_pci_segment(segs.drop_last())
    }
}

/// The bus address that the device link of a card points to.
pub open spec fn pci_bus_id_spec(link: Seq<char>) -> Option<Seq<char>> {
    match last_pci_segment(pieces(link, '/')) {
        Some(seg) => Some(strip_leading(seg, "0000:"@)),
        None => None,
    }
}

/// The PCI bus address in the target of a card's `device` link
/// (`/sys/devices/pci0000:00/0000:00:03.0/0000:03:00.0` gives `03:00.0`).
pub fn pci_bus_id_from_link(link: &str) -> (r: Option<String>)
    ensures
        match r {
            Some(id) => pci_bus_id_spec(link@) == Some(id@),
            None => pci_bus_id_spec(link@) is None,
        },
{
    let segs = split_char(link, '/');
    let ghost sv = views(segs@);
    let mut i: usize = segs.len();
    assert(sv.subrange(0, i as int) =~= sv);
    while i > 0
        invariant
            i <= segs@.len(),
            sv == views(segs@),
            sv == pieces(link@, '/'),
            last_pci_segment(sv) == last_pci_segment(sv.subrange(0, i as int)),
        decreases i,
    {
        let seg = segs[i - 1];
        assert(sv.subrange(0, i as int).last() == seg@);
        assert(sv.subrange(0, i as int).drop_last() =~= sv.subrange(0, i - 1));
        if starts_with_str(seg, "0000:") {
            proof {
                reveal_strlit("0000:");
            }
            let mut rest = seg;
            while starts_with_str(rest, "0000:")
                invariant
                    strip_leading(seg@, "0000:"@) == strip_leading(rest@, "0000:"@),
                    "0000:"@.len() == 5,
                decreases rest@.len(),
            {
                let n = rest.unicode_len();
                rest = rest.substring_char(5, n);
            }
            return Some(String::from_str(rest));
        }
        i = i - 1;
    }
    None
}

/// The cards of the registry that are read as AMD GPUs, in order.
pub open spec fn amd_cards(cs: Seq<DrmCard>) -> Seq<DrmCard>
    decreases cs.len(),
{
    if cs.len() == 0 {
        Seq::empty()
    } else if is_amd_card_spec(cs.last()) {
        amd_cards(cs.drop_last()).push(cs.last())
    } else {
        amd_cards(cs.drop_last())
    }
}

/// Reads every AMD GPU among the registry entries, in order.
pub fn read_amd_gpus(cards: &Vec<DrmCard>) -> (r: Vec<GpuInfo>)
    ensures
        r@.len() == amd_cards(cards@).len(),
        forall|i: int| 0 <= i < r@.len() ==> amd_reading(#[trigger] r@[i], amd_cards(cards@)[i]),
{
    let mut gpus: Vec<GpuInfo> = Vec::new();
    let mut i: usize = 0;
    assert(cards@.subrange(0, 0) =~= Seq::<DrmCard>::empty());
    while i < cards.len()
        invariant
            i <= cards@.len(),
            gpus@.len() == amd_cards(cards@.subrange(0, i as int)).len(),
            forall|k: int| 0 <= k < gpus@.len() ==> amd_reading(#[trigger] gpus@[k], amd_cards(cards@.subrange(0, i as int))[k]),
        decreases cards.len() - i,
    {
        let ghost before = amd_cards(cards@.subrange(0, i as int));
        assert(cards@.subrange(0, i + 1).drop_last() =~= cards@.subrange(0, i as int));
        assert(cards@.subrange(0, i + 1).last() == cards@[i as int]);
        if is_amd_card(&cards[i]) {
            gpus.push(add_amd_gpu_info(&cards[i]));
            assert(amd_cards(cards@.subrange(0, i + 1)) == before.push(cards@[i as int]));
        }
        i = i + 1;
    }
    assert(cards@.subrange(0, i as int) =~= cards@);
    gpus
}

/// The rows that the vendor query tool's output gives, if it ran.
pub open spec fn nvidia_rows(nvidia_output: Option<&str>) -> Seq<Seq<char>> {
    match nvidia_output {
        Some(o) => csv_rows(lines_of(o@)),
        None => Seq::empty(),
    }
}

/// `gs` is the inventory of a poll: one GPU for each row of the vendor query
/// tool, then one for each AMD card, in order.
pub open spec fn polled(gs: Seq<GpuInfo>, nvidia_output: Option<&str>, cards: Seq<DrmCard>) -> bool {
    let rows = nvidia_rows(nvidia_output);
    let amd = amd_cards(cards);
    &&& gs.len() == rows.len() + amd.len()
    &&& forall|i: int| 0 <= i < rows.len() ==> nvidia_row(#[trigger] gs[i], rows[i])
    &&& forall|i: int| 0 <= i < amd.len() ==> amd_reading(#[trigger] gs[rows.len() + i], amd[i])
}

} // verus!
