//! The sensor tree as the library sees it: chips with numbered temperature
//! channels, each file given by what reading it produced.
use vstd::prelude::*;
use crate::number::{decimal_milli, parse_milli, parse_u64, unsigned_value};
use crate::text::{trim, trimmed};

verus! {

/// What reading a file produced.
pub enum FileRead {
    /// The file is not there.
    Absent,
    /// The file is there but could not be read.
    Unreadable,
    /// The file's contents.
    Text(String),
}

/// One sensor chip (a hwmon directory).
pub struct SensorChip {
    /// Contents of the `name` file, when it could be read.
    pub name: Option<String>,
    /// `inputs[k]`: contents of `temp{k+1}_input`, when it could be read.
    pub inputs: Vec<Option<String>>,
    /// `labels[k]`: what reading `temp{k+1}_label` produced.
    pub labels: Vec<FileRead>,
}

/// `v / d` rounded towards zero, as integer division in Rust does.
pub open spec fn div_toward_zero(v: int, d: int) -> int {
    if v >= 0 {
        v / d
    } else {
        -((-v) / d)
    }
}

/// A millidegree sensor text, as thousandths of a degree.
pub open spec fn sensor_milli(t: Seq<char>) -> Option<int> {
    match decimal_milli(trimmed(t)) {
        Some(v) => Some(div_toward_zero(v, 1000)),
        None => None,
    }
}

/// A decimal text in thousandths of its unit, once trimmed.
pub open spec fn value_milli(t: Seq<char>) -> Option<int> {
    decimal_milli(trimmed(t))
}

/// An unsigned integer text, once trimmed.
pub open spec fn value_u64(t: Seq<char>) -> Option<nat> {
    unsigned_value(trimmed(t))
}

pub open spec fn opt_view(o: Option<String>) -> Option<Seq<char>> {
    match o {
        Some(t) => Some(t@),
        None => None,
    }
}

/// The text of `temp{k+1}_input`, when it was read.
pub open spec fn input_text(chip: SensorChip, k: int) -> Option<Seq<char>> {
    if 0 <= k < chip.inputs@.len() {
        opt_view(chip.inputs@[k])
    } else {
        None
    }
}

/// The temperature of channel `k + 1`, in thousandths of a degree.
pub open spec fn channel_temp(chip: SensorChip, k: int) -> Option<int> {
    match input_text(chip, k) {
        Some(t) => sensor_milli(t),
        None => None,
    }
}

/// Reads a millidegree sensor text as thousandths of a degree.
pub fn read_sensor_milli(t: &str) -> (r: Option<i64>)
    ensures
        match r {
            Some(v) => sensor_milli(t@) == Some(v as int),
            None => sensor_milli(t@) is None,
        },
{
    match parse_milli(trim(t)) {
        Some(v) => Some(v / 1000),
        None => None,
    }
}

/// Reads a decimal text as thousandths of its unit.
pub fn read_value_milli(t: &str) -> (r: Option<i64>)
    ensures
        match r {
            Some(v) => value_milli(t@) == Some(v as int),
            None => value_milli(t@) is None,
        },
{
    parse_milli(trim(t))
}

/// Reads an unsigned integer text.
pub fn read_u64(t: &str) -> (r: Option<u64>)
    ensures
        match r {
            Some(v) => value_u64(t@) == Some(v as nat),
            None => value_u64(t@) is None,
        },
{
    parse_u64(trim(t))
}

/// The temperature of channel `k + 1` of `chip`, in thousandths of a degree.
pub fn chip_temp(chip: &SensorChip, k: usize) -> (r: Option<i64>)
    ensures
        match r {
            Some(v) => channel_temp(*chip, k as int) == Some(v as int),
            None => channel_temp(*chip, k as int) is None,
        },
{
    if k < chip.inputs.len() {
        match &chip.inputs[k] {
            Some(t) => read_sensor_milli(t.as_str()),
            None => None,
        }
    } else {
        None
    }
}

} // verus!
