//! Memory use: the latest reading and the running extrema of memory in use.
use vstd::prelude::*;
use crate::extrema::{next_max, next_min};
use crate::panel::{binary_size_text, push_size, Mouse};
use crate::text::{decimal, push_decimal};

verus! {

/// Bytes in the binary unit `1024^k`, for `k` from 0 (bytes) to 6 (EiB).
pub open spec fn unit_bytes(k: nat) -> nat {
    if k == 0 {
        1
    } else if k == 1 {
        1024
    } else if k == 2 {
        1048576
    } else if k == 3 {
        1073741824
    } else if k == 4 {
        1099511627776
    } else if k == 5 {
        1125899906842624
    } else {
        1152921504606846976
    }
}

/// The exponent of the binary unit that a byte count is shown in: the largest
/// `k` from 1 to 6 with `x >= 1024^k`, else 0.
pub open spec fn binary_exponent(x: nat) -> nat {
    if x >= unit_bytes(6) {
        6
    } else if x >= unit_bytes(5) {
        5
    } else if x >= unit_bytes(4) {
        4
    } else if x >= unit_bytes(3) {
        3
    } else if x >= unit_bytes(2) {
        2
    } else if x >= unit_bytes(1) {
        1
    } else {
        0
    }
}

/// The share of memory in use as the panel computes it: the used size in its
/// own unit over the total size in its own unit, times 100, rounded half up
/// (900 MiB of 16 GiB gives 900 / 16 * 100 = 5625). The two sizes are scaled
/// before they are divided. The quotient `(used / 1024^eu) / (total / 1024^et)`
/// is written with the common power of 1024 cancelled. Zero when `total` is
/// zero; held at the largest `u64`.
pub open spec fn rounded_percent(used: nat, total: nat) -> nat {
    let eu = binary_exponent(used);
    let et = binary_exponent(total);
    let n: nat = if et >= eu { used * unit_bytes((et - eu) as nat) } else { used };
    let d: nat = if et >= eu { total } else { total * unit_bytes((eu - et) as nat) };
    if total == 0 {
        0
    } else if (n * 200 + d) / (2 * d) > u64::MAX {
        u64::MAX as nat
    } else {
        (n * 200 + d) / (2 * d)
    }
}

fn unit_of(k: u64) -> (r: u64)
    requires
        k <= 6,
    ensures
        r == unit_bytes(k as nat),
        1 <= r <= 1152921504606846976,
{
    if k == 0 {
        1
    } else if k == 1 {
        1024
    } else if k == 2 {
        1048576
    } else if k == 3 {
        1073741824
    } else if k == 4 {
        1099511627776
    } else if k == 5 {
        1125899906842624
    } else {
        1152921504606846976
    }
}

fn exponent_of(x: u64) -> (r: u64)
    ensures
        r == binary_exponent(x as nat),
        r < 6 ==> x < unit_bytes(r as nat + 1),
{
    if x >= 1152921504606846976 {
        6
    } else if x >= 1125899906842624 {
        5
    } else if x >= 1099511627776 {
        4
    } else if x >= 1073741824 {
        3
    } else if x >= 1048576 {
        2
    } else if x >= 1024 {
        1
    } else {
        0
    }
}

/// The share of memory in use, as `rounded_percent` states it.
pub fn scaled_percent(used: u64, total: u64) -> (r: u64)
    ensures
        r == rounded_percent(used as nat, total as nat),
{
    if total == 0 {
        return 0;
    }
    let eu = exponent_of(used);
    let et = exponent_of(total);
    let n: u128;
    let d: u128;
    if et >= eu {
        let f = unit_of(et - eu);
        if et > eu {
            assert(used < unit_bytes(eu as nat + 1));
            let ghost k: nat = eu as nat + 1;
            assert(unit_bytes(k) <= 1152921504606846976);
        }
        if et > eu {
            assert(used as nat * f <= 1152921504606846976 * 1152921504606846976) by (nonlinear_arith)
                requires
                    used < 1152921504606846976,
                    f <= 1152921504606846976,
            ;
        } else {
            assert(f == 1);
        }
        n = used as u128 * f as u128;
        d = total as u128;
    } else {
        let f = unit_of(eu - et);
        assert(total as nat * f <= 18446744073709551615 * 1152921504606846976) by (nonlinear_arith)
            requires
                f <= 1152921504606846976,
                total <= u64::MAX,
        ;
        n = used as u128;
        d = total as u128 * f as u128;
    }
    assert(d > 0) by (nonlinear_arith)
        requires
            d == total as u128 || (d as nat == total as nat * unit_bytes((eu - et) as nat)
                && unit_bytes((eu - et) as nat) >= 1),
            total > 0,
    ;
    let q = (n * 200 + d) / (2 * d);
    if q > u64::MAX as u128 {
        u64::MAX
    } else {
        q as u64
    }
}

/// Memory figures of the latest poll, in bytes, with the least and most memory
/// in use seen so far (a least of zero means none seen yet).
pub struct MemStats {
    total_mem: u64,
    mem_usage: u64,
    available_mem: u64,
    percentage_used: u64,
    min_mem_usage: u64,
    max_mem_usage: u64,
}

/// The line of the memory panel.
pub open spec fn memory_line(used: nat, total: nat, percent: nat, max: nat, min: nat) -> Seq<char> {
    "Memory Usage:"@ + binary_size_text(used) + "/"@ + binary_size_text(total) + " "@ + decimal(
        percent,
    ) + "% Max:"@ + binary_size_text(max) + " Min:"@ + binary_size_text(min)
}

impl MemStats {
    pub closed spec fn total(&self) -> nat {
        self.total_mem as nat
    }

    pub closed spec fn used(&self) -> nat {
        self.mem_usage as nat
    }

    pub closed spec fn available(&self) -> nat {
        self.available_mem as nat
    }

    pub closed spec fn percentage(&self) -> nat {
        self.percentage_used as nat
    }

    pub closed spec fn min_used(&self) -> nat {
        self.min_mem_usage as nat
    }

    pub closed spec fn max_used(&self) -> nat {
        self.max_mem_usage as nat
    }

    /// Nothing read yet.
    pub fn new() -> (r: MemStats)
        ensures
            r.total() == 0,
            r.used() == 0,
            r.available() == 0,
            r.percentage() == 1,
            r.min_used() == 0,
            r.max_used() == 0,
    {
        MemStats {
            total_mem: 0,
            mem_usage: 0,
            available_mem: 0,
            percentage_used: 1,
            min_mem_usage: 0,
            max_mem_usage: 0,
        }
    }

    /// Takes in a reading of total, used and available memory.
    pub fn update(&mut self, total: u64, used: u64, available: u64)
        ensures
            final(self).total() == total,
            final(self).used() == used,
            final(self).available() == available,
            final(self).percentage() == rounded_percent(used as nat, total as nat),
            final(self).max_used() == next_max(old(self).max_used() as int, used as int),
            final(self).min_used() == next_min(old(self).min_used() as int, used as int),
            final(self).min_used() <= used <= final(self).max_used(),
    {
        self.total_mem = total;
        self.mem_usage = used;
        self.available_mem = available;
        self.percentage_used = scaled_percent(used, total);
        if used > self.max_mem_usage {
            self.max_mem_usage = used;
        }
        if self.min_mem_usage == 0 || used < self.min_mem_usage {
            self.min_mem_usage = used;
        }
    }

    pub fn total_mem(&self) -> (r: u64)
        ensures
            r == self.total(),
    {
        self.total_mem
    }

    pub fn mem_usage(&self) -> (r: u64)
        ensures
            r == self.used(),
    {
        self.mem_usage
    }

    pub fn available_mem(&self) -> (r: u64)
        ensures
            r == self.available(),
    {
        self.available_mem
    }

    pub fn percentage_used(&self) -> (r: u64)
        ensures
            r == self.percentage(),
    {
        self.percentage_used
    }

    pub fn min_mem_usage(&self) -> (r: u64)
        ensures
            r == self.min_used(),
    {
        self.min_mem_usage
    }

    pub fn max_mem_usage(&self) -> (r: u64)
        ensures
            r == self.max_used(),
    {
        self.max_mem_usage
    }

    /// The memory panel.
    pub fn get_mouse(&mut self) -> (r: Mouse)
        ensures
            *final(self) == *old(self),
            r.heading() == "Memory"@,
            r.lines() == seq![
                memory_line(
                    old(self).used(),
                    old(self).total(),
                    old(self).percentage(),
                    old(self).max_used(),
                    old(self).min_used(),
                ),
            ],
    {
        let mut mouse = Mouse::new(String::from_str("Memory"));
        let mut line = String::from_str("Memory Usage:");
        push_size(&mut line, self.mem_usage);
        line.append("/");
        push_size(&mut line, self.total_mem);
        line.append(" ");
        push_decimal(&mut line, self.percentage_used);
        line.append("% Max:");
        push_size(&mut line, self.max_mem_usage);
        line.append(" Min:");
        push_size(&mut line, self.min_mem_usage);
        mouse.add(line);
        assert(mouse.lines() =~= seq![
            memory_line(
                self.used(),
                self.total(),
                self.percentage(),
                self.max_used(),
                self.min_used(),
            ),
        ]);
        mouse
    }
}

} // verus!
