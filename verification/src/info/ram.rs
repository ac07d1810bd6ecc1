//! The memory widget: used and total RAM and swap.

use vstd::prelude::*;
use crate::text::{decimal, push_decimal, string_of};
use super::bar::{gauge, push_gauge};

verus! {

/// The memory figures, in bytes.
pub struct RamWidget {
    pub total_memory: u64,
    pub used_memory: u64,
    pub total_swap: u64,
    pub used_swap: u64,
}

/// Which figure to show.
pub enum MemoryKind {
    Ram,
    Swap,
}

/// The five-cell memory bar: one `██` cell per full twenty percent.
pub open spec fn bar5(percent: nat) -> Seq<char> {
    gauge(percent / 20, 5, seq!['█', '█'], seq!['░', '░'])
}

/// The share of `total` that `used` is, in whole percent (0 when `total` is
/// 0).
pub open spec fn percent_of(used: u64, total: u64) -> nat {
    if total == 0 {
        0
    } else {
        ((used * 100) / total as int) as nat
    }
}

/// The percentage of `used` in `total` can be computed without overflow
/// (nothing is computed when `total` is 0).
pub open spec fn fits(used: u64, total: u64) -> bool {
    total != 0 ==> used * 100 <= u64::MAX
}

/// One line of the widget: the bar and the figures in mebibytes.
pub open spec fn ram_line(used: u64, total: u64) -> Seq<char> {
    bar5(percent_of(used, total)) + seq![' '] + decimal((used / 1048576) as nat) + " MB/"@ + decimal(
        (total / 1048576) as nat,
    ) + " MB"@
}

/// The text of the widget.
pub open spec fn ram_render_spec(w: RamWidget) -> Seq<char> {
    "\n RAM  "@ + ram_line(w.used_memory, w.total_memory) + "\n\n SWAP "@ + ram_line(w.used_swap, w.total_swap)
        + "\n"@
}

/// The five-cell bar of the memory widget.
pub fn build_bar(percent: u64) -> (r: String)
    ensures
        r@ == bar5(percent as nat),
{
    let mut out: Vec<char> = Vec::new();
    let full = ['█', '█'];
    let empty = ['░', '░'];
    push_gauge(&mut out, percent / 20, 5, full.as_slice(), empty.as_slice());
    assert(full@ =~= seq!['█', '█']);
    assert(empty@ =~= seq!['░', '░']);
    assert(out@ =~= bar5(percent as nat));
    string_of(out.as_slice())
}

impl RamWidget {
    /// All figures zero.
    pub fn new() -> (w: Self)
        ensures
            w.total_memory == 0 && w.used_memory == 0 && w.total_swap == 0 && w.used_swap == 0,
    {
        RamWidget { total_memory: 0, used_memory: 0, total_swap: 0, used_swap: 0 }
    }

    /// The used share of RAM or swap, in whole percent.
    pub fn percentage(&self, kind: MemoryKind) -> (r: u64)
        requires
            kind is Ram ==> fits(self.used_memory, self.total_memory),
            kind is Swap ==> fits(self.used_swap, self.total_swap),
        ensures
            kind is Ram ==> r == percent_of(self.used_memory, self.total_memory),
            kind is Swap ==> r == percent_of(self.used_swap, self.total_swap),
    {
        match kind {
            MemoryKind::Ram => {
                if self.total_memory == 0 {
                    0
                } else {
                    (self.used_memory * 100) / self.total_memory
                }
            },
            MemoryKind::Swap => {
                if self.total_swap == 0 {
                    0
                } else {
                    (self.used_swap * 100) / self.total_swap
                }
            },
        }
    }

    /// Used and total RAM or swap, in whole mebibytes.
    pub fn values_mb(&self, kind: MemoryKind) -> (r: (u64, u64))
        ensures
            kind is Ram ==> r == (self.used_memory / 1048576, self.total_memory / 1048576),
            kind is Swap ==> r == (self.used_swap / 1048576, self.total_swap / 1048576),
    {
        match kind {
            MemoryKind::Ram => (self.used_memory / (1024 * 1024), self.total_memory / (1024 * 1024)),
            MemoryKind::Swap => (self.used_swap / (1024 * 1024), self.total_swap / (1024 * 1024)),
        }
    }

    /// The text of the widget.
    pub fn render(&self) -> (r: String)
        requires
            fits(self.used_memory, self.total_memory),
            fits(self.used_swap, self.total_swap),
        ensures
            r@ == ram_render_spec(*self),
    {
        let ram_percent = self.percentage(MemoryKind::Ram);
        let swap_percent = self.percentage(MemoryKind::Swap);
        let (ram_used, ram_total) = self.values_mb(MemoryKind::Ram);
        let (swap_used, swap_total) = self.values_mb(MemoryKind::Swap);
        let full = ['█', '█'];
        let empty = ['░', '░'];
        assert(full@ =~= seq!['█', '█']);
        assert(empty@ =~= seq!['░', '░']);
        let mut out: Vec<char> = Vec::new();
        crate::text::extend_str(&mut out, "\n RAM  ");
        push_gauge(&mut out, ram_percent / 20, 5, full.as_slice(), empty.as_slice());
        out.push(' ');
        push_decimal(&mut out, ram_used);
        crate::text::extend_str(&mut out, " MB/");
        push_decimal(&mut out, ram_total);
        crate::text::extend_str(&mut out, " MB");
        crate::text::extend_str(&mut out, "\n\n SWAP ");
        push_gauge(&mut out, swap_percent / 20, 5, full.as_slice(), empty.as_slice());
        out.push(' ');
        push_decimal(&mut out, swap_used);
        crate::text::extend_str(&mut out, " MB/");
        push_decimal(&mut out, swap_total);
        crate::text::extend_str(&mut out, " MB");
        out.push('\n');
        proof {
            reveal_strlit("\n");
        }
        assert(out@ =~= ram_render_spec(*self));
        string_of(out.as_slice())
    }
}

} // verus!
