//! The disk widget: one gauge per mounted disk.

use vstd::prelude::*;
use crate::text::{decimal, extend_str, push_decimal, string_of};
use super::bar::{gauge, push_gauge};

verus! {

/// One disk: where it is mounted, its kind, and its size and use in bytes.
pub struct DiskEntry {
    pub mount: String,
    pub kind: String,
    pub total: u64,
    pub used: u64,
}

/// The disks to show.
pub struct DiskWidget {
    pub disks: Vec<DiskEntry>,
}

/// The share of `total` that `used` is, in whole percent (0 for an empty
/// disk).
pub open spec fn disk_percent(used: u64, total: u64) -> nat {
    if total == 0 {
        0
    } else {
        ((used * 100) / total as int) as nat
    }
}

/// The ten-block gauge: ` [`, one `■` per full ten percent, `□` for the
/// rest, `]`.
pub open spec fn blocks_spec(percent: nat) -> Seq<char> {
    seq![' ', '['] + gauge(percent / 10, 10, seq!['■'], seq!['□']) + seq![']']
}

/// The lines of one disk.
pub open spec fn disk_text(d: DiskEntry) -> Seq<char> {
    let p = disk_percent(d.used, d.total);
    " "@ + d.mount@ + " ("@ + d.kind@ + ")\n"@ + blocks_spec(p) + "\n "@ + decimal((d.used / 1_000_000_000) as nat)
        + "GB / "@ + decimal((d.total / 1_000_000_000) as nat) + "GB  ("@ + decimal(p) + "%)\n"@
}

/// The lines of the first `n` disks.
pub open spec fn disks_text(ds: Seq<DiskEntry>) -> Seq<char>
    decreases ds.len(),
{
    if ds.len() == 0 {
        seq![]
    } else {
        disks_text(ds.drop_last()) + disk_text(ds.last())
    }
}

/// The percentages of the disks can be computed without overflow (nothing
/// is computed for a disk of size 0).
pub open spec fn disks_fit(ds: Seq<DiskEntry>) -> bool {
    forall|i: int| 0 <= i < ds.len() && #[trigger] ds[i].total != 0 ==> ds[i].used * 100 <= u64::MAX
}

impl DiskEntry {
    /// A disk of `total` bytes with `available` of them free.
    pub fn from_space(mount: String, kind: String, total: u64, available: u64) -> (d: Self)
        requires
            available <= total,
        ensures
            d.mount == mount,
            d.kind == kind,
            d.total == total,
            d.used == total - available,
    {
        DiskEntry { mount, kind, total, used: total - available }
    }
}

impl DiskWidget {
    /// No disks.
    pub fn new() -> (w: Self)
        ensures
            w.disks@.len() == 0,
    {
        DiskWidget { disks: Vec::new() }
    }

    /// The share of `total` that `used` is, in whole percent.
    pub fn percent(used: u64, total: u64) -> (r: u64)
        requires
            total != 0 ==> used * 100 <= u64::MAX,
        ensures
            r == disk_percent(used, total),
    {
        if total == 0 {
            0
        } else {
            (used * 100) / total
        }
    }

    /// The gauge for a percentage.
    pub fn build_blocks(percent: u64) -> (r: String)
        ensures
            r@ == blocks_spec(percent as nat),
    {
        let mut out: Vec<char> = Vec::new();
        Self::push_blocks(&mut out, percent);
        assert(out@ =~= blocks_spec(percent as nat));
        string_of(out.as_slice())
    }

    /// Appends the gauge for a percentage.
    fn push_blocks(out: &mut Vec<char>, percent: u64)
        ensures
            final(out)@ == old(out)@ + blocks_spec(percent as nat),
    {
        let full = ['■'];
        let empty = ['□'];
        assert(full@ =~= seq!['■']);
        assert(empty@ =~= seq!['□']);
        out.push(' ');
        out.push('[');
        push_gauge(out, percent / 10, 10, full.as_slice(), empty.as_slice());
        out.push(']');
        assert(final(out)@ =~= old(out)@ + blocks_spec(percent as nat));
    }

    /// Whole gigabytes (10^9 bytes).
    pub fn to_gb(bytes: u64) -> (r: u64)
        ensures
            r == bytes / 1_000_000_000,
    {
        bytes / 1_000_000_000
    }

    /// The text of the widget: an empty line, then each disk's mount point
    /// and kind, gauge, and figures.
    pub fn render(&self) -> (r: String)
        requires
            disks_fit(self.disks@),
        ensures
            r@ == "\n"@ + disks_text(self.disks@),
    {
        let mut out: Vec<char> = Vec::new();
        out.push('\n');
        proof {
            reveal_strlit("\n");
        }
        let mut i: usize = 0;
        while i < self.disks.len()
            invariant
                i <= self.disks.len(),
                disks_fit(self.disks@),
                out@ == "\n"@ + disks_text(self.disks@.take(i as int)),
            decreases self.disks.len() - i,
        {
            let d = &self.disks[i];
            assert(self.disks@[i as int].total != 0 ==> self.disks@[i as int].used * 100 <= u64::MAX);
            let percent = Self::percent(d.used, d.total);
            let ghost before = out@;
            extend_str(&mut out, " ");
            extend_str(&mut out, d.mount.as_str());
            extend_str(&mut out, " (");
            extend_str(&mut out, d.kind.as_str());
            extend_str(&mut out, ")\n");
            Self::push_blocks(&mut out, percent);
            extend_str(&mut out, "\n ");
            push_decimal(&mut out, Self::to_gb(d.used));
            extend_str(&mut out, "GB / ");
            push_decimal(&mut out, Self::to_gb(d.total));
            extend_str(&mut out, "GB  (");
            push_decimal(&mut out, percent);
            extend_str(&mut out, "%)\n");
            proof {
                assert(out@ =~= before + disk_text(self.disks@[i as int]));
                assert(self.disks@.take(i + 1).drop_last() =~= self.disks@.take(i as int));
            }
            i = i + 1;
        }
        assert(self.disks@.take(self.disks@.len() as int) =~= self.disks@);
        string_of(out.as_slice())
    }
}

} // verus!
