//! The GPU widget: name, temperature, load and video memory.

use vstd::prelude::*;
use crate::text::{decimal, extend_str, push_decimal, string_of};
use super::bar::{bar10, push_gauge};

verus! {

/// What the GPU widget shows.
pub struct GpuWidget {
    vendor: String,
    model: String,
    vram_total_mb: u64,
    vram_used_mb: u64,
    load_pct: u32,
    temp_c: u32,
}

/// The used share of video memory in whole percent (0 when none is known).
pub open spec fn vram_percent(used_mb: u64, total_mb: u64) -> nat {
    if total_mb > 0 {
        ((used_mb * 100) / total_mb as int) as nat
    } else {
        0
    }
}

/// The text of the widget: vendor and model, temperature, load bar and
/// percentage, video memory bar and figures.
pub open spec fn gpu_text(vendor: Seq<char>, model: Seq<char>, total_mb: u64, used_mb: u64, load: u32, temp: u32) -> Seq<char> {
    let v = vram_percent(used_mb, total_mb);
    " "@ + vendor + " "@ + model + "\n"@ + " Temp  "@ + decimal(temp as nat) + "°C\n\n"@ + " Load "@ + bar10(
        load as nat,
    ) + " "@ + decimal(load as nat) + "%\n\n"@ + " VRAM "@ + bar10(v) + " "@ + decimal(used_mb as nat) + " / "@
        + decimal(total_mb as nat) + " MB\n"@
}

impl GpuWidget {
    /// The used memory is a count of mebibytes of a 64-bit byte count.
    pub closed spec fn wf(&self) -> bool {
        self.vram_used_mb <= u64::MAX / 1048576
    }

    /// The text of the widget for its current figures.
    pub closed spec fn render_spec(&self) -> Seq<char> {
        gpu_text(self.vendor@, self.model@, self.vram_total_mb, self.vram_used_mb, self.load_pct, self.temp_c)
    }

    /// No GPU information yet.
    pub fn new() -> (w: Self)
        ensures
            w.wf(),
            w.render_spec() == gpu_text(seq![], seq![], 0, 0, 0, 0),
    {
        let w = GpuWidget {
            vendor: String::new(),
            model: String::new(),
            vram_total_mb: 0,
            vram_used_mb: 0,
            load_pct: 0,
            temp_c: 0,
        };
        w
    }

    /// Takes the figures of the active GPU: memory in bytes (shown in
    /// mebibytes), load in percent, temperature in thousandths of a degree
    /// (shown in whole degrees).
    pub fn update(
        &mut self,
        vendor: String,
        model: String,
        total_vram: u64,
        used_vram: u64,
        load_pct: u32,
        temp_milli: u32,
    )
        ensures
            final(self).wf(),
            final(self).render_spec() == gpu_text(
                vendor@,
                model@,
                total_vram / 1048576,
                used_vram / 1048576,
                load_pct,
                temp_milli / 1000,
            ),
    {
        self.vendor = vendor;
        self.model = model;
        self.vram_total_mb = total_vram / (1024 * 1024);
        self.vram_used_mb = used_vram / (1024 * 1024);
        self.load_pct = load_pct;
        self.temp_c = temp_milli / 1000;
    }

    /// The text of the widget.
    pub fn render(&self) -> (r: String)
        requires
            self.wf(),
        ensures
            r@ == self.render_spec(),
    {
        let full = ['█', '█'];
        let empty = ['░', '░'];
        assert(full@ =~= seq!['█', '█']);
        assert(empty@ =~= seq!['░', '░']);
        let mut out: Vec<char> = Vec::new();
        extend_str(&mut out, " ");
        extend_str(&mut out, self.vendor.as_str());
        extend_str(&mut out, " ");
        extend_str(&mut out, self.model.as_str());
        extend_str(&mut out, "\n");
        extend_str(&mut out, " Temp  ");
        push_decimal(&mut out, self.temp_c as u64);
        extend_str(&mut out, "°C\n\n");
        extend_str(&mut out, " Load ");
        push_gauge(&mut out, self.load_pct as u64 / 10, 10, full.as_slice(), empty.as_slice());
        extend_str(&mut out, " ");
        push_decimal(&mut out, self.load_pct as u64);
        extend_str(&mut out, "%\n\n");
        let vram_pct = if self.vram_total_mb > 0 {
            (self.vram_used_mb * 100) / self.vram_total_mb
        } else {
            0
        };
        extend_str(&mut out, " VRAM ");
        push_gauge(&mut out, vram_pct / 10, 10, full.as_slice(), empty.as_slice());
        extend_str(&mut out, " ");
        push_decimal(&mut out, self.vram_used_mb);
        extend_str(&mut out, " / ");
        push_decimal(&mut out, self.vram_total_mb);
        extend_str(&mut out, " MB\n");
        assert(out@ =~= self.render_spec());
        string_of(out.as_slice())
    }
}

} // verus!
