//! The system widget: host, operating system, kernel, CPU, uptime and boot time.

use vstd::prelude::*;
use crate::text::{decimal, extend_str, pad2, push_decimal, push_pad2, string_of};

verus! {

/// What the system widget shows.
pub struct SystemInfoWidget {
    os_name: String,
    os_version: String,
    kernel: String,
    hostname: String,
    cpu_brand: String,
    cores: usize,
    uptime: u64,
    boot_time: u64,
}

/// `format!("{:02}h {:02}m {:02}s", ..)` of a number of seconds split into
/// hours, minutes and seconds.
pub open spec fn uptime_text(secs: nat) -> Seq<char> {
    pad2(secs / 3600) + "h "@ + pad2((secs % 3600) / 60) + "m "@ + pad2(secs % 60) + "s"@
}

/// The text of the widget.
pub open spec fn system_text(
    host: Seq<char>,
    os: Seq<char>,
    version: Seq<char>,
    kernel: Seq<char>,
    cpu: Seq<char>,
    cores: nat,
    uptime: nat,
    boot: nat,
) -> Seq<char> {
    " Host     "@ + host + "\n"@ + " OS       "@ + os + " "@ + version + "\n"@ + " Kernel   "@ + kernel + "\n"@
        + " CPU      "@ + cpu + "\n"@ + " Cores    "@ + decimal(cores) + "\n"@ + " Uptime   "@ + uptime_text(
        uptime,
    ) + "\n"@ + " Boot     "@ + decimal(boot) + "\n"@
}

/// The text of an optional string, empty when there is none.
pub open spec fn text_or_empty(s: Option<String>) -> Seq<char> {
    match s {
        Some(t) => t@,
        None => seq![],
    }
}

/// Formats an uptime in seconds as hours, minutes and seconds, each at least
/// two digits.
pub fn format_uptime(secs: u64) -> (r: String)
    ensures
        r@ == uptime_text(secs as nat),
{
    let hours = secs / 3600;
    let minutes = (secs % 3600) / 60;
    let seconds = secs % 60;
    let mut out: Vec<char> = Vec::new();
    push_pad2(&mut out, hours);
    extend_str(&mut out, "h ");
    push_pad2(&mut out, minutes);
    extend_str(&mut out, "m ");
    push_pad2(&mut out, seconds);
    extend_str(&mut out, "s");
    assert(out@ =~= uptime_text(secs as nat));
    string_of(out.as_slice())
}

impl SystemInfoWidget {
    /// The CPU brand shown.
    pub closed spec fn brand(&self) -> Seq<char> {
        self.cpu_brand@
    }

    /// The text of the widget for its current figures.
    pub closed spec fn render_spec(&self) -> Seq<char> {
        system_text(
            self.hostname@,
            self.os_name@,
            self.os_version@,
            self.kernel@,
            self.cpu_brand@,
            self.cores as nat,
            self.uptime as nat,
            self.boot_time as nat,
        )
    }

    /// Nothing known yet.
    pub fn new() -> (w: Self)
        ensures
            w.brand() == Seq::<char>::empty(),
            w.render_spec() == system_text(seq![], seq![], seq![], seq![], seq![], 0, 0, 0),
    {
        SystemInfoWidget {
            os_name: String::new(),
            os_version: String::new(),
            kernel: String::new(),
            hostname: String::new(),
            cpu_brand: String::new(),
            cores: 0,
            uptime: 0,
            boot_time: 0,
        }
    }

    /// Takes a fresh reading. A name that is not known is shown empty; the
    /// CPU brand is that of the first CPU and stays as it was when no CPU is
    /// listed; `cores` is the number of CPUs listed.
    pub fn apply(
        &mut self,
        os_name: Option<String>,
        os_version: Option<String>,
        kernel: Option<String>,
        hostname: Option<String>,
        uptime: u64,
        boot_time: u64,
        cpu_brand: Option<String>,
        cores: usize,
    )
        ensures
            final(self).brand() == (match cpu_brand {
                Some(b) => b@,
                None => old(self).brand(),
            }),
            final(self).render_spec() == system_text(
                text_or_empty(hostname),
                text_or_empty(os_name),
                text_or_empty(os_version),
                text_or_empty(kernel),
                final(self).brand(),
                cores as nat,
                uptime as nat,
                boot_time as nat,
            ),
    {
        self.os_name = match os_name {
            Some(s) => s,
            None => String::new(),
        };
        self.os_version = match os_version {
            Some(s) => s,
            None => String::new(),
        };
        self.kernel = match kernel {
            Some(s) => s,
            None => String::new(),
        };
        self.hostname = match hostname {
            Some(s) => s,
            None => String::new(),
        };
        self.uptime = uptime;
        self.boot_time = boot_time;
        if let Some(b) = cpu_brand {
            self.cpu_brand = b;
        }
        self.cores = cores;
    }

    /// The text of the widget.
    pub fn render(&self) -> (r: String)
        ensures
            r@ == self.render_spec(),
    {
        let mut out: Vec<char> = Vec::new();
        extend_str(&mut out, " Host     ");
        extend_str(&mut out, self.hostname.as_str());
        extend_str(&mut out, "\n");
        extend_str(&mut out, " OS       ");
        extend_str(&mut out, self.os_name.as_str());
        extend_str(&mut out, " ");
        extend_str(&mut out, self.os_version.as_str());
        extend_str(&mut out, "\n");
        extend_str(&mut out, " Kernel   ");
        extend_str(&mut out, self.kernel.as_str());
        extend_str(&mut out, "\n");
        extend_str(&mut out, " CPU      ");
        extend_str(&mut out, self.cpu_brand.as_str());
        extend_str(&mut out, "\n");
        extend_str(&mut out, " Cores    ");
        push_decimal(&mut out, self.cores as u64);
        extend_str(&mut out, "\n");
        extend_str(&mut out, " Uptime   ");
        let up = format_uptime(self.uptime);
        extend_str(&mut out, up.as_str());
        extend_str(&mut out, "\n");
        extend_str(&mut out, " Boot     ");
        push_decimal(&mut out, self.boot_time);
        extend_str(&mut out, "\n");
        assert(out@ =~= self.render_spec());
        string_of(out.as_slice())
    }
}

} // verus!
