//! Horizontal gauges made of block characters.

use vstd::prelude::*;

verus! {

/// A gauge of `width` cells, the first `filled` of them drawn with `full`
/// and the others with `empty`; each cell is the given characters.
pub open spec fn gauge(filled: nat, width: nat, full: Seq<char>, empty: Seq<char>) -> Seq<char>
    decreases width,
{
    if width == 0 {
        seq![]
    } else {
        gauge(filled, (width - 1) as nat, full, empty) + if width - 1 < filled {
            full
        } else {
            empty
        }
    }
}

/// Appends a gauge of `width` cells with `filled` of them full.
pub fn push_gauge(out: &mut Vec<char>, filled: u64, width: u64, full: &[char], empty: &[char])
    ensures
        final(out)@ == old(out)@ + gauge(filled as nat, width as nat, full@, empty@),
{
    let mut i: u64 = 0;
    while i < width
        invariant
            i <= width,
            out@ == old(out)@ + gauge(filled as nat, i as nat, full@, empty@),
        decreases width - i,
    {
        if i < filled {
            crate::text::extend(out, full);
        } else {
            crate::text::extend(out, empty);
        }
        assert(out@ =~= old(out)@ + gauge(filled as nat, (i + 1) as nat, full@, empty@));
        i = i + 1;
    }
}

/// The ten-cell bar for a percentage: one `██` cell per full ten percent,
/// `░░` for the rest.
pub open spec fn bar10(percent: nat) -> Seq<char> {
    gauge(percent / 10, 10, seq!['█', '█'], seq!['░', '░'])
}

/// The ten-cell bar of the GPU and battery widgets.
pub fn build_bar(percent: u64) -> (r: String)
    ensures
        r@ == bar10(percent as nat),
{
    let mut out: Vec<char> = Vec::new();
    let full = ['█', '█'];
    let empty = ['░', '░'];
    push_gauge(&mut out, percent / 10, 10, full.as_slice(), empty.as_slice());
    assert(full@ =~= seq!['█', '█']);
    assert(empty@ =~= seq!['░', '░']);
    assert(out@ =~= bar10(percent as nat));
    crate::text::string_of(out.as_slice())
}

} // verus!
