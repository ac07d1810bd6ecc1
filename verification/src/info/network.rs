//! The integer side of the network widget: traffic totals, the bytes moved
//! since the last sample, the bounded history of samples and the glyph of a
//! graph level.

use vstd::prelude::*;
use std::collections::VecDeque;

verus! {

/// How many samples the traffic history keeps.
pub const HISTORY: usize = 10;

/// Sum of the received byte counts of a list of (received, transmitted) pairs.
pub open spec fn sum_rx(s: Seq<(u64, u64)>) -> int
    decreases s.len(),
{
    if s.len() == 0 {
        0
    } else {
        sum_rx(s.drop_last()) + s.last().0
    }
}

/// Sum of the transmitted byte counts of a list of (received, transmitted) pairs.
pub open spec fn sum_tx(s: Seq<(u64, u64)>) -> int
    decreases s.len(),
{
    if s.len() == 0 {
        0
    } else {
        sum_tx(s.drop_last()) + s.last().1
    }
}

/// A sum over a longer prefix is at least the sum over a shorter one.
pub proof fn lemma_sums_grow(s: Seq<(u64, u64)>, i: int, j: int)
    requires
        0 <= i <= j <= s.len(),
    ensures
        sum_rx(s.take(i)) <= sum_rx(s.take(j)),
        sum_tx(s.take(i)) <= sum_tx(s.take(j)),
    decreases j - i,
{
    if i < j {
        lemma_sums_grow(s, i, j - 1);
        assert(s.take(j).drop_last() =~= s.take(j - 1));
    }
}

/// The total bytes received and transmitted over all interfaces, each given
/// as a (received, transmitted) pair; `None` when a total does not fit in 64 bits.
pub fn total_traffic(samples: &Vec<(u64, u64)>) -> (r: Option<(u64, u64)>)
    ensures
        r is Some <==> (sum_rx(samples@) <= u64::MAX && sum_tx(samples@) <= u64::MAX),
        r matches Some(t) ==> t.0 == sum_rx(samples@) && t.1 == sum_tx(samples@),
{
    let mut rx: u64 = 0;
    let mut tx: u64 = 0;
    let mut i: usize = 0;
    while i < samples.len()
        invariant
            i <= samples.len(),
            rx == sum_rx(samples@.take(i as int)),
            tx == sum_tx(samples@.take(i as int)),
        decreases samples.len() - i,
    {
        let (r, t) = samples[i];
        proof {
            assert(samples@.take(i + 1).drop_last() =~= samples@.take(i as int));
        }
        if r > u64::MAX - rx || t > u64::MAX - tx {
            proof {
                lemma_sums_grow(samples@, i + 1, samples@.len() as int);
                assert(samples@.take(samples@.len() as int) =~= samples@);
            }
            return None;
        }
        rx = rx + r;
        tx = tx + t;
        i = i + 1;
    }
    assert(samples@.take(samples@.len() as int) =~= samples@);
    Some((rx, tx))
}

/// The running totals at the previous sample.
pub struct TrafficCounter {
    pub last_rx: u64,
    pub last_tx: u64,
}

impl TrafficCounter {
    /// No traffic seen yet.
    pub fn new() -> (c: Self)
        ensures
            c.last_rx == 0,
            c.last_tx == 0,
    {
        TrafficCounter { last_rx: 0, last_tx: 0 }
    }

    /// Takes new running totals and gives the bytes received and transmitted
    /// since the previous sample (0 where a total went down).
    pub fn advance(&mut self, total_rx: u64, total_tx: u64) -> (d: (u64, u64))
        ensures
            d.0 == (if total_rx >= old(self).last_rx { total_rx - old(self).last_rx } else { 0 }),
            d.1 == (if total_tx >= old(self).last_tx { total_tx - old(self).last_tx } else { 0 }),
            final(self).last_rx == total_rx,
            final(self).last_tx == total_tx,
    {
        let rx = total_rx.saturating_sub(self.last_rx);
        let tx = total_tx.saturating_sub(self.last_tx);
        self.last_rx = total_rx;
        self.last_tx = total_tx;
        (rx, tx)
    }
}

/// The sample history after one more sample: the oldest sample leaves when
/// the history is full.
pub open spec fn pushed_history<T>(h: Seq<T>, val: T) -> Seq<T> {
    if h.len() == HISTORY {
        h.drop_first().push(val)
    } else {
        h.push(val)
    }
}

/// Appends a sample to a history, dropping the oldest one when it already
/// holds `HISTORY` samples.
pub fn push_history<T>(hist: &mut VecDeque<T>, val: T)
    ensures
        final(hist)@ == pushed_history(old(hist)@, val),
        old(hist)@.len() <= HISTORY ==> final(hist)@.len() <= HISTORY,
{
    if hist.len() == HISTORY {
        hist.pop_front();
    }
    hist.push_back(val);
    assert(final(hist)@ =~= pushed_history(old(hist)@, val));
}

/// The braille glyph drawn for a graph level from 0 to 8.
pub open spec fn braille_spec(level: u8) -> char {
    if level == 0 {
        '⣀'
    } else if level == 1 {
        '⣄'
    } else if level == 2 {
        '⣆'
    } else if level == 3 {
        '⣇'
    } else if level == 4 {
        '⣧'
    } else if level == 5 {
        '⣷'
    } else if level == 6 {
        '⣾'
    } else {
        '⣿'
    }
}

/// The braille glyph for a graph level (levels above 7 share the full glyph).
pub fn braille_char(level: u8) -> (c: char)
    ensures
        c == braille_spec(level),
{
    match level {
        0 => '⣀',
        1 => '⣄',
        2 => '⣆',
        3 => '⣇',
        4 => '⣧',
        5 => '⣷',
        6 => '⣾',
        _ => '⣿',
    }
}

} // verus!
