//! The three-column directory browser.

pub mod format;
pub mod path;

use vstd::prelude::*;
use crate::text::{chars_of, string_of, extend_str, lines, split_lines, views, decimal, push_decimal, spec_lowercase, to_lowercase};
use crate::sort::{codes, is_stable_sort, key_views, push_codes, stable_sort_order};
use self::format::{fmt_size, fmt_size_spec};


verus! {

/// One row of a directory listing.
pub struct DirEntry {
    pub name: String,
    pub is_dir: bool,
    pub size: String,
    pub permission: String,
}

impl DirEntry {
    /// An identical copy of the entry.
    pub fn duplicate(&self) -> (r: Self)
        ensures
            r == *self,
    {
        DirEntry {
            name: self.name.clone(),
            is_dir: self.is_dir,
            size: self.size.clone(),
            permission: self.permission.clone(),
        }
    }
}

/// The listing row for a file system entry: directories show no size,
/// files their formatted size.
pub fn make_entry(name: String, is_dir: bool, len: u64, permission: String) -> (e: DirEntry)
    ensures
        e.name == name,
        e.is_dir == is_dir,
        e.permission == permission,
        is_dir ==> e.size@ == Seq::<char>::empty(),
        !is_dir ==> e.size@ == fmt_size_spec(len as nat),
{
    let size = if is_dir { String::new() } else { fmt_size(len) };
    DirEntry { name, is_dir, size, permission }
}

/// The order key of a listing row: directories first, then by lower-cased
/// name.
pub open spec fn entry_key(e: DirEntry) -> Seq<u64> {
    seq![if e.is_dir { 0u64 } else { 1u64 }] + codes(spec_lowercase(e.name@))
}

/// The order keys of a list of rows.
pub open spec fn entry_keys(es: Seq<DirEntry>) -> Seq<Seq<u64>> {
    es.map_values(|e: DirEntry| entry_key(e))
}

/// The rows of a listing in browser order: a stable sort that puts
/// directories first and orders by lower-cased name.
pub fn sort_entries(entries: Vec<DirEntry>) -> (r: Vec<DirEntry>)
    ensures
        exists|p: Seq<usize>|
            #[trigger] is_stable_sort(entry_keys(entries@), p) && r@ == p.map_values(
                |j: usize| entries@[j as int],
            ),
{
    let n = entries.len();
    let mut keys: Vec<Vec<u64>> = Vec::new();
    let mut i: usize = 0;
    while i < n
        invariant
            n == entries.len(),
            i <= n,
            keys@.len() == i,
            forall|k: int| 0 <= k < i ==> #[trigger] keys@[k]@ == entry_key(entries@[k]),
        decreases n - i,
    {
        let mut key: Vec<u64> = Vec::new();
        key.push(if entries[i].is_dir { 0u64 } else { 1u64 });
        let low = to_lowercase(entries[i].name.as_str());
        let lv = chars_of(low.as_str());
        push_codes(&mut key, lv.as_slice());
        assert(key@ =~= entry_key(entries@[i as int]));
        keys.push(key);
        i = i + 1;
    }
    assert(key_views(keys@) =~= entry_keys(entries@));
    let p = stable_sort_order(&keys);
    let mut out: Vec<DirEntry> = Vec::new();
    let mut j: usize = 0;
    while j < p.len()
        invariant
            n == entries.len(),
            p@.len() == n,
            forall|a: int| 0 <= a < n ==> (#[trigger] p@[a] as int) < n,
            j <= p.len(),
            out@ == p@.take(j as int).map_values(|q: usize| entries@[q as int]),
        decreases p.len() - j,
    {
        let e = entries[p[j]].duplicate();
        out.push(e);
        assert(out@ =~= p@.take(j + 1).map_values(|q: usize| entries@[q as int]));
        j = j + 1;
    }
    assert(p@.take(p@.len() as int) =~= p@);
    out
}

/// `(if is_dir { "▶" } else { " " }) + " " + name`: how a row is shown.
pub open spec fn label_spec(e: DirEntry) -> Seq<char> {
    seq![if e.is_dir { '▶' } else { ' ' }, ' '] + e.name@
}

/// How a row is shown in a column or a directory preview.
pub fn entry_label(e: &DirEntry) -> (r: String)
    ensures
        r@ == label_spec(*e),
{
    let mut v: Vec<char> = Vec::new();
    v.push(if e.is_dir { '▶' } else { ' ' });
    v.push(' ');
    extend_str(&mut v, e.name.as_str());
    assert(v@ =~= label_spec(*e));
    string_of(v.as_slice())
}

/// How far a column is scrolled so that row `selected` shows among `vis`
/// rows.
pub fn vscroll(selected: usize, vis: usize) -> (r: usize)
    ensures
        r == (if vis == 0 { selected as int } else if selected >= vis - 1 { selected - (vis - 1) } else { 0 }),
{
    selected.saturating_sub(vis.saturating_sub(1))
}

} // verus!

pub mod state;
pub use self::state::{AppState, Fetch, Target};
