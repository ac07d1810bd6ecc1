//! The state of the directory browser and the decisions it makes on each
//! key.  The browser never reads the file system itself: when it needs the
//! listing of a directory it records a pending request, and the caller
//! answers it with `supply` until no request is left.

use vstd::prelude::*;
use crate::text::{chars_eq, chars_of, owned, string_of, extend_str, lines, split_lines, views, decimal, push_decimal};
use super::{DirEntry, entry_label, label_spec};
use super::path::{join_path, parent_path, file_name, path_join, path_parent, path_file_name, is_plain_name, lemma_file_name_join};

verus! {

/// The status line in browsing mode.
pub const NORMAL_STATUS: &'static str = "↑↓ move  → focus/nav  ← back  Tab preview  Enter cd+exit  r reset  q quit";

/// The status line in preview mode.
pub const PREVIEW_STATUS: &'static str = "↑↓/scroll preview  ← exit preview";

/// The largest file that a preview shows, in bytes.
pub const PREVIEW_LIMIT: u64 = 1_048_576;

/// Where a requested listing goes.
pub enum Target {
    /// Into column 0 (the current directory): highlight the row named
    /// `select` if there is one, and fill the columns to the right when
    /// `follow` is set.
    Col0 { select: Option<String>, follow: bool },
    /// Into column 1 (the children of the row highlighted in column 0).
    Col1,
    /// Into column 2 (the children of the row highlighted in column 1).
    Col2,
}

/// A listing that the browser waits for: the directory and where it goes.
pub struct Fetch {
    pub path: String,
    pub target: Target,
}

/// The plain values of a pending request: path, column, row to
/// highlight, whether to fill the columns to the right.
pub type FetchV = (Seq<char>, int, Option<Seq<char>>, bool);

/// The plain values of an optional pending request.
pub open spec fn fetch_view(f: Option<Fetch>) -> Option<FetchV> {
    match f {
        None => None,
        Some(x) => Some(
            match x.target {
                Target::Col0 { select, follow } => (
                    x.path@,
                    0,
                    match select {
                        Some(s) => Some(s@),
                        None => None,
                    },
                    follow,
                ),
                Target::Col1 => (x.path@, 1, None, false),
                Target::Col2 => (x.path@, 2, None, false),
            },
        ),
    }
}

/// Row `i` of a column, if it exists (`slice::get`).
pub open spec fn get_entry(es: Seq<DirEntry>, i: usize) -> Option<DirEntry> {
    if i < es.len() {
        Some(es[i as int])
    } else {
        None
    }
}

/// The request that filling the columns right of column 0 makes: the
/// highlighted row of column 0, when it is a directory.
pub open spec fn col0_fetch(dir: Seq<char>, es: Seq<DirEntry>, sel: usize, windows: bool) -> Option<FetchV> {
    match get_entry(es, sel) {
        Some(e) => if e.is_dir {
            Some((path_join(dir, e.name@, windows), 1, None, false))
        } else {
            None
        },
        None => None,
    }
}

/// The request that filling column 2 makes: the highlighted row of column
/// 1, joined onto the directory that column 1 lists.
pub open spec fn col1_fetch(base: Seq<char>, es: Seq<DirEntry>, sel: usize, windows: bool) -> Option<FetchV> {
    match get_entry(es, sel) {
        Some(e) => Some((path_join(base, e.name@, windows), 2, None, false)),
        None => None,
    }
}

/// The name of the highlighted row of a column, or the empty name.
pub open spec fn sel_name(es: Seq<DirEntry>, sel: usize) -> Seq<char> {
    match get_entry(es, sel) {
        Some(e) => e.name@,
        None => seq![],
    }
}

/// The first row named `name`, or -1.
pub open spec fn position_of(es: Seq<DirEntry>, name: Seq<char>) -> int
    decreases es.len(),
{
    if es.len() == 0 {
        -1
    } else if es[0].name@ == name {
        0
    } else {
        let r = position_of(es.drop_first(), name);
        if r < 0 {
            -1
        } else {
            r + 1
        }
    }
}

/// The row highlighted after a listing arrives: the first row named
/// `select`, else the first row.
pub open spec fn cursor_for(es: Seq<DirEntry>, select: Option<Seq<char>>) -> int {
    match select {
        Some(n) => if position_of(es, n) < 0 {
            0
        } else {
            position_of(es, n)
        },
        None => 0,
    }
}

/// The state of the browser.
pub struct AppState {
    pub current_dir: String,
    pub start_dir: String,
    pub entries: [Vec<DirEntry>; 3],
    pub selected: [usize; 3],
    pub focus_col: usize,
    pub status: String,
    pub preview_mode: bool,
    pub preview_file: String,
    pub preview_lines: Vec<String>,
    pub preview_scroll: usize,
    pub pending: Option<Fetch>,
    pub windows: bool,
}

/// Each column's highlight lies on one of its rows (or is 0 in an empty
/// column).
pub open spec fn cols_ok(entries: [Vec<DirEntry>; 3], selected: [usize; 3]) -> bool {
    forall|k: int|
        0 <= k < 3 ==> (if entries[k]@.len() == 0 {
            selected[k] == 0
        } else {
            selected[k] < entries[k]@.len()
        })
}

impl AppState {
    /// The highlights lie within their columns and the focus on a column.
    pub open spec fn wf(&self) -> bool {
        &&& cols_ok(self.entries, self.selected)
        &&& self.focus_col < 3
    }

    /// The plain values of the pending request.
    pub open spec fn pending_view(&self) -> Option<FetchV> {
        fetch_view(self.pending)
    }

    /// A browser started in `dir`, with Windows paths when `windows` is set;
    /// it first requests the listing of `dir`.
    pub fn new(dir: String, windows: bool) -> (s: Self)
        ensures
            s.windows == windows,
            s.wf(),
            s.current_dir == dir,
            s.start_dir == dir,
            forall|k: int| 0 <= k < 3 ==> s.entries[k]@.len() == 0,
            s.focus_col == 0,
            s.status@ == NORMAL_STATUS@,
            !s.preview_mode,
            s.preview_file@.len() == 0,
            s.preview_lines@.len() == 0,
            s.preview_scroll == 0,
            s.pending_view() == Some((dir@, 0int, None::<Seq<char>>, true)),
    {
        let s = AppState {
            current_dir: dir.clone(),
            start_dir: dir.clone(),
            entries: [Vec::new(), Vec::new(), Vec::new()],
            selected: [0, 0, 0],
            focus_col: 0,
            status: owned(NORMAL_STATUS),
            preview_mode: false,
            preview_file: String::new(),
            preview_lines: Vec::new(),
            preview_scroll: 0,
            pending: Some(Fetch { path: dir, target: Target::Col0 { select: None, follow: true } }),
            windows,
        };
        s
    }
}

/// Everything but the columns, their highlights and the pending request
/// is the same in both states.
pub open spec fn same_frame(a: AppState, b: AppState) -> bool {
    &&& a.current_dir == b.current_dir
    &&& a.start_dir == b.start_dir
    &&& a.focus_col == b.focus_col
    &&& a.status == b.status
    &&& a.preview_mode == b.preview_mode
    &&& a.preview_file == b.preview_file
    &&& a.preview_lines == b.preview_lines
    &&& a.preview_scroll == b.preview_scroll
    &&& a.windows == b.windows
}

/// How many listings at most remain to be supplied.
pub open spec fn remaining(f: Option<FetchV>) -> nat {
    match f {
        None => 0,
        Some(x) => if x.1 == 2 {
            1
        } else if x.1 == 1 {
            2
        } else {
            3
        },
    }
}

/// `position_of` is -1 or an index.
proof fn lemma_position_bounds(es: Seq<DirEntry>, name: Seq<char>)
    ensures
        -1 <= position_of(es, name) < es.len(),
    decreases es.len(),
{
    if es.len() > 0 {
        lemma_position_bounds(es.drop_first(), name);
    }
}

/// The first row named `name`.
fn position(es: &Vec<DirEntry>, name: &String) -> (r: Option<usize>)
    ensures
        position_of(es@, name@) < 0 ==> r is None,
        position_of(es@, name@) >= 0 ==> r == Some(position_of(es@, name@) as usize),
        r matches Some(i) ==> i < es@.len() && i as int == position_of(es@, name@),
{
    let nv = chars_of(name.as_str());
    let mut i: usize = 0;
    assert(es@.subrange(0, es@.len() as int) =~= es@);
    proof {
        lemma_position_bounds(es@, name@);
    }
    while i < es.len()
        invariant
            nv@ == name@,
            i <= es.len(),
            position_of(es@, name@) == (if position_of(es@.subrange(i as int, es@.len() as int), name@) < 0 {
                -1
            } else {
                i + position_of(es@.subrange(i as int, es@.len() as int), name@)
            }),
        decreases es.len() - i,
    {
        let ghost t = es@.subrange(i as int, es@.len() as int);
        assert(t.drop_first() =~= es@.subrange(i + 1, es@.len() as int));
        assert(t[0] == es@[i as int]);
        proof {
            lemma_position_bounds(t.drop_first(), name@);
        }
        let ev = chars_of(es[i].name.as_str());
        if chars_eq(ev.as_slice(), nv.as_slice()) {
            return Some(i);
        }
        i = i + 1;
    }
    assert(es@.subrange(i as int, es@.len() as int) =~= Seq::<DirEntry>::empty());
    None
}

impl AppState {
    /// Fills the columns to the right of `changed_col` for the new
    /// highlight: column 0 clears columns 1 and 2 and requests the listing
    /// of its highlighted row when that is a directory; column 1 clears
    /// column 2 and requests the listing of its highlighted row.
    pub fn repopulate_from(&mut self, changed_col: usize)
        ensures
            same_frame(*final(self), *old(self)),
            changed_col == 0 ==> {
                &&& final(self).entries[0] == old(self).entries[0]
                &&& final(self).selected[0] == old(self).selected[0]
                &&& final(self).entries[1]@.len() == 0
                &&& final(self).entries[2]@.len() == 0
                &&& final(self).selected[1] == 0
                &&& final(self).selected[2] == 0
                &&& final(self).pending_view() == col0_fetch(old(self).current_dir@, old(self).entries[0]@, old(self).selected[0], old(self).windows)
            },
            changed_col == 1 ==> {
                &&& final(self).entries[0] == old(self).entries[0]
                &&& final(self).selected[0] == old(self).selected[0]
                &&& final(self).entries[1] == old(self).entries[1]
                &&& final(self).selected[1] == old(self).selected[1]
                &&& final(self).entries[2]@.len() == 0
                &&& final(self).selected[2] == 0
                &&& final(self).pending_view() == col1_fetch(
                    path_join(old(self).current_dir@, sel_name(old(self).entries[0]@, old(self).selected[0]), old(self).windows),
                    old(self).entries[1]@,
                    old(self).selected[1], old(self).windows,
                )
            },
            changed_col > 1 ==> *final(self) == *old(self),
            old(self).wf() ==> final(self).wf(),
    {
        if changed_col == 0 {
            let sel = self.selected[0];
            let mut next: Option<Fetch> = None;
            if sel < self.entries[0].len() {
                if self.entries[0][sel].is_dir {
                    let p = join_path(self.current_dir.as_str(), self.entries[0][sel].name.as_str(), self.windows);
                    next = Some(Fetch { path: p, target: Target::Col1 });
                }
            }
            self.entries[1] = Vec::new();
            self.entries[2] = Vec::new();
            self.selected[1] = 0;
            self.selected[2] = 0;
            self.pending = next;
        } else if changed_col == 1 {
            let sel0 = self.selected[0];
            let base = if sel0 < self.entries[0].len() {
                join_path(self.current_dir.as_str(), self.entries[0][sel0].name.as_str(), self.windows)
            } else {
                join_path(self.current_dir.as_str(), "", self.windows)
            };
            proof {
                reveal_strlit("");
            }
            self.repopulate_col1(base);
        }
    }

    /// Clears column 2 and requests the listing of the row highlighted in
    /// column 1, a child of `base`.
    fn repopulate_col1(&mut self, base: String)
        ensures
            same_frame(*final(self), *old(self)),
            final(self).entries[0] == old(self).entries[0],
            final(self).selected[0] == old(self).selected[0],
            final(self).entries[1] == old(self).entries[1],
            final(self).selected[1] == old(self).selected[1],
            final(self).entries[2]@.len() == 0,
            final(self).selected[2] == 0,
            final(self).pending_view() == col1_fetch(base@, old(self).entries[1]@, old(self).selected[1], old(self).windows),
            old(self).wf() ==> final(self).wf(),
    {
        let sel = self.selected[1];
        let mut next: Option<Fetch> = None;
        if sel < self.entries[1].len() {
            let p = join_path(base.as_str(), self.entries[1][sel].name.as_str(), self.windows);
            next = Some(Fetch { path: p, target: Target::Col2 });
        }
        self.entries[2] = Vec::new();
        self.selected[2] = 0;
        self.pending = next;
    }

    /// Puts the listing that the pending request asked for into its column
    /// and makes the request that follows from it, if any.
    pub fn supply(&mut self, listing: Vec<DirEntry>)
        requires
            old(self).pending is Some,
        ensures
            same_frame(*final(self), *old(self)),
            remaining(final(self).pending_view()) < remaining(old(self).pending_view()),
            old(self).wf() ==> final(self).wf(),
            ({
                let f = old(self).pending_view().unwrap();
                &&& f.1 == 0 ==> {
                    &&& final(self).entries[0]@ == listing@
                    &&& final(self).selected[0] == cursor_for(listing@, f.2)
                    &&& f.3 ==> {
                        &&& final(self).entries[1]@.len() == 0
                        &&& final(self).entries[2]@.len() == 0
                        &&& final(self).selected[1] == 0
                        &&& final(self).selected[2] == 0
                        &&& final(self).pending_view() == col0_fetch(
                            old(self).current_dir@,
                            listing@,
                            cursor_for(listing@, f.2) as usize, old(self).windows,
                        )
                    }
                    &&& !f.3 ==> {
                        &&& final(self).entries[1] == old(self).entries[1]
                        &&& final(self).entries[2] == old(self).entries[2]
                        &&& final(self).selected[1] == old(self).selected[1]
                        &&& final(self).selected[2] == old(self).selected[2]
                        &&& final(self).pending is None
                    }
                }
                &&& f.1 == 1 ==> {
                    &&& final(self).entries[0] == old(self).entries[0]
                    &&& final(self).selected[0] == old(self).selected[0]
                    &&& final(self).entries[1]@ == listing@
                    &&& final(self).selected[1] == 0
                    &&& final(self).entries[2]@.len() == 0
                    &&& final(self).selected[2] == 0
                    &&& final(self).pending_view() == col1_fetch(f.0, listing@, 0, old(self).windows)
                }
                &&& f.1 == 2 ==> {
                    &&& final(self).entries[0] == old(self).entries[0]
                    &&& final(self).selected[0] == old(self).selected[0]
                    &&& final(self).entries[1] == old(self).entries[1]
                    &&& final(self).selected[1] == old(self).selected[1]
                    &&& final(self).entries[2]@ == listing@
                    &&& final(self).selected[2] == 0
                    &&& final(self).pending is None
                }
            }),
    {
        let fetch = self.pending.take().unwrap();
        match fetch.target {
            Target::Col0 { select, follow } => {
                let cursor = match &select {
                    Some(n) => match position(&listing, n) {
                        Some(i) => i,
                        None => 0,
                    },
                    None => 0,
                };
                self.entries[0] = listing;
                self.selected[0] = cursor;
                if follow {
                    self.repopulate_from(0);
                }
            },
            Target::Col1 => {
                self.entries[1] = listing;
                self.selected[1] = 0;
                self.repopulate_col1(fetch.path);
            },
            Target::Col2 => {
                self.entries[2] = listing;
                self.selected[2] = 0;
            },
        }
    }
}

/// What a preview shows.
pub enum PreviewContent {
    /// The rows of a directory.
    Listing(Vec<DirEntry>),
    /// A file above the preview limit, of this many bytes.
    TooLarge(u64),
    /// The text of a file.
    Text(String),
    /// A file that could not be read as text.
    Unreadable,
}

/// The lines that a preview shows.
pub open spec fn preview_lines_spec(c: PreviewContent) -> Seq<Seq<char>> {
    match c {
        PreviewContent::Listing(es) => es@.map_values(|e: DirEntry| label_spec(e)),
        PreviewContent::TooLarge(n) => seq![
            "[file too large: "@ + decimal(n as nat) + " bytes]"@,
        ],
        PreviewContent::Text(t) => lines(t@),
        PreviewContent::Unreadable => seq!["[binary or unreadable file]"@],
    }
}

/// Whether a file of `size` bytes is too large to preview.
pub fn too_large(size: u64) -> (r: bool)
    ensures
        r == (size > PREVIEW_LIMIT),
{
    size > PREVIEW_LIMIT
}

/// The optional name as a plain value.
pub open spec fn opt_view(o: Option<Seq<char>>) -> Seq<char> {
    match o {
        Some(s) => s,
        None => seq![],
    }
}

/// What leaving a preview does, from state `a` to state `b`: preview mode
/// ends, the status line is the browsing one, column 0 stays, and the
/// columns to its right are cleared and requested again.
pub open spec fn preview_left(a: AppState, b: AppState) -> bool {
    &&& !b.preview_mode
    &&& b.status@ == NORMAL_STATUS@
    &&& b.entries[0] == a.entries[0]
    &&& b.selected[0] == a.selected[0]
    &&& b.entries[1]@.len() == 0
    &&& b.entries[2]@.len() == 0
    &&& b.selected[1] == 0
    &&& b.selected[2] == 0
    &&& b.pending_view() == col0_fetch(a.current_dir@, a.entries[0]@, a.selected[0], a.windows)
    &&& b.current_dir == a.current_dir
    &&& b.start_dir == a.start_dir
    &&& b.focus_col == a.focus_col
    &&& b.preview_file == a.preview_file
    &&& b.preview_lines == a.preview_lines
    &&& b.preview_scroll == a.preview_scroll
    &&& b.windows == a.windows
}

/// What going to the parent directory does, from state `a` to state `b`:
/// nothing at the root or for a path without a parent; else the parent
/// becomes the current directory, the columns are cleared, and the parent's
/// listing is requested, to highlight the directory just left.
pub open spec fn parent_moved(a: AppState, b: AppState) -> bool {
    let par = path_parent(a.current_dir@, a.windows);
    if par is None || par.unwrap().len() == 0 {
        b == a
    } else {
        let dir = par.unwrap();
        &&& b.current_dir@ == dir
        &&& forall|k: int| 0 <= k < 3 ==> b.entries[k]@.len() == 0
        &&& forall|k: int| 0 <= k < 3 ==> b.selected[k] == 0
        &&& b.status@ == "← "@ + dir
        &&& b.pending_view() == Some((dir, 0int, Some(opt_view(path_file_name(a.current_dir@, a.windows))), true))
        &&& b.focus_col == a.focus_col
        &&& b.start_dir == a.start_dir
        &&& b.preview_mode == a.preview_mode
        &&& b.preview_file == a.preview_file
        &&& b.preview_lines == a.preview_lines
        &&& b.preview_scroll == a.preview_scroll
        &&& b.windows == a.windows
    }
}

/// What the → key does outside a preview, from state `a` to state `b`: the
/// focus moves one column right when that column has rows; from column 2,
/// the highlighted directory of column 2 (under those highlighted in
/// columns 0 and 1) becomes the current directory, whose listing is
/// requested; otherwise nothing changes.
pub open spec fn right_moved(a: AppState, b: AppState) -> bool {
    &&& a.focus_col == 0 && a.entries[1]@.len() > 0 ==> b == (AppState { focus_col: 1, ..a })
    &&& a.focus_col == 1 && a.entries[2]@.len() > 0 ==> b == (AppState { focus_col: 2, ..a })
    &&& (a.focus_col == 0 && a.entries[1]@.len() == 0) || (a.focus_col == 1 && a.entries[2]@.len() == 0) ==> b == a
    &&& a.focus_col == 2 ==> {
        let x = get_entry(a.entries[0]@, a.selected[0]);
        let y = get_entry(a.entries[1]@, a.selected[1]);
        let z = get_entry(a.entries[2]@, a.selected[2]);
        if x is Some && y is Some && z is Some && z.unwrap().is_dir {
            let dir = path_join(path_join(path_join(a.current_dir@, x.unwrap().name@, a.windows), y.unwrap().name@, a.windows), z.unwrap().name@, a.windows);
            &&& b.current_dir@ == dir
            &&& forall|k: int| 0 <= k < 3 ==> b.entries[k]@.len() == 0
            &&& forall|k: int| 0 <= k < 3 ==> b.selected[k] == 0
            &&& b.focus_col == 0
            &&& b.status@ == "→ "@ + dir
            &&& b.pending_view() == Some((dir, 0int, None::<Seq<char>>, true))
            &&& b.start_dir == a.start_dir
            &&& b.preview_mode == a.preview_mode
            &&& b.preview_file == a.preview_file
            &&& b.preview_lines == a.preview_lines
            &&& b.preview_scroll == a.preview_scroll
            &&& b.windows == a.windows
        } else {
            b == a
        }
    }
}

impl AppState {
    /// The → key: moves the focus one column right when that column has
    /// rows; from column 2, enters the highlighted directory of column 2
    /// (under those highlighted in columns 0 and 1) and requests its
    /// listing.
    pub fn focus_right(&mut self)
        requires
            old(self).wf(),
        ensures
            final(self).wf(),
            old(self).focus_col == 0 && old(self).entries[1]@.len() > 0 ==> *final(self) == (AppState { focus_col: 1, ..*old(self) }),
            old(self).focus_col == 1 && old(self).entries[2]@.len() > 0 ==> *final(self) == (AppState { focus_col: 2, ..*old(self) }),
            (old(self).focus_col == 0 && old(self).entries[1]@.len() == 0) || (old(self).focus_col == 1
                && old(self).entries[2]@.len() == 0) ==> *final(self) == *old(self),
            old(self).focus_col == 2 ==> {
                let a = get_entry(old(self).entries[0]@, old(self).selected[0]);
                let b = get_entry(old(self).entries[1]@, old(self).selected[1]);
                let c = get_entry(old(self).entries[2]@, old(self).selected[2]);
                if a is Some && b is Some && c is Some && c.unwrap().is_dir {
                    let dir = path_join(
                        path_join(path_join(old(self).current_dir@, a.unwrap().name@, old(self).windows), b.unwrap().name@, old(self).windows),
                        c.unwrap().name@, old(self).windows,
                    );
                    &&& final(self).current_dir@ == dir
                    &&& forall|k: int| 0 <= k < 3 ==> final(self).entries[k]@.len() == 0
                    &&& forall|k: int| 0 <= k < 3 ==> final(self).selected[k] == 0
                    &&& final(self).focus_col == 0
                    &&& final(self).status@ == "→ "@ + dir
                    &&& final(self).pending_view() == Some((dir, 0int, None::<Seq<char>>, true))
                    &&& final(self).start_dir == old(self).start_dir
                    &&& final(self).preview_mode == old(self).preview_mode
                    &&& final(self).preview_file == old(self).preview_file
                    &&& final(self).preview_lines == old(self).preview_lines
                    &&& final(self).preview_scroll == old(self).preview_scroll
                    &&& final(self).windows == old(self).windows
                } else {
                    *final(self) == *old(self)
                }
            },
    {
        if self.focus_col == 0 {
            if self.entries[1].len() > 0 {
                self.focus_col = 1;
            }
        } else if self.focus_col == 1 {
            if self.entries[2].len() > 0 {
                self.focus_col = 2;
            }
        } else {
            let s0 = self.selected[0];
            let s1 = self.selected[1];
            let s2 = self.selected[2];
            if s0 < self.entries[0].len() && s1 < self.entries[1].len() && s2 < self.entries[2].len()
                && self.entries[2][s2].is_dir {
                let p1 = join_path(self.current_dir.as_str(), self.entries[0][s0].name.as_str(), self.windows);
                let p2 = join_path(p1.as_str(), self.entries[1][s1].name.as_str(), self.windows);
                let p3 = join_path(p2.as_str(), self.entries[2][s2].name.as_str(), self.windows);
                let mut st = chars_of("→ ");
                extend_str(&mut st, p3.as_str());
                self.status = string_of(st.as_slice());
                self.current_dir = p3.clone();
                self.entries = [Vec::new(), Vec::new(), Vec::new()];
                self.selected = [0, 0, 0];
                self.focus_col = 0;
                self.pending = Some(Fetch { path: p3, target: Target::Col0 { select: None, follow: true } });
            }
        }
    }

    /// The ← key in column 0: goes to the parent directory, to highlight
    /// the directory just left once the parent's listing arrives.  Nothing
    /// happens at the root or for a path without a parent.
    pub fn navigate_left(&mut self)
        requires
            old(self).wf(),
        ensures
            final(self).wf(),
            ({
                let par = path_parent(old(self).current_dir@, old(self).windows);
                if par is None || par.unwrap().len() == 0 {
                    *final(self) == *old(self)
                } else {
                    let dir = par.unwrap();
                    &&& final(self).current_dir@ == dir
                    &&& forall|k: int| 0 <= k < 3 ==> final(self).entries[k]@.len() == 0
                    &&& forall|k: int| 0 <= k < 3 ==> final(self).selected[k] == 0
                    &&& final(self).status@ == "← "@ + dir
                    &&& final(self).pending_view() == Some(
                        (dir, 0int, Some(opt_view(path_file_name(old(self).current_dir@, old(self).windows))), true),
                    )
                    &&& final(self).focus_col == old(self).focus_col
                    &&& final(self).start_dir == old(self).start_dir
                    &&& final(self).preview_mode == old(self).preview_mode
                    &&& final(self).preview_file == old(self).preview_file
                    &&& final(self).preview_lines == old(self).preview_lines
                    &&& final(self).preview_scroll == old(self).preview_scroll
                    &&& final(self).windows == old(self).windows
                }
            }),
    {
        let parent = match parent_path(self.current_dir.as_str(), self.windows) {
            Some(p) => p,
            None => {
                return;
            },
        };
        if parent.as_str().is_empty() {
            return;
        }
        let name = match file_name(self.current_dir.as_str(), self.windows) {
            Some(n) => n,
            None => String::new(),
        };
        let mut st = chars_of("← ");
        extend_str(&mut st, parent.as_str());
        self.status = string_of(st.as_slice());
        self.current_dir = parent.clone();
        self.entries = [Vec::new(), Vec::new(), Vec::new()];
        self.selected = [0, 0, 0];
        self.pending = Some(Fetch { path: parent, target: Target::Col0 { select: Some(name), follow: true } });
    }
}

/// The path of the row highlighted in the focused column: the highlighted
/// rows of the columns up to it joined onto the current directory.
pub open spec fn target_spec(s: AppState) -> Option<Seq<char>> {
    let a = get_entry(s.entries[0]@, s.selected[0]);
    let b = get_entry(s.entries[1]@, s.selected[1]);
    let c = get_entry(s.entries[2]@, s.selected[2]);
    if s.focus_col == 0 {
        match a {
            Some(x) => Some(path_join(s.current_dir@, x.name@, s.windows)),
            None => None,
        }
    } else if s.focus_col == 1 {
        if a is Some && b is Some {
            Some(path_join(path_join(s.current_dir@, a.unwrap().name@, s.windows), b.unwrap().name@, s.windows))
        } else {
            None
        }
    } else if s.focus_col == 2 {
        if a is Some && b is Some && c is Some {
            Some(
                path_join(
                    path_join(path_join(s.current_dir@, a.unwrap().name@, s.windows), b.unwrap().name@, s.windows),
                    c.unwrap().name@, s.windows,
                ),
            )
        } else {
            None
        }
    } else {
        None
    }
}

/// The directory that Enter changes to: the highlighted row of the
/// focused column when it is a directory, else the directory that column
/// lists.
pub open spec fn exit_path_spec(s: AppState) -> Seq<char> {
    let base = s.current_dir@;
    let a = get_entry(s.entries[0]@, s.selected[0]);
    let b = get_entry(s.entries[1]@, s.selected[1]);
    let c = get_entry(s.entries[2]@, s.selected[2]);
    if s.focus_col == 0 {
        if a is Some && a.unwrap().is_dir {
            path_join(base, a.unwrap().name@, s.windows)
        } else {
            base
        }
    } else if s.focus_col == 1 {
        if a is Some {
            let pa = path_join(base, a.unwrap().name@, s.windows);
            if b is Some && b.unwrap().is_dir {
                path_join(pa, b.unwrap().name@, s.windows)
            } else {
                pa
            }
        } else {
            base
        }
    } else if s.focus_col == 2 {
        if a is Some && b is Some {
            let pb = path_join(path_join(base, a.unwrap().name@, s.windows), b.unwrap().name@, s.windows);
            if c is Some && c.unwrap().is_dir {
                path_join(pb, c.unwrap().name@, s.windows)
            } else {
                pb
            }
        } else {
            base
        }
    } else {
        base
    }
}

/// Every highlighted row has a plain name, as the rows of a directory
/// listing do.
pub open spec fn plain_rows(s: AppState) -> bool {
    forall|k: int|
        0 <= k < 3 ==> (#[trigger] get_entry(s.entries[k]@, s.selected[k]) matches Some(e) ==> is_plain_name(
            e.name@,
            s.windows,
        ))
}

/// Tab previews the highlighted row of the focused column: there is a
/// target exactly when the focused column and those to its left have a
/// highlighted row, and its last component is the focused row's name.
pub proof fn lemma_preview_target_name(s: AppState)
    requires
        s.focus_col < 3,
        plain_rows(s),
    ensures
        target_spec(s) is Some <==> (forall|k: int|
            0 <= k <= s.focus_col ==> #[trigger] get_entry(s.entries[k]@, s.selected[k]) is Some),
        target_spec(s) matches Some(t) ==> path_file_name(t, s.windows) == Some(
            get_entry(s.entries[s.focus_col as int]@, s.selected[s.focus_col as int]).unwrap().name@,
        ),
{
    let a = get_entry(s.entries[0]@, s.selected[0]);
    let b = get_entry(s.entries[1]@, s.selected[1]);
    let c = get_entry(s.entries[2]@, s.selected[2]);
    let f = s.focus_col as int;
    assert(get_entry(s.entries[0int]@, s.selected[0int]) == a);
    assert(get_entry(s.entries[1int]@, s.selected[1int]) == b);
    assert(get_entry(s.entries[2int]@, s.selected[2int]) == c);
    if f == 0 {
        if a is Some {
            lemma_file_name_join(s.current_dir@, a.unwrap().name@, s.windows);
        }
    } else if f == 1 {
        if a is Some && b is Some {
            lemma_file_name_join(path_join(s.current_dir@, a.unwrap().name@, s.windows), b.unwrap().name@, s.windows);
        }
    } else {
        if a is Some && b is Some && c is Some {
            lemma_file_name_join(
                path_join(path_join(s.current_dir@, a.unwrap().name@, s.windows), b.unwrap().name@, s.windows),
                c.unwrap().name@,
                s.windows,
            );
        }
    }
}

/// Enter changes into the highlighted row of the focused column when that
/// row is a directory, and otherwise into the directory that the column
/// lists: the exit path's last component is that row's name, or else the
/// name of the row highlighted in the column to its left; only without a
/// row to the left (column 0, or no highlighted row there) is it the
/// current directory itself.
pub proof fn lemma_exit_path_name(s: AppState)
    requires
        s.focus_col < 3,
        plain_rows(s),
    ensures
        ({
            let a = get_entry(s.entries[0]@, s.selected[0]);
            let b = get_entry(s.entries[1]@, s.selected[1]);
            let c = get_entry(s.entries[2]@, s.selected[2]);
            let x = exit_path_spec(s);
            let name = |e: Option<DirEntry>| Some(e.unwrap().name@);
            &&& s.focus_col == 0 ==> if a is Some && a.unwrap().is_dir {
                path_file_name(x, s.windows) == name(a)
            } else {
                x == s.current_dir@
            }
            &&& s.focus_col == 1 ==> if a is Some {
                path_file_name(x, s.windows) == (if b is Some && b.unwrap().is_dir {
                    name(b)
                } else {
                    name(a)
                })
            } else {
                x == s.current_dir@
            }
            &&& s.focus_col == 2 ==> if a is Some && b is Some {
                path_file_name(x, s.windows) == (if c is Some && c.unwrap().is_dir {
                    name(c)
                } else {
                    name(b)
                })
            } else {
                x == s.current_dir@
            }
        }),
{
    let a = get_entry(s.entries[0]@, s.selected[0]);
    let b = get_entry(s.entries[1]@, s.selected[1]);
    let c = get_entry(s.entries[2]@, s.selected[2]);
    assert(get_entry(s.entries[0int]@, s.selected[0int]) == a);
    assert(get_entry(s.entries[1int]@, s.selected[1int]) == b);
    assert(get_entry(s.entries[2int]@, s.selected[2int]) == c);
    let base = s.current_dir@;
    if a is Some {
        lemma_file_name_join(base, a.unwrap().name@, s.windows);
        let pa = path_join(base, a.unwrap().name@, s.windows);
        if b is Some {
            lemma_file_name_join(pa, b.unwrap().name@, s.windows);
            let pb = path_join(pa, b.unwrap().name@, s.windows);
            if c is Some {
                lemma_file_name_join(pb, c.unwrap().name@, s.windows);
            }
        }
    }
}

/// The details line of the highlighted row of column 0, given its
/// modification date text.
pub open spec fn meta_line_spec(s: AppState, modified: Seq<char>) -> Seq<char> {
    match get_entry(s.entries[0]@, s.selected[0]) {
        None => seq![],
        Some(e) => "  "@ + e.permission@ + "  │  "@ + e.size@ + "  │  "@ + modified + "  │  "@ + e.name@,
    }
}

impl AppState {
    /// What Tab previews: the path of the highlighted row of the focused
    /// column, if there is one.
    pub fn preview_target(&self) -> (r: Option<String>)
        ensures
            r is None <==> target_spec(*self) is None,
            r matches Some(p) ==> target_spec(*self) == Some(p@),
    {
        let s0 = self.selected[0];
        let s1 = self.selected[1];
        let s2 = self.selected[2];
        let has0 = s0 < self.entries[0].len();
        let has1 = s1 < self.entries[1].len();
        let has2 = s2 < self.entries[2].len();
        if self.focus_col == 0 {
            if has0 {
                return Some(join_path(self.current_dir.as_str(), self.entries[0][s0].name.as_str(), self.windows));
            }
            None
        } else if self.focus_col == 1 {
            if has0 && has1 {
                let p = join_path(self.current_dir.as_str(), self.entries[0][s0].name.as_str(), self.windows);
                return Some(join_path(p.as_str(), self.entries[1][s1].name.as_str(), self.windows));
            }
            None
        } else if self.focus_col == 2 {
            if has0 && has1 && has2 {
                let p = join_path(self.current_dir.as_str(), self.entries[0][s0].name.as_str(), self.windows);
                let q = join_path(p.as_str(), self.entries[1][s1].name.as_str(), self.windows);
                return Some(join_path(q.as_str(), self.entries[2][s2].name.as_str(), self.windows));
            }
            None
        } else {
            None
        }
    }

    /// Shows the preview of `target`: its lines, its name as the title,
    /// scrolled to the top; column 0 becomes the directory that holds it,
    /// to highlight it once that listing arrives.
    pub fn enter_preview(&mut self, target: String, content: PreviewContent)
        ensures
            final(self).wf(),
            string_views_of(final(self).preview_lines@) == preview_lines_spec(content),
            final(self).preview_file@ == opt_view(path_file_name(target@, old(self).windows)),
            final(self).preview_scroll == 0,
            final(self).current_dir@ == (match path_parent(target@, old(self).windows) {
                Some(p) => p,
                None => old(self).current_dir@,
            }),
            forall|k: int| 0 <= k < 3 ==> final(self).entries[k]@.len() == 0,
            forall|k: int| 0 <= k < 3 ==> final(self).selected[k] == 0,
            final(self).focus_col == 0,
            final(self).preview_mode,
            final(self).status@ == PREVIEW_STATUS@,
            final(self).start_dir == old(self).start_dir,
            final(self).windows == old(self).windows,
            final(self).pending_view() == Some(
                (final(self).current_dir@, 0int, Some(final(self).preview_file@), false),
            ),
    {
        let mut out: Vec<String> = Vec::new();
        let ghost spec_lines = preview_lines_spec(content);
        match content {
            PreviewContent::Listing(es) => {
                let mut i: usize = 0;
                while i < es.len()
                    invariant
                        i <= es.len(),
                        spec_lines == es@.map_values(|e: DirEntry| label_spec(e)),
                        string_views_of(out@) == spec_lines.take(i as int),
                    decreases es.len() - i,
                {
                    let l = entry_label(&es[i]);
                    let ghost before = out@;
                    let ghost lv = l@;
                    out.push(l);
                    assert(string_views_of(out@) =~= string_views_of(before).push(lv));
                    assert(spec_lines.take(i + 1) =~= spec_lines.take(i as int).push(lv));
                    i = i + 1;
                }
                assert(spec_lines.take(es.len() as int) =~= spec_lines);
            },
            PreviewContent::TooLarge(n) => {
                let mut v = chars_of("[file too large: ");
                push_decimal(&mut v, n);
                extend_str(&mut v, " bytes]");
                out.push(string_of(v.as_slice()));
                assert(string_views_of(out@) =~= spec_lines);
            },
            PreviewContent::Text(t) => {
                let tv = chars_of(t.as_str());
                let ls = split_lines(&tv);
                let mut i: usize = 0;
                while i < ls.len()
                    invariant
                        i <= ls.len(),
                        views(ls@) == spec_lines,
                        string_views_of(out@) == spec_lines.take(i as int),
                    decreases ls.len() - i,
                {
                    let l = string_of(ls[i].as_slice());
                    let ghost before = out@;
                    let ghost lv = l@;
                    out.push(l);
                    assert(string_views_of(out@) =~= string_views_of(before).push(lv));
                    assert(spec_lines.take(i + 1) =~= spec_lines.take(i as int).push(lv));
                    i = i + 1;
                }
                assert(spec_lines.take(ls.len() as int) =~= spec_lines);
            },
            PreviewContent::Unreadable => {
                out.push(owned("[binary or unreadable file]"));
                assert(string_views_of(out@) =~= spec_lines);
            },
        }
        self.preview_lines = out;
        self.preview_file = match file_name(target.as_str(), self.windows) {
            Some(n) => n,
            None => String::new(),
        };
        self.preview_scroll = 0;
        let dir = match parent_path(target.as_str(), self.windows) {
            Some(p) => p,
            None => self.current_dir.clone(),
        };
        self.current_dir = dir.clone();
        self.entries = [Vec::new(), Vec::new(), Vec::new()];
        self.selected = [0, 0, 0];
        self.focus_col = 0;
        self.preview_mode = true;
        self.status = owned(PREVIEW_STATUS);
        self.pending = Some(Fetch { path: dir, target: Target::Col0 { select: Some(self.preview_file.clone()), follow: false } });
    }

    /// Leaves the preview: column 0 stays, the columns to its right are
    /// filled again.
    pub fn exit_preview(&mut self)
        ensures
            !final(self).preview_mode,
            final(self).status@ == NORMAL_STATUS@,
            final(self).entries[0] == old(self).entries[0],
            final(self).selected[0] == old(self).selected[0],
            final(self).entries[1]@.len() == 0,
            final(self).entries[2]@.len() == 0,
            final(self).selected[1] == 0,
            final(self).selected[2] == 0,
            final(self).pending_view() == col0_fetch(old(self).current_dir@, old(self).entries[0]@, old(self).selected[0], old(self).windows),
            final(self).current_dir == old(self).current_dir,
            final(self).start_dir == old(self).start_dir,
            final(self).focus_col == old(self).focus_col,
            final(self).preview_file == old(self).preview_file,
            final(self).preview_lines == old(self).preview_lines,
            final(self).preview_scroll == old(self).preview_scroll,
            final(self).windows == old(self).windows,
            old(self).wf() ==> final(self).wf(),
    {
        self.preview_mode = false;
        self.repopulate_from(0);
        self.status = owned(NORMAL_STATUS);
    }

    /// The r key: back to the start directory, requesting its listing.
    pub fn reset(&mut self)
        ensures
            final(self).wf(),
            final(self).current_dir == old(self).start_dir,
            final(self).start_dir == old(self).start_dir,
            forall|k: int| 0 <= k < 3 ==> final(self).entries[k]@.len() == 0,
            forall|k: int| 0 <= k < 3 ==> final(self).selected[k] == 0,
            final(self).focus_col == 0,
            !final(self).preview_mode,
            final(self).status@ == "reset → "@ + old(self).start_dir@,
            final(self).pending_view() == Some((old(self).start_dir@, 0int, None::<Seq<char>>, true)),
            final(self).preview_file == old(self).preview_file,
            final(self).preview_lines == old(self).preview_lines,
            final(self).preview_scroll == old(self).preview_scroll,
            final(self).windows == old(self).windows,
    {
        self.current_dir = self.start_dir.clone();
        self.entries = [Vec::new(), Vec::new(), Vec::new()];
        self.selected = [0, 0, 0];
        self.focus_col = 0;
        self.preview_mode = false;
        let mut st = chars_of("reset → ");
        extend_str(&mut st, self.start_dir.as_str());
        self.status = string_of(st.as_slice());
        self.pending = Some(Fetch { path: self.start_dir.clone(), target: Target::Col0 { select: None, follow: true } });
    }

    /// The directory that Enter changes to.
    pub fn exit_path(&self) -> (r: String)
        ensures
            r@ == exit_path_spec(*self),
    {
        let s0 = self.selected[0];
        let s1 = self.selected[1];
        let s2 = self.selected[2];
        let has0 = s0 < self.entries[0].len();
        let has1 = s1 < self.entries[1].len();
        let has2 = s2 < self.entries[2].len();
        let base = self.current_dir.as_str();
        if self.focus_col == 0 {
            if has0 && self.entries[0][s0].is_dir {
                return join_path(base, self.entries[0][s0].name.as_str(), self.windows);
            }
            owned(base)
        } else if self.focus_col == 1 {
            if has0 {
                let pa = join_path(base, self.entries[0][s0].name.as_str(), self.windows);
                if has1 && self.entries[1][s1].is_dir {
                    return join_path(pa.as_str(), self.entries[1][s1].name.as_str(), self.windows);
                }
                return pa;
            }
            owned(base)
        } else if self.focus_col == 2 {
            if has0 && has1 {
                let pa = join_path(base, self.entries[0][s0].name.as_str(), self.windows);
                let pb = join_path(pa.as_str(), self.entries[1][s1].name.as_str(), self.windows);
                if has2 && self.entries[2][s2].is_dir {
                    return join_path(pb.as_str(), self.entries[2][s2].name.as_str(), self.windows);
                }
                return pb;
            }
            owned(base)
        } else {
            owned(base)
        }
    }

    /// The path of the highlighted row of column 0, whose details the
    /// status line shows.
    pub fn meta_path(&self) -> (r: Option<String>)
        ensures
            get_entry(self.entries[0]@, self.selected[0]) is None ==> r is None,
            get_entry(self.entries[0]@, self.selected[0]) matches Some(e) ==> (r matches Some(p) && p@
                == path_join(self.current_dir@, e.name@, self.windows)),
    {
        let s0 = self.selected[0];
        if s0 < self.entries[0].len() {
            Some(join_path(self.current_dir.as_str(), self.entries[0][s0].name.as_str(), self.windows))
        } else {
            None
        }
    }

    /// The details of the highlighted row of column 0: permissions, size,
    /// the given modification date, and name.
    pub fn meta_line(&self, modified: &str) -> (r: String)
        ensures
            r@ == meta_line_spec(*self, modified@),
    {
        let s0 = self.selected[0];
        if s0 >= self.entries[0].len() {
            return String::new();
        }
        let e = &self.entries[0][s0];
        let mut v = chars_of("  ");
        extend_str(&mut v, e.permission.as_str());
        extend_str(&mut v, "  │  ");
        extend_str(&mut v, e.size.as_str());
        extend_str(&mut v, "  │  ");
        extend_str(&mut v, modified);
        extend_str(&mut v, "  │  ");
        extend_str(&mut v, e.name.as_str());
        assert(v@ =~= meta_line_spec(*self, modified@));
        string_of(v.as_slice())
    }
}

/// The views of a list of strings.
pub open spec fn string_views_of(v: Seq<String>) -> Seq<Seq<char>> {
    v.map_values(|s: String| s@)
}

/// The last line a preview can scroll to (`len.saturating_sub(1)`).
pub open spec fn max_scroll(n: nat) -> int {
    if n == 0 {
        0
    } else {
        n - 1
    }
}

impl AppState {
    /// The ↑ key: scrolls the preview up one line, or moves the highlight of
    /// the focused column up one row and refills the columns to its right.
    pub fn on_up(&mut self)
        requires
            old(self).wf(),
        ensures
            final(self).wf(),
            old(self).preview_mode ==> *final(self) == (AppState {
                preview_scroll: if old(self).preview_scroll > 0 {
                    (old(self).preview_scroll - 1) as usize
                } else {
                    old(self).preview_scroll
                },
                ..*old(self)
            }),
            !old(self).preview_mode && old(self).focus_col < 2 && old(self).selected[old(self).focus_col as int] == 0
                ==> *final(self) == *old(self),
            !old(self).preview_mode && old(self).focus_col == 0 && old(self).selected[0] > 0 ==> {
                &&& same_frame(*final(self), *old(self))
                &&& final(self).entries[0] == old(self).entries[0]
                &&& final(self).selected[0] == old(self).selected[0] - 1
                &&& final(self).entries[1]@.len() == 0
                &&& final(self).entries[2]@.len() == 0
                &&& final(self).selected[1] == 0
                &&& final(self).selected[2] == 0
                &&& final(self).pending_view() == col0_fetch(
                    old(self).current_dir@,
                    old(self).entries[0]@,
                    (old(self).selected[0] - 1) as usize, old(self).windows,
                )
            },
            !old(self).preview_mode && old(self).focus_col == 1 && old(self).selected[1] > 0 ==> {
                &&& same_frame(*final(self), *old(self))
                &&& final(self).entries[0] == old(self).entries[0]
                &&& final(self).selected[0] == old(self).selected[0]
                &&& final(self).entries[1] == old(self).entries[1]
                &&& final(self).selected[1] == old(self).selected[1] - 1
                &&& final(self).entries[2]@.len() == 0
                &&& final(self).selected[2] == 0
                &&& final(self).pending_view() == col1_fetch(
                    path_join(old(self).current_dir@, sel_name(old(self).entries[0]@, old(self).selected[0]), old(self).windows),
                    old(self).entries[1]@,
                    (old(self).selected[1] - 1) as usize, old(self).windows,
                )
            },
            !old(self).preview_mode && old(self).focus_col == 2 ==> *final(self) == (AppState {
                selected: [
                    old(self).selected[0],
                    old(self).selected[1],
                    if old(self).selected[2] > 0 {
                        (old(self).selected[2] - 1) as usize
                    } else {
                        old(self).selected[2]
                    },
                ],
                ..*old(self)
            }),
    {
        if self.preview_mode {
            if self.preview_scroll > 0 {
                self.preview_scroll = self.preview_scroll - 1;
            }
        } else if self.focus_col == 0 {
            if self.selected[0] > 0 {
                self.selected[0] = self.selected[0] - 1;
                self.repopulate_from(0);
            }
        } else if self.focus_col == 1 {
            if self.selected[1] > 0 {
                self.selected[1] = self.selected[1] - 1;
                self.repopulate_from(1);
            }
        } else {
            if self.selected[2] > 0 {
                self.selected[2] = self.selected[2] - 1;
            }
            assert(self.selected =~= [
                old(self).selected[0],
                old(self).selected[1],
                if old(self).selected[2] > 0 {
                    (old(self).selected[2] - 1) as usize
                } else {
                    old(self).selected[2]
                },
            ]);
        }
    }

    /// The ↓ key: scrolls the preview down one line (not past the last), or
    /// moves the highlight of the focused column down one row (not past the
    /// last) and refills the columns to its right.
    pub fn on_down(&mut self)
        requires
            old(self).wf(),
        ensures
            final(self).wf(),
            old(self).preview_mode ==> *final(self) == (AppState {
                preview_scroll: if old(self).preview_scroll < max_scroll(old(self).preview_lines@.len()) {
                    (old(self).preview_scroll + 1) as usize
                } else {
                    old(self).preview_scroll
                },
                ..*old(self)
            }),
            !old(self).preview_mode && old(self).focus_col < 2 && old(self).selected[old(self).focus_col as int] + 1
                >= old(self).entries[old(self).focus_col as int]@.len() ==> *final(self) == *old(self),
            !old(self).preview_mode && old(self).focus_col == 0 && old(self).selected[0] + 1 < old(self).entries[0]@.len() ==> {
                &&& same_frame(*final(self), *old(self))
                &&& final(self).entries[0] == old(self).entries[0]
                &&& final(self).selected[0] == old(self).selected[0] + 1
                &&& final(self).entries[1]@.len() == 0
                &&& final(self).entries[2]@.len() == 0
                &&& final(self).selected[1] == 0
                &&& final(self).selected[2] == 0
                &&& final(self).pending_view() == col0_fetch(
                    old(self).current_dir@,
                    old(self).entries[0]@,
                    (old(self).selected[0] + 1) as usize, old(self).windows,
                )
            },
            !old(self).preview_mode && old(self).focus_col == 1 && old(self).selected[1] + 1 < old(self).entries[1]@.len() ==> {
                &&& same_frame(*final(self), *old(self))
                &&& final(self).entries[0] == old(self).entries[0]
                &&& final(self).selected[0] == old(self).selected[0]
                &&& final(self).entries[1] == old(self).entries[1]
                &&& final(self).selected[1] == old(self).selected[1] + 1
                &&& final(self).entries[2]@.len() == 0
                &&& final(self).selected[2] == 0
                &&& final(self).pending_view() == col1_fetch(
                    path_join(old(self).current_dir@, sel_name(old(self).entries[0]@, old(self).selected[0]), old(self).windows),
                    old(self).entries[1]@,
                    (old(self).selected[1] + 1) as usize, old(self).windows,
                )
            },
            !old(self).preview_mode && old(self).focus_col == 2 ==> *final(self) == (AppState {
                selected: [
                    old(self).selected[0],
                    old(self).selected[1],
                    if old(self).selected[2] + 1 < old(self).entries[2]@.len() {
                        (old(self).selected[2] + 1) as usize
                    } else {
                        old(self).selected[2]
                    },
                ],
                ..*old(self)
            }),
    {
        if self.preview_mode {
            let n = self.preview_lines.len();
            let max = if n == 0 { 0 } else { n - 1 };
            if self.preview_scroll < max {
                self.preview_scroll = self.preview_scroll + 1;
            }
        } else if self.focus_col == 0 {
            let n = self.entries[0].len();
            if n > 0 && self.selected[0] < n - 1 {
                self.selected[0] = self.selected[0] + 1;
                self.repopulate_from(0);
            }
        } else if self.focus_col == 1 {
            let n = self.entries[1].len();
            if n > 0 && self.selected[1] < n - 1 {
                self.selected[1] = self.selected[1] + 1;
                self.repopulate_from(1);
            }
        } else {
            let n = self.entries[2].len();
            if n > 0 && self.selected[2] < n - 1 {
                self.selected[2] = self.selected[2] + 1;
            }
            assert(self.selected =~= [
                old(self).selected[0],
                old(self).selected[1],
                if old(self).selected[2] + 1 < old(self).entries[2]@.len() {
                    (old(self).selected[2] + 1) as usize
                } else {
                    old(self).selected[2]
                },
            ]);
        }
    }

    /// The → key: moves right, except during a preview.
    pub fn on_right(&mut self)
        requires
            old(self).wf(),
        ensures
            final(self).wf(),
            old(self).preview_mode ==> *final(self) == *old(self),
            !old(self).preview_mode ==> right_moved(*old(self), *final(self)),
    {
        if !self.preview_mode {
            self.focus_right();
        }
    }

    /// The ← key: leaves a preview; else moves the focus one column left,
    /// or from column 0 goes to the parent directory.
    pub fn on_left(&mut self)
        requires
            old(self).wf(),
        ensures
            final(self).wf(),
            !old(self).preview_mode && old(self).focus_col > 0 ==> *final(self) == (AppState {
                focus_col: (old(self).focus_col - 1) as usize,
                ..*old(self)
            }),
            old(self).preview_mode ==> preview_left(*old(self), *final(self)),
            !old(self).preview_mode && old(self).focus_col == 0 ==> parent_moved(*old(self), *final(self)),
    {
        if self.preview_mode {
            self.exit_preview();
        } else if self.focus_col > 0 {
            self.focus_col = self.focus_col - 1;
        } else {
            self.navigate_left();
        }
    }

    /// Mouse wheel up: scrolls a preview up three lines, stopping at the top.
    pub fn on_scroll_up(&mut self)
        ensures
            old(self).preview_mode ==> *final(self) == (AppState {
                preview_scroll: if old(self).preview_scroll >= 3 {
                    (old(self).preview_scroll - 3) as usize
                } else {
                    0
                },
                ..*old(self)
            }),
            !old(self).preview_mode ==> *final(self) == *old(self),
    {
        if self.preview_mode {
            self.preview_scroll = self.preview_scroll.saturating_sub(3);
        }
    }

    /// Mouse wheel down: scrolls a preview down three lines, stopping at the
    /// last line.
    pub fn on_scroll_down(&mut self)
        ensures
            old(self).preview_mode ==> *final(self) == (AppState {
                preview_scroll: if old(self).preview_scroll + 3 < max_scroll(old(self).preview_lines@.len()) {
                    (old(self).preview_scroll + 3) as usize
                } else {
                    max_scroll(old(self).preview_lines@.len()) as usize
                },
                ..*old(self)
            }),
            !old(self).preview_mode ==> *final(self) == *old(self),
    {
        if self.preview_mode {
            let n = self.preview_lines.len();
            let max = if n == 0 { 0 } else { n - 1 };
            if self.preview_scroll < max && max - self.preview_scroll > 3 {
                self.preview_scroll = self.preview_scroll + 3;
            } else {
                self.preview_scroll = max;
            }
        }
    }
}

} // verus!
