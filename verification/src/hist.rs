//! Folder-specific command history.
//!
//! The history file holds one line per command and directory, in the form
//! `directory<TAB>count<TAB>command`.  This module reads and writes that
//! text, selects and orders the commands of one directory, records a new
//! command (at most fifty per directory), and holds the search picker.

use vstd::prelude::*;
use crate::text::{
    chars_of, decimal, extend_str, find_char, first_of, has_char, is_digit, is_ws, join,
    lemma_decimal, lemma_digit_not_ws, lemma_first_of_at, lemma_join_terminated,
    lemma_lines_newline, lemma_lines_terminated, lemma_trim_fixed, lemma_trim_nonempty, lemma_trimmed_ends, lines,
    parse_usize, parse_usize_spec, push_decimal, slice_of, split_lines, string_of, strip_cr,
    trim, trim_str, trim_vec, unsigned_digits, views, chars_eq, string_views,
    has_substring, spec_lowercase, to_lowercase, lower_contains, pushed, popped, join_words,
};
use crate::sort::{codes, is_stable_sort, key_views, lex_lt, push_codes, stable_sort_order};

verus! {

/// The most commands that recording keeps for one directory.
pub const MAX_PER_DIR: usize = 50;

/// One recorded command: where it ran, how often, and its text.
pub struct Entry {
    pub dir: String,
    pub count: usize,
    pub cmd: String,
}

/// The plain values of an entry: directory, count, command.
pub type EntryV = (Seq<char>, usize, Seq<char>);

impl View for Entry {
    type V = EntryV;

    open spec fn view(&self) -> EntryV {
        (self.dir@, self.count, self.cmd@)
    }
}

/// The plain values of a list of entries.
pub open spec fn entry_views(es: Seq<Entry>) -> Seq<EntryV> {
    es.map_values(|e: Entry| e@)
}

// ---------------------------------------------------------------------
// Reading the history text
// ---------------------------------------------------------------------

/// What one line of the history text records: nothing for a blank line or
/// one without two tabs, an unparsable count or an empty command; else the
/// trimmed directory, the count and the trimmed command (which may itself
/// hold tabs).
pub open spec fn parse_line(l: Seq<char>) -> Option<EntryV> {
    let t1 = first_of(l, '\t');
    let rest = l.subrange(t1 + 1, l.len() as int);
    let t2 = first_of(rest, '\t');
    if trim(l).len() == 0 || t1 < 0 || t2 < 0 {
        None
    } else {
        match parse_usize_spec(trim(rest.subrange(0, t2))) {
            Some(count) => {
                let cmd = trim(rest.subrange(t2 + 1, rest.len() as int));
                if cmd.len() == 0 {
                    None
                } else {
                    Some((trim(l.subrange(0, t1)), count, cmd))
                }
            },
            None => None,
        }
    }
}

/// The entry that an optional result contributes.
pub open spec fn opt_seq(o: Option<EntryV>) -> Seq<EntryV> {
    match o {
        Some(e) => seq![e],
        None => seq![],
    }
}

/// The entries recorded by a list of lines, in order.
pub open spec fn parse_lines(ls: Seq<Seq<char>>) -> Seq<EntryV>
    decreases ls.len(),
{
    if ls.len() == 0 {
        seq![]
    } else {
        opt_seq(parse_line(ls[0])) + parse_lines(ls.drop_first())
    }
}

/// The entries recorded by the history text.
pub open spec fn hist_entries(content: Seq<char>) -> Seq<EntryV> {
    parse_lines(lines(content))
}

/// Parsing a list of lines distributes over concatenation.
pub proof fn lemma_parse_lines_append(a: Seq<Seq<char>>, b: Seq<Seq<char>>)
    ensures
        parse_lines(a + b) == parse_lines(a) + parse_lines(b),
    decreases a.len(),
{
    if a.len() == 0 {
        assert(a + b =~= b);
        assert(parse_lines(a) =~= Seq::<EntryV>::empty());
        assert(parse_lines(a + b) =~= parse_lines(a) + parse_lines(b));
    } else {
        assert((a + b).drop_first() =~= a.drop_first() + b);
        assert((a + b)[0] == a[0]);
        lemma_parse_lines_append(a.drop_first(), b);
        assert(parse_lines(a + b) =~= parse_lines(a) + parse_lines(b));
    }
}

/// The entries of a single line.
pub proof fn lemma_parse_one_line(l: Seq<char>)
    ensures
        parse_lines(seq![l]) == opt_seq(parse_line(l)),
{
    assert(seq![l].drop_first() =~= Seq::<Seq<char>>::empty());
    assert(seq![l][0] == l);
    assert(parse_lines(Seq::<Seq<char>>::empty()) =~= Seq::<EntryV>::empty());
    assert(parse_lines(seq![l]) =~= opt_seq(parse_line(l)));
}

/// Reads one line of the history text.
pub fn parse_line_chars(l: &Vec<char>) -> (r: Option<Entry>)
    ensures
        r matches Some(e) ==> parse_line(l@) == Some(e@),
        r is None ==> parse_line(l@) is None,
{
    let n = l.len();
    let t = trim_vec(l);
    if t.len() == 0 {
        return None;
    }
    let t1 = match find_char(l, 0, '\t') {
        Some(k) => k,
        None => {
            assert(l@.subrange(0, n as int) =~= l@);
            return None;
        },
    };
    assert(l@.subrange(0, n as int) =~= l@);
    proof {
        lemma_first_of_at(l@, '\t', t1 as int);
    }
    let ghost rest = l@.subrange(t1 + 1, n as int);
    let t2 = match find_char(l, t1 + 1, '\t') {
        Some(k) => k,
        None => {
            assert(first_of(rest, '\t') < 0);
            return None;
        },
    };
    let ghost k2 = t2 - (t1 + 1);
    proof {
        assert forall|j: int| 0 <= j < k2 implies rest[j] != '\t' by {
            assert(rest[j] == l@[t1 + 1 + j]);
        }
        lemma_first_of_at(rest, '\t', k2);
    }
    let count_txt = trim_vec(&slice_of(l, t1 + 1, t2));
    assert(rest.subrange(0, k2) =~= l@.subrange(t1 + 1, t2 as int));
    assert(count_txt@ == trim(rest.subrange(0, k2)));
    let count = match parse_usize(&count_txt) {
        Some(c) => c,
        None => {
            assert(parse_usize_spec(trim(rest.subrange(0, k2))) is None);
            return None;
        },
    };
    let cmd = trim_vec(&slice_of(l, t2 + 1, n));
    assert(rest.subrange(k2 + 1, rest.len() as int) =~= l@.subrange(t2 + 1, n as int));
    assert(cmd@ == trim(rest.subrange(k2 + 1, rest.len() as int)));
    if cmd.len() == 0 {
        return None;
    }
    let dir = trim_vec(&slice_of(l, 0, t1));
    let e = Entry { dir: string_of(dir.as_slice()), count, cmd: string_of(cmd.as_slice()) };
    assert(parse_line(l@) == Some(e@));
    Some(e)
}

/// Reads the history text: the entries of its well-formed lines, in order.
pub fn load_all(content: &str) -> (r: Vec<Entry>)
    ensures
        entry_views(r@) == hist_entries(content@),
{
    let v = chars_of(content);
    let ls = split_lines(&v);
    let ghost lv = views(ls@);
    let mut out: Vec<Entry> = Vec::new();
    let mut i: usize = 0;
    while i < ls.len()
        invariant
            i <= ls.len(),
            lv == views(ls@),
            lv == lines(content@),
            entry_views(out@) == parse_lines(lv.take(i as int)),
        decreases ls.len() - i,
    {
        let parsed = parse_line_chars(&ls[i]);
        proof {
            assert(lv.take(i + 1) =~= lv.take(i as int) + seq![lv[i as int]]);
            lemma_parse_lines_append(lv.take(i as int), seq![lv[i as int]]);
            lemma_parse_one_line(lv[i as int]);
            assert(lv[i as int] == ls@[i as int]@);
        }
        let ghost before = out@;
        match parsed {
            Some(e) => {
                out.push(e);
                assert(entry_views(out@) =~= entry_views(before) + opt_seq(parse_line(lv[i as int])));
            },
            None => {
                assert(entry_views(out@) =~= entry_views(before) + opt_seq(parse_line(lv[i as int])));
            },
        }
        i = i + 1;
    }
    assert(lv.take(ls.len() as int) =~= lv);
    out
}

// ---------------------------------------------------------------------
// Writing the history text
// ---------------------------------------------------------------------

/// The line that records an entry.
pub open spec fn entry_line(e: EntryV) -> Seq<char> {
    e.0 + seq!['\t'] + decimal(e.1 as nat) + seq!['\t'] + e.2
}

/// The history text for a list of entries: their lines joined by newlines,
/// with a final newline.
pub open spec fn hist_text(es: Seq<EntryV>) -> Seq<char> {
    join(es.map_values(|e: EntryV| entry_line(e)), seq!['\n']) + seq!['\n']
}

/// Appends the line of one entry.
fn push_entry_line(out: &mut Vec<char>, e: &Entry)
    ensures
        final(out)@ == old(out)@ + entry_line(e@),
{
    extend_str(out, e.dir.as_str());
    out.push('\t');
    push_decimal(out, e.count as u64);
    out.push('\t');
    extend_str(out, e.cmd.as_str());
    assert(final(out)@ =~= old(out)@ + entry_line(e@));
}

/// The history text that records the entries, one line each.
pub fn save_all(entries: &Vec<Entry>) -> (r: String)
    ensures
        r@ == hist_text(entry_views(entries@)),
{
    let ghost ls = entry_views(entries@).map_values(|e: EntryV| entry_line(e));
    let mut out: Vec<char> = Vec::new();
    let mut i: usize = 0;
    while i < entries.len()
        invariant
            i <= entries.len(),
            ls == entry_views(entries@).map_values(|e: EntryV| entry_line(e)),
            out@ == join(ls.take(i as int), seq!['\n']),
        decreases entries.len() - i,
    {
        if i > 0 {
            out.push('\n');
        }
        push_entry_line(&mut out, &entries[i]);
        proof {
            let t = ls.take(i + 1);
            assert(t.drop_last() =~= ls.take(i as int));
            assert(t.last() == entry_line(entries@[i as int]@));
            if i > 0 {
                assert(out@ =~= join(t, seq!['\n']));
            } else {
                assert(out@ =~= join(t, seq!['\n']));
            }
        }
        i = i + 1;
    }
    out.push('\n');
    assert(ls.take(entries.len() as int) =~= ls);
    string_of(out.as_slice())
}

// ---------------------------------------------------------------------
// Saving then loading gives back the entries
// ---------------------------------------------------------------------

/// An entry that its line records faithfully: a trimmed directory without
/// tabs or newlines, and a nonempty trimmed command without newlines.
pub open spec fn well_formed(e: EntryV) -> bool {
    &&& !has_char(e.0, '\t')
    &&& !has_char(e.0, '\n')
    &&& trim(e.0) == e.0
    &&& e.2.len() > 0
    &&& !has_char(e.2, '\n')
    &&& trim(e.2) == e.2
}

/// The line of a well-formed entry reads back as that entry.
pub proof fn lemma_parse_entry_line(e: EntryV)
    requires
        well_formed(e),
    ensures
        parse_line(entry_line(e)) == Some(e),
{
    let d = e.0;
    let c = e.2;
    let dd = decimal(e.1 as nat);
    lemma_decimal(e.1 as nat);
    let l = entry_line(e);
    assert(l =~= d + seq!['\t'] + dd + seq!['\t'] + c);
    // the first tab ends the directory
    assert(l[d.len() as int] == '\t');
    assert forall|j: int| 0 <= j < d.len() implies l[j] != '\t' by {
        assert(l[j] == d[j]);
    }
    lemma_first_of_at(l, '\t', d.len() as int);
    // a digit makes the line non-blank
    assert(l[d.len() as int + 1] == dd[0]);
    assert(is_digit(dd[0]));
    lemma_digit_not_ws(dd[0]);
    lemma_trim_nonempty(l, d.len() as int + 1);
    // the count runs up to the second tab
    let rest = l.subrange(d.len() as int + 1, l.len() as int);
    assert(rest =~= dd + seq!['\t'] + c);
    assert(rest[dd.len() as int] == '\t');
    assert forall|j: int| 0 <= j < dd.len() implies rest[j] != '\t' by {
        assert(rest[j] == dd[j]);
        assert(is_digit(dd[j]));
    }
    lemma_first_of_at(rest, '\t', dd.len() as int);
    assert(rest.subrange(0, dd.len() as int) =~= dd);
    assert(is_digit(dd.last()));
    lemma_digit_not_ws(dd.last());
    lemma_trim_fixed(dd);
    assert(unsigned_digits(dd) == dd);
    assert(rest.subrange(dd.len() as int + 1, rest.len() as int) =~= c);
    assert(l.subrange(0, d.len() as int) =~= d);
}

/// The history text of well-formed entries reads back as those entries.
pub proof fn lemma_save_load(es: Seq<EntryV>)
    requires
        forall|i: int| 0 <= i < es.len() ==> well_formed(#[trigger] es[i]),
    ensures
        hist_entries(hist_text(es)) == es,
{
    let ls = es.map_values(|e: EntryV| entry_line(e));
    if es.len() == 0 {
        assert(ls =~= Seq::<Seq<char>>::empty());
        assert(hist_text(es) =~= seq!['\n']);
        lemma_lines_newline();
        let e0 = Seq::<char>::empty();
        assert(trim(e0) =~= e0);
        assert(parse_line(e0) is None);
        lemma_parse_one_line(e0);
        assert(hist_entries(hist_text(es)) =~= es);
    } else {
        assert forall|i: int| 0 <= i < ls.len() implies !has_char(#[trigger] ls[i], '\n') by {
            let e = es[i];
            assert(well_formed(e));
            lemma_decimal(e.1 as nat);
            assert(ls[i] =~= e.0 + seq!['\t'] + decimal(e.1 as nat) + seq!['\t'] + e.2);
            if has_char(ls[i], '\n') {
                let k = choose|k: int| 0 <= k < ls[i].len() && ls[i][k] == '\n';
                let dl = e.0.len() as int;
                let nl = decimal(e.1 as nat).len() as int;
                if k < dl {
                    assert(e.0[k] == '\n');
                } else if k == dl {
                } else if k < dl + 1 + nl {
                    assert(is_digit(decimal(e.1 as nat)[k - dl - 1]));
                } else if k == dl + 1 + nl {
                } else {
                    assert(e.2[k - dl - 2 - nl] == '\n');
                }
            }
        }
        assert forall|i: int| 0 <= i < ls.len() implies strip_cr(#[trigger] ls[i]) == ls[i] by {
            let e = es[i];
            assert(well_formed(e));
            assert(ls[i] =~= e.0 + seq!['\t'] + decimal(e.1 as nat) + seq!['\t'] + e.2);
            assert(ls[i].last() == e.2.last());
            lemma_trimmed_ends(e.2);
        }
        lemma_join_terminated(ls);
        lemma_lines_terminated(ls);
        lemma_parse_terminated_lines(es);
    }
}

/// Parsing the lines of well-formed entries gives back the entries.
proof fn lemma_parse_terminated_lines(es: Seq<EntryV>)
    requires
        forall|i: int| 0 <= i < es.len() ==> well_formed(#[trigger] es[i]),
    ensures
        parse_lines(es.map_values(|e: EntryV| entry_line(e))) == es,
    decreases es.len(),
{
    if es.len() > 0 {
        let ls = es.map_values(|e: EntryV| entry_line(e));
        assert(well_formed(es[0]));
        lemma_parse_entry_line(es[0]);
        assert(ls.drop_first() =~= es.drop_first().map_values(|e: EntryV| entry_line(e)));
        assert forall|i: int| 0 <= i < es.drop_first().len() implies well_formed(
            #[trigger] es.drop_first()[i],
        ) by {
            assert(es.drop_first()[i] == es[i + 1]);
        }
        lemma_parse_terminated_lines(es.drop_first());
        assert(parse_lines(ls) =~= es);
    } else {
        assert(es.map_values(|e: EntryV| entry_line(e)) =~= Seq::<Seq<char>>::empty());
    }
}

// ---------------------------------------------------------------------
// Directories
// ---------------------------------------------------------------------

/// The code of `c` with ASCII upper case folded to lower case.
pub open spec fn fold_code(c: char) -> u32 {
    let u = c as u32;
    if 65 <= u <= 90 {
        (u + 32) as u32
    } else {
        u
    }
}

/// Whether two directories are the same: exactly equal, or on Windows equal
/// up to ASCII case (`str::eq_ignore_ascii_case`).
pub open spec fn same_dir(a: Seq<char>, b: Seq<char>, windows: bool) -> bool {
    if windows {
        a.len() == b.len() && forall|i: int| 0 <= i < a.len() ==> fold_code(a[i]) == fold_code(b[i])
    } else {
        a == b
    }
}

/// Every directory is the same as itself.
pub proof fn lemma_same_dir_refl(a: Seq<char>, windows: bool)
    ensures
        same_dir(a, a, windows),
{
}

/// Whether `a` and `b` name the same directory; `windows` selects the
/// ASCII case-insensitive comparison used on Windows.
pub fn dirs_match(a: &str, b: &str, windows: bool) -> (r: bool)
    ensures
        r == same_dir(a@, b@, windows),
{
    let av = chars_of(a);
    let bv = chars_of(b);
    if !windows {
        return chars_eq(av.as_slice(), bv.as_slice());
    }
    if av.len() != bv.len() {
        return false;
    }
    let mut i: usize = 0;
    while i < av.len()
        invariant
            av@ == a@,
            bv@ == b@,
            av.len() == bv.len(),
            i <= av.len(),
            forall|k: int| 0 <= k < i ==> fold_code(av@[k]) == fold_code(bv@[k]),
        decreases av.len() - i,
    {
        let x = av[i] as u32;
        let y = bv[i] as u32;
        let fx = if 65 <= x && x <= 90 { x + 32 } else { x };
        let fy = if 65 <= y && y <= 90 { y + 32 } else { y };
        if fx != fy {
            return false;
        }
        i = i + 1;
    }
    true
}

/// The entries recorded in directory `cwd`, in file order.
pub open spec fn dir_entries(es: Seq<EntryV>, cwd: Seq<char>, windows: bool) -> Seq<EntryV>
    decreases es.len(),
{
    if es.len() == 0 {
        seq![]
    } else {
        let r = dir_entries(es.drop_last(), cwd, windows);
        if same_dir(es.last().0, cwd, windows) {
            r.push(es.last())
        } else {
            r
        }
    }
}

/// Selecting a directory's entries distributes over concatenation.
pub proof fn lemma_dir_entries_append(a: Seq<EntryV>, b: Seq<EntryV>, cwd: Seq<char>, windows: bool)
    ensures
        dir_entries(a + b, cwd, windows) == dir_entries(a, cwd, windows) + dir_entries(b, cwd, windows),
    decreases b.len(),
{
    if b.len() == 0 {
        assert(a + b =~= a);
        assert(dir_entries(a + b, cwd, windows) =~= dir_entries(a, cwd, windows) + dir_entries(b, cwd, windows));
    } else {
        assert((a + b).drop_last() =~= a + b.drop_last());
        assert((a + b).last() == b.last());
        lemma_dir_entries_append(a, b.drop_last(), cwd, windows);
        assert(dir_entries(a + b, cwd, windows) =~= dir_entries(a, cwd, windows) + dir_entries(b, cwd, windows));
    }
}

/// The selected entries of a single entry.
proof fn lemma_dir_entries_one(e: EntryV, cwd: Seq<char>, windows: bool)
    ensures
        dir_entries(seq![e], cwd, windows).len() == (if same_dir(e.0, cwd, windows) { 1int } else { 0int }),
{
    assert(seq![e].drop_last() =~= Seq::<EntryV>::empty());
    assert(seq![e].last() == e);
    assert(dir_entries(Seq::<EntryV>::empty(), cwd, windows) =~= Seq::<EntryV>::empty());
}

/// The order key of an entry in a directory's history: most used first,
/// then by command text.
pub open spec fn hist_key(e: EntryV) -> Seq<u64> {
    seq![(u64::MAX - e.1 as u64) as u64] + codes(e.2)
}

/// The order keys of a list of entries.
pub open spec fn hist_keys(es: Seq<EntryV>) -> Seq<Seq<u64>> {
    es.map_values(|e: EntryV| hist_key(e))
}

/// Whether `cmds` lists the commands of directory `cwd` by use: a stable
/// sort of that directory's entries, most used first, equal counts in the
/// order of their text.
pub open spec fn is_dir_history(es: Seq<EntryV>, cwd: Seq<char>, windows: bool, cmds: Seq<Seq<char>>) -> bool {
    let sel = dir_entries(es, cwd, windows);
    exists|p: Seq<usize>|
        #[trigger] is_stable_sort(hist_keys(sel), p) && cmds == p.map_values(
            |j: usize| sel[j as int].2,
        )
}

/// Comparing keys that start with one number each: the first numbers
/// decide, and equal first numbers leave it to the rest.
proof fn lemma_lex_head(a: u64, b: u64, x: Seq<u64>, y: Seq<u64>)
    ensures
        lex_lt(seq![a] + x, seq![b] + y) == (a < b || (a == b && lex_lt(x, y))),
{
    let u = seq![a] + x;
    let v = seq![b] + y;
    assert(u[0] == a && v[0] == b);
    assert(u.drop_first() =~= x);
    assert(v.drop_first() =~= y);
}

/// A directory's history lists each of its entries' commands once, a more
/// used command never after a less used one (counts compared as numbers),
/// and equally used commands in the order of their text.
pub proof fn lemma_dir_history_by_count(es: Seq<EntryV>, cwd: Seq<char>, windows: bool, cmds: Seq<Seq<char>>)
    requires
        is_dir_history(es, cwd, windows, cmds),
    ensures
        exists|p: Seq<usize>|
            {
                let sel = dir_entries(es, cwd, windows);
                &&& #[trigger] p.len() == sel.len()
                &&& cmds.len() == sel.len()
                &&& forall|i: int| 0 <= i < p.len() ==> (p[i] as int) < sel.len() && cmds[i] == sel[p[i] as int].2
                &&& forall|i: int, j: int| 0 <= i < j < p.len() ==> p[i] != p[j]
                &&& forall|i: int, j: int| 0 <= i < j < p.len() ==> sel[p[i] as int].1 >= sel[p[j] as int].1
                &&& forall|i: int, j: int|
                    0 <= i < j < p.len() && sel[p[i] as int].1 == sel[p[j] as int].1 ==> !lex_lt(
                        codes(sel[p[j] as int].2),
                        codes(sel[p[i] as int].2),
                    )
            },
{
    let sel = dir_entries(es, cwd, windows);
    let ks = hist_keys(sel);
    let p = choose|p: Seq<usize>|
        #[trigger] is_stable_sort(ks, p) && cmds == p.map_values(|j: usize| sel[j as int].2);
    assert forall|i: int, j: int| 0 <= i < j < p.len() implies sel[p[i] as int].1 >= sel[p[j] as int].1
        && (sel[p[i] as int].1 == sel[p[j] as int].1 ==> !lex_lt(codes(sel[p[j] as int].2), codes(sel[p[i] as int].2))) by {
        let ei = sel[p[i] as int];
        let ej = sel[p[j] as int];
        assert(p[i] == p[i] && p[j] == p[j]);
        assert(ks[p[i] as int] == hist_key(ei));
        assert(ks[p[j] as int] == hist_key(ej));
        let ai = (u64::MAX - ei.1 as u64) as u64;
        let aj = (u64::MAX - ej.1 as u64) as u64;
        lemma_lex_head(ai, aj, codes(ei.2), codes(ej.2));
        lemma_lex_head(aj, ai, codes(ej.2), codes(ei.2));
        crate::sort::lemma_lex_total(codes(ei.2), codes(ej.2));
    }
    assert forall|i: int| 0 <= i < p.len() implies (p[i] as int) < sel.len() && cmds[i] == sel[p[i] as int].2 by {}
}

/// The commands recorded in directory `cwd`, most used first.
pub fn load_hist(all: &Vec<Entry>, cwd: &str, windows: bool) -> (r: Vec<String>)
    ensures
        is_dir_history(entry_views(all@), cwd@, windows, string_views(r@)),
{
    let ghost ev = entry_views(all@);
    let mut sel: Vec<usize> = Vec::new();
    let mut keys: Vec<Vec<u64>> = Vec::new();
    let mut i: usize = 0;
    while i < all.len()
        invariant
            i <= all.len(),
            ev == entry_views(all@),
            sel@.len() == keys@.len(),
            forall|k: int| 0 <= k < sel@.len() ==> (sel@[k] as int) < i,
            sel@.map_values(|k: usize| ev[k as int]) == dir_entries(ev.take(i as int), cwd@, windows),
            key_views(keys@) == hist_keys(dir_entries(ev.take(i as int), cwd@, windows)),
        decreases all.len() - i,
    {
        proof {
            assert(ev.take(i + 1).drop_last() =~= ev.take(i as int));
            assert(ev.take(i + 1).last() == ev[i as int]);
        }
        if dirs_match(all[i].dir.as_str(), cwd, windows) {
            let mut key: Vec<u64> = Vec::new();
            key.push(u64::MAX - all[i].count as u64);
            let cv = chars_of(all[i].cmd.as_str());
            push_codes(&mut key, cv.as_slice());
            let ghost sel0 = sel@;
            let ghost keys0 = keys@;
            let ghost kv = key@;
            assert(kv =~= hist_key(ev[i as int]));
            sel.push(i);
            keys.push(key);
            proof {
                assert(key_views(keys@) =~= key_views(keys0).push(kv));
                let d = dir_entries(ev.take(i + 1), cwd@, windows);
                assert(d == dir_entries(ev.take(i as int), cwd@, windows).push(ev[i as int]));
                assert(sel@.map_values(|k: usize| ev[k as int]) =~= d);
                assert(key_views(keys@) =~= hist_keys(d));
            }
        } else {
            proof {
                let d = dir_entries(ev.take(i + 1), cwd@, windows);
                assert(d == dir_entries(ev.take(i as int), cwd@, windows));
            }
        }
        i = i + 1;
    }
    assert(ev.take(all.len() as int) =~= ev);
    let ghost sv = dir_entries(ev, cwd@, windows);
    let p = stable_sort_order(&keys);
    let mut out: Vec<String> = Vec::new();
    let mut j: usize = 0;
    while j < p.len()
        invariant
            j <= p.len(),
            ev == entry_views(all@),
            sv == dir_entries(ev, cwd@, windows),
            sel@.map_values(|k: usize| ev[k as int]) == sv,
            forall|k: int| 0 <= k < sel@.len() ==> (sel@[k] as int) < all.len(),
            is_stable_sort(key_views(keys@), p@),
            key_views(keys@) == hist_keys(sv),
            string_views(out@) == p@.take(j as int).map_values(|q: usize| sv[q as int].2),
        decreases p.len() - j,
    {
        let q = p[j];
        assert((q as int) < sel@.len());
        let idx = sel[q];
        let c = all[idx].cmd.clone();
        let ghost before = out@;
        let ghost cv = c@;
        out.push(c);
        proof {
            assert(sv[q as int] == ev[idx as int]);
            assert(cv == sv[q as int].2);
            assert(string_views(out@) =~= string_views(before).push(cv));
            assert(p@.take(j + 1) =~= p@.take(j as int).push(q));
            assert(string_views(out@) =~= p@.take(j + 1).map_values(|q: usize| sv[q as int].2));
        }
        j = j + 1;
    }
    assert(p@.take(p@.len() as int) =~= p@);
    out
}

// ---------------------------------------------------------------------
// Recording a command
// ---------------------------------------------------------------------

/// Whether an entry records command `c` in directory `cwd`.
pub open spec fn same_cmd(e: EntryV, c: Seq<char>, cwd: Seq<char>, windows: bool) -> bool {
    same_dir(e.0, cwd, windows) && e.2 == c
}

/// Whether `i` is the first entry that records `c` in `cwd`.
pub open spec fn is_first_same(es: Seq<EntryV>, c: Seq<char>, cwd: Seq<char>, windows: bool, i: int) -> bool {
    &&& 0 <= i < es.len()
    &&& same_cmd(es[i], c, cwd, windows)
    &&& forall|j: int| 0 <= j < i ==> !same_cmd(#[trigger] es[j], c, cwd, windows)
}

/// Whether `m` is the least used entry of `cwd`, the earliest of equals.
pub open spec fn is_least_used(es: Seq<EntryV>, cwd: Seq<char>, windows: bool, m: int) -> bool {
    &&& 0 <= m < es.len()
    &&& same_dir(es[m].0, cwd, windows)
    &&& forall|j: int|
        0 <= j < es.len() && same_dir(#[trigger] es[j].0, cwd, windows) ==> es[m].1 < es[j].1 || (
        es[m].1 == es[j].1 && m <= j)
}

/// The entries after recording command `c` run in `cwd`: nothing changes
/// for an empty command; an existing entry for the command has its count
/// raised by one; otherwise the command is appended with count 1, after
/// dropping the directory's least used entry when it already has fifty.
pub open spec fn recorded(es: Seq<EntryV>, c: Seq<char>, cwd: Seq<char>, windows: bool) -> Seq<EntryV> {
    if c.len() == 0 {
        es
    } else if exists|i: int| is_first_same(es, c, cwd, windows, i) {
        let i = choose|i: int| is_first_same(es, c, cwd, windows, i);
        es.update(i, (es[i].0, (es[i].1 + 1) as usize, es[i].2))
    } else {
        let kept = if dir_entries(es, cwd, windows).len() >= MAX_PER_DIR {
            es.remove(choose|m: int| is_least_used(es, cwd, windows, m))
        } else {
            es
        };
        kept.push((cwd, 1usize, c))
    }
}

/// Raising the count of the entry that records `c` cannot overflow.
pub open spec fn count_fits(es: Seq<EntryV>, c: Seq<char>, cwd: Seq<char>, windows: bool) -> bool {
    forall|i: int| is_first_same(es, c, cwd, windows, i) ==> es[i].1 < usize::MAX
}

/// The first matching entry is unique.
proof fn lemma_first_same_unique(es: Seq<EntryV>, c: Seq<char>, cwd: Seq<char>, windows: bool, i: int, k: int)
    requires
        is_first_same(es, c, cwd, windows, i),
        is_first_same(es, c, cwd, windows, k),
    ensures
        i == k,
{
    if i < k {
        assert(!same_cmd(es[i], c, cwd, windows));
    } else if k < i {
        assert(!same_cmd(es[k], c, cwd, windows));
    }
}

/// The least used entry is unique.
proof fn lemma_least_used_unique(es: Seq<EntryV>, cwd: Seq<char>, windows: bool, m: int, k: int)
    requires
        is_least_used(es, cwd, windows, m),
        is_least_used(es, cwd, windows, k),
    ensures
        m == k,
{
    assert(same_dir(es[k].0, cwd, windows));
    assert(same_dir(es[m].0, cwd, windows));
}

/// Where a stable sort by count, most used first, places entry `x` among
/// the already sorted entries `s`: after every entry used at least as often.
pub open spec fn count_pos(s: Seq<EntryV>, x: EntryV) -> int
    decreases s.len(),
{
    if s.len() == 0 {
        0
    } else if s[0].1 < x.1 {
        0
    } else {
        1 + count_pos(s.drop_first(), x)
    }
}

/// The entries in a stable sort by count, most used first: each entry in
/// turn goes after every earlier one used at least as often.
pub open spec fn sort_by_count(es: Seq<EntryV>) -> Seq<EntryV>
    decreases es.len(),
{
    if es.len() == 0 {
        seq![]
    } else {
        let s = sort_by_count(es.drop_last());
        s.insert(count_pos(s, es.last()), es.last())
    }
}

/// Whether the counts of `es` never grow from one entry to a later one.
pub open spec fn counts_descending(es: Seq<EntryV>) -> bool {
    forall|i: int, j: int| 0 <= i < j < es.len() ==> #[trigger] es[i].1 >= #[trigger] es[j].1
}

/// `count_pos` lies within the entries, after those used at least as often
/// and before the first used less often.
proof fn lemma_count_pos(s: Seq<EntryV>, x: EntryV)
    ensures
        0 <= count_pos(s, x) <= s.len(),
        forall|j: int| 0 <= j < count_pos(s, x) ==> s[j].1 >= x.1,
        count_pos(s, x) < s.len() ==> s[count_pos(s, x)].1 < x.1,
    decreases s.len(),
{
    if s.len() > 0 && s[0].1 >= x.1 {
        lemma_count_pos(s.drop_first(), x);
        assert forall|j: int| 0 <= j < count_pos(s, x) implies s[j].1 >= x.1 by {
            if j > 0 {
                assert(s[j] == s.drop_first()[j - 1]);
            }
        }
    }
}

/// The place after the entries used at least as often, before one used
/// less often, is `count_pos`.
proof fn lemma_count_pos_at(s: Seq<EntryV>, x: EntryV, k: int)
    requires
        0 <= k <= s.len(),
        forall|j: int| 0 <= j < k ==> s[j].1 >= x.1,
        k < s.len() ==> s[k].1 < x.1,
    ensures
        count_pos(s, x) == k,
    decreases k,
{
    if k > 0 {
        assert forall|j: int| 0 <= j < k - 1 implies s.drop_first()[j].1 >= x.1 by {
            assert(s.drop_first()[j] == s[j + 1]);
        }
        if k < s.len() {
            assert(s.drop_first()[k - 1] == s[k]);
        }
        lemma_count_pos_at(s.drop_first(), x, k - 1);
    }
}

/// The number of entries of a directory after inserting one entry.
proof fn lemma_dir_entries_insert(s: Seq<EntryV>, k: int, x: EntryV, cwd: Seq<char>, windows: bool)
    requires
        0 <= k <= s.len(),
    ensures
        dir_entries(s.insert(k, x), cwd, windows).len() == dir_entries(s, cwd, windows).len() + (if same_dir(
            x.0,
            cwd,
            windows,
        ) {
            1int
        } else {
            0int
        }),
{
    let a = s.subrange(0, k);
    let b = s.subrange(k, s.len() as int);
    assert(s =~= a + b);
    assert(s.insert(k, x) =~= (a + seq![x]) + b);
    lemma_dir_entries_append(a, b, cwd, windows);
    lemma_dir_entries_append(a + seq![x], b, cwd, windows);
    lemma_dir_entries_append(a, seq![x], cwd, windows);
    lemma_dir_entries_one(x, cwd, windows);
}

/// Sorting by count keeps the entries, with their multiplicities, and the
/// number of entries of each directory, and leaves the counts descending.
pub proof fn lemma_sort_by_count(es: Seq<EntryV>, cwd: Seq<char>, windows: bool)
    ensures
        sort_by_count(es).len() == es.len(),
        sort_by_count(es).to_multiset() == es.to_multiset(),
        counts_descending(sort_by_count(es)),
        dir_entries(sort_by_count(es), cwd, windows).len() == dir_entries(es, cwd, windows).len(),
    decreases es.len(),
{
    broadcast use vstd::seq_lib::group_to_multiset_ensures;

    if es.len() > 0 {
        let init = es.drop_last();
        let x = es.last();
        lemma_sort_by_count(init, cwd, windows);
        let s = sort_by_count(init);
        lemma_count_pos(s, x);
        let k = count_pos(s, x);
        let r = s.insert(k, x);
        assert(es =~= init.push(x));
        assert(r.to_multiset() =~= s.to_multiset().insert(x));
        assert forall|i: int, j: int| 0 <= i < j < r.len() implies #[trigger] r[i].1 >= #[trigger] r[j].1 by {
            if j < k {
                assert(r[i] == s[i] && r[j] == s[j]);
            } else if i > k {
                assert(r[i] == s[i - 1] && r[j] == s[j - 1]);
            } else if j == k {
                assert(r[i] == s[i]);
            } else if i == k {
                assert(r[j] == s[j - 1]);
                assert(s[k].1 >= s[j - 1].1 || j - 1 == k);
            } else {
                assert(r[i] == s[i] && r[j] == s[j - 1]);
            }
        }
        lemma_dir_entries_insert(s, k, x, cwd, windows);
        lemma_dir_entries_append(init, seq![x], cwd, windows);
        assert(init.push(x) =~= init + seq![x]);
        lemma_dir_entries_one(x, cwd, windows);
    }
}

/// Puts the entries in a stable order by count, most used first.
fn sort_by_count_in_place(all: &mut Vec<Entry>)
    ensures
        entry_views(final(all)@) == sort_by_count(entry_views(old(all)@)),
{
    let ghost es = entry_views(all@);
    let n = all.len();
    let mut out: Vec<Entry> = Vec::new();
    let mut i: usize = 0;
    while i < n
        invariant
            n == all.len(),
            es == entry_views(all@),
            i <= n,
            entry_views(out@) == sort_by_count(es.take(i as int)),
            out@.len() == i,
        decreases n - i,
    {
        let e = Entry { dir: all[i].dir.clone(), count: all[i].count, cmd: all[i].cmd.clone() };
        let ghost s = entry_views(out@);
        let ghost x = e@;
        assert(x == es[i as int]);
        proof {
            lemma_sort_by_count(es.take(i as int), seq![], false);
        }
        let mut k: usize = 0;
        while k < out.len() && out[k].count >= e.count
            invariant
                s == entry_views(out@),
                x == e@,
                k <= out@.len(),
                forall|j: int| 0 <= j < k ==> s[j].1 >= x.1,
            decreases out@.len() - k,
        {
            k = k + 1;
        }
        proof {
            lemma_count_pos_at(s, x, k as int);
            assert(es.take(i + 1).drop_last() =~= es.take(i as int));
            assert(es.take(i + 1).last() == x);
        }
        out.insert(k, e);
        assert(entry_views(out@) =~= s.insert(k as int, x));
        i = i + 1;
    }
    assert(es.take(n as int) =~= es);
    *all = out;
}

/// Whether recording command `cmd` in `cwd` would raise a count past
/// `usize::MAX`: its first entry there already holds the largest count.
pub fn record_overflows(all: &Vec<Entry>, cmd: &str, cwd: &str, windows: bool) -> (r: bool)
    ensures
        r == (trim(cmd@).len() > 0 && !count_fits(entry_views(all@), trim(cmd@), cwd@, windows)),
{
    let c = trim_str(cmd);
    if c.as_str().is_empty() {
        return false;
    }
    let ghost es = entry_views(all@);
    let ghost cv = c@;
    let n = all.len();
    let mut i: usize = 0;
    while i < n
        invariant
            n == all.len(),
            es == entry_views(all@),
            cv == c@,
            cv == trim(cmd@),
            cv.len() > 0,
            i <= n,
            forall|j: int| 0 <= j < i ==> !same_cmd(#[trigger] es[j], cv, cwd@, windows),
        decreases n - i,
    {
        if dirs_match(all[i].dir.as_str(), cwd, windows) && all[i].cmd == c {
            proof {
                assert(is_first_same(es, cv, cwd@, windows, i as int));
                assert forall|k: int| is_first_same(es, cv, cwd@, windows, k) implies k == i by {
                    lemma_first_same_unique(es, cv, cwd@, windows, i as int, k);
                }
                assert(es[i as int] == all@[i as int]@);
            }
            let full = all[i].count == usize::MAX;
            proof {
                assert(es[i as int].1 == all@[i as int].count);
                if !full {
                    assert(count_fits(es, cv, cwd@, windows));
                } else {
                    assert(is_first_same(es, cv, cwd@, windows, i as int));
                    assert(!count_fits(es, cv, cwd@, windows));
                }
                assert(cv.len() > 0);
            }
            return full;
        }
        i = i + 1;
    }
    assert forall|k: int| !is_first_same(es, cv, cwd@, windows, k) by {
        if is_first_same(es, cv, cwd@, windows, k) {
            assert(!same_cmd(es[k], cv, cwd@, windows));
        }
    }
    false
}

/// Records command `cmd`, run in directory `cwd`, in the history entries,
/// and leaves them in the order the history file keeps: by count, most used
/// first (a stable sort).  A blank command changes nothing.
pub fn add_command(all: &mut Vec<Entry>, cmd: &str, cwd: &str, windows: bool)
    requires
        trim(cmd@).len() > 0 ==> count_fits(entry_views(old(all)@), trim(cmd@), cwd@, windows),
    ensures
        trim(cmd@).len() == 0 ==> final(all)@ == old(all)@,
        trim(cmd@).len() > 0 ==> entry_views(final(all)@) == sort_by_count(
            recorded(entry_views(old(all)@), trim(cmd@), cwd@, windows),
        ),
{
    let c = trim_str(cmd);
    if c.as_str().is_empty() {
        return;
    }
    let ghost es = entry_views(all@);
    let ghost cv = c@;
    let n = all.len();
    let mut i: usize = 0;
    while i < n
        invariant
            n == all.len(),
            es == entry_views(all@),
            es == entry_views(old(all)@),
            cv == c@,
            cv == trim(cmd@),
            cv.len() > 0,
            count_fits(es, cv, cwd@, windows),
            i <= n,
            forall|j: int| 0 <= j < i ==> !same_cmd(#[trigger] es[j], cv, cwd@, windows),
        decreases n - i,
    {
        if dirs_match(all[i].dir.as_str(), cwd, windows) && all[i].cmd == c {
            proof {
                assert(is_first_same(es, cv, cwd@, windows, i as int));
                assert forall|k: int| is_first_same(es, cv, cwd@, windows, k) implies k == i by {
                    lemma_first_same_unique(es, cv, cwd@, windows, i as int, k);
                }
                assert(es[i as int].1 < usize::MAX);
            }
            let e = Entry { dir: all[i].dir.clone(), count: all[i].count + 1, cmd: all[i].cmd.clone() };
            all.set(i, e);
            proof {
                assert(entry_views(all@) =~= es.update(i as int, (es[i as int].0, (es[i as int].1 + 1) as usize, es[i as int].2)));
                assert(exists|k: int| is_first_same(es, cv, cwd@, windows, k));
                let ch = choose|k: int| is_first_same(es, cv, cwd@, windows, k);
                assert(ch == i);
                assert(recorded(es, cv, cwd@, windows) == es.update(i as int, (es[i as int].0, (es[i as int].1 + 1) as usize, es[i as int].2)));
            }
            sort_by_count_in_place(all);
            return;
        }
        i = i + 1;
    }
    assert(!exists|k: int| is_first_same(es, cv, cwd@, windows, k));
    // count this directory's entries and find the least used one
    let mut cnt: usize = 0;
    let mut best: usize = 0;
    let mut found = false;
    let mut k: usize = 0;
    while k < n
        invariant
            n == all.len(),
            es == entry_views(all@),
            es == entry_views(old(all)@),
            k <= n,
            cnt <= k,
            cnt == dir_entries(es.take(k as int), cwd@, windows).len(),
            found ==> best < k && same_dir(es[best as int].0, cwd@, windows),
            found ==> forall|j: int|
                0 <= j < k && same_dir(#[trigger] es[j].0, cwd@, windows) ==> es[best as int].1
                    < es[j].1 || (es[best as int].1 == es[j].1 && best <= j),
            !found ==> forall|j: int| 0 <= j < k ==> !same_dir(#[trigger] es[j].0, cwd@, windows),
        decreases n - k,
    {
        proof {
            assert(es.take(k + 1).drop_last() =~= es.take(k as int));
            assert(es.take(k + 1).last() == es[k as int]);
        }
        if dirs_match(all[k].dir.as_str(), cwd, windows) {
            cnt = cnt + 1;
            if !found || all[k].count < all[best].count {
                best = k;
                found = true;
            }
        }
        k = k + 1;
    }
    assert(es.take(n as int) =~= es);
    if cnt >= MAX_PER_DIR {
        proof {
            assert(found) by {
                if !found {
                    lemma_no_dir_entries(es, cwd@, windows);
                }
            }
            assert(is_least_used(es, cwd@, windows, best as int));
            assert forall|m: int| is_least_used(es, cwd@, windows, m) implies m == best by {
                lemma_least_used_unique(es, cwd@, windows, best as int, m);
            }
        }
        all.remove(best);
    }
    let d = string_of(chars_of(cwd).as_slice());
    let ghost kept = entry_views(all@);
    all.push(Entry { dir: d, count: 1, cmd: c });
    proof {
        if cnt >= MAX_PER_DIR {
            assert(kept =~= es.remove(best as int));
        } else {
            assert(kept == es);
        }
        assert(entry_views(all@) =~= kept.push((cwd@, 1usize, cv)));
    }
    sort_by_count_in_place(all);
}

/// A list without entries of a directory selects none.
proof fn lemma_no_dir_entries(es: Seq<EntryV>, cwd: Seq<char>, windows: bool)
    requires
        forall|j: int| 0 <= j < es.len() ==> !same_dir(#[trigger] es[j].0, cwd, windows),
    ensures
        dir_entries(es, cwd, windows).len() == 0,
    decreases es.len(),
{
    if es.len() > 0 {
        assert(!same_dir(es[es.len() - 1].0, cwd, windows));
        assert forall|j: int| 0 <= j < es.drop_last().len() implies !same_dir(
            #[trigger] es.drop_last()[j].0,
            cwd,
            windows,
        ) by {
            assert(es.drop_last()[j] == es[j]);
        }
        lemma_no_dir_entries(es.drop_last(), cwd, windows);
    }
}

/// The number of entries of `cwd` after recording command `c` there, before
/// the entries are sorted: unchanged for a command already recorded; one
/// more for a new command, or unchanged when the directory already had fifty
/// or more (its least used entry leaves).
proof fn lemma_recorded_count(es: Seq<EntryV>, c: Seq<char>, cwd: Seq<char>, windows: bool)
    requires
        c.len() > 0,
    ensures
        (exists|i: int| is_first_same(es, c, cwd, windows, i)) ==> dir_entries(recorded(es, c, cwd, windows), cwd, windows).len()
            == dir_entries(es, cwd, windows).len(),
        !(exists|i: int| is_first_same(es, c, cwd, windows, i)) ==> dir_entries(recorded(es, c, cwd, windows), cwd, windows).len()
            == (if dir_entries(es, cwd, windows).len() >= MAX_PER_DIR {
            dir_entries(es, cwd, windows).len() as int
        } else {
            dir_entries(es, cwd, windows).len() + 1int
        }),
{
    if exists|i: int| is_first_same(es, c, cwd, windows, i) {
        let i = choose|i: int| is_first_same(es, c, cwd, windows, i);
        let x = (es[i].0, (es[i].1 + 1) as usize, es[i].2);
        let r = es.update(i, x);
        assert(es =~= es.subrange(0, i) + seq![es[i]] + es.subrange(i + 1, es.len() as int));
        assert(r =~= es.subrange(0, i) + seq![x] + es.subrange(i + 1, es.len() as int));
        lemma_dir_entries_append(es.subrange(0, i) + seq![es[i]], es.subrange(i + 1, es.len() as int), cwd, windows);
        lemma_dir_entries_append(es.subrange(0, i), seq![es[i]], cwd, windows);
        lemma_dir_entries_append(es.subrange(0, i) + seq![x], es.subrange(i + 1, es.len() as int), cwd, windows);
        lemma_dir_entries_append(es.subrange(0, i), seq![x], cwd, windows);
        lemma_dir_entries_one(es[i], cwd, windows);
        lemma_dir_entries_one(x, cwd, windows);
    } else {
        let kept = if dir_entries(es, cwd, windows).len() >= MAX_PER_DIR {
            es.remove(choose|m: int| is_least_used(es, cwd, windows, m))
        } else {
            es
        };
        if dir_entries(es, cwd, windows).len() >= MAX_PER_DIR {
            lemma_least_used_exists(es, cwd, windows);
            let m = choose|m: int| is_least_used(es, cwd, windows, m);
            assert(es =~= es.subrange(0, m) + seq![es[m]] + es.subrange(m + 1, es.len() as int));
            assert(kept =~= es.subrange(0, m) + es.subrange(m + 1, es.len() as int));
            lemma_dir_entries_append(es.subrange(0, m) + seq![es[m]], es.subrange(m + 1, es.len() as int), cwd, windows);
            lemma_dir_entries_append(es.subrange(0, m), seq![es[m]], cwd, windows);
            lemma_dir_entries_append(es.subrange(0, m), es.subrange(m + 1, es.len() as int), cwd, windows);
            lemma_dir_entries_one(es[m], cwd, windows);
        }
        let x = (cwd, 1usize, c);
        lemma_dir_entries_append(kept, seq![x], cwd, windows);
        assert(kept.push(x) =~= kept + seq![x]);
        lemma_dir_entries_one(x, cwd, windows);
        lemma_same_dir_refl(cwd, windows);
    }
}

/// Recording a command in a directory with `k` entries leaves the history
/// sorted by count, most used first, with the same `k` entries in that
/// directory for a command already recorded there, and for a new command
/// `k + 1`, or `k` when it already had fifty or more (so `min(k + 1, 50)`
/// when `k` is at most fifty).
pub proof fn lemma_record_count(es: Seq<EntryV>, c: Seq<char>, cwd: Seq<char>, windows: bool)
    requires
        c.len() > 0,
    ensures
        counts_descending(sort_by_count(recorded(es, c, cwd, windows))),
        (exists|i: int| is_first_same(es, c, cwd, windows, i)) ==> dir_entries(
            sort_by_count(recorded(es, c, cwd, windows)),
            cwd,
            windows,
        ).len() == dir_entries(es, cwd, windows).len(),
        !(exists|i: int| is_first_same(es, c, cwd, windows, i)) ==> dir_entries(
            sort_by_count(recorded(es, c, cwd, windows)),
            cwd,
            windows,
        ).len() == (if dir_entries(es, cwd, windows).len() >= MAX_PER_DIR {
            dir_entries(es, cwd, windows).len() as int
        } else {
            dir_entries(es, cwd, windows).len() + 1int
        }),
{
    lemma_recorded_count(es, c, cwd, windows);
    lemma_sort_by_count(recorded(es, c, cwd, windows), cwd, windows);
}

/// Recording a command keeps a directory that has at most fifty entries at
/// at most fifty.
pub proof fn lemma_record_keeps_cap(es: Seq<EntryV>, c: Seq<char>, cwd: Seq<char>, windows: bool)
    requires
        dir_entries(es, cwd, windows).len() <= MAX_PER_DIR,
    ensures
        dir_entries(
            if c.len() == 0 {
                es
            } else {
                sort_by_count(recorded(es, c, cwd, windows))
            },
            cwd,
            windows,
        ).len() <= MAX_PER_DIR,
{
    if c.len() > 0 {
        lemma_record_count(es, c, cwd, windows);
    }
}

/// Whether no two entries record the same command in the same directory.
pub open spec fn unique_pairs(es: Seq<EntryV>, windows: bool) -> bool {
    forall|i: int, j: int|
        0 <= i < j < es.len() ==> !(same_dir(#[trigger] es[i].0, #[trigger] es[j].0, windows) && es[i].2 == es[j].2)
}

/// An entry that records `c` in `cwd` means a first such entry exists.
proof fn lemma_first_same_exists(es: Seq<EntryV>, c: Seq<char>, cwd: Seq<char>, windows: bool, j: int)
    requires
        0 <= j < es.len(),
        same_cmd(es[j], c, cwd, windows),
    ensures
        exists|i: int| is_first_same(es, c, cwd, windows, i),
    decreases j,
{
    if exists|k: int| 0 <= k < j && same_cmd(#[trigger] es[k], c, cwd, windows) {
        let k = choose|k: int| 0 <= k < j && same_cmd(#[trigger] es[k], c, cwd, windows);
        lemma_first_same_exists(es, c, cwd, windows, k);
    } else {
        assert(is_first_same(es, c, cwd, windows, j));
    }
}

/// Sorting by count keeps each (directory, command) pair at most once.
proof fn lemma_sort_unique(es: Seq<EntryV>, windows: bool)
    requires
        unique_pairs(es, windows),
    ensures
        unique_pairs(sort_by_count(es), windows),
    decreases es.len(),
{
    broadcast use vstd::seq_lib::group_to_multiset_ensures;

    if es.len() > 0 {
        let init = es.drop_last();
        let n = es.len() - 1;
        let x = es.last();
        assert forall|i: int, j: int| 0 <= i < j < init.len() implies !(same_dir(
            #[trigger] init[i].0,
            #[trigger] init[j].0,
            windows,
        ) && init[i].2 == init[j].2) by {
            assert(init[i] == es[i] && init[j] == es[j]);
        }
        lemma_sort_unique(init, windows);
        lemma_sort_by_count(init, seq![], windows);
        let s = sort_by_count(init);
        lemma_count_pos(s, x);
        let k = count_pos(s, x);
        let r = s.insert(k, x);
        // every sorted entry is an earlier entry, which differs from `x`
        assert forall|q: int| 0 <= q < s.len() implies !(same_dir(#[trigger] s[q].0, x.0, windows) && s[q].2 == x.2)
            && !(same_dir(x.0, s[q].0, windows) && x.2 == s[q].2) by {
            assert(s.contains(s[q]));
            assert(s.to_multiset().count(s[q]) > 0);
            assert(init.contains(s[q]));
            let a = choose|a: int| 0 <= a < init.len() && init[a] == s[q];
            assert(es[a] == s[q]);
            assert(es[n] == x);
            assert(!(same_dir(es[a].0, es[n].0, windows) && es[a].2 == es[n].2));
        }
        assert forall|i: int, j: int| 0 <= i < j < r.len() implies !(same_dir(
            #[trigger] r[i].0,
            #[trigger] r[j].0,
            windows,
        ) && r[i].2 == r[j].2) by {
            if j < k {
                assert(r[i] == s[i] && r[j] == s[j]);
            } else if i > k {
                assert(r[i] == s[i - 1] && r[j] == s[j - 1]);
            } else if j == k {
                assert(r[i] == s[i] && r[j] == x);
            } else if i == k {
                assert(r[i] == x && r[j] == s[j - 1]);
            } else {
                assert(r[i] == s[i] && r[j] == s[j - 1]);
            }
        }
    }
}

/// Removing an entry keeps the pairs unique and records no command that
/// the list did not record.
proof fn lemma_remove_unique(es: Seq<EntryV>, m: int, c: Seq<char>, cwd: Seq<char>, windows: bool)
    requires
        unique_pairs(es, windows),
        0 <= m < es.len(),
    ensures
        unique_pairs(es.remove(m), windows),
        (forall|j: int| 0 <= j < es.len() ==> !same_cmd(#[trigger] es[j], c, cwd, windows)) ==> (forall|j: int|
            0 <= j < es.remove(m).len() ==> !same_cmd(#[trigger] es.remove(m)[j], c, cwd, windows)),
{
    let k = es.remove(m);
    assert forall|i: int, j: int| 0 <= i < j < k.len() implies !(same_dir(
        #[trigger] k[i].0,
        #[trigger] k[j].0,
        windows,
    ) && k[i].2 == k[j].2) by {
        let p = if i < m { i } else { i + 1 };
        let q = if j < m { j } else { j + 1 };
        assert(k[i] == es[p] && k[j] == es[q]);
    }
    if forall|j: int| 0 <= j < es.len() ==> !same_cmd(#[trigger] es[j], c, cwd, windows) {
        assert forall|j: int| 0 <= j < k.len() implies !same_cmd(#[trigger] k[j], c, cwd, windows) by {
            let p = if j < m { j } else { j + 1 };
            assert(k[j] == es[p]);
        }
    }
}

/// Recording a command keeps each (directory, command) pair at most once in
/// the history.
pub proof fn lemma_record_unique(es: Seq<EntryV>, c: Seq<char>, cwd: Seq<char>, windows: bool)
    requires
        unique_pairs(es, windows),
        c.len() > 0,
    ensures
        unique_pairs(sort_by_count(recorded(es, c, cwd, windows)), windows),
{
    let r = recorded(es, c, cwd, windows);
    if exists|i: int| is_first_same(es, c, cwd, windows, i) {
        let i = choose|i: int| is_first_same(es, c, cwd, windows, i);
        assert(r == es.update(i, (es[i].0, (es[i].1 + 1) as usize, es[i].2)));
        assert forall|a: int, b: int| 0 <= a < b < r.len() implies !(same_dir(
            #[trigger] r[a].0,
            #[trigger] r[b].0,
            windows,
        ) && r[a].2 == r[b].2) by {
            assert(r[a].0 == es[a].0 && r[a].2 == es[a].2);
            assert(r[b].0 == es[b].0 && r[b].2 == es[b].2);
        }
    } else {
        assert forall|j: int| 0 <= j < es.len() implies !same_cmd(#[trigger] es[j], c, cwd, windows) by {
            if same_cmd(es[j], c, cwd, windows) {
                lemma_first_same_exists(es, c, cwd, windows, j);
            }
        }
        let kept = if dir_entries(es, cwd, windows).len() >= MAX_PER_DIR {
            es.remove(choose|m: int| is_least_used(es, cwd, windows, m))
        } else {
            es
        };
        if dir_entries(es, cwd, windows).len() >= MAX_PER_DIR {
            lemma_least_used_exists(es, cwd, windows);
            let m = choose|m: int| is_least_used(es, cwd, windows, m);
            lemma_remove_unique(es, m, c, cwd, windows);
        }
        assert(unique_pairs(kept, windows));
        assert(forall|j: int| 0 <= j < kept.len() ==> !same_cmd(#[trigger] kept[j], c, cwd, windows));
        let x = (cwd, 1usize, c);
        assert(r == kept.push(x));
        assert forall|a: int, b: int| 0 <= a < b < r.len() implies !(same_dir(
            #[trigger] r[a].0,
            #[trigger] r[b].0,
            windows,
        ) && r[a].2 == r[b].2) by {
            assert(r[a] == kept[a]);
            if b < kept.len() {
                assert(r[b] == kept[b]);
            } else {
                assert(r[b] == x);
                assert(!same_cmd(kept[a], c, cwd, windows));
            }
        }
    }
    lemma_sort_unique(r, windows);
}

/// A directory with entries has a least used one.
proof fn lemma_least_used_exists(es: Seq<EntryV>, cwd: Seq<char>, windows: bool)
    requires
        dir_entries(es, cwd, windows).len() > 0,
    ensures
        exists|m: int| is_least_used(es, cwd, windows, m),
    decreases es.len(),
{
    let r = dir_entries(es.drop_last(), cwd, windows);
    let n = es.len() - 1;
    if r.len() > 0 {
        lemma_least_used_exists(es.drop_last(), cwd, windows);
        let m = choose|m: int| is_least_used(es.drop_last(), cwd, windows, m);
        assert(es.drop_last()[m] == es[m]);
        if same_dir(es[n].0, cwd, windows) && es[n].1 < es[m].1 {
            assert forall|j: int| 0 <= j < es.len() && same_dir(#[trigger] es[j].0, cwd, windows) implies es[n].1
                < es[j].1 || (es[n].1 == es[j].1 && n <= j) by {
                if j < n {
                    assert(es.drop_last()[j] == es[j]);
                }
            }
            assert(is_least_used(es, cwd, windows, n));
        } else {
            assert forall|j: int| 0 <= j < es.len() && same_dir(#[trigger] es[j].0, cwd, windows) implies es[m].1
                < es[j].1 || (es[m].1 == es[j].1 && m <= j) by {
                if j < n {
                    assert(es.drop_last()[j] == es[j]);
                }
            }
            assert(is_least_used(es, cwd, windows, m));
        }
    } else {
        assert(same_dir(es[n].0, cwd, windows));
        assert forall|j: int| 0 <= j < es.len() && same_dir(#[trigger] es[j].0, cwd, windows) implies es[n].1
            < es[j].1 || (es[n].1 == es[j].1 && n <= j) by {
            if j < n {
                assert(es.drop_last()[j] == es[j]);
                lemma_selected_member(es.drop_last(), cwd, windows, j);
            }
        }
        assert(is_least_used(es, cwd, windows, n));
    }
}

/// Every entry of the directory is selected.
proof fn lemma_selected_member(es: Seq<EntryV>, cwd: Seq<char>, windows: bool, j: int)
    requires
        0 <= j < es.len(),
        same_dir(es[j].0, cwd, windows),
    ensures
        dir_entries(es, cwd, windows).len() > 0,
    decreases es.len(),
{
    if j < es.len() - 1 {
        assert(es.drop_last()[j] == es[j]);
        lemma_selected_member(es.drop_last(), cwd, windows, j);
    }
}

// ---------------------------------------------------------------------
// The search picker
// ---------------------------------------------------------------------

/// The indices `0..n`, in order.
pub open spec fn all_indices(n: nat) -> Seq<usize> {
    Seq::new(n, |i: int| i as usize)
}

/// The indices of the items whose lower-cased text holds `f`, in order.
pub open spec fn hits(all: Seq<Seq<char>>, f: Seq<char>) -> Seq<usize>
    decreases all.len(),
{
    if all.len() == 0 {
        seq![]
    } else {
        let r = hits(all.drop_last(), f);
        if has_substring(spec_lowercase(all.last()), f) {
            r.push((all.len() - 1) as usize)
        } else {
            r
        }
    }
}

/// Every hit is the index of an item that holds the filter.
pub proof fn lemma_hits(all: Seq<Seq<char>>, f: Seq<char>)
    requires
        all.len() <= usize::MAX,
    ensures
        forall|k: int| 0 <= k < hits(all, f).len() ==> (#[trigger] hits(all, f)[k] as int) < all.len(),
        forall|k: int|
            0 <= k < hits(all, f).len() ==> has_substring(
                spec_lowercase(all[#[trigger] hits(all, f)[k] as int]),
                f,
            ),
    decreases all.len(),
{
    if all.len() > 0 {
        lemma_hits(all.drop_last(), f);
        let r = hits(all.drop_last(), f);
        let h = hits(all, f);
        assert forall|k: int| 0 <= k < h.len() implies has_substring(
            spec_lowercase(all[#[trigger] h[k] as int]),
            f,
        ) by {
            if k < r.len() {
                assert(h[k] == r[k]);
                assert(all[r[k] as int] == all.drop_last()[r[k] as int]);
            } else {
                assert(h[k] as int == all.len() - 1);
            }
        }
    }
}

/// The history search lists exactly the commands whose lower-cased text
/// holds the filter somewhere (not only at its start), each once, in the
/// order of the history.
pub proof fn lemma_hits_exact(all: Seq<Seq<char>>, f: Seq<char>)
    requires
        all.len() <= usize::MAX,
    ensures
        forall|k: int|
            0 <= k < all.len() ==> (has_substring(spec_lowercase(#[trigger] all[k]), f) <==> exists|j: int|
                0 <= j < hits(all, f).len() && hits(all, f)[j] == k),
        forall|i: int, j: int| 0 <= i < j < hits(all, f).len() ==> hits(all, f)[i] < hits(all, f)[j],
    decreases all.len(),
{
    if all.len() > 0 {
        let init = all.drop_last();
        let n = all.len() - 1;
        lemma_hits_exact(init, f);
        lemma_hits(init, f);
        let r = hits(init, f);
        let h = hits(all, f);
        assert forall|k: int| 0 <= k < all.len() implies (has_substring(spec_lowercase(#[trigger] all[k]), f)
            <==> exists|j: int| 0 <= j < h.len() && h[j] == k) by {
            if k < n {
                assert(all[k] == init[k]);
                if has_substring(spec_lowercase(all[k]), f) {
                    let j = choose|j: int| 0 <= j < r.len() && r[j] == k;
                    assert(h[j] == r[j]);
                }
                if exists|j: int| 0 <= j < h.len() && h[j] == k {
                    let j = choose|j: int| 0 <= j < h.len() && h[j] == k;
                    if j < r.len() {
                        assert(h[j] == r[j]);
                    }
                }
            } else {
                if has_substring(spec_lowercase(all[k]), f) {
                    assert(h[r.len() as int] == k);
                }
                if exists|j: int| 0 <= j < h.len() && h[j] == k {
                    let j = choose|j: int| 0 <= j < h.len() && h[j] == k;
                    if j < r.len() {
                        assert(h[j] == r[j]);
                        assert((r[j] as int) < init.len());
                    }
                }
            }
        }
        assert forall|i: int, j: int| 0 <= i < j < h.len() implies h[i] < h[j] by {
            if j < r.len() {
                assert(h[i] == r[i] && h[j] == r[j]);
            } else {
                assert(h[i] == r[i]);
                assert((r[i] as int) < init.len());
            }
        }
    }
}

/// The history search: the commands, the typed filter, the indices of the
/// commands that match it, and the highlighted position among them.
pub struct Picker {
    pub all: Vec<String>,
    pub filter: String,
    pub matches: Vec<usize>,
    pub cursor: usize,
}

impl Picker {
    /// The matches index the commands, and the cursor lies on a match (or is
    /// 0 when there is none).
    pub open spec fn wf(&self) -> bool {
        &&& forall|k: int| 0 <= k < self.matches@.len() ==> (#[trigger] self.matches@[k] as int) < self.all@.len()
        &&& self.matches@.len() == 0 ==> self.cursor == 0
        &&& self.matches@.len() > 0 ==> self.cursor < self.matches@.len()
    }

    /// A picker over `items` with an empty filter: every item matches.
    pub fn new(items: Vec<String>) -> (p: Self)
        ensures
            p.wf(),
            p.all@ == items@,
            p.filter@ == Seq::<char>::empty(),
            p.matches@ == all_indices(items@.len()),
            p.cursor == 0,
    {
        let mut matches: Vec<usize> = Vec::new();
        let mut i: usize = 0;
        while i < items.len()
            invariant
                i <= items.len(),
                matches@ == all_indices(i as nat),
            decreases items.len() - i,
        {
            matches.push(i);
            assert(matches@ =~= all_indices((i + 1) as nat));
            i = i + 1;
        }
        Picker { all: items, filter: String::new(), matches, cursor: 0 }
    }

    /// Recomputes the matches for the current filter and moves the cursor to
    /// the first one.
    pub fn refilter(&mut self)
        ensures
            final(self).wf(),
            final(self).all == old(self).all,
            final(self).filter == old(self).filter,
            final(self).matches@ == hits(string_views(old(self).all@), spec_lowercase(old(self).filter@)),
            final(self).cursor == 0,
    {
        let low = to_lowercase(self.filter.as_str());
        let f = chars_of(low.as_str());
        let ghost sv = string_views(self.all@);
        let mut m: Vec<usize> = Vec::new();
        let mut i: usize = 0;
        while i < self.all.len()
            invariant
                i <= self.all.len(),
                sv == string_views(self.all@),
                m@ == hits(sv.take(i as int), f@),
            decreases self.all.len() - i,
        {
            let hit = lower_contains(self.all[i].as_str(), &f);
            proof {
                assert(sv.take(i + 1).drop_last() =~= sv.take(i as int));
                assert(sv.take(i + 1).last() == self.all@[i as int]@);
            }
            if hit {
                m.push(i);
            }
            i = i + 1;
        }
        assert(sv.take(self.all.len() as int) =~= sv);
        proof {
            lemma_hits(sv, f@);
        }
        self.matches = m;
        self.cursor = 0;
    }

    /// The highlighted command, if any command matches.
    pub fn selected(&self) -> (r: Option<&str>)
        requires
            self.wf(),
        ensures
            self.cursor < self.matches@.len() ==> (r matches Some(s) && s@ == self.all@[self.matches@[self.cursor as int] as int]@),
            self.cursor >= self.matches@.len() ==> r is None,
    {
        if self.cursor < self.matches.len() {
            let i = self.matches[self.cursor];
            Some(self.all[i].as_str())
        } else {
            None
        }
    }

    /// Moves the highlight one match up, stopping at the first.
    pub fn up(&mut self)
        requires
            old(self).wf(),
        ensures
            final(self).wf(),
            final(self).all == old(self).all,
            final(self).filter == old(self).filter,
            final(self).matches == old(self).matches,
            final(self).cursor == (if old(self).cursor > 0 { (old(self).cursor - 1) as usize } else { old(self).cursor }),
    {
        if self.cursor > 0 {
            self.cursor = self.cursor - 1;
        }
    }

    /// Moves the highlight one match down, stopping at the last.
    pub fn down(&mut self)
        requires
            old(self).wf(),
        ensures
            final(self).wf(),
            final(self).all == old(self).all,
            final(self).filter == old(self).filter,
            final(self).matches == old(self).matches,
            final(self).cursor == (if old(self).cursor + 1 < old(self).matches@.len() { (old(self).cursor + 1) as usize } else { old(self).cursor }),
    {
        let n = self.matches.len();
        if n > 0 && self.cursor < n - 1 {
            self.cursor = self.cursor + 1;
        }
    }

    /// Appends a typed character to the filter and recomputes the matches.
    pub fn type_char(&mut self, c: char)
        ensures
            final(self).wf(),
            final(self).all == old(self).all,
            final(self).filter@ == old(self).filter@.push(c),
            final(self).matches@ == hits(string_views(old(self).all@), spec_lowercase(final(self).filter@)),
            final(self).cursor == 0,
    {
        self.filter = pushed(&self.filter, c);
        self.refilter();
    }

    /// Removes the last character of the filter, if any, and recomputes the
    /// matches.
    pub fn backspace(&mut self)
        ensures
            final(self).wf(),
            final(self).all == old(self).all,
            final(self).filter@ == (if old(self).filter@.len() > 0 { old(self).filter@.drop_last() } else { old(self).filter@ }),
            final(self).matches@ == hits(string_views(old(self).all@), spec_lowercase(final(self).filter@)),
            final(self).cursor == 0,
    {
        self.filter = popped(&self.filter);
        self.refilter();
    }
}

// ---------------------------------------------------------------------
// Command lines
// ---------------------------------------------------------------------

/// What a `hist` command line asks for.
pub enum HistAction {
    /// Record the command (the words after `--add` joined by spaces).
    Record { cmd: String },
    /// `--add` without a command: nothing to do.
    Ignore,
    /// Print the shell setup that records commands.
    Init,
    /// Open the picker.
    Pick,
}

/// The setup instructions that `hist --init` prints: shell hooks that
/// record each command line with `hist --add`.
pub const HIST_INIT: &'static str = "# fast hist: record each command in its folder's history.\n# bash: add to ~/.bashrc\n__fast_hist() { fast hist --add \"$(history 1 | sed 's/^ *[0-9]* *//')\"; }\nPROMPT_COMMAND=\"__fast_hist${PROMPT_COMMAND:+; $PROMPT_COMMAND}\"\n# zsh: add to ~/.zshrc\npreexec() { fast hist --add \"$1\"; }\n# then run `fast hist` (or fh) in a folder to pick one of its commands.\n";

/// What the arguments after `hist` ask for: `--add <cmd...>` records the
/// command words joined by spaces, `--init` the setup instructions, anything
/// else the picker.
pub fn hist_action(args: &Vec<String>) -> (r: HistAction)
    ensures
        args@.len() > 0 && args@[0]@ == "--add"@ ==> {
            if args@.len() > 1 {
                r matches HistAction::Record { cmd } && cmd@ == join(
                    string_views(args@.subrange(1, args@.len() as int)),
                    seq![' '],
                )
            } else {
                r is Ignore
            }
        },
        args@.len() > 0 && args@[0]@ == "--init"@ ==> r is Init,
        args@.len() == 0 || (args@[0]@ != "--add"@ && args@[0]@ != "--init"@) ==> r is Pick,
{
    proof {
        reveal_strlit("--add");
        reveal_strlit("--init");
        assert("--add"@.len() == 5);
        assert("--init"@.len() == 6);
    }
    if args.len() > 0 && crate::alias::is_word(&args[0], "--add") {
        if args.len() > 1 {
            HistAction::Record { cmd: join_words(args, 1) }
        } else {
            HistAction::Ignore
        }
    } else if args.len() > 0 && crate::alias::is_word(&args[0], "--init") {
        HistAction::Init
    } else {
        HistAction::Pick
    }
}

} // verus!
