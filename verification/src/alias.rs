//! Saved shell aliases.
//!
//! The alias file holds one alias per line, `name<TAB>command`, sorted.
//! This module reads that text into a name-to-command map, edits the map,
//! writes it back, decides what a command line asks for, and holds the
//! search picker.

use vstd::prelude::*;
use crate::text::{
    chars_eq, chars_of, extend_str, find_char, first_of, has_char, has_substring, is_ws, join,
    lemma_first_of_at, lemma_join_terminated, lemma_lines_newline, lemma_lines_terminated,
    lemma_trimmed_ends, lines, lower_contains, popped, pushed, slice_of, spec_lowercase,
    split_lines, str_has_char, string_of, string_views, strip_cr, to_lowercase, trim, trim_vec,
    views, join_words,
};
use crate::sort::{
    codes, is_stable_sort, key_views, lemma_lex_irrefl, lemma_lex_total, lex_lt, occurs,
    push_codes, stable_sort_order,
};

verus! {

/// The plain values of an alias: its name and its command.
pub type PairV = (Seq<char>, Seq<char>);

/// The plain values of a list of aliases.
pub open spec fn pair_views(ps: Seq<(String, String)>) -> Seq<PairV> {
    ps.map_values(|p: (String, String)| (p.0@, p.1@))
}

/// The map that a list of aliases defines; a later alias of a name
/// replaces an earlier one.
pub open spec fn pairs_map(ps: Seq<PairV>) -> Map<Seq<char>, Seq<char>>
    decreases ps.len(),
{
    if ps.len() == 0 {
        Map::empty()
    } else {
        pairs_map(ps.drop_last()).insert(ps.last().0, ps.last().1)
    }
}

/// No name occurs twice in the list.
pub open spec fn distinct_names(ps: Seq<PairV>) -> bool {
    forall|i: int, j: int| 0 <= i < j < ps.len() ==> ps[i].0 != ps[j].0
}

/// The map of a list with distinct names holds exactly its aliases.
pub proof fn lemma_pairs_map(ps: Seq<PairV>)
    requires
        distinct_names(ps),
    ensures
        forall|k: Seq<char>|
            #![trigger pairs_map(ps).contains_key(k)]
            pairs_map(ps).contains_key(k) <==> exists|i: int| 0 <= i < ps.len() && ps[i].0 == k,
        forall|i: int| 0 <= i < ps.len() ==> pairs_map(ps)[#[trigger] ps[i].0] == ps[i].1,
    decreases ps.len(),
{
    if ps.len() > 0 {
        let init = ps.drop_last();
        assert(distinct_names(init));
        lemma_pairs_map(init);
        let n = ps.len() - 1;
        assert forall|k: Seq<char>|
            #![trigger pairs_map(ps).contains_key(k)]
            pairs_map(ps).contains_key(k) <==> exists|i: int| 0 <= i < ps.len() && ps[i].0 == k by {
            if pairs_map(ps).contains_key(k) && k != ps[n].0 {
                assert(pairs_map(init).contains_key(k));
                let i = choose|i: int| 0 <= i < init.len() && init[i].0 == k;
                assert(ps[i] == init[i]);
            }
            if exists|i: int| 0 <= i < ps.len() && ps[i].0 == k {
                let i = choose|i: int| 0 <= i < ps.len() && ps[i].0 == k;
                if i < n {
                    assert(init[i] == ps[i]);
                }
            }
        }
        assert forall|i: int| 0 <= i < ps.len() implies pairs_map(ps)[#[trigger] ps[i].0] == ps[i].1 by {
            if i < n {
                assert(init[i] == ps[i]);
                assert(ps[i].0 != ps[n].0);
            }
        }
    }
}

/// The aliases, a map from names to commands held as a list in which no
/// name occurs twice (the order of the list does not matter).
pub struct Aliases {
    pairs: Vec<(String, String)>,
}

impl View for Aliases {
    type V = Map<Seq<char>, Seq<char>>;

    closed spec fn view(&self) -> Map<Seq<char>, Seq<char>> {
        pairs_map(pair_views(self.pairs@))
    }
}

impl Aliases {
    /// The list holds no name twice.
    pub closed spec fn wf(&self) -> bool {
        distinct_names(pair_views(self.pairs@))
    }

    /// No aliases.
    pub fn new() -> (r: Self)
        ensures
            r.wf(),
            r@ == Map::<Seq<char>, Seq<char>>::empty(),
    {
        let r = Aliases { pairs: Vec::new() };
        assert(pair_views(r.pairs@) =~= Seq::<PairV>::empty());
        r
    }

    /// The number of aliases.
    pub fn len(&self) -> (n: usize)
        requires
            self.wf(),
        ensures
            n == self@.dom().len(),
    {
        proof {
            self.lemma_dom_len();
        }
        self.pairs.len()
    }

    /// Whether there are no aliases.
    pub fn is_empty(&self) -> (b: bool)
        requires
            self.wf(),
        ensures
            b == (self@.dom().len() == 0),
    {
        self.len() == 0
    }

    /// The map has as many names as the list has aliases.
    proof fn lemma_dom_len(&self)
        requires
            self.wf(),
        ensures
            self@.dom().finite(),
            self@.dom().len() == self.pairs@.len(),
    {
        let ps = pair_views(self.pairs@);
        lemma_map_dom_len(ps);
    }

    /// Where `name` sits in the list, if anywhere.
    fn position(&self, name: &str) -> (r: Option<usize>)
        requires
            self.wf(),
        ensures
            r matches Some(i) ==> i < self.pairs@.len() && self.pairs@[i as int].0@ == name@,
            r is None ==> !self@.contains_key(name@),
    {
        let nv = chars_of(name);
        let mut i: usize = 0;
        while i < self.pairs.len()
            invariant
                self.wf(),
                nv@ == name@,
                i <= self.pairs.len(),
                forall|j: int| 0 <= j < i ==> self.pairs@[j].0@ != name@,
            decreases self.pairs.len() - i,
        {
            let kv = chars_of(self.pairs[i].0.as_str());
            if chars_eq(kv.as_slice(), nv.as_slice()) {
                return Some(i);
            }
            i = i + 1;
        }
        proof {
            let ps = pair_views(self.pairs@);
            lemma_pairs_map(ps);
            if self@.contains_key(name@) {
                let j = choose|j: int| 0 <= j < ps.len() && ps[j].0 == name@;
                assert(ps[j].0 == self.pairs@[j].0@);
            }
        }
        None
    }

    /// The command of alias `name`, if there is one.
    pub fn get(&self, name: &str) -> (r: Option<String>)
        requires
            self.wf(),
        ensures
            self@.contains_key(name@) ==> (r matches Some(c) && c@ == self@[name@]),
            !self@.contains_key(name@) ==> r is None,
    {
        match self.position(name) {
            Some(i) => {
                proof {
                    let ps = pair_views(self.pairs@);
                    lemma_pairs_map(ps);
                    assert(ps[i as int].0 == name@);
                    assert(self@.contains_key(name@));
                }
                Some(self.pairs[i].1.clone())
            },
            None => None,
        }
    }

    /// Sets the command of alias `name`, replacing any earlier one.
    pub fn insert(&mut self, name: String, cmd: String)
        requires
            old(self).wf(),
        ensures
            final(self).wf(),
            final(self)@ == old(self)@.insert(name@, cmd@),
    {
        let ghost old_ps = pair_views(self.pairs@);
        let ghost nv = name@;
        let ghost cv = cmd@;
        match self.position(name.as_str()) {
            Some(i) => {
                self.pairs.set(i, (name, cmd));
                proof {
                    let ps = pair_views(self.pairs@);
                    assert(ps =~= old_ps.update(i as int, (nv, cv)));
                    assert(old_ps[i as int].0 == nv);
                    assert forall|a: int, b: int| 0 <= a < b < ps.len() implies ps[a].0 != ps[b].0 by {
                        assert(ps[a].0 == old_ps[a].0);
                        assert(ps[b].0 == old_ps[b].0);
                    }
                    lemma_pairs_map(old_ps);
                    lemma_pairs_map(ps);
                    assert(self@ =~= pairs_map(old_ps).insert(nv, cv)) by {
                        assert forall|k: Seq<char>| #[trigger] self@.contains_key(k) <==> pairs_map(old_ps).insert(nv, cv).contains_key(k) by {
                            if self@.contains_key(k) {
                                let j = choose|j: int| 0 <= j < ps.len() && ps[j].0 == k;
                                if j != i {
                                    assert(old_ps[j] == ps[j]);
                                }
                            }
                            if pairs_map(old_ps).contains_key(k) {
                                let j = choose|j: int| 0 <= j < old_ps.len() && old_ps[j].0 == k;
                                if j != i {
                                    assert(old_ps[j] == ps[j]);
                                } else {
                                    assert(ps[j].0 == k);
                                }
                            }
                            if k == nv {
                                assert(ps[i as int].0 == k);
                            }
                        }
                        assert forall|k: Seq<char>| #[trigger] self@.contains_key(k) implies self@[k] == pairs_map(old_ps).insert(nv, cv)[k] by {
                            let j = choose|j: int| 0 <= j < ps.len() && ps[j].0 == k;
                            if j != i {
                                assert(old_ps[j] == ps[j]);
                                assert(old_ps[j].0 != old_ps[i as int].0);
                                assert(k != nv);
                            } else {
                                assert(k == nv);
                                assert(self@[k] == ps[j].1);
                            }
                        }
                    }
                }
            },
            None => {
                self.pairs.push((name, cmd));
                proof {
                    let ps = pair_views(self.pairs@);
                    assert(ps =~= old_ps.push((nv, cv)));
                    assert(ps.drop_last() =~= old_ps);
                    lemma_pairs_map(old_ps);
                    assert forall|a: int, b: int| 0 <= a < b < ps.len() implies ps[a].0 != ps[b].0 by {
                        if b == ps.len() - 1 {
                            assert(old_ps[a] == ps[a]);
                            assert(pairs_map(old_ps).contains_key(old_ps[a].0));
                        } else {
                            assert(old_ps[a] == ps[a] && old_ps[b] == ps[b]);
                        }
                    }
                }
            },
        }
    }

    /// Removes alias `name`; says whether there was one.
    pub fn remove(&mut self, name: &str) -> (found: bool)
        requires
            old(self).wf(),
        ensures
            final(self).wf(),
            found == old(self)@.contains_key(name@),
            final(self)@ == old(self)@.remove(name@),
    {
        let ghost old_ps = pair_views(self.pairs@);
        match self.position(name) {
            Some(i) => {
                self.pairs.remove(i);
                proof {
                    let ps = pair_views(self.pairs@);
                    assert(ps =~= old_ps.remove(i as int));
                    lemma_pairs_map(old_ps);
                    assert forall|a: int, b: int| 0 <= a < b < ps.len() implies ps[a].0 != ps[b].0 by {
                        if a < i && b < i {
                            assert(ps[a] == old_ps[a] && ps[b] == old_ps[b]);
                        } else if a < i {
                            assert(ps[a] == old_ps[a] && ps[b] == old_ps[b + 1]);
                        } else {
                            assert(ps[a] == old_ps[a + 1] && ps[b] == old_ps[b + 1]);
                        }
                    }
                    lemma_pairs_map(ps);
                    assert(old_ps[i as int].0 == name@);
                    assert(self@ =~= pairs_map(old_ps).remove(name@)) by {
                        assert forall|k: Seq<char>| #[trigger] self@.contains_key(k) <==> pairs_map(old_ps).remove(name@).contains_key(k) by {
                            if self@.contains_key(k) {
                                let j = choose|j: int| 0 <= j < ps.len() && ps[j].0 == k;
                                if j < i {
                                    assert(old_ps[j] == ps[j]);
                                } else {
                                    assert(old_ps[j + 1] == ps[j]);
                                }
                            }
                            if pairs_map(old_ps).remove(name@).contains_key(k) {
                                let j = choose|j: int| 0 <= j < old_ps.len() && old_ps[j].0 == k;
                                if j < i {
                                    assert(old_ps[j] == ps[j]);
                                } else if j > i {
                                    assert(old_ps[j] == ps[j - 1]);
                                }
                            }
                        }
                        assert forall|k: Seq<char>| #[trigger] self@.contains_key(k) implies self@[k] == pairs_map(old_ps).remove(name@)[k] by {
                            let j = choose|j: int| 0 <= j < ps.len() && ps[j].0 == k;
                            if j < i {
                                assert(old_ps[j] == ps[j]);
                            } else {
                                assert(old_ps[j + 1] == ps[j]);
                            }
                        }
                    }
                }
                true
            },
            None => {
                assert(pairs_map(old_ps).remove(name@) =~= pairs_map(old_ps));
                false
            },
        }
    }
}

/// A list with distinct names defines a map with one name per alias.
proof fn lemma_map_dom_len(ps: Seq<PairV>)
    requires
        distinct_names(ps),
    ensures
        pairs_map(ps).dom().finite(),
        pairs_map(ps).dom().len() == ps.len(),
    decreases ps.len(),
{
    if ps.len() > 0 {
        let init = ps.drop_last();
        assert(distinct_names(init));
        lemma_map_dom_len(init);
        lemma_pairs_map(init);
        if pairs_map(init).contains_key(ps.last().0) {
            let i = choose|i: int| 0 <= i < init.len() && init[i].0 == ps.last().0;
            assert(ps[i] == init[i]);
        }
    }
}

// ---------------------------------------------------------------------
// Reading the alias text
// ---------------------------------------------------------------------

/// The alias that one line of the alias text holds: the trimmed text
/// before its first tab and the trimmed rest, when both are nonempty.
pub open spec fn parse_alias_line(l: Seq<char>) -> Option<PairV> {
    let t = first_of(l, '\t');
    if t < 0 {
        None
    } else {
        let name = trim(l.subrange(0, t));
        let cmd = trim(l.subrange(t + 1, l.len() as int));
        if name.len() == 0 || cmd.len() == 0 {
            None
        } else {
            Some((name, cmd))
        }
    }
}

/// The alias an optional result contributes.
pub open spec fn opt_pair(o: Option<PairV>) -> Seq<PairV> {
    match o {
        Some(p) => seq![p],
        None => seq![],
    }
}

/// The aliases of a list of lines, in order.
pub open spec fn parse_alias_lines(ls: Seq<Seq<char>>) -> Seq<PairV>
    decreases ls.len(),
{
    if ls.len() == 0 {
        seq![]
    } else {
        opt_pair(parse_alias_line(ls[0])) + parse_alias_lines(ls.drop_first())
    }
}

/// The aliases that the alias text defines; a later line for a name
/// replaces an earlier one.
pub open spec fn alias_map(content: Seq<char>) -> Map<Seq<char>, Seq<char>> {
    pairs_map(parse_alias_lines(lines(content)))
}

/// Parsing a list of lines distributes over concatenation.
pub proof fn lemma_parse_alias_lines_append(a: Seq<Seq<char>>, b: Seq<Seq<char>>)
    ensures
        parse_alias_lines(a + b) == parse_alias_lines(a) + parse_alias_lines(b),
    decreases a.len(),
{
    if a.len() == 0 {
        assert(a + b =~= b);
        assert(parse_alias_lines(a + b) =~= parse_alias_lines(a) + parse_alias_lines(b));
    } else {
        assert((a + b).drop_first() =~= a.drop_first() + b);
        assert((a + b)[0] == a[0]);
        lemma_parse_alias_lines_append(a.drop_first(), b);
        assert(parse_alias_lines(a + b) =~= parse_alias_lines(a) + parse_alias_lines(b));
    }
}

/// The aliases of a single line.
pub proof fn lemma_parse_alias_one(l: Seq<char>)
    ensures
        parse_alias_lines(seq![l]) == opt_pair(parse_alias_line(l)),
{
    assert(seq![l].drop_first() =~= Seq::<Seq<char>>::empty());
    assert(seq![l][0] == l);
    assert(parse_alias_lines(Seq::<Seq<char>>::empty()) =~= Seq::<PairV>::empty());
    assert(parse_alias_lines(seq![l]) =~= opt_pair(parse_alias_line(l)));
}

/// Reads one line of the alias text.
fn parse_alias_chars(l: &Vec<char>) -> (r: Option<(String, String)>)
    ensures
        r matches Some(p) ==> parse_alias_line(l@) == Some((p.0@, p.1@)),
        r is None ==> parse_alias_line(l@) is None,
{
    let n = l.len();
    assert(l@.subrange(0, n as int) =~= l@);
    let t = match find_char(l, 0, '\t') {
        Some(k) => k,
        None => {
            return None;
        },
    };
    proof {
        lemma_first_of_at(l@, '\t', t as int);
    }
    let name = trim_vec(&slice_of(l, 0, t));
    let cmd = trim_vec(&slice_of(l, t + 1, n));
    if name.len() == 0 || cmd.len() == 0 {
        return None;
    }
    Some((string_of(name.as_slice()), string_of(cmd.as_slice())))
}

impl Aliases {
    /// The aliases that the alias text defines.
    pub fn load(content: &str) -> (r: Self)
        ensures
            r.wf(),
            r@ == alias_map(content@),
    {
        let v = chars_of(content);
        let ls = split_lines(&v);
        let ghost lv = views(ls@);
        let mut m = Aliases::new();
        let mut i: usize = 0;
        while i < ls.len()
            invariant
                i <= ls.len(),
                lv == views(ls@),
                lv == lines(content@),
                m.wf(),
                m@ == pairs_map(parse_alias_lines(lv.take(i as int))),
            decreases ls.len() - i,
        {
            let parsed = parse_alias_chars(&ls[i]);
            proof {
                assert(lv.take(i + 1) =~= lv.take(i as int) + seq![lv[i as int]]);
                lemma_parse_alias_lines_append(lv.take(i as int), seq![lv[i as int]]);
                lemma_parse_alias_one(lv[i as int]);
                assert(lv[i as int] == ls@[i as int]@);
            }
            let ghost before = parse_alias_lines(lv.take(i as int));
            match parsed {
                Some(p) => {
                    let ghost pv = (p.0@, p.1@);
                    m.insert(p.0, p.1);
                    proof {
                        assert(parse_alias_lines(lv.take(i + 1)) =~= before.push(pv));
                        assert(before.push(pv).drop_last() =~= before);
                    }
                },
                None => {
                    assert(parse_alias_lines(lv.take(i + 1)) =~= before);
                },
            }
            i = i + 1;
        }
        assert(lv.take(ls.len() as int) =~= lv);
        m
    }
}

// ---------------------------------------------------------------------
// Writing the alias text
// ---------------------------------------------------------------------

/// The line that holds an alias.
pub open spec fn alias_line(p: PairV) -> Seq<char> {
    p.0 + seq!['\t'] + p.1
}

/// `ks` lists the names of `m` once each, and `ls` holds their lines in
/// that order, sorted by text.
pub open spec fn listing_of(ks: Seq<Seq<char>>, ls: Seq<Seq<char>>, m: Map<Seq<char>, Seq<char>>) -> bool {
    &&& ks.no_duplicates()
    &&& ks.to_set() == m.dom()
    &&& ls.len() == ks.len()
    &&& forall|i: int| 0 <= i < ls.len() ==> #[trigger] ls[i] == alias_line((ks[i], m[ks[i]]))
    &&& forall|i: int, j: int| 0 <= i < j < ls.len() ==> !lex_lt(codes(#[trigger] ls[j]), codes(#[trigger] ls[i]))
}

/// `t` is the alias text of `m`: the lines of its aliases in sorted order,
/// joined by newlines, with a final newline.
pub open spec fn is_saved_text(t: Seq<char>, m: Map<Seq<char>, Seq<char>>) -> bool {
    exists|ks: Seq<Seq<char>>, ls: Seq<Seq<char>>|
        #[trigger] listing_of(ks, ls, m) && t == join(ls, seq!['\n']) + seq!['\n']
}

impl Aliases {
    /// The alias text that holds these aliases.
    pub fn save(&self) -> (r: String)
        requires
            self.wf(),
        ensures
            is_saved_text(r@, self@),
    {
        let ghost ps = pair_views(self.pairs@);
        let ghost m = self@;
        proof {
            lemma_pairs_map(ps);
        }
        let n = self.pairs.len();
        let mut lines_v: Vec<Vec<char>> = Vec::new();
        let mut keys: Vec<Vec<u64>> = Vec::new();
        let mut i: usize = 0;
        while i < n
            invariant
                n == self.pairs.len(),
                ps == pair_views(self.pairs@),
                i <= n,
                lines_v@.len() == i,
                keys@.len() == i,
                forall|k: int| 0 <= k < i ==> #[trigger] lines_v@[k]@ == alias_line(ps[k]),
                forall|k: int| 0 <= k < i ==> #[trigger] keys@[k]@ == codes(alias_line(ps[k])),
            decreases n - i,
        {
            let mut line: Vec<char> = Vec::new();
            extend_str(&mut line, self.pairs[i].0.as_str());
            line.push('\t');
            extend_str(&mut line, self.pairs[i].1.as_str());
            assert(line@ =~= alias_line(ps[i as int]));
            let mut key: Vec<u64> = Vec::new();
            push_codes(&mut key, line.as_slice());
            assert(key@ =~= codes(alias_line(ps[i as int])));
            lines_v.push(line);
            keys.push(key);
            i = i + 1;
        }
        let ghost kv = key_views(keys@);
        assert(kv =~= Seq::new(n as nat, |k: int| codes(alias_line(ps[k]))));
        let p = stable_sort_order(&keys);
        let mut out: Vec<char> = Vec::new();
        let ghost ls = p@.map_values(|q: usize| alias_line(ps[q as int]));
        let ghost ks = p@.map_values(|q: usize| ps[q as int].0);
        let mut j: usize = 0;
        while j < p.len()
            invariant
                n == self.pairs.len(),
                ps == pair_views(self.pairs@),
                lines_v@.len() == n,
                forall|k: int| 0 <= k < n ==> #[trigger] lines_v@[k]@ == alias_line(ps[k]),
                p@.len() == n,
                forall|a: int| 0 <= a < n ==> (#[trigger] p@[a] as int) < n,
                ls == p@.map_values(|q: usize| alias_line(ps[q as int])),
                j <= p.len(),
                out@ == join(ls.take(j as int), seq!['\n']),
            decreases p.len() - j,
        {
            if j > 0 {
                out.push('\n');
            }
            let q = p[j];
            let ghost before = out@;
            let src = lines_v[q].as_slice();
            crate::text::extend(&mut out, src);
            proof {
                let t = ls.take(j + 1);
                assert(t.drop_last() =~= ls.take(j as int));
                assert(t.last() == alias_line(ps[q as int]));
                assert(out@ =~= join(t, seq!['\n']));
            }
            j = j + 1;
        }
        out.push('\n');
        assert(ls.take(p@.len() as int) =~= ls);
        proof {
            self.lemma_listing(p@, ks, ls, kv);
            assert(out@ == join(ls, seq!['\n']) + seq!['\n']);
        }
        let r = string_of(out.as_slice());
        assert(listing_of(ks, ls, self@) && r@ == join(ls, seq!['\n']) + seq!['\n']);
        r
    }

    /// A permutation of the list names each alias once.
    proof fn lemma_perm_names(&self, p: Seq<usize>, ks: Seq<Seq<char>>)
        requires
            self.wf(),
            crate::sort::is_permutation(p, self.pairs@.len() as nat),
            ks == p.map_values(|q: usize| pair_views(self.pairs@)[q as int].0),
        ensures
            ks.no_duplicates(),
            ks.to_set() == self@.dom(),
            forall|i: int| 0 <= i < ks.len() ==> self@.contains_key(#[trigger] ks[i]),
            forall|i: int| 0 <= i < ks.len() ==> self@[#[trigger] ks[i]] == pair_views(self.pairs@)[p[i] as int].1,
    {
        let ps = pair_views(self.pairs@);
        let m = self@;
        lemma_pairs_map(ps);
        assert forall|a: int, b: int| 0 <= a < b < ks.len() implies ks[a] != ks[b] by {
            assert(p[a] != p[b]);
        }
        assert forall|x: Seq<char>| ks.to_set().contains(x) <==> m.dom().contains(x) by {
            if ks.to_set().contains(x) {
                let a = choose|a: int| 0 <= a < ks.len() && ks[a] == x;
                assert(ps[p[a] as int].0 == x);
                assert(m.contains_key(x));
            }
            if m.dom().contains(x) {
                let j = choose|j: int| 0 <= j < ps.len() && ps[j].0 == x;
                assert(occurs(p, j));
                let a = choose|a: int| 0 <= a < p.len() && #[trigger] p[a] as int == j;
                assert(ks[a] == x);
            }
        }
        assert(ks.to_set() =~= m.dom());
        assert forall|i: int| 0 <= i < ks.len() implies self@.contains_key(#[trigger] ks[i]) by {
            assert(ps[p[i] as int].0 == ks[i]);
        }
        assert forall|i: int| 0 <= i < ks.len() implies self@[#[trigger] ks[i]] == ps[p[i] as int].1 by {
            assert(ps[p[i] as int].0 == ks[i]);
        }
    }

    /// The sorted order of the lines lists every name once.
    proof fn lemma_listing(&self, p: Seq<usize>, ks: Seq<Seq<char>>, ls: Seq<Seq<char>>, kv: Seq<Seq<u64>>)
        requires
            self.wf(),
            kv == Seq::new(self.pairs@.len() as nat, |k: int| codes(alias_line(pair_views(self.pairs@)[k]))),
            is_stable_sort(kv, p),
            ks == p.map_values(|q: usize| pair_views(self.pairs@)[q as int].0),
            ls == p.map_values(|q: usize| alias_line(pair_views(self.pairs@)[q as int])),
        ensures
            listing_of(ks, ls, self@),
    {
        let ps = pair_views(self.pairs@);
        let m = self@;
        self.lemma_perm_names(p, ks);
        assert forall|i: int| 0 <= i < ls.len() implies #[trigger] ls[i] == alias_line((ks[i], m[ks[i]])) by {
            assert(m[ks[i]] == ps[p[i] as int].1);
        }
        assert forall|i: int, j: int| 0 <= i < j < ls.len() implies !lex_lt(codes(#[trigger] ls[j]), codes(#[trigger] ls[i])) by {
            assert(kv[p[i] as int] == codes(ls[i]));
            assert(kv[p[j] as int] == codes(ls[j]));
            lemma_lex_total(codes(ls[i]), codes(ls[j]));
            lemma_lex_irrefl(codes(ls[i]));
        }
    }

    /// The aliases sorted by name, as `fast alias list` prints them.
    pub fn sorted(&self) -> (r: Vec<(String, String)>)
        requires
            self.wf(),
        ensures
            exists|ks: Seq<Seq<char>>| #[trigger] name_listing(ks, pair_views(r@), self@),
    {
        let ghost ps = pair_views(self.pairs@);
        let n = self.pairs.len();
        let mut keys: Vec<Vec<u64>> = Vec::new();
        let mut i: usize = 0;
        while i < n
            invariant
                n == self.pairs.len(),
                ps == pair_views(self.pairs@),
                i <= n,
                keys@.len() == i,
                forall|k: int| 0 <= k < i ==> #[trigger] keys@[k]@ == codes(ps[k].0),
            decreases n - i,
        {
            let nv = chars_of(self.pairs[i].0.as_str());
            let mut key: Vec<u64> = Vec::new();
            push_codes(&mut key, nv.as_slice());
            keys.push(key);
            i = i + 1;
        }
        let ghost kv = key_views(keys@);
        assert(kv =~= Seq::new(n as nat, |k: int| codes(ps[k].0)));
        let p = stable_sort_order(&keys);
        let ghost ks = p@.map_values(|q: usize| ps[q as int].0);
        let mut out: Vec<(String, String)> = Vec::new();
        let mut j: usize = 0;
        while j < p.len()
            invariant
                n == self.pairs.len(),
                ps == pair_views(self.pairs@),
                p@.len() == n,
                forall|a: int| 0 <= a < n ==> (#[trigger] p@[a] as int) < n,
                j <= p.len(),
                pair_views(out@) == p@.take(j as int).map_values(|q: usize| ps[q as int]),
            decreases p.len() - j,
        {
            let q = p[j];
            let item = (self.pairs[q].0.clone(), self.pairs[q].1.clone());
            let ghost before = out@;
            let ghost iv = (item.0@, item.1@);
            assert(iv == ps[q as int]);
            out.push(item);
            assert(pair_views(out@) =~= pair_views(before).push(iv));
            assert(p@.take(j + 1) =~= p@.take(j as int).push(q));
            assert(pair_views(out@) =~= p@.take(j + 1).map_values(|q: usize| ps[q as int]));
            j = j + 1;
        }
        assert(p@.take(p@.len() as int) =~= p@);
        proof {
            self.lemma_perm_names(p@, ks);
            let rv = pair_views(out@);
            assert forall|a: int| 0 <= a < rv.len() implies #[trigger] rv[a] == (ks[a], self@[ks[a]]) by {}
            assert forall|a: int, b: int| 0 <= a < b < rv.len() implies !lex_lt(codes(#[trigger] ks[b]), codes(#[trigger] ks[a])) by {
                assert(kv[p@[a] as int] == codes(ks[a]));
                assert(kv[p@[b] as int] == codes(ks[b]));
                lemma_lex_total(codes(ks[a]), codes(ks[b]));
                lemma_lex_irrefl(codes(ks[a]));
            }
            assert(name_listing(ks, rv, self@));
        }
        out
    }
}

/// `ks` lists the names of `m` once each, sorted by text, and `rv` holds
/// their aliases in that order.
pub open spec fn name_listing(ks: Seq<Seq<char>>, rv: Seq<PairV>, m: Map<Seq<char>, Seq<char>>) -> bool {
    &&& ks.no_duplicates()
    &&& ks.to_set() == m.dom()
    &&& rv.len() == ks.len()
    &&& forall|i: int| 0 <= i < rv.len() ==> #[trigger] rv[i] == (ks[i], m[ks[i]])
    &&& forall|i: int, j: int| 0 <= i < j < ks.len() ==> !lex_lt(codes(#[trigger] ks[j]), codes(#[trigger] ks[i]))
}

// ---------------------------------------------------------------------
// Saving then loading gives back the aliases
// ---------------------------------------------------------------------

/// An alias that its line holds faithfully: a trimmed nonempty name
/// without tabs or newlines, and a trimmed nonempty command without
/// newlines.
pub open spec fn well_formed(p: PairV) -> bool {
    &&& p.0.len() > 0
    &&& !has_char(p.0, '\t')
    &&& !has_char(p.0, '\n')
    &&& trim(p.0) == p.0
    &&& p.1.len() > 0
    &&& !has_char(p.1, '\n')
    &&& trim(p.1) == p.1
}

/// Every alias of `m` is well formed.
pub open spec fn well_formed_map(m: Map<Seq<char>, Seq<char>>) -> bool {
    forall|k: Seq<char>| #[trigger] m.contains_key(k) ==> well_formed((k, m[k]))
}

/// The line of a well-formed alias reads back as that alias.
pub proof fn lemma_parse_alias_line(p: PairV)
    requires
        well_formed(p),
    ensures
        parse_alias_line(alias_line(p)) == Some(p),
{
    let l = alias_line(p);
    assert(l[p.0.len() as int] == '\t');
    assert forall|j: int| 0 <= j < p.0.len() implies l[j] != '\t' by {
        assert(l[j] == p.0[j]);
    }
    lemma_first_of_at(l, '\t', p.0.len() as int);
    assert(l.subrange(0, p.0.len() as int) =~= p.0);
    assert(l.subrange(p.0.len() as int + 1, l.len() as int) =~= p.1);
}

/// The alias text of well-formed aliases reads back as those aliases.
pub proof fn lemma_save_load(m: Map<Seq<char>, Seq<char>>, t: Seq<char>)
    requires
        well_formed_map(m),
        is_saved_text(t, m),
    ensures
        alias_map(t) == m,
{
    let (ks, ls) = choose|ks: Seq<Seq<char>>, ls: Seq<Seq<char>>|
        #[trigger] listing_of(ks, ls, m) && t == join(ls, seq!['\n']) + seq!['\n'];
    let ps = ks.map_values(|k: Seq<char>| (k, m[k]));
    if ls.len() == 0 {
        assert(ls =~= Seq::<Seq<char>>::empty());
        assert(t =~= seq!['\n']);
        lemma_lines_newline();
        let e0 = Seq::<char>::empty();
        crate::text::lemma_first_of_none(e0, '\t');
        lemma_parse_alias_one(e0);
        assert(alias_map(t) =~= Map::<Seq<char>, Seq<char>>::empty());
        assert forall|k: Seq<char>| !m.contains_key(k) by {
            if m.contains_key(k) {
                assert(ks.to_set().contains(k));
            }
        }
        assert(m =~= Map::<Seq<char>, Seq<char>>::empty());
    } else {
        assert forall|i: int| 0 <= i < ls.len() implies !has_char(#[trigger] ls[i], '\n') && strip_cr(ls[i]) == ls[i] by {
            let k = ks[i];
            assert(ks.to_set().contains(k));
            assert(m.contains_key(k));
            let p = (k, m[k]);
            assert(well_formed(p));
            assert(ls[i] =~= k + seq!['\t'] + m[k]);
            if has_char(ls[i], '\n') {
                let x = choose|x: int| 0 <= x < ls[i].len() && ls[i][x] == '\n';
                if x < k.len() {
                    assert(k[x] == '\n');
                } else if x > k.len() {
                    assert(m[k][x - k.len() - 1] == '\n');
                }
            }
            lemma_trimmed_ends(m[k]);
            assert(ls[i].last() == m[k].last());
        }
        assert forall|i: int| 0 <= i < ls.len() implies !has_char(#[trigger] ls[i], '\n') by {}
        assert forall|i: int| 0 <= i < ls.len() implies strip_cr(#[trigger] ls[i]) == ls[i] by {}
        lemma_join_terminated(ls);
        lemma_lines_terminated(ls);
        lemma_parse_listing(ks, ls, m);
        assert(distinct_names(ps)) by {
            assert forall|i: int, j: int| 0 <= i < j < ps.len() implies ps[i].0 != ps[j].0 by {
                assert(ks[i] != ks[j]);
            }
        }
        lemma_pairs_map(ps);
        assert forall|k: Seq<char>| #[trigger] pairs_map(ps).contains_key(k) <==> m.contains_key(k) by {
            if pairs_map(ps).contains_key(k) {
                let i = choose|i: int| 0 <= i < ps.len() && ps[i].0 == k;
                assert(ks.to_set().contains(ks[i]));
            }
            if m.contains_key(k) {
                assert(ks.to_set().contains(k));
                let i = choose|i: int| 0 <= i < ks.len() && ks[i] == k;
                assert(ps[i].0 == k);
            }
        }
        assert forall|k: Seq<char>| #[trigger] pairs_map(ps).contains_key(k) implies pairs_map(ps)[k] == m[k] by {
            let i = choose|i: int| 0 <= i < ps.len() && ps[i].0 == k;
            assert(pairs_map(ps)[ps[i].0] == ps[i].1);
        }
        assert(pairs_map(ps) =~= m);
    }
}

/// The lines of a listing read back as its aliases, in listing order.
proof fn lemma_parse_listing(ks: Seq<Seq<char>>, ls: Seq<Seq<char>>, m: Map<Seq<char>, Seq<char>>)
    requires
        well_formed_map(m),
        ls.len() == ks.len(),
        forall|i: int| 0 <= i < ks.len() ==> m.contains_key(#[trigger] ks[i]),
        forall|i: int| 0 <= i < ls.len() ==> #[trigger] ls[i] == alias_line((ks[i], m[ks[i]])),
    ensures
        parse_alias_lines(ls) == ks.map_values(|k: Seq<char>| (k, m[k])),
    decreases ls.len(),
{
    if ls.len() > 0 {
        assert(m.contains_key(ks[0]));
        assert(ls[0] == alias_line((ks[0], m[ks[0]])));
        lemma_parse_alias_line((ks[0], m[ks[0]]));
        assert forall|i: int| 0 <= i < ks.drop_first().len() implies m.contains_key(#[trigger] ks.drop_first()[i]) by {
            assert(ks.drop_first()[i] == ks[i + 1]);
        }
        assert forall|i: int| 0 <= i < ls.drop_first().len() implies #[trigger] ls.drop_first()[i] == alias_line(
            (ks.drop_first()[i], m[ks.drop_first()[i]]),
        ) by {
            assert(ls.drop_first()[i] == ls[i + 1]);
            assert(ks.drop_first()[i] == ks[i + 1]);
        }
        lemma_parse_listing(ks.drop_first(), ls.drop_first(), m);
        assert(parse_alias_lines(ls) =~= ks.map_values(|k: Seq<char>| (k, m[k])));
    } else {
        assert(ks.map_values(|k: Seq<char>| (k, m[k])) =~= Seq::<PairV>::empty());
    }
}

/// After an alias is added to well-formed aliases and the result saved,
/// the saved text gives the new command for that name.
pub proof fn lemma_add_then_run(
    m: Map<Seq<char>, Seq<char>>,
    name: Seq<char>,
    cmd: Seq<char>,
    t: Seq<char>,
)
    requires
        well_formed_map(m),
        well_formed((name, cmd)),
        is_saved_text(t, m.insert(name, cmd)),
    ensures
        alias_map(t).contains_key(name),
        alias_map(t)[name] == cmd,
{
    let m2 = m.insert(name, cmd);
    assert forall|k: Seq<char>| #[trigger] m2.contains_key(k) implies well_formed((k, m2[k])) by {
        if k != name {
            assert(m.contains_key(k));
        }
    }
    lemma_save_load(m2, t);
}

// ---------------------------------------------------------------------
// Command lines
// ---------------------------------------------------------------------

/// Whether a text would break the one-line format of the alias file: it
/// holds a tab, a newline or a NUL.
pub open spec fn breaks_format(s: Seq<char>) -> bool {
    has_char(s, '\t') || has_char(s, '\n') || has_char(s, '\0')
}

/// What an `alias` command line asks for.
pub enum AliasAction {
    /// Save alias `name` with command `cmd`.
    Add { name: String, cmd: String },
    /// `add` without a name and a command.
    AddUsage,
    /// `add` with a name that would break the file format.
    BadName,
    /// `add` with a command that would break the file format.
    BadCommand,
    /// Remove the named alias.
    Remove { name: String },
    /// `rm` without a name.
    RemoveUsage,
    /// List all aliases.
    List,
    /// Print the command of the named alias.
    Run { name: String },
    /// `run` without a name.
    RunUsage,
    /// Print the shell wrapper that runs aliases.
    Init,
    /// Open the picker.
    Pick,
}

/// The shell wrapper that `alias --init` prints: it defines `f <alias>`,
/// which runs the command saved under the alias.
pub const ALIAS_INIT: &'static str = "# fast alias: add these lines to ~/.bashrc or ~/.zshrc, then run `f <alias>`\nf() {\n  local cmd\n  cmd=\"$(fast alias run \"$1\")\" || return\n  [ -n \"$cmd\" ] && eval \"$cmd\"\n}\n";

/// Whether a text is exactly the word `w`.
pub fn is_word(s: &String, w: &str) -> (r: bool)
    ensures
        r == (s@ == w@),
{
    let a = chars_of(s.as_str());
    let b = chars_of(w);
    chars_eq(a.as_slice(), b.as_slice())
}

/// What the arguments after `alias` ask for: `add <name> <cmd...>` (the
/// command words joined by spaces), `rm <name>`, `list`, `run <name>`,
/// `--init` (the shell wrapper), or the picker for anything else.
pub fn alias_action(args: &Vec<String>) -> (r: AliasAction)
    ensures
        args@.len() > 0 && args@[0]@ == "add"@ ==> {
            if args@.len() < 3 {
                r is AddUsage
            } else if breaks_format(args@[1]@) {
                r is BadName
            } else if breaks_format(join(string_views(args@.subrange(2, args@.len() as int)), seq![' '])) {
                r is BadCommand
            } else {
                r matches AliasAction::Add { name, cmd } && name@ == args@[1]@ && cmd@ == join(
                    string_views(args@.subrange(2, args@.len() as int)),
                    seq![' '],
                )
            }
        },
        args@.len() > 0 && args@[0]@ == "rm"@ ==> {
            if args@.len() < 2 {
                r is RemoveUsage
            } else {
                r matches AliasAction::Remove { name } && name@ == args@[1]@
            }
        },
        args@.len() > 0 && args@[0]@ == "list"@ ==> r is List,
        args@.len() > 0 && args@[0]@ == "run"@ ==> {
            if args@.len() < 2 {
                r is RunUsage
            } else {
                r matches AliasAction::Run { name } && name@ == args@[1]@
            }
        },
        args@.len() > 0 && args@[0]@ == "--init"@ ==> r is Init,
        args@.len() == 0 || (args@[0]@ != "add"@ && args@[0]@ != "rm"@ && args@[0]@ != "list"@
            && args@[0]@ != "run"@ && args@[0]@ != "--init"@) ==> r is Pick,
{
    proof {
        reveal_strlit("add");
        reveal_strlit("rm");
        reveal_strlit("list");
        reveal_strlit("run");
        reveal_strlit("--init");
        assert("--init"@.len() == 6 && "--init"@[0] == '-');
        assert("add"@.len() == 3 && "add"@[0] == 'a');
        assert("rm"@.len() == 2 && "rm"@[0] == 'r');
        assert("list"@.len() == 4 && "list"@[0] == 'l');
        assert("run"@.len() == 3 && "run"@[0] == 'r');
    }
    if args.len() == 0 {
        return AliasAction::Pick;
    }
    let first = &args[0];
    if is_word(first, "add") {
        if args.len() < 3 {
            return AliasAction::AddUsage;
        }
        let name = args[1].clone();
        let cmd = join_words(args, 2);
        if str_has_char(name.as_str(), '\t') || str_has_char(name.as_str(), '\n') || str_has_char(
            name.as_str(),
            '\0',
        ) {
            return AliasAction::BadName;
        }
        if str_has_char(cmd.as_str(), '\t') || str_has_char(cmd.as_str(), '\n') || str_has_char(
            cmd.as_str(),
            '\0',
        ) {
            return AliasAction::BadCommand;
        }
        AliasAction::Add { name, cmd }
    } else if is_word(first, "rm") {
        if args.len() < 2 {
            return AliasAction::RemoveUsage;
        }
        AliasAction::Remove { name: args[1].clone() }
    } else if is_word(first, "list") {
        AliasAction::List
    } else if is_word(first, "run") {
        if args.len() < 2 {
            return AliasAction::RunUsage;
        }
        AliasAction::Run { name: args[1].clone() }
    } else if is_word(first, "--init") {
        AliasAction::Init
    } else {
        AliasAction::Pick
    }
}

/// `format!("{:<20}  {}", name, cmd)`: the name padded with spaces to
/// twenty characters, two spaces, then the command.
pub open spec fn alias_row_spec(name: Seq<char>, cmd: Seq<char>) -> Seq<char> {
    let pad = if name.len() < 20 { 20 - name.len() } else { 0 };
    name + Seq::new(pad as nat, |i: int| ' ') + seq![' ', ' '] + cmd
}

/// One row of the alias list.
pub fn alias_row(name: &str, cmd: &str) -> (r: String)
    ensures
        r@ == alias_row_spec(name@, cmd@),
{
    let mut out = chars_of(name);
    let n = out.len();
    let mut k: usize = n;
    while k < 20
        invariant
            n == name@.len(),
            n <= k <= 20 || (k == n && n >= 20),
            out@ == name@ + Seq::new((k - n) as nat, |i: int| ' '),
        decreases 20 - k,
    {
        out.push(' ');
        assert(out@ =~= name@ + Seq::new((k + 1 - n) as nat, |i: int| ' '));
        k = k + 1;
    }
    out.push(' ');
    out.push(' ');
    extend_str(&mut out, cmd);
    assert(out@ =~= alias_row_spec(name@, cmd@));
    string_of(out.as_slice())
}

// ---------------------------------------------------------------------
// The search picker
// ---------------------------------------------------------------------

/// The sort keys of a list of aliases: their names.
pub open spec fn name_keys(ps: Seq<PairV>) -> Seq<Seq<u64>> {
    ps.map_values(|p: PairV| codes(p.0))
}

/// Whether an alias matches the lower-cased filter `f` by name or command.
pub open spec fn pair_hit(p: PairV, f: Seq<char>) -> bool {
    has_substring(spec_lowercase(p.0), f) || has_substring(spec_lowercase(p.1), f)
}

/// The indices of the aliases that match `f`, in order.
pub open spec fn pair_hits(all: Seq<PairV>, f: Seq<char>) -> Seq<usize>
    decreases all.len(),
{
    if all.len() == 0 {
        seq![]
    } else {
        let r = pair_hits(all.drop_last(), f);
        if pair_hit(all.last(), f) {
            r.push((all.len() - 1) as usize)
        } else {
            r
        }
    }
}

/// Every hit indexes an alias that matches.
pub proof fn lemma_pair_hits(all: Seq<PairV>, f: Seq<char>)
    requires
        all.len() <= usize::MAX,
    ensures
        forall|k: int| 0 <= k < pair_hits(all, f).len() ==> (#[trigger] pair_hits(all, f)[k] as int) < all.len(),
        forall|k: int| 0 <= k < pair_hits(all, f).len() ==> pair_hit(all[#[trigger] pair_hits(all, f)[k] as int], f),
    decreases all.len(),
{
    if all.len() > 0 {
        lemma_pair_hits(all.drop_last(), f);
        let r = pair_hits(all.drop_last(), f);
        let h = pair_hits(all, f);
        assert forall|k: int| 0 <= k < h.len() implies pair_hit(all[#[trigger] h[k] as int], f) by {
            if k < r.len() {
                assert(h[k] == r[k]);
                assert(all[r[k] as int] == all.drop_last()[r[k] as int]);
            } else {
                assert(h[k] as int == all.len() - 1);
            }
        }
    }
}

/// The alias search lists exactly the aliases whose lower-cased name or
/// lower-cased command holds the filter somewhere, each once, in order.
pub proof fn lemma_pair_hits_exact(all: Seq<PairV>, f: Seq<char>)
    requires
        all.len() <= usize::MAX,
    ensures
        forall|k: int|
            0 <= k < all.len() ==> ((has_substring(spec_lowercase((#[trigger] all[k]).0), f) || has_substring(
                spec_lowercase(all[k].1),
                f,
            )) <==> exists|j: int| 0 <= j < pair_hits(all, f).len() && pair_hits(all, f)[j] == k),
        forall|i: int, j: int| 0 <= i < j < pair_hits(all, f).len() ==> pair_hits(all, f)[i] < pair_hits(all, f)[j],
    decreases all.len(),
{
    if all.len() > 0 {
        let init = all.drop_last();
        let n = all.len() - 1;
        lemma_pair_hits_exact(init, f);
        lemma_pair_hits(init, f);
        let r = pair_hits(init, f);
        let h = pair_hits(all, f);
        assert forall|k: int| 0 <= k < all.len() implies ((has_substring(spec_lowercase((#[trigger] all[k]).0), f) || has_substring(spec_lowercase(all[k].1), f))
            <==> exists|j: int| 0 <= j < h.len() && h[j] == k) by {
            if k < n {
                assert(all[k] == init[k]);
                if (has_substring(spec_lowercase(all[k].0), f) || has_substring(spec_lowercase(all[k].1), f)) {
                    let j = choose|j: int| 0 <= j < r.len() && r[j] == k;
                    assert(h[j] == r[j]);
                }
                if exists|j: int| 0 <= j < h.len() && h[j] == k {
                    let j = choose|j: int| 0 <= j < h.len() && h[j] == k;
                    if j < r.len() {
                        assert(h[j] == r[j]);
                    }
                }
            } else {
                if (has_substring(spec_lowercase(all[k].0), f) || has_substring(spec_lowercase(all[k].1), f)) {
                    assert(h[r.len() as int] == k);
                }
                if exists|j: int| 0 <= j < h.len() && h[j] == k {
                    let j = choose|j: int| 0 <= j < h.len() && h[j] == k;
                    if j < r.len() {
                        assert(h[j] == r[j]);
                        assert((r[j] as int) < init.len());
                    }
                }
            }
        }
        assert forall|i: int, j: int| 0 <= i < j < h.len() implies h[i] < h[j] by {
            if j < r.len() {
                assert(h[i] == r[i] && h[j] == r[j]);
            } else {
                assert(h[i] == r[i]);
                assert((r[i] as int) < init.len());
            }
        }
    }
}

/// The alias search: the aliases sorted by name, the typed filter, the
/// indices of the aliases that match it, and the highlighted position.
pub struct Picker {
    pub all: Vec<(String, String)>,
    pub filter: String,
    pub matches: Vec<usize>,
    pub cursor: usize,
}

impl Picker {
    /// The matches index the aliases, and the cursor lies on a match (or is
    /// 0 when there is none).
    pub open spec fn wf(&self) -> bool {
        &&& forall|k: int| 0 <= k < self.matches@.len() ==> (#[trigger] self.matches@[k] as int) < self.all@.len()
        &&& self.matches@.len() == 0 ==> self.cursor == 0
        &&& self.matches@.len() > 0 ==> self.cursor < self.matches@.len()
    }

    /// A picker over `items` sorted by name (a stable sort), with an empty
    /// filter: every alias matches.
    pub fn new(items: Vec<(String, String)>) -> (p: Self)
        ensures
            p.wf(),
            exists|q: Seq<usize>|
                #[trigger] is_stable_sort(name_keys(pair_views(items@)), q) && pair_views(p.all@)
                    == q.map_values(|j: usize| pair_views(items@)[j as int]),
            p.filter@ == Seq::<char>::empty(),
            p.matches@ == crate::hist::all_indices(items@.len()),
            p.cursor == 0,
    {
        let ghost iv = pair_views(items@);
        let n = items.len();
        let mut keys: Vec<Vec<u64>> = Vec::new();
        let mut i: usize = 0;
        while i < n
            invariant
                n == items.len(),
                iv == pair_views(items@),
                i <= n,
                keys@.len() == i,
                forall|k: int| 0 <= k < i ==> #[trigger] keys@[k]@ == codes(iv[k].0),
            decreases n - i,
        {
            let nv = chars_of(items[i].0.as_str());
            let mut key: Vec<u64> = Vec::new();
            push_codes(&mut key, nv.as_slice());
            keys.push(key);
            i = i + 1;
        }
        assert(key_views(keys@) =~= name_keys(iv));
        let q = stable_sort_order(&keys);
        let mut all: Vec<(String, String)> = Vec::new();
        let mut matches: Vec<usize> = Vec::new();
        let mut j: usize = 0;
        while j < q.len()
            invariant
                n == items.len(),
                iv == pair_views(items@),
                q@.len() == n,
                forall|a: int| 0 <= a < n ==> (#[trigger] q@[a] as int) < n,
                j <= q.len(),
                pair_views(all@) == q@.take(j as int).map_values(|x: usize| iv[x as int]),
                matches@ == crate::hist::all_indices(j as nat),
            decreases q.len() - j,
        {
            let x = q[j];
            let item = (items[x].0.clone(), items[x].1.clone());
            let ghost before = all@;
            let ghost itv = (item.0@, item.1@);
            assert(itv == iv[x as int]);
            all.push(item);
            assert(pair_views(all@) =~= pair_views(before).push(itv));
            assert(q@.take(j + 1) =~= q@.take(j as int).push(x));
            assert(pair_views(all@) =~= q@.take(j + 1).map_values(|x: usize| iv[x as int]));
            matches.push(j);
            assert(matches@ =~= crate::hist::all_indices((j + 1) as nat));
            j = j + 1;
        }
        assert(q@.take(q@.len() as int) =~= q@);
        Picker { all, filter: String::new(), matches, cursor: 0 }
    }

    /// Recomputes the matches for the current filter and moves the cursor to
    /// the first one.
    pub fn refilter(&mut self)
        ensures
            final(self).wf(),
            final(self).all == old(self).all,
            final(self).filter == old(self).filter,
            final(self).matches@ == pair_hits(pair_views(old(self).all@), spec_lowercase(old(self).filter@)),
            final(self).cursor == 0,
    {
        let low = to_lowercase(self.filter.as_str());
        let f = chars_of(low.as_str());
        let ghost av = pair_views(self.all@);
        let mut m: Vec<usize> = Vec::new();
        let mut i: usize = 0;
        while i < self.all.len()
            invariant
                i <= self.all.len(),
                av == pair_views(self.all@),
                m@ == pair_hits(av.take(i as int), f@),
            decreases self.all.len() - i,
        {
            let hit = lower_contains(self.all[i].0.as_str(), &f) || lower_contains(self.all[i].1.as_str(), &f);
            proof {
                assert(av.take(i + 1).drop_last() =~= av.take(i as int));
                assert(av.take(i + 1).last() == av[i as int]);
            }
            if hit {
                m.push(i);
            }
            i = i + 1;
        }
        assert(av.take(self.all.len() as int) =~= av);
        proof {
            lemma_pair_hits(av, f@);
        }
        self.matches = m;
        self.cursor = 0;
    }

    /// The command of the highlighted alias, if any alias matches.
    pub fn selected_cmd(&self) -> (r: Option<&str>)
        requires
            self.wf(),
        ensures
            self.cursor < self.matches@.len() ==> (r matches Some(s) && s@ == self.all@[self.matches@[self.cursor as int] as int].1@),
            self.cursor >= self.matches@.len() ==> r is None,
    {
        if self.cursor < self.matches.len() {
            let i = self.matches[self.cursor];
            Some(self.all[i].1.as_str())
        } else {
            None
        }
    }

    /// Moves the highlight one match up, stopping at the first.
    pub fn up(&mut self)
        requires
            old(self).wf(),
        ensures
            final(self).wf(),
            final(self).all == old(self).all,
            final(self).filter == old(self).filter,
            final(self).matches == old(self).matches,
            final(self).cursor == (if old(self).cursor > 0 { (old(self).cursor - 1) as usize } else { old(self).cursor }),
    {
        if self.cursor > 0 {
            self.cursor = self.cursor - 1;
        }
    }

    /// Moves the highlight one match down, stopping at the last.
    pub fn down(&mut self)
        requires
            old(self).wf(),
        ensures
            final(self).wf(),
            final(self).all == old(self).all,
            final(self).filter == old(self).filter,
            final(self).matches == old(self).matches,
            final(self).cursor == (if old(self).cursor + 1 < old(self).matches@.len() { (old(self).cursor + 1) as usize } else { old(self).cursor }),
    {
        let n = self.matches.len();
        if n > 0 && self.cursor < n - 1 {
            self.cursor = self.cursor + 1;
        }
    }

    /// Appends a typed character to the filter and recomputes the matches.
    pub fn type_char(&mut self, c: char)
        ensures
            final(self).wf(),
            final(self).all == old(self).all,
            final(self).filter@ == old(self).filter@.push(c),
            final(self).matches@ == pair_hits(pair_views(old(self).all@), spec_lowercase(final(self).filter@)),
            final(self).cursor == 0,
    {
        self.filter = pushed(&self.filter, c);
        self.refilter();
    }

    /// Removes the last character of the filter, if any, and recomputes the
    /// matches.
    pub fn backspace(&mut self)
        ensures
            final(self).wf(),
            final(self).all == old(self).all,
            final(self).filter@ == (if old(self).filter@.len() > 0 { old(self).filter@.drop_last() } else { old(self).filter@ }),
            final(self).matches@ == pair_hits(pair_views(old(self).all@), spec_lowercase(final(self).filter@)),
            final(self).cursor == 0,
    {
        self.filter = popped(&self.filter);
        self.refilter();
    }
}

} // verus!
