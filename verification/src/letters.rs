use vstd::prelude::*;

verus! {

/// The abstract content of a letter table: each letter with its positions,
/// in the order in which the letters were first recorded.
pub type Pairs = Seq<(char, Seq<usize>)>;

/// Index of the entry for `c` in `p`, or -1 when `p` has none.
pub open spec fn find_letter(p: Pairs, c: char) -> int
    decreases p.len(),
{
    if p.len() == 0 {
        -1
    } else if p.last().0 == c {
        p.len() - 1
    } else {
        find_letter(p.drop_last(), c)
    }
}

/// The positions recorded for `c` in `p`, if any.
pub open spec fn lookup(p: Pairs, c: char) -> Option<Seq<usize>> {
    let i = find_letter(p, c);
    if i >= 0 {
        Some(p[i].1)
    } else {
        None
    }
}

/// `p` with the positions of `c` set to `v`: an existing entry keeps its
/// place, a new letter goes at the end.
pub open spec fn put(p: Pairs, c: char, v: Seq<usize>) -> Pairs {
    let i = find_letter(p, c);
    if i >= 0 {
        p.update(i, (c, v))
    } else {
        p.push((c, v))
    }
}

/// `p` with `pos` added at the end of the positions of `c`.
pub open spec fn add_position(p: Pairs, c: char, pos: usize) -> Pairs {
    match lookup(p, c) {
        Some(v) => put(p, c, v.push(pos)),
        None => put(p, c, seq![pos]),
    }
}

/// The letters of `p`, in table order.
pub open spec fn letters_of(p: Pairs) -> Seq<char> {
    p.map_values(|e: (char, Seq<usize>)| e.0)
}

/// No letter has two entries, and every entry has a position.
pub open spec fn pairs_wf(p: Pairs) -> bool {
    &&& forall|i: int, j: int| 0 <= i < p.len() && 0 <= j < p.len() && i != j ==> p[i].0 != p[j].0
    &&& forall|i: int| 0 <= i < p.len() ==> #[trigger] p[i].1.len() > 0
}

/// `find_letter` gives -1 or the index of an entry for the letter.
pub proof fn lemma_find_range(p: Pairs, c: char)
    ensures
        -1 <= find_letter(p, c) < p.len(),
        find_letter(p, c) >= 0 ==> p[find_letter(p, c)].0 == c,
        find_letter(p, c) == -1 ==> forall|j: int| 0 <= j < p.len() ==> p[j].0 != c,
    decreases p.len(),
{
    if p.len() > 0 && p.last().0 != c {
        lemma_find_range(p.drop_last(), c);
        assert forall|j: int| 0 <= j < p.len() - 1 implies p[j] == p.drop_last()[j] by {}
    }
}

/// In a well-formed table, `find_letter` finds the entry of each of its letters.
pub proof fn lemma_find_present(p: Pairs, i: int)
    requires
        pairs_wf(p),
        0 <= i < p.len(),
    ensures
        find_letter(p, p[i].0) == i,
    decreases p.len(),
{
    if i != p.len() - 1 {
        let q = p.drop_last();
        assert(pairs_wf(q)) by {
            assert forall|k: int| 0 <= k < q.len() implies #[trigger] q[k].1.len() > 0 by {
                assert(q[k] == p[k]);
            }
        }
        assert(q[i] == p[i]);
        lemma_find_present(q, i);
    }
}

/// `put` keeps a table well formed, sets the positions of its letter, leaves
/// the other letters alone, and appends the letter only when it is new.
pub proof fn lemma_put(p: Pairs, c: char, v: Seq<usize>)
    requires
        pairs_wf(p),
        v.len() > 0,
    ensures
        pairs_wf(put(p, c, v)),
        lookup(put(p, c, v), c) == Some(v),
        forall|d: char| d != c ==> lookup(put(p, c, v), d) == lookup(p, d),
        letters_of(put(p, c, v)) == (if lookup(p, c) is Some {
            letters_of(p)
        } else {
            letters_of(p).push(c)
        }),
{
    lemma_find_range(p, c);
    let q = put(p, c, v);
    let i = find_letter(p, c);
    assert(pairs_wf(q)) by {
        if i < 0 {
            assert forall|a: int, b: int| 0 <= a < q.len() && 0 <= b < q.len() && a != b implies q[a].0 != q[b].0 by {
                if a < p.len() && b < p.len() {
                    assert(q[a] == p[a] && q[b] == p[b]);
                }
            }
        }
    }
    let k = if i >= 0 { i } else { p.len() as int };
    assert(q[k].0 == c);
    lemma_find_present(q, k);
    assert forall|d: char| d != c implies lookup(q, d) == lookup(p, d) by {
        lemma_find_range(p, d);
        lemma_find_range(q, d);
        let j = find_letter(p, d);
        if j >= 0 {
            assert(q[j] == p[j]);
            lemma_find_present(q, j);
        } else {
            assert forall|m: int| 0 <= m < q.len() implies q[m].0 != d by {
                if m != k {
                    assert(q[m] == p[m]);
                }
            }
            if find_letter(q, d) >= 0 {
                assert(q[find_letter(q, d)].0 == d);
            }
        }
    }
    assert(letters_of(q) =~= (if lookup(p, c) is Some {
        letters_of(p)
    } else {
        letters_of(p).push(c)
    }));
}

/// The letter table of a word: each letter that occurs in `s`, in order of
/// first occurrence, with the positions at which it occurs, in increasing order.
pub open spec fn word_letters(s: Seq<char>) -> Pairs
    decreases s.len(),
{
    if s.len() == 0 {
        Seq::empty()
    } else {
        add_position(word_letters(s.drop_last()), s.last(), (s.len() - 1) as usize)
    }
}

/// The positions at which `c` occurs in `s`, in increasing order.
pub open spec fn positions_in(s: Seq<char>, c: char) -> Seq<usize>
    decreases s.len(),
{
    if s.len() == 0 {
        Seq::empty()
    } else if s.last() == c {
        positions_in(s.drop_last(), c).push((s.len() - 1) as usize)
    } else {
        positions_in(s.drop_last(), c)
    }
}

/// The letter table of a word records, for every letter, exactly the
/// positions where it occurs (in increasing order), and no other letter.
pub proof fn lemma_word_letters(s: Seq<char>, c: char)
    requires
        s.len() <= usize::MAX,
    ensures
        pairs_wf(word_letters(s)),
        lookup(word_letters(s), c) == (if s.contains(c) {
            Some(positions_in(s, c))
        } else {
            None::<Seq<usize>>
        }),
        forall|k: int|
            0 <= k < positions_in(s, c).len() ==> positions_in(s, c)[k] < s.len() && s[
                positions_in(s, c)[k] as int
            ] == c,
        forall|k: int, l: int|
            0 <= k < l < positions_in(s, c).len() ==> positions_in(s, c)[k] < positions_in(
                s,
                c,
            )[l],
        forall|x: int| 0 <= x < s.len() && s[x] == c ==> positions_in(s, c).contains(x as usize),
    decreases s.len(),
{
    if s.len() > 0 {
        let t = s.drop_last();
        lemma_word_letters(t, c);
        lemma_word_letters(t, s.last());
        let p = word_letters(t);
        let d = s.last();
        let n = (s.len() - 1) as usize;
        match lookup(p, d) {
            Some(v) => {
                assert(v.len() > 0) by {
                    lemma_find_range(p, d);
                }
                lemma_put(p, d, v.push(n));
            },
            None => {
                lemma_put(p, d, seq![n]);
            },
        }
        assert forall|x: int| 0 <= x < t.len() implies t[x] == s[x] by {}
        if c == d {
            assert(s.contains(c)) by {
                assert(s[s.len() - 1] == c);
            }
            if t.contains(c) {
                assert(lookup(p, d) == Some(positions_in(t, c)));
            } else {
                assert(positions_in(t, c) =~= Seq::<usize>::empty()) by {
                    if positions_in(t, c).len() > 0 {
                        let k = positions_in(t, c)[0] as int;
                        assert(t[k] == c);
                    }
                }
                assert(seq![n] =~= positions_in(t, c).push(n));
            }
        } else {
            assert(s.contains(c) == t.contains(c)) by {
                if s.contains(c) {
                    let x = choose|x: int| 0 <= x < s.len() && s[x] == c;
                    assert(t[x] == c);
                }
                if t.contains(c) {
                    let x = choose|x: int| 0 <= x < t.len() && t[x] == c;
                    assert(s[x] == c);
                }
            }
        }
        assert forall|x: int| 0 <= x < s.len() && s[x] == c implies positions_in(s, c).contains(x as usize) by {
            if x < t.len() {
                assert(t[x] == c);
                let k = choose|k: int| 0 <= k < positions_in(t, c).len() && positions_in(t, c)[k] == x as usize;
                assert(positions_in(s, c)[k] == x as usize);
            } else {
                assert(positions_in(s, c).last() == x as usize);
            }
        }
    }
}

/// The number of positions recorded in `p`, over all its letters.
pub open spec fn total_positions(p: Pairs) -> nat
    decreases p.len(),
{
    if p.len() == 0 {
        0
    } else {
        total_positions(p.drop_last()) + p.last().1.len()
    }
}

proof fn lemma_total_update(p: Pairs, i: int, e: (char, Seq<usize>))
    requires
        0 <= i < p.len(),
    ensures
        total_positions(p.update(i, e)) + p[i].1.len() == total_positions(p) + e.1.len(),
    decreases p.len(),
{
    let q = p.update(i, e);
    if i < p.len() - 1 {
        assert(q.drop_last() =~= p.drop_last().update(i, e));
        lemma_total_update(p.drop_last(), i, e);
    } else {
        assert(q.drop_last() =~= p.drop_last());
    }
}

/// The letter table of a word partitions its positions: each position is in
/// the list of the letter the word has there and in no other, and the lists
/// hold as many positions as the word has characters. Reading each position's
/// letter off the table thus gives the word back.
pub proof fn lemma_word_letters_partition(s: Seq<char>)
    requires
        s.len() <= usize::MAX,
    ensures
        total_positions(word_letters(s)) == s.len(),
        forall|i: int|
            0 <= i < s.len() ==> (lookup(word_letters(s), #[trigger] s[i]) matches Some(v) && v.contains(
                i as usize,
            )),
        forall|c: char, i: int|
            #![trigger lookup(word_letters(s), c), s[i]]
            0 <= i < s.len() && c != s[i] ==> !(lookup(word_letters(s), c) matches Some(v)
                && v.contains(i as usize)),
    decreases s.len(),
{
    if s.len() > 0 {
        let t = s.drop_last();
        lemma_word_letters_partition(t);
        let p = word_letters(t);
        let d = s.last();
        let n = (s.len() - 1) as usize;
        lemma_word_letters(t, d);
        lemma_find_range(p, d);
        match lookup(p, d) {
            Some(v) => {
                lemma_total_update(p, find_letter(p, d), (d, v.push(n)));
            },
            None => {
                assert(p.push((d, seq![n])).drop_last() =~= p);
            },
        }
    }
    assert forall|i: int| 0 <= i < s.len() implies (lookup(word_letters(s), #[trigger] s[i]) matches Some(v)
        && v.contains(i as usize)) by {
        lemma_word_letters(s, s[i]);
        assert(s.contains(s[i]));
    }
    assert forall|c: char, i: int|
        #![trigger lookup(word_letters(s), c), s[i]]
        0 <= i < s.len() && c != s[i] implies !(lookup(word_letters(s), c) matches Some(v)
        && v.contains(i as usize)) by {
        lemma_word_letters(s, c);
        if let Some(v) = lookup(word_letters(s), c) {
            if v.contains(i as usize) {
                let k = choose|k: int| 0 <= k < v.len() && v[k] == i as usize;
                assert(s[v[k] as int] == c);
            }
        }
    }
}

/// The positions `v` moved `k` places on.
pub open spec fn shifted(v: Seq<usize>, k: nat) -> Seq<usize> {
    v.map_values(|j: usize| (j + k) as usize)
}

/// The positions of a letter in the concatenation of two words whose
/// positions are `x` in the first and `y` in the second, the first `k` long.
pub open spec fn joined(x: Option<Seq<usize>>, y: Option<Seq<usize>>, k: nat) -> Option<Seq<usize>> {
    match (x, y) {
        (None, None) => None,
        (Some(u), None) => Some(u),
        (None, Some(w)) => Some(shifted(w, k)),
        (Some(u), Some(w)) => Some(u + shifted(w, k)),
    }
}

proof fn lemma_positions_concat(a: Seq<char>, b: Seq<char>, c: char)
    requires
        a.len() + b.len() <= usize::MAX,
    ensures
        positions_in(a + b, c) == positions_in(a, c) + shifted(positions_in(b, c), a.len()),
    decreases b.len(),
{
    if b.len() == 0 {
        assert(a + b =~= a);
        assert(positions_in(a, c) + shifted(positions_in(b, c), a.len()) =~= positions_in(a, c));
    } else {
        let bt = b.drop_last();
        lemma_positions_concat(a, bt, c);
        assert((a + b).drop_last() =~= a + bt);
        assert((a + b).last() == b.last());
        assert(shifted(positions_in(b, c), a.len()) =~= if b.last() == c {
            shifted(positions_in(bt, c), a.len()).push((a.len() + b.len() - 1) as usize)
        } else {
            shifted(positions_in(bt, c), a.len())
        });
        assert(positions_in(a + b, c) =~= positions_in(a, c) + shifted(positions_in(b, c), a.len()));
    }
}

/// The letter table of the concatenation of two words: a letter has the
/// positions it has in the first word, followed by those it has in the
/// second moved by the first word's length; a letter of neither has none.
pub proof fn lemma_word_letters_concat(a: Seq<char>, b: Seq<char>, c: char)
    requires
        a.len() + b.len() <= usize::MAX,
    ensures
        lookup(word_letters(a + b), c) == joined(
            lookup(word_letters(a), c),
            lookup(word_letters(b), c),
            a.len(),
        ),
{
    lemma_word_letters(a, c);
    lemma_word_letters(b, c);
    lemma_word_letters(a + b, c);
    lemma_positions_concat(a, b, c);
    assert((a + b).contains(c) <==> a.contains(c) || b.contains(c)) by {
        if (a + b).contains(c) {
            let j = choose|j: int| 0 <= j < (a + b).len() && (a + b)[j] == c;
            if j >= a.len() {
                assert(b[j - a.len()] == c);
            } else {
                assert(a[j] == c);
            }
        }
        if a.contains(c) {
            let j = choose|j: int| 0 <= j < a.len() && a[j] == c;
            assert((a + b)[j] == c);
        }
        if b.contains(c) {
            let j = choose|j: int| 0 <= j < b.len() && b[j] == c;
            assert((a + b)[a.len() + j] == c);
        }
    }
    if !a.contains(c) {
        assert(positions_in(a, c) =~= Seq::<usize>::empty()) by {
            if positions_in(a, c).len() > 0 {
                assert(a[positions_in(a, c)[0] as int] == c);
            }
        }
    }
    if !b.contains(c) {
        assert(positions_in(b, c) =~= Seq::<usize>::empty()) by {
            if positions_in(b, c).len() > 0 {
                assert(b[positions_in(b, c)[0] as int] == c);
            }
        }
    }
    assert(Seq::<usize>::empty() + shifted(positions_in(b, c), a.len()) =~= shifted(positions_in(b, c), a.len()));
    assert(positions_in(a, c) + shifted(Seq::<usize>::empty(), a.len()) =~= positions_in(a, c));
}

/// One letter of a table with the positions recorded for it.
pub struct LetterEntry {
    letter: char,
    positions: Vec<usize>,
}

/// A table from letters to lists of positions in a word.
pub struct LetterMap {
    entries: Vec<LetterEntry>,
}

/// The letter table of `word`: every letter that occurs in it, in order of
/// first occurrence, with the positions (counted in characters) where it occurs.
pub fn string_to_wordls(word: &str) -> (r: LetterMap)
    ensures
        r@ == word_letters(word@),
        r.wf(),
        word@.len() <= usize::MAX,
{
    let n = word.unicode_len();
    let mut m = LetterMap::new();
    let mut i: usize = 0;
    while i < n
        invariant
            n == word@.len(),
            i <= n,
            m@ == word_letters(word@.take(i as int)),
            m.wf(),
        decreases n - i,
    {
        let c = word.get_char(i);
        m.add(c, i);
        proof {
            let t = word@.take(i + 1);
            assert(t.drop_last() =~= word@.take(i as int));
            assert(t.last() == c);
        }
        i = i + 1;
    }
    assert(word@.take(n as int) =~= word@);
    m
}

/// A copy of a list of positions.
pub fn copy_positions(v: &Vec<usize>) -> (r: Vec<usize>)
    ensures
        r@ == v@,
{
    let mut r: Vec<usize> = Vec::new();
    let mut i: usize = 0;
    while i < v.len()
        invariant
            i <= v.len(),
            r@ == v@.take(i as int),
        decreases v.len() - i,
    {
        r.push(v[i]);
        i = i + 1;
        assert(r@ =~= v@.take(i as int));
    }
    assert(r@ =~= v@);
    r
}

/// Whether `pos` is among `v`.
pub fn holds_position(v: &Vec<usize>, pos: usize) -> (r: bool)
    ensures
        r == v@.contains(pos),
{
    let mut i: usize = 0;
    while i < v.len()
        invariant
            i <= v.len(),
            forall|j: int| 0 <= j < i ==> v@[j] != pos,
        decreases v.len() - i,
    {
        if v[i] == pos {
            return true;
        }
        i = i + 1;
    }
    false
}

impl View for LetterMap {
    type V = Pairs;

    closed spec fn view(&self) -> Pairs {
        self.entries@.map_values(|e: LetterEntry| (e.letter, e.positions@))
    }
}

impl LetterMap {
    /// The table is well formed: see `pairs_wf`.
    pub open spec fn wf(&self) -> bool {
        pairs_wf(self@)
    }

    /// The empty table.
    pub fn new() -> (r: LetterMap)
        ensures
            r@ == Seq::<(char, Seq<usize>)>::empty(),
            r.wf(),
    {
        let r = LetterMap { entries: Vec::new() };
        assert(r@ =~= Seq::<(char, Seq<usize>)>::empty());
        r
    }

    /// Number of letters in the table.
    pub fn len(&self) -> (r: usize)
        ensures
            r == self@.len(),
    {
        self.entries.len()
    }

    /// The letter of entry `i`.
    pub fn letter_at(&self, i: usize) -> (r: char)
        requires
            i < self@.len(),
        ensures
            r == self@[i as int].0,
    {
        self.entries[i].letter
    }

    /// The positions of entry `i`.
    pub fn positions_at(&self, i: usize) -> (r: &Vec<usize>)
        requires
            i < self@.len(),
        ensures
            r@ == self@[i as int].1,
    {
        &self.entries[i].positions
    }

    /// Index of the entry for `c`, if there is one.
    pub fn find(&self, c: char) -> (r: Option<usize>)
        ensures
            r == (if find_letter(self@, c) >= 0 {
                Some(find_letter(self@, c) as usize)
            } else {
                None::<usize>
            }),
            -1 <= find_letter(self@, c) < self@.len(),
            r matches Some(i) ==> i < self@.len() && self@[i as int].0 == c && find_letter(self@, c) == i,
            r is None ==> forall|j: int| 0 <= j < self@.len() ==> self@[j].0 != c,
    {
        proof {
            lemma_find_range(self@, c);
        }
        let mut i: usize = self.entries.len();
        assert(self@.take(i as int) =~= self@);
        while i > 0
            invariant
                i <= self@.len(),
                self.entries@.len() == self@.len(),
                find_letter(self@, c) == find_letter(self@.take(i as int), c),
            decreases i,
        {
            let e = &self.entries[i - 1];
            assert(self@.take(i as int).last() == self@[i - 1]);
            if e.letter == c {
                return Some(i - 1);
            }
            assert(self@.take(i as int).drop_last() =~= self@.take(i - 1));
            i = i - 1;
        }
        assert(self@.take(0) =~= Seq::<(char, Seq<usize>)>::empty());
        None
    }

    /// The positions recorded for `c`, if any.
    pub fn get(&self, c: char) -> (r: Option<&Vec<usize>>)
        ensures
            match r {
                Some(v) => lookup(self@, c) == Some(v@),
                None => lookup(self@, c) is None,
            },
    {
        match self.find(c) {
            Some(i) => {
                assert(self@[i as int] == (self.entries@[i as int].letter, self.entries@[i as int].positions@));
                Some(&self.entries[i].positions)
            },
            None => None,
        }
    }

    /// Whether `c` has an entry.
    pub fn has_letter(&self, c: char) -> (r: bool)
        ensures
            r == lookup(self@, c) is Some,
    {
        self.find(c).is_some()
    }

    /// Sets the positions of `c` to `v`.
    pub fn set(&mut self, c: char, v: Vec<usize>)
        requires
            old(self).wf(),
            v@.len() > 0,
        ensures
            final(self)@ == put(old(self)@, c, v@),
            final(self).wf(),
    {
        let ghost vv = v@;
        match self.find(c) {
            Some(i) => {
                self.entries.set(i, LetterEntry { letter: c, positions: v });
                assert(find_letter(old(self)@, c) == i);
                assert(self@ =~= old(self)@.update(i as int, (c, vv)));
            },
            None => {
                self.entries.push(LetterEntry { letter: c, positions: v });
                assert(self@ =~= put(old(self)@, c, vv));
            },
        }
        proof {
            lemma_put(old(self)@, c, vv);
        }
    }

    /// Adds `pos` at the end of the positions of `c`, creating the entry if needed.
    pub fn add(&mut self, c: char, pos: usize)
        requires
            old(self).wf(),
        ensures
            final(self)@ == add_position(old(self)@, c, pos),
            final(self).wf(),
    {
        let mut v = match self.get(c) {
            Some(old_v) => copy_positions(old_v),
            None => Vec::new(),
        };
        v.push(pos);
        self.set(c, v);
        assert(final(self)@ =~= add_position(old(self)@, c, pos)) by {
            if lookup(old(self)@, c) is None {
                assert(seq![pos] =~= Seq::<usize>::empty().push(pos));
            }
        }
    }

    /// The letters of the table, in table order.
    pub fn letters(&self) -> (r: Vec<char>)
        ensures
            r@ == letters_of(self@),
    {
        let mut r: Vec<char> = Vec::new();
        let mut i: usize = 0;
        while i < self.entries.len()
            invariant
                i <= self@.len(),
                self.entries@.len() == self@.len(),
                r@ == letters_of(self@).take(i as int),
            decreases self@.len() - i,
        {
            r.push(self.entries[i].letter);
            i = i + 1;
            assert(r@ =~= letters_of(self@).take(i as int));
        }
        assert(r@ =~= letters_of(self@));
        r
    }
}

} // verus!
