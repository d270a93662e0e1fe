//! Mathematical models shared by the board and player types: sums of
//! counters and the map of lines that a list of `(line, value)` pairs
//! stands for.
use crate::element::Line;
use vstd::prelude::*;

verus! {

/// The sum of a sequence of counters.
pub open spec fn sum(s: Seq<usize>) -> int
    decreases s.len(),
{
    if s.len() == 0 {
        0
    } else {
        sum(s.drop_last()) + s.last()
    }
}

pub proof fn lemma_sum_nonneg(s: Seq<usize>)
    ensures
        sum(s) >= 0,
    decreases s.len(),
{
    if s.len() > 0 {
        lemma_sum_nonneg(s.drop_last());
    }
}

/// Every element is at most the sum.
pub proof fn lemma_sum_bounds(s: Seq<usize>, i: int)
    requires
        0 <= i < s.len(),
    ensures
        s[i] <= sum(s),
    decreases s.len(),
{
    lemma_sum_nonneg(s.drop_last());
    if i < s.len() - 1 {
        lemma_sum_bounds(s.drop_last(), i);
    }
}

/// The sum is above zero exactly when some counter is.
pub proof fn lemma_sum_positive(s: Seq<usize>)
    ensures
        sum(s) > 0 <==> exists|i: int| 0 <= i < s.len() && #[trigger] s[i] > 0,
    decreases s.len(),
{
    if s.len() > 0 {
        lemma_sum_positive(s.drop_last());
        lemma_sum_nonneg(s.drop_last());
        if sum(s.drop_last()) > 0 {
            let i = choose|i: int| 0 <= i < s.drop_last().len() && #[trigger] s.drop_last()[i] > 0;
            assert(s[i] > 0);
        }
        if exists|i: int| 0 <= i < s.len() && #[trigger] s[i] > 0 {
            let i = choose|i: int| 0 <= i < s.len() && #[trigger] s[i] > 0;
            if i < s.len() - 1 {
                assert(s.drop_last()[i] > 0);
            }
        }
    }
}

/// Setting one counter changes the sum by the difference.
pub proof fn lemma_sum_update(s: Seq<usize>, i: int, v: usize)
    requires
        0 <= i < s.len(),
    ensures
        sum(s.update(i, v)) == sum(s) - s[i] + v,
    decreases s.len(),
{
    if i < s.len() - 1 {
        lemma_sum_update(s.drop_last(), i, v);
        assert(s.update(i, v).drop_last() =~= s.drop_last().update(i, v));
    } else {
        assert(s.update(i, v).drop_last() =~= s.drop_last());
    }
}

/// No line occurs twice as a key.
pub open spec fn keys_distinct<V>(s: Seq<(Line, V)>) -> bool {
    forall|i: int, j: int| 0 <= i < j < s.len() ==> #[trigger] s[i].0 != #[trigger] s[j].0
}

/// The map from each line of `s` to the value paired with it.
pub open spec fn lines_map<V>(s: Seq<(Line, V)>) -> Map<Line, V> {
    Map::new(
        |l: Line| exists|i: int| 0 <= i < s.len() && #[trigger] s[i].0 == l,
        |l: Line| s[choose|i: int| 0 <= i < s.len() && #[trigger] s[i].0 == l].1,
    )
}

pub proof fn lemma_lines_map_at<V>(s: Seq<(Line, V)>, i: int)
    requires
        keys_distinct(s),
        0 <= i < s.len(),
    ensures
        lines_map(s).contains_key(s[i].0),
        lines_map(s)[s[i].0] == s[i].1,
{
    let l = s[i].0;
    assert(exists|k: int| 0 <= k < s.len() && #[trigger] s[k].0 == l);
    let j = choose|k: int| 0 <= k < s.len() && #[trigger] s[k].0 == l;
    if j != i {
        if j < i {
            assert(s[j].0 != s[i].0);
        } else {
            assert(s[i].0 != s[j].0);
        }
    }
}

pub proof fn lemma_lines_map_push<V>(s: Seq<(Line, V)>, l: Line, v: V)
    requires
        keys_distinct(s),
        !lines_map(s).contains_key(l),
    ensures
        keys_distinct(s.push((l, v))),
        lines_map(s.push((l, v))) == lines_map(s).insert(l, v),
{
    let t = s.push((l, v));
    assert forall|i: int, j: int| 0 <= i < j < t.len() implies #[trigger] t[i].0 != #[trigger] t[j].0 by {
        if j == s.len() {
            if t[i].0 == l {
                assert(s[i].0 == l);
                assert(lines_map(s).contains_key(l));
            }
        } else {
            assert(s[i].0 != s[j].0);
        }
    }
    assert forall|k: Line| #[trigger] lines_map(t).contains_key(k) == lines_map(s).insert(l, v).contains_key(k) by {
        if lines_map(s).contains_key(k) {
            let i = choose|i: int| 0 <= i < s.len() && #[trigger] s[i].0 == k;
            assert(t[i].0 == k);
        }
        if lines_map(t).contains_key(k) && k != l {
            let i = choose|i: int| 0 <= i < t.len() && #[trigger] t[i].0 == k;
            assert(s[i].0 == k);
        }
        if k == l {
            assert(t[s.len() as int].0 == l);
        }
    }
    assert forall|k: Line| #[trigger] lines_map(t).contains_key(k) implies lines_map(t)[k] == lines_map(s).insert(l, v)[k] by {
        let i = choose|i: int| 0 <= i < t.len() && #[trigger] t[i].0 == k;
        lemma_lines_map_at(t, i);
        if i < s.len() {
            lemma_lines_map_at(s, i);
        }
    }
    assert(lines_map(t) =~= lines_map(s).insert(l, v));
}

pub proof fn lemma_lines_map_update<V>(s: Seq<(Line, V)>, i: int, v: V)
    requires
        keys_distinct(s),
        0 <= i < s.len(),
    ensures
        keys_distinct(s.update(i, (s[i].0, v))),
        lines_map(s.update(i, (s[i].0, v))) == lines_map(s).insert(s[i].0, v),
{
    let l = s[i].0;
    let t = s.update(i, (l, v));
    assert forall|a: int, b: int| 0 <= a < b < t.len() implies #[trigger] t[a].0 != #[trigger] t[b].0 by {
        assert(s[a].0 != s[b].0);
    }
    assert forall|k: Line| #[trigger] lines_map(t).contains_key(k) == lines_map(s).insert(l, v).contains_key(k) by {
        if lines_map(s).contains_key(k) {
            let j = choose|j: int| 0 <= j < s.len() && #[trigger] s[j].0 == k;
            assert(t[j].0 == k);
        }
        if lines_map(t).contains_key(k) {
            let j = choose|j: int| 0 <= j < t.len() && #[trigger] t[j].0 == k;
            assert(s[j].0 == k);
        }
        if k == l {
            assert(t[i].0 == l);
        }
    }
    assert forall|k: Line| #[trigger] lines_map(t).contains_key(k) implies lines_map(t)[k] == lines_map(s).insert(l, v)[k] by {
        let j = choose|j: int| 0 <= j < t.len() && #[trigger] t[j].0 == k;
        lemma_lines_map_at(t, j);
        lemma_lines_map_at(s, j);
    }
    assert(lines_map(t) =~= lines_map(s).insert(l, v));
}

/// The position of `l` among the keys of `s`, if it is there.
pub fn find_line<V>(s: &Vec<(Line, V)>, l: Line) -> (r: Option<usize>)
    ensures
        match r {
            Some(i) => i < s.len() && s@[i as int].0 == l,
            None => forall|i: int| 0 <= i < s.len() ==> s@[i].0 != l,
        },
{
    let mut i: usize = 0;
    while i < s.len()
        invariant
            i <= s.len(),
            forall|k: int| 0 <= k < i ==> s@[k].0 != l,
        decreases s.len() - i,
    {
        if s[i].0 == l {
            return Some(i);
        }
        i += 1;
    }
    None
}

/// A map from lines to owners, kept as a list of pairs in the order the
/// lines were first added, no line twice.
pub struct LineMap {
    entries: Vec<(Line, usize)>,
}

impl View for LineMap {
    type V = Map<Line, usize>;

    closed spec fn view(&self) -> Map<Line, usize> {
        lines_map(self.entries@)
    }
}

impl LineMap {
    #[verifier::type_invariant]
    spec fn no_line_twice(self) -> bool {
        keys_distinct(self.entries@)
    }

    /// The pairs in the order their lines were first added.
    pub closed spec fn pairs(&self) -> Seq<(Line, usize)> {
        self.entries@
    }

    pub fn new() -> (m: LineMap)
        ensures
            m@ == Map::<Line, usize>::empty(),
            m.pairs() == Seq::<(Line, usize)>::empty(),
    {
        let m = LineMap { entries: Vec::new() };
        assert(m@ =~= Map::<Line, usize>::empty());
        m
    }

    /// The map of the pairs `entries`, none of whose lines occurs twice.
    pub fn from_pairs(entries: Vec<(Line, usize)>) -> (m: LineMap)
        requires
            keys_distinct(entries@),
        ensures
            m.pairs() == entries@,
            m@ == lines_map(entries@),
    {
        LineMap { entries }
    }

    /// The pairs, each line with its owner.
    pub fn entries(&self) -> (e: &Vec<(Line, usize)>)
        ensures
            e@ == self.pairs(),
            keys_distinct(e@),
            lines_map(e@) == self@,
    {
        proof {
            use_type_invariant(self);
        }
        &self.entries
    }

    pub fn len(&self) -> (n: usize)
        ensures
            n == self.pairs().len(),
            n == self@.dom().len(),
    {
        proof {
            use_type_invariant(self);
            lemma_lines_map_len(self.entries@);
        }
        self.entries.len()
    }

    /// The owner of `line`, if it is in the map.
    pub fn get(&self, line: Line) -> (o: Option<usize>)
        ensures
            o == (if self@.contains_key(line) {
                Some(self@[line])
            } else {
                None
            }),
    {
        proof {
            use_type_invariant(self);
        }
        match find_line(&self.entries, line) {
            Some(i) => {
                proof {
                    lemma_lines_map_at(self.entries@, i as int);
                }
                Some(self.entries[i].1)
            },
            None => None,
        }
    }

    /// Maps `line` to `owner`, and gives back the owner it had before.
    pub fn insert(&mut self, line: Line, owner: usize) -> (prev: Option<usize>)
        ensures
            final(self)@ == old(self)@.insert(line, owner),
            prev == (if old(self)@.contains_key(line) {
                Some(old(self)@[line])
            } else {
                None
            }),
    {
        proof {
            use_type_invariant(&*self);
        }
        match find_line(&self.entries, line) {
            Some(i) => {
                proof {
                    lemma_lines_map_at(self.entries@, i as int);
                    lemma_lines_map_update(self.entries@, i as int, owner);
                }
                let prev = self.entries[i].1;
                let mut entries: Vec<(Line, usize)> = Vec::new();
                std::mem::swap(&mut entries, &mut self.entries);
                entries[i] = (line, owner);
                self.entries = entries;
                Some(prev)
            },
            None => {
                proof {
                    lemma_lines_map_push(self.entries@, line, owner);
                }
                let mut entries: Vec<(Line, usize)> = Vec::new();
                std::mem::swap(&mut entries, &mut self.entries);
                entries.push((line, owner));
                self.entries = entries;
                None
            },
        }
    }
}

/// The map of a list with no line twice has one key per pair.
pub proof fn lemma_lines_map_len<V>(s: Seq<(Line, V)>)
    requires
        keys_distinct(s),
    ensures
        lines_map(s).dom().finite(),
        lines_map(s).dom().len() == s.len(),
    decreases s.len(),
{
    if s.len() == 0 {
        assert(lines_map(s).dom() =~= Set::<Line>::empty());
    } else {
        let t = s.drop_last();
        assert(keys_distinct(t));
        lemma_lines_map_len(t);
        assert(!lines_map(t).contains_key(s.last().0));
        lemma_lines_map_push(t, s.last().0, s.last().1);
        assert(t.push(s.last()) =~= s);
        assert(lines_map(s).dom() =~= lines_map(t).dom().insert(s.last().0));
    }
}

/// The sum of the counts of `list`.
pub open spec fn count_total<K>(list: Seq<(K, usize)>) -> int
    decreases list.len(),
{
    if list.len() == 0 {
        0
    } else {
        count_total(list.drop_last()) + list.last().1
    }
}

/// The sum of a quarter (rounded down) of each count of `list`.
pub open spec fn quarter_total<K>(list: Seq<(K, usize)>) -> int
    decreases list.len(),
{
    if list.len() == 0 {
        0
    } else {
        quarter_total(list.drop_last()) + list.last().1 / 4
    }
}

/// The counts of a prefix add up to no more than those of the whole list.
pub proof fn lemma_count_total_prefix<K>(list: Seq<(K, usize)>, j: int)
    requires
        0 <= j <= list.len(),
    ensures
        0 <= count_total(list.take(j)) <= count_total(list),
    decreases list.len() - j,
{
    if j < list.len() {
        assert(list.take(j + 1).drop_last() =~= list.take(j));
        lemma_count_total_prefix(list, j + 1);
    } else {
        assert(list.take(j) =~= list);
    }
    lemma_count_total_nonneg(list.take(j));
}

pub proof fn lemma_count_total_nonneg<K>(list: Seq<(K, usize)>)
    ensures
        count_total(list) >= 0,
    decreases list.len(),
{
    if list.len() > 0 {
        lemma_count_total_nonneg(list.drop_last());
    }
}

/// The sum of the counts of `list`.
pub fn total_count<K>(list: &Vec<(K, usize)>) -> (t: usize)
    requires
        count_total(list@) <= usize::MAX,
    ensures
        t == count_total(list@),
{
    let mut t: usize = 0;
    let mut i: usize = 0;
    while i < list.len()
        invariant
            i <= list.len(),
            count_total(list@) <= usize::MAX,
            t == count_total(list@.take(i as int)),
        decreases list.len() - i,
    {
        proof {
            assert(list@.take(i as int + 1).drop_last() =~= list@.take(i as int));
            lemma_count_total_prefix(list@, i as int + 1);
        }
        t = t + list[i].1;
        i += 1;
    }
    assert(list@.take(i as int) =~= list@);
    t
}

/// The sum of the counts of `list`, or `None` where it leaves `usize`.
pub fn checked_total<K>(list: &Vec<(K, usize)>) -> (t: Option<usize>)
    ensures
        match t {
            Some(v) => v == count_total(list@),
            None => count_total(list@) > usize::MAX,
        },
{
    let mut t: usize = 0;
    let mut i: usize = 0;
    while i < list.len()
        invariant
            i <= list.len(),
            t == count_total(list@.take(i as int)),
        decreases list.len() - i,
    {
        proof {
            assert(list@.take(i as int + 1).drop_last() =~= list@.take(i as int));
            lemma_count_total_prefix(list@, i as int + 1);
        }
        if t > usize::MAX - list[i].1 {
            proof {
                lemma_count_total_prefix(list@, i as int + 1);
            }
            return None;
        }
        t = t + list[i].1;
        i += 1;
    }
    assert(list@.take(i as int) =~= list@);
    Some(t)
}

/// What a line map gives back for a line after an owner is recorded for
/// it: that owner for that line, and what it gave before for any other.
pub proof fn lemma_line_map_read_after_write(m: Map<Line, usize>, l: Line, owner: usize, other: Line)
    ensures
        m.insert(l, owner).contains_key(l),
        m.insert(l, owner)[l] == owner,
        other != l ==> (m.insert(l, owner).contains_key(other) == m.contains_key(other)),
        other != l && m.contains_key(other) ==> m.insert(l, owner)[other] == m[other],
{
}

} // verus!
