//! The nearest records seen so far.

use crate::types::Label;
use vstd::prelude::*;

verus! {

/// How many neighbours vote on a transaction.
pub const K: usize = 5;

/// A record as it is kept: its distance from the query, and its label byte.
pub type Entry = (i64, u8);

/// `w` is the first of the farthest entries.
pub open spec fn is_worst(s: Seq<Entry>, w: int) -> bool {
    &&& 0 <= w < s.len()
    &&& forall|i: int| 0 <= i < s.len() ==> (#[trigger] s[i]).0 <= s[w].0
    &&& forall|i: int| 0 <= i < w ==> (#[trigger] s[i]).0 < s[w].0
}

/// Position of the first of the farthest entries.
pub open spec fn worst(s: Seq<Entry>) -> int {
    choose|w: int| is_worst(s, w)
}

/// A record at distance `d` is kept: there is room, or it is nearer than the farthest entry.
pub open spec fn accepts(s: Seq<Entry>, d: int) -> bool {
    s.len() < K || d < s[worst(s)].0
}

/// The entries after a record at distance `d` was offered: appended while there is room,
/// otherwise put in the place of the farthest entry if it is nearer.
pub open spec fn offer(s: Seq<Entry>, d: i64, label: u8) -> Seq<Entry> {
    if !accepts(s, d as int) {
        s
    } else if s.len() < K {
        s.push((d, label))
    } else {
        s.update(worst(s), (d, label))
    }
}

/// What a label byte means: one is fraud, anything else is legitimate.
pub open spec fn label_of(byte: u8) -> Label {
    if byte == 1 {
        Label::Fraud
    } else {
        Label::Legit
    }
}

/// The labels of the entries, in place; places that no record took count as legitimate.
pub open spec fn verdict(s: Seq<Entry>) -> Seq<Label> {
    Seq::new(
        K as nat,
        |i: int| if i < s.len() { label_of(s[i].1) } else { Label::Legit },
    )
}

/// A non-empty sequence has exactly one first farthest entry.
pub proof fn worst_is_worst(s: Seq<Entry>)
    requires
        s.len() > 0,
    ensures
        is_worst(s, worst(s)),
{
    worst_exists(s);
}

proof fn worst_exists(s: Seq<Entry>)
    requires
        s.len() > 0,
    ensures
        exists|w: int| is_worst(s, w),
    decreases s.len(),
{
    if s.len() == 1 {
        assert(is_worst(s, 0));
    } else {
        let rest = s.drop_last();
        let last = s.len() - 1;
        worst_exists(rest);
        let v = choose|w: int| is_worst(rest, w);
        let w = if s[last].0 > s[v].0 { last } else { v };
        assert forall|i: int| 0 <= i < s.len() implies (#[trigger] s[i]).0 <= s[w].0 by {
            if i < last {
                assert(rest[i].0 <= rest[v].0);
            }
        }
        assert forall|i: int| 0 <= i < w implies (#[trigger] s[i]).0 < s[w].0 by {
            assert(rest[i].0 <= rest[v].0);
        }
        assert(is_worst(s, w));
    }
}

proof fn worst_unique(s: Seq<Entry>, w: int)
    requires
        is_worst(s, w),
    ensures
        worst(s) == w,
{
    worst_is_worst(s);
    let v = worst(s);
    assert(s[v].0 <= s[w].0 && s[w].0 <= s[v].0);
}

/// The nearest records seen so far, with the place of the farthest of them at hand.
pub struct Top {
    entries: [Entry; K],
    len: usize,
    worst_dist: i64,
    worst_pos: usize,
}

impl View for Top {
    type V = Seq<Entry>;

    closed spec fn view(&self) -> Seq<Entry> {
        self.entries@.take(self.len as int)
    }
}

impl Top {
    /// The cached place and distance are those of the farthest entry, and unused places hold
    /// no label.
    pub closed spec fn wf(self) -> bool {
        &&& self.len <= K
        &&& forall|i: int|
            self.len <= i < K ==> #[trigger] self.entries@[i] == (i64::MAX, 0u8)
        &&& self.len < K ==> self.worst_dist == i64::MAX && self.worst_pos == 0
        &&& self.len == K ==> is_worst(self.entries@, self.worst_pos as int)
            && self.worst_dist == self.entries@[self.worst_pos as int].0
    }

    /// The distance and the place of the farthest entry, as they are at hand.
    pub closed spec fn farthest(self) -> (i64, usize) {
        (self.worst_dist, self.worst_pos)
    }

    /// No record seen yet.
    pub fn new() -> (res: Top)
        ensures
            res.wf(),
            res@ == Seq::<Entry>::empty(),
    {
        let res = Top {
            entries: [(i64::MAX, 0u8); K],
            len: 0,
            worst_dist: i64::MAX,
            worst_pos: 0,
        };
        assert(res@ =~= Seq::<Entry>::empty());
        res
    }

    /// Whether a record at distance `dist` would be kept.
    pub fn accepts(&self, dist: i64) -> (res: bool)
        requires
            self.wf(),
        ensures
            res == accepts(self@, dist as int),
    {
        proof {
            if self.len == K {
                assert(self@ =~= self.entries@);
                worst_unique(self@, self.worst_pos as int);
            }
        }
        self.len < K || dist < self.worst_dist
    }

    /// Whether all places are taken by records no farther than `bound`.
    pub fn closed_to(&self, bound: i64) -> (res: bool)
        requires
            self.wf(),
        ensures
            res == (self@.len() == K && !accepts(self@, bound as int)),
    {
        proof {
            if self.len == K {
                assert(self@ =~= self.entries@);
                worst_unique(self@, self.worst_pos as int);
            }
        }
        self.len == K && bound >= self.worst_dist
    }

    /// Keeps a record that is accepted.
    pub fn insert(&mut self, dist: i64, label: u8)
        requires
            old(self).wf(),
            accepts(old(self)@, dist as int),
        ensures
            final(self).wf(),
            final(self)@ == offer(old(self)@, dist, label),
    {
        let ghost before = self@;
        if self.len < K {
            self.entries[self.len] = (dist, label);
            self.len += 1;
            assert(self@ =~= before.push((dist, label)));
        } else {
            proof {
                assert(before =~= self.entries@);
                worst_unique(before, self.worst_pos as int);
            }
            self.entries[self.worst_pos] = (dist, label);
            assert(self@ =~= before.update(worst(before), (dist, label)));
        }
        if self.len == K {
            let mut pos: usize = 0;
            for i in 1..K
                invariant
                    pos < i,
                    is_worst(self.entries@.take(i as int), pos as int),
            {
                let ghost prefix = self.entries@.take(i as int);
                let ghost longer = self.entries@.take(i + 1);
                let ghost old_pos = pos as int;
                assert(forall|j: int| 0 <= j < i ==> longer[j] == prefix[j]);
                if self.entries[i].0 > self.entries[pos].0 {
                    pos = i;
                }
                proof {
                    assert forall|j: int| 0 <= j < longer.len() implies (#[trigger] longer[j]).0
                        <= longer[pos as int].0 by {
                        if j < i {
                            assert(prefix[j].0 <= prefix[old_pos].0);
                        }
                    }
                    assert forall|j: int| 0 <= j < pos implies (#[trigger] longer[j]).0
                        < longer[pos as int].0 by {
                        assert(prefix[j].0 <= prefix[old_pos].0);
                    }
                }
            }
            assert(self.entries@.take(K as int) =~= self.entries@);
            self.worst_pos = pos;
            self.worst_dist = self.entries[pos].0;
        }
    }

    /// The labels of the records kept.
    pub fn labels(&self) -> (res: [Label; K])
        requires
            self.wf(),
        ensures
            res@ == verdict(self@),
    {
        let res = labels_to_result(&self.entries);
        assert(res@ =~= verdict(self@));
        res
    }
}

/// What is at hand of the farthest entry is right: its distance, which no entry exceeds, and its
/// place. As long as there is room, it is what it was at the start.
pub proof fn farthest_is_worst(t: Top)
    requires
        t.wf(),
    ensures
        t@.len() <= K,
        t@.len() < K ==> t.farthest() == (i64::MAX, 0usize),
        t@.len() == K ==> t.farthest() == (t@[worst(t@)].0, worst(t@) as usize) && is_worst(
            t@,
            worst(t@),
        ),
{
    if t.len == K {
        assert(t@ =~= t.entries@);
        worst_unique(t@, t.worst_pos as int);
    }
}

/// The entries determine everything else that is at hand.
pub proof fn entries_determine_top(a: Top, b: Top)
    requires
        a.wf(),
        b.wf(),
        a@ == b@,
    ensures
        a == b,
{
    farthest_is_worst(a);
    farthest_is_worst(b);
    assert(a.len == b.len);
    assert forall|i: int| 0 <= i < K implies a.entries@[i] == b.entries@[i] by {
        if i < a.len {
            assert(a.entries@[i] == a@[i] && b.entries@[i] == b@[i]);
        } else {
            assert(a.entries@[i] == (i64::MAX, 0u8) && b.entries@[i] == (i64::MAX, 0u8));
        }
    }
    assert(a.entries =~= b.entries);
}

/// The label of each entry, in place.
pub fn labels_to_result(top: &[(i64, u8); K]) -> (result: [Label; K])
    ensures
        result@ == verdict(top@),
        forall|i: int| 0 <= i < K ==> #[trigger] result@[i] == label_of(top@[i].1),
{
    let mut result = [Label::Legit; K];
    for i in 0..K
        invariant
            forall|j: int| 0 <= j < i ==> #[trigger] result@[j] == label_of(top@[j].1),
            forall|j: int| i <= j < K ==> #[trigger] result@[j] == Label::Legit,
    {
        if top[i].1 == 1 {
            result[i] = Label::Fraud;
        }
    }
    assert(result@ =~= verdict(top@));
    result
}

} // verus!
