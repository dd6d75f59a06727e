//! The table of known files: for each path seen by the change detector, the
//! modification time (whole seconds since the epoch) last observed for it.
use vstd::prelude::*;

verus! {

/// Paths mapped to their last observed modification time. Entries are kept
/// in the order in which their paths were first seen; no path occurs twice.
///
/// A scan meets the files of an unchanged tree in the same order each time,
/// so a lookup starts just after the entry that the last record found (at
/// the start, after a new path): in the steady state of a polling loop each
/// lookup hits at once.
pub struct FileTimes {
    entries: Vec<(String, u64)>,
    cursor: usize,
}

impl FileTimes {
    /// The paths of the table, in order of first sight.
    pub closed spec fn paths(&self) -> Seq<Seq<char>> {
        self.entries@.map_values(|e: (String, u64)| e.0@)
    }

    /// No path occurs twice.
    pub closed spec fn wf(&self) -> bool {
        self.paths().no_duplicates()
    }

    /// An empty table.
    pub fn new() -> (r: Self)
        ensures
            r.wf(),
            r@ == Map::<Seq<char>, u64>::empty(),
    {
        let r = FileTimes { entries: Vec::new(), cursor: 0 };
        assert(r@ =~= Map::<Seq<char>, u64>::empty());
        r
    }

    /// Position of `path` in the table. The search starts at the cursor and
    /// wraps around.
    fn position(&self, path: &String) -> (r: Option<usize>)
        ensures
            match r {
                Some(i) => i < self.entries@.len() && self.entries@[i as int].0@ == path@,
                None => !self.paths().contains(path@),
            },
    {
        let n = self.entries.len();
        let start = if self.cursor < n {
            self.cursor
        } else {
            0
        };
        let mut i: usize = start;
        while i < n
            invariant
                n == self.entries@.len(),
                start <= i <= n,
                forall|j: int| start <= j < i ==> #[trigger] self.entries@[j].0@ != path@,
            decreases n - i,
        {
            if self.entries[i].0 == *path {
                return Some(i);
            }
            i = i + 1;
        }
        let mut i: usize = 0;
        while i < start
            invariant
                n == self.entries@.len(),
                start <= n,
                0 <= i <= start,
                forall|j: int| start <= j < n ==> #[trigger] self.entries@[j].0@ != path@,
                forall|j: int| 0 <= j < i ==> #[trigger] self.entries@[j].0@ != path@,
            decreases start - i,
        {
            if self.entries[i].0 == *path {
                return Some(i);
            }
            i = i + 1;
        }
        None
    }

    /// Number of recorded paths.
    pub fn len(&self) -> (r: usize)
        requires
            self.wf(),
        ensures
            r == self@.len(),
    {
        proof {
            self.lemma_dom();
            self.paths().unique_seq_to_set();
        }
        self.entries.len()
    }

    /// Whether no path is recorded.
    pub fn is_empty(&self) -> (r: bool)
        requires
            self.wf(),
        ensures
            r == (self@.len() == 0),
    {
        self.len() == 0
    }

    /// The time recorded for `path`, if it is recorded.
    pub fn get(&self, path: &String) -> (r: Option<u64>)
        requires
            self.wf(),
        ensures
            r == (if self@.contains_key(path@) {
                Some(self@[path@])
            } else {
                None
            }),
    {
        match self.position(path) {
            Some(i) => {
                proof {
                    self.lemma_at(i as int);
                }
                Some(self.entries[i].1)
            },
            None => None,
        }
    }

    /// Whether `path` is recorded.
    pub fn contains_key(&self, path: &String) -> (r: bool)
        requires
            self.wf(),
        ensures
            r == self@.contains_key(path@),
    {
        self.get(path).is_some()
    }

    /// Records `time` for `path`. Returns whether this is news: the path was
    /// not recorded yet, or was recorded with another time.
    pub fn record(&mut self, path: &String, time: u64) -> (changed: bool)
        requires
            old(self).wf(),
        ensures
            final(self).wf(),
            changed == !(old(self)@.contains_key(path@) && old(self)@[path@] == time),
            final(self)@ == old(self)@.insert(path@, time),
    {
        let ghost before = *self;
        let ghost k = path@;
        match self.position(path) {
            Some(i) => {
                proof {
                    self.lemma_at(i as int);
                }
                let n = self.entries.len();
                assert(i < n);
                self.cursor = i + 1;
                if self.entries[i].1 == time {
                    assert(self@ =~= self@.insert(path@, time));
                    false
                } else {
                    self.entries.set(i, (path.clone(), time));
                    proof {
                        assert(self.paths() =~= before.paths());
                        before.lemma_all();
                        assert forall|j: int| 0 <= j < self.entries@.len() implies
                            before@.insert(k, time).contains_key(#[trigger] self.entries@[j].0@)
                            && before@.insert(k, time)[self.entries@[j].0@] == self.entries@[j].1 by {
                            if j != i {
                                assert(self.entries@[j] == before.entries@[j]);
                                assert(before.paths()[j] != before.paths()[i as int]);
                            }
                        }
                        assert forall|q: Seq<char>| #[trigger] before@.insert(k, time).contains_key(q)
                            implies self.paths().contains(q) by {
                            if q != k {
                                let j = choose|j: int| 0 <= j < before.paths().len() && before.paths()[j] == q;
                                assert(self.paths()[j] == q);
                            }
                        }
                        self.lemma_view_from(before@.insert(k, time));
                    }
                    true
                }
            },
            None => {
                self.entries.push((path.clone(), time));
                self.cursor = 0;
                proof {
                    assert(self.paths() =~= before.paths().push(k));
                    assert forall|a: int, b: int|
                        0 <= a < self.paths().len() && 0 <= b < self.paths().len() && a != b
                        implies self.paths()[a] != self.paths()[b] by {
                        if a < before.paths().len() && b < before.paths().len() {
                            assert(before.paths()[a] != before.paths()[b]);
                        } else if a < before.paths().len() {
                            assert(before.paths().contains(before.paths()[a]));
                        } else {
                            assert(before.paths().contains(before.paths()[b]));
                        }
                    }
                    assert forall|j: int| 0 <= j < before.entries@.len() implies
                        #[trigger] self.entries@[j] == before.entries@[j] by {}
                    before.lemma_all();
                    assert forall|q: Seq<char>| #[trigger] before@.insert(k, time).contains_key(q)
                        implies self.paths().contains(q) by {
                        if q != k {
                            let j = choose|j: int| 0 <= j < before.paths().len() && before.paths()[j] == q;
                            assert(self.paths()[j] == q);
                        } else {
                            assert(self.paths()[self.paths().len() - 1] == q);
                        }
                    }
                    self.lemma_view_from(before@.insert(k, time));
                }
                true
            },
        }
    }

    /// Every entry is what the view maps its path to.
    proof fn lemma_all(&self)
        requires
            self.wf(),
        ensures
            forall|j: int| 0 <= j < self.entries@.len() ==>
                self@.contains_key(#[trigger] self.entries@[j].0@)
                && self@[self.entries@[j].0@] == self.entries@[j].1,
    {
        assert forall|j: int| 0 <= j < self.entries@.len() implies
            self@.contains_key(#[trigger] self.entries@[j].0@)
            && self@[self.entries@[j].0@] == self.entries@[j].1 by {
            self.lemma_at(j);
        }
    }

    /// The view is `m` when `m` maps exactly the paths of the entries to their times.
    proof fn lemma_view_from(&self, m: Map<Seq<char>, u64>)
        requires
            self.wf(),
            forall|j: int| 0 <= j < self.entries@.len() ==>
                m.contains_key(#[trigger] self.entries@[j].0@) && m[self.entries@[j].0@] == self.entries@[j].1,
            forall|q: Seq<char>| #[trigger] m.contains_key(q) ==> self.paths().contains(q),
        ensures
            self@ == m,
    {
        self.lemma_all();
        assert forall|q: Seq<char>| #[trigger] self@.contains_key(q) == m.contains_key(q) by {
            if self.paths().contains(q) {
                let j = choose|j: int| 0 <= j < self.paths().len() && self.paths()[j] == q;
                assert(self.entries@[j].0@ == q);
            }
        }
        assert forall|q: Seq<char>| #[trigger] self@.contains_key(q) implies self@[q] == m[q] by {
            let j = choose|j: int| 0 <= j < self.paths().len() && self.paths()[j] == q;
            assert(self.entries@[j].0@ == q);
        }
        assert(self@ =~= m);
    }

    /// The entry at position `i` is what the view maps its path to.
    proof fn lemma_at(&self, i: int)
        requires
            self.paths().no_duplicates(),
            0 <= i < self.entries@.len(),
        ensures
            self@.contains_key(self.entries@[i].0@),
            self@[self.entries@[i].0@] == self.entries@[i].1,
    {
        let p = self.entries@[i].0@;
        assert(self.paths()[i] == p);
        let j = choose|j: int| 0 <= j < self.paths().len() && self.paths()[j] == p;
        assert(self.paths()[j] == p);
    }

    /// The recorded paths are exactly those of the entries.
    proof fn lemma_dom(&self)
        ensures
            self@.dom() =~= self.paths().to_set(),
    {
    }
}

impl View for FileTimes {
    type V = Map<Seq<char>, u64>;

    /// Each path of the table mapped to its recorded time.
    closed spec fn view(&self) -> Map<Seq<char>, u64> {
        Map::new(
            |p: Seq<char>| self.paths().contains(p),
            |p: Seq<char>|
                self.entries@[choose|j: int| 0 <= j < self.paths().len() && self.paths()[j] == p].1,
        )
    }
}

} // verus!
