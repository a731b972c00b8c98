use vstd::prelude::*;
use crate::text::same_text;

verus! {

/// One space: its code and its current counter.
pub struct Space {
    pub id: String,
    pub count: isize,
}

/// Clamps a value into the range a counter may take: never below zero, never above `isize::MAX`.
pub open spec fn clamp(n: int) -> int {
    if n < 0 {
        0
    } else if n > isize::MAX {
        isize::MAX as int
    } else {
        n
    }
}

/// The counter after one adjustment: `relative` adds, `absolute` replaces, both clamped;
/// any other mode leaves the counter as it was.
pub open spec fn adjusted(count: int, mode: Seq<char>, value: int) -> int {
    if mode == "relative"@ {
        clamp(count + value)
    } else if mode == "absolute"@ {
        clamp(value)
    } else {
        count
    }
}

/// The counter of a space in a table, where a space never seen counts zero.
pub open spec fn current(m: Map<Seq<char>, int>, code: Seq<char>) -> int {
    if m.contains_key(code) {
        m[code]
    } else {
        0
    }
}

/// The table once a space is sure to exist: a space never seen is created at zero.
pub open spec fn opened(m: Map<Seq<char>, int>, code: Seq<char>) -> Map<Seq<char>, int> {
    if m.contains_key(code) {
        m
    } else {
        m.insert(code, 0)
    }
}

/// The counter reached from zero by relative adjustments applied one at a time,
/// each result clamped before the next value is added.
pub open spec fn relative_fold(values: Seq<int>) -> int
    decreases values.len(),
{
    if values.len() == 0 {
        0
    } else {
        clamp(relative_fold(values.drop_last()) + values.last())
    }
}

/// The table after relative adjustments of one space, applied in order.
pub open spec fn after_relative(m: Map<Seq<char>, int>, code: Seq<char>, values: Seq<int>) -> Map<
    Seq<char>,
    int,
>
    decreases values.len(),
{
    if values.len() == 0 {
        m
    } else {
        let prev = after_relative(m, code, values.drop_last());
        prev.insert(code, adjusted(current(prev, code), "relative"@, values.last()))
    }
}

/// The counters of all spaces seen so far, keyed by space code.
pub struct SpaceTable {
    spaces: Vec<Space>,
}

impl SpaceTable {
    pub closed spec fn has_at(self, code: Seq<char>, i: int) -> bool {
        0 <= i < self.spaces@.len() && self.spaces@[i].id@ == code
    }

    /// Space codes are unique and every counter lies in `0..=isize::MAX`.
    pub closed spec fn wf(self) -> bool {
        &&& forall|i: int, j: int|
            0 <= i < j < self.spaces@.len() ==> self.spaces@[i].id@ != self.spaces@[j].id@
        &&& forall|i: int| 0 <= i < self.spaces@.len() ==> self.spaces@[i].count >= 0
    }

    /// The table as a map from space code to counter.
    pub closed spec fn view(self) -> Map<Seq<char>, int> {
        Map::new(
            |k: Seq<char>| exists|i: int| self.has_at(k, i),
            |k: Seq<char>| self.spaces@[choose|i: int| self.has_at(k, i)].count as int,
        )
    }

    proof fn lemma_at(self, i: int)
        requires
            self.wf(),
            0 <= i < self.spaces@.len(),
        ensures
            self@.contains_key(self.spaces@[i].id@),
            self@[self.spaces@[i].id@] == self.spaces@[i].count as int,
    {
        let k = self.spaces@[i].id@;
        assert(self.has_at(k, i));
        let j = choose|j: int| self.has_at(k, j);
        assert(i == j);
    }

    proof fn lemma_counts(self)
        requires
            self.wf(),
        ensures
            forall|k: Seq<char>| #[trigger] self@.contains_key(k) ==> 0 <= self@[k] <= isize::MAX,
    {
        assert forall|k: Seq<char>| #[trigger] self@.contains_key(k) implies 0 <= self@[k]
            <= isize::MAX by {
            let j = choose|j: int| self.has_at(k, j);
            self.lemma_at(j);
        }
    }

    /// An empty table.
    pub fn new() -> (r: SpaceTable)
        ensures
            r.wf(),
            r@ == Map::<Seq<char>, int>::empty(),
    {
        let r = SpaceTable { spaces: Vec::new() };
        assert(r@ =~= Map::<Seq<char>, int>::empty());
        r
    }

    fn find(&self, code: &str) -> (r: Option<usize>)
        requires
            self.wf(),
        ensures
            match r {
                Some(i) => self.has_at(code@, i as int),
                None => !self@.contains_key(code@),
            },
    {
        let mut i: usize = 0;
        while i < self.spaces.len()
            invariant
                i <= self.spaces@.len(),
                forall|j: int| 0 <= j < i ==> !self.has_at(code@, j),
            decreases self.spaces@.len() - i,
        {
            if same_text(self.spaces[i].id.as_str(), code) {
                return Some(i);
            }
            i = i + 1;
        }
        None
    }

    /// The counter of a space; a space never seen counts zero.
    pub fn count_of(&self, code: &str) -> (r: isize)
        requires
            self.wf(),
        ensures
            r as int == current(self@, code@),
    {
        match self.find(code) {
            Some(i) => {
                proof {
                    self.lemma_at(i as int);
                }
                self.spaces[i].count
            },
            None => 0,
        }
    }

    /// The index of a space's entry, created with counter zero when it was never seen.
    fn slot(&mut self, code: &str) -> (i: usize)
        requires
            old(self).wf(),
        ensures
            final(self).wf(),
            final(self)@ == opened(old(self)@, code@),
            final(self).has_at(code@, i as int),
    {
        match self.find(code) {
            Some(i) => {
                proof {
                    self.lemma_at(i as int);
                    assert(self@ =~= opened(old(self)@, code@));
                }
                i
            },
            None => {
                let ghost o = *self;
                self.spaces.push(Space { id: String::from_str(code), count: 0 });
                let n = self.spaces.len() - 1;
                proof {
                    assert forall|j: int| 0 <= j < n implies self.spaces@[j].id@ != code@ by {
                        assert(self.spaces@[j] == o.spaces@[j]);
                        if o.has_at(code@, j) {
                            assert(o@.contains_key(code@));
                        }
                    }
                    assert forall|k: Seq<char>| k != code@ implies (#[trigger] self@.contains_key(k)
                        == o@.contains_key(k)) && (self@.contains_key(k) ==> self@[k] == o@[k]) by {
                        if o@.contains_key(k) {
                            let j = choose|j: int| o.has_at(k, j);
                            assert(self.has_at(k, j));
                            self.lemma_at(j);
                            o.lemma_at(j);
                        }
                        if self@.contains_key(k) {
                            let j = choose|j: int| self.has_at(k, j);
                            assert(o.has_at(k, j));
                        }
                    }
                    self.lemma_at(n as int);
                    assert(self@ =~= opened(old(self)@, code@));
                }
                n
            },
        }
    }

    /// Makes sure a space exists, creating it with counter zero when it was never seen.
    pub fn open(&mut self, code: &str)
        requires
            old(self).wf(),
        ensures
            final(self).wf(),
            final(self)@ == opened(old(self)@, code@),
    {
        self.slot(code);
    }

    /// Applies one adjustment to a space, creating it with counter zero when it was never
    /// seen, and returns the new counter.
    pub fn adjust(&mut self, code: &str, mode: &str, value: isize) -> (r: isize)
        requires
            old(self).wf(),
        ensures
            final(self).wf(),
            r as int == adjusted(current(old(self)@, code@), mode@, value as int),
            final(self)@ == old(self)@.insert(code@, r as int),
            r >= 0,
            mode@ == "absolute"@ && value < 0 ==> r == 0,
            !old(self)@.contains_key(code@) ==> r as int == adjusted(0, mode@, value as int),
    {
        proof {
            self.lemma_counts();
        }
        let i = self.slot(code);
        let ghost mid = *self;
        proof {
            mid.lemma_at(i as int);
        }
        let count = self.spaces[i].count;
        let relative = same_text(mode, "relative");
        let absolute = same_text(mode, "absolute");
        proof {
            reveal_strlit("relative");
            reveal_strlit("absolute");
            assert("absolute"@[0] != "relative"@[0]);
        }
        let next: isize = if relative {
            if value > 0 && count > isize::MAX - value {
                isize::MAX
            } else if count + value < 0 {
                0
            } else {
                count + value
            }
        } else if absolute {
            if value < 0 {
                0
            } else {
                value
            }
        } else {
            count
        };
        let id = self.spaces[i].id.clone();
        self.spaces.set(i, Space { id, count: next });
        proof {
            let o = mid;
            assert(forall|j: int| 0 <= j < self.spaces@.len() && j != i ==> self.spaces@[j] == mid.spaces@[j]);
            assert forall|k: Seq<char>| k != code@ implies (#[trigger] self@.contains_key(k)
                == o@.contains_key(k)) && (self@.contains_key(k) ==> self@[k] == o@[k]) by {
                if o@.contains_key(k) {
                    let j = choose|j: int| o.has_at(k, j);
                    assert(self.has_at(k, j));
                    self.lemma_at(j);
                    o.lemma_at(j);
                }
                if self@.contains_key(k) {
                    let j = choose|j: int| self.has_at(k, j);
                    assert(o.has_at(k, j));
                }
            }
            self.lemma_at(i as int);
            assert(self@ =~= old(self)@.insert(code@, next as int));
        }
        next
    }
}

/// Relative adjustments of a space never seen before, applied one at a time, leave it at
/// the left fold of the per-step clamping rule, starting from zero.
pub proof fn lemma_relative_sequence(m: Map<Seq<char>, int>, code: Seq<char>, values: Seq<int>)
    requires
        !m.contains_key(code),
    ensures
        after_relative(m, code, values).contains_key(code) || values.len() == 0,
        current(after_relative(m, code, values), code) == relative_fold(values),
    decreases values.len(),
{
    reveal_strlit("relative");
    if values.len() > 0 {
        lemma_relative_sequence(m, code, values.drop_last());
    }
}

/// The per-step fold of relative adjustments with only the floor at zero and no ceiling.
pub open spec fn floor_fold(values: Seq<int>) -> int
    decreases values.len(),
{
    if values.len() == 0 {
        0
    } else {
        let c = floor_fold(values.drop_last()) + values.last();
        if c < 0 {
            0
        } else {
            c
        }
    }
}

/// While no running counter would pass `isize::MAX`, the table's per-step fold is the plain
/// fold `max(count + value, 0)`: the ceiling never comes into play.
pub proof fn lemma_fold_without_ceiling(values: Seq<int>)
    requires
        forall|k: int| 0 <= k <= values.len() ==> #[trigger] floor_fold(values.take(k)) <= isize::MAX,
    ensures
        relative_fold(values) == floor_fold(values),
    decreases values.len(),
{
    if values.len() > 0 {
        let prev = values.drop_last();
        assert forall|k: int| 0 <= k <= prev.len() implies #[trigger] floor_fold(prev.take(k)) <= isize::MAX by {
            assert(prev.take(k) =~= values.take(k));
        }
        lemma_fold_without_ceiling(prev);
        assert(values.take(values.len() as int) =~= values);
    }
}

} // verus!
