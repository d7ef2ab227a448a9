//! Per-run animation records that persist across frames, keyed by the text
//! of the run. The table is owned by the caller and handed to each frame, so
//! the caller decides how long entries live.
use vstd::prelude::*;

verus! {

/// When a run was first drawn, and the running character index it was given.
#[derive(Clone, Copy, Debug, PartialEq, Eq, Structural)]
pub struct AnimationState {
    pub start_ms: u64,
    pub char_offset: u64,
}

/// The animation records, one per distinct run text.
pub struct AnimationTable {
    entries: Vec<(String, AnimationState)>,
}

/// The records of `s` as a map; a later entry for a key wins.
pub open spec fn entries_map(s: Seq<(String, AnimationState)>) -> Map<Seq<char>, AnimationState>
    decreases s.len(),
{
    if s.len() == 0 {
        Map::empty()
    } else {
        entries_map(s.drop_last()).insert(s.last().0@, s.last().1)
    }
}

pub open spec fn keys_unique(s: Seq<(String, AnimationState)>) -> bool {
    forall|i: int, j: int| 0 <= i < j < s.len() ==> #[trigger] s[i].0@ != #[trigger] s[j].0@
}

proof fn lemma_entries_map_has(s: Seq<(String, AnimationState)>, i: int)
    requires
        keys_unique(s),
        0 <= i < s.len(),
    ensures
        entries_map(s).contains_key(s[i].0@),
        entries_map(s)[s[i].0@] == s[i].1,
    decreases s.len(),
{
    if i < s.len() - 1 {
        let p = s.drop_last();
        assert(p[i] == s[i]);
        assert(keys_unique(p));
        lemma_entries_map_has(p, i);
        assert(s[i].0@ != s[s.len() - 1].0@);
    }
}

proof fn lemma_entries_map_update(s: Seq<(String, AnimationState)>, i: int, e: (String, AnimationState))
    requires
        keys_unique(s),
        0 <= i < s.len(),
        e.0@ == s[i].0@,
    ensures
        keys_unique(s.update(i, e)),
        entries_map(s.update(i, e)) == entries_map(s).insert(e.0@, e.1),
    decreases s.len(),
{
    let t = s.update(i, e);
    assert forall|j: int, k: int| 0 <= j < k < t.len() implies #[trigger] t[j].0@ != #[trigger] t[k].0@ by {
        assert(s[j].0@ != s[k].0@);
    }
    if i == s.len() - 1 {
        assert(t.drop_last() =~= s.drop_last());
        assert(entries_map(t) =~= entries_map(s).insert(e.0@, e.1));
    } else {
        let p = s.drop_last();
        assert(keys_unique(p));
        assert(t.drop_last() =~= p.update(i, e));
        lemma_entries_map_update(p, i, e);
        assert(s[i].0@ != s[s.len() - 1].0@);
        assert(entries_map(t) =~= entries_map(s).insert(e.0@, e.1));
    }
}

proof fn lemma_entries_map_lacks(s: Seq<(String, AnimationState)>, k: Seq<char>)
    requires
        forall|i: int| 0 <= i < s.len() ==> #[trigger] s[i].0@ != k,
    ensures
        !entries_map(s).contains_key(k),
    decreases s.len(),
{
    if s.len() > 0 {
        let p = s.drop_last();
        assert forall|i: int| 0 <= i < p.len() implies #[trigger] p[i].0@ != k by {
            assert(p[i] == s[i]);
        }
        lemma_entries_map_lacks(p, k);
        assert(s[s.len() - 1].0@ != k);
    }
}

impl View for AnimationTable {
    type V = Map<Seq<char>, AnimationState>;

    closed spec fn view(&self) -> Map<Seq<char>, AnimationState> {
        entries_map(self.entries@)
    }
}

impl AnimationTable {
    /// No two records share a key.
    pub closed spec fn wf(&self) -> bool {
        keys_unique(self.entries@)
    }

    pub fn new() -> (t: AnimationTable)
        ensures
            t.wf(),
            t@ == Map::<Seq<char>, AnimationState>::empty(),
    {
        AnimationTable { entries: Vec::new() }
    }

    /// The record of run `key`, if it was seen before.
    pub fn get(&self, key: &String) -> (r: Option<AnimationState>)
        requires
            self.wf(),
        ensures
            r == (if self@.contains_key(key@) {
                Some(self@[key@])
            } else {
                None
            }),
    {
        let mut i: usize = 0;
        while i < self.entries.len()
            invariant
                self.wf(),
                i <= self.entries.len(),
                forall|j: int| 0 <= j < i ==> #[trigger] self.entries@[j].0@ != key@,
            decreases self.entries.len() - i,
        {
            if self.entries[i].0 == *key {
                proof {
                    lemma_entries_map_has(self.entries@, i as int);
                }
                return Some(self.entries[i].1);
            }
            i = i + 1;
        }
        proof {
            lemma_entries_map_lacks(self.entries@, key@);
        }
        None
    }

    /// Records that run `key` is drawn at `now_ms` with running character
    /// index `char_offset`, and returns its record: the start time is kept
    /// from the first time the run was seen (`now_ms` on first sight), the
    /// character offset is the one given.
    pub fn touch(&mut self, key: &String, now_ms: u64, char_offset: u64) -> (r: AnimationState)
        requires
            old(self).wf(),
        ensures
            final(self).wf(),
            r.start_ms == (if old(self)@.contains_key(key@) {
                old(self)@[key@].start_ms
            } else {
                now_ms
            }),
            r.char_offset == char_offset,
            final(self)@ == old(self)@.insert(key@, r),
    {
        let ghost before = self.entries@;
        let mut i: usize = 0;
        while i < self.entries.len()
            invariant
                self.wf(),
                self.entries@ == before,
                old(self).entries@ == before,
                i <= self.entries.len(),
                forall|j: int| 0 <= j < i ==> #[trigger] self.entries@[j].0@ != key@,
            decreases self.entries.len() - i,
        {
            if self.entries[i].0 == *key {
                proof {
                    lemma_entries_map_has(before, i as int);
                }
                let st = AnimationState { start_ms: self.entries[i].1.start_ms, char_offset };
                let entry = (key.clone(), st);
                let ghost g = entry;
                self.entries.set(i, entry);
                proof {
                    lemma_entries_map_update(before, i as int, g);
                }
                return st;
            }
            i = i + 1;
        }
        proof {
            lemma_entries_map_lacks(before, key@);
        }
        let st = AnimationState { start_ms: now_ms, char_offset };
        self.entries.push((key.clone(), st));
        assert(self.entries@.drop_last() =~= before);
        st
    }

    /// The number of records.
    pub fn len(&self) -> (n: usize)
        requires
            self.wf(),
        ensures
            n == self@.len(),
    {
        proof {
            self.lemma_len();
        }
        self.entries.len()
    }

    proof fn lemma_len(&self)
        requires
            self.wf(),
        ensures
            self.entries@.len() == self@.len(),
    {
        lemma_unique_entries_len(self.entries@);
    }
}

proof fn lemma_unique_entries_len(s: Seq<(String, AnimationState)>)
    requires
        keys_unique(s),
    ensures
        entries_map(s).dom().finite(),
        entries_map(s).len() == s.len(),
    decreases s.len(),
{
    if s.len() > 0 {
        let p = s.drop_last();
        assert(keys_unique(p));
        lemma_unique_entries_len(p);
        assert forall|i: int| 0 <= i < p.len() implies #[trigger] p[i].0@ != s.last().0@ by {
            assert(p[i] == s[i]);
        }
        lemma_entries_map_lacks(p, s.last().0@);
    }
}

} // verus!
