//! A map with text keys, and the cap on how many conversations one may track.
use vstd::prelude::*;

use crate::text;

verus! {

/// The map that a list of entries stands for: of equal keys, the last one counts.
pub open spec fn entries_map<V>(s: Seq<(String, V)>) -> Map<Seq<char>, V>
    decreases s.len(),
{
    if s.len() == 0 {
        Map::empty()
    } else {
        entries_map(s.drop_last()).insert(s.last().0@, s.last().1)
    }
}

pub open spec fn distinct_keys<V>(s: Seq<(String, V)>) -> bool {
    forall|i: int, j: int|
        0 <= i < j < s.len() ==> (#[trigger] s[i]).0@ != (#[trigger] s[j]).0@
}

proof fn lemma_entry<V>(s: Seq<(String, V)>, i: int)
    requires
        distinct_keys(s),
        0 <= i < s.len(),
    ensures
        entries_map(s).contains_key(s[i].0@),
        entries_map(s)[s[i].0@] == s[i].1,
    decreases s.len(),
{
    if i < s.len() - 1 {
        let t = s.drop_last();
        assert(distinct_keys(t)) by {
            assert forall|a: int, b: int| 0 <= a < b < t.len() implies (#[trigger] t[a]).0@ != (
            #[trigger] t[b]).0@ by {
                assert(s[a].0@ != s[b].0@);
            }
        }
        lemma_entry(t, i);
        assert(s[i].0@ != s[s.len() - 1].0@);
    }
}

proof fn lemma_absent<V>(s: Seq<(String, V)>, k: Seq<char>)
    requires
        forall|i: int| 0 <= i < s.len() ==> (#[trigger] s[i]).0@ != k,
    ensures
        !entries_map(s).contains_key(k),
    decreases s.len(),
{
    if s.len() > 0 {
        assert(s[s.len() - 1].0@ != k);
        lemma_absent(s.drop_last(), k);
    }
}

proof fn lemma_len<V>(s: Seq<(String, V)>)
    requires
        distinct_keys(s),
    ensures
        entries_map(s).dom().finite(),
        entries_map(s).len() == s.len(),
    decreases s.len(),
{
    if s.len() > 0 {
        let t = s.drop_last();
        assert(distinct_keys(t)) by {
            assert forall|a: int, b: int| 0 <= a < b < t.len() implies (#[trigger] t[a]).0@ != (
            #[trigger] t[b]).0@ by {
                assert(s[a].0@ != s[b].0@);
            }
        }
        lemma_len(t);
        assert forall|i: int| 0 <= i < t.len() implies (#[trigger] t[i]).0@ != s.last().0@ by {
            assert(s[i].0@ != s[s.len() - 1].0@);
        }
        lemma_absent(t, s.last().0@);
        assert(entries_map(s).dom() =~= entries_map(t).dom().insert(s.last().0@));
    }
}

/// Taking entry `i` out of the list takes its key out of the map.
proof fn lemma_remove<V>(s: Seq<(String, V)>, i: int)
    requires
        distinct_keys(s),
        0 <= i < s.len(),
    ensures
        distinct_keys(s.remove(i)),
        entries_map(s.remove(i)) == entries_map(s).remove(s[i].0@),
{
    let t = s.remove(i);
    assert forall|a: int, b: int| 0 <= a < b < t.len() implies (#[trigger] t[a]).0@ != (
    #[trigger] t[b]).0@ by {
        let a2 = if a < i {
            a
        } else {
            a + 1
        };
        let b2 = if b < i {
            b
        } else {
            b + 1
        };
        assert(t[a] == s[a2] && t[b] == s[b2]);
        assert(s[a2].0@ != s[b2].0@);
    }
    assert forall|k: Seq<char>|
        entries_map(t).contains_key(k) == #[trigger] entries_map(s).remove(s[i].0@).contains_key(k)
            && (entries_map(t).contains_key(k) ==> entries_map(t)[k] == entries_map(s)[k]) by {
        if exists|a: int| 0 <= a < t.len() && (#[trigger] t[a]).0@ == k {
            let a = choose|a: int| 0 <= a < t.len() && (#[trigger] t[a]).0@ == k;
            let a2 = if a < i {
                a
            } else {
                a + 1
            };
            assert(t[a] == s[a2]);
            lemma_entry(t, a);
            lemma_entry(s, a2);
            assert(s[a2].0@ != s[i].0@) by {
                if a2 < i {
                    assert(s[a2].0@ != s[i].0@);
                } else {
                    assert(s[i].0@ != s[a2].0@);
                }
            }
        } else {
            lemma_absent(t, k);
            if k != s[i].0@ {
                assert forall|b: int| 0 <= b < s.len() implies (#[trigger] s[b]).0@ != k by {
                    if b < i {
                        assert(t[b] == s[b]);
                    } else if b > i {
                        assert(t[b - 1] == s[b]);
                    }
                }
                lemma_absent(s, k);
            }
        }
    }
    assert(entries_map(t) =~= entries_map(s).remove(s[i].0@));
}

/// A map from texts to values.
pub struct KeyedMap<V> {
    entries: Vec<(String, V)>,
}

impl<V> View for KeyedMap<V> {
    type V = Map<Seq<char>, V>;

    closed spec fn view(&self) -> Map<Seq<char>, V> {
        entries_map(self.entries@)
    }
}

impl<V> KeyedMap<V> {
    #[verifier::type_invariant]
    spec fn inv(self) -> bool {
        distinct_keys(self.entries@)
    }

    pub fn new() -> (r: Self)
        ensures
            r@ == Map::<Seq<char>, V>::empty(),
    {
        let entries: Vec<(String, V)> = Vec::new();
        KeyedMap { entries }
    }

    pub fn len(&self) -> (n: usize)
        ensures
            n == self@.len(),
            self@.dom().finite(),
    {
        proof {
            use_type_invariant(self);
            lemma_len(self.entries@);
        }
        self.entries.len()
    }

    fn find(&self, k: &str) -> (r: Option<usize>)
        ensures
            match r {
                Some(i) => i < self.entries@.len() && self.entries@[i as int].0@ == k@
                    && self@.contains_key(k@) && self@[k@] == self.entries@[i as int].1,
                None => !self@.contains_key(k@) && forall|i: int|
                    0 <= i < self.entries@.len() ==> (#[trigger] self.entries@[i]).0@ != k@,
            },
    {
        proof {
            use_type_invariant(self);
        }
        let mut i: usize = 0;
        while i < self.entries.len()
            invariant
                distinct_keys(self.entries@),
                i <= self.entries@.len(),
                forall|j: int| 0 <= j < i ==> (#[trigger] self.entries@[j]).0@ != k@,
            decreases self.entries.len() - i,
        {
            if text::str_eq(self.entries[i].0.as_str(), k) {
                proof {
                    lemma_entry(self.entries@, i as int);
                }
                return Some(i);
            }
            i = i + 1;
        }
        proof {
            lemma_absent(self.entries@, k@);
        }
        None
    }

    pub fn get(&self, k: &str) -> (r: Option<&V>)
        ensures
            match r {
                Some(v) => self@.contains_key(k@) && self@[k@] == *v,
                None => !self@.contains_key(k@),
            },
    {
        match self.find(k) {
            Some(i) => Some(&self.entries[i].1),
            None => None,
        }
    }

    /// Takes the entry with key `k` out.
    pub fn remove(&mut self, k: &str) -> (r: Option<V>)
        ensures
            final(self)@ == old(self)@.remove(k@),
            match r {
                Some(v) => old(self)@.contains_key(k@) && old(self)@[k@] == v,
                None => !old(self)@.contains_key(k@),
            },
    {
        let found = self.find(k);
        proof {
            use_type_invariant(&*self);
        }
        match found {
            Some(i) => {
                let mut entries: Vec<(String, V)> = Vec::new();
                std::mem::swap(&mut entries, &mut self.entries);
                proof {
                    lemma_remove(entries@, i as int);
                }
                let entry = entries.remove(i);
                self.entries = entries;
                Some(entry.1)
            },
            None => {
                proof {
                    assert(self@.remove(k@) =~= self@);
                }
                None
            },
        }
    }

    /// Sets the value of key `k`.
    pub fn insert(&mut self, k: &str, v: V)
        ensures
            final(self)@ == old(self)@.insert(k@, v),
    {
        let ghost before = self@;
        let _ = self.remove(k);
        proof {
            use_type_invariant(&*self);
        }
        let absent = self.find(k);
        let mut entries: Vec<(String, V)> = Vec::new();
        std::mem::swap(&mut entries, &mut self.entries);
        let ghost held = entries@;
        entries.push((text::copy(k), v));
        proof {
            assert(entries@.drop_last() =~= held);
            assert forall|a: int, b: int| 0 <= a < b < entries@.len() implies (
            #[trigger] entries@[a]).0@ != (#[trigger] entries@[b]).0@ by {
                if b < held.len() {
                    assert(held[a].0@ != held[b].0@);
                } else {
                    assert(held[a].0@ != k@);
                }
            }
            assert(before.remove(k@).insert(k@, v) =~= before.insert(k@, v));
        }
        self.entries = entries;
    }

    pub fn clear(&mut self)
        ensures
            final(self)@ == Map::<Seq<char>, V>::empty(),
    {
        self.entries = Vec::new();
    }

    /// The keys, each once.
    pub fn keys(&self) -> (r: Vec<String>)
        ensures
            r@.map_values(|s: String| s@).to_set() == self@.dom(),
            r@.map_values(|s: String| s@).no_duplicates(),
    {
        proof {
            use_type_invariant(self);
        }
        let mut out: Vec<String> = Vec::new();
        let mut i: usize = 0;
        while i < self.entries.len()
            invariant
                i == out@.len(),
                i <= self.entries@.len(),
                forall|j: int| 0 <= j < i ==> (#[trigger] out@[j])@ == self.entries@[j].0@,
            decreases self.entries.len() - i,
        {
            out.push(text::copy(self.entries[i].0.as_str()));
            i = i + 1;
        }
        proof {
            let t = out@.map_values(|s: String| s@);
            assert forall|a: int, b: int| 0 <= a < t.len() && 0 <= b < t.len() && a != b implies t[a]
                != t[b] by {
                assert(t[a] == out@[a]@ && t[b] == out@[b]@);
                if a < b {
                    assert(self.entries@[a].0@ != self.entries@[b].0@);
                } else {
                    assert(self.entries@[b].0@ != self.entries@[a].0@);
                }
            }
            assert forall|k: Seq<char>| t.to_set().contains(k) == #[trigger] self@.dom().contains(
                k,
            ) by {
                if t.contains(k) {
                    let a = choose|a: int| 0 <= a < t.len() && t[a] == k;
                    assert(out@[a]@ == k);
                    lemma_entry(self.entries@, a);
                } else {
                    assert forall|a: int| 0 <= a < self.entries@.len() implies (
                    #[trigger] self.entries@[a]).0@ != k by {
                        assert(out@[a]@ == self.entries@[a].0@);
                        assert(t[a] == out@[a]@);
                    }
                    lemma_absent(self.entries@, k);
                }
            }
            assert(t.to_set() =~= self@.dom());
        }
        out
    }

    /// Some key other than `keep`.
    fn other_key(&self, keep: &str) -> (r: Option<String>)
        ensures
            match r {
                Some(k) => k@ != keep@ && self@.contains_key(k@),
                None => forall|k: Seq<char>| #[trigger] self@.contains_key(k) ==> k == keep@,
            },
    {
        proof {
            use_type_invariant(self);
        }
        let mut i: usize = 0;
        while i < self.entries.len()
            invariant
                distinct_keys(self.entries@),
                i <= self.entries@.len(),
                forall|j: int| 0 <= j < i ==> (#[trigger] self.entries@[j]).0@ == keep@,
            decreases self.entries.len() - i,
        {
            if !text::str_eq(self.entries[i].0.as_str(), keep) {
                proof {
                    lemma_entry(self.entries@, i as int);
                }
                return Some(text::copy(self.entries[i].0.as_str()));
            }
            i = i + 1;
        }
        proof {
            assert forall|k: Seq<char>| #[trigger] self@.contains_key(k) implies k == keep@ by {
                if k != keep@ {
                    lemma_absent(self.entries@, k);
                }
            }
        }
        None
    }
}

/// The most conversations that are tracked at once.
pub const MAX_TRACKED_CONVERSATIONS: usize = 256;

/// `after` is `before` with room made for `keep`: below the cap nothing changes; at the cap
/// some entry other than that of `keep` is gone, if there is one.
pub open spec fn room_made<V>(
    before: Map<Seq<char>, V>,
    after: Map<Seq<char>, V>,
    keep: Seq<char>,
) -> bool {
    if before.len() < MAX_TRACKED_CONVERSATIONS || (forall|k: Seq<char>| #[trigger]
        before.contains_key(k) ==> k == keep) {
        after == before
    } else {
        exists|k: Seq<char>| #[trigger]
            before.contains_key(k) && k != keep && after == before.remove(k)
    }
}

/// Makes room for one more conversation.
pub fn evict_one_if_full<V>(map: &mut KeyedMap<V>, keep: &str)
    ensures
        room_made(old(map)@, final(map)@, keep@),
{
    if map.len() < MAX_TRACKED_CONVERSATIONS {
        return;
    }
    if let Some(k) = map.other_key(keep) {
        let _ = map.remove(k.as_str());
    }
}

/// Making room never drops the conversation that room is made for, drops at most one other,
/// and leaves the rest as they were.
pub proof fn law_eviction_keeps<V>(
    before: Map<Seq<char>, V>,
    after: Map<Seq<char>, V>,
    keep: Seq<char>,
)
    requires
        room_made(before, after, keep),
        before.dom().finite(),
    ensures
        before.contains_key(keep) ==> after.contains_key(keep) && after[keep] == before[keep],
        forall|k: Seq<char>| #[trigger]
            after.contains_key(k) ==> before.contains_key(k) && after[k] == before[k],
        before.len() <= MAX_TRACKED_CONVERSATIONS && !before.contains_key(keep) ==> after.len()
            < MAX_TRACKED_CONVERSATIONS,
        after.len() + 1 >= before.len(),
{
    if !(before.len() < MAX_TRACKED_CONVERSATIONS) && !(forall|k: Seq<char>| #[trigger]
        before.contains_key(k) ==> k == keep) {
        let k = choose|k: Seq<char>| #[trigger]
            before.contains_key(k) && k != keep && after == before.remove(k);
        assert(after.dom() =~= before.dom().remove(k));
    } else if !(before.len() < MAX_TRACKED_CONVERSATIONS) && !before.contains_key(keep) {
        assert(before.dom() =~= Set::empty());
    }
}

/// Room is made only where two hundred and fifty-six conversations are remembered, and then one
/// other conversation is forgotten.
pub proof fn law_eviction_only_when_full<V>(
    before: Map<Seq<char>, V>,
    after: Map<Seq<char>, V>,
    keep: Seq<char>,
    other: Seq<char>,
)
    requires
        room_made(before, after, keep),
        before.dom().finite(),
    ensures
        before.len() < 256 ==> after == before,
        before.len() >= 256 && before.contains_key(other) && other != keep ==> after.len() + 1
            == before.len(),
{
    if before.len() >= 256 && before.contains_key(other) && other != keep {
        let k = choose|k: Seq<char>| #[trigger]
            before.contains_key(k) && k != keep && after == before.remove(k);
        assert(after.dom() =~= before.dom().remove(k));
    }
}

} // verus!
