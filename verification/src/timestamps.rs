//! Instants in time and maps keyed by strings (device identifiers).

use vstd::prelude::*;

verus! {

/// An instant in UTC: whole seconds since the Unix epoch and the
/// nanoseconds within that second.
#[derive(Clone, Copy, Debug, PartialEq, Eq, Structural)]
pub struct Timestamp {
    pub seconds: i64,
    pub nanos: u32,
}

/// The timestamp of a `(seconds, nanoseconds)` pair.
pub open spec fn timestamp_of(p: Option<(i64, u32)>) -> Option<Timestamp> {
    match p {
        Some((s, n)) => Some(Timestamp { seconds: s, nanos: n }),
        None => None,
    }
}

/// A map from strings to values, each key occurring once.
pub struct StringMap<V> {
    entries: Vec<(String, V)>,
}

/// Installation timestamps keyed by device identifier.
pub type TimestampMap = StringMap<Timestamp>;

/// The map that a list of entries stands for; later entries win.
pub open spec fn entries_map<V>(s: Seq<(String, V)>) -> Map<Seq<char>, V>
    decreases s.len(),
{
    if s.len() == 0 {
        Map::empty()
    } else {
        entries_map(s.drop_last()).insert(s.last().0@, s.last().1)
    }
}

/// No key occurs twice in the list.
pub open spec fn keys_distinct<V>(s: Seq<(String, V)>) -> bool {
    forall|i: int, j: int| 0 <= i < j < s.len() ==> #[trigger] s[i].0@ != #[trigger] s[j].0@
}

proof fn lemma_entries_dom<V>(s: Seq<(String, V)>, k: Seq<char>)
    ensures
        entries_map(s).dom().contains(k) <==> exists|i: int| 0 <= i < s.len() && #[trigger] s[i].0@
            == k,
    decreases s.len(),
{
    if s.len() > 0 {
        lemma_entries_dom(s.drop_last(), k);
        if entries_map(s.drop_last()).dom().contains(k) {
            let i = choose|i: int| 0 <= i < s.drop_last().len() && #[trigger] s.drop_last()[i].0@ == k;
            assert(s[i].0@ == k);
        }
        if exists|i: int| 0 <= i < s.len() && #[trigger] s[i].0@ == k {
            let i = choose|i: int| 0 <= i < s.len() && #[trigger] s[i].0@ == k;
            if i < s.len() - 1 {
                assert(s.drop_last()[i].0@ == k);
            }
        }
    }
}

proof fn lemma_entries_value<V>(s: Seq<(String, V)>, i: int)
    requires
        keys_distinct(s),
        0 <= i < s.len(),
    ensures
        entries_map(s).dom().contains(s[i].0@),
        entries_map(s)[s[i].0@] == s[i].1,
    decreases s.len(),
{
    if i < s.len() - 1 {
        let t = s.drop_last();
        assert(keys_distinct(t)) by {
            assert forall|a: int, b: int| 0 <= a < b < t.len() implies #[trigger] t[a].0@
                != #[trigger] t[b].0@ by {
                assert(s[a].0@ != s[b].0@);
            }
        }
        lemma_entries_value(t, i);
        assert(s[i].0@ != s[s.len() - 1].0@);
    }
}

proof fn lemma_entries_len<V>(s: Seq<(String, V)>)
    requires
        keys_distinct(s),
    ensures
        entries_map(s).dom().finite(),
        entries_map(s).dom().len() == s.len(),
    decreases s.len(),
{
    if s.len() > 0 {
        let t = s.drop_last();
        assert(keys_distinct(t)) by {
            assert forall|a: int, b: int| 0 <= a < b < t.len() implies #[trigger] t[a].0@
                != #[trigger] t[b].0@ by {
                assert(s[a].0@ != s[b].0@);
            }
        }
        lemma_entries_len(t);
        lemma_entries_dom(t, s.last().0@);
        if entries_map(t).dom().contains(s.last().0@) {
            let i = choose|i: int| 0 <= i < t.len() && #[trigger] t[i].0@ == s.last().0@;
            assert(s[i].0@ != s[s.len() - 1].0@);
        }
    }
}

impl<V> StringMap<V> {
    #[verifier::type_invariant]
    spec fn inv(self) -> bool {
        keys_distinct(self.entries@)
    }

    /// The empty map.
    pub fn new() -> (r: Self)
        ensures
            r@ == Map::<Seq<char>, V>::empty(),
    {
        StringMap { entries: Vec::new() }
    }

    /// Sets the value of `key`, replacing an earlier one.
    pub fn insert(&mut self, key: String, value: V)
        ensures
            final(self)@ == old(self)@.insert(key@, value),
    {
        proof {
            use_type_invariant(&*self);
        }
        let ghost s = self.entries@;
        let mut i: usize = 0;
        while i < self.entries.len()
            invariant
                self.entries@ == s,
                old(self).entries@ == s,
                keys_distinct(s),
                i <= s.len(),
                forall|k: int| 0 <= k < i ==> #[trigger] s[k].0@ != key@,
            decreases s.len() - i,
        {
            if self.entries[i].0 == key {
                let ghost kk = s[i as int].0;
                let mut entries = Vec::new();
                std::mem::swap(&mut entries, &mut self.entries);
                entries.set(i, (key, value));
                let ghost t = entries@;
                proof {
                    assert(keys_distinct(t)) by {
                        assert forall|a: int, b: int| 0 <= a < b < t.len() implies #[trigger] t[a].0@
                            != #[trigger] t[b].0@ by {
                            assert(s[a].0@ != s[b].0@);
                        }
                    }
                    assert forall|k: Seq<char>| #[trigger]
                        entries_map(t).dom().contains(k) == entries_map(s).insert(
                            key@,
                            value,
                        ).dom().contains(k) by {
                        lemma_entries_dom(t, k);
                        lemma_entries_dom(s, k);
                        if exists|j: int| 0 <= j < s.len() && #[trigger] s[j].0@ == k {
                            let j = choose|j: int| 0 <= j < s.len() && #[trigger] s[j].0@ == k;
                            assert(t[j].0@ == k);
                        }
                        if exists|j: int| 0 <= j < t.len() && #[trigger] t[j].0@ == k {
                            let j = choose|j: int| 0 <= j < t.len() && #[trigger] t[j].0@ == k;
                            assert(s[j].0@ == k);
                        }
                    }
                    assert forall|k: Seq<char>| #[trigger]
                        entries_map(t).dom().contains(k) implies entries_map(t)[k] == entries_map(
                        s,
                    ).insert(key@, value)[k] by {
                        lemma_entries_dom(t, k);
                        let j = choose|j: int| 0 <= j < t.len() && #[trigger] t[j].0@ == k;
                        lemma_entries_value(t, j);
                        if j != i {
                            lemma_entries_value(s, j);
                        }
                    }
                    assert(entries_map(t) =~= entries_map(s).insert(key@, value));
                }
                self.entries = entries;
                return;
            }
            i += 1;
        }
        let ghost e = (key, value);
        let mut entries = Vec::new();
        std::mem::swap(&mut entries, &mut self.entries);
        entries.push((key, value));
        proof {
            let t = entries@;
            assert(t.drop_last() =~= s);
            assert(keys_distinct(t)) by {
                assert forall|a: int, b: int| 0 <= a < b < t.len() implies #[trigger] t[a].0@
                    != #[trigger] t[b].0@ by {
                    if b < s.len() {
                        assert(s[a].0@ != s[b].0@);
                    } else {
                        assert(s[a].0@ != key@);
                    }
                }
            }
        }
        self.entries = entries;
    }

    /// The value of `key`, if it has one.
    pub fn get(&self, key: &String) -> (r: Option<&V>)
        ensures
            match r {
                Some(v) => self@.dom().contains(key@) && *v == self@[key@],
                None => !self@.dom().contains(key@),
            },
    {
        proof {
            use_type_invariant(self);
        }
        let ghost s = self.entries@;
        let mut i: usize = 0;
        while i < self.entries.len()
            invariant
                self.entries@ == s,
                keys_distinct(s),
                i <= s.len(),
                forall|k: int| 0 <= k < i ==> #[trigger] s[k].0@ != key@,
            decreases s.len() - i,
        {
            if self.entries[i].0 == *key {
                proof {
                    lemma_entries_value(s, i as int);
                }
                return Some(&self.entries[i].1);
            }
            i += 1;
        }
        proof {
            lemma_entries_dom(s, key@);
        }
        None
    }

    /// The number of keys.
    pub fn len(&self) -> (r: usize)
        ensures
            self@.dom().finite(),
            r == self@.dom().len(),
    {
        proof {
            use_type_invariant(self);
            lemma_entries_len(self.entries@);
        }
        self.entries.len()
    }

    /// Whether the map has no key.
    pub fn is_empty(&self) -> (r: bool)
        ensures
            r == (self@.dom().len() == 0),
            r == (self@ == Map::<Seq<char>, V>::empty()),
    {
        proof {
            use_type_invariant(self);
            lemma_entries_len(self.entries@);
            if self.entries@.len() > 0 {
                lemma_entries_value(self.entries@, 0);
            }
            if self.entries@.len() == 0 {
                assert(self@ =~= Map::<Seq<char>, V>::empty());
            }
        }
        self.entries.len() == 0
    }
}

impl<V: Copy> StringMap<V> {
    /// Adds every entry of `other`, whose values win over those of `self`.
    pub fn extend(&mut self, other: &StringMap<V>)
        ensures
            final(self)@ == old(self)@.union_prefer_right(other@),
    {
        let ghost start = self@;
        let ghost s = other.entries@;
        let mut i: usize = 0;
        assert(s.take(0) =~= Seq::<(String, V)>::empty());
        assert(start.union_prefer_right(entries_map(s.take(0))) =~= start);
        while i < other.entries.len()
            invariant
                other.entries@ == s,
                i <= s.len(),
                self@ == start.union_prefer_right(entries_map(s.take(i as int))),
            decreases s.len() - i,
        {
            let key = other.entries[i].0.clone();
            let value = other.entries[i].1;
            self.insert(key, value);
            proof {
                assert(s.take(i + 1).drop_last() =~= s.take(i as int));
                assert(start.union_prefer_right(entries_map(s.take(i as int))).insert(
                    s[i as int].0@,
                    s[i as int].1,
                ) =~= start.union_prefer_right(entries_map(s.take(i + 1))));
            }
            i += 1;
        }
        assert(s.take(s.len() as int) =~= s);
    }
}

impl<V> View for StringMap<V> {
    type V = Map<Seq<char>, V>;

    closed spec fn view(&self) -> Map<Seq<char>, V> {
        entries_map(self.entries@)
    }
}

} // verus!
