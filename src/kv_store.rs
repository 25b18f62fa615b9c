use vstd::prelude::*;
use crate::error::KVStoreError;
use crate::record::{
    encode_record, is_valid_field, parse_line, record_line, replay, valid_field,
};

verus! {

/// The mapping that a list of (key, value) entries stands for; a later entry
/// of a key wins over an earlier one.
pub open spec fn map_of(s: Seq<(String, String)>) -> Map<Seq<char>, Seq<char>>
    decreases s.len(),
{
    if s.len() == 0 {
        Map::empty()
    } else {
        map_of(s.drop_last()).insert(s.last().0@, s.last().1@)
    }
}

/// No two entries of `s` have the same key.
pub open spec fn unique_keys(s: Seq<(String, String)>) -> bool {
    forall|i: int, j: int|
        0 <= i < s.len() && 0 <= j < s.len() && i != j ==> #[trigger] s[i].0@ != #[trigger] s[j].0@
}

/// The views of a list of lines.
pub open spec fn lines_view(lines: Seq<String>) -> Seq<Seq<char>> {
    lines.map_values(|l: String| l@)
}

proof fn lemma_map_of_entry(s: Seq<(String, String)>, i: int)
    requires
        unique_keys(s),
        0 <= i < s.len(),
    ensures
        map_of(s).contains_key(s[i].0@),
        map_of(s)[s[i].0@] == s[i].1@,
    decreases s.len(),
{
    if i < s.len() - 1 {
        let t = s.drop_last();
        assert(unique_keys(t)) by {
            assert forall|a: int, b: int|
                0 <= a < t.len() && 0 <= b < t.len() && a != b implies #[trigger] t[a].0@
                != #[trigger] t[b].0@ by {
                assert(t[a] == s[a] && t[b] == s[b]);
            }
        }
        lemma_map_of_entry(t, i);
        assert(t[i] == s[i]);
        assert(s.last().0@ != s[i].0@) by {
            assert(s[s.len() - 1].0@ != s[i].0@);
        }
    }
}

proof fn lemma_map_of_absent(s: Seq<(String, String)>, k: Seq<char>)
    requires
        forall|i: int| 0 <= i < s.len() ==> (#[trigger] s[i]).0@ != k,
    ensures
        !map_of(s).contains_key(k),
    decreases s.len(),
{
    if s.len() > 0 {
        let t = s.drop_last();
        assert forall|i: int| 0 <= i < t.len() implies (#[trigger] t[i]).0@ != k by {
            assert(t[i] == s[i]);
        }
        lemma_map_of_absent(t, k);
        assert(s[s.len() - 1].0@ != k);
    }
}

proof fn lemma_map_of_update(s: Seq<(String, String)>, i: int, e: (String, String))
    requires
        unique_keys(s),
        0 <= i < s.len(),
        e.0@ == s[i].0@,
    ensures
        map_of(s.update(i, e)) == map_of(s).insert(e.0@, e.1@),
    decreases s.len(),
{
    let u = s.update(i, e);
    let t = s.drop_last();
    if i == s.len() - 1 {
        assert(u.drop_last() =~= t);
        assert(map_of(u) =~= map_of(s).insert(e.0@, e.1@));
    } else {
        assert(unique_keys(t)) by {
            assert forall|a: int, b: int|
                0 <= a < t.len() && 0 <= b < t.len() && a != b implies #[trigger] t[a].0@
                != #[trigger] t[b].0@ by {
                assert(t[a] == s[a] && t[b] == s[b]);
            }
        }
        lemma_map_of_update(t, i, e);
        assert(u.drop_last() =~= t.update(i, e));
        assert(s[s.len() - 1].0@ != s[i].0@);
        assert(map_of(u) =~= map_of(s).insert(e.0@, e.1@));
    }
}

/// Read your writes: once `v` is written under `k`, a read of `k` finds `v`,
/// whatever the store held before.
pub proof fn lemma_read_your_writes(m: Map<Seq<char>, Seq<char>>, k: Seq<char>, v: Seq<char>)
    ensures
        m.insert(k, v).contains_key(k),
        m.insert(k, v)[k] == v,
        forall|k2: Seq<char>| k2 != k ==> #[trigger] m.insert(k, v).contains_key(k2) == m.contains_key(k2),
{
}

/// The store: the mapping from keys to their latest values. Its durable log is
/// kept by the caller, which appends the record that each write returns and
/// hands the log's lines to `new` when the store is opened again.
pub struct KVStore {
    entries: Vec<(String, String)>,
}

impl View for KVStore {
    type V = Map<Seq<char>, Seq<char>>;

    closed spec fn view(&self) -> Map<Seq<char>, Seq<char>> {
        map_of(self.entries@)
    }
}

impl KVStore {
    /// The store's invariant: each key has one entry.
    pub closed spec fn wf(&self) -> bool {
        unique_keys(self.entries@)
    }

    /// Position of the entry of `key`, if there is one.
    fn find(&self, key: &str) -> (r: Option<usize>)
        requires
            self.wf(),
        ensures
            match r {
                Some(i) => i < self.entries@.len() && self.entries@[i as int].0@ == key@,
                None => forall|i: int|
                    0 <= i < self.entries@.len() ==> (#[trigger] self.entries@[i]).0@ != key@,
            },
    {
        let wanted = String::from_str(key);
        let mut i: usize = 0;
        while i < self.entries.len()
            invariant
                wanted@ == key@,
                forall|j: int| 0 <= j < i ==> (#[trigger] self.entries@[j]).0@ != key@,
            decreases self.entries@.len() - i,
        {
            if self.entries[i].0 == wanted {
                return Some(i);
            }
            i = i + 1;
        }
        None
    }

    /// Sets the value of `key`, replacing an earlier one.
    fn insert(&mut self, key: String, value: String)
        requires
            old(self).wf(),
        ensures
            final(self).wf(),
            final(self)@ == old(self)@.insert(key@, value@),
    {
        match self.find(key.as_str()) {
            Some(i) => {
                proof {
                    lemma_map_of_update(self.entries@, i as int, (key, value));
                }
                self.entries.set(i, (key, value));
                assert(unique_keys(self.entries@)) by {
                    assert forall|a: int, b: int|
                        0 <= a < self.entries@.len() && 0 <= b < self.entries@.len() && a != b
                        implies #[trigger] self.entries@[a].0@ != #[trigger] self.entries@[b].0@ by {
                        assert(old(self).entries@[a].0@ != old(self).entries@[b].0@);
                    }
                }
            },
            None => {
                self.entries.push((key, value));
                assert(self.entries@.drop_last() =~= old(self).entries@);
                assert(unique_keys(self.entries@)) by {
                    assert forall|a: int, b: int|
                        0 <= a < self.entries@.len() && 0 <= b < self.entries@.len() && a != b
                        implies #[trigger] self.entries@[a].0@ != #[trigger] self.entries@[b].0@ by {
                        if a < old(self).entries@.len() && b < old(self).entries@.len() {
                            assert(old(self).entries@[a].0@ != old(self).entries@[b].0@);
                        } else if a < old(self).entries@.len() {
                            assert(old(self).entries@[a] == self.entries@[a]);
                        } else {
                            assert(old(self).entries@[b] == self.entries@[b]);
                        }
                    }
                }
            },
        }
    }

    /// Opens the store on a log: replays its lines in order, the later record
    /// of a key winning; lines that are no record are skipped.
    pub fn new(lines: &Vec<String>) -> (r: KVStore)
        ensures
            r.wf(),
            r@ == replay(lines_view(lines@)),
    {
        let mut store = KVStore { entries: Vec::new() };
        let mut i: usize = 0;
        while i < lines.len()
            invariant
                i <= lines@.len(),
                store.wf(),
                store@ == replay(lines_view(lines@.take(i as int))),
            decreases lines@.len() - i,
        {
            assert(lines_view(lines@.take(i + 1)).drop_last() =~= lines_view(lines@.take(i as int)));
            assert(lines_view(lines@.take(i + 1)).last() == lines@[i as int]@);
            match parse_line(lines[i].as_str()) {
                Some(kv) => {
                    store.insert(kv.0, kv.1);
                },
                None => {},
            }
            i = i + 1;
        }
        assert(lines@.take(lines@.len() as int) =~= lines@);
        store
    }

    /// Stores `value` under `key`, then returns the record to append to the
    /// log. A key or value that a log line cannot hold is refused with a
    /// `Validation` error, and the store is left unchanged.
    pub fn write(&mut self, key: &str, value: &str) -> (r: Result<String, KVStoreError>)
        requires
            old(self).wf(),
        ensures
            final(self).wf(),
            valid_field(key@) && valid_field(value@) ==> (r matches Ok(rec) && rec@
                == record_line(key@, value@) + seq!['\n'] && final(self)@ == old(self)@.insert(
                key@,
                value@,
            )),
            !(valid_field(key@) && valid_field(value@)) ==> (r matches Err(
                KVStoreError::Validation(_),
            ) && final(self)@ == old(self)@),
    {
        if !is_valid_field(key) || !is_valid_field(value) {
            return Err(
                KVStoreError::Validation(
                    String::from_str("a key or value may not hold ':' or a line break"),
                ),
            );
        }
        self.insert(String::from_str(key), String::from_str(value));
        Ok(encode_record(key, value))
    }

    /// The value stored under `key`, if any.
    pub fn read(&self, key: &str) -> (r: Option<String>)
        requires
            self.wf(),
        ensures
            self@.contains_key(key@) ==> (r matches Some(v) && v@ == self@[key@]),
            !self@.contains_key(key@) ==> r is None,
    {
        match self.find(key) {
            Some(i) => {
                proof {
                    lemma_map_of_entry(self.entries@, i as int);
                }
                Some(self.entries[i].1.clone())
            },
            None => {
                proof {
                    lemma_map_of_absent(self.entries@, key@);
                }
                None
            },
        }
    }
}

} // verus!
