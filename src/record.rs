use vstd::prelude::*;

verus! {

/// The character that separates a key from its value in a log line.
pub const DELIMITER: char = ':';

/// A key or a value that a log line can hold and give back unchanged: it holds
/// no delimiter and no line-break character.
pub open spec fn valid_field(s: Seq<char>) -> bool {
    forall|i: int| 0 <= i < s.len() ==> s[i] != ':' && s[i] != '\n' && s[i] != '\r'
}

/// The log line of one record, without its line terminator: `key:value`.
pub open spec fn record_line(key: Seq<char>, value: Seq<char>) -> Seq<char> {
    key + seq![':'] + value
}

/// `p` is the position of the one and only delimiter of `line`.
pub open spec fn sole_delimiter(line: Seq<char>, p: int) -> bool {
    &&& 0 <= p < line.len()
    &&& line[p] == ':'
    &&& forall|i: int| 0 <= i < line.len() && i != p ==> line[i] != ':'
}

/// What a log line stands for: a line with exactly one delimiter is the record
/// of the text before it and the text after it; any other line is no record.
pub open spec fn parse_record(line: Seq<char>) -> Option<(Seq<char>, Seq<char>)> {
    if exists|p: int| sole_delimiter(line, p) {
        let p = choose|p: int| sole_delimiter(line, p);
        Some((line.take(p), line.skip(p + 1)))
    } else {
        None
    }
}

/// The mapping after the line `line` has been replayed onto `m`.
pub open spec fn apply_line(
    m: Map<Seq<char>, Seq<char>>,
    line: Seq<char>,
) -> Map<Seq<char>, Seq<char>> {
    match parse_record(line) {
        Some(kv) => m.insert(kv.0, kv.1),
        None => m,
    }
}

/// The mapping after the log lines `lines` have been replayed onto `m`, in order.
pub open spec fn replay_onto(
    m: Map<Seq<char>, Seq<char>>,
    lines: Seq<Seq<char>>,
) -> Map<Seq<char>, Seq<char>>
    decreases lines.len(),
{
    if lines.len() == 0 {
        m
    } else {
        apply_line(replay_onto(m, lines.drop_last()), lines.last())
    }
}

/// The mapping that a log made of the lines `lines` holds.
pub open spec fn replay(lines: Seq<Seq<char>>) -> Map<Seq<char>, Seq<char>> {
    replay_onto(Map::empty(), lines)
}

/// The mapping after the writes `writes` (key, value) have been applied to `m`, in order.
pub open spec fn apply_writes(
    m: Map<Seq<char>, Seq<char>>,
    writes: Seq<(Seq<char>, Seq<char>)>,
) -> Map<Seq<char>, Seq<char>>
    decreases writes.len(),
{
    if writes.len() == 0 {
        m
    } else {
        apply_writes(m, writes.drop_last()).insert(writes.last().0, writes.last().1)
    }
}

/// The log lines that the writes `writes` append, one per write, in order.
pub open spec fn record_lines(writes: Seq<(Seq<char>, Seq<char>)>) -> Seq<Seq<char>> {
    writes.map_values(|w: (Seq<char>, Seq<char>)| record_line(w.0, w.1))
}

/// Every key and value of `writes` can be held by a log line.
pub open spec fn valid_writes(writes: Seq<(Seq<char>, Seq<char>)>) -> bool {
    forall|i: int| 0 <= i < writes.len() ==> valid_field(#[trigger] writes[i].0) && valid_field(writes[i].1)
}

/// A field without delimiter gives back the pair it was written from.
pub proof fn lemma_parse_record_line(key: Seq<char>, value: Seq<char>)
    requires
        valid_field(key),
        valid_field(value),
    ensures
        parse_record(record_line(key, value)) == Some((key, value)),
{
    let line = record_line(key, value);
    let p = key.len() as int;
    assert(sole_delimiter(line, p));
    let q = choose|q: int| sole_delimiter(line, q);
    assert(q == p) by {
        if q < p {
            assert(line[q] == key[q]);
        } else if q > p {
            assert(line[q] == value[q - p - 1]);
        }
    }
    assert(line.take(p) =~= key);
    assert(line.skip(p + 1) =~= value);
}

/// After the writes `writes`, a key that `writes[i]` writes and no later write
/// touches holds `writes[i]`'s value.
pub proof fn lemma_apply_writes_last(
    m: Map<Seq<char>, Seq<char>>,
    writes: Seq<(Seq<char>, Seq<char>)>,
    i: int,
)
    requires
        0 <= i < writes.len(),
        forall|j: int| i < j < writes.len() ==> (#[trigger] writes[j]).0 != writes[i].0,
    ensures
        apply_writes(m, writes).contains_key(writes[i].0),
        apply_writes(m, writes)[writes[i].0] == writes[i].1,
    decreases writes.len(),
{
    if i < writes.len() - 1 {
        let w = writes.drop_last();
        assert forall|j: int| i < j < w.len() implies (#[trigger] w[j]).0 != w[i].0 by {
            assert(w[j] == writes[j]);
        }
        lemma_apply_writes_last(m, w, i);
        assert(writes[writes.len() - 1].0 != writes[i].0);
    }
}

/// Durability: reopening a log to which the records of `writes` were appended
/// gives the mapping of the log before them updated by those writes in order;
/// so each key reads as the last write of it.
pub proof fn lemma_durability_round_trip(
    lines: Seq<Seq<char>>,
    writes: Seq<(Seq<char>, Seq<char>)>,
)
    requires
        valid_writes(writes),
    ensures
        replay(lines + record_lines(writes)) == apply_writes(replay(lines), writes),
        forall|i: int|
            0 <= i < writes.len() && (forall|j: int|
                i < j < writes.len() ==> (#[trigger] writes[j]).0 != writes[i].0) ==> replay(
                lines + record_lines(writes),
            ).contains_key(#[trigger] writes[i].0) && replay(lines + record_lines(writes))[writes[i].0]
                == writes[i].1,
    decreases writes.len(),
{
    if writes.len() == 0 {
        assert(lines + record_lines(writes) =~= lines);
    } else {
        let w = writes.drop_last();
        assert(valid_writes(w)) by {
            assert forall|i: int| 0 <= i < w.len() implies valid_field(#[trigger] w[i].0) && valid_field(w[i].1) by {
                assert(w[i] == writes[i]);
            }
        }
        lemma_durability_round_trip(lines, w);
        let log = lines + record_lines(writes);
        assert(log.drop_last() =~= lines + record_lines(w));
        let last = writes.last();
        assert(valid_field(writes[writes.len() - 1].0) && valid_field(writes[writes.len() - 1].1));
        lemma_parse_record_line(last.0, last.1);
    }
    assert forall|i: int|
        0 <= i < writes.len() && (forall|j: int|
            i < j < writes.len() ==> (#[trigger] writes[j]).0 != writes[i].0) implies replay(
        lines + record_lines(writes),
    ).contains_key(#[trigger] writes[i].0) && replay(lines + record_lines(writes))[writes[i].0]
        == writes[i].1 by {
        lemma_apply_writes_last(replay(lines), writes, i);
    }
}

/// Last write wins: writing `v1` and then `v2` under `k` appends both records,
/// in that order, and the log then reads `v2` under `k`.
pub proof fn lemma_last_write_wins(
    lines: Seq<Seq<char>>,
    k: Seq<char>,
    v1: Seq<char>,
    v2: Seq<char>,
)
    requires
        valid_field(k),
        valid_field(v1),
        valid_field(v2),
    ensures
        record_lines(seq![(k, v1), (k, v2)]) == seq![record_line(k, v1), record_line(k, v2)],
        replay(lines + seq![record_line(k, v1), record_line(k, v2)]).contains_key(k),
        replay(lines + seq![record_line(k, v1), record_line(k, v2)])[k] == v2,
{
    let writes = seq![(k, v1), (k, v2)];
    assert(record_lines(writes) =~= seq![record_line(k, v1), record_line(k, v2)]);
    assert(valid_writes(writes)) by {
        assert forall|i: int| 0 <= i < writes.len() implies valid_field(#[trigger] writes[i].0) && valid_field(writes[i].1) by {
            if i == 0 {
                assert(writes[i] == (k, v1));
            } else {
                assert(writes[i] == (k, v2));
            }
        }
    }
    lemma_durability_round_trip(lines, writes);
    assert(writes[1] == (k, v2));
}

/// Unknown key: a log none of whose lines is a record of `k` holds no value for `k`.
pub proof fn lemma_unknown_key(lines: Seq<Seq<char>>, k: Seq<char>)
    requires
        forall|i: int|
            0 <= i < lines.len() ==> !(parse_record(#[trigger] lines[i]) matches Some(kv) && kv.0
                == k),
    ensures
        !replay(lines).contains_key(k),
    decreases lines.len(),
{
    if lines.len() > 0 {
        let t = lines.drop_last();
        assert forall|i: int| 0 <= i < t.len() implies !(parse_record(#[trigger] t[i]) matches Some(
            kv,
        ) && kv.0 == k) by {
            assert(t[i] == lines[i]);
        }
        lemma_unknown_key(t, k);
        assert(lines.last() == lines[lines.len() - 1]);
    }
}

/// Concurrent writers: however the writes of distinct keys from several
/// connections interleave, the log holds one record per write, and each key
/// reads as the value written under it.
pub proof fn lemma_distinct_writes_any_order(writes: Seq<(Seq<char>, Seq<char>)>)
    requires
        valid_writes(writes),
        forall|i: int, j: int|
            0 <= i < writes.len() && 0 <= j < writes.len() && i != j ==> (#[trigger] writes[i]).0
                != (#[trigger] writes[j]).0,
    ensures
        record_lines(writes).len() == writes.len(),
        forall|i: int|
            0 <= i < writes.len() ==> replay(record_lines(writes)).contains_key(
                (#[trigger] writes[i]).0,
            ) && replay(record_lines(writes))[writes[i].0] == writes[i].1,
{
    let empty = Seq::<Seq<char>>::empty();
    lemma_durability_round_trip(empty, writes);
    assert(empty + record_lines(writes) =~= record_lines(writes));
    assert forall|i: int| 0 <= i < writes.len() implies replay(record_lines(writes)).contains_key(
        (#[trigger] writes[i]).0,
    ) && replay(record_lines(writes))[writes[i].0] == writes[i].1 by {
        assert(forall|j: int| i < j < writes.len() ==> (#[trigger] writes[j]).0 != writes[i].0);
    }
}

/// What a log line holds, if anything: the key and value around its only delimiter.
pub fn parse_line(line: &str) -> (r: Option<(String, String)>)
    ensures
        match parse_record(line@) {
            Some(kv) => r matches Some(p) && p.0@ == kv.0 && p.1@ == kv.1,
            None => r is None,
        },
{
    let n = line.unicode_len();
    let mut found: Option<usize> = None;
    let mut i: usize = 0;
    while i < n
        invariant
            n == line@.len(),
            i <= n,
            match found {
                Some(p) => p < i && line@[p as int] == ':' && forall|j: int|
                    0 <= j < i && j != p ==> line@[j] != ':',
                None => forall|j: int| 0 <= j < i ==> line@[j] != ':',
            },
        decreases n - i,
    {
        if line.get_char(i) == DELIMITER {
            match found {
                Some(p) => {
                    assert(!exists|q: int| sole_delimiter(line@, q)) by {
                        if exists|q: int| sole_delimiter(line@, q) {
                            let q = choose|q: int| sole_delimiter(line@, q);
                            if q == p as int {
                                assert(line@[i as int] == ':');
                            } else {
                                assert(line@[p as int] == ':');
                            }
                        }
                    }
                    return None;
                },
                None => {
                    found = Some(i);
                },
            }
        }
        i = i + 1;
    }
    match found {
        Some(p) => {
            proof {
                assert(sole_delimiter(line@, p as int));
                let q = choose|q: int| sole_delimiter(line@, q);
                assert(q == p as int) by {
                    if q != p as int {
                        assert(line@[q] == ':');
                    }
                }
            }
            let key = line.substring_char(0, p);
            let value = line.substring_char(p + 1, n);
            assert(key@ =~= line@.take(p as int));
            assert(value@ =~= line@.skip(p + 1));
            Some((String::from_str(key), String::from_str(value)))
        },
        None => {
            assert(!exists|q: int| sole_delimiter(line@, q)) by {
                if exists|q: int| sole_delimiter(line@, q) {
                    let q = choose|q: int| sole_delimiter(line@, q);
                    assert(line@[q] == ':');
                }
            }
            None
        },
    }
}

/// Whether `s` can be held by a log line (see `valid_field`).
pub fn is_valid_field(s: &str) -> (r: bool)
    ensures
        r == valid_field(s@),
{
    let n = s.unicode_len();
    let mut i: usize = 0;
    while i < n
        invariant
            n == s@.len(),
            i <= n,
            forall|j: int| 0 <= j < i ==> s@[j] != ':' && s@[j] != '\n' && s@[j] != '\r',
        decreases n - i,
    {
        let c = s.get_char(i);
        if c == DELIMITER || c == '\n' || c == '\r' {
            return false;
        }
        i = i + 1;
    }
    true
}

/// The record that a write of `value` under `key` appends to the log: its line
/// followed by the line terminator.
pub fn encode_record(key: &str, value: &str) -> (r: String)
    ensures
        r@ == record_line(key@, value@) + seq!['\n'],
{
    let mut r = String::from_str(key);
    let sep = ":";
    let end = "\n";
    proof {
        reveal_strlit(":");
        reveal_strlit("\n");
    }
    r.append(sep);
    r.append(value);
    r.append(end);
    assert(r@ =~= record_line(key@, value@) + seq!['\n']);
    r
}

} // verus!
