use vstd::prelude::*;
use rand::Rng;
use crate::error::KVStoreError;
use crate::messages::{Request, Response};
use crate::record::valid_field;

verus! {

/// The length of the keys that the client makes up.
pub const KEY_LEN: usize = 8;

/// The length of the values that the client makes up.
pub const VALUE_LEN: usize = 16;

/// An ASCII letter or digit.
pub open spec fn is_alphanumeric(c: char) -> bool {
    ('A' <= c && c <= 'Z') || ('a' <= c && c <= 'z') || ('0' <= c && c <= '9')
}

/// Every character of `s` is an ASCII letter or digit.
pub open spec fn alphanumeric(s: Seq<char>) -> bool {
    forall|i: int| 0 <= i < s.len() ==> is_alphanumeric(#[trigger] s[i])
}

/// Relies on rand's `thread_rng` sampled through `distributions::Alphanumeric`,
/// which yields one byte of `A-Z`, `a-z`, `0-9` per draw: `len` draws, each
/// turned into its character. (`thread_rng` panics only where the operating
/// system gives no randomness to seed it.)
#[verifier::external_body]
fn generate_random_string(len: usize) -> (r: String)
    ensures
        r@.len() == len,
        alphanumeric(r@),
{
    rand::thread_rng().sample_iter(&rand::distributions::Alphanumeric).take(len).map(char::from).collect()
}

/// An alphanumeric text fits in a log line.
pub proof fn lemma_alphanumeric_valid(s: Seq<char>)
    requires
        alphanumeric(s),
    ensures
        valid_field(s),
{
    assert forall|i: int| 0 <= i < s.len() implies s[i] != ':' && s[i] != '\n' && s[i] != '\r' by {
        assert(is_alphanumeric(s[i]));
    }
}

/// The keys known to the client after it learned that `key` was written.
pub open spec fn remember(keys: Seq<Seq<char>>, key: Seq<char>) -> Seq<Seq<char>> {
    if keys.contains(key) {
        keys
    } else {
        keys.push(key)
    }
}

/// A traffic generator's decisions: it makes up writes of fresh keys and reads
/// back keys that the server confirmed as written.
pub struct ClientDriver {
    keys: Vec<String>,
}

impl View for ClientDriver {
    type V = Seq<Seq<char>>;

    /// The keys whose writes the server confirmed, first confirmed first.
    closed spec fn view(&self) -> Seq<Seq<char>> {
        self.keys@.map_values(|k: String| k@)
    }
}

impl ClientDriver {
    /// A client that knows no key yet.
    pub fn new() -> (r: ClientDriver)
        ensures
            r@ == Seq::<Seq<char>>::empty(),
    {
        let r = ClientDriver { keys: Vec::new() };
        assert(r@ =~= Seq::<Seq<char>>::empty());
        r
    }

    /// The next request: where `write` holds, a write of a random alphanumeric
    /// key and value; else a read of the first known key, or none while no
    /// key is known.
    pub fn next_request(&self, write: bool) -> (r: Option<Request>)
        ensures
            write ==> (r matches Some(Request::Write { key, value }) && key@.len() == KEY_LEN
                && value@.len() == VALUE_LEN && alphanumeric(key@) && alphanumeric(value@)
                && valid_field(key@) && valid_field(value@)),
            !write && self@.len() == 0 ==> r is None,
            !write && self@.len() > 0 ==> (r matches Some(Request::Read { key }) && key@
                == self@[0]),
    {
        if write {
            let key = generate_random_string(KEY_LEN);
            let value = generate_random_string(VALUE_LEN);
            proof {
                lemma_alphanumeric_valid(key@);
                lemma_alphanumeric_valid(value@);
            }
            Some(Request::Write { key, value })
        } else if self.keys.len() > 0 {
            Some(Request::Read { key: self.keys[0].clone() })
        } else {
            None
        }
    }

    /// Learns from the outcome of `request`: a write that the server
    /// confirmed makes its key known. Nothing else changes what is known.
    pub fn on_response(&mut self, request: &Request, outcome: &Result<Response, KVStoreError>)
        ensures
            match (request, outcome) {
                (Request::Write { key, .. }, Ok(Response::Done)) => final(self)@ == remember(
                    old(self)@,
                    key@,
                ),
                _ => final(self)@ == old(self)@,
            },
    {
        match (request, outcome) {
            (Request::Write { key, .. }, Ok(Response::Done)) => {
                let mut known = false;
                let mut i: usize = 0;
                while i < self.keys.len()
                    invariant
                        i <= self.keys@.len(),
                        self@ == old(self)@,
                        known == exists|j: int| 0 <= j < i && self@[j] == key@,
                    decreases self.keys@.len() - i,
                {
                    if self.keys[i] == *key {
                        assert(self@[i as int] == key@);
                        known = true;
                    }
                    i = i + 1;
                }
                if !known {
                    assert(!self@.contains(key@));
                    self.keys.push(key.clone());
                    assert(self@ =~= old(self)@.push(key@));
                }
            },
            _ => {},
        }
    }
}

} // verus!
