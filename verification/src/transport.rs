//! The bounded message cache of the transport layer.
//!
//! The relay network delivers messages unordered, duplicated and interleaved
//! with unrelated traffic, so a typed receive must tolerate the message for a
//! later step arriving before the one it waits for. Messages that do not
//! parse as the awaited kind go into a small first-in-first-out cache, and a
//! later receive claims them from there before touching the network. The
//! cache holds at most [`CACHE_SIZE`] entries: excess traffic evicts the
//! oldest entry, it never grows memory.

use vstd::prelude::*;
use crate::wire::{parse_contract_v, parse_registration_v, parse_token_msg_v};

verus! {

/// How many unmatched messages the cache keeps.
pub const CACHE_SIZE: usize = 10;

/// The message kinds a typed receive can wait for.
#[derive(Clone, Copy, Debug, PartialEq, Eq, Structural)]
pub enum MessageKind {
    /// A trade contract submission.
    Contract,
    /// An escrow registration.
    Registration,
    /// A bearer token transfer.
    TokenMessage,
}

/// Whether a message text parses as the given kind.
pub open spec fn matches_kind_spec(s: Seq<char>, k: MessageKind) -> bool {
    match k {
        MessageKind::Contract => parse_contract_v(s) is Some,
        MessageKind::Registration => parse_registration_v(s) is Some,
        MessageKind::TokenMessage => parse_token_msg_v(s) is Some,
    }
}

/// Decides whether a message text parses as the given kind.
pub fn matches_kind(s: &str, k: MessageKind) -> (r: bool)
    ensures
        r == matches_kind_spec(s@, k),
{
    match k {
        MessageKind::Contract => crate::wire::parse_contract(s).is_some(),
        MessageKind::Registration => crate::wire::parse_registration(s).is_some(),
        MessageKind::TokenMessage => crate::wire::parse_token_message(s).is_some(),
    }
}

/// What the cache holds after a non-matching message is offered to it:
/// duplicates are dropped, and at capacity the oldest entry is evicted.
pub open spec fn cache_insert_model(cache: Seq<Seq<char>>, m: Seq<char>) -> Seq<Seq<char>> {
    if cache.contains(m) {
        cache
    } else if cache.len() >= CACHE_SIZE {
        cache.drop_first().push(m)
    } else {
        cache.push(m)
    }
}

/// The first cached message of the given kind, and the cache without it.
pub open spec fn take_first_match(cache: Seq<Seq<char>>, k: MessageKind) -> Option<
    (Seq<char>, Seq<Seq<char>>),
>
    decreases cache.len(),
{
    if cache.len() == 0 {
        None
    } else if matches_kind_spec(cache[0], k) {
        Some((cache[0], cache.drop_first()))
    } else {
        match take_first_match(cache.drop_first(), k) {
            None => None,
            Some((m, rest)) => Some((m, seq![cache[0]] + rest)),
        }
    }
}

/// One typed receive over a stream of arriving messages: the cache is
/// scanned first, then each arrival is tested in order; a match is returned
/// at once, a non-match is cached.
pub open spec fn receive_model(cache: Seq<Seq<char>>, pending: Seq<Seq<char>>, k: MessageKind)
    -> (Option<Seq<char>>, Seq<Seq<char>>) {
    match take_first_match(cache, k) {
        Some((m, rest)) => (Some(m), rest),
        None => drain_model(cache, pending, k),
    }
}

/// The arrival phase of a typed receive.
pub open spec fn drain_model(cache: Seq<Seq<char>>, pending: Seq<Seq<char>>, k: MessageKind)
    -> (Option<Seq<char>>, Seq<Seq<char>>)
    decreases pending.len(),
{
    if pending.len() == 0 {
        (None, cache)
    } else if matches_kind_spec(pending[0], k) {
        (Some(pending[0]), cache)
    } else {
        drain_model(cache_insert_model(cache, pending[0]), pending.drop_first(), k)
    }
}

/// The bounded message cache.
pub struct MessageCache {
    entries: Vec<String>,
}

impl MessageCache {
    /// What the cache holds, oldest first.
    pub closed spec fn contents(&self) -> Seq<Seq<char>> {
        self.entries.deep_view()
    }

    /// The cache never holds more than its capacity.
    pub closed spec fn wf(&self) -> bool {
        self.entries@.len() <= CACHE_SIZE
    }

    /// An empty cache.
    pub fn new() -> (r: Self)
        ensures
            r.wf(),
            r.contents() == Seq::<Seq<char>>::empty(),
    {
        let r = MessageCache { entries: Vec::new() };
        proof {
            assert(r.contents() =~= Seq::<Seq<char>>::empty());
        }
        r
    }

    /// How many messages are cached.
    pub fn messages_cache_len(&self) -> (r: usize)
        ensures
            r == self.contents().len(),
    {
        self.entries.len()
    }

    /// Removes and returns the oldest cached message of the given kind.
    #[verifier::loop_isolation(false)]
    pub fn take_match(&mut self, k: MessageKind) -> (r: Option<String>)
        requires
            old(self).wf(),
        ensures
            final (self).wf(),
            match r {
                Some(m) => take_first_match(old(self).contents(), k) == Some(
                    (m@, final (self).contents()),
                ),
                None => take_first_match(old(self).contents(), k) is None && *final (self)
                    == *old(self),
            },
    {
        let mut i: usize = 0;
        while i < self.entries.len()
            invariant
                i <= self.entries@.len(),
                *self == *old(self),
                forall|j: int| 0 <= j < i ==> !matches_kind_spec(
                    #[trigger] self.contents()[j],
                    k,
                ),
            decreases self.entries@.len() - i,
        {
            if matches_kind(self.entries[i].as_str(), k) {
                let m = self.entries.remove(i);
                proof {
                    lemma_take_first_match_at(old(self).contents(), k, i as int);
                    assert(self.contents() =~= old(self).contents().remove(i as int));
                }
                return Some(m);
            }
            i = i + 1;
        }
        proof {
            lemma_take_first_match_none(self.contents(), k);
        }
        None
    }

    /// Offers one arriving message: a match is returned at once and the
    /// cache is untouched; a non-match is cached with duplicate dropping and
    /// first-in-first-out eviction.
    pub fn offer(&mut self, msg: String, k: MessageKind) -> (r: Option<String>)
        requires
            old(self).wf(),
        ensures
            final (self).wf(),
            match r {
                Some(m) => m@ == msg@ && matches_kind_spec(msg@, k) && *final (self) == *old(self),
                None => !matches_kind_spec(msg@, k) && final (self).contents()
                    == cache_insert_model(old(self).contents(), msg@),
            },
    {
        if matches_kind(msg.as_str(), k) {
            return Some(msg);
        }
        if self.contains_message(&msg) {
            proof {
                assert(self.contents() =~= cache_insert_model(old(self).contents(), msg@));
            }
            return None;
        }
        if self.entries.len() >= CACHE_SIZE {
            let _evicted = self.entries.remove(0);
            proof {
                assert(self.contents() =~= old(self).contents().drop_first());
            }
            self.entries.push(msg);
            proof {
                assert(self.contents() =~= old(self).contents().drop_first().push(msg@));
            }
        } else {
            self.entries.push(msg);
            proof {
                assert(self.contents() =~= old(self).contents().push(msg@));
            }
        }
        None
    }

    /// Whether the cache already holds this exact message text.
    fn contains_message(&self, msg: &String) -> (r: bool)
        ensures
            r == self.contents().contains(msg@),
    {
        let mut i: usize = 0;
        while i < self.entries.len()
            invariant
                i <= self.entries@.len(),
                forall|j: int| 0 <= j < i ==> #[trigger] self.contents()[j] != msg@,
            decreases self.entries@.len() - i,
        {
            if self.entries[i] == *msg {
                proof {
                    assert(self.contents()[i as int] == msg@);
                }
                return true;
            }
            i = i + 1;
        }
        proof {
            if self.contents().contains(msg@) {
                let j = choose|j: int| 0 <= j < self.contents().len() && self.contents()[j]
                    == msg@;
                assert(self.contents()[j] != msg@);
            }
        }
        false
    }

    /// One full typed receive over the messages that arrived during the wait,
    /// in arrival order: first the cache, then each arrival.
    #[verifier::loop_isolation(false)]
    pub fn receive_typed_from(&mut self, pending: Vec<String>, k: MessageKind) -> (r: Option<
        String,
    >)
        requires
            old(self).wf(),
        ensures
            final (self).wf(),
            ({
                let (m, after) = receive_model(old(self).contents(), pending.deep_view(), k);
                &&& final (self).contents() == after
                &&& match r {
                    Some(s) => m == Some(s@),
                    None => m is None,
                }
            }),
    {
        match self.take_match(k) {
            Some(m) => {
                return Some(m);
            },
            None => {},
        }
        let ghost cache0 = self.contents();
        let ghost pend = pending.deep_view();
        proof {
            assert(pend.skip(0) =~= pend);
        }
        let mut i: usize = 0;
        let n: usize = pending.len();
        let mut pending = pending;
        while i < n
            invariant
                i <= n,
                n == pend.len(),
                pending.deep_view() == pend,
                pending@.len() == n,
                self.wf(),
                drain_model(cache0, pend, k) == drain_model(self.contents(), pend.skip(i as int), k),
            decreases n - i,
        {
            let msg = pending[i].clone();
            proof {
                assert(pending.deep_view()[i as int] == pending@[i as int]@);
                assert(msg@ == pend[i as int]);
                assert(pend.skip(i as int)[0] == pend[i as int]);
                assert(pend.skip(i as int).drop_first() =~= pend.skip(i + 1));
            }
            let ghost pre = self.contents();
            match self.offer(msg, k) {
                Some(m) => {
                    proof {
                        assert(drain_model(pre, pend.skip(i as int), k) == (
                            Some(pend[i as int]),
                            pre,
                        ));
                    }
                    return Some(m);
                },
                None => {},
            }
            proof {
                assert(drain_model(pre, pend.skip(i as int), k) == drain_model(
                    cache_insert_model(pre, pend[i as int]),
                    pend.skip(i + 1),
                    k,
                ));
            }
            i = i + 1;
        }
        proof {
            assert(pend.skip(n as int) =~= Seq::<Seq<char>>::empty());
        }
        None
    }
}

/// If the first `i` entries do not match and entry `i` does, the first match
/// is entry `i` and taking it removes exactly it.
proof fn lemma_take_first_match_at(cache: Seq<Seq<char>>, k: MessageKind, i: int)
    requires
        0 <= i < cache.len(),
        forall|j: int| 0 <= j < i ==> !matches_kind_spec(#[trigger] cache[j], k),
        matches_kind_spec(cache[i], k),
    ensures
        take_first_match(cache, k) == Some((cache[i], cache.remove(i))),
    decreases i,
{
    if i == 0 {
        assert(cache.remove(0) =~= cache.drop_first());
    } else {
        assert(forall|j: int| 0 <= j < i - 1 ==> !matches_kind_spec(
            #[trigger] cache.drop_first()[j],
            k,
        ));
        assert(cache.drop_first()[i - 1] == cache[i]);
        lemma_take_first_match_at(cache.drop_first(), k, i - 1);
        assert(cache.remove(i) =~= seq![cache[0]] + cache.drop_first().remove(i - 1));
    }
}

/// A cache with no matching entry yields nothing.
proof fn lemma_take_first_match_none(cache: Seq<Seq<char>>, k: MessageKind)
    requires
        forall|j: int| 0 <= j < cache.len() ==> !matches_kind_spec(#[trigger] cache[j], k),
    ensures
        take_first_match(cache, k) is None,
    decreases cache.len(),
{
    if cache.len() > 0 {
        assert(forall|j: int| 0 <= j < cache.len() - 1 ==> !matches_kind_spec(
            #[trigger] cache.drop_first()[j],
            k,
        ));
        lemma_take_first_match_none(cache.drop_first(), k);
    }
}

/// Bounded behavior: a receive never grows the cache beyond its capacity,
/// however many messages arrive.
pub proof fn lemma_cache_bounded(cache: Seq<Seq<char>>, pending: Seq<Seq<char>>, k: MessageKind)
    requires
        cache.len() <= CACHE_SIZE,
    ensures
        receive_model(cache, pending, k).1.len() <= CACHE_SIZE,
{
    match take_first_match(cache, k) {
        Some(_) => {
            lemma_take_first_match_len(cache, k);
        },
        None => {
            lemma_drain_bounded(cache, pending, k);
        },
    }
}

/// Taking a match shortens the cache by one.
proof fn lemma_take_first_match_len(cache: Seq<Seq<char>>, k: MessageKind)
    requires
        take_first_match(cache, k) is Some,
    ensures
        take_first_match(cache, k)->Some_0.1.len() == cache.len() - 1,
    decreases cache.len(),
{
    if !matches_kind_spec(cache[0], k) {
        lemma_take_first_match_len(cache.drop_first(), k);
    }
}

/// The arrival phase keeps the cache within its capacity.
proof fn lemma_drain_bounded(cache: Seq<Seq<char>>, pending: Seq<Seq<char>>, k: MessageKind)
    requires
        cache.len() <= CACHE_SIZE,
    ensures
        drain_model(cache, pending, k).1.len() <= CACHE_SIZE,
    decreases pending.len(),
{
    if pending.len() > 0 && !matches_kind_spec(pending[0], k) {
        lemma_drain_bounded(cache_insert_model(cache, pending[0]), pending.drop_first(), k);
    }
}

/// Guaranteed delivery: when a message of the awaited kind stands in the
/// cache or arrives during the wait, the receive returns a message, whatever
/// unrelated traffic surrounds it.
pub proof fn lemma_receive_finds_match(
    cache: Seq<Seq<char>>,
    pending: Seq<Seq<char>>,
    k: MessageKind,
)
    requires
        take_first_match(cache, k) is Some || exists|i: int|
            0 <= i < pending.len() && matches_kind_spec(#[trigger] pending[i], k),
    ensures
        receive_model(cache, pending, k).0 is Some,
{
    if take_first_match(cache, k) is None {
        lemma_drain_finds_match(cache, pending, k);
    }
}

/// The arrival phase returns a message whenever one of the arrivals matches.
proof fn lemma_drain_finds_match(cache: Seq<Seq<char>>, pending: Seq<Seq<char>>, k: MessageKind)
    requires
        exists|i: int| 0 <= i < pending.len() && matches_kind_spec(#[trigger] pending[i], k),
    ensures
        drain_model(cache, pending, k).0 is Some,
    decreases pending.len(),
{
    if !matches_kind_spec(pending[0], k) {
        let i = choose|i: int| 0 <= i < pending.len() && matches_kind_spec(
            #[trigger] pending[i],
            k,
        );
        assert(pending.drop_first()[i - 1] == pending[i]);
        lemma_drain_finds_match(cache_insert_model(cache, pending[0]), pending.drop_first(), k);
    }
}

} // verus!
