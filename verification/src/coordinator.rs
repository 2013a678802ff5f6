//! The coordinator's matching engine.
//!
//! The coordinator receives contract submissions as directed messages,
//! deduplicates redelivered transport events by their event id, files the
//! first sighting of each contract fingerprint, and on the second sighting
//! mints a fresh per-trade key and issues one registration addressed to both
//! parties. Malformed payloads are ignored as noise.

use vstd::prelude::*;
use crate::model::{TradeContract, TradeContractV, EscrowRegistration};
use crate::digest::fingerprint_of;
use crate::keys::valid_ecash_pubkey;
use crate::wire::parse_contract_v;

verus! {

/// A matched trade: the contract and the coordinator's per-trade secret,
/// which never leaves the coordinator.
pub struct ActiveTrade {
    pub trade_contract: TradeContract,
    pub coordinator_secret: String,
}

/// Mathematical view of an [`ActiveTrade`].
#[verifier::ext_equal]
pub struct ActiveTradeV {
    pub trade_contract: TradeContractV,
    pub coordinator_secret: Seq<char>,
}

impl View for ActiveTrade {
    type V = ActiveTradeV;

    open spec fn view(&self) -> ActiveTradeV {
        ActiveTradeV {
            trade_contract: self.trade_contract@,
            coordinator_secret: self.coordinator_secret@,
        }
    }
}

/// A registration to send, together with its two recipients.
pub struct RegistrationIssue {
    pub registration: EscrowRegistration,
    pub buyer_npub: String,
    pub seller_npub: String,
}

/// Mathematical view of a [`RegistrationIssue`].
#[verifier::ext_equal]
pub struct RegistrationIssueV {
    pub registration: crate::model::EscrowRegistrationV,
    pub buyer_npub: Seq<char>,
    pub seller_npub: Seq<char>,
}

impl View for RegistrationIssue {
    type V = RegistrationIssueV;

    open spec fn view(&self) -> RegistrationIssueV {
        RegistrationIssueV {
            registration: self.registration@,
            buyer_npub: self.buyer_npub@,
            seller_npub: self.seller_npub@,
        }
    }
}

/// The coordinator's session state, as mathematics: contracts awaiting their
/// counterpart keyed by fingerprint, matched trades, and the transport event
/// ids already processed.
#[verifier::ext_equal]
pub struct CoordinatorModel {
    pub pending: Map<Seq<char>, TradeContractV>,
    pub active: Map<Seq<char>, ActiveTradeV>,
    pub seen: Set<Seq<char>>,
}

/// One step of the matching engine: what one inbound event does to the state
/// and which registration, if any, it causes. `secret` and `pubkey` are the
/// freshly minted per-trade keypair, used only when the event completes a
/// match.
pub open spec fn coordinator_step(
    m: CoordinatorModel,
    event_id: Seq<char>,
    content: Seq<char>,
    secret: Seq<char>,
    pubkey: Seq<char>,
    now: u64,
) -> (CoordinatorModel, Option<RegistrationIssueV>) {
    if m.seen.contains(event_id) {
        (m, None)
    } else {
        let m1 = CoordinatorModel { seen: m.seen.insert(event_id), ..m };
        match parse_contract_v(content) {
            None => (m1, None),
            Some(c) => {
                let fp = fingerprint_of(content);
                if !m1.pending.contains_key(fp) {
                    (CoordinatorModel { pending: m1.pending.insert(fp, c), ..m1 }, None)
                } else {
                    let reg = crate::model::EscrowRegistrationV {
                        escrow_id_hex: fp,
                        coordinator_escrow_pubkey: pubkey,
                        escrow_start_time: now,
                    };
                    (
                        CoordinatorModel {
                            pending: m1.pending.remove(fp),
                            active: m1.active.insert(
                                fp,
                                ActiveTradeV { trade_contract: c, coordinator_secret: secret },
                            ),
                            ..m1
                        },
                        Some(
                            RegistrationIssueV {
                                registration: reg,
                                buyer_npub: c.npubkey_buyer,
                                seller_npub: c.npubkey_seller,
                            },
                        ),
                    )
                }
            },
        }
    }
}

/// The association of fingerprints to filed values, later entries winning.
pub open spec fn pair_map<T: View>(s: Seq<(String, T)>) -> Map<Seq<char>, T::V>
    decreases s.len(),
{
    if s.len() == 0 {
        Map::empty()
    } else {
        pair_map(s.drop_last()).insert(s.last().0@, s.last().1@)
    }
}

/// The set of event ids in a list.
pub open spec fn id_set(s: Seq<String>) -> Set<Seq<char>>
    decreases s.len(),
{
    if s.len() == 0 {
        Set::empty()
    } else {
        id_set(s.drop_last()).insert(s.last()@)
    }
}

/// A key is in the association exactly when some entry carries it.
proof fn lemma_pair_map_contains<T: View>(s: Seq<(String, T)>, key: Seq<char>)
    ensures
        pair_map(s).contains_key(key) <==> exists|i: int|
            0 <= i < s.len() && #[trigger] s[i].0@ == key,
    decreases s.len(),
{
    if s.len() > 0 {
        lemma_pair_map_contains(s.drop_last(), key);
        if pair_map(s).contains_key(key) {
            if s.last().0@ == key {
                assert(s[s.len() - 1].0@ == key);
            } else {
                let i = choose|i: int| 0 <= i < s.drop_last().len() && #[trigger] s.drop_last()[i].0@
                    == key;
                assert(s[i].0@ == key);
            }
        }
        if exists|i: int| 0 <= i < s.len() && #[trigger] s[i].0@ == key {
            let i = choose|i: int| 0 <= i < s.len() && #[trigger] s[i].0@ == key;
            if i < s.len() - 1 {
                assert(s.drop_last()[i].0@ == key);
            }
        }
    }
}

/// An id is in the set exactly when some entry carries it.
proof fn lemma_id_set_contains(s: Seq<String>, id: Seq<char>)
    ensures
        id_set(s).contains(id) <==> exists|i: int| 0 <= i < s.len() && #[trigger] s[i]@ == id,
    decreases s.len(),
{
    if s.len() > 0 {
        lemma_id_set_contains(s.drop_last(), id);
        if id_set(s).contains(id) {
            if s.last()@ == id {
                assert(s[s.len() - 1]@ == id);
            } else {
                let i = choose|i: int| 0 <= i < s.drop_last().len() && #[trigger] s.drop_last()[i]@
                    == id;
                assert(s[i]@ == id);
            }
        }
        if exists|i: int| 0 <= i < s.len() && #[trigger] s[i]@ == id {
            let i = choose|i: int| 0 <= i < s.len() && #[trigger] s[i]@ == id;
            if i < s.len() - 1 {
                assert(s.drop_last()[i]@ == id);
            }
        }
    }
}

/// Appending an entry inserts its key.
proof fn lemma_pair_map_push<T: View>(s: Seq<(String, T)>, key: String, value: T)
    ensures
        pair_map(s.push((key, value))) == pair_map(s).insert(key@, value@),
{
    assert(s.push((key, value)).drop_last() =~= s);
    assert(s.push((key, value)).last() == (key, value));
}

/// Appending an id inserts it.
proof fn lemma_id_set_push(s: Seq<String>, id: String)
    ensures
        id_set(s.push(id)) == id_set(s).insert(id@),
{
    assert(s.push(id).drop_last() =~= s);
}

/// With distinct keys, removing the entry at `i` removes exactly its key.
proof fn lemma_pair_map_remove<T: View>(s: Seq<(String, T)>, i: int)
    requires
        0 <= i < s.len(),
        forall|a: int, b: int| 0 <= a < b < s.len() ==> #[trigger] s[a].0@ != #[trigger] s[b].0@,
    ensures
        pair_map(s.remove(i)) == pair_map(s).remove(s[i].0@),
    decreases s.len(),
{
    lemma_pair_map_contains(s.drop_last(), s[i].0@);
    if i == s.len() - 1 {
        assert(s.remove(i) =~= s.drop_last());
        assert(!pair_map(s.drop_last()).contains_key(s[i].0@)) by {
            if pair_map(s.drop_last()).contains_key(s[i].0@) {
                let a = choose|a: int| 0 <= a < s.drop_last().len() && #[trigger] s.drop_last()[a].0@
                    == s[i].0@;
                assert(s[a].0@ == s[i].0@);
            }
        };
        assert(pair_map(s.remove(i)) =~= pair_map(s).remove(s[i].0@));
    } else {
        assert(s.remove(i).drop_last() =~= s.drop_last().remove(i));
        assert(s.remove(i).last() == s.last());
        assert(s.drop_last()[i] == s[i]);
        assert(forall|a: int, b: int| 0 <= a < b < s.drop_last().len()
            ==> #[trigger] s.drop_last()[a].0@ != #[trigger] s.drop_last()[b].0@);
        lemma_pair_map_remove(s.drop_last(), i);
        assert(s.last().0@ != s[i].0@) by {
            assert(s[i].0@ != s[s.len() - 1].0@);
        };
        assert(pair_map(s.remove(i)) =~= pair_map(s).remove(s[i].0@));
    }
}

/// The coordinator's session state.
pub struct EscrowCoordinator {
    pending_contracts: Vec<(String, TradeContract)>,
    active_contracts: Vec<(String, ActiveTrade)>,
    received_events: Vec<String>,
}

impl View for EscrowCoordinator {
    type V = CoordinatorModel;

    closed spec fn view(&self) -> CoordinatorModel {
        CoordinatorModel {
            pending: pair_map(self.pending_contracts@),
            active: pair_map(self.active_contracts@),
            seen: id_set(self.received_events@),
        }
    }
}

impl EscrowCoordinator {
    /// The pending entries carry pairwise distinct fingerprints.
    pub closed spec fn wf(&self) -> bool {
        forall|a: int, b: int| 0 <= a < b < self.pending_contracts@.len()
            ==> #[trigger] self.pending_contracts@[a].0@
            != #[trigger] self.pending_contracts@[b].0@
    }

    /// A coordinator with no filed contracts, no matched trades and no seen
    /// events.
    pub fn new() -> (r: Self)
        ensures
            r.wf(),
            r@.pending == Map::<Seq<char>, TradeContractV>::empty(),
            r@.active == Map::<Seq<char>, ActiveTradeV>::empty(),
            r@.seen == Set::<Seq<char>>::empty(),
    {
        EscrowCoordinator {
            pending_contracts: Vec::new(),
            active_contracts: Vec::new(),
            received_events: Vec::new(),
        }
    }

    /// Handles one inbound directed message given the freshly minted
    /// per-trade keypair: exactly the matching-engine step.
    #[verifier::loop_isolation(false)]
    pub fn handle_message(
        &mut self,
        event_id: &String,
        content: &String,
        secret: String,
        pubkey: String,
        now: u64,
    ) -> (r: Option<RegistrationIssue>)
        requires
            old(self).wf(),
        ensures
            final (self).wf(),
            ({
                let (m2, out) = coordinator_step(
                    old(self)@,
                    event_id@,
                    content@,
                    secret@,
                    pubkey@,
                    now,
                );
                &&& final (self)@ == m2
                &&& match r {
                    Some(iss) => out == Some(iss@),
                    None => out is None,
                }
            }),
    {
        proof {
            lemma_id_set_contains(self.received_events@, event_id@);
        }
        let mut i: usize = 0;
        while i < self.received_events.len()
            invariant
                i <= self.received_events@.len(),
                *self == *old(self),
                forall|j: int| 0 <= j < i ==> #[trigger] self.received_events@[j]@ != event_id@,
            decreases self.received_events@.len() - i,
        {
            if self.received_events[i] == *event_id {
                return None;
            }
            i = i + 1;
        }
        assert(!self@.seen.contains(event_id@));
        self.received_events.push(event_id.clone());
        proof {
            lemma_id_set_push(old(self).received_events@, *event_id);
        }
        let parsed = crate::wire::parse_contract(content.as_str());
        let contract = match parsed {
            None => {
                proof {
                    assert(final (self)@ =~= coordinator_step(
                        old(self)@,
                        event_id@,
                        content@,
                        secret@,
                        pubkey@,
                        now,
                    ).0);
                }
                return None;
            },
            Some(c) => c,
        };
        let fp: String = crate::digest::fingerprint_hex(content.as_str());
        proof {
            lemma_pair_map_contains(self.pending_contracts@, fp@);
        }
        let mut j: usize = 0;
        let mut found: Option<usize> = None;
        while j < self.pending_contracts.len()
            invariant
                j <= self.pending_contracts@.len(),
                self.pending_contracts@ == old(self).pending_contracts@,
                match found {
                    Some(idx) => idx < j && self.pending_contracts@[idx as int].0@ == fp@,
                    None => forall|a: int| 0 <= a < j ==> #[trigger] self.pending_contracts@[
                        a
                    ].0@ != fp@,
                },
            decreases self.pending_contracts@.len() - j + (if found is Some { 0int } else { 1int }),
        {
            if found.is_none() {
                if self.pending_contracts[j].0 == fp {
                    found = Some(j);
                }
            }
            j = j + 1;
        }
        match found {
            None => {
                assert(!self@.pending.contains_key(fp@));
                self.pending_contracts.push((fp, contract));
                proof {
                    lemma_pair_map_push(
                        old(self).pending_contracts@,
                        (final (self).pending_contracts@.last().0),
                        (final (self).pending_contracts@.last().1),
                    );
                    assert(final (self)@ =~= coordinator_step(
                        old(self)@,
                        event_id@,
                        content@,
                        secret@,
                        pubkey@,
                        now,
                    ).0);
                    assert(forall|a: int, b: int| 0 <= a < b < final (self).pending_contracts@.len()
                        ==> #[trigger] final (self).pending_contracts@[a].0@
                        != #[trigger] final (self).pending_contracts@[b].0@) by {
                        assert(forall|a: int| 0 <= a < old(self).pending_contracts@.len()
                            ==> #[trigger] old(self).pending_contracts@[a].0@ != fp@);
                    };
                }
                None
            },
            Some(idx) => {
                assert(self@.pending.contains_key(fp@));
                proof {
                    lemma_pair_map_remove(self.pending_contracts@, idx as int);
                }
                let _removed = self.pending_contracts.remove(idx);
                let reg = EscrowRegistration {
                    escrow_id_hex: fp.clone(),
                    coordinator_escrow_pubkey: pubkey,
                    escrow_start_time: now,
                };
                let buyer_npub = contract.npubkey_buyer.clone();
                let seller_npub = contract.npubkey_seller.clone();
                self.active_contracts.push(
                    (fp, ActiveTrade { trade_contract: contract, coordinator_secret: secret }),
                );
                proof {
                    lemma_pair_map_push(
                        old(self).active_contracts@,
                        (final (self).active_contracts@.last().0),
                        (final (self).active_contracts@.last().1),
                    );
                    assert(final (self)@ =~= coordinator_step(
                        old(self)@,
                        event_id@,
                        content@,
                        secret@,
                        pubkey@,
                        now,
                    ).0);
                }
                let issue = RegistrationIssue { registration: reg, buyer_npub, seller_npub };
                proof {
                    assert(issue@ =~= coordinator_step(
                        old(self)@,
                        event_id@,
                        content@,
                        secret@,
                        pubkey@,
                        now,
                    ).1->Some_0);
                }
                Some(issue)
            },
        }
    }

    /// Handles one inbound directed message, minting the per-trade keypair
    /// itself. The keypair is random: what holds is that some freshly drawn
    /// pair with a well-formed public key drove the step.
    pub fn process_event(&mut self, event_id: &String, content: &String, now: u64) -> (r: Option<
        RegistrationIssue,
    >)
        requires
            old(self).wf(),
        ensures
            final (self).wf(),
            exists|secret: Seq<char>, pubkey: Seq<char>|
                {
                    let (m2, out) = #[trigger] coordinator_step(
                        old(self)@,
                        event_id@,
                        content@,
                        secret,
                        pubkey,
                        now,
                    );
                    &&& valid_ecash_pubkey(pubkey)
                    &&& final (self)@ == m2
                    &&& match r {
                        Some(iss) => out == Some(iss@),
                        None => out is None,
                    }
                },
    {
        let (secret, pubkey) = crate::keys::generate_trade_keypair();
        let ghost s = secret@;
        let ghost p = pubkey@;
        let r = self.handle_message(event_id, content, secret, pubkey, now);
        proof {
            let (m2, out) = coordinator_step(old(self)@, event_id@, content@, s, p, now);
        }
        r
    }
}

/// Redelivered events are ignored: a step on an already-seen event id leaves
/// the state unchanged and issues nothing.
pub proof fn lemma_step_ignores_seen(
    m: CoordinatorModel,
    event_id: Seq<char>,
    content: Seq<char>,
    secret: Seq<char>,
    pubkey: Seq<char>,
    now: u64,
)
    requires
        m.seen.contains(event_id),
    ensures
        coordinator_step(m, event_id, content, secret, pubkey, now) == (m, None::<
            RegistrationIssueV,
        >),
{
}

/// A registration is issued only for a fingerprint that an earlier
/// submission already filed, and it names exactly that fingerprint: two
/// submissions are matched only when their canonical encodings have the same
/// fingerprint.
pub proof fn lemma_match_requires_equal_fingerprint(
    m: CoordinatorModel,
    event_id: Seq<char>,
    content: Seq<char>,
    secret: Seq<char>,
    pubkey: Seq<char>,
    now: u64,
)
    ensures
        ({
            let (m2, out) = coordinator_step(m, event_id, content, secret, pubkey, now);
            out is Some ==> {
                &&& m.pending.contains_key(fingerprint_of(content))
                &&& out->Some_0.registration.escrow_id_hex == fingerprint_of(content)
            }
        }),
{
}

/// Exactly one registration per match: two distinct events carrying the same
/// contract produce one registration, on the second of them, and both event
/// ids are then marked seen, so any redelivery of either is ignored.
pub proof fn lemma_single_registration(
    m: CoordinatorModel,
    e1: Seq<char>,
    e2: Seq<char>,
    content: Seq<char>,
    s1: Seq<char>,
    p1: Seq<char>,
    t1: u64,
    s2: Seq<char>,
    p2: Seq<char>,
    t2: u64,
)
    requires
        !m.seen.contains(e1),
        !m.seen.contains(e2),
        e1 != e2,
        parse_contract_v(content) is Some,
        !m.pending.contains_key(fingerprint_of(content)),
    ensures
        ({
            let (m1, r1) = coordinator_step(m, e1, content, s1, p1, t1);
            let (m2, r2) = coordinator_step(m1, e2, content, s2, p2, t2);
            &&& r1 is None
            &&& r2 is Some
            &&& r2->Some_0.registration.escrow_id_hex == fingerprint_of(content)
            &&& r2->Some_0.registration.escrow_start_time == t2
            &&& m2.seen.contains(e1) && m2.seen.contains(e2)
            &&& !m2.pending.contains_key(fingerprint_of(content))
            &&& m2.active.contains_key(fingerprint_of(content))
        }),
{
}

/// Submissions whose canonical encodings have different fingerprints are
/// never matched with one another: each is only filed, and no registration
/// is issued.
pub proof fn lemma_no_match_across_fingerprints(
    m: CoordinatorModel,
    e1: Seq<char>,
    e2: Seq<char>,
    c1: Seq<char>,
    c2: Seq<char>,
    s1: Seq<char>,
    p1: Seq<char>,
    t1: u64,
    s2: Seq<char>,
    p2: Seq<char>,
    t2: u64,
)
    requires
        !m.seen.contains(e1),
        !m.seen.contains(e2),
        e1 != e2,
        fingerprint_of(c1) != fingerprint_of(c2),
        !m.pending.contains_key(fingerprint_of(c1)),
        !m.pending.contains_key(fingerprint_of(c2)),
    ensures
        ({
            let (m1, r1) = coordinator_step(m, e1, c1, s1, p1, t1);
            let (m2, r2) = coordinator_step(m1, e2, c2, s2, p2, t2);
            r1 is None && r2 is None
        }),
{
}

/// One inbound event as the matching engine sees it: the transport event id,
/// the decrypted payload, the keypair minted for it and the clock reading.
#[verifier::ext_equal]
pub struct EventRec {
    pub event_id: Seq<char>,
    pub content: Seq<char>,
    pub secret: Seq<char>,
    pub pubkey: Seq<char>,
    pub now: u64,
}

/// A whole run of the matching engine: the state after the events, and how
/// many registrations they caused.
pub open spec fn run_steps(m: CoordinatorModel, evs: Seq<EventRec>) -> (CoordinatorModel, nat)
    decreases evs.len(),
{
    if evs.len() == 0 {
        (m, 0)
    } else {
        let e = evs[0];
        let (m1, r1) = coordinator_step(m, e.event_id, e.content, e.secret, e.pubkey, e.now);
        let (m2, k) = run_steps(m1, evs.drop_first());
        (m2, k + if r1 is Some { 1nat } else { 0nat })
    }
}

/// Whether some event in the run carries this event id.
pub open spec fn occurs(evs: Seq<EventRec>, e: Seq<char>) -> bool {
    exists|i: int| 0 <= i < evs.len() && (#[trigger] evs[i]).event_id == e
}

/// Splitting an occurrence between the head and the tail of a run.
proof fn lemma_occurs_unfold(evs: Seq<EventRec>, e: Seq<char>)
    requires
        evs.len() > 0,
    ensures
        occurs(evs, e) == (evs[0].event_id == e || occurs(evs.drop_first(), e)),
{
    if occurs(evs, e) {
        let i = choose|i: int| 0 <= i < evs.len() && (#[trigger] evs[i]).event_id == e;
        if i > 0 {
            assert(evs.drop_first()[i - 1].event_id == e);
        }
    }
    if evs.len() > 0 && occurs(evs.drop_first(), e) {
        let i = choose|i: int| 0 <= i < evs.drop_first().len() && (#[trigger] evs.drop_first()[
            i
        ]).event_id == e;
        assert(evs[i + 1].event_id == e);
    }
}

/// How many registrations a run of same-contract events can still cause,
/// given which of the two submitters' events have already been processed.
pub open spec fn registrations_due(
    evs: Seq<EventRec>,
    e1: Seq<char>,
    e2: Seq<char>,
    seen1: bool,
    seen2: bool,
) -> nat {
    if seen1 && seen2 {
        0
    } else if seen1 {
        if occurs(evs, e2) {
            1
        } else {
            0
        }
    } else if seen2 {
        if occurs(evs, e1) {
            1
        } else {
            0
        }
    } else {
        if occurs(evs, e1) && occurs(evs, e2) {
            1
        } else {
            0
        }
    }
}

/// The induction behind the single-registration theorem: through any run of
/// events that all carry the same contract under one of two event ids, the
/// number of registrations issued is what the dedup state still allows.
proof fn lemma_run_phase(
    m: CoordinatorModel,
    evs: Seq<EventRec>,
    e1: Seq<char>,
    e2: Seq<char>,
    c: Seq<char>,
    seen1: bool,
    seen2: bool,
)
    requires
        e1 != e2,
        parse_contract_v(c) is Some,
        m.seen.contains(e1) == seen1,
        m.seen.contains(e2) == seen2,
        (seen1 != seen2) ==> m.pending.contains_key(fingerprint_of(c)),
        (seen1 == seen2) ==> !m.pending.contains_key(fingerprint_of(c)),
        forall|i: int| 0 <= i < evs.len() ==> (#[trigger] evs[i]).content == c && (evs[i].event_id
            == e1 || evs[i].event_id == e2),
    ensures
        run_steps(m, evs).1 == registrations_due(evs, e1, e2, seen1, seen2),
    decreases evs.len(),
{
    if evs.len() > 0 {
        let e = evs[0];
        let fp = fingerprint_of(c);
        let (m1, r1) = coordinator_step(m, e.event_id, e.content, e.secret, e.pubkey, e.now);
        lemma_occurs_unfold(evs, e1);
        lemma_occurs_unfold(evs, e2);
        assert(forall|i: int| 0 <= i < evs.drop_first().len() ==> (#[trigger] evs.drop_first()[
            i
        ]).content == c && (evs.drop_first()[i].event_id == e1 || evs.drop_first()[i].event_id
            == e2)) by {
            assert(forall|i: int| 0 <= i < evs.drop_first().len() ==> evs.drop_first()[i] == (
            #[trigger] evs[i + 1]));
        };
        let already = (e.event_id == e1 && seen1) || (e.event_id == e2 && seen2);
        if already {
            assert((m1, r1) == (m, None::<RegistrationIssueV>));
            lemma_run_phase(m, evs.drop_first(), e1, e2, c, seen1, seen2);
        } else if !seen1 && !seen2 {
            assert(r1 is None);
            assert(m1.pending == m.pending.insert(fp, parse_contract_v(c)->Some_0));
            if e.event_id == e1 {
                lemma_run_phase(m1, evs.drop_first(), e1, e2, c, true, false);
            } else {
                lemma_run_phase(m1, evs.drop_first(), e1, e2, c, false, true);
            }
        } else {
            // Exactly one submitter processed, and this event is the other
            // one: the match fires and exactly one registration goes out.
            assert(m.pending.contains_key(fp));
            assert(r1 is Some);
            assert(!m1.pending.contains_key(fp)) by {
                assert(m1.pending == m.pending.insert(
                    fp,
                    parse_contract_v(c)->Some_0,
                ).remove(fp));
            };
            lemma_run_phase(m1, evs.drop_first(), e1, e2, c, true, true);
            assert(registrations_due(evs.drop_first(), e1, e2, true, true) == 0);
        }
    }
}

/// Single registration per match, over whole runs: events that all carry the
/// byte-identical contract under two distinct transport event ids — each
/// possibly redelivered any number of times — cause exactly one registration
/// when both parties' events appear, and none otherwise.
pub proof fn lemma_run_single_registration(
    m: CoordinatorModel,
    evs: Seq<EventRec>,
    e1: Seq<char>,
    e2: Seq<char>,
    c: Seq<char>,
)
    requires
        e1 != e2,
        parse_contract_v(c) is Some,
        !m.seen.contains(e1),
        !m.seen.contains(e2),
        !m.pending.contains_key(fingerprint_of(c)),
        forall|i: int| 0 <= i < evs.len() ==> (#[trigger] evs[i]).content == c && (evs[i].event_id
            == e1 || evs[i].event_id == e2),
    ensures
        run_steps(m, evs).1 == if occurs(evs, e1) && occurs(evs, e2) {
            1nat
        } else {
            0nat
        },
{
    lemma_run_phase(m, evs, e1, e2, c, false, false);
}

} // verus!
