//! The voting core: wallet accounting, the proposal registry, the round
//! lifecycle and the round finalizer.
//!
//! All persistent state lives in [`Engine`], whose mathematical model is the
//! ghost [`State`]: a map from account to balance, a map from proposal id to
//! proposal, the optional active round, and the append-only event log. Every
//! operation is specified by a pure transition function over [`State`], and
//! each executable method ensures that it performs exactly that transition.

use vstd::prelude::*;

verus! {

/// A stored proposal: who submitted it and how many upvote units it has
/// accumulated so far.
#[derive(Clone, Copy, PartialEq, Eq, Structural, Debug)]
pub struct Proposal {
    pub proposer: u64,
    pub upvotes: u64,
}

/// The singleton voting window, holding the id of the proposal whose
/// creation opened it.
#[derive(Clone, Copy, PartialEq, Eq, Structural, Debug)]
pub struct Round {
    pub round_id: u64,
}

/// A domain event, appended to the engine's event log by each successful
/// operation and never read back by the core.
#[derive(Clone, Copy, PartialEq, Eq, Structural, Debug)]
pub enum Event {
    /// A wallet was created for an account with an initial balance.
    WalletCreated(u64, u64),
    /// An account submitted a proposal, opening a round.
    ProposalCreated(u64, u64),
    /// An account upvoted a proposal; the last field is the number of
    /// upvote units actually added.
    ProposalUpvoted(u64, u64, u64),
    /// The active round was closed; the field is the id of the proposal
    /// whose creation had opened it.
    RoundFinished(u64),
}

/// The closed set of failures an operation can report. Every failure leaves
/// the engine's state exactly as it was.
#[derive(Clone, Copy, PartialEq, Eq, Structural, Debug)]
pub enum Error {
    /// The account already owns a wallet; funding is a single flat grant.
    WalletAlreadyExists,
    /// A round is already active, or the proposal id is already taken.
    ProposalSubmissionRejected,
    /// The operation needs an active round and there is none.
    NoActiveRound,
    /// The proposal id is unknown to the registry.
    ProposalNotFound,
    /// A proposer may not upvote their own proposal.
    SelfUpvoteRejected,
    /// Only the privileged closer may finish a round.
    NotAuthorized,
}

/// The mathematical model of the engine: what the key-value store holds,
/// the event log, and the deployment-time configuration.
#[verifier::ext_equal]
pub ghost struct State {
    /// Account identity to token balance.
    pub wallets: Map<u64, u64>,
    /// Proposal id to stored proposal.
    pub proposals: Map<u64, Proposal>,
    /// The active round's id, or `None` when no round is active.
    pub round: Option<u64>,
    /// The append-only event log.
    pub events: Seq<Event>,
    /// Tokens per upvote unit; positive.
    pub upvote_price: u64,
    /// Cap used in the reward arithmetic; positive.
    pub max_upvotes: u64,
    /// The privileged identity allowed to finish a round.
    pub closer: u64,
}

/// The deployment configuration is sound: both constants are positive and
/// the round payout fits in a machine word.
pub open spec fn config_ok(s: State) -> bool {
    &&& s.upvote_price > 0
    &&& s.max_upvotes > 0
    &&& s.max_upvotes * s.upvote_price + (s.max_upvotes * s.upvote_price) / 2 <= u64::MAX
}

/// The cross-entity invariant of the core: the configuration is sound, the
/// registry is empty whenever no round is active, and an active round always
/// refers to a stored proposal.
pub open spec fn state_inv(s: State) -> bool {
    &&& config_ok(s)
    &&& s.round is None ==> s.proposals =~= Map::<u64, Proposal>::empty()
    &&& s.round is Some ==> s.proposals.contains_key(s.round.unwrap())
}

/// Transition for funding a wallet: rejected when the account already owns
/// one, otherwise a new wallet is created with exactly the granted amount.
pub open spec fn spec_fund_wallet(s: State, caller: u64, amount: u64) -> (State, Result<(), Error>) {
    if s.wallets.contains_key(caller) {
        (s, Err(Error::WalletAlreadyExists))
    } else {
        ((State {
            wallets: s.wallets.insert(caller, amount),
            events: s.events.push(Event::WalletCreated(caller, amount)),
            ..s
        }), Ok(()))
    }
}

/// Transition for submitting a proposal: legal only while no round is
/// active and the id is fresh; success stores the proposal with zero
/// upvotes and opens a round referring to it.
pub open spec fn spec_create_proposal(s: State, caller: u64, proposal_id: u64) -> (State, Result<(), Error>) {
    if s.round is Some {
        (s, Err(Error::ProposalSubmissionRejected))
    } else if s.proposals.contains_key(proposal_id) {
        (s, Err(Error::ProposalSubmissionRejected))
    } else {
        ((State {
            proposals: s.proposals.insert(proposal_id, (Proposal { proposer: caller, upvotes: 0 })),
            round: Some(proposal_id),
            events: s.events.push(Event::ProposalCreated(caller, proposal_id)),
            ..s
        }), Ok(()))
    }
}

/// Transition for upvoting: legal only during an active round, on a stored
/// proposal, and never by its own proposer. The spent amount converts to
/// upvote units by floor division by the upvote price; the remainder is
/// discarded.
pub open spec fn spec_upvote_proposal(s: State, caller: u64, proposal_id: u64, amount: u64) -> (State, Result<(), Error>) {
    if s.round is None {
        (s, Err(Error::NoActiveRound))
    } else if !s.proposals.contains_key(proposal_id) {
        (s, Err(Error::ProposalNotFound))
    } else if s.proposals[proposal_id].proposer == caller {
        (s, Err(Error::SelfUpvoteRejected))
    } else {
        let units = amount / s.upvote_price;
        let p = s.proposals[proposal_id];
        ((State {
            proposals: s.proposals.insert(proposal_id, (Proposal {
                proposer: p.proposer,
                upvotes: (p.upvotes + units) as u64,
            })),
            events: s.events.push(Event::ProposalUpvoted(caller, proposal_id, units)),
            ..s
        }), Ok(()))
    }
}

/// `w` is the round winner among `proposals`: it is stored, no proposal has
/// strictly more upvotes, and among proposals tied at the maximum it has the
/// smallest id. The smallest-id tie-break is a deliberate deterministic rule.
pub open spec fn is_winner(proposals: Map<u64, Proposal>, w: u64) -> bool {
    &&& proposals.contains_key(w)
    &&& forall|k: u64| proposals.contains_key(k) ==> proposals[k].upvotes <= proposals[w].upvotes
    &&& forall|k: u64| proposals.contains_key(k) && proposals[k].upvotes == proposals[w].upvotes ==> w <= k
}

/// The winner of the registry, or `None` when no proposal is stored.
pub open spec fn winner_of(proposals: Map<u64, Proposal>) -> Option<u64> {
    if exists|w: u64| is_winner(proposals, w) {
        Some(choose|w: u64| is_winner(proposals, w))
    } else {
        None
    }
}

/// The winner's base reward: the upvote cap times the upvote price.
pub open spec fn winner_reward(s: State) -> int {
    s.max_upvotes * s.upvote_price
}

/// The total payout communicated for the winner: the base reward plus a
/// half-reward bonus, both in integer arithmetic.
pub open spec fn round_payout(s: State) -> int {
    winner_reward(s) + winner_reward(s) / 2
}

/// Transition for finishing the round: legal only for the closer and only
/// while a round is active. Success reports the winner and its payout (or
/// nothing when the registry is empty), purges every proposal, clears the
/// round, and logs the finished round's id.
pub open spec fn spec_finish_round(s: State, caller: u64) -> (State, Result<Option<(u64, u64)>, Error>) {
    if caller != s.closer {
        (s, Err(Error::NotAuthorized))
    } else if s.round is None {
        (s, Err(Error::NoActiveRound))
    } else {
        let outcome = match winner_of(s.proposals) {
            Some(w) => Some((w, round_payout(s) as u64)),
            None => None,
        };
        ((State {
            proposals: Map::empty(),
            round: None,
            events: s.events.push(Event::RoundFinished(s.round.unwrap())),
            ..s
        }), Ok(outcome))
    }
}

/// The association list `s` binds each key at most once.
pub open spec fn keys_unique<V>(s: Seq<(u64, V)>) -> bool {
    forall|i: int, j: int| 0 <= i < j < s.len() ==> s[i].0 != s[j].0
}

/// The finite map that an association list denotes; a later binding of a
/// key shadows an earlier one.
pub open spec fn map_of<V>(s: Seq<(u64, V)>) -> Map<u64, V>
    decreases s.len(),
{
    if s.len() == 0 {
        Map::empty()
    } else {
        map_of(s.drop_last()).insert(s.last().0, s.last().1)
    }
}

/// A key is in `map_of(s)` exactly when some entry of `s` binds it.
pub proof fn lemma_map_of_contains<V>(s: Seq<(u64, V)>, k: u64)
    ensures
        map_of(s).contains_key(k) <==> exists|i: int| 0 <= i < s.len() && s[i].0 == k,
    decreases s.len(),
{
    if s.len() > 0 {
        lemma_map_of_contains(s.drop_last(), k);
        if s.last().0 != k && map_of(s).contains_key(k) {
            let i = choose|i: int| 0 <= i < s.drop_last().len() && s.drop_last()[i].0 == k;
            assert(s[i].0 == k);
        }
        if exists|i: int| 0 <= i < s.len() && s[i].0 == k {
            let i = choose|i: int| 0 <= i < s.len() && s[i].0 == k;
            if i < s.len() - 1 {
                assert(s.drop_last()[i].0 == k);
            }
        }
    }
}

/// Under unique keys, the entry of `s` that binds `k` gives the value of
/// `map_of(s)` at `k`.
pub proof fn lemma_map_of_index<V>(s: Seq<(u64, V)>, i: int)
    requires
        keys_unique(s),
        0 <= i < s.len(),
    ensures
        map_of(s).contains_key(s[i].0),
        map_of(s)[s[i].0] == s[i].1,
    decreases s.len(),
{
    if i == s.len() - 1 {
    } else {
        lemma_map_of_index(s.drop_last(), i);
        assert(s.drop_last()[i] == s[i]);
    }
}

/// Appending a binding to the list inserts it into the denoted map.
pub proof fn lemma_map_of_push<V>(s: Seq<(u64, V)>, k: u64, v: V)
    ensures
        map_of(s.push((k, v))) == map_of(s).insert(k, v),
{
    assert(s.push((k, v)).drop_last() =~= s);
}

/// The voting engine: the executable owner of all persistent state. Wallets
/// and proposals are association lists with unique keys; [`State`] is its
/// abstraction via [`View`].
pub struct Engine {
    upvote_price: u64,
    max_upvotes: u64,
    closer: u64,
    wallets: Vec<(u64, u64)>,
    proposals: Vec<(u64, Proposal)>,
    current_round: Option<Round>,
    events: Vec<Event>,
}

impl View for Engine {
    type V = State;

    closed spec fn view(&self) -> State {
        State {
            wallets: map_of(self.wallets@),
            proposals: map_of(self.proposals@),
            round: match self.current_round {
                Some(r) => Some(r.round_id),
                None => None,
            },
            events: self.events@,
            upvote_price: self.upvote_price,
            max_upvotes: self.max_upvotes,
            closer: self.closer,
        }
    }
}

impl Engine {
    /// The engine is well formed: its association lists bind each key once
    /// and its model satisfies the core invariant.
    pub closed spec fn wf(self) -> bool {
        &&& keys_unique(self.wallets@)
        &&& keys_unique(self.proposals@)
        &&& state_inv(self@)
    }

    /// Deploy a fresh engine: no wallets, no proposals, no active round, an
    /// empty event log, and the given configuration.
    pub fn new(upvote_price: u64, max_upvotes: u64, closer: u64) -> (r: Engine)
        requires
            upvote_price > 0,
            max_upvotes > 0,
            max_upvotes * upvote_price + (max_upvotes * upvote_price) / 2 <= u64::MAX,
        ensures
            r.wf(),
            r@ == (State {
                wallets: Map::<u64, u64>::empty(),
                proposals: Map::<u64, Proposal>::empty(),
                round: None::<u64>,
                events: Seq::<Event>::empty(),
                upvote_price: upvote_price,
                max_upvotes: max_upvotes,
                closer: closer,
            }),
    {
        let r = Engine {
            upvote_price,
            max_upvotes,
            closer,
            wallets: Vec::new(),
            proposals: Vec::new(),
            current_round: None,
            events: Vec::new(),
        };
        proof {
            assert(r@ =~= State {
                wallets: Map::<u64, u64>::empty(),
                proposals: Map::<u64, Proposal>::empty(),
                round: None::<u64>,
                events: Seq::<Event>::empty(),
                upvote_price: upvote_price,
                max_upvotes: max_upvotes,
                closer: closer,
            });
        }
        r
    }
}

impl Engine {
    /// Fund a new wallet for `caller` with a flat grant of `amount` tokens.
    /// Rejected with `WalletAlreadyExists` when the account already owns a
    /// wallet; repeated funding never tops a balance up.
    pub fn fund_wallet(&mut self, caller: u64, amount: u64) -> (r: Result<(), Error>)
        requires
            old(self).wf(),
        ensures
            final(self).wf(),
            ({
                let (s2, res) = spec_fund_wallet(old(self)@, caller, amount);
                final(self)@ == s2 && r == res
            }),
    {
        proof {
            lemma_map_of_contains(self.wallets@, caller);
        }
        if find_key(&self.wallets, caller).is_some() {
            return Err(Error::WalletAlreadyExists);
        }
        proof {
            lemma_map_of_push(self.wallets@, caller, amount);
        }
        self.wallets.push((caller, amount));
        self.events.push(Event::WalletCreated(caller, amount));
        proof {
            assert(final(self)@ =~= spec_fund_wallet(old(self)@, caller, amount).0);
        }
        Ok(())
    }

    /// Submit a proposal under a fresh id while no round is active. Success
    /// stores the proposal with zero upvotes and opens a round referring to
    /// it; an active round or a taken id is rejected with
    /// `ProposalSubmissionRejected`.
    pub fn create_proposal(&mut self, caller: u64, proposal_id: u64) -> (r: Result<(), Error>)
        requires
            old(self).wf(),
        ensures
            final(self).wf(),
            ({
                let (s2, res) = spec_create_proposal(old(self)@, caller, proposal_id);
                final(self)@ == s2 && r == res
            }),
    {
        if self.current_round.is_some() {
            return Err(Error::ProposalSubmissionRejected);
        }
        proof {
            lemma_map_of_contains(self.proposals@, proposal_id);
        }
        if find_key(&self.proposals, proposal_id).is_some() {
            return Err(Error::ProposalSubmissionRejected);
        }
        proof {
            lemma_map_of_push(self.proposals@, proposal_id, Proposal { proposer: caller, upvotes: 0 });
        }
        self.proposals.push((proposal_id, Proposal { proposer: caller, upvotes: 0 }));
        self.current_round = Some(Round { round_id: proposal_id });
        self.events.push(Event::ProposalCreated(caller, proposal_id));
        proof {
            assert(final(self)@ =~= spec_create_proposal(old(self)@, caller, proposal_id).0);
        }
        Ok(())
    }

    /// Spend `amount` tokens to upvote a stored proposal during the active
    /// round. The amount converts to upvote units by floor division by the
    /// upvote price; the remainder is discarded, not carried over. A missing
    /// round, an unknown id, and a proposer upvoting their own proposal are
    /// each rejected with their own error.
    ///
    /// Known limitation of the design: the amount is neither checked
    /// against nor debited from the caller's wallet, so token spending is
    /// conceptual only, and nothing prevents an account from upvoting the
    /// same proposal repeatedly.
    pub fn upvote_proposal(&mut self, caller: u64, proposal_id: u64, amount: u64) -> (r: Result<(), Error>)
        requires
            old(self).wf(),
            (old(self)@.round is Some && old(self)@.proposals.contains_key(proposal_id)
                && old(self)@.proposals[proposal_id].proposer != caller)
                ==> old(self)@.proposals[proposal_id].upvotes + amount / old(self)@.upvote_price <= u64::MAX,
        ensures
            final(self).wf(),
            ({
                let (s2, res) = spec_upvote_proposal(old(self)@, caller, proposal_id, amount);
                final(self)@ == s2 && r == res
            }),
    {
        if self.current_round.is_none() {
            return Err(Error::NoActiveRound);
        }
        proof {
            lemma_map_of_contains(self.proposals@, proposal_id);
        }
        let i = match find_key(&self.proposals, proposal_id) {
            Some(i) => i,
            None => {
                return Err(Error::ProposalNotFound);
            }
        };
        proof {
            lemma_map_of_index(self.proposals@, i as int);
        }
        let p = self.proposals[i].1;
        if p.proposer == caller {
            return Err(Error::SelfUpvoteRejected);
        }
        let num_upvotes = amount / self.upvote_price;
        let updated = Proposal { proposer: p.proposer, upvotes: p.upvotes + num_upvotes };
        proof {
            lemma_map_of_update(self.proposals@, i as int, updated);
        }
        self.proposals.set(i, (proposal_id, updated));
        self.events.push(Event::ProposalUpvoted(caller, proposal_id, num_upvotes));
        proof {
            assert(final(self)@ =~= spec_upvote_proposal(old(self)@, caller, proposal_id, amount).0);
        }
        Ok(())
    }

    /// Close the active round. Only the closer may call this, and only
    /// while a round is active. The proposal with the most upvotes wins,
    /// smallest id first on a tie; the call reports the winner with its
    /// payout (`None` when the registry is empty), purges every proposal,
    /// clears the round, and logs the finished round's id.
    ///
    /// The payout is an output value only: crediting it to a wallet is a
    /// deliberate extension point, not something this operation does.
    pub fn finish_round(&mut self, caller: u64) -> (r: Result<Option<(u64, u64)>, Error>)
        requires
            old(self).wf(),
        ensures
            final(self).wf(),
            ({
                let (s2, res) = spec_finish_round(old(self)@, caller);
                final(self)@ == s2 && r == res
            }),
    {
        if caller != self.closer {
            return Err(Error::NotAuthorized);
        }
        let round = match self.current_round {
            Some(r) => r,
            None => {
                return Err(Error::NoActiveRound);
            }
        };
        let outcome: Option<(u64, u64)>;
        if self.proposals.len() == 0 {
            proof {
                assert forall|w: u64| !is_winner(old(self)@.proposals, w) by {
                    lemma_map_of_contains(self.proposals@, w);
                }
            }
            outcome = None;
        } else {
            let ghost s = self.proposals@;
            let mut best: usize = 0;
            let mut i: usize = 1;
            while i < self.proposals.len()
                invariant
                    self.proposals@ == s,
                    0 < i <= s.len(),
                    best < i,
                    forall|j: int| 0 <= j < i ==> s[j].1.upvotes <= s[best as int].1.upvotes,
                    forall|j: int| 0 <= j < i && s[j].1.upvotes == s[best as int].1.upvotes
                        ==> s[best as int].0 <= s[j].0,
                decreases s.len() - i,
            {
                let cur = self.proposals[i].1.upvotes;
                let so_far = self.proposals[best].1.upvotes;
                if cur > so_far || (cur == so_far && self.proposals[i].0 < self.proposals[best].0) {
                    best = i;
                }
                i += 1;
            }
            let w = self.proposals[best].0;
            proof {
                lemma_map_of_index(s, best as int);
                let m = old(self)@.proposals;
                assert forall|k: u64| m.contains_key(k)
                    implies m[k].upvotes <= m[w].upvotes && (m[k].upvotes == m[w].upvotes ==> w <= k) by {
                    lemma_map_of_contains(s, k);
                    let j = choose|j: int| 0 <= j < s.len() && s[j].0 == k;
                    lemma_map_of_index(s, j);
                }
                assert(is_winner(m, w));
                let w2 = choose|w2: u64| is_winner(m, w2);
                lemma_winner_unique(m, w, w2);
                assert(winner_of(m) == Some(w));
            }
            let reward = self.max_upvotes * self.upvote_price;
            let payout = reward + reward / 2;
            outcome = Some((w, payout));
        }
        self.proposals = Vec::new();
        self.current_round = None;
        self.events.push(Event::RoundFinished(round.round_id));
        proof {
            assert(final(self)@ =~= spec_finish_round(old(self)@, caller).0);
        }
        Ok(outcome)
    }
}

impl Engine {
    /// The balance of `account`'s wallet, or `None` when it owns no wallet.
    pub fn wallet_balance(&self, account: u64) -> (r: Option<u64>)
        requires
            self.wf(),
        ensures
            r == (if self@.wallets.contains_key(account) {
                Some(self@.wallets[account])
            } else {
                None::<u64>
            }),
    {
        proof {
            lemma_map_of_contains(self.wallets@, account);
        }
        match find_key(&self.wallets, account) {
            Some(i) => {
                proof {
                    lemma_map_of_index(self.wallets@, i as int);
                }
                Some(self.wallets[i].1)
            }
            None => None,
        }
    }

    /// The proposal stored under `proposal_id`, or `None` when the id is
    /// unknown.
    pub fn proposal(&self, proposal_id: u64) -> (r: Option<Proposal>)
        requires
            self.wf(),
        ensures
            r == (if self@.proposals.contains_key(proposal_id) {
                Some(self@.proposals[proposal_id])
            } else {
                None::<Proposal>
            }),
    {
        proof {
            lemma_map_of_contains(self.proposals@, proposal_id);
        }
        match find_key(&self.proposals, proposal_id) {
            Some(i) => {
                proof {
                    lemma_map_of_index(self.proposals@, i as int);
                }
                Some(self.proposals[i].1)
            }
            None => None,
        }
    }

    /// The id of the proposal whose creation opened the active round, or
    /// `None` while no round is active.
    pub fn current_round(&self) -> (r: Option<u64>)
        ensures
            r == self@.round,
    {
        match self.current_round {
            Some(round) => Some(round.round_id),
            None => None,
        }
    }

    /// Whether the proposal registry stores nothing.
    pub fn is_registry_empty(&self) -> (r: bool)
        ensures
            r <==> self@.proposals =~= Map::<u64, Proposal>::empty(),
    {
        proof {
            if self.proposals@.len() == 0 {
                assert(map_of(self.proposals@) =~= Map::<u64, Proposal>::empty());
            } else {
                lemma_map_of_contains(self.proposals@, self.proposals@[0].0);
            }
        }
        self.proposals.len() == 0
    }

    /// How many events the engine has logged so far.
    pub fn event_count(&self) -> (r: usize)
        ensures
            r == self@.events.len(),
    {
        self.events.len()
    }

    /// The event logged at position `i`, oldest first.
    pub fn event_at(&self, i: usize) -> (r: Event)
        requires
            i < self@.events.len(),
        ensures
            r == self@.events[i as int],
    {
        self.events[i]
    }
}

/// Funding a wallet twice for the same account: the first call succeeds and
/// leaves the balance at exactly the first amount, and the second call is
/// rejected with `WalletAlreadyExists` and changes nothing, whatever either
/// amount is.
pub proof fn lemma_fund_wallet_twice(s: State, a: u64, amt1: u64, amt2: u64)
    requires
        !s.wallets.contains_key(a),
    ensures
        ({
            let (s1, r1) = spec_fund_wallet(s, a, amt1);
            let (s2, r2) = spec_fund_wallet(s1, a, amt2);
            &&& r1 == Ok::<(), Error>(())
            &&& s1.wallets[a] == amt1
            &&& r2 == Err::<(), Error>(Error::WalletAlreadyExists)
            &&& s2 == s1
        }),
{
}

/// The round gates are mutually exclusive: while a round is active,
/// submitting a proposal always fails, and while no round is active,
/// upvoting always fails; on any one state the two operations never both
/// succeed.
pub proof fn lemma_round_gates(s: State, c1: u64, pid1: u64, c2: u64, pid2: u64, amount: u64)
    ensures
        s.round is Some ==> spec_create_proposal(s, c1, pid1)
            == (s, Err::<(), Error>(Error::ProposalSubmissionRejected)),
        s.round is None ==> spec_upvote_proposal(s, c2, pid2, amount)
            == (s, Err::<(), Error>(Error::NoActiveRound)),
        !(spec_create_proposal(s, c1, pid1).1 is Ok && spec_upvote_proposal(s, c2, pid2, amount).1 is Ok),
{
}

/// Upvote conversion is floor division: a successful upvote of `amount`
/// adds exactly `amount / upvote_price` units to the proposal's count, and
/// every other proposal keeps its count.
pub proof fn lemma_upvote_floor_division(s: State, caller: u64, pid: u64, amount: u64)
    requires
        s.upvote_price > 0,
        s.round is Some,
        s.proposals.contains_key(pid),
        s.proposals[pid].proposer != caller,
        s.proposals[pid].upvotes + amount / s.upvote_price <= u64::MAX,
    ensures
        ({
            let (s1, r1) = spec_upvote_proposal(s, caller, pid, amount);
            &&& r1 == Ok::<(), Error>(())
            &&& s1.proposals[pid].upvotes == s.proposals[pid].upvotes + amount / s.upvote_price
            &&& forall|k: u64| k != pid && s.proposals.contains_key(k)
                    ==> s1.proposals[k] == s.proposals[k]
        }),
{
    let (s1, r1) = spec_upvote_proposal(s, caller, pid, amount);
    assert forall|k: u64| k != pid && s.proposals.contains_key(k)
        implies s1.proposals[k] == s.proposals[k] by {
        assert(s1.proposals == s.proposals.insert(pid, s1.proposals[pid]));
    }
}

/// A proposer upvoting their own proposal is always rejected and nothing
/// changes, for any amount: under the core invariant a stored proposal
/// implies an active round, so the error is exactly `SelfUpvoteRejected`.
pub proof fn lemma_self_upvote_rejected(s: State, pid: u64, amount: u64)
    requires
        state_inv(s),
        s.proposals.contains_key(pid),
    ensures
        spec_upvote_proposal(s, s.proposals[pid].proposer, pid, amount)
            == (s, Err::<(), Error>(Error::SelfUpvoteRejected)),
{
    assert(s.round is Some);
}

/// Finishing a round always empties the proposal registry and deactivates
/// the round, however many proposals existed and whoever proposed them.
pub proof fn lemma_finish_round_clears(s: State, caller: u64)
    requires
        caller == s.closer,
        s.round is Some,
    ensures
        ({
            let (s1, r1) = spec_finish_round(s, caller);
            &&& r1 is Ok
            &&& s1.proposals =~= Map::<u64, Proposal>::empty()
            &&& s1.round is None
        }),
{
}

/// Finishing with no active round fails with `NoActiveRound` and leaves
/// every piece of state untouched.
pub proof fn lemma_finish_round_requires_active(s: State, caller: u64)
    requires
        caller == s.closer,
        s.round is None,
    ensures
        spec_finish_round(s, caller) == (s, Err::<Option<(u64, u64)>, Error>(Error::NoActiveRound)),
{
}

/// Every transition preserves the core invariant: sound configuration, an
/// empty registry whenever no round is active, and an active round that
/// refers to a stored proposal.
pub proof fn lemma_transitions_preserve_inv(s: State, caller: u64, pid: u64, amount: u64)
    requires
        state_inv(s),
    ensures
        state_inv(spec_fund_wallet(s, caller, amount).0),
        state_inv(spec_create_proposal(s, caller, pid).0),
        state_inv(spec_upvote_proposal(s, caller, pid, amount).0),
        state_inv(spec_finish_round(s, caller).0),
{
}

/// Two winners of the same registry are the same proposal: the maximum
/// upvote count together with the smallest-id tie-break is deterministic.
pub proof fn lemma_winner_unique(proposals: Map<u64, Proposal>, w1: u64, w2: u64)
    requires
        is_winner(proposals, w1),
        is_winner(proposals, w2),
    ensures
        w1 == w2,
{
    assert(proposals[w1].upvotes <= proposals[w2].upvotes);
    assert(proposals[w2].upvotes <= proposals[w1].upvotes);
    assert(w1 <= w2);
    assert(w2 <= w1);
}

/// The index of the entry of `v` that binds `k`, if any.
fn find_key<V>(v: &Vec<(u64, V)>, k: u64) -> (r: Option<usize>)
    ensures
        match r {
            Some(i) => i < v@.len() && v@[i as int].0 == k,
            None => forall|i: int| 0 <= i < v@.len() ==> v@[i].0 != k,
        },
{
    let mut i: usize = 0;
    while i < v.len()
        invariant
            i <= v@.len(),
            forall|j: int| 0 <= j < i ==> v@[j].0 != k,
        decreases v@.len() - i,
    {
        if v[i].0 == k {
            return Some(i);
        }
        i += 1;
    }
    None
}

/// Overwriting the entry at `i` with a new value for the same key inserts
/// that value into the denoted map, provided keys are unique.
pub proof fn lemma_map_of_update<V>(s: Seq<(u64, V)>, i: int, v: V)
    requires
        keys_unique(s),
        0 <= i < s.len(),
    ensures
        map_of(s.update(i, (s[i].0, v))) =~= map_of(s).insert(s[i].0, v),
    decreases s.len(),
{
    let t = s.update(i, (s[i].0, v));
    if i == s.len() - 1 {
        assert(t.drop_last() =~= s.drop_last());
    } else {
        assert(t.drop_last() =~= s.drop_last().update(i, (s[i].0, v)));
        assert(s.drop_last()[i] == s[i]);
        lemma_map_of_update(s.drop_last(), i, v);
        assert(s.last().0 != s[i].0);
        assert(t.last() == s.last());
        assert(map_of(t) =~= map_of(s).insert(s[i].0, v));
    }
}

} // verus!
