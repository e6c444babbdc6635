//! The proposal lifecycle engine: attestation intake with deduplication,
//! vote tallying against an integer 51% threshold, deadline expiry, and
//! exactly-once execution of accepted actions on the ledger.

use crate::kvlist::keys_distinct;
use crate::kvlist::map_of;
use crate::ledger::Ledger;
use crate::types::AccountId;
use crate::types::Action;
use crate::types::BlockNumber;
use crate::types::BridgeProposal;
use crate::types::Error;
use crate::types::Event;
use crate::types::ExecutionError;
use crate::types::MemberId;
use crate::types::Outcome;
use crate::types::ProposalId;
use crate::types::TokenBalance;
use crate::types::TokenId;
use crate::types::Validator;
use vstd::prelude::*;

verus! {

/// The token all bridge transfers settle in.
pub const DEFAULT_TOKEN: TokenId = 0;

/// Acceptance rule: at least 51% of the configured validator count has
/// assented, in integer arithmetic.
pub open spec fn threshold_reached(votes: int, validator_count: int) -> bool {
    votes * 100 >= 51 * validator_count
}

/// `post` keeps every record that was already closed in `pre` exactly as it
/// was: closed proposals are final.
pub open spec fn preserves_closed_records(
    pre: Seq<BridgeProposal>,
    post: Seq<BridgeProposal>,
) -> bool {
    forall|i: int|
        0 <= i < pre.len() && !pre[i].open ==> i < post.len() && post[i] == pre[i]
}

/// `post` is `pre` with the open flag cleared and everything else intact.
pub open spec fn same_but_closed(post: BridgeProposal, pre: BridgeProposal) -> bool {
    &&& !post.open
    &&& post.proposal_id == pre.proposal_id
    &&& post.action == pre.action
    &&& post.voting_deadline == pre.voting_deadline
    &&& post.votes_count == pre.votes_count
    &&& post.voters@ == pre.voters@
}

/// `post` is the dedup index `pre` with the entry registered to `pid`
/// dropped: every other fingerprint still maps to its proposal.
pub open spec fn dedup_unregistered(
    pre: Map<Seq<u8>, ProposalId>,
    post: Map<Seq<u8>, ProposalId>,
    pid: ProposalId,
) -> bool {
    &&& forall|fp: Seq<u8>|
        (#[trigger] post.contains_key(fp)) <==> (pre.contains_key(fp) && pre[fp] != pid)
    &&& forall|fp: Seq<u8>| #[trigger] post.contains_key(fp) ==> post[fp] == pre[fp]
}

/// The per-record well-formedness of the proposal at index `i` of the
/// store, with `n` registered validators at block `current`.
spec fn wf_record(p: BridgeProposal, i: int, n: int, current: BlockNumber) -> bool {
    &&& p.proposal_id == i as ProposalId
    &&& forall|a: int, b: int| 0 <= a < b < p.voters@.len() ==> p.voters@[a] != p.voters@[b]
    &&& forall|a: int| 0 <= a < p.voters@.len() ==> (#[trigger] p.voters@[a]) < n
    &&& p.votes_count <= p.voters@.len()
    &&& p.voters@.len() <= n
    &&& (p.open ==> p.voting_deadline >= current)
}

/// The bridge state: validator registry, proposal store, deduplication
/// index, deadline buckets, recorded counterpart addresses, the ledger and
/// the event log.
pub struct Module {
    validators: Vec<Validator>,
    voting_period: BlockNumber,
    bucket_capacity: usize,
    current_block: BlockNumber,
    proposals: Vec<BridgeProposal>,
    dedup: Vec<(Vec<u8>, ProposalId)>,
    buckets: Vec<(BlockNumber, ProposalId)>,
    eth_addresses: Vec<(ProposalId, Vec<u8>)>,
    ledger: Ledger,
    events: Vec<Event>,
}

impl Module {
    /// The proposal store, indexed by proposal id.
    pub closed spec fn proposals_view(&self) -> Seq<BridgeProposal> {
        self.proposals@
    }

    /// The deduplication index: event fingerprint to open proposal id.
    pub closed spec fn dedup_view(&self) -> Map<Seq<u8>, ProposalId> {
        map_of(self.dedup@.map_values(|e: (Vec<u8>, ProposalId)| (e.0@, e.1)))
    }

    /// The counterpart-chain address recorded for each proposal.
    pub closed spec fn eth_view(&self) -> Map<ProposalId, Seq<u8>> {
        map_of(self.eth_addresses@.map_values(|e: (ProposalId, Vec<u8>)| (e.0, e.1@)))
    }

    /// The emitted notifications, oldest first.
    pub closed spec fn events_view(&self) -> Seq<Event> {
        self.events@
    }

    /// The validator registry.
    pub closed spec fn validators_view(&self) -> Seq<Validator> {
        self.validators@
    }

    /// The configured validator count.
    pub open spec fn spec_validators_count(&self) -> int {
        self.validators_view().len() as int
    }

    /// The configured voting period, in blocks.
    pub closed spec fn spec_voting_period(&self) -> BlockNumber {
        self.voting_period
    }

    /// The configured maximum of concurrently open proposals per deadline.
    pub closed spec fn spec_bucket_capacity(&self) -> usize {
        self.bucket_capacity
    }

    /// The block currently being processed.
    pub closed spec fn spec_current_block(&self) -> BlockNumber {
        self.current_block
    }

    /// The ledger state.
    pub closed spec fn ledger_view(&self) -> Ledger {
        self.ledger
    }

    /// Number of open proposals whose deadline is `d` (they each hold one
    /// bucket entry).
    pub closed spec fn open_at(&self, d: BlockNumber) -> int {
        count_at(self.buckets@, d)
    }

    /// `account` signs for one of the registered validators.
    pub open spec fn is_registered(&self, account: AccountId) -> bool {
        exists|i: int|
            0 <= i < self.validators_view().len() && self.validators_view()[i].account == account
    }

    /// The member id `account` signs for (its validators index; accounts
    /// are pairwise distinct, so under `wf` there is at most one).
    pub open spec fn member_id_of(&self, account: AccountId) -> MemberId {
        (choose|i: int|
            0 <= i < self.validators_view().len() && self.validators_view()[i].account
                == account) as MemberId
    }

    spec fn wf_validators(&self) -> bool {
        &&& forall|i: int|
            0 <= i < self.validators@.len() ==> (#[trigger] self.validators@[i]).validator_id
                == i as MemberId
        &&& forall|i: int, j: int|
            0 <= i < j < self.validators@.len() ==> self.validators@[i].account
                != self.validators@[j].account
    }

    spec fn wf_proposals(&self) -> bool {
        forall|i: int|
            0 <= i < self.proposals@.len() ==> wf_record(
                #[trigger] self.proposals@[i],
                i,
                self.validators@.len() as int,
                self.current_block,
            )
    }

    spec fn wf_dedup(&self) -> bool {
        &&& forall|i: int, j: int|
            0 <= i < j < self.dedup@.len() ==> self.dedup@[i].0@ != self.dedup@[j].0@
        &&& forall|i: int, j: int|
            0 <= i < j < self.dedup@.len() ==> self.dedup@[i].1 != self.dedup@[j].1
        &&& forall|i: int|
            0 <= i < self.dedup@.len() ==> (#[trigger] self.dedup@[i]).1 < self.proposals@.len()
                && self.proposals@[self.dedup@[i].1 as int].open
        &&& forall|id: int|
            0 <= id < self.proposals@.len() && (#[trigger] self.proposals@[id]).open ==> exists|
                j: int,
            | 0 <= j < self.dedup@.len() && self.dedup@[j].1 == id as ProposalId
    }

    spec fn wf_buckets(&self) -> bool {
        &&& forall|i: int, j: int|
            0 <= i < j < self.buckets@.len() ==> self.buckets@[i].1 != self.buckets@[j].1
        &&& forall|i: int|
            0 <= i < self.buckets@.len() ==> (#[trigger] self.buckets@[i]).1
                < self.proposals@.len() && self.proposals@[self.buckets@[i].1 as int].open
                && self.proposals@[self.buckets@[i].1 as int].voting_deadline == self.buckets@[i].0
        &&& forall|id: int|
            0 <= id < self.proposals@.len() && (#[trigger] self.proposals@[id]).open ==> exists|
                j: int,
            | 0 <= j < self.buckets@.len() && self.buckets@[j].1 == id as ProposalId
        &&& forall|d: BlockNumber| count_at(self.buckets@, d) <= self.bucket_capacity
    }

    spec fn wf_eth(&self) -> bool {
        &&& forall|i: int, j: int|
            0 <= i < j < self.eth_addresses@.len() ==> self.eth_addresses@[i].0
                != self.eth_addresses@[j].0
        &&& forall|i: int|
            0 <= i < self.eth_addresses@.len() ==> (#[trigger] self.eth_addresses@[i]).0
                < self.proposals@.len()
    }

    /// The engine invariant: every constructor establishes it and every
    /// operation preserves it.
    pub closed spec fn wf(&self) -> bool {
        &&& self.wf_validators()
        &&& self.wf_proposals()
        &&& self.wf_dedup()
        &&& self.wf_buckets()
        &&& self.wf_eth()
        &&& self.ledger.wf()
        &&& self.voting_period >= 1
    }

    /// A bridge at block zero with an empty store and ledger.  `accounts`
    /// are the genesis validator accounts, pairwise distinct; member ids
    /// are their positions.  `voting_period` is the proposal lifetime in
    /// blocks; `bucket_capacity` caps concurrently open proposals sharing a
    /// deadline.
    pub fn new(accounts: Vec<AccountId>, voting_period: BlockNumber, bucket_capacity: usize) -> (b:
        Module)
        requires
            voting_period >= 1,
            forall|i: int, j: int| 0 <= i < j < accounts@.len() ==> accounts@[i] != accounts@[j],
        ensures
            b.wf(),
            b.validators_view().len() == accounts@.len(),
            forall|i: int|
                0 <= i < accounts@.len() ==> b.validators_view()[i] == (Validator {
                    validator_id: i as MemberId,
                    account: accounts@[i],
                }),
            b.spec_voting_period() == voting_period,
            b.spec_bucket_capacity() == bucket_capacity,
            b.spec_current_block() == 0,
            b.proposals_view() == Seq::<BridgeProposal>::empty(),
            b.buckets_view() == Seq::<(BlockNumber, ProposalId)>::empty(),
            forall|d: BlockNumber| b.open_at(d) == 0,
            b.dedup_view() == Map::<Seq<u8>, ProposalId>::empty(),
            b.eth_view() == Map::<ProposalId, Seq<u8>>::empty(),
            b.events_view() == Seq::<Event>::empty(),
            b.ledger_view().balances_map() == Map::<(TokenId, AccountId), TokenBalance>::empty(),
            b.ledger_view().supplies_map() == Map::<TokenId, TokenBalance>::empty(),
    {
        let mut validators: Vec<Validator> = Vec::new();
        let mut i: usize = 0;
        while i < accounts.len()
            invariant
                i <= accounts@.len(),
                validators@.len() == i,
                forall|k: int|
                    0 <= k < i ==> validators@[k] == (Validator {
                        validator_id: k as MemberId,
                        account: accounts@[k],
                    }),
            decreases accounts@.len() - i,
        {
            validators.push(Validator { validator_id: i as MemberId, account: accounts[i] });
            i = i + 1;
        }
        let b = Module {
            validators,
            voting_period,
            bucket_capacity,
            current_block: 0,
            proposals: Vec::new(),
            dedup: Vec::new(),
            buckets: Vec::new(),
            eth_addresses: Vec::new(),
            ledger: Ledger::new(),
            events: Vec::new(),
        };
        proof {
            assert(b.dedup@.map_values(|e: (Vec<u8>, ProposalId)| (e.0@, e.1)) =~= Seq::<
                (Seq<u8>, ProposalId),
            >::empty());
            assert(b.eth_addresses@.map_values(|e: (ProposalId, Vec<u8>)| (e.0, e.1@)) =~= Seq::<
                (ProposalId, Seq<u8>),
            >::empty());
        }
        b
    }

    /// The configured validator count.
    pub fn validators_count(&self) -> (r: usize)
        ensures
            r == self.spec_validators_count(),
    {
        self.validators.len()
    }

    /// Acceptance test for a tally: `votes * 100 >= 51 * validator count`,
    /// in integer arithmetic so every replica computes the same answer.
    pub fn votes_are_enough(&self, votes: MemberId) -> (r: bool)
        ensures
            r == threshold_reached(votes as int, self.spec_validators_count()),
    {
        votes as u128 * 100 >= 51 * (self.validators.len() as u128)
    }
}

/// Number of bucket entries whose deadline is `d`.
pub open spec fn count_at(s: Seq<(BlockNumber, ProposalId)>, d: BlockNumber) -> int
    decreases s.len(),
{
    if s.len() == 0 {
        0
    } else {
        count_at(s.drop_last(), d) + if s.last().0 == d {
            1int
        } else {
            0int
        }
    }
}

/// Removing one entry lowers the count of its deadline by one and keeps
/// every other count.
proof fn lemma_count_at_remove(s: Seq<(BlockNumber, ProposalId)>, i: int, d: BlockNumber)
    requires
        0 <= i < s.len(),
    ensures
        count_at(s.remove(i), d) == count_at(s, d) - if s[i].0 == d {
            1int
        } else {
            0int
        },
    decreases s.len(),
{
    if i == s.len() - 1 {
        assert(s.remove(i) =~= s.drop_last());
    } else {
        lemma_count_at_remove(s.drop_last(), i, d);
        assert(s.remove(i).drop_last() =~= s.drop_last().remove(i));
        assert(s.remove(i).last() == s.last());
    }
}

/// A duplicate-free sequence of member ids below `n` has at most `n`
/// elements.
proof fn lemma_distinct_bounded_len(s: Seq<MemberId>, n: int)
    requires
        0 <= n,
        forall|i: int, j: int| 0 <= i < j < s.len() ==> s[i] != s[j],
        forall|i: int| 0 <= i < s.len() ==> (#[trigger] s[i]) < n,
    ensures
        s.len() <= n,
{
    let si = s.map_values(|v: MemberId| v as int);
    assert(si.no_duplicates()) by {
        assert forall|i: int, j: int|
            0 <= i < si.len() && 0 <= j < si.len() && i != j implies si[i] != si[j] by {
            assert(s[i] != s[j]);
        }
    }
    si.unique_seq_to_set();
    assert(si.to_set().subset_of(vstd::set_lib::set_int_range(0, n))) by {
        assert forall|x: int| si.to_set().contains(x) implies vstd::set_lib::set_int_range(
            0,
            n,
        ).contains(x) by {
            let i = choose|i: int| 0 <= i < si.len() && si[i] == x;
            assert(s[i] < n);
        }
    }
    vstd::set_lib::lemma_int_range(0, n);
    vstd::set_lib::lemma_len_subset(si.to_set(), vstd::set_lib::set_int_range(0, n));
}

/// The two byte vectors hold the same bytes.
fn bytes_eq(a: &Vec<u8>, b: &Vec<u8>) -> (r: bool)
    ensures
        r == (a@ == b@),
{
    if a.len() != b.len() {
        return false;
    }
    let mut i: usize = 0;
    while i < a.len()
        invariant
            a@.len() == b@.len(),
            i <= a@.len(),
            forall|j: int| 0 <= j < i ==> a@[j] == b@[j],
        decreases a@.len() - i,
    {
        if a[i] != b[i] {
            return false;
        }
        i = i + 1;
    }
    proof {
        assert(a@ =~= b@);
    }
    true
}

/// A fresh vector holding the same bytes.
fn copy_bytes(src: &Vec<u8>) -> (r: Vec<u8>)
    ensures
        r@ == src@,
{
    let mut out: Vec<u8> = Vec::new();
    let mut i: usize = 0;
    while i < src.len()
        invariant
            i <= src@.len(),
            out@ == src@.take(i as int),
        decreases src@.len() - i,
    {
        out.push(src[i]);
        proof {
            assert(out@ =~= src@.take(i + 1));
        }
        i = i + 1;
    }
    proof {
        assert(src@.take(src@.len() as int) =~= src@);
    }
    out
}

/// `member` already appears among `voters`.
fn contains_member(voters: &Vec<MemberId>, member: MemberId) -> (r: bool)
    ensures
        r == voters@.contains(member),
{
    let mut i: usize = 0;
    while i < voters.len()
        invariant
            i <= voters@.len(),
            forall|j: int| 0 <= j < i ==> voters@[j] != member,
        decreases voters@.len() - i,
    {
        if voters[i] == member {
            return true;
        }
        i = i + 1;
    }
    false
}

impl Module {
    /// The deadline index, one entry per open proposal: (deadline, id).
    pub closed spec fn buckets_view(&self) -> Seq<(BlockNumber, ProposalId)> {
        self.buckets@
    }

    /// Index of the dedup entry carrying `fingerprint`, if any.
    fn find_dedup_index(&self, fingerprint: &Vec<u8>) -> (r: Option<usize>)
        ensures
            match r {
                Some(i) => i < self.dedup@.len() && self.dedup@[i as int].0@ == fingerprint@,
                None => forall|i: int| 0 <= i < self.dedup@.len() ==> self.dedup@[i].0@
                    != fingerprint@,
            },
    {
        let mut i: usize = 0;
        while i < self.dedup.len()
            invariant
                i <= self.dedup@.len(),
                forall|j: int| 0 <= j < i ==> self.dedup@[j].0@ != fingerprint@,
            decreases self.dedup@.len() - i,
        {
            if bytes_eq(&self.dedup[i].0, fingerprint) {
                return Some(i);
            }
            i = i + 1;
        }
        None
    }

    /// Index of the dedup entry registered to `proposal_id`, if any.
    fn find_dedup_by_id(&self, proposal_id: ProposalId) -> (r: Option<usize>)
        ensures
            match r {
                Some(i) => i < self.dedup@.len() && self.dedup@[i as int].1 == proposal_id,
                None => forall|i: int| 0 <= i < self.dedup@.len() ==> (#[trigger] self.dedup@[i]).1
                    != proposal_id,
            },
    {
        let mut i: usize = 0;
        while i < self.dedup.len()
            invariant
                i <= self.dedup@.len(),
                forall|j: int| 0 <= j < i ==> (#[trigger] self.dedup@[j]).1 != proposal_id,
            decreases self.dedup@.len() - i,
        {
            if self.dedup[i].1 == proposal_id {
                return Some(i);
            }
            i = i + 1;
        }
        None
    }

    /// Index of the bucket entry registered to `proposal_id`, if any.
    fn find_bucket_by_id(&self, proposal_id: ProposalId) -> (r: Option<usize>)
        ensures
            match r {
                Some(i) => i < self.buckets@.len() && self.buckets@[i as int].1 == proposal_id,
                None => forall|i: int| 0 <= i < self.buckets@.len() ==> (#[trigger] self.buckets@[i]).1
                    != proposal_id,
            },
    {
        let mut i: usize = 0;
        while i < self.buckets.len()
            invariant
                i <= self.buckets@.len(),
                forall|j: int| 0 <= j < i ==> (#[trigger] self.buckets@[j]).1 != proposal_id,
            decreases self.buckets@.len() - i,
        {
            if self.buckets[i].1 == proposal_id {
                return Some(i);
            }
            i = i + 1;
        }
        None
    }

    /// Index of the validator signing with `account`, if any.
    fn find_validator(&self, account: AccountId) -> (r: Option<usize>)
        ensures
            match r {
                Some(i) => i < self.validators@.len() && self.validators@[i as int].account
                    == account,
                None => forall|i: int|
                    0 <= i < self.validators@.len() ==> (#[trigger] self.validators@[i]).account
                        != account,
            },
    {
        let mut i: usize = 0;
        while i < self.validators.len()
            invariant
                i <= self.validators@.len(),
                forall|j: int| 0 <= j < i ==> (#[trigger] self.validators@[j]).account != account,
            decreases self.validators@.len() - i,
        {
            if self.validators[i].account == account {
                return Some(i);
            }
            i = i + 1;
        }
        None
    }

    /// Number of bucket entries (open proposals) whose deadline is `d`.
    fn count_bucket(&self, d: BlockNumber) -> (c: usize)
        ensures
            c == count_at(self.buckets@, d),
    {
        let mut c: usize = 0;
        let mut i: usize = 0;
        while i < self.buckets.len()
            invariant
                i <= self.buckets@.len(),
                c <= i,
                c == count_at(self.buckets@.take(i as int), d),
            decreases self.buckets@.len() - i,
        {
            proof {
                assert(self.buckets@.take(i + 1).drop_last() =~= self.buckets@.take(i as int));
                assert(self.buckets@.take(i + 1).last() == self.buckets@[i as int]);
            }
            if self.buckets[i].0 == d {
                c = c + 1;
            }
            i = i + 1;
        }
        proof {
            assert(self.buckets@.take(self.buckets@.len() as int) =~= self.buckets@);
        }
        c
    }

    /// Close `proposal_id`: clear its open flag and drop its dedup and
    /// deadline entries.  The record is final afterwards; votes and action
    /// are untouched; the ledger, the event log and every other proposal
    /// are untouched.
    pub fn close_proposal(&mut self, proposal_id: ProposalId)
        requires
            old(self).wf(),
            proposal_id < old(self).proposals_view().len(),
            old(self).proposals_view()[proposal_id as int].open,
        ensures
            final(self).wf(),
            final(self).proposals_view().len() == old(self).proposals_view().len(),
            same_but_closed(
                final(self).proposals_view()[proposal_id as int],
                old(self).proposals_view()[proposal_id as int],
            ),
            forall|i: int|
                0 <= i < old(self).proposals_view().len() && i != proposal_id ==> final(self).proposals_view()[i] == old(self).proposals_view()[i],
            preserves_closed_records(old(self).proposals_view(), final(self).proposals_view()),
            dedup_unregistered(old(self).dedup_view(), final(self).dedup_view(), proposal_id),
            forall|e: (BlockNumber, ProposalId)|
                final(self).buckets_view().contains(e) ==> old(self).buckets_view().contains(e)
                    && e.1 != proposal_id,
            final(self).eth_view() == old(self).eth_view(),
            final(self).ledger_view() == old(self).ledger_view(),
            final(self).events_view() == old(self).events_view(),
            final(self).validators_view() == old(self).validators_view(),
            final(self).spec_voting_period() == old(self).spec_voting_period(),
            final(self).spec_bucket_capacity() == old(self).spec_bucket_capacity(),
            final(self).spec_current_block() == old(self).spec_current_block(),
    {
        let ghost pre = *self;
        let n = self.proposals.len();
        proof {
            assert(proposal_id < n);
        }
        let idx = proposal_id as usize;
        proof {
            assert(idx == proposal_id as int);
        }
        let jd = match self.find_dedup_by_id(proposal_id) {
            Some(j) => j,
            None => {
                proof {
                    assert(false);
                }
                0
            },
        };
        let jb = match self.find_bucket_by_id(proposal_id) {
            Some(j) => j,
            None => {
                proof {
                    assert(false);
                }
                0
            },
        };
        self.proposals[idx].open = false;
        self.dedup.remove(jd);
        self.buckets.remove(jb);
        proof {
            let pid = proposal_id as int;
            // The record at pid only lost its open flag.
            assert(self.proposals@ =~= pre.proposals@.update(
                pid,
                self.proposals@[pid],
            ));
            // Dedup view: removal of the unique entry registered to pid.
            let f = |e: (Vec<u8>, ProposalId)| (e.0@, e.1);
            let mpre = pre.dedup@.map_values(f);
            let mpost = self.dedup@.map_values(f);
            assert(mpost =~= mpre.remove(jd as int));
            assert(keys_distinct(mpre));
            crate::kvlist::lemma_map_of_remove(mpre, jd as int);
            assert forall|fp: Seq<u8>|
                (#[trigger] self.dedup_view().contains_key(fp)) <==> (pre.dedup_view().contains_key(
                fp,
            ) && pre.dedup_view()[fp] != proposal_id) by {
                crate::kvlist::lemma_map_of_contains(mpre, fp);
                if pre.dedup_view().contains_key(fp) {
                    let k = choose|k: int| 0 <= k < mpre.len() && mpre[k].0 == fp;
                    crate::kvlist::lemma_map_of_index(mpre, k);
                    crate::kvlist::lemma_map_of_index(mpre, jd as int);
                }
            }
            assert forall|fp: Seq<u8>| #[trigger]
                self.dedup_view().contains_key(fp) implies self.dedup_view()[fp]
                == pre.dedup_view()[fp] by {}
            assert(dedup_unregistered(pre.dedup_view(), self.dedup_view(), proposal_id));
            // Buckets: one entry removed, no entry for pid remains.
            assert forall|e: (BlockNumber, ProposalId)|
                self.buckets_view().contains(e) implies pre.buckets_view().contains(e) && e.1
                != proposal_id by {
                let k = choose|k: int| 0 <= k < self.buckets@.len() && self.buckets@[k] == e;
                let k0: int = if k < jb as int {
                    k
                } else {
                    k + 1
                };
                assert(pre.buckets@[k0] == e);
            }
            // Well-formedness.
            assert(self.wf_validators());
            assert forall|i: int|
                0 <= i < self.proposals@.len() implies wf_record(
                #[trigger] self.proposals@[i],
                i,
                self.validators@.len() as int,
                self.current_block,
            ) by {
                assert(wf_record(pre.proposals@[i], i, pre.validators@.len() as int, pre.current_block));
            }
            assert forall|i: int, j: int|
                0 <= i < j < self.dedup@.len() implies self.dedup@[i].0@ != self.dedup@[j].0@ by {
                let i0: int = if i < jd as int {
                    i
                } else {
                    i + 1
                };
                let j0: int = if j < jd as int {
                    j
                } else {
                    j + 1
                };
                assert(pre.dedup@[i0].0@ != pre.dedup@[j0].0@);
            }
            assert forall|i: int, j: int|
                0 <= i < j < self.dedup@.len() implies self.dedup@[i].1 != self.dedup@[j].1 by {
                let i0: int = if i < jd as int {
                    i
                } else {
                    i + 1
                };
                let j0: int = if j < jd as int {
                    j
                } else {
                    j + 1
                };
                assert(pre.dedup@[i0].1 != pre.dedup@[j0].1);
            }
            assert forall|i: int|
                0 <= i < self.dedup@.len() implies (#[trigger] self.dedup@[i]).1
                < self.proposals@.len() && self.proposals@[self.dedup@[i].1 as int].open by {
                let i0: int = if i < jd as int {
                    i
                } else {
                    i + 1
                };
                assert(pre.dedup@[i0].1 != proposal_id);
                assert(pre.proposals@[pre.dedup@[i0].1 as int].open);
            }
            assert forall|id: int|
                0 <= id < self.proposals@.len() && (#[trigger] self.proposals@[id]).open implies
                exists|j: int| 0 <= j < self.dedup@.len() && self.dedup@[j].1 == id as ProposalId by {
                let j0 = choose|j: int|
                    0 <= j < pre.dedup@.len() && pre.dedup@[j].1 == id as ProposalId;
                assert(j0 != jd as int);
                let j1: int = if j0 < jd as int {
                    j0
                } else {
                    j0 - 1
                };
                assert(self.dedup@[j1].1 == id as ProposalId);
            }
            assert forall|i: int, j: int|
                0 <= i < j < self.buckets@.len() implies self.buckets@[i].1 != self.buckets@[j].1 by {
                let i0: int = if i < jb as int {
                    i
                } else {
                    i + 1
                };
                let j0: int = if j < jb as int {
                    j
                } else {
                    j + 1
                };
                assert(pre.buckets@[i0].1 != pre.buckets@[j0].1);
            }
            assert forall|i: int|
                0 <= i < self.buckets@.len() implies (#[trigger] self.buckets@[i]).1
                < self.proposals@.len() && self.proposals@[self.buckets@[i].1 as int].open
                && self.proposals@[self.buckets@[i].1 as int].voting_deadline
                == self.buckets@[i].0 by {
                let i0: int = if i < jb as int {
                    i
                } else {
                    i + 1
                };
                assert(pre.buckets@[i0].1 != proposal_id);
                assert(pre.proposals@[pre.buckets@[i0].1 as int].open);
            }
            assert forall|id: int|
                0 <= id < self.proposals@.len() && (#[trigger] self.proposals@[id]).open implies
                exists|j: int|
                    0 <= j < self.buckets@.len() && self.buckets@[j].1 == id as ProposalId by {
                let j0 = choose|j: int|
                    0 <= j < pre.buckets@.len() && pre.buckets@[j].1 == id as ProposalId;
                assert(j0 != jb as int);
                let j1: int = if j0 < jb as int {
                    j0
                } else {
                    j0 - 1
                };
                assert(self.buckets@[j1].1 == id as ProposalId);
            }
            assert forall|d: BlockNumber| count_at(self.buckets@, d) <= self.bucket_capacity by {
                lemma_count_at_remove(pre.buckets@, jb as int, d);
            }
            assert(self.wf());
        }
    }

    /// All entries of the proposal record a vote leaves behind, apart from
    /// the open flag: `member` added to the voters, the tally grown by one
    /// exactly when the vote assents.
    pub open spec fn tallied(
        post: BridgeProposal,
        pre: BridgeProposal,
        member: MemberId,
        assent: bool,
    ) -> bool {
        &&& post.proposal_id == pre.proposal_id
        &&& post.action == pre.action
        &&& post.voting_deadline == pre.voting_deadline
        &&& post.voters@ == pre.voters@.push(member)
        &&& post.votes_count == pre.votes_count + if assent {
            1int
        } else {
            0int
        }
    }

    /// A newly created proposal record.
    pub open spec fn is_fresh_record(
        p: BridgeProposal,
        id: ProposalId,
        action: Action,
        deadline: BlockNumber,
    ) -> bool {
        &&& p.proposal_id == id
        &&& p.action == action
        &&& p.open
        &&& p.voting_deadline == deadline
        &&& p.votes_count == 0
        &&& p.voters@ == Seq::<MemberId>::empty()
    }

    /// Register a new proposal for `fingerprint`: allocate the next id, set
    /// the action, open it with no votes, set its deadline one voting
    /// period ahead, and index it under the fingerprint and under its
    /// deadline.  Rejected, mutating nothing, with `Overflow` when id or
    /// deadline arithmetic is exhausted, `CapacityExceeded` when the
    /// deadline bucket is full, and `AlreadyOpen` when the fingerprint is
    /// already registered.
    pub fn create_proposal(&mut self, fingerprint: &Vec<u8>, action: Action) -> (r: Result<
        ProposalId,
        Error,
    >)
        requires
            old(self).wf(),
        ensures
            final(self).wf(),
            match r {
                Ok(id) => {
                    &&& intake_error(*old(self), fingerprint@) is None
                    &&& id == old(self).proposals_view().len() as ProposalId
                    &&& created(*old(self), *final(self), fingerprint@, action)
                    &&& final(self).events_view() == old(self).events_view()
                },
                Err(e) => {
                    &&& intake_error(*old(self), fingerprint@) == Some(e)
                    &&& *final(self) == *old(self)
                },
            },
            preserves_closed_records(old(self).proposals_view(), final(self).proposals_view()),
    {
        if self.voting_period > BlockNumber::MAX - self.current_block
            || self.proposals.len() >= usize::MAX {
            return Err(Error::Overflow);
        }
        let deadline = self.current_block + self.voting_period;
        if self.count_bucket(deadline) >= self.bucket_capacity {
            return Err(Error::CapacityExceeded);
        }
        match self.find_dedup_index(fingerprint) {
            Some(w) => {
                proof {
                    let f = |e: (Vec<u8>, ProposalId)| (e.0@, e.1);
                    let m = self.dedup@.map_values(f);
                    assert(m[w as int].0 == fingerprint@);
                    crate::kvlist::lemma_map_of_contains(m, fingerprint@);
                }
                return Err(Error::AlreadyOpen);
            },
            None => {
                proof {
                    let f = |e: (Vec<u8>, ProposalId)| (e.0@, e.1);
                    let m = self.dedup@.map_values(f);
                    assert forall|k: int| 0 <= k < m.len() implies m[k].0 != fingerprint@ by {
                        assert(self.dedup@[k].0@ != fingerprint@);
                    }
                    crate::kvlist::lemma_map_of_contains(m, fingerprint@);
                }
            },
        }
        let ghost pre = *self;
        let id_index = self.proposals.len();
        let id = id_index as ProposalId;
        let proposal = BridgeProposal {
            proposal_id: id,
            action,
            open: true,
            voting_deadline: deadline,
            votes_count: 0,
            voters: Vec::new(),
        };
        self.proposals.push(proposal);
        let fp = copy_bytes(fingerprint);
        self.dedup.push((fp, id));
        self.buckets.push((deadline, id));
        proof {
            let f = |e: (Vec<u8>, ProposalId)| (e.0@, e.1);
            let mpre = pre.dedup@.map_values(f);
            assert(self.dedup@.map_values(f) =~= mpre.push((fingerprint@, id)));
            crate::kvlist::lemma_map_of_push(mpre, (fingerprint@, id));
            assert(self.buckets@.drop_last() =~= pre.buckets@);
            assert forall|d: BlockNumber|
                count_at(self.buckets@, d) == count_at(pre.buckets@, d) + if d == deadline {
                    1int
                } else {
                    0int
                } by {}
            // Well-formedness of the grown state.
            assert forall|i: int|
                0 <= i < self.proposals@.len() implies wf_record(
                #[trigger] self.proposals@[i],
                i,
                self.validators@.len() as int,
                self.current_block,
            ) by {
                if i < pre.proposals@.len() {
                    assert(wf_record(pre.proposals@[i], i, pre.validators@.len() as int, pre.current_block));
                }
            }
            assert forall|i: int|
                0 <= i < self.dedup@.len() implies (#[trigger] self.dedup@[i]).1
                < self.proposals@.len() && self.proposals@[self.dedup@[i].1 as int].open by {
                if i < pre.dedup@.len() {
                    assert(pre.proposals@[pre.dedup@[i].1 as int].open);
                }
            }
            assert forall|id2: int|
                0 <= id2 < self.proposals@.len() && (#[trigger] self.proposals@[id2]).open implies
                exists|j: int|
                    0 <= j < self.dedup@.len() && self.dedup@[j].1 == id2 as ProposalId by {
                if id2 < pre.proposals@.len() {
                    let j0 = choose|j: int|
                        0 <= j < pre.dedup@.len() && pre.dedup@[j].1 == id2 as ProposalId;
                    assert(self.dedup@[j0].1 == id2 as ProposalId);
                } else {
                    assert(self.dedup@[self.dedup@.len() - 1].1 == id2 as ProposalId);
                }
            }
            assert forall|i: int|
                0 <= i < self.buckets@.len() implies (#[trigger] self.buckets@[i]).1
                < self.proposals@.len() && self.proposals@[self.buckets@[i].1 as int].open
                && self.proposals@[self.buckets@[i].1 as int].voting_deadline
                == self.buckets@[i].0 by {
                if i < pre.buckets@.len() {
                    assert(pre.proposals@[pre.buckets@[i].1 as int].open);
                }
            }
            assert forall|id2: int|
                0 <= id2 < self.proposals@.len() && (#[trigger] self.proposals@[id2]).open implies
                exists|j: int|
                    0 <= j < self.buckets@.len() && self.buckets@[j].1 == id2 as ProposalId by {
                if id2 < pre.proposals@.len() {
                    let j0 = choose|j: int|
                        0 <= j < pre.buckets@.len() && pre.buckets@[j].1 == id2 as ProposalId;
                    assert(self.buckets@[j0].1 == id2 as ProposalId);
                } else {
                    assert(self.buckets@[self.buckets@.len() - 1].1 == id2 as ProposalId);
                }
            }
            assert(self.wf());
        }
        Ok(id)
    }
}

/// The ledger accepts `a`: minting does not overflow, burning is covered.
pub open spec fn action_allowed(l: Ledger, a: Action) -> bool {
    match a {
        Action::EmptyAction => true,
        Action::Ethereum2Substrate(t, to, amt) => l.can_mint(t, to, amt),
        Action::Substrate2Ethereum(t, from, amt) => l.can_burn(t, from, amt),
    }
}

/// The error the ledger reports when it refuses `a`.
pub open spec fn action_error(a: Action) -> ExecutionError {
    match a {
        Action::Substrate2Ethereum(_, _, _) => ExecutionError::InsufficientBalance,
        _ => ExecutionError::Overflow,
    }
}

/// `post` is `pre` with `a` applied: a mint credits the target account and
/// grows the supply, a burn debits and shrinks, the empty action changes
/// nothing.
pub open spec fn ledger_applied(pre: Ledger, post: Ledger, a: Action) -> bool {
    match a {
        Action::EmptyAction => post.balances_map() == pre.balances_map() && post.supplies_map()
            == pre.supplies_map(),
        Action::Ethereum2Substrate(t, to, amt) => post.balances_map() == pre.balances_map().insert(
            (t, to),
            (pre.balance_of_spec(t, to) + amt) as TokenBalance,
        ) && post.supplies_map() == pre.supplies_map().insert(
            t,
            (pre.supply_of_spec(t) + amt) as TokenBalance,
        ),
        Action::Substrate2Ethereum(t, from, amt) => post.balances_map()
            == pre.balances_map().insert(
            (t, from),
            (pre.balance_of_spec(t, from) - amt) as TokenBalance,
        ) && post.supplies_map() == pre.supplies_map().insert(
            t,
            (pre.supply_of_spec(t) - amt) as TokenBalance,
        ),
    }
}

/// The notification intake emits when it creates a proposal for `a`.
pub open spec fn propose_events(a: Action) -> Seq<Event> {
    match a {
        Action::EmptyAction => Seq::<Event>::empty(),
        Action::Ethereum2Substrate(t, to, amt) => seq![Event::ProposeToMint(t, to, amt)],
        Action::Substrate2Ethereum(t, from, amt) => seq![Event::ProposeToBurn(t, from, amt)],
    }
}

/// Why intake would reject a proposal for `fp` in state `pre`, if at all;
/// checks run in this order.
pub open spec fn intake_error(pre: Module, fp: Seq<u8>) -> Option<Error> {
    let dl = pre.spec_current_block() + pre.spec_voting_period();
    if dl > BlockNumber::MAX || pre.proposals_view().len() >= usize::MAX {
        Some(Error::Overflow)
    } else if pre.open_at(dl as BlockNumber) >= pre.spec_bucket_capacity() {
        Some(Error::CapacityExceeded)
    } else if pre.dedup_view().contains_key(fp) {
        Some(Error::AlreadyOpen)
    } else {
        None
    }
}

/// `post` is `pre` with a fresh proposal for `fp` carrying `action`: next
/// id allocated, record open with no votes, deadline one period ahead,
/// indexed under the fingerprint and under its deadline; ledger, recorded
/// addresses, registry and configuration untouched.
pub open spec fn created(pre: Module, post: Module, fp: Seq<u8>, action: Action) -> bool {
    let id = pre.proposals_view().len() as ProposalId;
    let dl = (pre.spec_current_block() + pre.spec_voting_period()) as BlockNumber;
    &&& post.proposals_view().len() == pre.proposals_view().len() + 1
    &&& forall|i: int|
        0 <= i < pre.proposals_view().len() ==> post.proposals_view()[i] == pre.proposals_view()[i]
    &&& Module::is_fresh_record(post.proposals_view()[id as int], id, action, dl)
    &&& post.dedup_view() == pre.dedup_view().insert(fp, id)
    &&& post.open_at(dl) == pre.open_at(dl) + 1
    &&& forall|d: BlockNumber| d != dl ==> post.open_at(d) == pre.open_at(d)
    &&& post.eth_view() == pre.eth_view()
    &&& post.ledger_view() == pre.ledger_view()
    &&& unchanged_config(pre, post)
}

/// Registry, configuration and the current block are the same.
pub open spec fn unchanged_config(pre: Module, post: Module) -> bool {
    &&& post.validators_view() == pre.validators_view()
    &&& post.spec_voting_period() == pre.spec_voting_period()
    &&& post.spec_bucket_capacity() == pre.spec_bucket_capacity()
    &&& post.spec_current_block() == pre.spec_current_block()
}

impl Module {
    /// Execute a decided action on the ledger: mint for incoming
    /// transfers, burn for outgoing ones, nothing for the sentinel.
    /// Touches only the ledger; a refused action leaves it unchanged.
    pub fn execute_proposal(&mut self, action: &Action) -> (r: Result<(), ExecutionError>)
        requires
            old(self).wf(),
        ensures
            final(self).wf(),
            r.is_ok() <==> action_allowed(old(self).ledger_view(), *action),
            r.is_ok() ==> ledger_applied(
                old(self).ledger_view(),
                final(self).ledger_view(),
                *action,
            ),
            r.is_err() ==> r == Err::<(), ExecutionError>(action_error(*action)) && final(self).ledger_view() == old(self).ledger_view(),
            final(self).proposals_view() == old(self).proposals_view(),
            final(self).dedup_view() == old(self).dedup_view(),
            final(self).buckets_view() == old(self).buckets_view(),
            final(self).eth_view() == old(self).eth_view(),
            final(self).events_view() == old(self).events_view(),
            unchanged_config(*old(self), *final(self)),
    {
        match *action {
            Action::EmptyAction => Ok(()),
            Action::Ethereum2Substrate(token, to, amount) => self.ledger.mint(token, to, amount),
            Action::Substrate2Ethereum(token, from, amount) => self.ledger.burn(
                token,
                from,
                amount,
            ),
        }
    }

    /// Resolve an attestation to its proposal: return the open proposal
    /// already registered under `fingerprint`, or create a fresh one and
    /// emit its mint-proposed or burn-proposed notification.  Repeated
    /// attestations of one event converge on one proposal id.
    pub fn submit(&mut self, fingerprint: &Vec<u8>, action: Action) -> (r: Result<
        ProposalId,
        Error,
    >)
        requires
            old(self).wf(),
        ensures
            final(self).wf(),
            preserves_closed_records(old(self).proposals_view(), final(self).proposals_view()),
            match r {
                Ok(id) => if old(self).dedup_view().contains_key(fingerprint@) {
                    &&& id == old(self).dedup_view()[fingerprint@]
                    &&& *final(self) == *old(self)
                } else {
                    &&& intake_error(*old(self), fingerprint@) is None
                    &&& id == old(self).proposals_view().len() as ProposalId
                    &&& created(*old(self), *final(self), fingerprint@, action)
                    &&& final(self).events_view() == old(self).events_view() + propose_events(
                        action,
                    )
                },
                Err(e) => {
                    &&& !old(self).dedup_view().contains_key(fingerprint@)
                    &&& intake_error(*old(self), fingerprint@) == Some(e)
                    &&& *final(self) == *old(self)
                },
            },
    {
        let found = self.find_dedup_index(fingerprint);
        proof {
            let f = |e: (Vec<u8>, ProposalId)| (e.0@, e.1);
            let m = self.dedup@.map_values(f);
            crate::kvlist::lemma_map_of_contains(m, fingerprint@);
            match found {
                Some(i) => {
                    assert(m[i as int].0 == fingerprint@);
                    assert(keys_distinct(m));
                    crate::kvlist::lemma_map_of_index(m, i as int);
                },
                None => {
                    assert forall|k: int| 0 <= k < m.len() implies m[k].0 != fingerprint@ by {
                        assert(self.dedup@[k].0@ != fingerprint@);
                    }
                },
            }
        }
        match found {
            Some(i) => Ok(self.dedup[i].1),
            None => {
                match self.create_proposal(fingerprint, action) {
                    Ok(id) => {
                        match action {
                            Action::EmptyAction => (),
                            Action::Ethereum2Substrate(token, to, amount) => {
                                self.events.push(Event::ProposeToMint(token, to, amount));
                            },
                            Action::Substrate2Ethereum(token, from, amount) => {
                                self.events.push(Event::ProposeToBurn(token, from, amount));
                            },
                        }
                        proof {
                            assert(self.events@ =~= old(self).events_view() + propose_events(
                                action,
                            ));
                        }
                        Ok(id)
                    },
                    Err(e) => Err(e),
                }
            },
        }
    }
}

} // verus!

verus! {

/// The full effect of one `vote` call: `post` and `r` in terms of `pre`.
/// Authorization, existence and openness are checked in that order; a
/// duplicate voter changes nothing but the vote-recorded notification; a
/// fresh vote is tallied, then acceptance fires exactly at the 51%
/// threshold (executing the action on the ledger before closure), full
/// turnout without acceptance rejects, and anything else stays pending.
pub open spec fn vote_applied(
    pre: Module,
    post: Module,
    voter: AccountId,
    proposal_id: ProposalId,
    assent: bool,
    r: Result<Outcome, Error>,
) -> bool {
    &&& (!pre.is_registered(voter) ==> r == Err::<Outcome, Error>(Error::Unauthorized)
        && post == pre)
    &&& (pre.is_registered(voter) && proposal_id >= pre.proposals_view().len()
        ==> r == Err::<Outcome, Error>(Error::NotFound) && post == pre)
    &&& (pre.is_registered(voter) && proposal_id < pre.proposals_view().len()
        && !pre.proposals_view()[proposal_id as int].open ==> r == Err::<
        Outcome,
        Error,
    >(Error::NotOpen) && post == pre)
    &&& ({
                let n = pre.spec_validators_count();
                let m = pre.member_id_of(voter);
                let p = pre.proposals_view()[proposal_id as int];
                pre.is_registered(voter) && proposal_id < pre.proposals_view().len() && p.open
                    ==> {
                    &&& (p.voters@.contains(m) ==> {
                        &&& r == Ok::<Outcome, Error>(Outcome::Pending)
                        &&& post.proposals_view() == pre.proposals_view()
                        &&& post.dedup_view() == pre.dedup_view()
                        &&& post.buckets_view() == pre.buckets_view()
                        &&& post.eth_view() == pre.eth_view()
                        &&& post.ledger_view() == pre.ledger_view()
                        &&& post.events_view() == pre.events_view().push(
                            Event::NewVote(proposal_id, voter, assent),
                        )
                        &&& unchanged_config(pre, post)
                    })
                    &&& (!p.voters@.contains(m) ==> {
                        let votes2 = p.votes_count + if assent {
                            1int
                        } else {
                            0int
                        };
                        let accepted = threshold_reached(votes2, n);
                        let full = p.voters@.len() + 1 == n;
                        &&& post.proposals_view().len() == pre.proposals_view().len()
                        &&& forall|i: int|
                            0 <= i < pre.proposals_view().len() && i != proposal_id
                                ==> post.proposals_view()[i] == pre.proposals_view()[i]
                        &&& Module::tallied(post.proposals_view()[proposal_id as int], p, m, assent)
                        &&& post.eth_view() == pre.eth_view()
                        &&& unchanged_config(pre, post)
                        &&& (accepted ==> {
                            &&& !post.proposals_view()[proposal_id as int].open
                            &&& dedup_unregistered(
                                pre.dedup_view(),
                                post.dedup_view(),
                                proposal_id,
                            )
                            &&& post.events_view() == pre.events_view() + seq![
                                Event::NewVote(proposal_id, voter, assent),
                                Event::ProposalIsAccepted(proposal_id),
                            ]
                            &&& (action_allowed(pre.ledger_view(), p.action) ==> r == Ok::<
                                Outcome,
                                Error,
                            >(Outcome::Accepted) && ledger_applied(
                                pre.ledger_view(),
                                post.ledger_view(),
                                p.action,
                            ))
                            &&& (!action_allowed(pre.ledger_view(), p.action) ==> r == Err::<
                                Outcome,
                                Error,
                            >(Error::ExecutionFailed(action_error(p.action)))
                                && post.ledger_view() == pre.ledger_view())
                        })
                        &&& (!accepted && full ==> {
                            &&& !post.proposals_view()[proposal_id as int].open
                            &&& dedup_unregistered(
                                pre.dedup_view(),
                                post.dedup_view(),
                                proposal_id,
                            )
                            &&& post.ledger_view() == pre.ledger_view()
                            &&& post.events_view() == pre.events_view() + seq![
                                Event::NewVote(proposal_id, voter, assent),
                                Event::ProposalIsRejected(proposal_id),
                            ]
                            &&& r == Ok::<Outcome, Error>(Outcome::Rejected)
                        })
                        &&& (!accepted && !full ==> {
                            &&& post.proposals_view()[proposal_id as int].open
                            &&& post.dedup_view() == pre.dedup_view()
                            &&& post.buckets_view() == pre.buckets_view()
                            &&& post.ledger_view() == pre.ledger_view()
                            &&& post.events_view() == pre.events_view().push(
                                Event::NewVote(proposal_id, voter, assent),
                            )
                            &&& r == Ok::<Outcome, Error>(Outcome::Pending)
                        })
                    })
                }
            })
}

impl Module {
    /// Apply one vote from the validator signing with `voter` to
    /// `proposal_id`.  Acceptance fires exactly when the assent tally
    /// reaches the 51% threshold; full turnout without acceptance rejects;
    /// either way the proposal is closed, and an accepted action is
    /// executed on the ledger once, before closure.  A validator that has
    /// already voted on the proposal changes nothing but the vote-recorded
    /// notification.  A closed proposal never changes again.
    #[verifier::rlimit(100)]
    pub fn vote(&mut self, voter: AccountId, proposal_id: ProposalId, assent: bool) -> (r: Result<
        Outcome,
        Error,
    >)
        requires
            old(self).wf(),
        ensures
            final(self).wf(),
            preserves_closed_records(old(self).proposals_view(), final(self).proposals_view()),
            vote_applied(*old(self), *final(self), voter, proposal_id, assent, r),
    {
        let member_idx = match self.find_validator(voter) {
            None => {
                return Err(Error::Unauthorized);
            },
            Some(i) => i,
        };
        proof {
            assert(self.validators@[member_idx as int].account == voter);
            let w = choose|i: int|
                0 <= i < self.validators@.len() && self.validators@[i].account == voter;
            if w != member_idx as int {
                if w < member_idx as int {
                    assert(self.validators@[w].account != self.validators@[member_idx as int].account);
                } else {
                    assert(self.validators@[member_idx as int].account != self.validators@[w].account);
                }
            }
            assert(self.member_id_of(voter) == member_idx as MemberId);
        }
        let member = member_idx as MemberId;
        let n_props = self.proposals.len();
        if proposal_id >= n_props as u64 {
            return Err(Error::NotFound);
        }
        let idx = proposal_id as usize;
        proof {
            assert(idx == proposal_id as int);
        }
        if !self.proposals[idx].open {
            return Err(Error::NotOpen);
        }
        if contains_member(&self.proposals[idx].voters, member) {
            self.events.push(Event::NewVote(proposal_id, voter, assent));
            return Ok(Outcome::Pending);
        }
        let ghost pre = *self;
        let mut p = self.proposals.remove(idx);
        p.voters.push(member);
        proof {
            let n = pre.validators@.len() as int;
            assert(wf_record(pre.proposals@[idx as int], idx as int, n, pre.current_block));
            assert forall|a: int, b: int|
                0 <= a < b < p.voters@.len() implies p.voters@[a] != p.voters@[b] by {
                if b < p.voters@.len() - 1 {
                    assert(pre.proposals@[idx as int].voters@[a] != pre.proposals@[idx as int].voters@[b]);
                } else {
                    assert(!pre.proposals@[idx as int].voters@.contains(member));
                    assert(pre.proposals@[idx as int].voters@[a] == p.voters@[a]);
                }
            }
            lemma_distinct_bounded_len(p.voters@, n);
        }
        let nv = p.voters.len();
        proof {
            assert(p.votes_count < nv);
        }
        if assent {
            p.votes_count = p.votes_count + 1;
        }
        let votes_new = p.votes_count;
        let action = p.action;
        self.proposals.insert(idx, p);
        proof {
            assert(self.proposals@ =~= pre.proposals@.update(
                idx as int,
                self.proposals@[idx as int],
            ));
            assert forall|i: int|
                0 <= i < self.proposals@.len() implies wf_record(
                #[trigger] self.proposals@[i],
                i,
                self.validators@.len() as int,
                self.current_block,
            ) by {
                assert(wf_record(pre.proposals@[i], i, pre.validators@.len() as int, pre.current_block));
            }
            assert forall|i: int|
                0 <= i < self.dedup@.len() implies (#[trigger] self.dedup@[i]).1
                < self.proposals@.len() && self.proposals@[self.dedup@[i].1 as int].open by {
                assert(pre.proposals@[pre.dedup@[i].1 as int].open);
            }
            assert forall|i: int|
                0 <= i < self.buckets@.len() implies (#[trigger] self.buckets@[i]).1
                < self.proposals@.len() && self.proposals@[self.buckets@[i].1 as int].open
                && self.proposals@[self.buckets@[i].1 as int].voting_deadline
                == self.buckets@[i].0 by {
                assert(pre.proposals@[pre.buckets@[i].1 as int].open);
            }
            assert(self.wf());
            assert(Self::tallied(self.proposals@[idx as int], pre.proposals@[idx as int], member, assent));
        }
        let accepted = self.votes_are_enough(votes_new);
        let full = self.proposals[idx].voters.len() == self.validators.len();
        if accepted {
            let exec_r = self.execute_proposal(&action);
            self.close_proposal(proposal_id);
            self.events.push(Event::NewVote(proposal_id, voter, assent));
            self.events.push(Event::ProposalIsAccepted(proposal_id));
            proof {
                assert(self.events@ =~= pre.events@ + seq![
                    Event::NewVote(proposal_id, voter, assent),
                    Event::ProposalIsAccepted(proposal_id),
                ]);
            }
            match exec_r {
                Ok(_) => Ok(Outcome::Accepted),
                Err(e) => Err(Error::ExecutionFailed(e)),
            }
        } else if full {
            self.close_proposal(proposal_id);
            self.events.push(Event::NewVote(proposal_id, voter, assent));
            self.events.push(Event::ProposalIsRejected(proposal_id));
            proof {
                assert(self.events@ =~= pre.events@ + seq![
                    Event::NewVote(proposal_id, voter, assent),
                    Event::ProposalIsRejected(proposal_id),
                ]);
            }
            Ok(Outcome::Rejected)
        } else {
            self.events.push(Event::NewVote(proposal_id, voter, assent));
            Ok(Outcome::Pending)
        }
    }
}

} // verus!

verus! {

/// `post` is `pre` with `addr` recorded (inserted or overwritten) as the
/// counterpart-chain address of `pid`; nothing else changes.
pub open spec fn eth_recorded(pre: Module, post: Module, pid: ProposalId, addr: Seq<u8>) -> bool {
    &&& post.eth_view() == pre.eth_view().insert(pid, addr)
    &&& post.proposals_view() == pre.proposals_view()
    &&& post.dedup_view() == pre.dedup_view()
    &&& post.buckets_view() == pre.buckets_view()
    &&& post.ledger_view() == pre.ledger_view()
    &&& post.events_view() == pre.events_view()
    &&& unchanged_config(pre, post)
}

/// The full effect of one transfer extrinsic from a registered validator:
/// resolve or create the proposal for the event fingerprint `fp`, cast one
/// assenting vote from the caller, and on success record the counterpart
/// address.  `mid` states name the store between the steps.
pub open spec fn extrinsic_applied(
    pre: Module,
    post: Module,
    validator: AccountId,
    fp: Seq<u8>,
    counterpart: Seq<u8>,
    action: Action,
    r: Result<(ProposalId, Outcome), Error>,
) -> bool {
    if pre.dedup_view().contains_key(fp) {
        let pid = pre.dedup_view()[fp];
        exists|mid: Module, rv: Result<Outcome, Error>|
            {
                &&& #[trigger] vote_applied(pre, mid, validator, pid, true, rv)
                &&& match rv {
                    Ok(oc) => r == Ok::<(ProposalId, Outcome), Error>((pid, oc)) && eth_recorded(
                        mid,
                        post,
                        pid,
                        counterpart,
                    ),
                    Err(e) => r == Err::<(ProposalId, Outcome), Error>(e) && post == mid,
                }
            }
    } else if intake_error(pre, fp) is Some {
        &&& r == Err::<(ProposalId, Outcome), Error>(intake_error(pre, fp)->Some_0)
        &&& post == pre
    } else {
        let pid = pre.proposals_view().len() as ProposalId;
        exists|mid0: Module, mid1: Module, rv: Result<Outcome, Error>|
            {
                &&& created(pre, mid0, fp, action)
                &&& mid0.events_view() == pre.events_view() + propose_events(action)
                &&& #[trigger] vote_applied(mid0, mid1, validator, pid, true, rv)
                &&& match rv {
                    Ok(oc) => r == Ok::<(ProposalId, Outcome), Error>((pid, oc)) && eth_recorded(
                        mid1,
                        post,
                        pid,
                        counterpart,
                    ),
                    Err(e) => r == Err::<(ProposalId, Outcome), Error>(e) && post == mid1,
                }
            }
    }
}

impl Module {
    /// Under the invariant, every registered fingerprint maps to an open
    /// proposal in the store: attestations of one event converge on one
    /// live proposal.
    pub proof fn lemma_dedup_maps_to_open(&self)
        requires
            self.wf(),
        ensures
            forall|fp: Seq<u8>|
                #[trigger] self.dedup_view().contains_key(fp) ==> self.dedup_view()[fp]
                    < self.proposals_view().len() && self.proposals_view()[self.dedup_view()[fp] as int].open,
    {
        let f = |e: (Vec<u8>, ProposalId)| (e.0@, e.1);
        let m = self.dedup@.map_values(f);
        assert forall|fp: Seq<u8>| #[trigger] self.dedup_view().contains_key(fp) implies self.dedup_view()[fp]
            < self.proposals_view().len()
            && self.proposals_view()[self.dedup_view()[fp] as int].open by {
            crate::kvlist::lemma_map_of_contains(m, fp);
            let k = choose|k: int| 0 <= k < m.len() && m[k].0 == fp;
            crate::kvlist::lemma_map_of_index(m, k);
            assert(self.proposals@[self.dedup@[k].1 as int].open);
        }
    }

    /// Record `address` as the counterpart-chain address of `proposal_id`.
    fn record_eth_address(&mut self, proposal_id: ProposalId, address: &Vec<u8>)
        requires
            old(self).wf(),
            proposal_id < old(self).proposals_view().len(),
        ensures
            final(self).wf(),
            eth_recorded(*old(self), *final(self), proposal_id, address@),
    {
        let ghost pre = *self;
        let copied = copy_bytes(address);
        let mut i: usize = 0;
        while i < self.eth_addresses.len()
            invariant
                i <= self.eth_addresses@.len(),
                forall|j: int| 0 <= j < i ==> (#[trigger] self.eth_addresses@[j]).0 != proposal_id,
                copied@ == address@,
                *self == pre,
                pre == *old(self),
                pre.wf(),
                proposal_id < pre.proposals_view().len(),
            decreases self.eth_addresses@.len() - i,
        {
            if self.eth_addresses[i].0 == proposal_id {
                self.eth_addresses[i] = (proposal_id, copied);
                proof {
                    let f = |e: (ProposalId, Vec<u8>)| (e.0, e.1@);
                    let m = pre.eth_addresses@.map_values(f);
                    assert(m.len() == pre.eth_addresses@.len());
                    assert forall|a: int, b: int| 0 <= a < b < m.len() implies m[a].0
                        != m[b].0 by {
                        assert(m[a] == f(pre.eth_addresses@[a]));
                        assert(m[b] == f(pre.eth_addresses@[b]));
                        assert(pre.eth_addresses@[a].0 != pre.eth_addresses@[b].0);
                    }
                    assert forall|j: int|
                        0 <= j < m.len() implies self.eth_addresses@.map_values(f)[j] == m.update(
                        i as int,
                        (proposal_id, address@),
                    )[j] by {
                        if j != i {
                            assert(self.eth_addresses@[j] == pre.eth_addresses@[j]);
                        }
                    }
                    assert(self.eth_addresses@.map_values(f) =~= m.update(
                        i as int,
                        (proposal_id, address@),
                    ));
                    crate::kvlist::lemma_map_of_update(m, i as int, (proposal_id, address@));
                }
                return ;
            }
            i = i + 1;
        }
        self.eth_addresses.push((proposal_id, copied));
        proof {
            let f = |e: (ProposalId, Vec<u8>)| (e.0, e.1@);
            let m = pre.eth_addresses@.map_values(f);
            assert(self.eth_addresses@.map_values(f) =~= m.push((proposal_id, address@)));
            crate::kvlist::lemma_map_of_push(m, (proposal_id, address@));
        }
    }

    /// Attest an incoming transfer (funds locked on the counterpart chain):
    /// resolve or create the mint proposal for `message_id`, cast an
    /// assenting vote from the caller, and record the origin address
    /// `from`.  Fails with `Unauthorized`, changing nothing, when the
    /// caller is not a registered validator.
    pub fn eth2substrate(
        &mut self,
        validator: AccountId,
        message_id: &Vec<u8>,
        from: &Vec<u8>,
        to: AccountId,
        amount: TokenBalance,
    ) -> (r: Result<(ProposalId, Outcome), Error>)
        requires
            old(self).wf(),
        ensures
            final(self).wf(),
            preserves_closed_records(old(self).proposals_view(), final(self).proposals_view()),
            !old(self).is_registered(validator) ==> r == Err::<(ProposalId, Outcome), Error>(
                Error::Unauthorized,
            ) && *final(self) == *old(self),
            old(self).is_registered(validator) ==> extrinsic_applied(
                *old(self),
                *final(self),
                validator,
                message_id@,
                from@,
                Action::Ethereum2Substrate(DEFAULT_TOKEN, to, amount),
                r,
            ),
    {
        self.transfer_extrinsic(
            validator,
            message_id,
            from,
            Action::Ethereum2Substrate(DEFAULT_TOKEN, to, amount),
        )
    }

    /// Attest an outgoing transfer: resolve or create the burn proposal for
    /// `message_id`, cast an assenting vote from the caller, and record the
    /// destination address `to`.  Fails with `Unauthorized`, changing
    /// nothing, when the caller is not a registered validator.
    pub fn substrate2eth(
        &mut self,
        validator: AccountId,
        message_id: &Vec<u8>,
        to: &Vec<u8>,
        from: AccountId,
        amount: TokenBalance,
    ) -> (r: Result<(ProposalId, Outcome), Error>)
        requires
            old(self).wf(),
        ensures
            final(self).wf(),
            preserves_closed_records(old(self).proposals_view(), final(self).proposals_view()),
            !old(self).is_registered(validator) ==> r == Err::<(ProposalId, Outcome), Error>(
                Error::Unauthorized,
            ) && *final(self) == *old(self),
            old(self).is_registered(validator) ==> extrinsic_applied(
                *old(self),
                *final(self),
                validator,
                message_id@,
                to@,
                Action::Substrate2Ethereum(DEFAULT_TOKEN, from, amount),
                r,
            ),
    {
        self.transfer_extrinsic(
            validator,
            message_id,
            to,
            Action::Substrate2Ethereum(DEFAULT_TOKEN, from, amount),
        )
    }

    /// Shared body of the two transfer extrinsics.
    fn transfer_extrinsic(
        &mut self,
        validator: AccountId,
        message_id: &Vec<u8>,
        counterpart: &Vec<u8>,
        action: Action,
    ) -> (r: Result<(ProposalId, Outcome), Error>)
        requires
            old(self).wf(),
        ensures
            final(self).wf(),
            preserves_closed_records(old(self).proposals_view(), final(self).proposals_view()),
            !old(self).is_registered(validator) ==> r == Err::<(ProposalId, Outcome), Error>(
                Error::Unauthorized,
            ) && *final(self) == *old(self),
            old(self).is_registered(validator) ==> extrinsic_applied(
                *old(self),
                *final(self),
                validator,
                message_id@,
                counterpart@,
                action,
                r,
            ),
    {
        let ghost pre = *self;
        if self.find_validator(validator).is_none() {
            return Err(Error::Unauthorized);
        }
        proof {
            pre.lemma_dedup_maps_to_open();
        }
        let pid = match self.submit(message_id, action) {
            Ok(pid) => pid,
            Err(e) => {
                return Err(e);
            },
        };
        let ghost mid0 = *self;
        let vr = self.vote(validator, pid, true);
        let ghost mid1 = *self;
        proof {
            assert(vote_applied(mid0, mid1, validator, pid, true, vr));
        }
        match vr {
            Ok(outcome) => {
                self.record_eth_address(pid, counterpart);
                proof {
                    if pre.dedup_view().contains_key(message_id@) {
                        assert(extrinsic_applied(
                            pre,
                            *self,
                            validator,
                            message_id@,
                            counterpart@,
                            action,
                            Ok((pid, outcome)),
                        ));
                    }
                }
                Ok((pid, outcome))
            },
            Err(e) => Err(e),
        }
    }
}

} // verus!

verus! {

/// The ids of the bucket entries whose deadline is `d`, in store order.
pub open spec fn ids_at(s: Seq<(BlockNumber, ProposalId)>, d: BlockNumber) -> Seq<ProposalId>
    decreases s.len(),
{
    if s.len() == 0 {
        Seq::<ProposalId>::empty()
    } else if s.last().0 == d {
        ids_at(s.drop_last(), d).push(s.last().1)
    } else {
        ids_at(s.drop_last(), d)
    }
}

/// The expired notifications for a swept bucket, in sweep order.
pub open spec fn expired_events(ids: Seq<ProposalId>) -> Seq<Event> {
    ids.map_values(|id: ProposalId| Event::ProposalIsExpired(id))
}

/// With pairwise-distinct entry ids, the ids collected for one deadline are
/// pairwise distinct, and an id is collected exactly when its entry is in
/// the store.
proof fn lemma_ids_at_entries(s: Seq<(BlockNumber, ProposalId)>, d: BlockNumber)
    requires
        forall|i: int, j: int| 0 <= i < j < s.len() ==> s[i].1 != s[j].1,
    ensures
        forall|a: int, b: int| 0 <= a < b < ids_at(s, d).len() ==> ids_at(s, d)[a] != ids_at(
            s,
            d,
        )[b],
        forall|x: ProposalId| #[trigger] ids_at(s, d).contains(x) <==> s.contains((d, x)),
    decreases s.len(),
{
    if s.len() > 0 {
        let s0 = s.drop_last();
        assert forall|i: int, j: int| 0 <= i < j < s0.len() implies s0[i].1 != s0[j].1 by {
            assert(s[i].1 != s[j].1);
        }
        lemma_ids_at_entries(s0, d);
        assert forall|x: ProposalId| #[trigger] ids_at(s, d).contains(x) <==> s.contains(
            (d, x),
        ) by {
            if ids_at(s, d).contains(x) {
                if s.last().0 == d && x == s.last().1 {
                    assert(s[s.len() - 1] == (d, x));
                    assert(s.contains((d, x)));
                } else {
                    assert(ids_at(s0, d).contains(x));
                    let k = choose|k: int| 0 <= k < s0.len() && s0[k] == (d, x);
                    assert(s[k] == (d, x));
                    assert(s.contains((d, x)));
                }
            }
            if s.contains((d, x)) {
                let k = choose|k: int| 0 <= k < s.len() && s[k] == (d, x);
                if k == s.len() - 1 {
                    assert(ids_at(s, d).last() == x);
                    assert(ids_at(s, d).contains(x));
                } else {
                    assert(s0[k] == (d, x));
                    assert(s0.contains((d, x)));
                    assert(ids_at(s0, d).contains(x));
                    let a = choose|a: int| 0 <= a < ids_at(s0, d).len() && ids_at(s0, d)[a] == x;
                    assert(ids_at(s, d)[a] == x);
                    assert(ids_at(s, d).contains(x));
                }
            }
        }
        assert forall|a: int, b: int|
            0 <= a < b < ids_at(s, d).len() implies ids_at(s, d)[a] != ids_at(s, d)[b] by {
            if s.last().0 == d {
                if b < ids_at(s, d).len() - 1 {
                    assert(ids_at(s0, d)[a] != ids_at(s0, d)[b]);
                } else {
                    assert(ids_at(s, d)[b] == s.last().1);
                    assert(ids_at(s0, d).contains(ids_at(s0, d)[a]));
                    assert(s0.contains((d, ids_at(s0, d)[a])));
                    let k = choose|k: int| 0 <= k < s0.len() && s0[k] == (d, ids_at(s0, d)[a]);
                    assert(s[k].1 != s[s.len() - 1].1);
                }
            } else {
                assert(ids_at(s0, d)[a] != ids_at(s0, d)[b]);
            }
        }
    }
}

/// Counts are never negative.
proof fn lemma_count_at_nonneg(s: Seq<(BlockNumber, ProposalId)>, d: BlockNumber)
    ensures
        count_at(s, d) >= 0,
    decreases s.len(),
{
    if s.len() > 0 {
        lemma_count_at_nonneg(s.drop_last(), d);
    }
}

/// A positive count for a deadline means some entry carries it.
proof fn lemma_count_at_positive(s: Seq<(BlockNumber, ProposalId)>, d: BlockNumber)
    requires
        count_at(s, d) > 0,
    ensures
        exists|j: int| 0 <= j < s.len() && s[j].0 == d,
    decreases s.len(),
{
    if s.last().0 == d {
        assert(s[s.len() - 1].0 == d);
    } else {
        lemma_count_at_positive(s.drop_last(), d);
        let j = choose|j: int| 0 <= j < s.drop_last().len() && s.drop_last()[j].0 == d;
        assert(s[j].0 == d);
    }
}

impl Module {
    /// The per-block deadline sweep: close every proposal still open whose
    /// deadline is the current block, without executing its action, emit an
    /// expired notification for each in store order, clear the bucket, and
    /// move to the next block.  The sole path by which a proposal
    /// terminates without reaching a vote threshold; the ledger is never
    /// touched.
    #[verifier::rlimit(60)]
    pub fn on_finalize(&mut self)
        requires
            old(self).wf(),
            old(self).spec_current_block() < BlockNumber::MAX,
        ensures
            final(self).wf(),
            preserves_closed_records(old(self).proposals_view(), final(self).proposals_view()),
            final(self).spec_current_block() == old(self).spec_current_block() + 1,
            final(self).proposals_view().len() == old(self).proposals_view().len(),
            forall|i: int|
                0 <= i < old(self).proposals_view().len() ==> {
                    let p = old(self).proposals_view()[i];
                    if p.open && p.voting_deadline == old(self).spec_current_block() {
                        same_but_closed(#[trigger] final(self).proposals_view()[i], p)
                    } else {
                        final(self).proposals_view()[i] == p
                    }
                },
            final(self).ledger_view() == old(self).ledger_view(),
            final(self).eth_view() == old(self).eth_view(),
            final(self).validators_view() == old(self).validators_view(),
            final(self).spec_voting_period() == old(self).spec_voting_period(),
            final(self).spec_bucket_capacity() == old(self).spec_bucket_capacity(),
            final(self).events_view() == old(self).events_view() + expired_events(
                ids_at(old(self).buckets_view(), old(self).spec_current_block()),
            ),
            final(self).open_at(old(self).spec_current_block()) == 0,
            forall|fp: Seq<u8>|
                (#[trigger] final(self).dedup_view().contains_key(fp)) <==> (old(self).dedup_view().contains_key(fp) && old(self).proposals_view()[old(self).dedup_view()[fp] as int].voting_deadline != old(self).spec_current_block()),
            forall|fp: Seq<u8>|
                #[trigger] final(self).dedup_view().contains_key(fp) ==> final(self).dedup_view()[fp] == old(self).dedup_view()[fp],
    {
        let current = self.current_block;
        let total_props = self.proposals.len();
        proof {
            assert(self.proposals@.len() == total_props);
        }
        let mut expired: Vec<ProposalId> = Vec::new();
        let mut i: usize = 0;
        while i < self.buckets.len()
            invariant
                i <= self.buckets@.len(),
                expired@ == ids_at(self.buckets@.take(i as int), current),
                self.proposals@.len() <= usize::MAX,
            decreases self.buckets@.len() - i,
        {
            proof {
                assert(self.buckets@.take(i + 1).drop_last() =~= self.buckets@.take(i as int));
                assert(self.buckets@.take(i + 1).last() == self.buckets@[i as int]);
            }
            if self.buckets[i].0 == current {
                expired.push(self.buckets[i].1);
            }
            i = i + 1;
        }
        proof {
            assert(self.buckets@.take(self.buckets@.len() as int) =~= self.buckets@);
            lemma_ids_at_entries(self.buckets@, current);
        }
        let ghost pre = *self;
        proof {
            assert forall|m: int|
                0 <= m < expired@.len() implies (#[trigger] expired@[m])
                < pre.proposals_view().len() && pre.proposals_view()[expired@[m] as int].open
                && pre.proposals_view()[expired@[m] as int].voting_deadline == current by {
                assert(ids_at(pre.buckets_view(), current)[m] == expired@[m]);
                assert(ids_at(pre.buckets_view(), current).contains(expired@[m]));
                assert(pre.buckets_view().contains((current, expired@[m])));
                let j = choose|j: int|
                    0 <= j < pre.buckets@.len() && pre.buckets@[j] == (current, expired@[m]);
                assert(pre.proposals@[pre.buckets@[j].1 as int].open);
            }
        }
        let mut k: usize = 0;
        while k < expired.len()
            invariant
                k <= expired@.len(),
                pre == *old(self),
                pre.wf(),
                pre.proposals_view().len() <= usize::MAX,
                pre.spec_current_block() < BlockNumber::MAX,
                expired@ == ids_at(pre.buckets_view(), pre.spec_current_block()),
                current == pre.spec_current_block(),
                forall|a: int, b: int| 0 <= a < b < expired@.len() ==> expired@[a] != expired@[b],
                forall|x: ProposalId|
                    (#[trigger] ids_at(pre.buckets_view(), current).contains(x)) <==> pre.buckets_view().contains((current, x)),
                self.wf(),
                self.spec_current_block() == current,
                self.proposals_view().len() == pre.proposals_view().len(),
                forall|m: int|
                    0 <= m < expired@.len() ==> (#[trigger] expired@[m]) < pre.proposals_view().len()
                        && pre.proposals_view()[expired@[m] as int].open
                        && pre.proposals_view()[expired@[m] as int].voting_deadline == current,
                forall|i2: int|
                    0 <= i2 < pre.proposals_view().len() ==> {
                        let p = pre.proposals_view()[i2];
                        if exists|m: int| 0 <= m < k && expired@[m] == i2 as ProposalId {
                            same_but_closed(#[trigger] self.proposals_view()[i2], p)
                        } else {
                            self.proposals_view()[i2] == p
                        }
                    },
                self.ledger_view() == pre.ledger_view(),
                self.eth_view() == pre.eth_view(),
                self.validators_view() == pre.validators_view(),
                self.spec_voting_period() == pre.spec_voting_period(),
                self.spec_bucket_capacity() == pre.spec_bucket_capacity(),
                self.events_view() == pre.events_view() + expired_events(expired@.take(k as int)),
                forall|e: (BlockNumber, ProposalId)|
                    #[trigger] self.buckets_view().contains(e) ==> pre.buckets_view().contains(e)
                        && !expired@.take(k as int).contains(e.1),
                forall|fp: Seq<u8>|
                    (#[trigger] self.dedup_view().contains_key(fp)) <==> (
                    pre.dedup_view().contains_key(fp) && !expired@.take(k as int).contains(
                        pre.dedup_view()[fp],
                    )),
                forall|fp: Seq<u8>|
                    #[trigger] self.dedup_view().contains_key(fp) ==> self.dedup_view()[fp]
                        == pre.dedup_view()[fp],
            decreases expired@.len() - k,
        {
            let pid = expired[k];
            proof {
                assert(expired@[k as int] == pid);
                assert(!(exists|m: int| 0 <= m < k && expired@[m] == pid as ProposalId));
                assert(self.proposals_view()[pid as int] == pre.proposals_view()[pid as int]);
            }
            let ghost before = *self;
            self.close_proposal(pid);
            self.events.push(Event::ProposalIsExpired(pid));
            proof {
                assert(expired@.take(k + 1).drop_last() =~= expired@.take(k as int));
                assert(self.events@ =~= pre.events_view() + expired_events(expired@.take(k + 1)));
                assert forall|i2: int|
                    0 <= i2 < pre.proposals_view().len() implies {
                    let p = pre.proposals_view()[i2];
                    if exists|m: int| 0 <= m < k + 1 && expired@[m] == i2 as ProposalId {
                        same_but_closed(#[trigger] self.proposals_view()[i2], p)
                    } else {
                        self.proposals_view()[i2] == p
                    }
                } by {
                    if exists|m: int| 0 <= m < k + 1 && expired@[m] == i2 as ProposalId {
                        let m = choose|m: int| 0 <= m < k + 1 && expired@[m] == i2 as ProposalId;
                        if m < k {
                            assert(i2 != pid);
                        }
                    }
                }
                assert forall|fp: Seq<u8>|
                    (#[trigger] self.dedup_view().contains_key(fp)) <==> (
                    pre.dedup_view().contains_key(fp) && !expired@.take(k + 1).contains(
                        pre.dedup_view()[fp],
                    )) by {
                    let v = pre.dedup_view()[fp];
                    assert(self.dedup_view().contains_key(fp) <==> (
                    before.dedup_view().contains_key(fp) && before.dedup_view()[fp] != pid));
                    assert(before.dedup_view().contains_key(fp) <==> (
                    pre.dedup_view().contains_key(fp) && !expired@.take(k as int).contains(v)));
                    assert(expired@.take(k + 1)[k as int] == pid);
                    if expired@.take(k as int).contains(v) {
                        let m = choose|m: int|
                            0 <= m < k && (#[trigger] expired@.take(k as int)[m]) == v;
                        assert(expired@.take(k + 1)[m] == v);
                        assert(expired@.take(k + 1).contains(v));
                    }
                    if expired@.take(k + 1).contains(v) {
                        let m = choose|m: int|
                            0 <= m < k + 1 && (#[trigger] expired@.take(k + 1)[m]) == v;
                        if m < k {
                            assert(expired@.take(k as int)[m] == v);
                            assert(expired@.take(k as int).contains(v));
                        } else {
                            assert(v == pid);
                        }
                    }
                }
            }
            k = k + 1;
        }
        proof {
            assert(expired@.take(expired@.len() as int) =~= expired@);
        }
        let ghost swept = *self;
        self.current_block = current + 1;
        proof {
            // No open proposal keeps a deadline at the swept block, so the
            // invariant survives the block advance and the bucket is empty.
            assert forall|i2: int|
                0 <= i2 < self.proposals@.len() implies wf_record(
                #[trigger] self.proposals@[i2],
                i2,
                self.validators@.len() as int,
                self.current_block,
            ) by {
                let p = self.proposals@[i2];
                if p.open {
                    assert(wf_record(pre.proposals@[i2], i2, pre.validators@.len() as int, current));
                    if !(exists|m: int| 0 <= m < expired@.len() && expired@[m] == i2 as ProposalId) {
                        assert(p == pre.proposals_view()[i2]);
                        if p.voting_deadline == current {
                            let j = choose|j: int|
                                0 <= j < pre.buckets@.len() && pre.buckets@[j].1
                                    == i2 as ProposalId;
                            assert(pre.buckets@[j].1 as int == i2);
                            assert(pre.proposals@[i2].voting_deadline == pre.buckets@[j].0);
                            assert(pre.buckets@[j].0 == current);
                            assert(pre.buckets_view().contains((current, i2 as ProposalId)));
                            assert(ids_at(pre.buckets_view(), current).contains(
                                i2 as ProposalId,
                            ));
                            assert(expired@.contains(i2 as ProposalId));
                            assert(false);
                        }
                    } else {
                        assert(false);
                    }
                }
            }
            assert(self.wf());
            lemma_count_at_nonneg(self.buckets@, current);
            if count_at(self.buckets@, current) > 0 {
                lemma_count_at_positive(self.buckets@, current);
                let j = choose|j: int| 0 <= j < self.buckets@.len() && self.buckets@[j].0 == current;
                let e = self.buckets@[j];
                assert(self.buckets_view().contains(e));
                assert(pre.buckets_view().contains(e));
                assert(ids_at(pre.buckets_view(), current).contains(e.1));
                assert(expired@.contains(e.1));
                assert(false);
            }
            pre.lemma_dedup_maps_to_open();
            assert(self.dedup_view() == swept.dedup_view());
            assert forall|fp: Seq<u8>|
                (#[trigger] self.dedup_view().contains_key(fp)) <==> (
                pre.dedup_view().contains_key(fp) && pre.proposals_view()[pre.dedup_view()[fp] as int].voting_deadline
                    != current) by {
                assert(swept.dedup_view().contains_key(fp) <==> (pre.dedup_view().contains_key(fp)
                    && !expired@.contains(pre.dedup_view()[fp])));
                if pre.dedup_view().contains_key(fp) {
                    let v = pre.dedup_view()[fp];
                    assert(v < pre.proposals_view().len());
                    assert(pre.proposals_view()[v as int].open);
                    if pre.proposals_view()[v as int].voting_deadline == current {
                        let j = choose|j: int|
                            0 <= j < pre.buckets@.len() && pre.buckets@[j].1 == v as ProposalId;
                        assert(v as ProposalId == v);
                        assert(pre.buckets@[j].0 == pre.proposals@[v as int].voting_deadline);
                        assert(pre.buckets@[j] == (current, v));
                        assert(pre.buckets_view().contains((current, v)));
                        assert(ids_at(pre.buckets_view(), current).contains(v));
                        assert(expired@.contains(v));
                    } else {
                        if expired@.contains(v) {
                            assert(pre.buckets_view().contains((current, v)));
                            let j = choose|j: int|
                                0 <= j < pre.buckets@.len() && pre.buckets@[j] == (current, v);
                            assert(pre.proposals@[v as int].voting_deadline == current);
                            assert(false);
                        }
                    }
                }
            }
            assert forall|fp: Seq<u8>|
                #[trigger] self.dedup_view().contains_key(fp) implies self.dedup_view()[fp]
                == pre.dedup_view()[fp] by {
                assert(swept.dedup_view().contains_key(fp));
            }
        }
    }
}

} // verus!

verus! {

impl Module {
    /// The proposal record for `proposal_id`, if one was ever allocated.
    pub fn proposals(&self, proposal_id: ProposalId) -> (r: Option<&BridgeProposal>)
        ensures
            match r {
                Some(p) => proposal_id < self.proposals_view().len() && *p
                    == self.proposals_view()[proposal_id as int],
                None => proposal_id >= self.proposals_view().len(),
            },
    {
        if proposal_id >= self.proposals.len() as u64 {
            return None;
        }
        let idx = proposal_id as usize;
        Some(&self.proposals[idx])
    }

    /// How many proposals have been allocated so far.
    pub fn bridge_proposals_count(&self) -> (r: u64)
        ensures
            r == self.proposals_view().len(),
    {
        self.proposals.len() as u64
    }

    /// The configured voting period, in blocks.
    pub fn proposals_period_limit(&self) -> (r: BlockNumber)
        ensures
            r == self.spec_voting_period(),
    {
        self.voting_period
    }

    /// The configured maximum of concurrently open proposals per deadline.
    pub fn open_proposals_per_block(&self) -> (r: usize)
        ensures
            r == self.spec_bucket_capacity(),
    {
        self.bucket_capacity
    }

    /// The block currently being processed.
    pub fn block_number(&self) -> (r: BlockNumber)
        ensures
            r == self.spec_current_block(),
    {
        self.current_block
    }

    /// The ids of the open proposals whose deadline is `block`, in store
    /// order.
    pub fn open_bridge_proposals(&self, block: BlockNumber) -> (r: Vec<ProposalId>)
        ensures
            r@ == ids_at(self.buckets_view(), block),
    {
        let mut out: Vec<ProposalId> = Vec::new();
        let mut i: usize = 0;
        while i < self.buckets.len()
            invariant
                i <= self.buckets@.len(),
                out@ == ids_at(self.buckets@.take(i as int), block),
            decreases self.buckets@.len() - i,
        {
            proof {
                assert(self.buckets@.take(i + 1).drop_last() =~= self.buckets@.take(i as int));
                assert(self.buckets@.take(i + 1).last() == self.buckets@[i as int]);
            }
            if self.buckets[i].0 == block {
                out.push(self.buckets[i].1);
            }
            i = i + 1;
        }
        proof {
            assert(self.buckets@.take(self.buckets@.len() as int) =~= self.buckets@);
        }
        out
    }

    /// The registered validator with member id `validator_id`, if any.
    pub fn validators(&self, validator_id: MemberId) -> (r: Option<&Validator>)
        ensures
            match r {
                Some(v) => validator_id < self.validators_view().len() && *v
                    == self.validators_view()[validator_id as int],
                None => validator_id >= self.validators_view().len(),
            },
    {
        if validator_id >= self.validators.len() as u64 {
            return None;
        }
        let idx = validator_id as usize;
        Some(&self.validators[idx])
    }

    /// The counterpart-chain address recorded for `proposal_id`, if any.
    pub fn ethereum_address(&self, proposal_id: ProposalId) -> (r: Option<&Vec<u8>>)
        requires
            self.wf(),
        ensures
            match r {
                Some(a) => self.eth_view().contains_key(proposal_id) && a@
                    == self.eth_view()[proposal_id],
                None => !self.eth_view().contains_key(proposal_id),
            },
    {
        let mut i: usize = 0;
        while i < self.eth_addresses.len()
            invariant
                i <= self.eth_addresses@.len(),
                forall|j: int| 0 <= j < i ==> (#[trigger] self.eth_addresses@[j]).0 != proposal_id,
                self.wf(),
            decreases self.eth_addresses@.len() - i,
        {
            if self.eth_addresses[i].0 == proposal_id {
                proof {
                    let f = |e: (ProposalId, Vec<u8>)| (e.0, e.1@);
                    let m = self.eth_addresses@.map_values(f);
                    assert forall|a: int, b: int| 0 <= a < b < m.len() implies m[a].0
                        != m[b].0 by {
                        assert(self.eth_addresses@[a].0 != self.eth_addresses@[b].0);
                    }
                    crate::kvlist::lemma_map_of_index(m, i as int);
                }
                return Some(&self.eth_addresses[i].1);
            }
            i = i + 1;
        }
        proof {
            let f = |e: (ProposalId, Vec<u8>)| (e.0, e.1@);
            let m = self.eth_addresses@.map_values(f);
            assert forall|k: int| 0 <= k < m.len() implies m[k].0 != proposal_id by {
                assert(self.eth_addresses@[k].0 != proposal_id);
            }
            crate::kvlist::lemma_map_of_contains(m, proposal_id);
        }
        None
    }

    /// The balance of the account in the token, by the same key shape the
    /// persisted state surface exposes.
    pub fn balance_of(&self, key: (TokenId, AccountId)) -> (r: TokenBalance)
        requires
            self.wf(),
        ensures
            r == self.ledger_view().balance_of_spec(key.0, key.1),
    {
        self.ledger.balance_of(key)
    }

    /// The total supply of `token` on the ledger.
    pub fn total_supply(&self, token: TokenId) -> (r: TokenBalance)
        requires
            self.wf(),
        ensures
            r == self.ledger_view().supply_of_spec(token),
    {
        self.ledger.total_supply(token)
    }

    /// The notifications emitted so far, oldest first.
    pub fn events(&self) -> (r: &Vec<Event>)
        ensures
            r@ == self.events_view(),
    {
        &self.events
    }

    /// Each validator contributes at most one vote: the assent tally never
    /// exceeds the number of distinct voters, which never exceeds the
    /// configured validator count; the recorded voters are pairwise
    /// distinct.
    pub proof fn lemma_votes_bounded(&self, proposal_id: ProposalId)
        requires
            self.wf(),
            proposal_id < self.proposals_view().len(),
        ensures
            self.proposals_view()[proposal_id as int].votes_count <= self.proposals_view()[proposal_id as int].voters@.len(),
            self.proposals_view()[proposal_id as int].voters@.len() <= self.spec_validators_count(),
            forall|a: int, b: int|
                0 <= a < b < self.proposals_view()[proposal_id as int].voters@.len()
                    ==> self.proposals_view()[proposal_id as int].voters@[a]
                    != self.proposals_view()[proposal_id as int].voters@[b],
    {
        assert(wf_record(
            self.proposals@[proposal_id as int],
            proposal_id as int,
            self.validators@.len() as int,
            self.current_block,
        ));
    }

    /// No open proposal outlives its deadline: the voting deadline of every
    /// open proposal is at or after the block being processed.
    pub proof fn lemma_open_within_deadline(&self, proposal_id: ProposalId)
        requires
            self.wf(),
            proposal_id < self.proposals_view().len(),
            self.proposals_view()[proposal_id as int].open,
        ensures
            self.proposals_view()[proposal_id as int].voting_deadline >= self.spec_current_block(),
    {
        assert(wf_record(
            self.proposals@[proposal_id as int],
            proposal_id as int,
            self.validators@.len() as int,
            self.current_block,
        ));
    }
}

/// Execution happens only on the accepting transition: whenever one vote
/// call changes the ledger, that call reported acceptance of an open
/// proposal, applied exactly that proposal's action, and closed the
/// proposal.  Since a closed proposal only ever answers `NotOpen` and its
/// record never changes again, no proposal's action can execute twice over
/// any sequence of calls.
pub proof fn lemma_execution_only_on_acceptance(
    pre: Module,
    post: Module,
    voter: AccountId,
    proposal_id: ProposalId,
    assent: bool,
    r: Result<Outcome, Error>,
)
    requires
        vote_applied(pre, post, voter, proposal_id, assent, r),
        post.ledger_view().balances_map() != pre.ledger_view().balances_map()
            || post.ledger_view().supplies_map() != pre.ledger_view().supplies_map(),
    ensures
        r == Ok::<Outcome, Error>(Outcome::Accepted),
        pre.is_registered(voter),
        proposal_id < pre.proposals_view().len(),
        pre.proposals_view()[proposal_id as int].open,
        !post.proposals_view()[proposal_id as int].open,
        ledger_applied(
            pre.ledger_view(),
            post.ledger_view(),
            pre.proposals_view()[proposal_id as int].action,
        ),
{
}

/// The acceptance threshold is monotone in the tally: once enough assents
/// are in, more assents never undo acceptance.
pub proof fn lemma_threshold_monotonic(votes1: int, votes2: int, validator_count: int)
    requires
        threshold_reached(votes1, validator_count),
        votes1 <= votes2,
    ensures
        threshold_reached(votes2, validator_count),
{
    assert(votes2 * 100 >= votes1 * 100) by (nonlinear_arith)
        requires
            votes1 <= votes2,
    ;
}

/// Closed records stay closed across any chain of operations: the relation
/// each mutating operation ensures composes transitively.
pub proof fn lemma_preserves_closed_trans(
    a: Seq<BridgeProposal>,
    b: Seq<BridgeProposal>,
    c: Seq<BridgeProposal>,
)
    requires
        preserves_closed_records(a, b),
        preserves_closed_records(b, c),
    ensures
        preserves_closed_records(a, c),
{
    assert forall|i: int| 0 <= i < a.len() && !a[i].open implies i < c.len() && c[i] == a[i] by {
        assert(b[i] == a[i]);
    }
}

} // verus!
