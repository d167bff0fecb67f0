//! Payout computation and payout-on-transfer coordination: a beneficiary
//! mapping is derived from a token's royalty terms and a sale balance,
//! validated against a caller-specified size limit, and, in the transfer
//! variant, coupled to the ownership-transfer action.

use crate::types::{apply_basis_point, basis_point_share, lemma_share_bounds, BasisPoint, FULL_BASIS_POINT};
use vstd::prelude::*;

verus! {

/// The size cap applied to the mapping when the caller names none; any
/// mapping of length 10 or less must be accepted by financial contracts, so
/// 10 is a safe upper limit.
pub const DEFAULT_MAX_LEN_PAYOUT: u32 = 10;

/// The ways a payout computation or a payout-bearing transfer can fail; every
/// failure aborts the whole invocation with no state change.
#[derive(Clone, Copy, Debug, PartialEq, Eq)]
pub enum PayoutError {
    /// The referenced token has no owner record.
    NotFound,
    /// `max_len_payout` was zero.
    InvalidArgument,
    /// The computed mapping has more entries than the caller's cap.
    LimitExceeded,
    /// The required one-unit authorization attachment is missing.
    Unauthorized,
    /// The underlying ownership transfer refused the operation.
    TransferRejected,
}

/// The first value paired with `key` in `entries`, if any: association-list
/// lookup with map semantics.
pub open spec fn assoc_find<V>(entries: Seq<(Seq<char>, V)>, key: Seq<char>) -> Option<V>
    decreases entries.len(),
{
    if entries.len() == 0 {
        None
    } else if entries[0].0 == key {
        Some(entries[0].1)
    } else {
        assoc_find(entries.drop_first(), key)
    }
}

/// The total amount across all entries.
pub open spec fn entries_sum(entries: Seq<(Seq<char>, u128)>) -> int
    decreases entries.len(),
{
    if entries.len() == 0 {
        0
    } else {
        entries[0].1 + entries_sum(entries.drop_first())
    }
}

/// A mapping of accounts to the amount each should be paid out in the event
/// of a token sale. Keys are unique, the order of entries is stable for a
/// given input, and the mapping is created fresh on every query.
pub struct Payout {
    entries: Vec<(String, u128)>,
}

impl View for Payout {
    type V = Seq<(Seq<char>, u128)>;

    closed spec fn view(&self) -> Seq<(Seq<char>, u128)> {
        self.entries.deep_view()
    }
}

impl Payout {
    /// The number of beneficiaries.
    pub fn len(&self) -> (n: usize)
        ensures
            n == self@.len(),
    {
        self.entries.len()
    }

    /// The entries of the mapping, beneficiary by beneficiary.
    pub fn entries(&self) -> (entries: &Vec<(String, u128)>)
        ensures
            entries.deep_view() == self@,
    {
        &self.entries
    }

    /// The amount owed to `account`, if it is a beneficiary.
    pub fn get(&self, account: &String) -> (amount: Option<u128>)
        ensures
            amount == assoc_find(self@, account@),
    {
        let mut i: usize = 0;
        while i < self.entries.len()
            invariant
                i <= self.entries.len(),
                forall|j: int| 0 <= j < i ==> self@[j].0 != account@,
            decreases self.entries.len() - i,
        {
            let entry = &self.entries[i];
            if entry.0 == *account {
                proof {
                    lemma_assoc_find_skip(self@, account@, i as int);
                    assert(self@.skip(i as int)[0] == self@[i as int]);
                }
                return Some(entry.1);
            }
            i = i + 1;
        }
        proof {
            lemma_assoc_find_skip(self@, account@, self@.len() as int);
            assert(self@.skip(self@.len() as int) =~= Seq::<(Seq<char>, u128)>::empty());
        }
        None
    }
}

/// The royalty configuration: the creator together with the rate owed to it,
/// if one was fixed at initialization.
pub open spec fn royalty_config(
    creator_id: Option<String>,
    creator_royalty_bp: Option<BasisPoint>,
) -> Option<(Seq<char>, BasisPoint)> {
    match (creator_id, creator_royalty_bp) {
        (Some(creator), Some(bp)) => Some((creator@, bp)),
        _ => None,
    }
}

/// The size cap that applies: the caller's, or the default when it names
/// none.
pub open spec fn effective_max_len(max_len_payout: Option<u32>) -> u32 {
    match max_len_payout {
        Some(m) => m,
        None => DEFAULT_MAX_LEN_PAYOUT,
    }
}

/// The beneficiary entries owed from selling the token of `owner` for
/// `balance`: the creator's basis-point share first, then the owner's exact
/// remainder — unless creator and owner coincide, in which case the mapping
/// collapses to one entry carrying the full balance.
pub open spec fn payout_entries(
    royalty: Option<(Seq<char>, BasisPoint)>,
    owner: Seq<char>,
    balance: u128,
) -> Seq<(Seq<char>, u128)> {
    match royalty {
        None => seq![(owner, balance)],
        Some((creator, bp)) => {
            if creator == owner {
                seq![(owner, balance)]
            } else {
                let creator_share = basis_point_share(balance, bp) as u128;
                seq![(creator, creator_share), (owner, (balance - creator_share) as u128)]
            }
        },
    }
}

/// The outcome of the read-only payout query: the entries owed, or the exact
/// failure condition.
pub open spec fn nft_payout_spec(
    royalty: Option<(Seq<char>, BasisPoint)>,
    owner: Option<Seq<char>>,
    balance: u128,
    max_len_payout: Option<u32>,
) -> Result<Seq<(Seq<char>, u128)>, PayoutError> {
    if effective_max_len(max_len_payout) == 0 {
        Err(PayoutError::InvalidArgument)
    } else {
        match owner {
            None => Err(PayoutError::NotFound),
            Some(owner) => {
                let entries = payout_entries(royalty, owner, balance);
                if entries.len() > effective_max_len(max_len_payout) as nat {
                    Err(PayoutError::LimitExceeded)
                } else {
                    Ok(entries)
                }
            },
        }
    }
}

/// The outcome of the payout-bearing transfer: unauthorized without the
/// one-unit attachment, the payout query's own failure when it fails, the
/// transfer's refusal otherwise, and the pre-transfer entries on success.
pub open spec fn nft_transfer_payout_spec(
    royalty: Option<(Seq<char>, BasisPoint)>,
    owner: Option<Seq<char>>,
    balance: u128,
    max_len_payout: Option<u32>,
    attached_deposit: u128,
    transfer_approved: bool,
) -> Result<Seq<(Seq<char>, u128)>, PayoutError> {
    if attached_deposit != 1 {
        Err(PayoutError::Unauthorized)
    } else {
        match nft_payout_spec(royalty, owner, balance, max_len_payout) {
            Err(e) => Err(e),
            Ok(entries) => {
                if transfer_approved {
                    Ok(entries)
                } else {
                    Err(PayoutError::TransferRejected)
                }
            },
        }
    }
}

/// What a payout result exposes: the entries of the mapping on success, the
/// failure condition otherwise.
pub open spec fn result_entries(result: Result<Payout, PayoutError>) -> Result<
    Seq<(Seq<char>, u128)>,
    PayoutError,
> {
    match result {
        Ok(payout) => Ok(payout@),
        Err(e) => Err(e),
    }
}

/// The payout interface of the token ledger: a read-only query for the
/// beneficiary mapping of a token sale, and the same query coupled to the
/// ownership transfer.
pub trait Payouts: Sized {
    /// The current owner of `token_id`, if the token exists.
    spec fn owner_of(&self, token_id: Seq<char>) -> Option<Seq<char>>;

    /// The royalty configuration fixed at initialization.
    spec fn royalty(&self) -> Option<(Seq<char>, BasisPoint)>;

    /// Internal consistency of the implementor.
    spec fn wf(&self) -> bool;

    /// Given a `token_id` and a balance, the `Payout` mapping for the given
    /// token, of at most `max_len_payout` entries; read-only.
    fn nft_payout(&self, token_id: String, balance: u128, max_len_payout: Option<u32>) -> (result:
        Result<Payout, PayoutError>)
        requires
            self.wf(),
        ensures
            result_entries(result) == nft_payout_spec(
                self.royalty(),
                self.owner_of(token_id@),
                balance,
                max_len_payout,
            ),
    ;

    /// Given a `token_id` and a balance, transfer the token to `receiver_id`
    /// and return the `Payout` mapping computed from the pre-transfer state.
    /// The caller's one-unit authorization attachment comes in
    /// `attached_deposit`; `transfer_approved` carries the verdict of the
    /// underlying transfer primitive, which checks `approval_id` and `memo`
    /// and is consulted only after the payout is computed. On any failure the
    /// ownership records are left unchanged and no payout is returned.
    fn nft_transfer_payout(
        &mut self,
        receiver_id: String,
        token_id: String,
        approval_id: Option<u64>,
        memo: Option<String>,
        balance: u128,
        max_len_payout: Option<u32>,
        attached_deposit: u128,
        transfer_approved: bool,
    ) -> (result: Result<Payout, PayoutError>)
        requires
            old(self).wf(),
        ensures
            final(self).wf(),
            final(self).royalty() == old(self).royalty(),
            result_entries(result) == nft_transfer_payout_spec(
                old(self).royalty(),
                old(self).owner_of(token_id@),
                balance,
                max_len_payout,
                attached_deposit,
                transfer_approved,
            ),
            result is Err ==> *final(self) == *old(self),
            result is Ok ==> final(self).owner_of(token_id@) == Some(receiver_id@) && (forall|
                t: Seq<char>,
            |
                t != token_id@ ==> final(self).owner_of(t) == old(self).owner_of(t)),
    ;
}

/// The ledger state the payout logic reads: the token-to-owner records
/// together with the royalty configuration fixed at initialization.
pub struct Contract {
    owner_by_id: Vec<(String, String)>,
    creator_id: Option<String>,
    creator_royalty_bp: Option<BasisPoint>,
}

impl Contract {
    /// The ownership records.
    pub closed spec fn owner_records(&self) -> Seq<(Seq<char>, Seq<char>)> {
        self.owner_by_id.deep_view()
    }

    /// A contract with no tokens and the given royalty configuration. A
    /// creator comes exactly together with a rate of at most 100%, as the
    /// configuration loader guarantees at contract creation.
    pub fn new(creator_id: Option<String>, creator_royalty_bp: Option<BasisPoint>) -> (contract:
        Contract)
        requires
            creator_id is Some <==> creator_royalty_bp is Some,
            creator_royalty_bp matches Some(bp) ==> bp <= FULL_BASIS_POINT,
        ensures
            contract.wf(),
            contract.royalty() == royalty_config(creator_id, creator_royalty_bp),
            forall|t: Seq<char>| contract.owner_of(t) is None,
    {
        let contract = Contract { owner_by_id: Vec::new(), creator_id, creator_royalty_bp };
        proof {
            assert(contract.owner_records() =~= Seq::<(Seq<char>, Seq<char>)>::empty());
        }
        contract
    }

    /// The current owner of `token_id`, if it has an ownership record: the
    /// read interface the payout query consumes.
    pub fn lookup_owner(&self, token_id: &String) -> (owner: Option<String>)
        ensures
            owner.deep_view() == self.owner_of(token_id@),
    {
        let mut i: usize = 0;
        while i < self.owner_by_id.len()
            invariant
                i <= self.owner_by_id.len(),
                forall|j: int| 0 <= j < i ==> self.owner_records()[j].0 != token_id@,
            decreases self.owner_by_id.len() - i,
        {
            let record = &self.owner_by_id[i];
            if record.0 == *token_id {
                proof {
                    lemma_assoc_find_skip(self.owner_records(), token_id@, i as int);
                    assert(self.owner_records().skip(i as int)[0] == self.owner_records()[i as int]);
                }
                return Some(record.1.clone());
            }
            i = i + 1;
        }
        proof {
            lemma_assoc_find_skip(self.owner_records(), token_id@, self.owner_records().len() as int);
            assert(self.owner_records().skip(self.owner_records().len() as int) =~= Seq::<
                (Seq<char>, Seq<char>),
            >::empty());
        }
        None
    }

    /// The position of the ownership record of `token_id`, if there is one.
    fn find_token(&self, token_id: &String) -> (position: Option<usize>)
        ensures
            match position {
                Some(i) => i < self.owner_records().len() && self.owner_records()[i as int].0
                    == token_id@ && (forall|j: int|
                    0 <= j < i ==> self.owner_records()[j].0 != token_id@),
                None => forall|j: int|
                    0 <= j < self.owner_records().len() ==> self.owner_records()[j].0 != token_id@,
            },
    {
        let mut i: usize = 0;
        while i < self.owner_by_id.len()
            invariant
                i <= self.owner_by_id.len(),
                forall|j: int| 0 <= j < i ==> self.owner_records()[j].0 != token_id@,
            decreases self.owner_by_id.len() - i,
        {
            let record = &self.owner_by_id[i];
            if record.0 == *token_id {
                return Some(i);
            }
            i = i + 1;
        }
        None
    }

    /// Set the ownership record of `token_id` to `owner`, replacing the
    /// existing record or adding a fresh one; every other record is kept.
    pub fn set_owner(&mut self, token_id: &String, owner: String)
        ensures
            final(self).wf() == old(self).wf(),
            final(self).royalty() == old(self).royalty(),
            final(self).owner_of(token_id@) == Some(owner@),
            forall|t: Seq<char>|
                t != token_id@ ==> final(self).owner_of(t) == old(self).owner_of(t),
    {
        let ghost old_records = self.owner_records();
        match self.find_token(token_id) {
            Some(i) => {
                self.owner_by_id[i] = (token_id.clone(), owner);
                proof {
                    assert(self.owner_records() =~= old_records.update(
                        i as int,
                        (token_id@, owner@),
                    ));
                    lemma_assoc_find_update(old_records, i as int, token_id@, owner@, token_id@);
                    assert forall|t: Seq<char>| t != token_id@ implies self.owner_of(t) == old(
                        self,
                    ).owner_of(t) by {
                        lemma_assoc_find_update(old_records, i as int, token_id@, owner@, t);
                    }
                }
            },
            None => {
                self.owner_by_id.push((token_id.clone(), owner));
                proof {
                    assert(self.owner_records() =~= old_records.push((token_id@, owner@)));
                    lemma_assoc_find_skip(old_records, token_id@, old_records.len() as int);
                    assert(old_records.skip(old_records.len() as int) =~= Seq::<
                        (Seq<char>, Seq<char>),
                    >::empty());
                    lemma_assoc_find_push(old_records, token_id@, owner@, token_id@);
                    assert forall|t: Seq<char>| t != token_id@ implies self.owner_of(t) == old(
                        self,
                    ).owner_of(t) by {
                        lemma_assoc_find_push(old_records, token_id@, owner@, t);
                    }
                }
            },
        }
    }

    /// The beneficiary mapping for a token of `owner` sold for `balance`:
    /// the creator's share is computed first, and the owner is assigned the
    /// exact remainder, which is what conserves the balance.
    fn build_payout(&self, owner: String, balance: u128) -> (payout: Payout)
        requires
            self.wf(),
        ensures
            payout@ == payout_entries(self.royalty(), owner@, balance),
    {
        let mut entries: Vec<(String, u128)> = Vec::new();
        if let Some(creator) = &self.creator_id {
            let bp = self.creator_royalty_bp.unwrap();
            let creator_share = apply_basis_point(balance, bp);
            if *creator == owner {
                entries.push((owner, balance));
                proof {
                    assert(entries.deep_view() =~= payout_entries(self.royalty(), owner@, balance));
                }
            } else {
                let owner_share = balance - creator_share;
                entries.push((creator.clone(), creator_share));
                entries.push((owner, owner_share));
                proof {
                    assert(entries.deep_view() =~= payout_entries(self.royalty(), owner@, balance));
                }
            }
        } else {
            entries.push((owner, balance));
            proof {
                assert(entries.deep_view() =~= payout_entries(self.royalty(), owner@, balance));
            }
        }
        Payout { entries }
    }
}

impl Payouts for Contract {
    open spec fn owner_of(&self, token_id: Seq<char>) -> Option<Seq<char>> {
        assoc_find(self.owner_records(), token_id)
    }

    closed spec fn royalty(&self) -> Option<(Seq<char>, BasisPoint)> {
        royalty_config(self.creator_id, self.creator_royalty_bp)
    }

    closed spec fn wf(&self) -> bool {
        &&& self.creator_id is Some <==> self.creator_royalty_bp is Some
        &&& (self.creator_royalty_bp matches Some(bp) ==> bp <= FULL_BASIS_POINT)
    }

    fn nft_payout(&self, token_id: String, balance: u128, max_len_payout: Option<u32>) -> (result:
        Result<Payout, PayoutError>) {
        let max_len: u32 = match max_len_payout {
            Some(m) => m,
            None => DEFAULT_MAX_LEN_PAYOUT,
        };
        if max_len == 0 {
            return Err(PayoutError::InvalidArgument);
        }
        let owner = match self.lookup_owner(&token_id) {
            Some(owner) => owner,
            None => {
                return Err(PayoutError::NotFound);
            },
        };
        let payout = self.build_payout(owner, balance);
        if payout.len() > max_len as usize {
            return Err(PayoutError::LimitExceeded);
        }
        Ok(payout)
    }

    #[allow(unused_variables)]
    fn nft_transfer_payout(
        &mut self,
        receiver_id: String,
        token_id: String,
        approval_id: Option<u64>,
        memo: Option<String>,
        balance: u128,
        max_len_payout: Option<u32>,
        attached_deposit: u128,
        transfer_approved: bool,
    ) -> (result: Result<Payout, PayoutError>) {
        if attached_deposit != 1 {
            return Err(PayoutError::Unauthorized);
        }
        let payout = match self.nft_payout(token_id.clone(), balance, max_len_payout) {
            Ok(payout) => payout,
            Err(e) => {
                return Err(e);
            },
        };
        if !transfer_approved {
            return Err(PayoutError::TransferRejected);
        }
        self.set_owner(&token_id, receiver_id);
        Ok(payout)
    }
}

/// With no royalty configured, the payout query returns exactly one entry,
/// keyed by the token's owner and carrying the whole balance.
pub proof fn lemma_no_royalty_single_entry(
    owner: Seq<char>,
    balance: u128,
    max_len_payout: Option<u32>,
)
    requires
        effective_max_len(max_len_payout) >= 1,
    ensures
        nft_payout_spec(None, Some(owner), balance, max_len_payout) == Ok::<
            Seq<(Seq<char>, u128)>,
            PayoutError,
        >(seq![(owner, balance)]),
{
}

/// With a royalty for a creator distinct from the owner, the payout has
/// exactly two entries — the creator's basis-point share and the owner's
/// exact remainder — and the entries sum to the balance, for every balance.
pub proof fn lemma_royalty_split(
    creator: Seq<char>,
    bp: BasisPoint,
    owner: Seq<char>,
    balance: u128,
    max_len_payout: Option<u32>,
)
    requires
        creator != owner,
        bp <= FULL_BASIS_POINT,
        effective_max_len(max_len_payout) >= 2,
    ensures
        ({
            let share = basis_point_share(balance, bp) as u128;
            nft_payout_spec(Some((creator, bp)), Some(owner), balance, max_len_payout) == Ok::<
                Seq<(Seq<char>, u128)>,
                PayoutError,
            >(seq![(creator, share), (owner, (balance - share) as u128)])
        }),
        entries_sum(payout_entries(Some((creator, bp)), owner, balance)) == balance,
{
    lemma_share_bounds(balance, bp);
    let share = basis_point_share(balance, bp) as u128;
    lemma_entries_sum_two((creator, share), (owner, (balance - share) as u128));
}

proof fn lemma_entries_sum_one(entry: (Seq<char>, u128))
    ensures
        entries_sum(seq![entry]) == entry.1,
{
    let rest = seq![entry].drop_first();
    assert(rest.len() == 0);
    assert(entries_sum(rest) == 0);
    assert(entries_sum(seq![entry]) == entry.1 + entries_sum(rest));
}

proof fn lemma_entries_sum_two(first: (Seq<char>, u128), second: (Seq<char>, u128))
    ensures
        entries_sum(seq![first, second]) == first.1 + second.1,
{
    let rest = seq![first, second].drop_first();
    assert(rest =~= seq![second]);
    lemma_entries_sum_one(second);
    assert(entries_sum(seq![first, second]) == first.1 + entries_sum(rest));
}

/// Monetary conservation: whatever the royalty terms, the entries of the
/// payout sum to the input balance exactly — no remainder is lost or created.
pub proof fn lemma_payout_conserves_balance(
    royalty: Option<(Seq<char>, BasisPoint)>,
    owner: Seq<char>,
    balance: u128,
)
    requires
        royalty matches Some(r) ==> r.1 <= FULL_BASIS_POINT,
    ensures
        entries_sum(payout_entries(royalty, owner, balance)) == balance,
{
    match royalty {
        Some((creator, bp)) => {
            lemma_share_bounds(balance, bp);
            if creator != owner {
                let share = basis_point_share(balance, bp) as u128;
                lemma_entries_sum_two((creator, share), (owner, (balance - share) as u128));
            } else {
                lemma_entries_sum_one((owner, balance));
            }
        },
        None => {
            lemma_entries_sum_one((owner, balance));
        },
    }
}

/// Creator and owner being the same account collapses the mapping to one
/// entry carrying the full balance: nothing is paid twice.
pub proof fn lemma_same_account_single_entry(account: Seq<char>, bp: BasisPoint, balance: u128)
    ensures
        payout_entries(Some((account, bp)), account, balance) == seq![(account, balance)],
{
}

/// A zero `max_len_payout` is always rejected as an invalid argument,
/// regardless of every other input.
pub proof fn lemma_zero_max_len_rejected(
    royalty: Option<(Seq<char>, BasisPoint)>,
    owner: Option<Seq<char>>,
    balance: u128,
)
    ensures
        nft_payout_spec(royalty, owner, balance, Some(0u32)) == Err::<
            Seq<(Seq<char>, u128)>,
            PayoutError,
        >(PayoutError::InvalidArgument),
{
}

/// Idempotence: two payout queries against equal inputs and unchanged state
/// return identical mappings, because the query's contract pins its result to
/// a function of those inputs alone.
pub proof fn lemma_nft_payout_deterministic(
    first: Result<Payout, PayoutError>,
    second: Result<Payout, PayoutError>,
    royalty: Option<(Seq<char>, BasisPoint)>,
    owner: Option<Seq<char>>,
    balance: u128,
    max_len_payout: Option<u32>,
)
    requires
        result_entries(first) == nft_payout_spec(royalty, owner, balance, max_len_payout),
        result_entries(second) == nft_payout_spec(royalty, owner, balance, max_len_payout),
    ensures
        result_entries(first) == result_entries(second),
{
}

proof fn lemma_assoc_find_skip<V>(s: Seq<(Seq<char>, V)>, key: Seq<char>, i: int)
    requires
        0 <= i <= s.len(),
        forall|j: int| 0 <= j < i ==> s[j].0 != key,
    ensures
        assoc_find(s.skip(i), key) == assoc_find(s, key),
    decreases i,
{
    if i == 0 {
        assert(s.skip(0) =~= s);
    } else {
        assert(s.drop_first() =~= s.skip(1));
        assert(forall|j: int| 0 <= j < i - 1 ==> s.drop_first()[j].0 != key);
        lemma_assoc_find_skip(s.drop_first(), key, i - 1);
        assert(s.drop_first().skip(i - 1) =~= s.skip(i));
    }
}

proof fn lemma_assoc_find_update<V>(
    s: Seq<(Seq<char>, V)>,
    i: int,
    key: Seq<char>,
    value: V,
    probe: Seq<char>,
)
    requires
        0 <= i < s.len(),
        s[i].0 == key,
        forall|j: int| 0 <= j < i ==> s[j].0 != key,
    ensures
        assoc_find(s.update(i, (key, value)), probe) == (if probe == key {
            Some(value)
        } else {
            assoc_find(s, probe)
        }),
    decreases i,
{
    let t = s.update(i, (key, value));
    if i == 0 {
        assert(t[0] == (key, value));
        if probe != key {
            assert(t.drop_first() =~= s.drop_first());
        }
    } else {
        assert(t[0] == s[0]);
        if s[0].0 != probe {
            assert(t.drop_first() =~= s.drop_first().update(i - 1, (key, value)));
            assert(s.drop_first()[i - 1].0 == key);
            assert(forall|j: int| 0 <= j < i - 1 ==> s.drop_first()[j].0 != key);
            lemma_assoc_find_update(s.drop_first(), i - 1, key, value, probe);
        }
    }
}

proof fn lemma_assoc_find_push<V>(
    s: Seq<(Seq<char>, V)>,
    key: Seq<char>,
    value: V,
    probe: Seq<char>,
)
    ensures
        assoc_find(s.push((key, value)), probe) == (match assoc_find(s, probe) {
            Some(v) => Some(v),
            None => if probe == key {
                Some(value)
            } else {
                None::<V>
            },
        }),
    decreases s.len(),
{
    let t = s.push((key, value));
    if s.len() == 0 {
        assert(t[0] == (key, value));
        assert(t.drop_first() =~= Seq::<(Seq<char>, V)>::empty());
    } else {
        assert(t[0] == s[0]);
        if s[0].0 != probe {
            assert(t.drop_first() =~= s.drop_first().push((key, value)));
            lemma_assoc_find_push(s.drop_first(), key, value, probe);
        }
    }
}

} // verus!
