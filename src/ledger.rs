use vstd::prelude::*;
use crate::types::{
    expired_at, in_value_range, loss_percent, loss_percent_of, loss_violated, penalty_of,
    rules_broken, values_in_range, violated_at, Commitment, CommitmentError, CommitmentRules,
    Payout, Status, SECONDS_PER_DAY, VALUE_BOUND,
};

verus! {

/// A stored commitment is well formed: its identifier is its position, its
/// terms passed validation at creation, and its values stay in range.
pub open spec fn record_wf(c: Commitment, index: int) -> bool {
    &&& c.commitment_id == index
    &&& 0 < c.amount <= VALUE_BOUND
    &&& 0 <= c.current_value <= VALUE_BOUND
    &&& c.rules.duration_days > 0
    &&& c.rules.max_loss_percent <= 100
    &&& c.rules.early_exit_penalty <= 100
}

/// Expiry of a commitment created at `now` under `rules`.
pub open spec fn expiry_of(now: u64, rules: CommitmentRules) -> int {
    now + rules.duration_days * SECONDS_PER_DAY
}

/// Why a creation request is refused, if it is.
pub open spec fn create_error(
    amount: i128,
    rules: CommitmentRules,
    owner_balance: i128,
    now: u64,
) -> Option<CommitmentError> {
    if rules.duration_days == 0 || rules.max_loss_percent > 100 || rules.early_exit_penalty > 100
        || expiry_of(now, rules) > u64::MAX {
        Some(CommitmentError::InvalidRules)
    } else if amount <= 0 || amount > VALUE_BOUND {
        Some(CommitmentError::InvalidAmount)
    } else if owner_balance < amount {
        Some(CommitmentError::InsufficientBalance)
    } else {
        None
    }
}

/// The record that a successful creation stores.
pub open spec fn fresh_commitment(
    id: u64,
    owner: String,
    nft_token_id: u32,
    rules: CommitmentRules,
    amount: i128,
    asset_address: String,
    now: u64,
) -> Commitment {
    Commitment {
        commitment_id: id,
        owner,
        nft_token_id,
        rules,
        amount,
        asset_address,
        created_at: now,
        expires_at: expiry_of(now, rules) as u64,
        current_value: amount,
        status: Status::Active,
    }
}

pub open spec fn with_status(c: Commitment, status: Status) -> Commitment {
    Commitment { status, ..c }
}

pub open spec fn with_value(c: Commitment, value: i128, status: Status) -> Commitment {
    Commitment { current_value: value, status, ..c }
}

/// Seconds left until expiry, `0` once expired.
pub open spec fn time_remaining_of(c: Commitment, now: u64) -> u64 {
    if now < c.expires_at {
        (c.expires_at - now) as u64
    } else {
        0
    }
}

/// The decomposed violation report: (any rule broken, loss rule broken,
/// duration rule broken, loss percent, seconds remaining).
pub open spec fn details_of(c: Commitment, now: u64) -> (bool, bool, bool, i128, u64) {
    (
        rules_broken(c, now),
        loss_violated(c),
        expired_at(c, now),
        loss_percent_of(c.amount as int, c.current_value as int) as i128,
        time_remaining_of(c, now),
    )
}

/// The ledger's violation predicate on one record.
pub fn has_violations(c: &Commitment, now: u64) -> (r: bool)
    requires
        values_in_range(*c),
    ensures
        r == violated_at(*c, now),
{
    if c.status != Status::Active {
        return false;
    }
    let loss = loss_percent(c.amount, c.current_value);
    let loss_hit = loss > c.rules.max_loss_percent as i128;
    let duration_hit = c.rules.duration_days > 0 && now >= c.expires_at;
    loss_hit || duration_hit
}

/// The violation predicate decomposed, without regard to the status.
pub fn violation_details(c: &Commitment, now: u64) -> (r: (bool, bool, bool, i128, u64))
    requires
        values_in_range(*c),
    ensures
        r == details_of(*c, now),
{
    let loss = loss_percent(c.amount, c.current_value);
    let loss_hit = loss > c.rules.max_loss_percent as i128;
    let duration_hit = c.rules.duration_days > 0 && now >= c.expires_at;
    let time_remaining: u64 = if now < c.expires_at {
        c.expires_at - now
    } else {
        0
    };
    (loss_hit || duration_hit, loss_hit, duration_hit, loss, time_remaining)
}

/// The ledger of commitments. A commitment's identifier is its position in
/// the ledger, so identifiers are unique and never reused.
pub struct CommitmentCoreContract {
    admin: String,
    nft_contract: String,
    commitments: Vec<Commitment>,
    allocators: Vec<String>,
}

impl CommitmentCoreContract {
    /// The stored records, in order of creation.
    pub closed spec fn records(self) -> Seq<Commitment> {
        self.commitments@
    }

    /// Identity allowed to revalue commitments.
    pub closed spec fn admin_id(self) -> Seq<char> {
        self.admin@
    }

    /// Identity of the receipt-token service.
    pub closed spec fn nft_contract_id(self) -> Seq<char> {
        self.nft_contract@
    }

    /// Identities allowed to move escrowed funds to a pool.
    pub closed spec fn is_allocator(self, who: Seq<char>) -> bool {
        exists|i: int| 0 <= i < self.allocators@.len() && #[trigger] self.allocators@[i]@ == who
    }

    /// Same administrator, receipt-token service and allocators.
    pub open spec fn same_authorities(self, other: Self) -> bool {
        &&& self.admin_id() == other.admin_id()
        &&& self.nft_contract_id() == other.nft_contract_id()
        &&& forall|who: Seq<char>| #[trigger] self.is_allocator(who) == other.is_allocator(who)
    }

    proof fn lemma_same_allocators(self, other: Self)
        requires
            self.allocators@ == other.allocators@,
        ensures
            forall|who: Seq<char>| #[trigger] self.is_allocator(who) == other.is_allocator(who),
    {
    }

    pub open spec fn wf(self) -> bool {
        &&& self.records().len() <= u64::MAX
        &&& forall|i: int| 0 <= i < self.records().len() ==> record_wf(#[trigger] self.records()[i], i)
    }

    pub open spec fn contains(self, id: u64) -> bool {
        id < self.records().len()
    }

    pub open spec fn record(self, id: u64) -> Commitment {
        self.records()[id as int]
    }

    pub open spec fn settle_outcome(self, id: u64, now: u64) -> Result<Payout, CommitmentError> {
        if !self.contains(id) {
            Err(CommitmentError::NotFound)
        } else if self.record(id).status != Status::Active {
            Err(CommitmentError::AlreadySettled)
        } else if now < self.record(id).expires_at {
            Err(CommitmentError::NotExpired)
        } else {
            Ok(Payout { amount: self.record(id).current_value, penalty: 0 })
        }
    }

    pub open spec fn early_exit_outcome(self, id: u64, caller: Seq<char>) -> Result<
        Payout,
        CommitmentError,
    > {
        if !self.contains(id) {
            Err(CommitmentError::NotFound)
        } else if caller != self.record(id).owner@ {
            Err(CommitmentError::Unauthorized)
        } else if self.record(id).status != Status::Active {
            Err(CommitmentError::AlreadySettled)
        } else {
            let value = self.record(id).current_value as int;
            let penalty = penalty_of(value, self.record(id).rules.early_exit_penalty as int);
            Ok(Payout { amount: (value - penalty) as i128, penalty: penalty as i128 })
        }
    }

    pub open spec fn allocate_outcome(self, caller: Seq<char>, id: u64, amount: i128) -> Result<
        (),
        CommitmentError,
    > {
        if !self.is_allocator(caller) {
            Err(CommitmentError::Unauthorized)
        } else if !self.contains(id) {
            Err(CommitmentError::NotFound)
        } else if self.record(id).status != Status::Active {
            Err(CommitmentError::AlreadySettled)
        } else if amount <= 0 {
            Err(CommitmentError::InvalidAmount)
        } else {
            Ok(())
        }
    }

    pub open spec fn update_outcome(self, caller: Seq<char>, id: u64, new_value: i128) -> Result<
        bool,
        CommitmentError,
    > {
        if caller != self.admin_id() {
            Err(CommitmentError::Unauthorized)
        } else if !self.contains(id) {
            Err(CommitmentError::NotFound)
        } else if self.record(id).status != Status::Active {
            Err(CommitmentError::AlreadySettled)
        } else if new_value < 0 || new_value > VALUE_BOUND {
            Err(CommitmentError::InvalidAmount)
        } else {
            Ok(loss_violated(with_value(self.record(id), new_value, Status::Active)))
        }
    }

    /// An empty ledger administered by `admin`.
    pub fn initialize(admin: String, nft_contract: String) -> (r: Self)
        ensures
            r.wf(),
            r.records().len() == 0,
            forall|who: Seq<char>| !#[trigger] r.is_allocator(who),
            r.admin_id() == admin@,
            r.nft_contract_id() == nft_contract@,
    {
        CommitmentCoreContract {
            admin,
            nft_contract,
            commitments: Vec::new(),
            allocators: Vec::new(),
        }
    }

    /// Opens a commitment of `amount` of `asset_address` for `owner`, whose
    /// balance of that asset is `owner_balance`, at time `now`. On success the
    /// caller moves `amount` from the owner into escrow.
    pub fn create_commitment(
        &mut self,
        owner: String,
        amount: i128,
        asset_address: String,
        rules: CommitmentRules,
        nft_token_id: u32,
        owner_balance: i128,
        now: u64,
    ) -> (r: Result<u64, CommitmentError>)
        requires
            old(self).wf(),
        ensures
            final(self).wf(),
            final(self).same_authorities(*old(self)),
            match r {
                Ok(id) => {
                    &&& create_error(amount, rules, owner_balance, now).is_none()
                    &&& id == old(self).records().len()
                    &&& final(self).records() == old(self).records().push(
                        fresh_commitment(id, owner, nft_token_id, rules, amount, asset_address, now),
                    )
                },
                Err(e) => {
                    &&& create_error(amount, rules, owner_balance, now) == Some(e)
                    &&& final(self).records() == old(self).records()
                },
            },
    {
        if rules.duration_days == 0 || rules.max_loss_percent > 100
            || rules.early_exit_penalty > 100 {
            return Err(CommitmentError::InvalidRules);
        }
        let duration_seconds: u64 = rules.duration_days as u64 * SECONDS_PER_DAY;
        let expires_at: u64 = match now.checked_add(duration_seconds) {
            Some(t) => t,
            None => {
                return Err(CommitmentError::InvalidRules);
            },
        };
        if amount <= 0 || amount > VALUE_BOUND {
            return Err(CommitmentError::InvalidAmount);
        }
        if owner_balance < amount {
            return Err(CommitmentError::InsufficientBalance);
        }
        let id: u64 = self.commitments.len() as u64;
        let commitment = Commitment {
            commitment_id: id,
            owner,
            nft_token_id,
            rules,
            amount,
            asset_address,
            created_at: now,
            expires_at,
            current_value: amount,
            status: Status::Active,
        };
        self.commitments.push(commitment);
        proof {
            assert(self.commitments.len() <= usize::MAX);
            self.lemma_same_allocators(*old(self));
            assert forall|i: int| 0 <= i < self.records().len() implies record_wf(
                #[trigger] self.records()[i],
                i,
            ) by {
                if i < old(self).records().len() {
                    assert(self.records()[i] == old(self).records()[i]);
                }
            }
        }
        Ok(id)
    }

    /// Looks a commitment up by identifier.
    pub fn get_commitment(&self, commitment_id: u64) -> (r: Result<&Commitment, CommitmentError>)
        requires
            self.wf(),
        ensures
            match r {
                Ok(c) => self.contains(commitment_id) && *c == self.record(commitment_id),
                Err(e) => !self.contains(commitment_id) && e == CommitmentError::NotFound,
            },
    {
        if commitment_id < self.commitments.len() as u64 {
            Ok(&self.commitments[commitment_id as usize])
        } else {
            Err(CommitmentError::NotFound)
        }
    }

    /// Whether an active commitment breaks its loss or duration rule at
    /// `now`. Does not change the status.
    pub fn check_violations(&self, commitment_id: u64, now: u64) -> (r: Result<
        bool,
        CommitmentError,
    >)
        requires
            self.wf(),
        ensures
            match r {
                Ok(b) => self.contains(commitment_id) && b == violated_at(
                    self.record(commitment_id),
                    now,
                ),
                Err(e) => !self.contains(commitment_id) && e == CommitmentError::NotFound,
            },
    {
        let c = self.get_commitment(commitment_id)?;
        proof {
            assert(record_wf(self.records()[commitment_id as int], commitment_id as int));
        }
        Ok(has_violations(c, now))
    }

    /// The violation predicate of a commitment, decomposed.
    pub fn get_violation_details(&self, commitment_id: u64, now: u64) -> (r: Result<
        (bool, bool, bool, i128, u64),
        CommitmentError,
    >)
        requires
            self.wf(),
        ensures
            match r {
                Ok(d) => self.contains(commitment_id) && d == details_of(
                    self.record(commitment_id),
                    now,
                ),
                Err(e) => !self.contains(commitment_id) && e == CommitmentError::NotFound,
            },
    {
        let c = self.get_commitment(commitment_id)?;
        proof {
            assert(record_wf(self.records()[commitment_id as int], commitment_id as int));
        }
        Ok(violation_details(c, now))
    }
    /// Settles a matured commitment: its whole current value is released to
    /// the owner, with no penalty.
    pub fn settle(&mut self, commitment_id: u64, now: u64) -> (r: Result<Payout, CommitmentError>)
        requires
            old(self).wf(),
        ensures
            final(self).wf(),
            r == old(self).settle_outcome(commitment_id, now),
            final(self).same_authorities(*old(self)),
            r.is_ok() ==> final(self).records() == old(self).records().update(
                commitment_id as int,
                with_status(old(self).record(commitment_id), Status::Settled),
            ),
            r.is_err() ==> final(self).records() == old(self).records(),
    {
        if commitment_id >= self.commitments.len() as u64 {
            return Err(CommitmentError::NotFound);
        }
        let i = commitment_id as usize;
        if self.commitments[i].status != Status::Active {
            return Err(CommitmentError::AlreadySettled);
        }
        if now < self.commitments[i].expires_at {
            return Err(CommitmentError::NotExpired);
        }
        let amount = self.commitments[i].current_value;
        self.commitments[i].status = Status::Settled;
        proof {
            assert(self.records() =~= old(self).records().update(
                commitment_id as int,
                with_status(old(self).record(commitment_id), Status::Settled),
            ));
            self.lemma_same_allocators(*old(self));
            assert forall|j: int| 0 <= j < self.records().len() implies record_wf(
                #[trigger] self.records()[j],
                j,
            ) by {
                assert(record_wf(old(self).records()[j], j));
            }
        }
        Ok(Payout { amount, penalty: 0 })
    }

    /// Closes an active commitment early at its owner's request: the penalty
    /// stays in escrow and the rest of the current value goes to the owner.
    pub fn early_exit(&mut self, commitment_id: u64, caller: &String) -> (r: Result<
        Payout,
        CommitmentError,
    >)
        requires
            old(self).wf(),
        ensures
            final(self).wf(),
            r == old(self).early_exit_outcome(commitment_id, caller@),
            final(self).same_authorities(*old(self)),
            r.is_ok() ==> final(self).records() == old(self).records().update(
                commitment_id as int,
                with_status(old(self).record(commitment_id), Status::EarlyExit),
            ),
            r.is_err() ==> final(self).records() == old(self).records(),
    {
        if commitment_id >= self.commitments.len() as u64 {
            return Err(CommitmentError::NotFound);
        }
        let i = commitment_id as usize;
        if *caller != self.commitments[i].owner {
            return Err(CommitmentError::Unauthorized);
        }
        if self.commitments[i].status != Status::Active {
            return Err(CommitmentError::AlreadySettled);
        }
        proof {
            assert(record_wf(old(self).records()[i as int], i as int));
        }
        let value = self.commitments[i].current_value;
        let percent = self.commitments[i].rules.early_exit_penalty as i128;
        proof {
            assert(0 <= value * percent <= VALUE_BOUND * 100) by (nonlinear_arith)
                requires 0 <= value <= VALUE_BOUND, 0 <= percent <= 100;
            assert(0 <= (value * percent) / 100 <= value) by (nonlinear_arith)
                requires 0 <= value, 0 <= percent <= 100;
        }
        let penalty = (value * percent) / 100;
        let remaining = value - penalty;
        self.commitments[i].status = Status::EarlyExit;
        proof {
            assert(self.records() =~= old(self).records().update(
                commitment_id as int,
                with_status(old(self).record(commitment_id), Status::EarlyExit),
            ));
            self.lemma_same_allocators(*old(self));
            assert forall|j: int| 0 <= j < self.records().len() implies record_wf(
                #[trigger] self.records()[j],
                j,
            ) by {
                assert(record_wf(old(self).records()[j], j));
            }
        }
        Ok(Payout { amount: remaining, penalty })
    }

    /// Authorizes `allocator` to move escrowed funds, on the administrator's
    /// authority.
    pub fn add_allocator(&mut self, caller: &String, allocator: String) -> (r: Result<
        (),
        CommitmentError,
    >)
        requires
            old(self).wf(),
        ensures
            final(self).wf(),
            r == (if caller@ != old(self).admin_id() {
                Err(CommitmentError::Unauthorized)
            } else {
                Ok(())
            }),
            final(self).records() == old(self).records(),
            final(self).admin_id() == old(self).admin_id(),
            final(self).nft_contract_id() == old(self).nft_contract_id(),
            forall|who: Seq<char>|
                #[trigger] final(self).is_allocator(who) == (old(self).is_allocator(who) || (
                r.is_ok() && who == allocator@)),
    {
        if *caller != self.admin {
            return Err(CommitmentError::Unauthorized);
        }
        let ghost added = allocator@;
        self.allocators.push(allocator);
        proof {
            let n = old(self).allocators@.len() as int;
            assert forall|who: Seq<char>|
                #[trigger] self.is_allocator(who) == (old(self).is_allocator(who) || who
                    == added) by {
                if old(self).is_allocator(who) {
                    let i = choose|i: int|
                        0 <= i < old(self).allocators@.len() && #[trigger] old(
                            self,
                        ).allocators@[i]@ == who;
                    assert(self.allocators@[i] == old(self).allocators@[i]);
                }
                if who == added {
                    assert(self.allocators@[n]@ == who);
                }
                if self.is_allocator(who) && who != added {
                    let i = choose|i: int|
                        0 <= i < self.allocators@.len() && #[trigger] self.allocators@[i]@ == who;
                    assert(old(self).allocators@[i] == self.allocators@[i]);
                }
            }
        }
        Ok(())
    }

    /// Approves moving `amount` of an active commitment's escrow to a pool
    /// at the request of an authorized allocator; the caller of this method
    /// performs the transfer.
    pub fn allocate(&self, caller: &String, commitment_id: u64, amount: i128) -> (r: Result<
        (),
        CommitmentError,
    >)
        requires
            self.wf(),
        ensures
            r == self.allocate_outcome(caller@, commitment_id, amount),
    {
        let mut i: usize = 0;
        let mut found = false;
        while i < self.allocators.len()
            invariant
                i <= self.allocators@.len(),
                found ==> self.is_allocator(caller@),
                !found ==> forall|j: int| 0 <= j < i ==> #[trigger] self.allocators@[j]@ != caller@,
            decreases self.allocators@.len() - i,
        {
            if self.allocators[i] == *caller {
                found = true;
            }
            i = i + 1;
        }
        if !found {
            return Err(CommitmentError::Unauthorized);
        }
        if commitment_id >= self.commitments.len() as u64 {
            return Err(CommitmentError::NotFound);
        }
        if self.commitments[commitment_id as usize].status != Status::Active {
            return Err(CommitmentError::AlreadySettled);
        }
        if amount <= 0 {
            return Err(CommitmentError::InvalidAmount);
        }
        Ok(())
    }

    /// Revalues an active commitment on the administrator's authority. When
    /// the new value breaks the loss rule the commitment becomes violated,
    /// which is terminal. Returns whether it did.
    pub fn update_value(&mut self, caller: &String, commitment_id: u64, new_value: i128) -> (r:
        Result<bool, CommitmentError>)
        requires
            old(self).wf(),
        ensures
            final(self).wf(),
            r == old(self).update_outcome(caller@, commitment_id, new_value),
            final(self).same_authorities(*old(self)),
            match r {
                Ok(v) => final(self).records() == old(self).records().update(
                    commitment_id as int,
                    with_value(
                        old(self).record(commitment_id),
                        new_value,
                        if v { Status::Violated } else { Status::Active },
                    ),
                ),
                Err(_) => final(self).records() == old(self).records(),
            },
    {
        if *caller != self.admin {
            return Err(CommitmentError::Unauthorized);
        }
        if commitment_id >= self.commitments.len() as u64 {
            return Err(CommitmentError::NotFound);
        }
        let i = commitment_id as usize;
        if self.commitments[i].status != Status::Active {
            return Err(CommitmentError::AlreadySettled);
        }
        if new_value < 0 || new_value > VALUE_BOUND {
            return Err(CommitmentError::InvalidAmount);
        }
        proof {
            assert(record_wf(old(self).records()[i as int], i as int));
        }
        let loss = loss_percent(self.commitments[i].amount, new_value);
        let violated = loss > self.commitments[i].rules.max_loss_percent as i128;
        self.commitments[i].current_value = new_value;
        if violated {
            self.commitments[i].status = Status::Violated;
        }
        proof {
            assert(self.records() =~= old(self).records().update(
                commitment_id as int,
                with_value(
                    old(self).record(commitment_id),
                    new_value,
                    if violated { Status::Violated } else { Status::Active },
                ),
            ));
            self.lemma_same_allocators(*old(self));
            assert forall|j: int| 0 <= j < self.records().len() implies record_wf(
                #[trigger] self.records()[j],
                j,
            ) by {
                assert(record_wf(old(self).records()[j], j));
            }
        }
        Ok(violated)
    }
    /// Rebuilds a ledger from its stored parts. Refused (`None`) unless every
    /// record is well formed at its position.
    pub fn restore(
        admin: String,
        nft_contract: String,
        commitments: Vec<Commitment>,
        allocators: Vec<String>,
    ) -> (r: Option<Self>)
        ensures
            match r {
                Some(l) => {
                    &&& l.wf()
                    &&& l.records() == commitments@
                    &&& l.admin_id() == admin@
                    &&& l.nft_contract_id() == nft_contract@
                    &&& forall|who: Seq<char>|
                        #[trigger] l.is_allocator(who) == exists|i: int|
                            0 <= i < allocators@.len() && #[trigger] allocators@[i]@ == who
                },
                None => exists|i: int|
                    0 <= i < commitments@.len() && !record_wf(#[trigger] commitments@[i], i),
            },
    {
        let mut i: usize = 0;
        while i < commitments.len()
            invariant
                i <= commitments@.len(),
                forall|j: int| 0 <= j < i ==> record_wf(#[trigger] commitments@[j], j),
            decreases commitments@.len() - i,
        {
            let c = &commitments[i];
            let ok = c.commitment_id == i as u64 && 0 < c.amount && c.amount <= VALUE_BOUND
                && 0 <= c.current_value && c.current_value <= VALUE_BOUND
                && c.rules.duration_days > 0 && c.rules.max_loss_percent <= 100
                && c.rules.early_exit_penalty <= 100;
            if !ok {
                return None;
            }
            i = i + 1;
        }
        proof {
            assert(commitments.len() <= usize::MAX);
        }
        let ghost al = allocators@;
        let r = CommitmentCoreContract { admin, nft_contract, commitments, allocators };
        assert forall|who: Seq<char>| #[trigger] r.is_allocator(who) == exists|i: int|
            0 <= i < al.len() && #[trigger] al[i]@ == who by {
            if r.is_allocator(who) {
                let k = choose|k: int| 0 <= k < r.allocators@.len() && #[trigger] r.allocators@[k]@ == who;
                assert(al[k]@ == who);
            }
            if exists|i: int| 0 <= i < al.len() && #[trigger] al[i]@ == who {
                let k = choose|k: int| 0 <= k < al.len() && #[trigger] al[k]@ == who;
                assert(r.allocators@[k]@ == who);
            }
        }
        Some(r)
    }

    /// The stored records, for persisting the ledger.
    pub fn commitments(&self) -> (r: &Vec<Commitment>)
        ensures
            r@ == self.records(),
    {
        &self.commitments
    }

    /// The administrator's identity.
    pub fn admin(&self) -> (r: &String)
        ensures
            r@ == self.admin_id(),
    {
        &self.admin
    }

    /// The receipt-token service's identity.
    pub fn nft_contract(&self) -> (r: &String)
        ensures
            r@ == self.nft_contract_id(),
    {
        &self.nft_contract
    }

    /// The authorized allocators, for persisting the ledger.
    pub fn allocators(&self) -> (r: &Vec<String>)
        ensures
            forall|who: Seq<char>|
                #[trigger] self.is_allocator(who) == exists|i: int|
                    0 <= i < r@.len() && #[trigger] r@[i]@ == who,
    {
        &self.allocators
    }
}

} // verus!
