use vstd::prelude::*;
use crate::types::{
    expired_at, in_value_range, loss_percent, loss_percent_of, values_in_range, Commitment,
    CommitmentError, VALUE_BOUND,
};

verus! {

/// Score lost at full weight of the drawdown rule: a drawdown equal to the
/// commitment's loss ceiling costs this many points.
pub const DRAWDOWN_WEIGHT: i128 = 50;

/// Score lost when recorded fees fall short of the threshold.
pub const FEE_SHORTFALL_PENALTY: i128 = 20;

/// Score lost when the ledger reports an active violation.
pub const VIOLATION_PENALTY: i128 = 30;

/// Drawdowns beyond this many percent weigh no more than this.
pub const DRAWDOWN_CAP: i128 = 200;

/// One compliance check recorded against a commitment.
#[derive(Debug)]
pub struct AttestationRecord {
    pub attestation_type: String,
    /// Free-form evidence, as key/value pairs.
    pub data: Vec<(String, String)>,
    pub verified_by: String,
    pub timestamp: u64,
    pub passed: bool,
}

/// An attestation together with the commitment it is about.
#[derive(Debug)]
pub struct LogEntry {
    pub commitment_id: u64,
    pub record: AttestationRecord,
}

/// Running fee total of one commitment.
#[derive(Clone, Copy, Debug)]
pub struct FeeEntry {
    pub commitment_id: u64,
    pub total: i128,
}

/// Health of a commitment, derived on demand.
#[derive(Clone, Copy, Debug, PartialEq, Eq, Structural)]
pub struct HealthMetrics {
    pub commitment_id: u64,
    pub current_value: i128,
    pub initial_value: i128,
    pub drawdown_percent: i128,
    pub fees_generated: i128,
    /// No price-variance source is wired in; always zero.
    pub volatility_exposure: i128,
    /// Timestamp of the most recent attestation, `0` when there is none.
    pub last_attestation: u64,
    pub compliance_score: u32,
}

/// The attestations about `id` in `log`, in the order they were recorded.
pub open spec fn records_for(log: Seq<LogEntry>, id: u64) -> Seq<AttestationRecord>
    decreases log.len(),
{
    if log.len() == 0 {
        Seq::empty()
    } else {
        let earlier = records_for(log.drop_last(), id);
        if log.last().commitment_id == id {
            earlier.push(log.last().record)
        } else {
            earlier
        }
    }
}

/// Timestamp of the last of `records`, `0` when there is none.
pub open spec fn last_timestamp(records: Seq<AttestationRecord>) -> u64 {
    if records.len() == 0 {
        0
    } else {
        records.last().timestamp
    }
}

/// Points lost to a drawdown of `drawdown` percent under a ceiling of
/// `max_loss` percent: `DRAWDOWN_WEIGHT` points per ceiling's worth of
/// drawdown, rounded up, so that any loss costs at least one point.
pub open spec fn drawdown_penalty(drawdown: int, max_loss: int) -> int {
    if drawdown <= 0 {
        0
    } else {
        let d = if drawdown > DRAWDOWN_CAP { DRAWDOWN_CAP as int } else { drawdown };
        let m = if max_loss > 0 { max_loss } else { 1 };
        (d * DRAWDOWN_WEIGHT + m - 1) / m
    }
}

/// The compliance score: 100, less the drawdown penalty, less a fixed
/// penalty for fees short of the threshold and one for an active violation,
/// clamped into `[0, 100]`.
pub open spec fn score_of(
    drawdown: int,
    max_loss: int,
    fees: int,
    threshold: int,
    violations: bool,
) -> int {
    let raw = 100 - drawdown_penalty(drawdown, max_loss) - (if fees < threshold {
        FEE_SHORTFALL_PENALTY as int
    } else {
        0
    }) - (if violations {
        VIOLATION_PENALTY as int
    } else {
        0
    });
    if raw < 0 {
        0
    } else if raw > 100 {
        100
    } else {
        raw
    }
}

/// The score of commitment `c` with `fees` recorded.
pub open spec fn commitment_score(c: Commitment, fees: int, violations: bool) -> int {
    score_of(
        loss_percent_of(c.amount as int, c.current_value as int),
        c.rules.max_loss_percent as int,
        fees,
        c.rules.min_fee_threshold as int,
        violations,
    )
}

/// The compliance predicate: drawdown within the ceiling, not expired (when
/// a duration is set), fees at or above the threshold, and no violation.
pub open spec fn compliant(c: Commitment, fees: int, violations: bool, now: u64) -> bool {
    &&& loss_percent_of(c.amount as int, c.current_value as int) <= c.rules.max_loss_percent
    &&& !expired_at(c, now)
    &&& fees >= c.rules.min_fee_threshold
    &&& !violations
}

/// Computes `score_of`.
pub fn compliance_score(
    drawdown: i128,
    max_loss: u32,
    fees: i128,
    threshold: i128,
    violations: bool,
) -> (r: u32)
    ensures
        r == score_of(drawdown as int, max_loss as int, fees as int, threshold as int, violations),
        r <= 100,
{
    let dd_penalty: i128 = if drawdown <= 0 {
        0
    } else {
        let d: i128 = if drawdown > DRAWDOWN_CAP { DRAWDOWN_CAP } else { drawdown };
        let m: i128 = if max_loss > 0 { max_loss as i128 } else { 1 };
        (d * DRAWDOWN_WEIGHT + m - 1) / m
    };
    proof {
        if drawdown > 0 {
            let d: int = if drawdown > DRAWDOWN_CAP { DRAWDOWN_CAP as int } else { drawdown as int };
            let m: int = if max_loss > 0 { max_loss as int } else { 1 };
            assert(0 <= (d * DRAWDOWN_WEIGHT + m - 1) / m <= d * DRAWDOWN_WEIGHT + m - 1)
                by (nonlinear_arith)
                requires 0 < d <= DRAWDOWN_CAP, 1 <= m, DRAWDOWN_WEIGHT == 50;
        }
    }
    let mut raw: i128 = 100 - dd_penalty;
    if fees < threshold {
        raw = raw - FEE_SHORTFALL_PENALTY;
    }
    if violations {
        raw = raw - VIOLATION_PENALTY;
    }
    if raw < 0 {
        0
    } else if raw > 100 {
        100
    } else {
        raw as u32
    }
}

/// `after` holds the attestations of `before`, with `record` appended to
/// those about `id`.
pub open spec fn attestation_appended(
    before: AttestationEngineContract,
    after: AttestationEngineContract,
    id: u64,
    record: AttestationRecord,
) -> bool {
    &&& after.attestations_of(id) == before.attestations_of(id).push(record)
    &&& forall|other: u64|
        other != id ==> #[trigger] after.attestations_of(other) == before.attestations_of(other)
}

/// `after` holds the fee totals of `before`, with `amount` added to that of
/// `id`.
pub open spec fn fees_recorded(
    before: AttestationEngineContract,
    after: AttestationEngineContract,
    id: u64,
    amount: int,
) -> bool {
    &&& after.fees_of(id) == before.fees_of(id) + amount
    &&& forall|other: u64| other != id ==> #[trigger] after.fees_of(other) == before.fees_of(other)
}

/// The compliance engine: an append-only attestation log and a fee total per
/// commitment. It reads commitments as snapshots handed to it by the ledger
/// and never changes them.
pub struct AttestationEngineContract {
    admin: String,
    commitment_core: String,
    log: Vec<LogEntry>,
    fees: Vec<FeeEntry>,
}

impl AttestationEngineContract {
    /// Identity allowed to record fees and drawdowns.
    pub closed spec fn admin_id(self) -> Seq<char> {
        self.admin@
    }

    /// Identity of the ledger this engine reads from.
    pub closed spec fn core_id(self) -> Seq<char> {
        self.commitment_core@
    }

    /// The attestations recorded about commitment `id`, oldest first.
    pub closed spec fn attestations_of(self, id: u64) -> Seq<AttestationRecord> {
        records_for(self.log@, id)
    }

    /// Whether a fee total exists for `id`.
    pub closed spec fn has_fees(self, id: u64) -> bool {
        exists|i: int| 0 <= i < self.fees@.len() && self.fees@[i].commitment_id == id
    }

    /// Fees recorded for commitment `id`, `0` when none were.
    pub closed spec fn fees_of(self, id: u64) -> int {
        if self.has_fees(id) {
            self.fees@[choose|i: int|
                0 <= i < self.fees@.len() && self.fees@[i].commitment_id == id].total as int
        } else {
            0
        }
    }

    /// At most one fee total per commitment, none negative.
    pub closed spec fn wf(self) -> bool {
        &&& forall|i: int, j: int|
            0 <= i < self.fees@.len() && 0 <= j < self.fees@.len() && i != j
                ==> #[trigger] self.fees@[i].commitment_id != #[trigger] self.fees@[j].commitment_id
        &&& forall|i: int| 0 <= i < self.fees@.len() ==> #[trigger] self.fees@[i].total >= 0
    }

    pub proof fn lemma_fees_nonnegative(self, id: u64)
        requires
            self.wf(),
        ensures
            self.fees_of(id) >= 0,
    {
        if self.has_fees(id) {
            let k = choose|i: int| 0 <= i < self.fees@.len() && self.fees@[i].commitment_id == id;
            assert(self.fees@[k].total >= 0);
        }
    }

    /// An engine with no records, administered by `admin`, reading from the
    /// ledger `commitment_core`.
    pub fn initialize(admin: String, commitment_core: String) -> (r: Self)
        ensures
            r.wf(),
            r.admin_id() == admin@,
            r.core_id() == commitment_core@,
            forall|id: u64| #[trigger] r.attestations_of(id).len() == 0,
            forall|id: u64| #[trigger] r.fees_of(id) == 0,
    {
        let r = AttestationEngineContract {
            admin,
            commitment_core,
            log: Vec::new(),
            fees: Vec::new(),
        };
        proof {
            assert forall|id: u64| #[trigger] r.fees_of(id) == 0 by {
                assert(!r.has_fees(id));
            }
        }
        r
    }

    /// Position of the fee total of `id`, if there is one.
    fn find_fees(&self, id: u64) -> (r: Option<usize>)
        requires
            self.wf(),
        ensures
            match r {
                Some(i) => i < self.fees@.len() && self.fees@[i as int].commitment_id == id
                    && self.has_fees(id) && self.fees_of(id) == self.fees@[i as int].total,
                None => !self.has_fees(id) && self.fees_of(id) == 0,
            },
    {
        let mut i: usize = 0;
        while i < self.fees.len()
            invariant
                self.wf(),
                i <= self.fees@.len(),
                forall|j: int| 0 <= j < i ==> #[trigger] self.fees@[j].commitment_id != id,
            decreases self.fees@.len() - i,
        {
            if self.fees[i].commitment_id == id {
                proof {
                    let k = choose|j: int|
                        0 <= j < self.fees@.len() && self.fees@[j].commitment_id == id;
                    assert(self.fees@[k].commitment_id == id);
                    assert(self.fees@[i as int].commitment_id == id);
                    if k != i as int {
                        assert(self.fees@[k].commitment_id != self.fees@[i as int].commitment_id);
                    }
                }
                return Some(i);
            }
            i = i + 1;
        }
        None
    }

    /// Fees recorded for `id`.
    fn fees_total(&self, id: u64) -> (r: i128)
        requires
            self.wf(),
        ensures
            r == self.fees_of(id),
            r >= 0,
    {
        match self.find_fees(id) {
            Some(i) => {
                proof {
                    self.lemma_fees_nonnegative(id);
                }
                self.fees[i].total
            },
            None => 0,
        }
    }

    /// Timestamp of the latest attestation about `id`, `0` when none.
    fn last_attestation_time(&self, id: u64) -> (r: u64)
        ensures
            r == last_timestamp(self.attestations_of(id)),
    {
        let mut last: u64 = 0;
        let mut i: usize = 0;
        while i < self.log.len()
            invariant
                i <= self.log@.len(),
                last == last_timestamp(records_for(self.log@.take(i as int), id)),
            decreases self.log@.len() - i,
        {
            proof {
                assert(self.log@.take(i + 1).drop_last() =~= self.log@.take(i as int));
            }
            if self.log[i].commitment_id == id {
                last = self.log[i].record.timestamp;
            }
            i = i + 1;
        }
        proof {
            assert(self.log@.take(i as int) =~= self.log@);
        }
        last
    }
    /// Records an attestation about `commitment_id` at time `now`. It passes
    /// exactly when the ledger reports no active violation (`violations`).
    /// Anyone may attest. Returns whether it passed.
    pub fn attest(
        &mut self,
        commitment_id: u64,
        violations: bool,
        attestation_type: String,
        data: Vec<(String, String)>,
        verified_by: String,
        now: u64,
    ) -> (r: bool)
        requires
            old(self).wf(),
        ensures
            final(self).wf(),
            r == !violations,
            attestation_appended(
                *old(self),
                *final(self),
                commitment_id,
                (AttestationRecord {
                    attestation_type,
                    data,
                    verified_by,
                    timestamp: now,
                    passed: !violations,
                }),
            ),
            forall|id: u64| #[trigger] final(self).fees_of(id) == old(self).fees_of(id),
            final(self).admin_id() == old(self).admin_id(),
            final(self).core_id() == old(self).core_id(),
    {
        let passed = !violations;
        let record = AttestationRecord {
            attestation_type,
            data,
            verified_by,
            timestamp: now,
            passed,
        };
        self.log.push(LogEntry { commitment_id, record });
        proof {
            assert(self.log@.drop_last() =~= old(self).log@);
            assert forall|id: u64| #[trigger] self.fees_of(id) == old(self).fees_of(id) by {
                assert(self.fees@ == old(self).fees@);
            }
        }
        passed
    }

    /// The attestations about `commitment_id`, oldest first; empty when
    /// there are none.
    pub fn get_attestations(&self, commitment_id: u64) -> (r: Vec<&AttestationRecord>)
        ensures
            r@.len() == self.attestations_of(commitment_id).len(),
            forall|i: int|
                0 <= i < r@.len() ==> *#[trigger] r@[i] == self.attestations_of(commitment_id)[i],
    {
        let mut r: Vec<&AttestationRecord> = Vec::new();
        let mut i: usize = 0;
        while i < self.log.len()
            invariant
                i <= self.log@.len(),
                r@.len() == records_for(self.log@.take(i as int), commitment_id).len(),
                forall|j: int|
                    0 <= j < r@.len() ==> *#[trigger] r@[j] == records_for(
                        self.log@.take(i as int),
                        commitment_id,
                    )[j],
            decreases self.log@.len() - i,
        {
            proof {
                assert(self.log@.take(i + 1).drop_last() =~= self.log@.take(i as int));
            }
            if self.log[i].commitment_id == commitment_id {
                r.push(&self.log[i].record);
            }
            i = i + 1;
        }
        proof {
            assert(self.log@.take(i as int) =~= self.log@);
        }
        r
    }

    /// Adds `amount` to the fee total of `commitment_id` on the
    /// administrator's authority. A negative amount, or one that would carry
    /// the total past `i128::MAX`, is refused.
    pub fn record_fees(&mut self, caller: &String, commitment_id: u64, amount: i128) -> (r: Result<
        (),
        CommitmentError,
    >)
        requires
            old(self).wf(),
        ensures
            final(self).wf(),
            r == (if caller@ != old(self).admin_id() {
                Err(CommitmentError::Unauthorized)
            } else if amount < 0 || old(self).fees_of(commitment_id) + amount > i128::MAX {
                Err(CommitmentError::InvalidAmount)
            } else {
                Ok(())
            }),
            r.is_ok() ==> fees_recorded(*old(self), *final(self), commitment_id, amount as int),
            r.is_err() ==> fees_recorded(*old(self), *final(self), commitment_id, 0),
            forall|id: u64| #[trigger]
                final(self).attestations_of(id) == old(self).attestations_of(id),
            final(self).admin_id() == old(self).admin_id(),
            final(self).core_id() == old(self).core_id(),
    {
        if *caller != self.admin {
            return Err(CommitmentError::Unauthorized);
        }
        if amount < 0 {
            return Err(CommitmentError::InvalidAmount);
        }
        let found = self.find_fees(commitment_id);
        let current = self.fees_total(commitment_id);
        let total = match current.checked_add(amount) {
            Some(t) => t,
            None => {
                return Err(CommitmentError::InvalidAmount);
            },
        };
        match found {
            Some(i) => {
                self.fees.set(i, FeeEntry { commitment_id, total });
                proof {
                    self.lemma_fees_after_update(*old(self), i as int, commitment_id);
                }
            },
            None => {
                self.fees.push(FeeEntry { commitment_id, total });
                proof {
                    assert(self.fees@.drop_last() =~= old(self).fees@);
                    self.lemma_fees_after_push(*old(self), commitment_id);
                }
            },
        }
        Ok(())
    }

    proof fn lemma_fees_after_update(self, before: Self, i: int, id: u64)
        requires
            before.wf(),
            0 <= i < before.fees@.len(),
            before.fees@[i].commitment_id == id,
            self.fees@ == before.fees@.update(i, self.fees@[i]),
            self.fees@[i].commitment_id == id,
            self.fees@[i].total >= 0,
            self.log@ == before.log@,
            self.admin == before.admin,
            self.commitment_core == before.commitment_core,
        ensures
            self.wf(),
            self.fees_of(id) == self.fees@[i].total,
            forall|other: u64| other != id ==> #[trigger] self.fees_of(other) == before.fees_of(other),
    {
        assert forall|a: int, b: int|
            0 <= a < self.fees@.len() && 0 <= b < self.fees@.len() && a != b implies
            #[trigger] self.fees@[a].commitment_id != #[trigger] self.fees@[b].commitment_id by {
            assert(before.fees@[a].commitment_id != before.fees@[b].commitment_id);
        }
        assert forall|a: int| 0 <= a < self.fees@.len() implies #[trigger] self.fees@[a].total >= 0 by {
            if a != i {
                assert(before.fees@[a].total >= 0);
            }
        }
        assert(self.has_fees(id));
        let k = choose|j: int| 0 <= j < self.fees@.len() && self.fees@[j].commitment_id == id;
        if k != i {
            assert(self.fees@[k].commitment_id != self.fees@[i].commitment_id);
        }
        assert forall|other: u64| other != id implies #[trigger] self.fees_of(other) == before.fees_of(
            other,
        ) by {
            if before.has_fees(other) {
                let w = choose|j: int|
                    0 <= j < before.fees@.len() && before.fees@[j].commitment_id == other;
                assert(self.fees@[w].commitment_id == other);
                assert(self.has_fees(other));
                let k2 = choose|j: int|
                    0 <= j < self.fees@.len() && self.fees@[j].commitment_id == other;
                if k2 != w {
                    assert(self.fees@[k2].commitment_id != self.fees@[w].commitment_id);
                }
            } else {
                if self.has_fees(other) {
                    let k2 = choose|j: int|
                        0 <= j < self.fees@.len() && self.fees@[j].commitment_id == other;
                    assert(before.fees@[k2].commitment_id == other);
                }
            }
        }
    }

    proof fn lemma_fees_after_push(self, before: Self, id: u64)
        requires
            before.wf(),
            !before.has_fees(id),
            self.fees@.len() == before.fees@.len() + 1,
            self.fees@.drop_last() == before.fees@,
            self.fees@.last().commitment_id == id,
            self.fees@.last().total >= 0,
            self.log@ == before.log@,
            self.admin == before.admin,
            self.commitment_core == before.commitment_core,
        ensures
            self.wf(),
            self.fees_of(id) == self.fees@.last().total,
            forall|other: u64| other != id ==> #[trigger] self.fees_of(other) == before.fees_of(other),
    {
        let n = before.fees@.len() as int;
        assert forall|a: int| 0 <= a < n implies #[trigger] self.fees@[a] == before.fees@[a] by {
            assert(self.fees@.drop_last()[a] == self.fees@[a]);
        }
        assert forall|a: int, b: int|
            0 <= a < self.fees@.len() && 0 <= b < self.fees@.len() && a != b implies
            #[trigger] self.fees@[a].commitment_id != #[trigger] self.fees@[b].commitment_id by {
            if a < n && b < n {
                assert(before.fees@[a].commitment_id != before.fees@[b].commitment_id);
            } else if a < n {
                assert(before.fees@[a].commitment_id != id);
            } else if b < n {
                assert(before.fees@[b].commitment_id != id);
            }
        }
        assert forall|a: int| 0 <= a < self.fees@.len() implies #[trigger] self.fees@[a].total >= 0 by {
            if a < n {
                assert(before.fees@[a].total >= 0);
            }
        }
        assert(self.fees@[n].commitment_id == id);
        assert(self.has_fees(id));
        let k = choose|j: int| 0 <= j < self.fees@.len() && self.fees@[j].commitment_id == id;
        if k != n {
            assert(self.fees@[k].commitment_id != self.fees@[n].commitment_id);
        }
        assert forall|other: u64| other != id implies #[trigger] self.fees_of(other) == before.fees_of(
            other,
        ) by {
            if before.has_fees(other) {
                let w = choose|j: int|
                    0 <= j < before.fees@.len() && before.fees@[j].commitment_id == other;
                assert(self.fees@[w].commitment_id == other);
                assert(self.has_fees(other));
                let k2 = choose|j: int|
                    0 <= j < self.fees@.len() && self.fees@[j].commitment_id == other;
                if k2 != w {
                    assert(self.fees@[k2].commitment_id != self.fees@[w].commitment_id);
                }
            } else {
                if self.has_fees(other) {
                    let k2 = choose|j: int|
                        0 <= j < self.fees@.len() && self.fees@[j].commitment_id == other;
                    assert(k2 < n);
                    assert(before.fees@[k2].commitment_id == other);
                }
            }
        }
    }
    /// The drawdown of `commitment` at `current_value`, in percent, recorded
    /// on the administrator's authority. Nothing is stored: the caller
    /// publishes it.
    pub fn record_drawdown(&self, caller: &String, commitment: &Commitment, current_value: i128) -> (r:
        Result<i128, CommitmentError>)
        requires
            in_value_range(commitment.amount as int),
        ensures
            r == (if caller@ != self.admin_id() {
                Err(CommitmentError::Unauthorized)
            } else if !in_value_range(current_value as int) {
                Err(CommitmentError::InvalidAmount)
            } else {
                Ok(loss_percent_of(commitment.amount as int, current_value as int) as i128)
            }),
    {
        if *caller != self.admin {
            return Err(CommitmentError::Unauthorized);
        }
        if current_value < -VALUE_BOUND || current_value > VALUE_BOUND {
            return Err(CommitmentError::InvalidAmount);
        }
        Ok(loss_percent(commitment.amount, current_value))
    }

    /// The compliance score of `commitment`, where `violations` is the
    /// ledger's report on it.
    pub fn calculate_compliance_score(&self, commitment: &Commitment, violations: bool) -> (r: u32)
        requires
            self.wf(),
            values_in_range(*commitment),
        ensures
            r == commitment_score(*commitment, self.fees_of(commitment.commitment_id), violations),
            r <= 100,
    {
        let drawdown = loss_percent(commitment.amount, commitment.current_value);
        let fees = self.fees_total(commitment.commitment_id);
        compliance_score(
            drawdown,
            commitment.rules.max_loss_percent,
            fees,
            commitment.rules.min_fee_threshold,
            violations,
        )
    }

    /// Whether `commitment` is compliant at `now`, where `violations` is the
    /// ledger's report on it.
    pub fn verify_compliance(&self, commitment: &Commitment, violations: bool, now: u64) -> (r: bool)
        requires
            self.wf(),
            values_in_range(*commitment),
        ensures
            r == compliant(*commitment, self.fees_of(commitment.commitment_id), violations, now),
    {
        let drawdown = loss_percent(commitment.amount, commitment.current_value);
        if drawdown > commitment.rules.max_loss_percent as i128 {
            return false;
        }
        if commitment.rules.duration_days > 0 && now >= commitment.expires_at {
            return false;
        }
        let fees = self.fees_total(commitment.commitment_id);
        if fees < commitment.rules.min_fee_threshold {
            return false;
        }
        !violations
    }

    /// The health of `commitment`, where `violations` is the ledger's report
    /// on it.
    pub fn get_health_metrics(&self, commitment: &Commitment, violations: bool) -> (r: HealthMetrics)
        requires
            self.wf(),
            values_in_range(*commitment),
        ensures
            r.commitment_id == commitment.commitment_id,
            r.current_value == commitment.current_value,
            r.initial_value == commitment.amount,
            r.drawdown_percent == loss_percent_of(
                commitment.amount as int,
                commitment.current_value as int,
            ),
            r.fees_generated == self.fees_of(commitment.commitment_id),
            r.volatility_exposure == 0,
            r.last_attestation == last_timestamp(self.attestations_of(commitment.commitment_id)),
            r.compliance_score == commitment_score(
                *commitment,
                self.fees_of(commitment.commitment_id),
                violations,
            ),
    {
        let drawdown = loss_percent(commitment.amount, commitment.current_value);
        let fees = self.fees_total(commitment.commitment_id);
        let score = self.calculate_compliance_score(commitment, violations);
        HealthMetrics {
            commitment_id: commitment.commitment_id,
            current_value: commitment.current_value,
            initial_value: commitment.amount,
            drawdown_percent: drawdown,
            fees_generated: fees,
            volatility_exposure: 0,
            last_attestation: self.last_attestation_time(commitment.commitment_id),
            compliance_score: score,
        }
    }
    /// Rebuilds an engine from its stored parts. Refused (`None`) when two
    /// fee totals share a commitment or a total is negative.
    pub fn restore(
        admin: String,
        commitment_core: String,
        log: Vec<LogEntry>,
        fees: Vec<FeeEntry>,
    ) -> (r: Option<Self>)
        ensures
            match r {
                Some(e) => {
                    &&& e.wf()
                    &&& e.admin_id() == admin@
                    &&& e.core_id() == commitment_core@
                    &&& forall|id: u64| #[trigger] e.attestations_of(id) == records_for(log@, id)
                    &&& forall|i: int|
                        0 <= i < fees@.len() ==> e.fees_of(#[trigger] fees@[i].commitment_id)
                            == fees@[i].total
                },
                None => {
                    ||| exists|i: int| 0 <= i < fees@.len() && #[trigger] fees@[i].total < 0
                    ||| exists|i: int, j: int|
                        0 <= i < j < fees@.len() && #[trigger] fees@[i].commitment_id
                            == #[trigger] fees@[j].commitment_id
                },
            },
    {
        let mut i: usize = 0;
        while i < fees.len()
            invariant
                i <= fees@.len(),
                forall|a: int| 0 <= a < i ==> #[trigger] fees@[a].total >= 0,
                forall|a: int, b: int|
                    0 <= a < b < i ==> #[trigger] fees@[a].commitment_id
                        != #[trigger] fees@[b].commitment_id,
            decreases fees@.len() - i,
        {
            if fees[i].total < 0 {
                return None;
            }
            let mut j: usize = 0;
            while j < i
                invariant
                    i < fees@.len(),
                    j <= i,
                    forall|a: int| 0 <= a < j ==> #[trigger] fees@[a].commitment_id
                        != fees@[i as int].commitment_id,
                decreases i - j,
            {
                if fees[j].commitment_id == fees[i].commitment_id {
                    return None;
                }
                j = j + 1;
            }
            i = i + 1;
        }
        let ghost f = fees@;
        let e = AttestationEngineContract { admin, commitment_core, log, fees };
        proof {
            assert forall|a: int, b: int|
                0 <= a < e.fees@.len() && 0 <= b < e.fees@.len() && a != b implies
                #[trigger] e.fees@[a].commitment_id != #[trigger] e.fees@[b].commitment_id by {
                if a < b {
                    assert(f[a].commitment_id != f[b].commitment_id);
                } else {
                    assert(f[b].commitment_id != f[a].commitment_id);
                }
            }
            assert forall|a: int| 0 <= a < f.len() implies e.fees_of(#[trigger] f[a].commitment_id)
                == f[a].total by {
                let id = f[a].commitment_id;
                assert(e.fees@[a].commitment_id == id);
                assert(e.has_fees(id));
                let k = choose|k: int| 0 <= k < e.fees@.len() && e.fees@[k].commitment_id == id;
                if k != a {
                    assert(e.fees@[k].commitment_id != e.fees@[a].commitment_id);
                }
            }
        }
        Some(e)
    }

    /// The attestation log, for persisting the engine.
    pub fn log(&self) -> (r: &Vec<LogEntry>)
        ensures
            forall|id: u64| #[trigger] self.attestations_of(id) == records_for(r@, id),
    {
        &self.log
    }

    /// The fee totals, for persisting the engine.
    pub fn fees(&self) -> (r: &Vec<FeeEntry>)
        requires
            self.wf(),
        ensures
            forall|i: int| 0 <= i < r@.len() ==> self.fees_of(#[trigger] r@[i].commitment_id) == r@[i].total,
    {
        proof {
            assert forall|a: int| 0 <= a < self.fees@.len() implies self.fees_of(
                #[trigger] self.fees@[a].commitment_id,
            ) == self.fees@[a].total by {
                let id = self.fees@[a].commitment_id;
                assert(self.has_fees(id));
                let k = choose|k: int| 0 <= k < self.fees@.len() && self.fees@[k].commitment_id == id;
                if k != a {
                    assert(self.fees@[k].commitment_id != self.fees@[a].commitment_id);
                }
            }
        }
        &self.fees
    }

    /// The administrator's identity.
    pub fn admin(&self) -> (r: &String)
        ensures
            r@ == self.admin_id(),
    {
        &self.admin
    }

    /// The identity of the ledger this engine reads from.
    pub fn commitment_core(&self) -> (r: &String)
        ensures
            r@ == self.core_id(),
    {
        &self.commitment_core
    }
}

} // verus!
