use vstd::prelude::*;
use crate::engine::{
    attestation_appended, drawdown_penalty, fees_recorded, score_of, AttestationEngineContract,
    AttestationRecord, DRAWDOWN_CAP,
};
use crate::ledger::{
    create_error, fresh_commitment, record_wf, with_status, CommitmentCoreContract,
};
use crate::types::{violated_at, CommitmentError, CommitmentRules, Status};

verus! {

/// A commitment that was just created is not in violation at its creation
/// time: its value equals its principal and its expiry lies strictly ahead.
pub proof fn law_fresh_commitment_not_violated(
    before: CommitmentCoreContract,
    after: CommitmentCoreContract,
    owner: String,
    amount: i128,
    asset_address: String,
    rules: CommitmentRules,
    nft_token_id: u32,
    owner_balance: i128,
    now: u64,
)
    requires
        before.wf(),
        create_error(amount, rules, owner_balance, now).is_none(),
        after.records() == before.records().push(
            fresh_commitment(
                before.records().len() as u64,
                owner,
                nft_token_id,
                rules,
                amount,
                asset_address,
                now,
            ),
        ),
    ensures
        after.contains(before.records().len() as u64),
        !violated_at(after.record(before.records().len() as u64), now),
{
    let id = before.records().len() as u64;
    assert(after.records()[id as int] == fresh_commitment(
        id,
        owner,
        nft_token_id,
        rules,
        amount,
        asset_address,
        now,
    ));
}

/// Once a commitment has been settled, neither settling it again nor an
/// early exit by its owner succeeds: both report `AlreadySettled`.
pub proof fn law_settled_stays_closed(
    before: CommitmentCoreContract,
    after: CommitmentCoreContract,
    id: u64,
    now: u64,
    later: u64,
    caller: Seq<char>,
)
    requires
        before.wf(),
        before.settle_outcome(id, now).is_ok(),
        after.records() == before.records().update(
            id as int,
            with_status(before.record(id), Status::Settled),
        ),
        caller == before.record(id).owner@,
    ensures
        after.settle_outcome(id, later) == Err::<crate::types::Payout, _>(
            CommitmentError::AlreadySettled,
        ),
        after.early_exit_outcome(id, caller) == Err::<crate::types::Payout, _>(
            CommitmentError::AlreadySettled,
        ),
{
}

/// Once a commitment has been exited early, neither settling it nor a
/// second early exit by its owner succeeds: both report `AlreadySettled`.
pub proof fn law_exited_stays_closed(
    before: CommitmentCoreContract,
    after: CommitmentCoreContract,
    id: u64,
    later: u64,
    caller: Seq<char>,
)
    requires
        before.wf(),
        before.early_exit_outcome(id, caller).is_ok(),
        after.records() == before.records().update(
            id as int,
            with_status(before.record(id), Status::EarlyExit),
        ),
    ensures
        after.settle_outcome(id, later) == Err::<crate::types::Payout, _>(
            CommitmentError::AlreadySettled,
        ),
        after.early_exit_outcome(id, caller) == Err::<crate::types::Payout, _>(
            CommitmentError::AlreadySettled,
        ),
{
}

/// The compliance score lies in `[0, 100]` for every input.
pub proof fn law_score_bounded(
    drawdown: int,
    max_loss: int,
    fees: int,
    threshold: int,
    violations: bool,
)
    ensures
        0 <= score_of(drawdown, max_loss, fees, threshold, violations) <= 100,
{
}

/// No drawdown, fees at or above the threshold and no violation score 100.
pub proof fn law_score_perfect(drawdown: int, max_loss: int, fees: int, threshold: int)
    requires
        drawdown <= 0,
        fees >= threshold,
    ensures
        score_of(drawdown, max_loss, fees, threshold, false) == 100,
{
}

/// Any drawdown, fee shortfall or violation costs points.
pub proof fn law_score_penalizes_faults(
    drawdown: int,
    max_loss: int,
    fees: int,
    threshold: int,
    violations: bool,
)
    requires
        drawdown > 0 || fees < threshold || violations,
    ensures
        score_of(drawdown, max_loss, fees, threshold, violations) < 100,
{
    if drawdown > 0 {
        let d = if drawdown > DRAWDOWN_CAP { DRAWDOWN_CAP as int } else { drawdown };
        let m = if max_loss > 0 { max_loss } else { 1 };
        assert((d * 50 + m - 1) / m >= 1) by (nonlinear_arith)
            requires d >= 1, m >= 1;
    }
}

/// A larger drawdown never raises the score; a violation or a fee shortfall
/// never raises it either.
pub proof fn law_score_monotone(
    drawdown: int,
    worse_drawdown: int,
    max_loss: int,
    fees: int,
    threshold: int,
    violations: bool,
)
    requires
        drawdown <= worse_drawdown,
    ensures
        score_of(worse_drawdown, max_loss, fees, threshold, violations) <= score_of(
            drawdown,
            max_loss,
            fees,
            threshold,
            violations,
        ),
        score_of(drawdown, max_loss, fees, threshold, true) <= score_of(
            drawdown,
            max_loss,
            fees,
            threshold,
            violations,
        ),
        score_of(drawdown, max_loss, threshold - 1, threshold, violations) <= score_of(
            drawdown,
            max_loss,
            fees,
            threshold,
            violations,
        ),
{
    if drawdown > 0 {
        let d1 = if drawdown > DRAWDOWN_CAP { DRAWDOWN_CAP as int } else { drawdown };
        let d2 = if worse_drawdown > DRAWDOWN_CAP { DRAWDOWN_CAP as int } else { worse_drawdown };
        let m = if max_loss > 0 { max_loss } else { 1 };
        assert((d1 * 50 + m - 1) / m <= (d2 * 50 + m - 1) / m) by (nonlinear_arith)
            requires 1 <= d1 <= d2, m >= 1;
    }
    assert(drawdown_penalty(drawdown, max_loss) <= drawdown_penalty(worse_drawdown, max_loss));
}

/// Fees recorded one after the other add up.
pub proof fn law_fees_accumulate(
    first: AttestationEngineContract,
    second: AttestationEngineContract,
    third: AttestationEngineContract,
    id: u64,
    a: int,
    b: int,
)
    requires
        fees_recorded(first, second, id, a),
        fees_recorded(second, third, id, b),
    ensures
        third.fees_of(id) == first.fees_of(id) + a + b,
{
}

/// The first attestation recorded about a commitment is then its only one,
/// and it carries the type that was given.
pub proof fn law_first_attestation(
    before: AttestationEngineContract,
    after: AttestationEngineContract,
    id: u64,
    record: AttestationRecord,
)
    requires
        before.attestations_of(id).len() == 0,
        attestation_appended(before, after, id, record),
    ensures
        after.attestations_of(id).len() == 1,
        after.attestations_of(id)[0] == record,
        after.attestations_of(id)[0].attestation_type == record.attestation_type,
{
}

/// Identifiers are unique: two positions of a well-formed ledger never hold
/// the same identifier, and creation hands out one that no record has yet.
pub proof fn law_ids_unique(ledger: CommitmentCoreContract, a: u64, b: u64)
    requires
        ledger.wf(),
        ledger.contains(a),
        ledger.contains(b),
        a != b,
    ensures
        ledger.record(a).commitment_id != ledger.record(b).commitment_id,
        ledger.record(a).commitment_id == a,
        !ledger.contains(ledger.records().len() as u64),
{
    assert(record_wf(ledger.records()[a as int], a as int));
    assert(record_wf(ledger.records()[b as int], b as int));
}

} // verus!
