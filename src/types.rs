use vstd::prelude::*;

verus! {

/// Largest magnitude accepted for an amount or a value. Keeping both within
/// this bound lets every percentage computation stay inside `i128`.
pub const VALUE_BOUND: i128 = 100_000_000_000_000_000_000_000_000_000_000_000;

/// Seconds in one day.
pub const SECONDS_PER_DAY: u64 = 86400;

/// Lifecycle state of a commitment.
#[derive(Clone, Copy, Debug, PartialEq, Eq, Structural)]
pub enum Status {
    Active,
    Settled,
    Violated,
    EarlyExit,
}

/// Terms attached to a commitment at creation; never changed afterwards.
#[derive(Clone, Debug)]
pub struct CommitmentRules {
    /// Lifetime in days; `0` means "no duration check".
    pub duration_days: u32,
    /// Drawdown ceiling, in percent.
    pub max_loss_percent: u32,
    /// Informational label such as "safe", "balanced" or "aggressive".
    pub commitment_type: String,
    /// Percent of the current value forfeited on early exit.
    pub early_exit_penalty: u32,
    /// Minimum cumulative fees for the commitment to count as compliant.
    pub min_fee_threshold: i128,
}

/// The canonical commitment record. Identities (owner, asset) are the
/// textual form of the host's addresses.
#[derive(Clone, Debug)]
pub struct Commitment {
    /// Sequence number assigned by the ledger at creation.
    pub commitment_id: u64,
    pub owner: String,
    pub nft_token_id: u32,
    pub rules: CommitmentRules,
    /// Principal locked at creation.
    pub amount: i128,
    pub asset_address: String,
    pub created_at: u64,
    pub expires_at: u64,
    /// Mark-to-market value.
    pub current_value: i128,
    pub status: Status,
}

#[derive(Clone, Copy, Debug, PartialEq, Eq, Structural)]
pub enum CommitmentError {
    NotFound,
    AlreadySettled,
    NotExpired,
    Unauthorized,
    InvalidRules,
    InsufficientBalance,
    TransferFailed,
    InvalidAmount,
    AssetNotFound,
}

/// What leaves escrow when a commitment is closed: `amount` goes to the
/// owner, `penalty` stays in escrow.
#[derive(Clone, Copy, Debug, PartialEq, Eq, Structural)]
pub struct Payout {
    pub amount: i128,
    pub penalty: i128,
}

impl Payout {
    /// The transfer to make to the owner: only a positive amount is sent.
    pub fn transfer_amount(&self) -> (r: Option<i128>)
        ensures
            r == (if self.amount > 0 { Some(self.amount) } else { None::<i128> }),
    {
        if self.amount > 0 {
            Some(self.amount)
        } else {
            None
        }
    }
}

pub open spec fn in_value_range(v: int) -> bool {
    -VALUE_BOUND <= v <= VALUE_BOUND
}

/// Both monetary fields of a commitment lie within `VALUE_BOUND`.
pub open spec fn values_in_range(c: Commitment) -> bool {
    in_value_range(c.amount as int) && in_value_range(c.current_value as int)
}

/// Percentage loss of `current_value` against `amount`, rounded down;
/// `0` when there is no positive principal.
pub open spec fn loss_percent_of(amount: int, current_value: int) -> int {
    if amount > 0 {
        ((amount - current_value) * 100) / amount
    } else {
        0
    }
}

/// The part of `value` forfeited under a penalty of `percent` percent.
pub open spec fn penalty_of(value: int, percent: int) -> int {
    (value * percent) / 100
}

/// The duration rule has run out: it is set and `now` has reached expiry.
pub open spec fn expired_at(c: Commitment, now: u64) -> bool {
    c.rules.duration_days > 0 && now >= c.expires_at
}

pub open spec fn loss_violated(c: Commitment) -> bool {
    loss_percent_of(c.amount as int, c.current_value as int) > c.rules.max_loss_percent as int
}

/// Either rule is broken, whatever the status.
pub open spec fn rules_broken(c: Commitment, now: u64) -> bool {
    loss_violated(c) || expired_at(c, now)
}

/// The ledger's violation predicate: only an active commitment is evaluated.
pub open spec fn violated_at(c: Commitment, now: u64) -> bool {
    c.status == Status::Active && rules_broken(c, now)
}

/// Percentage loss of `current_value` against `amount`, rounded down, `0`
/// when `amount` is not positive.
pub fn loss_percent(amount: i128, current_value: i128) -> (r: i128)
    requires
        in_value_range(amount as int),
        in_value_range(current_value as int),
    ensures
        r == loss_percent_of(amount as int, current_value as int),
{
    if amount > 0 {
        let scaled: i128 = (amount - current_value) * 100;
        match scaled.checked_div_euclid(amount) {
            Some(q) => q,
            None => {
                proof {
                    if scaled >= 0 {
                        assert(0 <= scaled as int / amount as int <= scaled as int) by (nonlinear_arith)
                            requires scaled >= 0, amount > 0;
                    } else {
                        assert(scaled as int <= scaled as int / amount as int <= 0) by (nonlinear_arith)
                            requires scaled < 0, amount > 0;
                    }
                }
                0
            }
        }
    } else {
        0
    }
}

/// Whether both monetary fields of `c` lie within `VALUE_BOUND`, as the
/// percentage computations on it require.
pub fn values_fit(c: &Commitment) -> (r: bool)
    ensures
        r == values_in_range(*c),
{
    -VALUE_BOUND <= c.amount && c.amount <= VALUE_BOUND && -VALUE_BOUND <= c.current_value
        && c.current_value <= VALUE_BOUND
}

} // verus!
