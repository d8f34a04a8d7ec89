use vstd::prelude::*;
use crate::error::RebaseMintError;
use crate::pubkey::OptionalNonZeroPubkey;
use crate::ui::{format_ui_amount, parse_ui_amount, ui_amount_value, ui_text};
use vstd::string::StringSliceAdditionalSpecFns;

verus! {

/// The fixed-point scale of the rounding-error carry: one share is this many units.
pub const CARRY_SCALE: u64 = 10000;

/// `n / d` rounded to the nearest integer, halves rounded up.
pub open spec fn round_div(n: int, d: int) -> int {
    n / d + if 2 * (n % d) >= d { 1int } else { 0int }
}

/// `x` clamped to the range of `u64`.
pub open spec fn saturate(x: int) -> int {
    if x > u64::MAX { u64::MAX as int } else { x }
}

/// `x * num / den` rounded to the nearest integer and clamped to `u64`;
/// with a zero denominator the value is taken one for one.
pub open spec fn convert(num: int, den: int, x: int) -> int {
    if den == 0 { x } else { saturate(round_div(x * num, den)) }
}

/// The exact share count after a rebase to `new_supply`, plus the banked carry,
/// in carry units (ten thousandths of a share), rounded to the nearest unit.
/// With no supply yet there is no ratio to keep, and shares restart one for one.
pub open spec fn rebase_units(supply: int, shares: int, carry: int, new_supply: int) -> int {
    if supply == 0 {
        new_supply * CARRY_SCALE + carry
    } else {
        round_div(shares * new_supply * CARRY_SCALE, supply) + carry
    }
}

/// Extension data kept for a mint with elastic supply.
#[derive(Clone, Copy, Debug)]
pub struct RebaseMintConfig {
    /// Current nominal supply of the token.
    pub total_supply: u64,
    /// Internal units of proportional ownership.
    pub total_shares: u64,
    /// Authority that may rebase the supply; absent means never.
    pub supply_authority: OptionalNonZeroPubkey,
    /// Fraction of a share not yet realized, in units of `1 / CARRY_SCALE`.
    pub rounding_error_carry: u16,
}

impl RebaseMintConfig {
    /// The carry never reaches a whole share.
    pub open spec fn wf(&self) -> bool {
        self.rounding_error_carry < CARRY_SCALE
    }

    /// Fresh extension data: supply and shares start one for one.
    pub fn new(supply_authority: OptionalNonZeroPubkey, initial_supply: u64) -> (r: RebaseMintConfig)
        ensures
            r.wf(),
            r.total_supply == initial_supply,
            r.total_shares == initial_supply,
            r.supply_authority == supply_authority,
            r.rounding_error_carry == 0,
    {
        RebaseMintConfig {
            total_supply: initial_supply,
            total_shares: initial_supply,
            supply_authority,
            rounding_error_carry: 0,
        }
    }

    /// Converts a token amount to shares at the current ratio.
    pub fn amount_to_shares(&self, amount: u64) -> (r: u64)
        ensures
            r == convert(self.total_shares as int, self.total_supply as int, amount as int),
    {
        mul_div_round(amount, self.total_shares, self.total_supply)
    }

    /// Converts shares to a token amount at the current ratio.
    pub fn shares_to_amount(&self, shares: u64) -> (r: u64)
        ensures
            r == convert(self.total_supply as int, self.total_shares as int, shares as int),
    {
        mul_div_round(shares, self.total_supply, self.total_shares)
    }

    /// The token amount worth `shares`, written with exactly `decimals`
    /// fractional digits; always `Some`.
    pub fn shares_to_ui_amount(&self, shares: u64, decimals: u8) -> (r: Option<String>)
        ensures
            r matches Some(t) && t@ == ui_text(
                convert(self.total_supply as int, self.total_shares as int, shares as int) as nat,
                decimals as nat,
            ),
    {
        let amount = self.shares_to_amount(shares);
        Some(format_ui_amount(amount, decimals))
    }

    /// The shares worth the token amount written as `ui_amount` at `decimals`
    /// decimal places; `InvalidArgument` when the text is no non-negative
    /// decimal number or the amount does not fit in `u64`.
    pub fn try_ui_amount_into_shares(&self, ui_amount: &str, decimals: u8) -> (r: Result<u64, RebaseMintError>)
        ensures
            r == match ui_amount_value(ui_amount.spec_bytes(), decimals as nat) {
                Ok(a) => Ok(
                    convert(self.total_shares as int, self.total_supply as int, a as int) as u64,
                ),
                Err(e) => Err(e),
            },
    {
        match parse_ui_amount(ui_amount, decimals) {
            Ok(amount) => Ok(self.amount_to_shares(amount)),
            Err(e) => Err(e),
        }
    }
}

impl RebaseMintConfig {
    /// The extension data after a rebase to `new_supply`, or why it is refused.
    ///
    /// The new share count is the old one scaled by `new_supply / total_supply`,
    /// plus the banked carry; its whole part becomes `total_shares` and the
    /// remaining fraction, to the nearest `1 / CARRY_SCALE`, the new carry.
    /// A share count that no longer fits in 64 bits has no value to store, so
    /// such a rebase is refused with `Overflow` rather than clamped.
    pub open spec fn rebased(self, new_supply: u16) -> Result<RebaseMintConfig, RebaseMintError> {
        let units = rebase_units(
            self.total_supply as int,
            self.total_shares as int,
            self.rounding_error_carry as int,
            new_supply as int,
        );
        if new_supply == 0 {
            Err(RebaseMintError::InvalidSupply)
        } else if units / (CARRY_SCALE as int) > u64::MAX {
            Err(RebaseMintError::Overflow)
        } else {
            Ok(
                RebaseMintConfig {
                    total_supply: new_supply as u64,
                    total_shares: (units / (CARRY_SCALE as int)) as u64,
                    rounding_error_carry: (units % (CARRY_SCALE as int)) as u16,
                    ..self
                },
            )
        }
    }

    /// Rescales the supply to `new_supply`, keeping every holder's proportion;
    /// on an error nothing changes.
    pub fn rebase(&mut self, new_supply: u16) -> (r: Result<(), RebaseMintError>)
        ensures
            match old(self).rebased(new_supply) {
                Ok(c) => r is Ok && *final(self) == c && c.wf(),
                Err(e) => r == Err::<(), _>(e) && *final(self) == *old(self),
            },
    {
        if new_supply == 0 {
            return Err(RebaseMintError::InvalidSupply);
        }
        let scale: u128 = CARRY_SCALE as u128;
        let carry: u128 = self.rounding_error_carry as u128;
        let units: u128 = if self.total_supply == 0 {
            (new_supply as u128) * scale + carry
        } else {
            assert((self.total_shares as int) * (new_supply as int) * 10000
                <= (u64::MAX as int) * 0x10000 * 10000) by (nonlinear_arith);
            let p: u128 = (self.total_shares as u128) * (new_supply as u128) * scale;
            let d: u128 = self.total_supply as u128;
            let q: u128 = p / d;
            let rem: u128 = p % d;
            assert(q <= p) by (nonlinear_arith)
                requires
                    d >= 1,
                    q == p / d,
            ;
            let rounded: u128 = if 2 * rem >= d { q + 1 } else { q };
            rounded + carry
        };
        let whole: u128 = units / scale;
        if whole > u64::MAX as u128 {
            return Err(RebaseMintError::Overflow);
        }
        self.total_shares = whole as u64;
        self.rounding_error_carry = (units % scale) as u16;
        self.total_supply = new_supply as u64;
        Ok(())
    }
}

impl Default for RebaseMintConfig {
    /// No supply, no shares, no carry and no authority.
    fn default() -> (r: RebaseMintConfig)
        ensures
            r.wf(),
            r.total_supply == 0,
            r.total_shares == 0,
            r.rounding_error_carry == 0,
            r.supply_authority.spec_option() is None,
    {
        RebaseMintConfig::new(OptionalNonZeroPubkey::none(), 0)
    }
}

/// `x * num / den` rounded half up and clamped to `u64`; `x` itself when `den` is zero.
fn mul_div_round(x: u64, num: u64, den: u64) -> (r: u64)
    ensures
        r == convert(num as int, den as int, x as int),
{
    if den == 0 {
        return x;
    }
    assert((x as int) * (num as int) <= (u64::MAX as int) * (u64::MAX as int)) by (nonlinear_arith);
    let p: u128 = (x as u128) * (num as u128);
    let q: u128 = p / (den as u128);
    let rem: u128 = p % (den as u128);
    let rounded: u128 = if 2 * rem >= den as u128 { q + 1 } else { q };
    if rounded > u64::MAX as u128 {
        u64::MAX
    } else {
        rounded as u64
    }
}

} // verus!
