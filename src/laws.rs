use vstd::prelude::*;
use crate::error::RebaseMintError;
use crate::instruction::{InitializeInstructionData, RebaseSupplyData};
use crate::processor::{
    applied, authority_outcome, initialize_outcome, rebase_outcome, MintAccount, Multisig,
    SignerInfo,
};
use crate::state::{convert, rebase_units, round_div, RebaseMintConfig, CARRY_SCALE};

verus! {

/// Rounding `n / d` to the nearest integer moves it by at most half a unit.
pub proof fn lemma_round_div_close(n: int, d: int)
    requires
        n >= 0,
        d > 0,
    ensures
        -d < 2 * (round_div(n, d) * d - n) <= d,
        round_div(n, d) >= 0,
{
    vstd::arithmetic::div_mod::lemma_fundamental_div_mod(n, d);
    vstd::arithmetic::div_mod::lemma_mod_bound(n, d);
    assert(n / d >= 0) by {
        vstd::arithmetic::div_mod::lemma_div_pos_is_pos(n, d);
    }
    assert(round_div(n, d) * d == (n / d) * d + if 2 * (n % d) >= d { d } else { 0 }) by (
    nonlinear_arith)
        requires
            round_div(n, d) == n / d + if 2 * (n % d) >= d { 1int } else { 0int },
    ;
}

/// Without supply, amounts convert to shares one for one; without shares,
/// shares convert to amounts one for one.
pub proof fn lemma_empty_side_identity(config: RebaseMintConfig, x: u64)
    ensures
        config.total_supply == 0 ==> convert(
            config.total_shares as int,
            config.total_supply as int,
            x as int,
        ) == x,
        config.total_shares == 0 ==> convert(
            config.total_supply as int,
            config.total_shares as int,
            x as int,
        ) == x,
{
}

/// Converting an amount to shares and back gives it again within one unit,
/// when there are at least half as many shares as supply units and the share
/// count fits in `u64`.
pub proof fn lemma_round_trip(config: RebaseMintConfig, amount: u64)
    requires
        config.total_supply > 0,
        2 * config.total_shares >= config.total_supply,
        round_div(amount * config.total_shares, config.total_supply as int) <= u64::MAX,
    ensures
        ({
            let shares = convert(
                config.total_shares as int,
                config.total_supply as int,
                amount as int,
            );
            let back = convert(config.total_supply as int, config.total_shares as int, shares);
            amount - 1 <= back <= amount + 1
        }),
{
    let t = config.total_supply as int;
    let s = config.total_shares as int;
    let a = amount as int;
    assert(a * s >= 0) by (nonlinear_arith)
        requires
            a >= 0,
            s >= 0,
    ;
    lemma_round_div_close(a * s, t);
    let q = round_div(a * s, t);
    assert(convert(s, t, a) == q);
    assert(q * t >= 0) by (nonlinear_arith)
        requires
            q >= 0,
            t >= 0,
    ;
    lemma_round_div_close(q * t, s);
    let y = round_div(q * t, s);
    assert(-3 * s < 2 * (y * s - a * s) <= 3 * s);
    assert(a - 1 <= y <= a + 1) by (nonlinear_arith)
        requires
            -3 * s < 2 * (y * s - a * s) <= 3 * s,
            s > 0,
    ;
}

/// Applies the rebases to `supplies`, in order, as long as they succeed.
pub open spec fn rebase_all(config: RebaseMintConfig, supplies: Seq<u16>) -> Result<
    RebaseMintConfig,
    RebaseMintError,
>
    decreases supplies.len(),
{
    if supplies.len() == 0 {
        Ok(config)
    } else {
        match config.rebased(supplies[0]) {
            Ok(next) => rebase_all(next, supplies.drop_first()),
            Err(e) => Err(e),
        }
    }
}

/// After any run of successful rebases the carry stays below one share.
pub proof fn lemma_carry_stays_below_one_share(config: RebaseMintConfig, supplies: Seq<u16>)
    requires
        config.wf(),
    ensures
        rebase_all(config, supplies) matches Ok(last) ==> last.wf()
            && last.rounding_error_carry < CARRY_SCALE,
    decreases supplies.len(),
{
    if supplies.len() > 0 {
        if let Ok(next) = config.rebased(supplies[0]) {
            lemma_carry_stays_below_one_share(next, supplies.drop_first());
        }
    }
}

/// The share count one rebase calls for, in carry units, before the carry is
/// added.
pub open spec fn step_units(config: RebaseMintConfig, new_supply: u16) -> int {
    rebase_units(config.total_supply as int, config.total_shares as int, 0, new_supply as int)
}

/// Sum of the share counts realized by a run of rebases.
pub open spec fn realized_shares_sum(config: RebaseMintConfig, supplies: Seq<u16>) -> int
    decreases supplies.len(),
{
    if supplies.len() == 0 {
        0
    } else {
        match config.rebased(supplies[0]) {
            Ok(next) => next.total_shares + realized_shares_sum(next, supplies.drop_first()),
            Err(_) => 0,
        }
    }
}

/// Sum of the share counts that a run of rebases calls for, in carry units.
pub open spec fn called_units_sum(config: RebaseMintConfig, supplies: Seq<u16>) -> int
    decreases supplies.len(),
{
    if supplies.len() == 0 {
        0
    } else {
        match config.rebased(supplies[0]) {
            Ok(next) => step_units(config, supplies[0]) + called_units_sum(
                next,
                supplies.drop_first(),
            ),
            Err(_) => 0,
        }
    }
}

/// One rebase calls for the exact scaled share count to within half a carry
/// unit, and realizes it, together with the carry, to the unit.
pub proof fn lemma_rebase_step_exact(config: RebaseMintConfig, new_supply: u16)
    requires
        config.total_supply > 0,
        config.rebased(new_supply) is Ok,
    ensures
        ({
            let t = config.total_supply as int;
            let exact = config.total_shares as int * new_supply as int * CARRY_SCALE as int;
            -t < 2 * (step_units(config, new_supply) * t - exact) <= t
        }),
        ({
            let next = config.rebased(new_supply)->Ok_0;
            next.total_shares * CARRY_SCALE + next.rounding_error_carry == step_units(
                config,
                new_supply,
            ) + config.rounding_error_carry
        }),
{
    let exact = config.total_shares as int * new_supply as int * CARRY_SCALE as int;
    assert(exact >= 0) by (nonlinear_arith)
        requires
            exact == config.total_shares as int * new_supply as int * 10000,
    ;
    lemma_round_div_close(exact, config.total_supply as int);
    let units = rebase_units(
        config.total_supply as int,
        config.total_shares as int,
        config.rounding_error_carry as int,
        new_supply as int,
    );
    vstd::arithmetic::div_mod::lemma_fundamental_div_mod(units, CARRY_SCALE as int);
}

/// Over any run of successful rebases, the realized shares plus the final
/// carry equal the share counts called for plus the first carry; so the
/// realized total differs from what was called for by less than one share.
pub proof fn lemma_drift_below_one_share(config: RebaseMintConfig, supplies: Seq<u16>)
    requires
        config.wf(),
        rebase_all(config, supplies) is Ok,
    ensures
        ({
            let last = rebase_all(config, supplies)->Ok_0;
            realized_shares_sum(config, supplies) * CARRY_SCALE + last.rounding_error_carry
                == called_units_sum(config, supplies) + config.rounding_error_carry
        }),
        -(CARRY_SCALE as int) < realized_shares_sum(config, supplies) * CARRY_SCALE
            - called_units_sum(config, supplies) < CARRY_SCALE,
    decreases supplies.len(),
{
    lemma_carry_stays_below_one_share(config, supplies);
    if supplies.len() > 0 {
        let next = config.rebased(supplies[0])->Ok_0;
        let units = rebase_units(
            config.total_supply as int,
            config.total_shares as int,
            config.rounding_error_carry as int,
            supplies[0] as int,
        );
        vstd::arithmetic::div_mod::lemma_fundamental_div_mod(units, CARRY_SCALE as int);
        assert(next.total_shares * CARRY_SCALE + next.rounding_error_carry == step_units(
            config,
            supplies[0],
        ) + config.rounding_error_carry);
        lemma_drift_below_one_share(next, supplies.drop_first());
    }
}

/// A rebase to zero supply by a valid authority is refused with
/// `InvalidSupply` and leaves the mint as it was.
pub proof fn lemma_zero_supply_refused(
    before: MintAccount,
    owner: SignerInfo,
    multisig: Option<Multisig>,
    signers: Seq<SignerInfo>,
    r: Result<(), RebaseMintError>,
    after: MintAccount,
)
    requires
        before.is_initialized,
        before.rebase_config is Some,
        authority_outcome(before.rebase_config->0, owner, multisig, signers) is Ok,
        applied(
            rebase_outcome(before, Some(owner), multisig, signers, RebaseSupplyData { new_supply: 0 }),
            r,
            before,
            after,
        ),
    ensures
        r == Err::<(), _>(RebaseMintError::InvalidSupply),
        after == before,
{
}

/// A rebase whose signers do not satisfy the configured authority is refused
/// with an authority error, whatever supply it asks for, and leaves the mint
/// as it was.
pub proof fn lemma_unauthorized_refused(
    before: MintAccount,
    owner: SignerInfo,
    multisig: Option<Multisig>,
    signers: Seq<SignerInfo>,
    data: RebaseSupplyData,
    r: Result<(), RebaseMintError>,
    after: MintAccount,
)
    requires
        before.is_initialized,
        before.rebase_config is Some,
        authority_outcome(before.rebase_config->0, owner, multisig, signers) is Err,
        applied(rebase_outcome(before, Some(owner), multisig, signers, data), r, before, after),
    ensures
        r == Err::<(), _>(authority_outcome(before.rebase_config->0, owner, multisig, signers)->Err_0),
        r == Err::<(), _>(RebaseMintError::NoAuthorityExists) || r == Err::<(), _>(
            RebaseMintError::OwnerMismatch,
        ) || r == Err::<(), _>(RebaseMintError::MissingRequiredSignature),
        after == before,
{
}

/// A rebase presented by an account other than the configured authority is
/// refused with `OwnerMismatch` and leaves the mint as it was.
pub proof fn lemma_other_signer_refused(
    before: MintAccount,
    owner: SignerInfo,
    multisig: Option<Multisig>,
    signers: Seq<SignerInfo>,
    data: RebaseSupplyData,
    r: Result<(), RebaseMintError>,
    after: MintAccount,
)
    requires
        before.is_initialized,
        before.rebase_config matches Some(c) && c.supply_authority.spec_option() matches Some(k)
            && k != owner.key@,
        applied(rebase_outcome(before, Some(owner), multisig, signers, data), r, before, after),
    ensures
        r == Err::<(), _>(RebaseMintError::OwnerMismatch),
        after == before,
{
}

/// Once the extension is set up, setting it up again is refused with
/// `ExtensionAlreadyInitialized`.
pub proof fn lemma_initialize_once(
    mint: MintAccount,
    first: InitializeInstructionData,
    second: InitializeInstructionData,
)
    requires
        initialize_outcome(mint, first) is Ok,
    ensures
        initialize_outcome(initialize_outcome(mint, first)->Ok_0, second) == Err::<
            MintAccount,
            _,
        >(RebaseMintError::ExtensionAlreadyInitialized),
{
}

} // verus!
