use vstd::prelude::*;
use crate::error::RebaseMintError;
use crate::instruction::{from_le16, InitializeInstructionData, RebaseMintInstruction, RebaseSupplyData};
use crate::pubkey::Pubkey;
use crate::state::RebaseMintConfig;

verus! {

/// A mint account, as far as this extension is concerned.
#[derive(Clone, Copy, Debug)]
pub struct MintAccount {
    /// Whether the base mint fields have been initialized.
    pub is_initialized: bool,
    /// The rebase extension's data, once it has been set up.
    pub rebase_config: Option<RebaseMintConfig>,
}

/// An account presented as the authority of an instruction.
#[derive(Clone, Copy, Debug)]
pub struct SignerInfo {
    pub key: Pubkey,
    pub is_signer: bool,
}

/// A multisignature authority: its member identities and how many of them
/// must sign.
#[derive(Clone, Debug)]
pub struct Multisig {
    /// Number of member signatures required.
    pub m: u8,
    /// The member identities, by position.
    pub members: Vec<Pubkey>,
}

/// Some signing account among `signers` is `member`.
pub open spec fn member_signed(member: Seq<u8>, signers: Seq<SignerInfo>) -> bool {
    exists|j: int| 0 <= j < signers.len() && (#[trigger] signers[j]).key@ == member && signers[j].is_signer
}

/// How many of the first `n` member positions have signed.
pub open spec fn signed_count(members: Seq<Pubkey>, signers: Seq<SignerInfo>, n: int) -> nat
    decreases n,
{
    if n <= 0 {
        0
    } else {
        signed_count(members, signers, n - 1) + if member_signed(members[n - 1]@, signers) {
            1nat
        } else {
            0nat
        }
    }
}

impl MintAccount {
    /// Every extension data held satisfies its invariant.
    pub open spec fn wf(&self) -> bool {
        self.rebase_config matches Some(c) ==> c.wf()
    }
}

/// The mint after `Initialize`, or why it is refused.
pub open spec fn initialize_outcome(mint: MintAccount, data: InitializeInstructionData) -> Result<
    MintAccount,
    RebaseMintError,
> {
    if mint.is_initialized {
        Err(RebaseMintError::AlreadyInUse)
    } else if mint.rebase_config is Some {
        Err(RebaseMintError::ExtensionAlreadyInitialized)
    } else {
        Ok(
            MintAccount {
                rebase_config: Some(
                    RebaseMintConfig {
                        total_supply: data.initial_supply as u64,
                        total_shares: data.initial_supply as u64,
                        supply_authority: data.supply_authority,
                        rounding_error_carry: 0,
                    },
                ),
                ..mint
            },
        )
    }
}

/// Whether `owner` may act for the configured authority of `config`. A
/// single authority must sign itself; for a multisignature authority
/// (`multisig` holds its record) at least `m` member positions must be
/// matched by a signing account among `signers`.
pub open spec fn authority_outcome(
    config: RebaseMintConfig,
    owner: SignerInfo,
    multisig: Option<Multisig>,
    signers: Seq<SignerInfo>,
) -> Result<(), RebaseMintError> {
    match config.supply_authority.spec_option() {
        None => Err(RebaseMintError::NoAuthorityExists),
        Some(k) => if owner.key@ != k {
            Err(RebaseMintError::OwnerMismatch)
        } else {
            match multisig {
                Some(ms) => if signed_count(ms.members@, signers, ms.members@.len() as int)
                    >= ms.m {
                    Ok(())
                } else {
                    Err(RebaseMintError::MissingRequiredSignature)
                },
                None => if !owner.is_signer {
                    Err(RebaseMintError::MissingRequiredSignature)
                } else {
                    Ok(())
                },
            }
        },
    }
}

/// The mint after `RebaseSupply`, or why it is refused. Every check comes
/// before any change.
pub open spec fn rebase_outcome(
    mint: MintAccount,
    owner: Option<SignerInfo>,
    multisig: Option<Multisig>,
    signers: Seq<SignerInfo>,
    data: RebaseSupplyData,
) -> Result<MintAccount, RebaseMintError> {
    if owner is None {
        Err(RebaseMintError::NotEnoughAccountKeys)
    } else if !mint.is_initialized {
        Err(RebaseMintError::UninitializedState)
    } else if mint.rebase_config is None {
        Err(RebaseMintError::ExtensionNotFound)
    } else {
        let config = mint.rebase_config->0;
        match authority_outcome(config, owner->0, multisig, signers) {
            Err(e) => Err(e),
            Ok(_) => match config.rebased(data.new_supply) {
                Err(e) => Err(e),
                Ok(c) => Ok(MintAccount { rebase_config: Some(c), ..mint }),
            },
        }
    }
}

/// Whether some signing account among `signers` is `member`.
fn has_signed(member: &Pubkey, signers: &[SignerInfo]) -> (r: bool)
    ensures
        r == member_signed(member@, signers@),
{
    let mut j: usize = 0;
    while j < signers.len()
        invariant
            j <= signers@.len(),
            forall|i: int| 0 <= i < j ==> !((#[trigger] signers@[i]).key@ == member@ && signers@[i].is_signer),
        decreases signers@.len() - j,
    {
        if signers[j].is_signer && signers[j].key.same_as(member) {
            return true;
        }
        j = j + 1;
    }
    false
}

/// How many member positions of `multisig` have signed.
fn count_signed(multisig: &Multisig, signers: &[SignerInfo]) -> (r: usize)
    ensures
        r == signed_count(multisig.members@, signers@, multisig.members@.len() as int),
{
    let mut count: usize = 0;
    let mut i: usize = 0;
    while i < multisig.members.len()
        invariant
            i <= multisig.members@.len(),
            count <= i,
            count == signed_count(multisig.members@, signers@, i as int),
        decreases multisig.members@.len() - i,
    {
        if has_signed(&multisig.members[i], signers) {
            count = count + 1;
        }
        i = i + 1;
    }
    count
}

/// Checks `owner` (and, for a multisignature authority, `signers`) against
/// the configured authority.
fn validate_authority(
    config: &RebaseMintConfig,
    owner: &SignerInfo,
    multisig: &Option<Multisig>,
    signers: &[SignerInfo],
) -> (r: Result<(), RebaseMintError>)
    ensures
        r == authority_outcome(*config, *owner, *multisig, signers@),
{
    match config.supply_authority.to_option() {
        None => Err(RebaseMintError::NoAuthorityExists),
        Some(k) => {
            if !owner.key.same_as(&k) {
                Err(RebaseMintError::OwnerMismatch)
            } else {
                match multisig {
                    Some(ms) => {
                        if count_signed(ms, signers) >= ms.m as usize {
                            Ok(())
                        } else {
                            Err(RebaseMintError::MissingRequiredSignature)
                        }
                    },
                    None => {
                        if !owner.is_signer {
                            Err(RebaseMintError::MissingRequiredSignature)
                        } else {
                            Ok(())
                        }
                    },
                }
            }
        },
    }
}

/// Sets up the extension on a mint whose base fields are not initialized yet.
pub fn process_initialize(mint: &mut MintAccount, data: &InitializeInstructionData) -> (r: Result<
    (),
    RebaseMintError,
>)
    ensures
        applied(initialize_outcome(*old(mint), *data), r, *old(mint), *final(mint)),
{
    if mint.is_initialized {
        return Err(RebaseMintError::AlreadyInUse);
    }
    if mint.rebase_config.is_some() {
        return Err(RebaseMintError::ExtensionAlreadyInitialized);
    }
    mint.rebase_config = Some(
        RebaseMintConfig::new(data.supply_authority, data.initial_supply as u64),
    );
    Ok(())
}

/// Rescales the supply of the mint, when `owner` may act for its authority.
/// `multisig` is the record of `owner` when that account is a
/// multisignature authority; `signers` are the accounts that follow it.
pub fn process_rebase_supply(
    mint: &mut MintAccount,
    owner: Option<SignerInfo>,
    multisig: &Option<Multisig>,
    signers: &[SignerInfo],
    data: &RebaseSupplyData,
) -> (r: Result<(), RebaseMintError>)
    ensures
        applied(
            rebase_outcome(*old(mint), owner, *multisig, signers@, *data),
            r,
            *old(mint),
            *final(mint),
        ),
{
    let owner = match owner {
        None => return Err(RebaseMintError::NotEnoughAccountKeys),
        Some(o) => o,
    };
    if !mint.is_initialized {
        return Err(RebaseMintError::UninitializedState);
    }
    let mut config = match mint.rebase_config {
        None => return Err(RebaseMintError::ExtensionNotFound),
        Some(c) => c,
    };
    validate_authority(&config, &owner, multisig, signers)?;
    match config.rebase(data.new_supply) {
        Err(e) => Err(e),
        Ok(()) => {
            mint.rebase_config = Some(config);
            Ok(())
        },
    }
}

/// `r` and `after` are what `outcome` calls for: on success its mint, on an
/// error that error and the mint as it was.
pub open spec fn applied(
    outcome: Result<MintAccount, RebaseMintError>,
    r: Result<(), RebaseMintError>,
    before: MintAccount,
    after: MintAccount,
) -> bool {
    match outcome {
        Ok(m) => r is Ok && after == m,
        Err(e) => r == Err::<(), _>(e) && after == before,
    }
}

/// Decodes the instruction `input` (opcode, then payload) and carries it out.
/// `owner` is the account presented as the authority, if any; `multisig` and
/// `signers` are as for `process_rebase_supply`.
pub fn process_instruction(
    mint: &mut MintAccount,
    owner: Option<SignerInfo>,
    multisig: &Option<Multisig>,
    signers: &[SignerInfo],
    input: &[u8],
) -> (r: Result<(), RebaseMintError>)
    ensures
        input@.len() == 0 || input@[0] > 1 ==> r == Err::<(), _>(
            RebaseMintError::InvalidInstructionData,
        ) && *final(mint) == *old(mint),
        input@.len() > 0 && input@[0] == RebaseMintInstruction::Initialize.spec_code() ==> {
            if input@.len() != 35 {
                r == Err::<(), _>(RebaseMintError::InvalidInstructionData) && *final(mint) == *old(mint)
            } else {
                exists|d: InitializeInstructionData|
                    d.spec_pack() == input@.drop_first() && applied(
                        initialize_outcome(*old(mint), d),
                        r,
                        *old(mint),
                        *final(mint),
                    )
            }
        },
        input@.len() > 0 && input@[0] == RebaseMintInstruction::RebaseSupply.spec_code() ==> {
            if input@.len() != 3 {
                r == Err::<(), _>(RebaseMintError::InvalidInstructionData) && *final(mint) == *old(mint)
            } else {
                applied(
                    rebase_outcome(*old(mint), owner, *multisig, signers@, RebaseSupplyData { new_supply: from_le16(input@[1], input@[2]) }),
                    r,
                    *old(mint),
                    *final(mint),
                )
            }
        },
{
    if input.len() == 0 {
        return Err(RebaseMintError::InvalidInstructionData);
    }
    let (_, payload) = input.split_at(1);
    assert(payload@ =~= input@.drop_first());
    match RebaseMintInstruction::try_from_u8(input[0])? {
        RebaseMintInstruction::Initialize => {
            let data = InitializeInstructionData::unpack(payload)?;
            process_initialize(mint, &data)
        },
        RebaseMintInstruction::RebaseSupply => {
            let data = RebaseSupplyData::unpack(payload)?;
            assert(data.new_supply == from_le16(input@[1], input@[2]));
            process_rebase_supply(mint, owner, multisig, signers, &data)
        },
    }
}

} // verus!
