use rebase_mint::error::RebaseMintError;
use rebase_mint::instruction::{
    initialize, update_supply, InitializeInstructionData, RebaseMintInstruction, RebaseSupplyData,
};
use rebase_mint::processor::{
    process_initialize, process_instruction, process_rebase_supply, MintAccount, Multisig, SignerInfo,
};
use rebase_mint::pubkey::{OptionalNonZeroPubkey, Pubkey};
use rebase_mint::state::RebaseMintConfig;

fn key(b: u8) -> Pubkey {
    Pubkey::new_from_array([b; 32])
}

fn authority() -> OptionalNonZeroPubkey {
    OptionalNonZeroPubkey::try_from_option(Some(key(7))).unwrap()
}

fn signed(b: u8) -> Option<SignerInfo> {
    Some(SignerInfo { key: key(b), is_signer: true })
}

/// A mint with the extension set up and its base fields initialized.
fn ready_mint(supply: u16) -> MintAccount {
    let mut mint = MintAccount { is_initialized: false, rebase_config: None };
    let data = InitializeInstructionData { supply_authority: authority(), initial_supply: supply };
    assert_eq!(process_initialize(&mut mint, &data), Ok(()));
    mint.is_initialized = true;
    mint
}

fn config_of(mint: &MintAccount) -> RebaseMintConfig {
    mint.rebase_config.unwrap()
}

fn same_state(a: &MintAccount, b: &MintAccount) -> bool {
    let (x, y) = (config_of(a), config_of(b));
    a.is_initialized == b.is_initialized
        && x.total_supply == y.total_supply
        && x.total_shares == y.total_shares
        && x.rounding_error_carry == y.rounding_error_carry
}

#[test]
fn initialize_sets_one_for_one() {
    let mint = ready_mint(1000);
    let c = config_of(&mint);
    assert_eq!(c.total_supply, 1000);
    assert_eq!(c.total_shares, 1000);
    assert_eq!(c.rounding_error_carry, 0);
    assert_eq!(c.supply_authority.to_option().unwrap().to_bytes(), [7u8; 32]);
}

#[test]
fn initialize_twice_fails() {
    let mut mint = MintAccount { is_initialized: false, rebase_config: None };
    let data = InitializeInstructionData { supply_authority: authority(), initial_supply: 10 };
    assert_eq!(process_initialize(&mut mint, &data), Ok(()));
    assert_eq!(
        process_initialize(&mut mint, &data),
        Err(RebaseMintError::ExtensionAlreadyInitialized)
    );
    assert_eq!(config_of(&mint).total_supply, 10);
}

#[test]
fn initialize_after_base_mint_fails() {
    let mut mint = MintAccount { is_initialized: true, rebase_config: None };
    let data = InitializeInstructionData { supply_authority: authority(), initial_supply: 10 };
    assert_eq!(process_initialize(&mut mint, &data), Err(RebaseMintError::AlreadyInUse));
    assert!(mint.rebase_config.is_none());
}

#[test]
fn rebase_banks_the_fraction() {
    let mut mint = ready_mint(1000);
    let mut c = config_of(&mint);
    c.total_shares = 500;
    mint.rebase_config = Some(c);
    assert_eq!(process_rebase_supply(&mut mint, signed(7), &None, &[], &RebaseSupplyData { new_supply: 3 }), Ok(()));
    let c = config_of(&mint);
    assert_eq!((c.total_supply, c.total_shares, c.rounding_error_carry), (3, 1, 5000));
    assert_eq!(process_rebase_supply(&mut mint, signed(7), &None, &[], &RebaseSupplyData { new_supply: 7 }), Ok(()));
    let c = config_of(&mint);
    assert_eq!((c.total_supply, c.total_shares, c.rounding_error_carry), (7, 2, 8333));
    assert_eq!(process_rebase_supply(&mut mint, signed(7), &None, &[], &RebaseSupplyData { new_supply: 3 }), Ok(()));
    let c = config_of(&mint);
    assert_eq!((c.total_supply, c.total_shares, c.rounding_error_carry), (3, 1, 6904));
}

#[test]
fn rebase_keeps_proportion() {
    let mut mint = ready_mint(1000);
    assert_eq!(process_rebase_supply(&mut mint, signed(7), &None, &[], &RebaseSupplyData { new_supply: 2000 }), Ok(()));
    let c = config_of(&mint);
    assert_eq!((c.total_supply, c.total_shares, c.rounding_error_carry), (2000, 2000, 0));
    assert_eq!(c.amount_to_shares(500), 500);
}

#[test]
fn carry_and_drift_stay_bounded() {
    let mut mint = ready_mint(997);
    let supplies: [u16; 8] = [13, 65535, 1, 40000, 7, 3, 9999, 12345];
    let mut realized: u128 = 0;
    let mut called: u128 = 0;
    let first_carry = config_of(&mint).rounding_error_carry as u128;
    for round in 0..50 {
        for &n in supplies.iter() {
            let before = config_of(&mint);
            let exact = before.total_shares as u128 * n as u128 * 10000;
            let t = before.total_supply as u128;
            let step = exact / t + if 2 * (exact % t) >= t { 1 } else { 0 };
            let r = process_rebase_supply(&mut mint, signed(7), &None, &[], &RebaseSupplyData { new_supply: n });
            assert_eq!(r, Ok(()), "round {}", round);
            let after = config_of(&mint);
            assert!(after.rounding_error_carry < 10000);
            assert_eq!(
                after.total_shares as u128 * 10000 + after.rounding_error_carry as u128,
                step + before.rounding_error_carry as u128
            );
            realized += after.total_shares as u128;
            called += step;
        }
    }
    let last_carry = config_of(&mint).rounding_error_carry as u128;
    assert_eq!(realized * 10000 + last_carry, called + first_carry);
    let drift = if realized * 10000 > called { realized * 10000 - called } else { called - realized * 10000 };
    assert!(drift < 10000);
}

#[test]
fn zero_supply_is_refused() {
    let mut mint = ready_mint(1000);
    let before = mint;
    assert_eq!(
        process_rebase_supply(&mut mint, signed(7), &None, &[], &RebaseSupplyData { new_supply: 0 }),
        Err(RebaseMintError::InvalidSupply)
    );
    assert!(same_state(&mint, &before));
}

#[test]
fn other_signer_is_refused() {
    let mut mint = ready_mint(1000);
    let before = mint;
    assert_eq!(
        process_rebase_supply(&mut mint, signed(8), &None, &[], &RebaseSupplyData { new_supply: 5 }),
        Err(RebaseMintError::OwnerMismatch)
    );
    assert!(same_state(&mint, &before));
}

#[test]
fn unsigned_authority_is_refused() {
    let mut mint = ready_mint(1000);
    let before = mint;
    let owner = Some(SignerInfo { key: key(7), is_signer: false });
    assert_eq!(
        process_rebase_supply(&mut mint, owner, &None, &[], &RebaseSupplyData { new_supply: 5 }),
        Err(RebaseMintError::MissingRequiredSignature)
    );
    assert!(same_state(&mint, &before));
}

#[test]
fn missing_authority_disables_rebase() {
    let mut mint = MintAccount { is_initialized: false, rebase_config: None };
    let data = InitializeInstructionData { supply_authority: OptionalNonZeroPubkey::none(), initial_supply: 10 };
    assert_eq!(process_initialize(&mut mint, &data), Ok(()));
    mint.is_initialized = true;
    assert_eq!(
        process_rebase_supply(&mut mint, signed(0), &None, &[], &RebaseSupplyData { new_supply: 5 }),
        Err(RebaseMintError::NoAuthorityExists)
    );
}

#[test]
fn rebase_layout_errors() {
    let mut mint = ready_mint(10);
    assert_eq!(
        process_rebase_supply(&mut mint, None, &None, &[], &RebaseSupplyData { new_supply: 5 }),
        Err(RebaseMintError::NotEnoughAccountKeys)
    );
    mint.is_initialized = false;
    assert_eq!(
        process_rebase_supply(&mut mint, signed(7), &None, &[], &RebaseSupplyData { new_supply: 5 }),
        Err(RebaseMintError::UninitializedState)
    );
    let mut bare = MintAccount { is_initialized: true, rebase_config: None };
    assert_eq!(
        process_rebase_supply(&mut bare, signed(7), &None, &[], &RebaseSupplyData { new_supply: 5 }),
        Err(RebaseMintError::ExtensionNotFound)
    );
}

#[test]
fn share_overflow_is_refused() {
    let mut mint = ready_mint(1);
    let mut c = config_of(&mint);
    c.total_shares = u64::MAX;
    mint.rebase_config = Some(c);
    assert_eq!(
        process_rebase_supply(&mut mint, signed(7), &None, &[], &RebaseSupplyData { new_supply: 2 }),
        Err(RebaseMintError::Overflow)
    );
    assert_eq!(config_of(&mint).total_shares, u64::MAX);
    assert_eq!(config_of(&mint).total_supply, 1);
}

#[test]
fn rebase_from_empty_supply_restarts_one_for_one() {
    let mut mint = ready_mint(0);
    assert_eq!(process_rebase_supply(&mut mint, signed(7), &None, &[], &RebaseSupplyData { new_supply: 40 }), Ok(()));
    let c = config_of(&mint);
    assert_eq!((c.total_supply, c.total_shares, c.rounding_error_carry), (40, 40, 0));
}

#[test]
fn opcodes_round_trip() {
    assert_eq!(RebaseMintInstruction::Initialize.into_u8(), 0);
    assert_eq!(RebaseMintInstruction::RebaseSupply.into_u8(), 1);
    assert_eq!(RebaseMintInstruction::try_from_u8(1), Ok(RebaseMintInstruction::RebaseSupply));
    assert_eq!(RebaseMintInstruction::try_from_u8(2), Err(RebaseMintError::InvalidInstructionData));
}

#[test]
fn payloads_encode_little_endian() {
    assert_eq!(RebaseSupplyData { new_supply: 0x1234 }.pack(), vec![0x34, 0x12]);
    assert_eq!(RebaseSupplyData::unpack(&[0x34, 0x12]), Ok(RebaseSupplyData { new_supply: 0x1234 }));
    assert_eq!(RebaseSupplyData::unpack(&[1]), Err(RebaseMintError::InvalidInstructionData));
    let data = InitializeInstructionData { supply_authority: authority(), initial_supply: 0xBEEF };
    let bytes = data.pack();
    assert_eq!(bytes.len(), 34);
    assert_eq!(&bytes[..32], &[7u8; 32]);
    assert_eq!(&bytes[32..], &[0xEF, 0xBE]);
    let back = InitializeInstructionData::unpack(&bytes).unwrap();
    assert_eq!(back.initial_supply, 0xBEEF);
    assert_eq!(back.supply_authority.key.to_bytes(), [7u8; 32]);
    assert!(InitializeInstructionData::unpack(&bytes[..33]).is_err());
}

#[test]
fn optional_key_refuses_present_zero() {
    assert_eq!(
        OptionalNonZeroPubkey::try_from_option(Some(Pubkey::zeroed())).err(),
        Some(RebaseMintError::InvalidArgument)
    );
    assert!(OptionalNonZeroPubkey::try_from_option(None).unwrap().to_option().is_none());
    assert!(key(3).same_as(&key(3)));
    assert!(!key(3).same_as(&key(4)));
}

#[test]
fn initialize_builds_instruction() {
    let ix = initialize(&key(1), &key(2), Some(key(7)), 500).unwrap();
    assert_eq!(ix.program_id.to_bytes(), [1u8; 32]);
    assert_eq!(ix.accounts.len(), 1);
    assert_eq!(ix.accounts[0].pubkey.to_bytes(), [2u8; 32]);
    assert!(ix.accounts[0].is_writable && !ix.accounts[0].is_signer);
    let mut expected = vec![0u8];
    expected.extend_from_slice(&[7u8; 32]);
    expected.extend_from_slice(&[0xF4, 0x01]);
    assert_eq!(ix.data, expected);
    let none = initialize(&key(1), &key(2), None, 1).unwrap();
    assert_eq!(&none.data[1..33], &[0u8; 32]);
    assert_eq!(
        initialize(&key(1), &key(2), Some(Pubkey::zeroed()), 1).err(),
        Some(RebaseMintError::InvalidArgument)
    );
}

#[test]
fn update_supply_builds_instruction() {
    let single = update_supply(&key(1), &key(2), &key(7), &[], 9).unwrap();
    assert_eq!(single.accounts.len(), 2);
    assert!(single.accounts[1].is_signer && !single.accounts[1].is_writable);
    assert_eq!(single.data, vec![1, 9, 0]);
    let multi = update_supply(&key(1), &key(2), &key(7), &[key(8), key(9)], 300).unwrap();
    assert_eq!(multi.accounts.len(), 4);
    assert!(!multi.accounts[1].is_signer);
    assert_eq!(multi.accounts[3].pubkey.to_bytes(), [9u8; 32]);
    assert!(multi.accounts[2].is_signer && multi.accounts[3].is_signer);
    assert_eq!(multi.data, vec![1, 0x2C, 0x01]);
}

#[test]
fn process_instruction_dispatches() {
    let mut mint = MintAccount { is_initialized: false, rebase_config: None };
    let ix = initialize(&key(1), &key(2), Some(key(7)), 1000).unwrap();
    assert_eq!(process_instruction(&mut mint, None, &None, &[], &ix.data), Ok(()));
    assert_eq!(config_of(&mint).total_supply, 1000);
    assert_eq!(
        process_instruction(&mut mint, None, &None, &[], &ix.data),
        Err(RebaseMintError::ExtensionAlreadyInitialized)
    );
    mint.is_initialized = true;
    let ix = update_supply(&key(1), &key(2), &key(7), &[], 250).unwrap();
    assert_eq!(process_instruction(&mut mint, signed(7), &None, &[], &ix.data), Ok(()));
    let c = config_of(&mint);
    assert_eq!((c.total_supply, c.total_shares), (250, 250));
    assert_eq!(process_instruction(&mut mint, signed(7), &None, &[], &[]), Err(RebaseMintError::InvalidInstructionData));
    assert_eq!(process_instruction(&mut mint, signed(7), &None, &[], &[2, 0, 0]), Err(RebaseMintError::InvalidInstructionData));
    assert_eq!(process_instruction(&mut mint, signed(7), &None, &[], &[1, 5]), Err(RebaseMintError::InvalidInstructionData));
    assert_eq!(process_instruction(&mut mint, signed(7), &None, &[], &[1, 0, 0]), Err(RebaseMintError::InvalidSupply));
}

fn multisig_mint() -> MintAccount {
    let mut mint = MintAccount { is_initialized: false, rebase_config: None };
    let data = InitializeInstructionData {
        supply_authority: OptionalNonZeroPubkey::try_from_option(Some(key(50))).unwrap(),
        initial_supply: 100,
    };
    assert_eq!(process_initialize(&mut mint, &data), Ok(()));
    mint.is_initialized = true;
    mint
}

#[test]
fn multisig_quorum_may_rebase() {
    let mut mint = multisig_mint();
    let ms = Some(Multisig { m: 2, members: vec![key(51), key(52), key(53)] });
    let owner = Some(SignerInfo { key: key(50), is_signer: false });
    let signers = [
        SignerInfo { key: key(51), is_signer: true },
        SignerInfo { key: key(53), is_signer: true },
    ];
    assert_eq!(process_rebase_supply(&mut mint, owner, &ms, &signers, &RebaseSupplyData { new_supply: 300 }), Ok(()));
    let c = config_of(&mint);
    assert_eq!((c.total_supply, c.total_shares), (300, 300));
    let ix = update_supply(&key(1), &key(2), &key(50), &[key(51), key(53)], 200).unwrap();
    assert_eq!(process_instruction(&mut mint, owner, &ms, &signers, &ix.data), Ok(()));
    assert_eq!(config_of(&mint).total_supply, 200);
}

#[test]
fn multisig_without_quorum_is_refused() {
    let mut mint = multisig_mint();
    let before = mint;
    let ms = Some(Multisig { m: 2, members: vec![key(51), key(52), key(53)] });
    let owner = Some(SignerInfo { key: key(50), is_signer: false });
    let signers = [
        SignerInfo { key: key(51), is_signer: true },
        SignerInfo { key: key(52), is_signer: false },
        SignerInfo { key: key(9), is_signer: true },
    ];
    assert_eq!(
        process_rebase_supply(&mut mint, owner, &ms, &signers, &RebaseSupplyData { new_supply: 300 }),
        Err(RebaseMintError::MissingRequiredSignature)
    );
    assert!(same_state(&mint, &before));
    let other = Some(SignerInfo { key: key(49), is_signer: true });
    assert_eq!(
        process_rebase_supply(&mut mint, other, &ms, &signers, &RebaseSupplyData { new_supply: 300 }),
        Err(RebaseMintError::OwnerMismatch)
    );
}
