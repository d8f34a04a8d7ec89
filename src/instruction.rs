use vstd::prelude::*;
use crate::error::RebaseMintError;
use crate::pubkey::{OptionalNonZeroPubkey, Pubkey, is_zero_key};

verus! {

/// The two operations of the extension, by their one-byte opcode.
#[derive(Clone, Copy, Debug, PartialEq, Eq, Structural)]
pub enum RebaseMintInstruction {
    /// Sets up the extension on a mint whose base fields are not yet initialized.
    Initialize,
    /// Rescales the total supply; only the supply authority may do so.
    RebaseSupply,
}

impl RebaseMintInstruction {
    pub open spec fn spec_code(self) -> u8 {
        match self {
            RebaseMintInstruction::Initialize => 0,
            RebaseMintInstruction::RebaseSupply => 1,
        }
    }

    /// The opcode byte.
    pub fn into_u8(self) -> (r: u8)
        ensures
            r == self.spec_code(),
    {
        match self {
            RebaseMintInstruction::Initialize => 0,
            RebaseMintInstruction::RebaseSupply => 1,
        }
    }

    /// The operation with opcode `code`.
    pub fn try_from_u8(code: u8) -> (r: Result<RebaseMintInstruction, RebaseMintError>)
        ensures
            match r {
                Ok(i) => i.spec_code() == code,
                Err(e) => e == RebaseMintError::InvalidInstructionData && code > 1,
            },
    {
        if code == 0 {
            Ok(RebaseMintInstruction::Initialize)
        } else if code == 1 {
            Ok(RebaseMintInstruction::RebaseSupply)
        } else {
            Err(RebaseMintError::InvalidInstructionData)
        }
    }
}

/// Little-endian bytes of a 16-bit value.
pub open spec fn le16(v: u16) -> Seq<u8> {
    seq![(v % 256) as u8, (v / 256) as u8]
}

/// The 16-bit value of two little-endian bytes.
pub open spec fn from_le16(lo: u8, hi: u8) -> u16 {
    (lo as int + 256 * hi as int) as u16
}

fn u16_to_le(v: u16, out: &mut Vec<u8>)
    ensures
        final(out)@ == old(out)@ + le16(v),
{
    out.push((v % 256) as u8);
    out.push((v / 256) as u8);
    assert(out@ =~= old(out)@ + le16(v));
}

/// Payload of `Initialize`.
#[derive(Clone, Copy, Debug)]
pub struct InitializeInstructionData {
    /// Who may rebase the supply; absent disables rebasing for good.
    pub supply_authority: OptionalNonZeroPubkey,
    /// The supply (and share count) the mint starts with.
    pub initial_supply: u16,
}

impl InitializeInstructionData {
    /// Wire form: the 32 authority bytes (all zero when absent), then the
    /// initial supply in little-endian order.
    pub open spec fn spec_pack(self) -> Seq<u8> {
        self.supply_authority.key@ + le16(self.initial_supply)
    }

    /// Encodes the payload.
    pub fn pack(&self) -> (r: Vec<u8>)
        ensures
            r@ == self.spec_pack(),
    {
        let mut out: Vec<u8> = Vec::new();
        let mut i: usize = 0;
        while i < 32
            invariant
                i <= 32,
                self.supply_authority.key@.len() == 32,
                out@ == self.supply_authority.key@.take(i as int),
            decreases 32 - i,
        {
            out.push(self.supply_authority.key.bytes[i]);
            assert(out@ =~= self.supply_authority.key@.take(i + 1));
            i = i + 1;
        }
        assert(out@ =~= self.supply_authority.key@);
        u16_to_le(self.initial_supply, &mut out);
        out
    }

    /// Decodes a payload of exactly 34 bytes.
    pub fn unpack(data: &[u8]) -> (r: Result<InitializeInstructionData, RebaseMintError>)
        ensures
            match r {
                Ok(d) => data@.len() == 34 && d.spec_pack() == data@,
                Err(e) => e == RebaseMintError::InvalidInstructionData && data@.len() != 34,
            },
    {
        if data.len() != 34 {
            return Err(RebaseMintError::InvalidInstructionData);
        }
        let mut key: [u8; 32] = [0u8; 32];
        let mut i: usize = 0;
        while i < 32
            invariant
                i <= 32,
                data@.len() == 34,
                key@.len() == 32,
                forall|j: int| 0 <= j < i ==> key@[j] == data@[j],
            decreases 32 - i,
        {
            key[i] = data[i];
            i = i + 1;
        }
        let supply: u16 = data[32] as u16 + 256 * data[33] as u16;
        let d = InitializeInstructionData {
            supply_authority: OptionalNonZeroPubkey { key: Pubkey::new_from_array(key) },
            initial_supply: supply,
        };
        assert(d.spec_pack() =~= data@);
        Ok(d)
    }
}

/// Payload of `RebaseSupply`.
#[derive(Clone, Copy, Debug, PartialEq, Eq, Structural)]
pub struct RebaseSupplyData {
    /// The new total supply of the token.
    pub new_supply: u16,
}

impl RebaseSupplyData {
    /// Wire form: the new supply in little-endian order.
    pub open spec fn spec_pack(self) -> Seq<u8> {
        le16(self.new_supply)
    }

    /// Encodes the payload.
    pub fn pack(&self) -> (r: Vec<u8>)
        ensures
            r@ == self.spec_pack(),
    {
        let mut out: Vec<u8> = Vec::new();
        u16_to_le(self.new_supply, &mut out);
        assert(out@ =~= self.spec_pack());
        out
    }

    /// Decodes a payload of exactly two bytes.
    pub fn unpack(data: &[u8]) -> (r: Result<RebaseSupplyData, RebaseMintError>)
        ensures
            match r {
                Ok(d) => data@.len() == 2 && d.spec_pack() == data@,
                Err(e) => e == RebaseMintError::InvalidInstructionData && data@.len() != 2,
            },
    {
        if data.len() != 2 {
            return Err(RebaseMintError::InvalidInstructionData);
        }
        let d = RebaseSupplyData { new_supply: data[0] as u16 + 256 * data[1] as u16 };
        assert(d.spec_pack() =~= data@);
        Ok(d)
    }
}

/// One account that an instruction names.
#[derive(Clone, Copy, Debug)]
pub struct AccountMeta {
    pub pubkey: Pubkey,
    pub is_signer: bool,
    pub is_writable: bool,
}

/// An instruction for the token program: the accounts it names and its data,
/// the opcode followed by the payload.
#[derive(Clone, Debug)]
pub struct Instruction {
    pub program_id: Pubkey,
    pub accounts: Vec<AccountMeta>,
    pub data: Vec<u8>,
}

/// Whether `m` names `key` with the given signer and writable flags.
pub open spec fn meta_is(m: AccountMeta, key: Seq<u8>, is_signer: bool, is_writable: bool) -> bool {
    m.pubkey@ == key && m.is_signer == is_signer && m.is_writable == is_writable
}

/// Wire bytes of an optional identity: 32 zero bytes when absent.
pub open spec fn optional_key_bytes(k: Option<Pubkey>) -> Seq<u8> {
    match k {
        Some(p) => p@,
        None => Seq::new(32, |i: int| 0u8),
    }
}

/// Builds an `Initialize` instruction; a present all-zero authority cannot be
/// encoded and gives `InvalidArgument`.
pub fn initialize(
    token_program_id: &Pubkey,
    mint: &Pubkey,
    supply_authority: Option<Pubkey>,
    initial_supply: u16,
) -> (r: Result<Instruction, RebaseMintError>)
    ensures
        match r {
            Ok(ix) => {
                &&& !(supply_authority matches Some(k) && is_zero_key(k@))
                &&& ix.program_id@ == token_program_id@
                &&& ix.accounts@.len() == 1
                &&& meta_is(ix.accounts@[0], mint@, false, true)
                &&& ix.data@ == seq![RebaseMintInstruction::Initialize.spec_code()]
                    + optional_key_bytes(supply_authority) + le16(initial_supply)
            },
            Err(e) => {
                &&& e == RebaseMintError::InvalidArgument
                &&& supply_authority matches Some(k)
                &&& is_zero_key(k@)
            },
        },
{
    let authority = OptionalNonZeroPubkey::try_from_option(supply_authority)?;
    let accounts = vec![AccountMeta { pubkey: *mint, is_signer: false, is_writable: true }];
    let payload = InitializeInstructionData { supply_authority: authority, initial_supply };
    let mut data: Vec<u8> = vec![RebaseMintInstruction::Initialize.into_u8()];
    let mut packed = payload.pack();
    data.append(&mut packed);
    assert(authority.key@ =~= optional_key_bytes(supply_authority));
    assert(data@ =~= seq![RebaseMintInstruction::Initialize.spec_code()]
        + optional_key_bytes(supply_authority) + le16(initial_supply));
    Ok(Instruction { program_id: *token_program_id, accounts, data })
}

/// Builds a `RebaseSupply` instruction. A single authority signs itself; a
/// multisignature authority is named read-only, followed by its signers.
pub fn update_supply(
    token_program_id: &Pubkey,
    mint: &Pubkey,
    supply_authority: &Pubkey,
    signers: &[Pubkey],
    new_supply: u16,
) -> (r: Result<Instruction, RebaseMintError>)
    requires
        signers@.len() + 2 <= usize::MAX,
    ensures
        r matches Ok(ix) && {
            &&& ix.program_id@ == token_program_id@
            &&& ix.accounts@.len() == signers@.len() + 2
            &&& meta_is(ix.accounts@[0], mint@, false, true)
            &&& meta_is(ix.accounts@[1], supply_authority@, signers@.len() == 0, false)
            &&& forall|i: int|
                0 <= i < signers@.len() ==> meta_is(
                    #[trigger] ix.accounts@[i + 2],
                    signers@[i]@,
                    true,
                    false,
                )
            &&& ix.data@ == seq![RebaseMintInstruction::RebaseSupply.spec_code()] + le16(new_supply)
        },
{
    let mut accounts = vec![
        AccountMeta { pubkey: *mint, is_signer: false, is_writable: true },
        AccountMeta { pubkey: *supply_authority, is_signer: signers.len() == 0, is_writable: false },
    ];
    let mut i: usize = 0;
    while i < signers.len()
        invariant
            i <= signers@.len(),
            accounts@.len() == i + 2,
            meta_is(accounts@[0], mint@, false, true),
            meta_is(accounts@[1], supply_authority@, signers@.len() == 0, false),
            forall|j: int|
                0 <= j < i ==> meta_is(#[trigger] accounts@[j + 2], signers@[j]@, true, false),
        decreases signers@.len() - i,
    {
        accounts.push(AccountMeta { pubkey: signers[i], is_signer: true, is_writable: false });
        i = i + 1;
    }
    let payload = RebaseSupplyData { new_supply };
    let mut data: Vec<u8> = vec![RebaseMintInstruction::RebaseSupply.into_u8()];
    let mut packed = payload.pack();
    data.append(&mut packed);
    assert(data@ =~= seq![RebaseMintInstruction::RebaseSupply.spec_code()] + le16(new_supply));
    Ok(Instruction { program_id: *token_program_id, accounts, data })
}

} // verus!
