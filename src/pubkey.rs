use vstd::prelude::*;

verus! {

/// A 32-byte account identity.
#[derive(Clone, Copy, Debug)]
pub struct Pubkey {
    pub bytes: [u8; 32],
}

impl View for Pubkey {
    type V = Seq<u8>;

    open spec fn view(&self) -> Seq<u8> {
        self.bytes@
    }
}

/// The identity whose bytes are all zero.
pub open spec fn is_zero_key(k: Seq<u8>) -> bool {
    forall|i: int| 0 <= i < k.len() ==> k[i] == 0
}

impl Pubkey {
    /// The all-zero identity.
    pub fn zeroed() -> (r: Pubkey)
        ensures
            r@.len() == 32,
            is_zero_key(r@),
    {
        Pubkey { bytes: [0u8; 32] }
    }

    /// Builds an identity from its bytes.
    pub fn new_from_array(bytes: [u8; 32]) -> (r: Pubkey)
        ensures
            r@ == bytes@,
    {
        Pubkey { bytes }
    }

    /// The identity's bytes.
    pub fn to_bytes(&self) -> (r: [u8; 32])
        ensures
            r@ == self@,
    {
        self.bytes
    }

    /// Whether every byte is zero.
    pub fn is_zero(&self) -> (r: bool)
        ensures
            r == is_zero_key(self@),
    {
        let mut i: usize = 0;
        while i < 32
            invariant
                0 <= i <= 32,
                self@.len() == 32,
                forall|j: int| 0 <= j < i ==> self@[j] == 0,
            decreases 32 - i,
        {
            if self.bytes[i] != 0 {
                return false;
            }
            i = i + 1;
        }
        true
    }

    /// Byte-wise equality of two identities.
    pub fn same_as(&self, other: &Pubkey) -> (r: bool)
        ensures
            r == (self@ == other@),
    {
        let mut i: usize = 0;
        while i < 32
            invariant
                0 <= i <= 32,
                self@.len() == 32,
                other@.len() == 32,
                forall|j: int| 0 <= j < i ==> self@[j] == other@[j],
            decreases 32 - i,
        {
            if self.bytes[i] != other.bytes[i] {
                return false;
            }
            i = i + 1;
        }
        assert(self@ =~= other@);
        true
    }
}

/// An identity that may be absent; on the wire, all-zero bytes mean absent.
#[derive(Clone, Copy, Debug)]
pub struct OptionalNonZeroPubkey {
    pub key: Pubkey,
}

impl OptionalNonZeroPubkey {
    /// The identity held, if any.
    pub open spec fn spec_option(&self) -> Option<Seq<u8>> {
        if is_zero_key(self.key@) {
            None
        } else {
            Some(self.key@)
        }
    }

    /// The absent identity.
    pub fn none() -> (r: OptionalNonZeroPubkey)
        ensures
            r.spec_option() is None,
    {
        OptionalNonZeroPubkey { key: Pubkey::zeroed() }
    }

    /// Encodes an optional identity; a present all-zero identity cannot be
    /// told apart from absence and is refused.
    pub fn try_from_option(k: Option<Pubkey>) -> (r: Result<OptionalNonZeroPubkey, crate::error::RebaseMintError>)
        ensures
            match k {
                None => r matches Ok(o) && o.spec_option() is None,
                Some(p) => if is_zero_key(p@) {
                    r == Err::<OptionalNonZeroPubkey, _>(crate::error::RebaseMintError::InvalidArgument)
                } else {
                    r matches Ok(o) && o.spec_option() == Some(p@)
                },
            },
    {
        match k {
            None => Ok(OptionalNonZeroPubkey::none()),
            Some(p) => {
                if p.is_zero() {
                    Err(crate::error::RebaseMintError::InvalidArgument)
                } else {
                    Ok(OptionalNonZeroPubkey { key: p })
                }
            },
        }
    }

    /// Decodes to an optional identity.
    pub fn to_option(&self) -> (r: Option<Pubkey>)
        ensures
            match r {
                None => self.spec_option() is None,
                Some(p) => self.spec_option() == Some(p@),
            },
    {
        if self.key.is_zero() {
            None
        } else {
            Some(self.key)
        }
    }
}

impl Default for OptionalNonZeroPubkey {
    /// The absent identity.
    fn default() -> (r: OptionalNonZeroPubkey)
        ensures
            r.spec_option() is None,
    {
        OptionalNonZeroPubkey::none()
    }
}

} // verus!
