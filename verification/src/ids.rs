//! Stable id newtypes shared across the capability traits.

use vstd::prelude::*;

use crate::text::{decimal, hex_byte, hex_digit, push_decimal, push_hex_byte};

verus! {

/// Record identifier. Stable `u64` newtype.
#[derive(Copy, Clone, PartialEq, Eq, Structural, Hash, Debug, Ord, PartialOrd)]
pub struct RecordId(pub u64);

impl RecordId {
    /// Raw numeric value.
    pub fn get(self) -> (r: u64)
        ensures
            r == self.0,
    {
        self.0
    }

    /// The id holding `v`.
    pub fn from(v: u64) -> (r: Self)
        ensures
            r.0 == v,
    {
        RecordId(v)
    }

    /// Decimal rendering of the id, as its `Display` form writes it.
    pub fn to_string(&self) -> (s: String)
        ensures
            s@ == decimal(self.0 as nat),
    {
        let mut s = String::new();
        push_decimal(&mut s, self.0);
        assert(Seq::<char>::empty() + decimal(self.0 as nat) =~= decimal(self.0 as nat));
        s
    }
}

/// Tenant identifier: an engine-neutral 16-byte handle on one isolated
/// memory unit.
#[derive(Copy, Clone, Hash, Debug, Ord, PartialOrd, PartialEq, Eq)]
pub struct TenantId(pub [u8; 16]);

/// The bytes rendered as lowercase hexadecimal, two digits per byte.
pub open spec fn hex_bytes(bs: Seq<u8>) -> Seq<char>
    decreases bs.len(),
{
    if bs.len() == 0 {
        Seq::empty()
    } else {
        hex_bytes(bs.drop_last()) + hex_byte(bs.last())
    }
}

impl TenantId {
    /// The all-zero id, used as anonymous / single-tenant sentinel.
    #[allow(non_snake_case)]
    pub fn ZERO() -> (t: Self)
        ensures
            forall|i: int| 0 <= i < 16 ==> #[trigger] t.0@[i] == 0,
    {
        TenantId([0u8; 16])
    }

    /// Raw bytes view.
    pub fn as_bytes(&self) -> (b: &[u8; 16])
        ensures
            *b == self.0,
    {
        &self.0
    }

    /// Construct from raw bytes.
    pub fn from_bytes(b: [u8; 16]) -> (t: Self)
        ensures
            t.0 == b,
    {
        TenantId(b)
    }

    /// True iff every byte is zero.
    pub open spec fn spec_is_zero(&self) -> bool {
        forall|i: int| 0 <= i < 16 ==> #[trigger] self.0@[i] == 0
    }

    /// True iff this is the all-zero sentinel.
    pub fn is_zero(&self) -> (z: bool)
        ensures
            z == self.spec_is_zero(),
    {
        let mut i: usize = 0;
        while i < 16
            invariant
                i <= 16,
                forall|j: int| 0 <= j < i ==> #[trigger] self.0@[j] == 0,
            decreases 16 - i,
        {
            if self.0[i] != 0 {
                return false;
            }
            i = i + 1;
        }
        true
    }

    /// The id as 32 lowercase hexadecimal digits, as its `Display` form
    /// writes it.
    pub fn to_string(&self) -> (s: String)
        ensures
            s@ == hex_bytes(self.0@),
    {
        let mut s = String::new();
        let mut i: usize = 0;
        while i < 16
            invariant
                i <= 16,
                self.0@.len() == 16,
                s@ == hex_bytes(self.0@.take(i as int)),
            decreases 16 - i,
        {
            push_hex_byte(&mut s, self.0[i]);
            assert(self.0@.take(i + 1).drop_last() =~= self.0@.take(i as int));
            i = i + 1;
        }
        assert(self.0@.take(16) =~= self.0@);
        s
    }
}

/// Every id renders to exactly 32 characters, all of them lowercase
/// hexadecimal digits.
pub proof fn lemma_hex_bytes_shape(bs: Seq<u8>)
    ensures
        hex_bytes(bs).len() == 2 * bs.len(),
        forall|i: int|
            0 <= i < hex_bytes(bs).len() ==> {
                let c = #[trigger] hex_bytes(bs)[i];
                ('0' <= c <= '9') || ('a' <= c <= 'f')
            },
    decreases bs.len(),
{
    if bs.len() > 0 {
        lemma_hex_bytes_shape(bs.drop_last());
        let b = bs.last();
        assert(0 <= b / 16 < 16);
        assert(0 <= b % 16 < 16);
        let prev = hex_bytes(bs.drop_last());
        assert forall|i: int| 0 <= i < hex_bytes(bs).len() implies {
            let c = #[trigger] hex_bytes(bs)[i];
            ('0' <= c <= '9') || ('a' <= c <= 'f')
        } by {
            if i < prev.len() {
                assert(hex_bytes(bs)[i] == prev[i]);
            } else {
                let d = if i == prev.len() { (b / 16) as nat } else { (b % 16) as nat };
                assert(hex_bytes(bs)[i] == hex_digit(d));
            }
        }
    }
}

} // verus!
