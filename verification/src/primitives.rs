//! Plain values of the Ethereum state.

use vstd::prelude::*;

verus! {

/// The address of an account.
pub type Address = [u8; 20];

/// A 32-byte word, such as a storage key, a storage value or a hash.
pub type Word = [u8; 32];

/// The number that `bytes` spells, most significant byte first.
pub open spec fn be_value(bytes: Seq<u8>) -> nat
    decreases bytes.len(),
{
    if bytes.len() == 0 {
        0
    } else {
        256 * be_value(bytes.drop_last()) + bytes.last() as nat
    }
}

/// Whether two words have the same bytes from `i` on.
spec fn agree_from(x: Seq<u8>, y: Seq<u8>, i: int) -> bool {
    &&& x.len() == 32
    &&& y.len() == 32
    &&& forall|m: int| i <= m < 32 ==> x[m] == y[m]
}

/// The largest number that `bytes` bytes hold.
spec fn largest_in(bytes: int) -> int
    decreases bytes,
{
    if bytes <= 0 {
        0
    } else {
        256 * largest_in(bytes - 1) + 255
    }
}

/// Leading zero bytes spell zero.
pub(crate) proof fn lemma_be_value_of_zeros(bytes: Seq<u8>)
    requires
        forall|m: int| 0 <= m < bytes.len() ==> bytes[m] == 0,
    ensures
        be_value(bytes) == 0,
    decreases bytes.len(),
{
    if bytes.len() > 0 {
        lemma_be_value_of_zeros(bytes.drop_last());
    }
}

/// An unsigned 256-bit number, kept as its 32 bytes, most significant byte first.
#[derive(Clone, Copy, Debug, PartialEq, Eq)]
pub struct U256 {
    /// The bytes of the number.
    pub be_bytes: [u8; 32],
}

impl View for U256 {
    type V = nat;

    open spec fn view(&self) -> nat {
        be_value(self.be_bytes@)
    }
}

impl Default for U256 {
    fn default() -> (result: Self)
        ensures
            result.be_bytes@ == Seq::new(32, |i: int| 0u8),
    {
        let result = U256 { be_bytes: [0u8; 32] };
        assert(result.be_bytes@ =~= Seq::new(32, |i: int| 0u8));
        result
    }
}

impl U256 {
    /// The number `value`.
    pub fn from_u64(value: u64) -> (result: Self)
        ensures
            result@ == value,
    {
        let mut be_bytes: [u8; 32] = [0u8; 32];
        let mut rest: u64 = value;
        let mut i: usize = 32;
        assert(rest <= largest_in(8)) by {
            reveal_with_fuel(largest_in, 9);
        }
        assert forall|x: Seq<u8>| #[trigger]
            agree_from(x, be_bytes@, 32) && be_value(x.take(32)) == rest implies be_value(x)
            == value by {
            assert(x.take(32) =~= x);
        }
        while i > 24
            invariant
                24 <= i <= 32,
                rest <= largest_in(i - 24),
                forall|m: int| 0 <= m < i ==> be_bytes@[m] == 0,
                forall|x: Seq<u8>| #[trigger]
                    agree_from(x, be_bytes@, i as int) && be_value(x.take(i as int)) == rest
                        ==> be_value(x) == value,
            decreases i,
        {
            let ghost before = be_bytes@;
            let ghost whole = rest;
            i = i - 1;
            be_bytes[i] = (rest % 256) as u8;
            rest = rest / 256;
            assert forall|x: Seq<u8>| #[trigger]
                agree_from(x, be_bytes@, i as int) && be_value(x.take(i as int))
                    == rest implies be_value(x) == value by {
                assert(agree_from(x, before, i + 1));
                assert(x.take(i + 1).drop_last() =~= x.take(i as int));
                assert(x.take(i + 1).last() == be_bytes@[i as int]);
                assert(be_value(x.take(i + 1)) == whole);
            }
        }
        proof {
            lemma_be_value_of_zeros(be_bytes@.take(24));
            assert(agree_from(be_bytes@, be_bytes@, 24));
        }
        U256 { be_bytes }
    }
}

} // verus!
