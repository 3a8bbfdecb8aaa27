//! What bytes are as numbers, and how numbers and accounts are written.

use crate::hashed_state::Account;
use crate::primitives::U256;
use vstd::prelude::*;

verus! {

/// The first byte is the most significant one: it counts for as many as the bytes behind it can
/// spell. No bytes spell zero.
pub proof fn lemma_first_byte_is_most_significant(byte: u8, rest: Seq<u8>)
    ensures
        crate::primitives::be_value(Seq::empty()) == 0,
        crate::primitives::be_value(seq![byte] + rest) == byte * vstd::arithmetic::power::pow(256, rest.len())
            + crate::primitives::be_value(rest),
        crate::primitives::be_value(rest) < vstd::arithmetic::power::pow(256, rest.len()),
    decreases rest.len(),
{
    reveal(vstd::arithmetic::power::pow);
    if rest.len() > 0 {
        let front = rest.drop_last();
        lemma_first_byte_is_most_significant(byte, front);
        assert((seq![byte] + rest).drop_last() =~= seq![byte] + front);
        assert((seq![byte] + rest).last() == rest.last());
        assert(256 * (byte * vstd::arithmetic::power::pow(256, front.len())) == byte * (256 * vstd::arithmetic::power::pow(256, front.len())))
            by (nonlinear_arith);
    } else {
        assert((seq![byte] + rest).drop_last() =~= Seq::<u8>::empty());
        assert((seq![byte] + rest).last() == byte);
        assert(byte * vstd::arithmetic::power::pow(256, 0) == byte) by {
            vstd::arithmetic::power::lemma_pow0(256);
        }
    }
}

/// Of two byte strings of one length, the one with the larger byte at the first place where they
/// differ is the larger number.
pub proof fn lemma_first_difference_decides(front: Seq<u8>, x: u8, y: u8, xs: Seq<u8>, ys: Seq<u8>)
    requires
        xs.len() == ys.len(),
        x < y,
    ensures
        crate::primitives::be_value(front + seq![x] + xs) < crate::primitives::be_value(
            front + seq![y] + ys,
        ),
    decreases front.len(),
{
    if front.len() == 0 {
        assert(front + seq![x] + xs =~= seq![x] + xs);
        assert(front + seq![y] + ys =~= seq![y] + ys);
        lemma_first_byte_is_most_significant(x, xs);
        lemma_first_byte_is_most_significant(y, ys);
        let p = vstd::arithmetic::power::pow(256, xs.len());
        assert(x * p + p <= y * p) by (nonlinear_arith)
            requires
                x < y,
                p >= 0,
        {
            assert((x + 1) * p <= y * p);
        }
    } else {
        let rest = front.drop_first();
        lemma_first_difference_decides(rest, x, y, xs, ys);
        assert(front + seq![x] + xs =~= seq![front[0]] + (rest + seq![x] + xs));
        assert(front + seq![y] + ys =~= seq![front[0]] + (rest + seq![y] + ys));
        lemma_first_byte_is_most_significant(front[0], rest + seq![x] + xs);
        lemma_first_byte_is_most_significant(front[0], rest + seq![y] + ys);
    }
}

/// The number that a `u64` becomes is that number, whose last eight bytes spell it and whose other
/// bytes are zero. Numbers are the same exactly where they have the same bytes.
pub proof fn lemma_number_of_u64(value: u64, number: U256, other: U256)
    requires
        call_ensures(U256::from_u64, (value,), number),
    ensures
        number@ == value,
        crate::primitives::be_value(number.be_bytes@) == value,
        other@ == number@ <==> other.be_bytes@ == number.be_bytes@,
{
    if other@ == number@ {
        crate::compact::lemma_be_value_is_injective(other.be_bytes@, number.be_bytes@);
    }
}

/// The default number is zero.
pub proof fn lemma_default_number(number: U256)
    requires
        call_ensures(<U256 as Default>::default, (), number),
    ensures
        number@ == 0,
        forall|i: int| 0 <= i < 32 ==> #[trigger] number.be_bytes@[i] == 0,
{
    crate::primitives::lemma_be_value_of_zeros(number.be_bytes@);
}

/// A number is written by bytes that spell it and do not start with a zero byte.
pub proof fn lemma_numbers_are_written_without_leading_zeros(value: nat)
    ensures
        crate::primitives::be_value(crate::compact::minimal_be(value)) == value,
        crate::compact::minimal_be(value).len() > 0 ==> crate::compact::minimal_be(value)[0] != 0,
        value == 0 <==> crate::compact::minimal_be(value).len() == 0,
    decreases value,
{
    crate::compact::lemma_minimal_be_spells(value);
    if value > 0 {
        lemma_numbers_are_written_without_leading_zeros(value / 256);
        if value / 256 == 0 {
            assert(crate::compact::minimal_be(0).len() == 0);
            assert(value % 256 == value);
        }
    }
}

/// The leading bytes of an encoded account hold the length of its nonce, the length of its balance
/// and whether it has a code hash. The bytes of the nonce, of the balance and of the hash follow, in
/// this order, and nothing else.
pub proof fn lemma_encoded_account(account: Account)
    ensures
        ({
            let bytes = crate::compact::account_encoding(account);
            let nonce = bytes[0] as int % 16;
            let balance = bytes[0] as int / 16 + 16 * (bytes[1] as int % 4);
            let hash = if account.bytecode_hash is Some {
                32int
            } else {
                0int
            };
            &&& bytes.len() == 2 + nonce + balance + hash
            &&& nonce <= 8 && balance <= 32
            &&& bytes[1] as int / 4 == hash / 32
            &&& crate::primitives::be_value(bytes.subrange(2, 2 + nonce)) == account.nonce
            &&& crate::primitives::be_value(bytes.subrange(2 + nonce, 2 + nonce + balance))
                == account.balance@
            &&& account.bytecode_hash is Some ==> bytes.skip(2 + nonce + balance)
                == account.bytecode_hash->0@
            &&& nonce > 0 ==> bytes[2] != 0
            &&& balance > 0 ==> bytes[2 + nonce] != 0
        }),
{
    let bytes = crate::compact::account_encoding(account);
    crate::compact::lemma_account_comes_back(account, Seq::empty());
    assert(bytes + Seq::<u8>::empty() =~= bytes);
    lemma_numbers_are_written_without_leading_zeros(account.nonce as nat);
    lemma_numbers_are_written_without_leading_zeros(account.balance@);
    crate::compact::lemma_account_encoding_is_short(account);
    let nonce = crate::compact::minimal_be(account.nonce as nat);
    let balance = crate::compact::minimal_be(account.balance@);
    assert(crate::compact::nonce_len(bytes) == nonce.len());
    assert(nonce.len() > 0 ==> bytes[2] == nonce[0]);
    assert(balance.len() > 0 ==> bytes[2 + nonce.len() as int] == balance[0]);
    if account.bytecode_hash is Some {
        assert(bytes.skip(2 + nonce.len() as int + balance.len()) =~= account.bytecode_hash->0@);
    }
}

/// An account can be read from bytes exactly where the lengths in their leading bytes are possible
/// and the bytes are all there.
pub proof fn lemma_readable_accounts(bytes: &[u8], result: bool)
    requires
        call_ensures(crate::compact::can_read_account, (bytes,), result),
    ensures
        bytes@.len() < 2 ==> !result,
        bytes@.len() >= 2 ==> {
            let nonce = bytes@[0] as int % 16;
            let balance = bytes@[0] as int / 16 + 16 * (bytes@[1] as int % 4);
            let hash = 32 * (bytes@[1] as int / 4 % 2);
            result <==> nonce <= 8 && balance <= 32 && 2 + nonce + balance + hash <= bytes@.len()
        },
{
}

} // verus!
