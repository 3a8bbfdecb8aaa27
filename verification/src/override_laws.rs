//! What overriding accounts gives, in terms of the overrides and of what is known of the accounts.

use crate::overrides::{
    AccountCommit, AccountInfo, AccountOverride, Bytecode, OverrideSources, OwnableAccountBytecode,
    StateOverrideError,
};
use crate::primitives::{Address, Word};
use vstd::prelude::*;

verus! {

/// The slots that an override gives, wherever they are given.
pub open spec fn given_slots(account_override: AccountOverride) -> Seq<(Word, Word)> {
    match (account_override.state, account_override.state_diff) {
        (Some(slots), _) => slots@,
        (None, Some(slots)) => slots@,
        (None, None) => Seq::empty(),
    }
}

/// The committed slots are those that the override gives: the key and the present value are the
/// numbers that the given bytes spell, most significant byte first. The original value has, in every
/// byte, what is missing to 255, so it is another number.
pub proof fn lemma_slots_have_the_given_numbers<B, M, D, W, E, X>(
    sources: OverrideSources<B, M, D, W>,
    address: Address,
    account_override: AccountOverride,
    commits: Vec<AccountCommit>,
) where
    B: Fn(&Address) -> Result<Option<AccountInfo>, E>,
    M: Fn() -> AccountInfo,
    D: Fn(&Vec<u8>) -> Result<Bytecode, X>,
    W: Fn(Address, Vec<u8>) -> OwnableAccountBytecode,

    requires
        call_ensures(
            crate::overrides::apply_account_override::<B, M, D, W, E, X>,
            (address, &account_override, &sources),
            Ok(commits),
        ),
    ensures
        slots_given(account_override, commits@),
{
    lemma_committed::<B, M, D, W, E, X>(sources, address, account_override, commits@);
}

/// Whether the committed slots are those that the override gives, as numbers.
pub open spec fn slots_given(account_override: AccountOverride, commits: Seq<AccountCommit>) -> bool {
    &&& commits.len() > 0
    &&& commits.last().storage@.len() == given_slots(account_override).len()
    &&& forall|i: int|
        #![trigger commits.last().storage@[i]]
        0 <= i < given_slots(account_override).len() ==> {
            let (key, value) = given_slots(account_override)[i];
            let (slot, change) = commits.last().storage@[i];
            &&& slot@ == crate::primitives::be_value(key@)
            &&& change.present_value@ == crate::primitives::be_value(value@)
            &&& forall|m: int|
                0 <= m < 32 ==> #[trigger] change.original_value.be_bytes@[m] + value@[m] == 255
            &&& change.original_value@ != change.present_value@
            &&& !change.is_cold
            &&& change.transaction_id == 0
        }
}

/// Slots that are given in another order are committed in that order, and equal bytes give equal
/// numbers: what a slot becomes depends on its own entry alone.
pub proof fn lemma_slots_depend_on_their_entries_alone<B, M, D, W, E, X>(
    sources1: OverrideSources<B, M, D, W>,
    address1: Address,
    override1: AccountOverride,
    commits1: Vec<AccountCommit>,
    sources2: OverrideSources<B, M, D, W>,
    address2: Address,
    override2: AccountOverride,
    commits2: Vec<AccountCommit>,
    i: int,
    j: int,
) where
    B: Fn(&Address) -> Result<Option<AccountInfo>, E>,
    M: Fn() -> AccountInfo,
    D: Fn(&Vec<u8>) -> Result<Bytecode, X>,
    W: Fn(Address, Vec<u8>) -> OwnableAccountBytecode,

    requires
        call_ensures(
            crate::overrides::apply_account_override::<B, M, D, W, E, X>,
            (address1, &override1, &sources1),
            Ok(commits1),
        ),
        call_ensures(
            crate::overrides::apply_account_override::<B, M, D, W, E, X>,
            (address2, &override2, &sources2),
            Ok(commits2),
        ),
        0 <= i < given_slots(override1).len(),
        0 <= j < given_slots(override2).len(),
    ensures
        given_slots(override1)[i].0@ == given_slots(override2)[j].0@
            <==> commits1@.last().storage@[i].0@ == commits2@.last().storage@[j].0@,
        given_slots(override1)[i].1@ == given_slots(override2)[j].1@
            <==> commits1@.last().storage@[i].1.present_value@
            == commits2@.last().storage@[j].1.present_value@,
{
    lemma_slots_have_the_given_numbers::<B, M, D, W, E, X>(
        sources1,
        address1,
        override1,
        commits1,
    );
    lemma_slots_have_the_given_numbers::<B, M, D, W, E, X>(
        sources2,
        address2,
        override2,
        commits2,
    );
    let (key1, value1) = given_slots(override1)[i];
    let (key2, value2) = given_slots(override2)[j];
    let slot1 = commits1@.last().storage@[i];
    let slot2 = commits2@.last().storage@[j];
    if slot1.0@ == slot2.0@ {
        crate::compact::lemma_be_value_is_injective(key1@, key2@);
    }
    if slot1.1.present_value@ == slot2.1.present_value@ {
        crate::compact::lemma_be_value_is_injective(value1@, value2@);
    }
}

/// Whether the database knows `info` of an account, or knows nothing and `info` is the default.
pub open spec fn account_was<B, M, D, W, E>(
    sources: OverrideSources<B, M, D, W>,
    address: Address,
    info: AccountInfo,
) -> bool where
    B: Fn(&Address) -> Result<Option<AccountInfo>, E>,
    M: Fn() -> AccountInfo,
 {
    ||| sources.basic.ensures((&address,), Ok::<Option<AccountInfo>, E>(Some(info)))
    ||| sources.basic.ensures((&address,), Ok::<Option<AccountInfo>, E>(None))
        && sources.default_info.ensures((), info)
}

/// Of an account, what the override names is replaced by what it gives, and what it does not name
/// stays as it was.
pub proof fn lemma_only_named_fields_are_replaced<B, M, D, W, E, X>(
    sources: OverrideSources<B, M, D, W>,
    address: Address,
    account_override: AccountOverride,
    commits: Vec<AccountCommit>,
) where
    B: Fn(&Address) -> Result<Option<AccountInfo>, E>,
    M: Fn() -> AccountInfo,
    D: Fn(&Vec<u8>) -> Result<Bytecode, X>,
    W: Fn(Address, Vec<u8>) -> OwnableAccountBytecode,

    requires
        call_ensures(
            crate::overrides::apply_account_override::<B, M, D, W, E, X>,
            (address, &account_override, &sources),
            Ok(commits),
        ),
    ensures
        fields_given::<B, M, D, W, E>(sources, address, account_override, commits@),
{
    lemma_committed::<B, M, D, W, E, X>(sources, address, account_override, commits@);
}

/// Whether what the override names of an account is replaced by what it gives, and the rest is what it
/// was.
pub open spec fn fields_given<B, M, D, W, E>(
    sources: OverrideSources<B, M, D, W>,
    address: Address,
    account_override: AccountOverride,
    commits: Seq<AccountCommit>,
) -> bool where
    B: Fn(&Address) -> Result<Option<AccountInfo>, E>,
    M: Fn() -> AccountInfo,
 {
    &&& commits.last().info is Some
    &&& exists|was: AccountInfo|
        {
            let now = commits.last().info->0;
            &&& #[trigger] account_was::<B, M, D, W, E>(sources, address, was)
            &&& now.nonce == (if account_override.nonce is Some {
                account_override.nonce->0
            } else {
                was.nonce
            })
            &&& now.balance@ == (if account_override.balance is Some {
                account_override.balance->0@
            } else {
                was.balance@
            })
            &&& account_override.code is None ==> now.code == was.code && now.code_hash
                == was.code_hash
        }
}

/// Overriding code of an account gives, of EVM code, code that the runtime contract runs. What the
/// runtime contract keeps starts with the hash of the overriding code, and the code follows. The
/// account has the hash of the whole code. Code that an owner runs and rWasm leave the account
/// without code, and other code stays as it is, under the hash of the overriding code.
pub proof fn lemma_code_is_handed_to_the_runtime<B, M, D, W, E, X>(
    sources: OverrideSources<B, M, D, W>,
    address: Address,
    account_override: AccountOverride,
    commits: Vec<AccountCommit>,
) where
    B: Fn(&Address) -> Result<Option<AccountInfo>, E>,
    M: Fn() -> AccountInfo,
    D: Fn(&Vec<u8>) -> Result<Bytecode, X>,
    W: Fn(Address, Vec<u8>) -> OwnableAccountBytecode,

    requires
        account_override.code is Some,
        call_ensures(
            crate::overrides::apply_account_override::<B, M, D, W, E, X>,
            (address, &account_override, &sources),
            Ok(commits),
        ),
    ensures
        code_given::<B, M, D, W, X>(sources, account_override, commits@),
{
    lemma_committed::<B, M, D, W, E, X>(sources, address, account_override, commits@);
}

/// Whether the code of an account, and its hash, are what becomes of the overriding code.
pub open spec fn code_given<B, M, D, W, X>(
    sources: OverrideSources<B, M, D, W>,
    account_override: AccountOverride,
    commits: Seq<AccountCommit>,
) -> bool where
    D: Fn(&Vec<u8>) -> Result<Bytecode, X>,
    W: Fn(Address, Vec<u8>) -> OwnableAccountBytecode,
 {
    exists|bytecode: Bytecode|
        {
            let code = account_override.code->0;
            let now = commits.last().info->0;
            &&& #[trigger] sources.decode.ensures(
                (&account_override.code->0,),
                Ok::<Bytecode, X>(bytecode),
            )
            &&& match bytecode {
                Bytecode::LegacyAnalyzed(evm_code) => {
                    &&& now.code matches Some(Bytecode::OwnableAccount(owned))
                    &&& now.code_hash@ == crate::overrides::keccak256_of(owned.raw@)
                    &&& runtime_keeps(sources, code@, evm_code@, owned)
                },
                Bytecode::Other(raw) => {
                    &&& now.code == Some(bytecode)
                    &&& now.code_hash@ == crate::overrides::keccak256_of(code@)
                },
                _ => {
                    &&& now.code is None
                    &&& now.code_hash@ == crate::overrides::keccak256_of(code@)
                },
            }
        }
}

/// What the commits that override an account are.
proof fn lemma_committed<B, M, D, W, E, X>(
    sources: OverrideSources<B, M, D, W>,
    address: Address,
    account_override: AccountOverride,
    commits: Seq<AccountCommit>,
) where
    B: Fn(&Address) -> Result<Option<AccountInfo>, E>,
    M: Fn() -> AccountInfo,
    D: Fn(&Vec<u8>) -> Result<Bytecode, X>,
    W: Fn(Address, Vec<u8>) -> OwnableAccountBytecode,

    requires
        sources.committed::<E, X>(address, account_override, commits),
    ensures
        slots_given(account_override, commits),
        fields_given::<B, M, D, W, E>(sources, address, account_override, commits),
        account_override.code is Some ==> code_given::<B, M, D, W, X>(
            sources,
            account_override,
            commits,
        ),
{
    let slots = given_slots(account_override);
    let storage = commits.last().storage@;
    assert forall|i: int|
        #![trigger storage[i]]
        0 <= i < slots.len() implies {
        let (key, value) = slots[i];
        let (slot, change) = storage[i];
        &&& slot@ == crate::primitives::be_value(key@)
        &&& change.present_value@ == crate::primitives::be_value(value@)
        &&& forall|m: int|
            0 <= m < 32 ==> #[trigger] change.original_value.be_bytes@[m] + value@[m] == 255
        &&& change.original_value@ != change.present_value@
        &&& !change.is_cold
        &&& change.transaction_id == 0
    } by {
        let (key, value) = slots[i];
        let (slot, change) = storage[i];
        assert forall|m: int| 0 <= m < 32 implies #[trigger] change.original_value.be_bytes@[m]
            + value@[m] == 255 by {
            let byte = value@[m];
            assert(byte + !byte == 255) by (bit_vector);
        }
        if change.original_value@ == change.present_value@ {
            crate::compact::lemma_be_value_is_injective(
                change.original_value.be_bytes@,
                change.present_value.be_bytes@,
            );
            let byte = value@[0];
            assert(change.original_value.be_bytes@[0] + byte == 255);
        }
    }
    let now = commits.last().info->0;
    let was = choose|was: AccountInfo|
        {
            &&& #[trigger] sources.starts_from::<E>(address, was)
            &&& sources.replaced::<X>(was, account_override, now)
        };
    assert(account_was::<B, M, D, W, E>(sources, address, was));
    if account_override.code is Some {
        lemma_replaced_code::<B, M, D, W, X>(sources, was, account_override, commits);
    }
}

/// What becomes of overriding code.
proof fn lemma_replaced_code<B, M, D, W, X>(
    sources: OverrideSources<B, M, D, W>,
    was: AccountInfo,
    account_override: AccountOverride,
    commits: Seq<AccountCommit>,
) where
    D: Fn(&Vec<u8>) -> Result<Bytecode, X>,
    W: Fn(Address, Vec<u8>) -> OwnableAccountBytecode,

    requires
        account_override.code is Some,
        sources.replaced::<X>(was, account_override, commits.last().info->0),
    ensures
        code_given::<B, M, D, W, X>(sources, account_override, commits),
{
    let code = account_override.code->0;
    let now = commits.last().info->0;
    let hash = crate::overrides::keccak256_of(code@);
    let bytecode = choose|bytecode: Bytecode|
        {
            &&& #[trigger] sources.decode.ensures((&code,), Ok::<Bytecode, X>(bytecode))
            &&& crate::overrides::override_code(
                bytecode,
                hash,
                sources.evm_runtime,
                sources.wrap,
                now.code,
                now.code_hash@,
            )
        };
    if let Bytecode::LegacyAnalyzed(evm_code) = bytecode {
        let (metadata, owned): (Vec<u8>, OwnableAccountBytecode) = choose|
            metadata: Vec<u8>,
            owned: OwnableAccountBytecode,
        |
            {
                &&& #[trigger] sources.wrap.ensures((sources.evm_runtime, metadata), owned)
                &&& metadata@ == hash + evm_code@
                &&& now.code == Some(Bytecode::OwnableAccount(owned))
                &&& now.code_hash@ == crate::overrides::keccak256_of(owned.raw@)
            };
        assert(runtime_keeps(sources, code@, evm_code@, owned)) by {
            assert(metadata@.take(hash.len() as int) =~= hash);
            assert(metadata@.skip(hash.len() as int) =~= evm_code@);
        }
    }
}

/// Whether `owned` is code that the runtime contract runs, made from the hash of `code` and, behind
/// it, `evm_code`.
pub open spec fn runtime_keeps<B, M, D, W>(
    sources: OverrideSources<B, M, D, W>,
    code: Seq<u8>,
    evm_code: Seq<u8>,
    owned: OwnableAccountBytecode,
) -> bool where W: Fn(Address, Vec<u8>) -> OwnableAccountBytecode {
    exists|metadata: Vec<u8>|
        {
            let hash = crate::overrides::keccak256_of(code);
            &&& #[trigger] sources.wrap.ensures((sources.evm_runtime, metadata), owned)
            &&& metadata@.len() == hash.len() + evm_code.len()
            &&& metadata@.take(hash.len() as int) == hash
            &&& metadata@.skip(hash.len() as int) == evm_code
        }
}

/// The account is touched, and nothing else is changed. It counts as created exactly where its whole
/// storage is given. Then, and only then, a commit before that destroys the account and leaves
/// nothing of it.
pub proof fn lemma_whole_storage_destroys_first<B, M, D, W, E, X>(
    sources: OverrideSources<B, M, D, W>,
    address: Address,
    account_override: AccountOverride,
    commits: Vec<AccountCommit>,
) where
    B: Fn(&Address) -> Result<Option<AccountInfo>, E>,
    M: Fn() -> AccountInfo,
    D: Fn(&Vec<u8>) -> Result<Bytecode, X>,
    W: Fn(Address, Vec<u8>) -> OwnableAccountBytecode,

    requires
        call_ensures(
            crate::overrides::apply_account_override::<B, M, D, W, E, X>,
            (address, &account_override, &sources),
            Ok(commits),
        ),
    ensures
        forall|i: int|
            #![trigger commits@[i]]
            0 <= i < commits@.len() ==> commits@[i].address == address && commits@[i].status.touched
                && commits@[i].transaction_id == 0 && (commits@[i].status.self_destructed <==> i
                < commits@.len() - 1),
        commits@.last().status.created <==> account_override.state is Some,
        account_override.state is Some <==> commits@.len() == 2,
        account_override.state is None <==> commits@.len() == 1,
        account_override.state is Some ==> {
            &&& commits@[0].info is None
            &&& commits@[0].storage@.len() == 0
            &&& !commits@[0].status.created
        },
{
}

/// Whether nothing that overriding an account asks for can fail.
pub open spec fn cannot_fail<B, M, D, W, E, X>(
    sources: OverrideSources<B, M, D, W>,
    address: Address,
    account_override: AccountOverride,
) -> bool where
    B: Fn(&Address) -> Result<Option<AccountInfo>, E>,
    D: Fn(&Vec<u8>) -> Result<Bytecode, X>,
 {
    &&& forall|error: E| !#[trigger]
        sources.basic.ensures((&address,), Err::<Option<AccountInfo>, E>(error))
    &&& account_override.code is Some ==> forall|error: X| !#[trigger]
        sources.decode.ensures((&account_override.code->0,), Err::<Bytecode, X>(error))
}

/// An override is refused with the errors of the database and of decoding, and where both the whole
/// storage and single slots are given. Where nothing fails, it is refused exactly for the latter.
pub proof fn lemma_refusals<B, M, D, W, E, X>(
    sources: OverrideSources<B, M, D, W>,
    address: Address,
    account_override: AccountOverride,
    result: Result<Vec<AccountCommit>, StateOverrideError<E, X>>,
) where
    B: Fn(&Address) -> Result<Option<AccountInfo>, E>,
    M: Fn() -> AccountInfo,
    D: Fn(&Vec<u8>) -> Result<Bytecode, X>,
    W: Fn(Address, Vec<u8>) -> OwnableAccountBytecode,

    requires
        call_ensures(
            crate::overrides::apply_account_override::<B, M, D, W, E, X>,
            (address, &account_override, &sources),
            result,
        ),
    ensures
        result is Ok ==> !(account_override.state is Some && account_override.state_diff is Some),
        cannot_fail::<B, M, D, W, E, X>(sources, address, account_override) ==> {
            &&& result is Err <==> account_override.state is Some && account_override.state_diff is Some
            &&& result is Err ==> result->Err_0
                == StateOverrideError::<E, X>::BothStateAndStateDiff(address)
        },
        result is Err ==> refusal_given::<B, M, D, W, E, X>(
            sources,
            address,
            account_override,
            result->Err_0,
        ),
        callable::<B, M, D, W, E, X>(sources) ==> call_requires(
            crate::overrides::apply_account_override::<B, M, D, W, E, X>,
            (address, &account_override, &sources),
        ),
{
}

/// Whether everything that overriding accounts asks for can be asked for.
pub open spec fn callable<B, M, D, W, E, X>(sources: OverrideSources<B, M, D, W>) -> bool where
    B: Fn(&Address) -> Result<Option<AccountInfo>, E>,
    M: Fn() -> AccountInfo,
    D: Fn(&Vec<u8>) -> Result<Bytecode, X>,
    W: Fn(Address, Vec<u8>) -> OwnableAccountBytecode,
 {
    &&& forall|address: Address| #[trigger] sources.basic.requires((&address,))
    &&& sources.default_info.requires(())
    &&& forall|code: Vec<u8>| #[trigger] sources.decode.requires((&code,))
    &&& forall|owner: Address, metadata: Vec<u8>| #[trigger]
        sources.wrap.requires((owner, metadata))
}

/// Whether `error` is why an account is not overridden: the database fails, or it answers and the code
/// cannot be decoded, or it answers, there is no code or it can be decoded, and both the whole storage
/// and single slots are given.
pub open spec fn refusal_given<B, M, D, W, E, X>(
    sources: OverrideSources<B, M, D, W>,
    address: Address,
    account_override: AccountOverride,
    error: StateOverrideError<E, X>,
) -> bool where
    B: Fn(&Address) -> Result<Option<AccountInfo>, E>,
    D: Fn(&Vec<u8>) -> Result<Bytecode, X>,
 {
    let answers = exists|info: Option<AccountInfo>| #[trigger]
        sources.basic.ensures((&address,), Ok::<Option<AccountInfo>, E>(info));
    let decodes = exists|bytecode: Bytecode| #[trigger]
        sources.decode.ensures((&account_override.code->0,), Ok::<Bytecode, X>(bytecode));
    match error {
        StateOverrideError::Database(cause) => sources.basic.ensures(
            (&address,),
            Err::<Option<AccountInfo>, E>(cause),
        ),
        StateOverrideError::InvalidBytecode(cause) => {
            &&& answers
            &&& account_override.code is Some
            &&& sources.decode.ensures((&account_override.code->0,), Err::<Bytecode, X>(cause))
        },
        StateOverrideError::BothStateAndStateDiff(account) => {
            &&& answers
            &&& account_override.code is Some ==> decodes
            &&& account == address
            &&& account_override.state is Some
            &&& account_override.state_diff is Some
        },
    }
}

/// Overriding code by itself: what becomes of EVM code, of code that an owner runs, of rWasm and of
/// other code, and of the hash.
pub proof fn lemma_overriding_code<W>(
    bytecode: Bytecode,
    code_hash: &mut Word,
    evm_runtime: Address,
    wrap: W,
    result: Option<Bytecode>,
) where W: Fn(Address, Vec<u8>) -> OwnableAccountBytecode
    requires
        call_ensures(
            crate::overrides::try_override_evm_bytecode::<W>,
            (bytecode, code_hash, evm_runtime, &wrap),
            result,
        ),
    ensures
        !(bytecode is LegacyAnalyzed) ==> final(code_hash)@ == old(code_hash)@,
        bytecode is OwnableAccount || bytecode is Rwasm <==> result is None,
        bytecode is Other ==> result == Some(bytecode),
        bytecode is LegacyAnalyzed ==> exists|metadata: Vec<u8>, owned: OwnableAccountBytecode|
            {
                &&& #[trigger] wrap.ensures((evm_runtime, metadata), owned)
                &&& metadata@.take(32) == old(code_hash)@
                &&& metadata@.skip(32) == bytecode->LegacyAnalyzed_0@
                &&& result == Some(Bytecode::OwnableAccount(owned))
                &&& final(code_hash)@ == crate::overrides::keccak256_of(owned.raw@)
            },
        (forall|owner: Address, metadata: Vec<u8>| #[trigger] wrap.requires((owner, metadata)))
            || !(bytecode is LegacyAnalyzed) ==> call_requires(
            crate::overrides::try_override_evm_bytecode::<W>,
            (bytecode, code_hash, evm_runtime, &wrap),
        ),
{
    if let Bytecode::LegacyAnalyzed(evm_code) = bytecode {
        let (metadata, owned): (Vec<u8>, OwnableAccountBytecode) = choose|
            metadata: Vec<u8>,
            owned: OwnableAccountBytecode,
        |
            {
                &&& #[trigger] wrap.ensures((evm_runtime, metadata), owned)
                &&& metadata@ == old(code_hash)@ + evm_code@
                &&& result == Some(Bytecode::OwnableAccount(owned))
                &&& final(code_hash)@ == crate::overrides::keccak256_of(owned.raw@)
            };
        assert(metadata@.take(32) =~= old(code_hash)@);
        assert(metadata@.skip(32) =~= evm_code@);
    }
}

/// How many commits an override takes.
pub open spec fn commits_of(account_override: AccountOverride) -> nat {
    if account_override.state is Some {
        2
    } else {
        1
    }
}

/// Accounts are overridden in the order in which they are given, each by its own commits, up to the
/// first that is refused. Where none of them can be refused, all of them are overridden.
pub proof fn lemma_accounts_are_overridden_in_order<B, M, D, W, E, X>(
    sources: OverrideSources<B, M, D, W>,
    overrides: Vec<(Address, AccountOverride)>,
    commits: Vec<AccountCommit>,
    result: Result<(), StateOverrideError<E, X>>,
) where
    B: Fn(&Address) -> Result<Option<AccountInfo>, E>,
    M: Fn() -> AccountInfo,
    D: Fn(&Vec<u8>) -> Result<Bytecode, X>,
    W: Fn(Address, Vec<u8>) -> OwnableAccountBytecode,

    requires
        call_ensures(
            crate::overrides::apply_state_overrides::<B, M, D, W, E, X>,
            (&overrides, &sources),
            (commits, result),
        ),
    ensures
        exists|parts: Seq<Seq<AccountCommit>>|
            {
                &&& #[trigger] parts.flatten() == commits@
                &&& parts.len() <= overrides@.len()
                &&& result is Ok <==> parts.len() == overrides@.len()
                &&& forall|i: int|
                    #![trigger parts[i]]
                    0 <= i < parts.len() ==> {
                        &&& parts[i].len() == commits_of(overrides@[i].1)
                        &&& forall|m: int|
                            0 <= m < parts[i].len() ==> (#[trigger] parts[i][m]).address
                                == overrides@[i].0
                        &&& parts[i].last().status.created <==> overrides@[i].1.state is Some
                        &&& slots_given(overrides@[i].1, parts[i])
                        &&& fields_given::<B, M, D, W, E>(
                            sources,
                            overrides@[i].0,
                            overrides@[i].1,
                            parts[i],
                        )
                        &&& overrides@[i].1.code is Some ==> code_given::<B, M, D, W, X>(
                            sources,
                            overrides@[i].1,
                            parts[i],
                        )
                    }
                &&& result is Err ==> refusal_given::<B, M, D, W, E, X>(
                    sources,
                    overrides@[parts.len() as int].0,
                    overrides@[parts.len() as int].1,
                    result->Err_0,
                )
            },
        (forall|i: int|
            #![trigger overrides@[i]]
            0 <= i < overrides@.len() ==> cannot_fail::<B, M, D, W, E, X>(
                sources,
                overrides@[i].0,
                overrides@[i].1,
            ) && !(overrides@[i].1.state is Some && overrides@[i].1.state_diff is Some))
            ==> result is Ok,
        callable::<B, M, D, W, E, X>(sources) ==> call_requires(
            crate::overrides::apply_state_overrides::<B, M, D, W, E, X>,
            (&overrides, &sources),
        ),
{
    let done = choose|done: Seq<Seq<AccountCommit>>|
        {
            &&& #[trigger] done.flatten() == commits@
            &&& done.len() <= overrides@.len()
            &&& forall|i: int|
                #![trigger done[i]]
                0 <= i < done.len() ==> sources.committed::<E, X>(
                    overrides@[i].0,
                    overrides@[i].1,
                    done[i],
                )
            &&& match result {
                Ok(()) => done.len() == overrides@.len(),
                Err(error) => {
                    &&& done.len() < overrides@.len()
                    &&& sources.refused::<E, X>(
                        overrides@[done.len() as int].0,
                        overrides@[done.len() as int].1,
                        error,
                    )
                },
            }
        };
    assert forall|i: int|
        #![trigger done[i]]
        0 <= i < done.len() implies {
        &&& done[i].len() == commits_of(overrides@[i].1)
        &&& forall|m: int|
            0 <= m < done[i].len() ==> (#[trigger] done[i][m]).address == overrides@[i].0
        &&& done[i].last().status.created <==> overrides@[i].1.state is Some
        &&& slots_given(overrides@[i].1, done[i])
        &&& fields_given::<B, M, D, W, E>(sources, overrides@[i].0, overrides@[i].1, done[i])
        &&& overrides@[i].1.code is Some ==> code_given::<B, M, D, W, X>(
            sources,
            overrides@[i].1,
            done[i],
        )
    } by {
        assert(sources.committed::<E, X>(overrides@[i].0, overrides@[i].1, done[i]));
        lemma_committed::<B, M, D, W, E, X>(
            sources,
            overrides@[i].0,
            overrides@[i].1,
            done[i],
        );
    }
    if result is Err {
        assert(sources.refused::<E, X>(
            overrides@[done.len() as int].0,
            overrides@[done.len() as int].1,
            result->Err_0,
        ));
    }
}

} // verus!
