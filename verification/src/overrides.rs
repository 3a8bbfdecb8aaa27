//! State overrides: replacing parts of accounts before a call is simulated.

use crate::primitives::{Address, Word, U256};
use vstd::prelude::*;

verus! {

/// What `alloy_primitives::keccak256` gives for `bytes`.
pub uninterp spec fn keccak256_of(bytes: Seq<u8>) -> Seq<u8>;

/// Calls `alloy_primitives::keccak256`: the Keccak-256 hash of `bytes`, which depends on the bytes
/// alone.
#[verifier::external_body]
fn keccak256(bytes: &[u8]) -> (hash: Word)
    ensures
        hash@ == keccak256_of(bytes@),
{
    alloy_primitives::keccak256(bytes).0
}

/// Code that an owner contract runs on behalf of an account.
#[derive(Clone, Debug, PartialEq, Eq)]
pub struct OwnableAccountBytecode {
    /// The owner contract.
    pub owner_address: Address,
    /// What the owner keeps of the account.
    pub metadata: Vec<u8>,
    /// The whole code in its stored form.
    pub raw: Vec<u8>,
}

/// The code of an account.
#[derive(Clone, Debug, PartialEq, Eq)]
pub enum Bytecode {
    /// EVM code, given by its original bytes.
    LegacyAnalyzed(Vec<u8>),
    /// Code that an owner contract runs.
    OwnableAccount(OwnableAccountBytecode),
    /// Trusted code in rWasm, in its stored form.
    Rwasm(Vec<u8>),
    /// Code of any other form, in its stored form.
    Other(Vec<u8>),
}

/// Turns code that overrides an account's code into what the account gets.
///
/// EVM code is handed to the EVM runtime contract, which keeps the hash of the code and the code
/// itself as its metadata. `wrap` makes the code of such an account from the owner and the metadata,
/// and `code_hash` becomes the hash of that. Code that an owner contract runs, and rWasm, which is
/// trusted, do not override anything. Other code stays as it is.
pub fn try_override_evm_bytecode<W>(
    bytecode: Bytecode,
    code_hash: &mut Word,
    evm_runtime: Address,
    wrap: &W,
) -> (result: Option<Bytecode>) where W: Fn(Address, Vec<u8>) -> OwnableAccountBytecode
    requires
        can_override_code(bytecode, old(code_hash)@, evm_runtime, *wrap),
    ensures
        override_code(
            bytecode,
            old(code_hash)@,
            evm_runtime,
            *wrap,
            result,
            final(code_hash)@,
        ),
{
    match bytecode {
        Bytecode::LegacyAnalyzed(evm_bytecode) => {
            let mut metadata: Vec<u8> = Vec::new();
            metadata.extend_from_slice(code_hash.as_slice());
            metadata.extend_from_slice(evm_bytecode.as_slice());
            assert(metadata@ =~= old(code_hash)@ + evm_bytecode@);
            let wrapped = wrap(evm_runtime, metadata);
            *code_hash = keccak256(wrapped.raw.as_slice());
            Some(Bytecode::OwnableAccount(wrapped))
        },
        Bytecode::OwnableAccount(_) => None,
        Bytecode::Rwasm(_) => None,
        Bytecode::Other(raw) => Some(Bytecode::Other(raw)),
    }
}

/// Whether `wrap` can be asked for what overriding with `bytecode`, whose hash is `hash`, asks it.
pub open spec fn can_override_code<W>(
    bytecode: Bytecode,
    hash: Seq<u8>,
    evm_runtime: Address,
    wrap: W,
) -> bool where W: Fn(Address, Vec<u8>) -> OwnableAccountBytecode {
    bytecode matches Bytecode::LegacyAnalyzed(evm_bytecode) ==> forall|metadata: Vec<u8>|
        metadata@ == hash + evm_bytecode@ ==> #[trigger] wrap.requires((evm_runtime, metadata))
}

/// Whether overriding with `bytecode`, whose hash is `hash`, gives the account the code `code` with
/// the hash `code_hash`.
pub open spec fn override_code<W>(
    bytecode: Bytecode,
    hash: Seq<u8>,
    evm_runtime: Address,
    wrap: W,
    code: Option<Bytecode>,
    code_hash: Seq<u8>,
) -> bool where W: Fn(Address, Vec<u8>) -> OwnableAccountBytecode {
    match bytecode {
        Bytecode::LegacyAnalyzed(evm_bytecode) => exists|
            metadata: Vec<u8>,
            wrapped: OwnableAccountBytecode,
        |
            {
                &&& #[trigger] wrap.ensures((evm_runtime, metadata), wrapped)
                &&& metadata@ == hash + evm_bytecode@
                &&& code == Some(Bytecode::OwnableAccount(wrapped))
                &&& code_hash == keccak256_of(wrapped.raw@)
            },
        Bytecode::OwnableAccount(_) => code is None && code_hash == hash,
        Bytecode::Rwasm(_) => code is None && code_hash == hash,
        Bytecode::Other(_) => code == Some(bytecode) && code_hash == hash,
    }
}

/// The inverse of every bit.
pub open spec fn inverted(bytes: Seq<u8>) -> Seq<u8> {
    Seq::new(bytes.len(), |i: int| !bytes[i])
}

/// Inverts every bit of a word.
fn invert(word: &Word) -> (result: Word)
    ensures
        result@ == inverted(word@),
{
    let mut result: Word = *word;
    for i in 0..32usize
        invariant
            forall|m: int| 0 <= m < i ==> result@[m] == !word@[m],
            forall|m: int| i <= m < 32 ==> result@[m] == word@[m],
    {
        result[i] = !word[i];
    }
    assert(result@ =~= inverted(word@));
    result
}

/// A storage slot that a state change brings.
#[derive(Clone, Copy, Debug, PartialEq, Eq)]
pub struct EvmStorageSlot {
    /// The value before the change.
    pub original_value: U256,
    /// The value after it.
    pub present_value: U256,
    /// Whether the slot counts as not accessed yet.
    pub is_cold: bool,
    /// The transaction that the change belongs to.
    pub transaction_id: u64,
}

/// The slot that `entry`, a key and a value, turns into: the key and the value as numbers, with the
/// inverted value as the original one, so that the slot is treated as changed.
pub open spec fn overridden_slot(entry: (Word, Word), slot: (U256, EvmStorageSlot)) -> bool {
    &&& slot.0.be_bytes == entry.0
    &&& slot.1.original_value.be_bytes@ == inverted(entry.1@)
    &&& slot.1.present_value.be_bytes == entry.1
    &&& !slot.1.is_cold
    &&& slot.1.transaction_id == 0
}

/// Whether `storage` has the slot of each entry of `state`, in the same order.
pub open spec fn overridden_storage(
    state: Seq<(Word, Word)>,
    storage: Seq<(U256, EvmStorageSlot)>,
) -> bool {
    &&& storage.len() == state.len()
    &&& forall|i: int|
        #![trigger storage[i]]
        0 <= i < state.len() ==> overridden_slot(state[i], storage[i])
}

/// The slots that override the storage of an account.
fn override_storage(state: &Vec<(Word, Word)>) -> (storage: Vec<(U256, EvmStorageSlot)>)
    ensures
        overridden_storage(state@, storage@),
{
    let mut storage: Vec<(U256, EvmStorageSlot)> = Vec::new();
    for i in 0..state.len()
        invariant
            storage@.len() == i,
            forall|m: int|
                #![trigger storage@[m]]
                0 <= m < i ==> overridden_slot(state@[m], storage@[m]),
    {
        let entry: (Word, Word) = state[i];
        let slot = EvmStorageSlot {
            original_value: U256 { be_bytes: invert(&entry.1) },
            present_value: U256 { be_bytes: entry.1 },
            is_cold: false,
            transaction_id: 0,
        };
        storage.push((U256 { be_bytes: entry.0 }, slot));
    }
    storage
}

/// Every slot that an override sets counts as changed: its original value differs from its present
/// value.
pub proof fn lemma_overridden_slots_are_changed(
    state: Seq<(Word, Word)>,
    storage: Seq<(U256, EvmStorageSlot)>,
    i: int,
)
    requires
        overridden_storage(state, storage),
        0 <= i < storage.len(),
    ensures
        storage[i].1.original_value.be_bytes@ != storage[i].1.present_value.be_bytes@,
{
    let original = storage[i].1.original_value.be_bytes@;
    let present = storage[i].1.present_value.be_bytes@;
    assert(overridden_slot(state[i], storage[i]));
    let byte = present[0];
    assert(original[0] == !byte);
    assert(!byte != byte) by (bit_vector);
}

/// Every slot that an override sets has the given key as its number and the given value as its present
/// value, both read most significant byte first.
pub proof fn lemma_overridden_slots_are_the_given_numbers(
    state: Seq<(Word, Word)>,
    storage: Seq<(U256, EvmStorageSlot)>,
    i: int,
)
    requires
        overridden_storage(state, storage),
        0 <= i < state.len(),
    ensures
        storage.len() == state.len(),
        storage[i].0@ == crate::primitives::be_value(state[i].0@),
        storage[i].1.present_value@ == crate::primitives::be_value(state[i].1@),
{
    assert(overridden_slot(state[i], storage[i]));
}

/// What is known of an account.
#[derive(Clone, Debug, PartialEq, Eq)]
pub struct AccountInfo {
    /// The balance.
    pub balance: U256,
    /// The nonce.
    pub nonce: u64,
    /// The hash of the code.
    pub code_hash: Word,
    /// The code, where it is loaded.
    pub code: Option<Bytecode>,
}

/// What to replace in an account.
#[derive(Clone, Debug, PartialEq, Eq)]
pub struct AccountOverride {
    /// The balance.
    pub balance: Option<U256>,
    /// The nonce.
    pub nonce: Option<u64>,
    /// The code.
    pub code: Option<Vec<u8>>,
    /// The whole storage: slots that are not listed become empty.
    pub state: Option<Vec<(Word, Word)>>,
    /// Single slots of the storage: slots that are not listed stay.
    pub state_diff: Option<Vec<(Word, Word)>>,
}

/// What happened to an account.
#[derive(Clone, Copy, Debug, PartialEq, Eq)]
pub struct AccountStatus {
    /// The account was touched.
    pub touched: bool,
    /// The account was created, so no earlier storage of it is read.
    pub created: bool,
    /// The account was destroyed.
    pub self_destructed: bool,
}

/// A change of one account, to be committed to the database.
#[derive(Clone, Debug, PartialEq, Eq)]
pub struct AccountCommit {
    /// The account.
    pub address: Address,
    /// What is known of it afterwards, or `None` for an account without anything. It counts as
    /// having been the same before.
    pub info: Option<AccountInfo>,
    /// What happened to it.
    pub status: AccountStatus,
    /// The changed slots of its storage.
    pub storage: Vec<(U256, EvmStorageSlot)>,
    /// The transaction that the change belongs to.
    pub transaction_id: u64,
}

/// Why an override was refused. `E` is an error of the database, `D` an error of decoding code.
#[derive(Clone, Debug, PartialEq, Eq)]
pub enum StateOverrideError<E, D> {
    /// The code is not valid.
    InvalidBytecode(D),
    /// Both the whole storage and single slots of it are given for the account.
    BothStateAndStateDiff(Address),
    /// The database failed.
    Database(E),
}

/// What overriding accounts takes from outside.
pub struct OverrideSources<B, M, D, W> {
    /// What the database knows of an account.
    pub basic: B,
    /// What is known of an account that does not exist.
    pub default_info: M,
    /// Decodes code.
    pub decode: D,
    /// Makes the code of an account that an owner contract runs from the owner and the metadata.
    pub wrap: W,
    /// The contract that runs EVM code.
    pub evm_runtime: Address,
}

impl<B, M, D, W> OverrideSources<B, M, D, W> {
    /// Whether the sources can be asked what overriding an account asks them. The default is asked for
    /// where the account does not exist, and code is decoded and wrapped where it is overridden.
    pub open spec fn usable<E, X>(
        self,
        address: Address,
        account_override: AccountOverride,
    ) -> bool where
        B: Fn(&Address) -> Result<Option<AccountInfo>, E>,
        M: Fn() -> AccountInfo,
        D: Fn(&Vec<u8>) -> Result<Bytecode, X>,
        W: Fn(Address, Vec<u8>) -> OwnableAccountBytecode,
     {
        &&& self.basic.requires((&address,))
        &&& self.basic.ensures((&address,), Ok::<Option<AccountInfo>, E>(None))
            ==> self.default_info.requires(())
        &&& account_override.code matches Some(code) ==> {
            &&& self.decode.requires((&code,))
            &&& forall|bytecode: Bytecode, hash: Word|
                self.decode.ensures((&code,), Ok::<Bytecode, X>(bytecode))
                    ==> #[trigger] can_override_code(
                    bytecode,
                    hash@,
                    self.evm_runtime,
                    self.wrap,
                )
        }
    }

    /// Whether `info` is what an account starts from: what the database knows of it, or the default
    /// where it does not exist.
    pub open spec fn starts_from<E>(self, address: Address, info: AccountInfo) -> bool where
        B: Fn(&Address) -> Result<Option<AccountInfo>, E>,
        M: Fn() -> AccountInfo,
     {
        ||| self.basic.ensures((&address,), Ok::<Option<AccountInfo>, E>(Some(info)))
        ||| {
            &&& self.basic.ensures((&address,), Ok::<Option<AccountInfo>, E>(None))
            &&& self.default_info.ensures((), info)
        }
    }

    /// Whether `info` is `start` with what `account_override` replaces in it.
    pub open spec fn replaced<X>(
        self,
        start: AccountInfo,
        account_override: AccountOverride,
        info: AccountInfo,
    ) -> bool where
        D: Fn(&Vec<u8>) -> Result<Bytecode, X>,
        W: Fn(Address, Vec<u8>) -> OwnableAccountBytecode,
     {
        &&& info.nonce == match account_override.nonce {
            Some(nonce) => nonce,
            None => start.nonce,
        }
        &&& info.balance == match account_override.balance {
            Some(balance) => balance,
            None => start.balance,
        }
        &&& match account_override.code {
            Some(code) => exists|bytecode: Bytecode|
                {
                    &&& #[trigger] self.decode.ensures((&code,), Ok::<Bytecode, X>(bytecode))
                    &&& override_code(
                        bytecode,
                        keccak256_of(code@),
                        self.evm_runtime,
                        self.wrap,
                        info.code,
                        info.code_hash@,
                    )
                },
            None => info.code == start.code && info.code_hash == start.code_hash,
        }
    }

    /// Whether `commits` are the changes that override an account. Where the whole storage is
    /// replaced, the account is destroyed first, which clears its storage, and then counts as
    /// created.
    pub open spec fn committed<E, X>(
        self,
        address: Address,
        account_override: AccountOverride,
        commits: Seq<AccountCommit>,
    ) -> bool where
        B: Fn(&Address) -> Result<Option<AccountInfo>, E>,
        M: Fn() -> AccountInfo,
        D: Fn(&Vec<u8>) -> Result<Bytecode, X>,
        W: Fn(Address, Vec<u8>) -> OwnableAccountBytecode,
     {
        let whole = account_override.state is Some;
        &&& !(account_override.state is Some && account_override.state_diff is Some)
        &&& commits.len() == if whole {
            2nat
        } else {
            1nat
        }
        &&& whole ==> is_destruction(address, commits[0])
        &&& commits.last().address == address
        &&& commits.last().status == (AccountStatus {
            touched: true,
            created: whole,
            self_destructed: false,
        })
        &&& commits.last().transaction_id == 0
        &&& match (account_override.state, account_override.state_diff) {
            (Some(state), _) => overridden_storage(state@, commits.last().storage@),
            (None, Some(state)) => overridden_storage(state@, commits.last().storage@),
            (None, None) => commits.last().storage@.len() == 0,
        }
        &&& commits.last().info is Some
        &&& exists|start: AccountInfo|
            {
                &&& #[trigger] self.starts_from::<E>(address, start)
                &&& self.replaced::<X>(start, account_override, commits.last().info->0)
            }
    }

    /// Whether the database can answer for an account.
    pub open spec fn found<E>(self, address: Address) -> bool where
        B: Fn(&Address) -> Result<Option<AccountInfo>, E>,
     {
        exists|info: Option<AccountInfo>| #[trigger]
            self.basic.ensures((&address,), Ok::<Option<AccountInfo>, E>(info))
    }

    /// Whether code can be decoded.
    pub open spec fn decoded<X>(self, code: Vec<u8>) -> bool where
        D: Fn(&Vec<u8>) -> Result<Bytecode, X>,
     {
        exists|bytecode: Bytecode| #[trigger]
            self.decode.ensures((&code,), Ok::<Bytecode, X>(bytecode))
    }

    /// Whether `error` is why an account is not overridden. The database is asked first, then the
    /// code is decoded, and then the storage is looked at.
    pub open spec fn refused<E, X>(
        self,
        address: Address,
        account_override: AccountOverride,
        error: StateOverrideError<E, X>,
    ) -> bool where
        B: Fn(&Address) -> Result<Option<AccountInfo>, E>,
        D: Fn(&Vec<u8>) -> Result<Bytecode, X>,
     {
        match error {
            StateOverrideError::Database(cause) => self.basic.ensures(
                (&address,),
                Err::<Option<AccountInfo>, E>(cause),
            ),
            StateOverrideError::InvalidBytecode(cause) => {
                &&& self.found::<E>(address)
                &&& account_override.code is Some
                &&& self.decode.ensures((&account_override.code->0,), Err::<Bytecode, X>(cause))
            },
            StateOverrideError::BothStateAndStateDiff(account) => {
                &&& account == address
                &&& self.found::<E>(address)
                &&& account_override.code matches Some(code) ==> self.decoded::<X>(code)
                &&& account_override.state is Some
                &&& account_override.state_diff is Some
            },
        }
    }
}

/// Whether `commit` destroys an account and leaves nothing of it.
pub open spec fn is_destruction(address: Address, commit: AccountCommit) -> bool {
    &&& commit.address == address
    &&& commit.info is None
    &&& commit.status == (AccountStatus { touched: true, created: false, self_destructed: true })
    &&& commit.storage@.len() == 0
    &&& commit.transaction_id == 0
}

/// Overrides one account. The result is what to commit to the database, in order.
pub fn apply_account_override<B, M, D, W, E, X>(
    address: Address,
    account_override: &AccountOverride,
    sources: &OverrideSources<B, M, D, W>,
) -> (result: Result<Vec<AccountCommit>, StateOverrideError<E, X>>) where
    B: Fn(&Address) -> Result<Option<AccountInfo>, E>,
    M: Fn() -> AccountInfo,
    D: Fn(&Vec<u8>) -> Result<Bytecode, X>,
    W: Fn(Address, Vec<u8>) -> OwnableAccountBytecode,

    requires
        sources.usable::<E, X>(address, *account_override),
    ensures
        match result {
            Ok(commits) => sources.committed::<E, X>(address, *account_override, commits@),
            Err(error) => sources.refused::<E, X>(address, *account_override, error),
        },
{
    let mut info = match (sources.basic)(&address) {
        Ok(Some(info)) => info,
        Ok(None) => (sources.default_info)(),
        Err(error) => return Err(StateOverrideError::Database(error)),
    };
    let ghost start = info;
    assert(sources.starts_from::<E>(address, start));
    assert(sources.found::<E>(address));
    if let Some(nonce) = account_override.nonce {
        info.nonce = nonce;
    }
    if let Some(code) = &account_override.code {
        let mut code_hash: Word = keccak256(code.as_slice());
        let bytecode = match (sources.decode)(code) {
            Ok(bytecode) => bytecode,
            Err(error) => return Err(StateOverrideError::InvalidBytecode(error)),
        };
        info.code = try_override_evm_bytecode(
            bytecode,
            &mut code_hash,
            sources.evm_runtime,
            &sources.wrap,
        );
        info.code_hash = code_hash;
    }
    if let Some(balance) = account_override.balance {
        info.balance = balance;
    }
    assert(sources.replaced::<X>(start, *account_override, info));
    let mut commits: Vec<AccountCommit> = Vec::new();
    let mut status = AccountStatus { touched: true, created: false, self_destructed: false };
    let storage: Vec<(U256, EvmStorageSlot)> = match (
        &account_override.state,
        &account_override.state_diff,
    ) {
        (Some(_), Some(_)) => return Err(StateOverrideError::BothStateAndStateDiff(address)),
        (None, None) => Vec::new(),
        (Some(state), None) => {
            commits.push(
                AccountCommit {
                    address,
                    info: None,
                    status: AccountStatus { touched: true, created: false, self_destructed: true },
                    storage: Vec::new(),
                    transaction_id: 0,
                },
            );
            status.created = true;
            override_storage(state)
        },
        (None, Some(state)) => override_storage(state),
    };
    commits.push(
        AccountCommit { address, info: Some(info), status, storage, transaction_id: 0 },
    );
    Ok(commits)
}

/// Overrides accounts one after the other. The first refusal ends it.
///
/// The result is what to commit to the database, in order, and whether every account was
/// overridden. What was overridden before a refusal is to be committed too.
pub fn apply_state_overrides<B, M, D, W, E, X>(
    overrides: &Vec<(Address, AccountOverride)>,
    sources: &OverrideSources<B, M, D, W>,
) -> (applied: (Vec<AccountCommit>, Result<(), StateOverrideError<E, X>>)) where
    B: Fn(&Address) -> Result<Option<AccountInfo>, E>,
    M: Fn() -> AccountInfo,
    D: Fn(&Vec<u8>) -> Result<Bytecode, X>,
    W: Fn(Address, Vec<u8>) -> OwnableAccountBytecode,

    requires
        forall|i: int|
            #![trigger overrides@[i]]
            0 <= i < overrides@.len() ==> sources.usable::<E, X>(
                overrides@[i].0,
                overrides@[i].1,
            ),
    ensures
        exists|done: Seq<Seq<AccountCommit>>|
            {
                &&& #[trigger] done.flatten() == applied.0@
                &&& done.len() <= overrides@.len()
                &&& forall|i: int|
                    #![trigger done[i]]
                    0 <= i < done.len() ==> sources.committed::<E, X>(
                        overrides@[i].0,
                        overrides@[i].1,
                        done[i],
                    )
                &&& match applied.1 {
                    Ok(()) => done.len() == overrides@.len(),
                    Err(error) => {
                        &&& done.len() < overrides@.len()
                        &&& sources.refused::<E, X>(
                            overrides@[done.len() as int].0,
                            overrides@[done.len() as int].1,
                            error,
                        )
                    },
                }
            },
{
    let mut commits: Vec<AccountCommit> = Vec::new();
    let ghost mut done: Seq<Seq<AccountCommit>> = Seq::empty();
    for i in 0..overrides.len()
        invariant
            forall|m: int|
                #![trigger overrides@[m]]
                0 <= m < overrides@.len() ==> sources.usable::<E, X>(
                    overrides@[m].0,
                    overrides@[m].1,
                ),
            done.len() == i,
            done.flatten() == commits@,
            forall|m: int|
                #![trigger done[m]]
                0 <= m < i ==> sources.committed::<E, X>(
                    overrides@[m].0,
                    overrides@[m].1,
                    done[m],
                ),
    {
        match apply_account_override(overrides[i].0, &overrides[i].1, sources) {
            Ok(more) => {
                let mut more: Vec<AccountCommit> = more;
                let ghost added = more@;
                proof {
                    done.lemma_flatten_push(added);
                    done = done.push(added);
                }
                commits.append(&mut more);
            },
            Err(error) => return (commits, Err(error)),
        }
    }
    (commits, Ok(()))
}

} // verus!
