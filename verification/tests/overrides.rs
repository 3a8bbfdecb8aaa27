use reth_components::overrides::{
    apply_account_override, apply_state_overrides, try_override_evm_bytecode, AccountInfo,
    AccountOverride, AccountStatus, Bytecode, OverrideSources, OwnableAccountBytecode,
    StateOverrideError,
};
use reth_components::primitives::{Address, Word, U256};

const RUNTIME: Address = [0x52; 20];

/// The Keccak-256 hash of no bytes.
const EMPTY_HASH: Word = [
    0xc5, 0xd2, 0x46, 0x01, 0x86, 0xf7, 0x23, 0x3c, 0x92, 0x7e, 0x7d, 0xb2, 0xdc, 0xc7, 0x03, 0xc0,
    0xe5, 0x00, 0xb6, 0x53, 0xca, 0x82, 0x27, 0x3b, 0x7b, 0xfa, 0xd8, 0x04, 0x5d, 0x85, 0xa4, 0x70,
];

fn wrap(owner_address: Address, metadata: Vec<u8>) -> OwnableAccountBytecode {
    let mut raw = vec![0xef];
    raw.extend(owner_address);
    raw.extend(&metadata);
    OwnableAccountBytecode { owner_address, metadata, raw }
}

fn default_info() -> AccountInfo {
    AccountInfo { balance: U256::default(), nonce: 0, code_hash: EMPTY_HASH, code: None }
}

fn existing_info() -> AccountInfo {
    AccountInfo {
        balance: U256::from_u64(5),
        nonce: 6,
        code_hash: [7; 32],
        code: Some(Bytecode::Other(vec![8])),
    }
}

fn no_override() -> AccountOverride {
    AccountOverride { balance: None, nonce: None, code: None, state: None, state_diff: None }
}

fn basic(address: &Address) -> Result<Option<AccountInfo>, String> {
    match address[0] {
        0 => Ok(None),
        1 => Ok(Some(existing_info())),
        _ => Err("no database".to_string()),
    }
}

fn decode(code: &Vec<u8>) -> Result<Bytecode, u8> {
    match code.first() {
        Some(0xef) => Err(0xef),
        Some(0xaa) => Ok(Bytecode::Rwasm(code.clone())),
        Some(0xbb) => Ok(Bytecode::Other(code.clone())),
        _ => Ok(Bytecode::LegacyAnalyzed(code.clone())),
    }
}

type Sources = OverrideSources<
    fn(&Address) -> Result<Option<AccountInfo>, String>,
    fn() -> AccountInfo,
    fn(&Vec<u8>) -> Result<Bytecode, u8>,
    fn(Address, Vec<u8>) -> OwnableAccountBytecode,
>;

fn sources() -> Sources {
    OverrideSources { basic, default_info, decode, wrap, evm_runtime: RUNTIME }
}

#[test]
fn evm_code_is_handed_to_the_runtime() {
    let mut hash = [3; 32];
    let code = try_override_evm_bytecode(
        Bytecode::LegacyAnalyzed(vec![0x60, 0x00]),
        &mut hash,
        RUNTIME,
        &wrap,
    );
    let mut metadata = vec![3u8; 32];
    metadata.extend([0x60, 0x00]);
    let expected = wrap(RUNTIME, metadata);
    assert_eq!(hash, alloy_primitives::keccak256(&expected.raw).0);
    assert_eq!(code, Some(Bytecode::OwnableAccount(expected)));
}

#[test]
fn owned_and_trusted_code_overrides_nothing() {
    for code in [
        Bytecode::OwnableAccount(wrap(RUNTIME, vec![1])),
        Bytecode::Rwasm(vec![2]),
    ] {
        let mut hash = [3; 32];
        assert_eq!(try_override_evm_bytecode(code, &mut hash, RUNTIME, &wrap), None);
        assert_eq!(hash, [3; 32]);
    }
    let mut hash = [3; 32];
    assert_eq!(
        try_override_evm_bytecode(Bytecode::Other(vec![4]), &mut hash, RUNTIME, &wrap),
        Some(Bytecode::Other(vec![4]))
    );
    assert_eq!(hash, [3; 32]);
}

#[test]
fn an_empty_override_touches_the_account() {
    let commits = apply_account_override([1; 20], &no_override(), &sources()).unwrap();
    assert_eq!(commits.len(), 1);
    assert_eq!(commits[0].address, [1; 20]);
    assert_eq!(commits[0].info, Some(existing_info()));
    assert_eq!(
        commits[0].status,
        AccountStatus { touched: true, created: false, self_destructed: false }
    );
    assert!(commits[0].storage.is_empty());
    let commits = apply_account_override([0; 20], &no_override(), &sources()).unwrap();
    assert_eq!(commits[0].info, Some(default_info()));
}

#[test]
fn fields_are_replaced() {
    let account_override = AccountOverride {
        balance: Some(U256::from_u64(50)),
        nonce: Some(60),
        code: Some(vec![]),
        ..no_override()
    };
    let commits = apply_account_override([1; 20], &account_override, &sources()).unwrap();
    let info = commits[0].info.clone().unwrap();
    assert_eq!(info.balance, U256::from_u64(50));
    assert_eq!(info.nonce, 60);
    let expected = wrap(RUNTIME, EMPTY_HASH.to_vec());
    assert_eq!(info.code_hash, alloy_primitives::keccak256(&expected.raw).0);
    assert_eq!(info.code, Some(Bytecode::OwnableAccount(expected)));

    let account_override = AccountOverride { code: Some(vec![0xbb]), ..no_override() };
    let commits = apply_account_override([1; 20], &account_override, &sources()).unwrap();
    let info = commits[0].info.clone().unwrap();
    assert_eq!(info.code_hash, alloy_primitives::keccak256([0xbb]).0);
    assert_eq!(info.code, Some(Bytecode::Other(vec![0xbb])));

    let account_override = AccountOverride { code: Some(vec![0xaa]), ..no_override() };
    let commits = apply_account_override([1; 20], &account_override, &sources()).unwrap();
    let info = commits[0].info.clone().unwrap();
    assert_eq!(info.code_hash, alloy_primitives::keccak256([0xaa]).0);
    assert_eq!(info.code, None);
}

#[test]
fn a_whole_storage_replaces_the_old_one() {
    let account_override =
        AccountOverride { state: Some(vec![([1; 32], [0x0f; 32])]), ..no_override() };
    let commits = apply_account_override([1; 20], &account_override, &sources()).unwrap();
    assert_eq!(commits.len(), 2);
    assert_eq!(commits[0].info, None);
    assert_eq!(
        commits[0].status,
        AccountStatus { touched: true, created: false, self_destructed: true }
    );
    assert_eq!(
        commits[1].status,
        AccountStatus { touched: true, created: true, self_destructed: false }
    );
    assert_eq!(commits[1].storage.len(), 1);
    let (slot, value) = commits[1].storage[0];
    assert_eq!(slot, U256 { be_bytes: [1; 32] });
    assert_eq!(value.original_value, U256 { be_bytes: [0xf0; 32] });
    assert_eq!(value.present_value, U256 { be_bytes: [0x0f; 32] });
    assert!(!value.is_cold);
    assert_eq!(value.transaction_id, 0);
}

#[test]
fn single_slots_leave_the_rest_of_the_storage() {
    let account_override = AccountOverride {
        state_diff: Some(vec![([1; 32], [0; 32]), ([2; 32], [0xff; 32])]),
        ..no_override()
    };
    let commits = apply_account_override([0; 20], &account_override, &sources()).unwrap();
    assert_eq!(commits.len(), 1);
    assert!(!commits[0].status.created);
    assert_eq!(commits[0].storage.len(), 2);
    for (_, slot) in &commits[0].storage {
        assert_ne!(slot.original_value, slot.present_value);
    }
}

#[test]
fn refusals_come_in_order() {
    let both = AccountOverride {
        code: Some(vec![0xef]),
        state: Some(vec![]),
        state_diff: Some(vec![]),
        ..no_override()
    };
    assert_eq!(
        apply_account_override([2; 20], &both, &sources()),
        Err(StateOverrideError::Database("no database".to_string()))
    );
    assert_eq!(
        apply_account_override([1; 20], &both, &sources()),
        Err(StateOverrideError::InvalidBytecode(0xef))
    );
    let both = AccountOverride { code: None, ..both };
    assert_eq!(
        apply_account_override([1; 20], &both, &sources()),
        Err(StateOverrideError::BothStateAndStateDiff([1; 20]))
    );
}

#[test]
fn overrides_stop_at_the_first_refusal() {
    let replaced = AccountOverride { state: Some(vec![]), ..no_override() };
    let (commits, result) = apply_state_overrides(
        &vec![
            ([0; 20], replaced),
            ([1; 20], no_override()),
            ([2; 20], no_override()),
            ([1; 20], no_override()),
        ],
        &sources(),
    );
    assert_eq!(commits.len(), 3);
    assert_eq!(commits[2].address, [1; 20]);
    assert_eq!(result, Err(StateOverrideError::Database("no database".to_string())));
    let (commits, result) = apply_state_overrides(&vec![([1; 20], no_override())], &sources());
    assert_eq!(commits.len(), 1);
    assert_eq!(result, Ok(()));
}

#[test]
fn only_what_is_needed_is_asked_for() {
    let sources = OverrideSources {
        basic: |_: &Address| Ok::<_, String>(Some(existing_info())),
        default_info: || -> AccountInfo { panic!("the account exists") },
        decode: |_: &Vec<u8>| -> Result<Bytecode, u8> { panic!("no code is given") },
        wrap: |_: Address, _: Vec<u8>| -> OwnableAccountBytecode { panic!("no code is given") },
        evm_runtime: RUNTIME,
    };
    let commits = apply_account_override([1; 20], &no_override(), &sources).unwrap();
    assert_eq!(commits[0].info, Some(existing_info()));
}
