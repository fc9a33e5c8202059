use multi_phase_election::cli::{
    decode_weights, header_url, modules_to_scrape, Command, ExecutionStrategy, OffchainWorkerCmd,
    OnRuntimeUpgradeCmd, SharedParams, State, TryRuntimeCmd, WasmExecutionMethod, WeightsError,
};
use std::path::PathBuf;

fn live(modules: Option<Vec<String>>) -> State {
    State::Live {
        snapshot_path: None,
        block_at: None,
        modules,
        url: "ws://node:1".to_string(),
    }
}

#[test]
fn header_url_follows_state() {
    assert_eq!(header_url(&live(None)), "ws://node:1");
    let snap = State::Snap { snapshot_path: PathBuf::from("/tmp/state.bin") };
    assert_eq!(header_url(&snap), "ws://127.0.0.1:9944");
}

#[test]
fn modules_default_to_none() {
    assert!(modules_to_scrape(&live(None)).is_empty());
    let m = vec!["Staking".to_string(), "System".to_string()];
    assert_eq!(modules_to_scrape(&live(Some(m.clone()))), m);
    let snap = State::Snap { snapshot_path: PathBuf::from("x") };
    assert!(modules_to_scrape(&snap).is_empty());
}

fn shared(chain: Option<&str>, heap_pages: Option<u64>) -> SharedParams {
    SharedParams {
        chain: chain.map(|c| c.to_string()),
        execution: ExecutionStrategy::Native,
        wasm_method: WasmExecutionMethod::Compiled,
        heap_pages,
    }
}

fn cmd(chain: Option<&str>) -> TryRuntimeCmd {
    TryRuntimeCmd {
        shared: shared(chain, None),
        command: Command::OnRuntimeUpgrade(OnRuntimeUpgradeCmd { state: live(None) }),
    }
}

#[test]
fn chain_id_defaults_to_dev() {
    assert_eq!(cmd(None).chain_id(false), "dev");
    assert_eq!(cmd(Some("polkadot")).chain_id(true), "polkadot");
    assert_eq!(cmd(Some("kusama")).shared_params().chain.as_deref(), Some("kusama"));
}

#[test]
fn heap_pages_prefers_request() {
    assert_eq!(shared(None, Some(64)).effective_heap_pages(Some(2048)), Some(64));
    assert_eq!(shared(None, None).effective_heap_pages(Some(2048)), Some(2048));
    assert_eq!(shared(None, None).effective_heap_pages(None), None);
}

#[test]
fn execution_names_ignore_case() {
    assert_eq!(ExecutionStrategy::from_name("native"), Some(ExecutionStrategy::Native));
    assert_eq!(ExecutionStrategy::from_name("NATIVEELSEWASM"), Some(ExecutionStrategy::NativeElseWasm));
    assert_eq!(ExecutionStrategy::from_name("Both"), Some(ExecutionStrategy::Both));
    assert_eq!(ExecutionStrategy::from_name("wAsM"), Some(ExecutionStrategy::Wasm));
    assert_eq!(ExecutionStrategy::from_name("wasm "), None);
    assert_eq!(ExecutionStrategy::from_name(""), None);
    assert_eq!(WasmExecutionMethod::from_name("compiled"), Some(WasmExecutionMethod::Compiled));
    assert_eq!(WasmExecutionMethod::from_name("Interpreted"), Some(WasmExecutionMethod::Interpreted));
    assert_eq!(WasmExecutionMethod::from_name("jit"), None);
    assert_eq!("Native".parse::<ExecutionStrategy>(), Ok(ExecutionStrategy::Native));
    assert!("x".parse::<WasmExecutionMethod>().is_err());
}

#[test]
fn decode_weights_reads_two_le_words() {
    let mut bytes = vec![0u8; 16];
    bytes[0] = 0x10;
    bytes[1] = 0x27;
    bytes[8] = 0x40;
    bytes[9] = 0x42;
    bytes[10] = 0x0f;
    bytes.push(0xff);
    assert_eq!(decode_weights(&bytes), Ok((10_000, 1_000_000)));
    assert_eq!(decode_weights(&vec![0xff; 16]), Ok((u64::MAX, u64::MAX)));
}

#[test]
fn decode_weights_needs_sixteen_bytes() {
    assert_eq!(decode_weights(&vec![1u8; 15]), Err(WeightsError::NotEnoughData));
    assert_eq!(decode_weights(&Vec::new()), Err(WeightsError::NotEnoughData));
}

#[test]
fn commands_carry_their_state() {
    let cmd = Command::OffchainWorker(OffchainWorkerCmd {
        header_at: "abcd".to_string(),
        state: live(None),
        overwrite_code: true,
    });
    match cmd {
        Command::OffchainWorker(c) => {
            assert!(c.overwrite_code);
            assert_eq!(header_url(&c.state), "ws://node:1");
        }
        Command::OnRuntimeUpgrade(_) => panic!("wrong command"),
    }
}
