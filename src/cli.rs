//! The commands of the state-replay tool, and the decisions it makes on
//! their values before and after running the runtime.
use std::path::PathBuf;
use vstd::prelude::*;

verus! {

#[verifier::external_type_specification]
#[verifier::external_body]
pub struct ExPathBuf(PathBuf);

/// Relies on `PathBuf::clone` to copy a path; nothing is claimed of the copy.
pub assume_specification[ <PathBuf as Clone>::clone ](p: &PathBuf) -> PathBuf;

/// The source of runtime state to try operations against.
#[derive(Debug, Clone)]
#[allow(inconsistent_fields)]
pub enum State {
    /// A state snapshot file.
    Snap { snapshot_path: PathBuf },
    /// A live chain.
    Live {
        /// A state snapshot file to write to, if any.
        snapshot_path: Option<PathBuf>,
        /// The block hash at which to connect; the latest finalized head if
        /// not given.
        block_at: Option<String>,
        /// The modules to scrape; the whole state if not given.
        modules: Option<Vec<String>>,
        /// The websocket url to connect to.
        url: String,
    },
}

/// Runs the runtime upgrade hooks against some state.
#[derive(Debug, Clone)]
pub struct OnRuntimeUpgradeCmd {
    pub state: State,
}

/// Runs the offchain worker against some state.
#[derive(Debug, Clone)]
pub struct OffchainWorkerCmd {
    /// Hash of the block whose header to use to execute the offchain worker.
    pub header_at: String,
    pub state: State,
    /// Whether to overwrite the code from state with the code from the
    /// chain spec.
    pub overwrite_code: bool,
}

/// The commands of the tool.
#[derive(Debug, Clone)]
pub enum Command {
    OnRuntimeUpgrade(OnRuntimeUpgradeCmd),
    OffchainWorker(OffchainWorkerCmd),
}

/// How the runtime is executed.
#[derive(Clone, Copy, Debug, PartialEq, Eq, Structural)]
pub enum ExecutionStrategy {
    Native,
    Wasm,
    Both,
    NativeElseWasm,
}

/// How wasm runtime code is executed.
#[derive(Clone, Copy, Debug, PartialEq, Eq, Structural)]
pub enum WasmExecutionMethod {
    Interpreted,
    Compiled,
}

/// The parameters that every command shares.
#[derive(Debug, Clone)]
pub struct SharedParams {
    /// The chain to load, if one is named.
    pub chain: Option<String>,
    /// The execution strategy.
    pub execution: ExecutionStrategy,
    /// The method for executing wasm runtime code.
    pub wasm_method: WasmExecutionMethod,
    /// The number of 64KB pages to allocate for wasm execution, if given.
    pub heap_pages: Option<u64>,
}

/// A command of the tool with its shared parameters.
#[derive(Debug, Clone)]
pub struct TryRuntimeCmd {
    pub shared: SharedParams,
    pub command: Command,
}

impl TryRuntimeCmd {
    /// The shared parameters.
    pub fn shared_params(&self) -> (r: &SharedParams)
        ensures
            r == &self.shared,
    {
        &self.shared
    }

    /// The chain to load: the one named, or `dev`.
    pub fn chain_id(&self, _is_dev: bool) -> (r: String)
        ensures
            r@ == match self.shared.chain {
                Some(c) => c@,
                None => "dev"@,
            },
    {
        match &self.shared.chain {
            Some(c) => c.clone(),
            None => String::from_str("dev"),
        }
    }
}

impl SharedParams {
    /// The number of wasm heap pages to use: the requested number, or
    /// `default` when none is requested.
    pub fn effective_heap_pages(&self, default: Option<u64>) -> (r: Option<u64>)
        ensures
            r == if self.heap_pages is Some { self.heap_pages } else { default },
    {
        if self.heap_pages.is_some() {
            self.heap_pages
        } else {
            default
        }
    }
}

/// Whether `a` and `b` are the same character once ASCII letters are folded
/// to lower case.
pub open spec fn same_ignoring_case(a: char, b: char) -> bool {
    a == b || ('A' <= a <= 'Z' && a as u32 + 32 == b as u32) || ('A' <= b <= 'Z' && b as u32 + 32 == a as u32)
}

/// Whether `a` and `b` are the same text once ASCII letters are folded to
/// lower case.
pub open spec fn eq_ignoring_case(a: Seq<char>, b: Seq<char>) -> bool {
    a.len() == b.len() && forall|i: int| 0 <= i < a.len() ==> same_ignoring_case(#[trigger] a[i], b[i])
}

fn eq_ignore_ascii_case(a: &str, b: &str) -> (r: bool)
    ensures
        r == eq_ignoring_case(a@, b@),
{
    let n = a.unicode_len();
    if n != b.unicode_len() {
        return false;
    }
    let mut i: usize = 0;
    while i < n
        invariant
            n == a@.len(),
            n == b@.len(),
            i <= n,
            forall|k: int| 0 <= k < i ==> same_ignoring_case(#[trigger] a@[k], b@[k]),
        decreases n - i,
    {
        let x = a.get_char(i);
        let y = b.get_char(i);
        let same = x == y || ('A' <= x && x <= 'Z' && x as u32 + 32 == y as u32)
            || ('A' <= y && y <= 'Z' && y as u32 + 32 == x as u32);
        if !same {
            return false;
        }
        i = i + 1;
    }
    true
}

impl ExecutionStrategy {
    /// The strategy named `s`, ignoring ASCII case: `Native`, `Wasm`,
    /// `Both` or `NativeElseWasm`.
    pub fn from_name(s: &str) -> (r: Option<ExecutionStrategy>)
        ensures
            r == if eq_ignoring_case(s@, "Native"@) {
                Some(ExecutionStrategy::Native)
            } else if eq_ignoring_case(s@, "Wasm"@) {
                Some(ExecutionStrategy::Wasm)
            } else if eq_ignoring_case(s@, "Both"@) {
                Some(ExecutionStrategy::Both)
            } else if eq_ignoring_case(s@, "NativeElseWasm"@) {
                Some(ExecutionStrategy::NativeElseWasm)
            } else {
                None
            },
    {
        if eq_ignore_ascii_case(s, "Native") {
            Some(ExecutionStrategy::Native)
        } else if eq_ignore_ascii_case(s, "Wasm") {
            Some(ExecutionStrategy::Wasm)
        } else if eq_ignore_ascii_case(s, "Both") {
            Some(ExecutionStrategy::Both)
        } else if eq_ignore_ascii_case(s, "NativeElseWasm") {
            Some(ExecutionStrategy::NativeElseWasm)
        } else {
            None
        }
    }
}

impl WasmExecutionMethod {
    /// The method named `s`, ignoring ASCII case: `Interpreted` or
    /// `Compiled`.
    pub fn from_name(s: &str) -> (r: Option<WasmExecutionMethod>)
        ensures
            r == if eq_ignoring_case(s@, "Interpreted"@) {
                Some(WasmExecutionMethod::Interpreted)
            } else if eq_ignoring_case(s@, "Compiled"@) {
                Some(WasmExecutionMethod::Compiled)
            } else {
                None
            },
    {
        if eq_ignore_ascii_case(s, "Interpreted") {
            Some(WasmExecutionMethod::Interpreted)
        } else if eq_ignore_ascii_case(s, "Compiled") {
            Some(WasmExecutionMethod::Compiled)
        } else {
            None
        }
    }
}

impl std::str::FromStr for ExecutionStrategy {
    type Err = String;

    fn from_str(s: &str) -> Result<ExecutionStrategy, String> {
        match ExecutionStrategy::from_name(s) {
            Some(e) => Ok(e),
            None => Err("unknown execution strategy".to_owned()),
        }
    }
}

impl std::str::FromStr for WasmExecutionMethod {
    type Err = String;

    fn from_str(s: &str) -> Result<WasmExecutionMethod, String> {
        match WasmExecutionMethod::from_name(s) {
            Some(m) => Ok(m),
            None => Err("unknown wasm execution method".to_owned()),
        }
    }
}

/// The node that is asked for block headers when state comes from a
/// snapshot file.
pub open spec fn local_node_url() -> Seq<char> {
    "ws://127.0.0.1:9944"@
}

/// The url that block headers are fetched from for `state`: the live
/// chain's url, or the local node's for a snapshot file.
pub fn header_url(state: &State) -> (r: String)
    ensures
        r@ == match state {
            State::Live { url, .. } => url@,
            State::Snap { .. } => local_node_url(),
        },
{
    match state {
        State::Live { url, .. } => url.clone(),
        State::Snap { .. } => String::from_str("ws://127.0.0.1:9944"),
    }
}

/// The modules to scrape for `state`: those given, or none (the whole
/// state) when not given or when state comes from a snapshot file.
pub fn modules_to_scrape(state: &State) -> (r: Vec<String>)
    ensures
        r@.len() == match state {
            State::Live { modules: Some(m), .. } => m@.len(),
            _ => 0,
        },
        state matches State::Live { modules: Some(m), .. } ==> forall|i: int| 0 <= i < m@.len() ==> (#[trigger] r@[i])@ == m@[i]@,
{
    match state {
        State::Live { modules: Some(m), .. } => {
            let mut r: Vec<String> = Vec::new();
            let mut i: usize = 0;
            while i < m.len()
                invariant
                    i <= m@.len(),
                    r@.len() == i,
                    forall|k: int| 0 <= k < i ==> (#[trigger] r@[k])@ == m@[k]@,
                decreases m.len() - i,
            {
                r.push(m[i].clone());
                i = i + 1;
            }
            r
        },
        _ => Vec::new(),
    }
}

/// `256` to the power `k`.
pub open spec fn pow256(k: nat) -> nat
    decreases k,
{
    if k == 0 { 1 } else { 256 * pow256((k - 1) as nat) }
}

/// The little-endian value of the bytes `s`.
pub open spec fn le_value(s: Seq<u8>) -> nat
    decreases s.len(),
{
    if s.len() == 0 { 0 } else { s[0] as nat + 256 * le_value(s.drop_first()) }
}

/// Why the output of the upgrade hooks could not be read.
#[derive(Clone, Copy, Debug, PartialEq, Eq, Structural)]
pub enum WeightsError {
    /// Fewer than sixteen bytes were returned.
    NotEnoughData,
}

proof fn lemma_le_value_bound(s: Seq<u8>)
    ensures
        le_value(s) < pow256(s.len()),
    decreases s.len(),
{
    if s.len() > 0 {
        lemma_le_value_bound(s.drop_first());
    }
}

fn read_u64_le(bytes: &Vec<u8>, start: usize) -> (r: u64)
    requires
        start + 8 <= bytes@.len(),
    ensures
        r == le_value(bytes@.subrange(start as int, start + 8)),
{
    let n = bytes.len();
    let mut v: u64 = 0;
    let mut i: usize = 8;
    proof {
        reveal_with_fuel(pow256, 9);
        assert(pow256(8) == 0x1_0000_0000_0000_0000);
    }
    while i > 0
        invariant
            start + 8 <= bytes@.len(),
            n == bytes@.len(),
            i <= 8,
            pow256(8) == 0x1_0000_0000_0000_0000,
            v == le_value(bytes@.subrange(start + i, start + 8)),
        decreases i,
    {
        let ghost rest = bytes@.subrange(start + i, start + 8);
        let ghost next = bytes@.subrange(start + i - 1, start + 8);
        proof {
            assert(next.drop_first() =~= rest);
            lemma_le_value_bound(next);
            lemma_pow256_mono((8 - i + 1) as nat, 8);
            assert(next[0] == bytes@[start + i - 1]);
            assert(le_value(next) == next[0] as nat + 256 * le_value(rest));
            assert(le_value(next) < 0x1_0000_0000_0000_0000);
        }
        let b = bytes[start + i - 1];
        assert(b as nat + 256 * (v as nat) < 0x1_0000_0000_0000_0000);
        v = (b as u64) + 256 * v;
        i = i - 1;
    }
    v
}

proof fn lemma_pow256_mono(a: nat, b: nat)
    requires
        a <= b,
    ensures
        pow256(a) <= pow256(b),
    decreases b - a,
{
    if a < b {
        lemma_pow256_mono(a, (b - 1) as nat);
    }
}

/// Reads the consumed and the total weight that the runtime upgrade hooks
/// return: two little-endian `u64`s, in that order; bytes after them are
/// not read.
pub fn decode_weights(bytes: &Vec<u8>) -> (r: Result<(u64, u64), WeightsError>)
    ensures
        r is Ok <==> bytes@.len() >= 16,
        r matches Ok((w, t)) ==> w == le_value(bytes@.subrange(0, 8)) && t == le_value(bytes@.subrange(8, 16)),
        r matches Err(e) ==> e == WeightsError::NotEnoughData,
{
    if bytes.len() < 16 {
        return Err(WeightsError::NotEnoughData);
    }
    let w = read_u64_le(bytes, 0);
    let t = read_u64_le(bytes, 8);
    Ok((w, t))
}

} // verus!
