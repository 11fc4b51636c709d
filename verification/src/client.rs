//! Client configuration and assembly: the genesis mode, the core
//! configuration record, the slot clock mapping wall-clock time to slots,
//! and the builder that wires store, spec, genesis state, clock and chain
//! together in dependency order.

use vstd::prelude::*;
use crate::chain::{chain_wf, BeaconChain};
use crate::chain_spec::ChainSpec;
use crate::genesis::{generate_deterministic_keypairs, interop_genesis_state};
use crate::state::BeaconState;

verus! {

/// How the client finds the genesis state.
#[derive(Clone, Debug)]
pub enum ClientGenesis {
    /// Reads the genesis state and other persisted data from the store.
    Resume,
    /// Builds the deterministic interop genesis state.
    Interop { validator_count: usize, genesis_time: u64 },
    /// Waits for the deposit contract to accumulate enough validators.
    DepositContract,
    /// Loads a serialized genesis state from a file.
    SszFile { path: String },
    /// Reads genesis data from another running node.
    RemoteNode { server: String, port: Option<u16> },
}

/// The core configuration of a beacon node.  Paths are plain strings; the
/// directories behind them are the edge's concern.
#[derive(Clone, Debug)]
pub struct Config {
    pub data_dir: String,
    pub db_type: String,
    pub db_name: String,
    pub log_file: String,
    pub spec_constants: String,
    /// Use deterministic junk eth1 values instead of an eth1 node.
    pub dummy_eth1_backend: bool,
    pub sync_eth1_chain: bool,
    pub genesis: ClientGenesis,
}

impl Config {
    /// The default configuration: an on-disk database under the usual data
    /// directory, minimal spec constants, deposit-contract genesis.
    pub fn new_default() -> (r: Config)
        ensures
            r.data_dir@ == ".beacon_core"@,
            r.db_type@ == "disk"@,
            r.db_name@ == "chain_db"@,
            r.log_file@ == ""@,
            r.spec_constants@ == "minimal"@,
            !r.dummy_eth1_backend,
            !r.sync_eth1_chain,
            r.genesis is DepositContract,
    {
        Config {
            data_dir: new_strlit_owned(".beacon_core"),
            db_type: new_strlit_owned("disk"),
            db_name: new_strlit_owned("chain_db"),
            log_file: new_strlit_owned(""),
            spec_constants: new_strlit_owned("minimal"),
            dummy_eth1_backend: false,
            sync_eth1_chain: false,
            genesis: ClientGenesis::DepositContract,
        }
    }
}

/// An owned copy of a literal.
fn new_strlit_owned(s: &str) -> (r: String)
    ensures
        r@ == s@,
{
    proof {
        broadcast use vstd::string::to_string_from_display_ensures_for_str;

    }
    s.to_string()
}

/// Maps wall-clock time to slots, relative to the genesis timestamp.
#[derive(Clone, Copy, PartialEq, Eq, Structural, Debug)]
pub struct SlotClock {
    pub genesis_slot: u64,
    pub genesis_time_ms: u64,
    pub milliseconds_per_slot: u64,
}

impl SlotClock {
    pub open spec fn wf(self) -> bool {
        self.milliseconds_per_slot >= 1
    }

    pub fn new(genesis_slot: u64, genesis_time_ms: u64, milliseconds_per_slot: u64) -> (r:
        SlotClock)
        requires
            milliseconds_per_slot >= 1,
        ensures
            r == (SlotClock { genesis_slot, genesis_time_ms, milliseconds_per_slot }),
            r.wf(),
    {
        SlotClock { genesis_slot, genesis_time_ms, milliseconds_per_slot }
    }

    /// The slot at wall-clock time `now_ms`, or `None` before genesis.
    pub fn slot_at(&self, now_ms: u64) -> (r: Option<u64>)
        requires
            self.wf(),
        ensures
            match r {
                Option::Some(slot) => now_ms >= self.genesis_time_ms && slot as int
                    == self.genesis_slot + ((now_ms - self.genesis_time_ms) as u64
                    / self.milliseconds_per_slot) || (slot == u64::MAX && self.genesis_slot + ((
                now_ms - self.genesis_time_ms) as u64 / self.milliseconds_per_slot) > u64::MAX),
                Option::None => now_ms < self.genesis_time_ms,
            },
    {
        if now_ms < self.genesis_time_ms {
            return None;
        }
        let elapsed = (now_ms - self.genesis_time_ms) / self.milliseconds_per_slot;
        Some(crate::transition::exec_sat_add(self.genesis_slot, elapsed))
    }

    /// Milliseconds until the next slot boundary, or `None` before genesis.
    pub fn duration_to_next_slot_ms(&self, now_ms: u64) -> (r: Option<u64>)
        requires
            self.wf(),
        ensures
            match r {
                Option::Some(ms) => now_ms >= self.genesis_time_ms && ms as int
                    == self.milliseconds_per_slot - ((now_ms - self.genesis_time_ms) as u64
                    % self.milliseconds_per_slot),
                Option::None => now_ms < self.genesis_time_ms,
            },
    {
        if now_ms < self.genesis_time_ms {
            return None;
        }
        let into_slot = (now_ms - self.genesis_time_ms) % self.milliseconds_per_slot;
        Some(self.milliseconds_per_slot - into_slot)
    }
}

#[derive(Clone, Copy, PartialEq, Eq, Structural, Debug)]
pub enum BuildError {
    MissingChainSpec,
    MissingGenesisState,
    MissingSlotClock,
    MissingBeaconChain,
    UnsupportedGenesisMode,
    ZeroRootCollision,
}

/// The assembled client: the chain, ready to be wrapped by the services at
/// the edge.
pub struct Client {
    pub beacon_chain: Option<BeaconChain>,
}

/// Builds a `Client`: components are supplied in dependency order and
/// checked at build time, so a missing component is an error, not a type
/// puzzle.
pub struct ClientBuilder {
    pub chain_spec: Option<ChainSpec>,
    pub genesis_state: Option<BeaconState>,
    pub slot_clock: Option<SlotClock>,
    pub beacon_chain: Option<BeaconChain>,
    /// The store is in-memory; this marks that it was chosen explicitly.
    pub memory_store_chosen: bool,
    /// No eth1 backend: the client cannot produce deposit data.
    pub no_eth1: bool,
    /// A backend that serves deterministic junk eth1 values.
    pub dummy_eth1: bool,
}

impl ClientBuilder {
    /// An empty builder.
    pub fn new() -> (r: ClientBuilder)
        ensures
            r.chain_spec is None,
            r.genesis_state is None,
            r.beacon_chain is None,
    {
        ClientBuilder {
            chain_spec: None,
            genesis_state: None,
            slot_clock: None,
            beacon_chain: None,
            memory_store_chosen: false,
            no_eth1: false,
            dummy_eth1: false,
        }
    }

    /// Sets the chain constants.
    pub fn chain_spec(self, spec: ChainSpec) -> (r: ClientBuilder)
        ensures
            r.chain_spec == Some(spec),
            r.genesis_state == self.genesis_state,
            r.beacon_chain == self.beacon_chain,
    {
        ClientBuilder { chain_spec: Some(spec), ..self }
    }

    /// Chooses the in-memory store.
    pub fn memory_store(self) -> (r: ClientBuilder)
        ensures
            r.memory_store_chosen,
            r.chain_spec == self.chain_spec,
            r.genesis_state == self.genesis_state,
    {
        ClientBuilder { memory_store_chosen: true, ..self }
    }

    /// Uses no eth1 backend; the client cannot produce blocks.
    pub fn no_eth1_backend(self) -> (r: ClientBuilder)
        ensures
            r.no_eth1,
    {
        ClientBuilder { no_eth1: true, ..self }
    }

    /// Uses the deterministic junk eth1 backend.
    pub fn dummy_eth1_backend(self) -> (r: ClientBuilder)
        ensures
            r.dummy_eth1,
    {
        ClientBuilder { dummy_eth1: true, ..self }
    }

    /// Supplies a genesis state resolved at the edge: a state read from a
    /// file, from an eth1 node or from a remote peer is handed in here and
    /// checked at build time.
    pub fn genesis_state(self, state: BeaconState) -> (r: ClientBuilder)
        ensures
            r.genesis_state matches Some(st) && st@ == state@,
            r.chain_spec == self.chain_spec,
            r.slot_clock == self.slot_clock,
            r.beacon_chain == self.beacon_chain,
    {
        ClientBuilder { genesis_state: Some(state), ..self }
    }

    /// Resolves the genesis state.  Only the deterministic interop mode
    /// can be built without the edge's help; the other modes are resolved
    /// at the edge — a file, an eth1 node or a remote peer — and hand
    /// their state in through `genesis_state`.
    pub fn beacon_chain_builder(self, client_genesis: ClientGenesis) -> (r: Result<
        ClientBuilder,
        BuildError,
    >)
        ensures
            r is Ok <==> (self.chain_spec matches Some(cs) && cs.wf()
                && (client_genesis matches ClientGenesis::Interop { validator_count, genesis_time }
                && validator_count < usize::MAX)),
            match r {
                Ok(b) => self.chain_spec is Some && b.chain_spec == self.chain_spec
                    && b.genesis_state is Some && (match client_genesis {
                    ClientGenesis::Interop { validator_count, genesis_time } => {
                        &&& b.genesis_state->Some_0@.validator_registry.len() == validator_count
                        &&& b.genesis_state->Some_0@.genesis_time == genesis_time
                        &&& b.genesis_state->Some_0@.slot == self.chain_spec->Some_0.genesis_slot
                        &&& b.genesis_state->Some_0@.wf(self.chain_spec->Some_0)
                    },
                    _ => false,
                }),
                Err(e) => {
                    &&& (e == BuildError::MissingChainSpec <==> (self.chain_spec is None
                        || !self.chain_spec->Some_0.wf()))
                    &&& (e == BuildError::UnsupportedGenesisMode <==> (self.chain_spec matches Some(
                        cs,
                    ) && cs.wf() && !(client_genesis matches ClientGenesis::Interop {
                        validator_count,
                        genesis_time,
                    } && validator_count < usize::MAX)))
                },
            },
    {
        let spec = match &self.chain_spec {
            Option::Some(s) => *s,
            Option::None => {
                return Err(BuildError::MissingChainSpec);
            },
        };
        if !spec.check_wf() {
            return Err(BuildError::MissingChainSpec);
        }
        match client_genesis {
            ClientGenesis::Interop { validator_count, genesis_time } => {
                if !(validator_count < usize::MAX) {
                    return Err(BuildError::UnsupportedGenesisMode);
                }
                let keypairs = generate_deterministic_keypairs(validator_count);
                let state = interop_genesis_state(&keypairs, genesis_time, &spec);
                Ok(ClientBuilder { genesis_state: Some(state), ..self })
            },
            _ => Err(BuildError::UnsupportedGenesisMode),
        }
    }

    /// Builds the slot clock from the genesis state's timestamp.
    pub fn system_time_slot_clock(self) -> (r: Result<ClientBuilder, BuildError>)
        ensures
            r is Ok <==> (self.chain_spec is Some && self.genesis_state is Some),
            match r {
                Ok(b) => self.chain_spec is Some && self.genesis_state is Some && b.slot_clock
                    is Some && b.slot_clock->Some_0.wf() && b.chain_spec == self.chain_spec
                    && b.genesis_state == self.genesis_state,
                Err(e) => {
                    &&& (e == BuildError::MissingChainSpec <==> self.chain_spec is None)
                    &&& (e == BuildError::MissingGenesisState <==> (self.chain_spec is Some
                        && self.genesis_state is None))
                },
            },
    {
        let spec = match &self.chain_spec {
            Option::Some(s) => *s,
            Option::None => {
                return Err(BuildError::MissingChainSpec);
            },
        };
        let genesis_time = match &self.genesis_state {
            Option::Some(s) => s.genesis_time,
            Option::None => {
                return Err(BuildError::MissingGenesisState);
            },
        };
        let ms_per_slot = if spec.milliseconds_per_slot >= 1 {
            spec.milliseconds_per_slot
        } else {
            1
        };
        let clock = SlotClock::new(
            spec.genesis_slot,
            if genesis_time <= u64::MAX / 1000 {
                genesis_time * 1000
            } else {
                u64::MAX
            },
            ms_per_slot,
        );
        Ok(ClientBuilder { slot_clock: Some(clock), ..self })
    }

    /// A builder can assemble the chain when the spec, a well-formed
    /// non-empty genesis state at the genesis slot, and a slot clock are
    /// all present, and the genesis root does not collide with the
    /// reserved zero root.
    pub open spec fn spec_can_build(self) -> bool {
        &&& self.chain_spec matches Some(cs) && cs.wf()
        &&& self.slot_clock is Some
        &&& self.genesis_state matches Some(st) && st@.validator_registry.len() > 0 && st@.slot
            == self.chain_spec->Some_0.genesis_slot && st@.wf(self.chain_spec->Some_0)
            && crate::chain::spec_genesis_root(st@, self.chain_spec->Some_0)
            != crate::hash256::Hash256::spec_zero()
    }

    /// Builds the beacon chain from the resolved genesis state; requires
    /// the slot clock, as the chain cannot judge future blocks without
    /// one.
    pub fn build_beacon_chain(self) -> (r: Result<ClientBuilder, BuildError>)
        ensures
            r is Ok <==> self.spec_can_build(),
            match r {
                Ok(b) => ({
                    &&& b.beacon_chain matches Some(c)
                    &&& chain_wf(&c)
                    &&& c.spec == self.chain_spec->Some_0
                    &&& c.head_block@ == crate::chain::spec_genesis_block(
                        self.genesis_state->Some_0@,
                        self.chain_spec->Some_0,
                    )
                    &&& c.head_block_root == crate::chain::spec_genesis_root(
                        self.genesis_state->Some_0@,
                        self.chain_spec->Some_0,
                    )
                    &&& b.slot_clock == self.slot_clock
                }),
                Err(e) => {
                    &&& (e == BuildError::MissingChainSpec <==> self.chain_spec is None)
                    &&& (e == BuildError::MissingGenesisState <==> (self.chain_spec is Some
                        && self.genesis_state is None))
                    &&& (e == BuildError::MissingSlotClock <==> (self.chain_spec is Some
                        && self.genesis_state is Some && self.slot_clock is None))
                },
            },
    {
        let spec = match &self.chain_spec {
            Option::Some(s) => *s,
            Option::None => {
                return Err(BuildError::MissingChainSpec);
            },
        };
        let state = match self.genesis_state {
            Option::Some(s) => s,
            Option::None => {
                return Err(BuildError::MissingGenesisState);
            },
        };
        if self.slot_clock.is_none() {
            return Err(BuildError::MissingSlotClock);
        }
        if !(spec.check_wf() && state.validator_registry.len() > 0) {
            return Err(BuildError::UnsupportedGenesisMode);
        }
        if state.slot != spec.genesis_slot {
            return Err(BuildError::UnsupportedGenesisMode);
        }
        if !state_wf_check(&state, &spec) {
            return Err(BuildError::UnsupportedGenesisMode);
        }
        match BeaconChain::from_genesis(state, spec) {
            Option::Some(chain) => Ok(
                ClientBuilder {
                    beacon_chain: Some(chain),
                    chain_spec: self.chain_spec,
                    genesis_state: None,
                    slot_clock: self.slot_clock,
                    memory_store_chosen: self.memory_store_chosen,
                    no_eth1: self.no_eth1,
                    dummy_eth1: self.dummy_eth1,
                },
            ),
            Option::None => Err(BuildError::ZeroRootCollision),
        }
    }

    /// Consumes the builder, yielding the client.
    pub fn build(self) -> (r: Client)
        ensures
            r.beacon_chain == self.beacon_chain,
    {
        Client { beacon_chain: self.beacon_chain }
    }
}

/// Checks the structural state invariant at runtime, so the builder can
/// accept states from any source.
fn state_wf_check(state: &BeaconState, spec: &ChainSpec) -> (r: bool)
    requires
        spec.wf(),
    ensures
        r == state@.wf(*spec),
{
    let n = state.validator_registry.len();
    state.fork.previous_version < 0x100000000 && state.fork.current_version < 0x100000000 && n
        == state.balances.len() && state.latest_randao_mixes.len() as u64
        == spec.latest_randao_mixes_length && state.finalized_epoch
        <= state.previous_justified_epoch && state.previous_justified_epoch
        <= state.current_justified_epoch && state.current_justified_epoch
        <= state.slot / spec.slots_per_epoch
}

} // verus!
