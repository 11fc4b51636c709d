//! The peer protocol state machine: `Status` exchange and peer
//! classification, block requests served from the store, and gossip
//! dispatch into the chain with a forwarding decision.
//!
//! Network and sync-manager channels are modeled as owned outboxes: every
//! send appends an event, and the caller at the edge drains them.

use vstd::prelude::*;
use crate::beacon_codec::{encode_beacon_block, spec_beacon_block_wire};
use crate::chain::{chain_wf, AttestationProcessingOutcome, BeaconChain, BlockProcessingOutcome};
use crate::hash256::Hash256;
use crate::store::spec_lookup_block;
use crate::types::{Attestation, BeaconBlock, BeaconBlockView};

verus! {

/// How many slots ahead of the clock a gossip block may sit and still be
/// queued rather than dropped.
pub const FUTURE_SLOT_TOLERANCE: u64 = 1;

/// The peer-count notifier warns at or below this many connected peers.
pub const WARN_PEER_COUNT: usize = 1;

/// The peer-count notifier's decision: warn when the node has at most
/// `WARN_PEER_COUNT` connected peers.
pub fn low_peer_count(connected_peer_count: usize) -> (r: bool)
    ensures
        r == (connected_peer_count <= WARN_PEER_COUNT),
{
    connected_peer_count <= WARN_PEER_COUNT
}

/// A wire `Status`: fork version (as the integer value of the 4-byte
/// field), the finalized checkpoint, and the head.
#[derive(Clone, Copy, PartialEq, Eq, Structural, Debug)]
pub struct StatusMessage {
    pub fork_version: u64,
    pub finalized_root: Hash256,
    pub finalized_epoch: u64,
    pub head_root: Hash256,
    pub head_slot: u64,
}

/// Syncing information for a known connected peer.
#[derive(Clone, Copy, PartialEq, Eq, Structural, Debug)]
pub struct PeerSyncInfo {
    pub fork_version: u64,
    pub finalized_root: Hash256,
    pub finalized_epoch: u64,
    pub head_root: Hash256,
    pub head_slot: u64,
}

impl PeerSyncInfo {
    pub open spec fn spec_from_status(status: StatusMessage) -> PeerSyncInfo {
        PeerSyncInfo {
            fork_version: status.fork_version,
            finalized_root: status.finalized_root,
            finalized_epoch: status.finalized_epoch,
            head_root: status.head_root,
            head_slot: status.head_slot,
        }
    }

    pub fn from_status(status: StatusMessage) -> (r: PeerSyncInfo)
        ensures
            r == PeerSyncInfo::spec_from_status(status),
    {
        PeerSyncInfo {
            fork_version: status.fork_version,
            finalized_root: status.finalized_root,
            finalized_epoch: status.finalized_epoch,
            head_root: status.head_root,
            head_slot: status.head_slot,
        }
    }
}

/// The local node's status: its fork version, finalized checkpoint and
/// head.
pub open spec fn spec_status_of(c: &BeaconChain) -> StatusMessage {
    StatusMessage {
        fork_version: c.head_state@.fork.current_version,
        finalized_root: c.head_state@.finalized_root,
        finalized_epoch: c.head_state@.finalized_epoch,
        head_root: c.head_block_root,
        head_slot: c.head_state@.slot,
    }
}

pub fn status_message(beacon_chain: &BeaconChain) -> (r: StatusMessage)
    ensures
        r == spec_status_of(beacon_chain),
{
    StatusMessage {
        fork_version: beacon_chain.head_state.fork.current_version,
        finalized_root: beacon_chain.head_state.finalized_root,
        finalized_epoch: beacon_chain.head_state.finalized_epoch,
        head_root: beacon_chain.head_block_root,
        head_slot: beacon_chain.head_state.slot,
    }
}

pub type PeerId = u64;

pub type RequestId = u64;

#[derive(Clone, Copy, PartialEq, Eq, Structural, Debug)]
pub enum GoodbyeReason {
    ClientShutdown,
    IrrelevantNetwork,
    Fault,
}

#[derive(Clone, Copy, PartialEq, Eq, Structural, Debug)]
pub struct BlocksByRangeRequest {
    pub start_slot: u64,
    pub count: u64,
    pub step: u64,
}

#[derive(Clone, Debug)]
pub struct BlocksByRootRequest {
    pub block_roots: Vec<Hash256>,
}

/// An outgoing request; block payloads travel as canonical encodings.
#[derive(Clone, Debug)]
pub enum RPCRequest {
    Status(StatusMessage),
    Goodbye(GoodbyeReason),
    BlocksByRange(BlocksByRangeRequest),
    BlocksByRoot(Vec<Hash256>),
}

pub enum RPCRequestView {
    Status(StatusMessage),
    Goodbye(GoodbyeReason),
    BlocksByRange(BlocksByRangeRequest),
    BlocksByRoot(Seq<Hash256>),
}

impl View for RPCRequest {
    type V = RPCRequestView;

    open spec fn view(&self) -> RPCRequestView {
        match self {
            RPCRequest::Status(s) => RPCRequestView::Status(*s),
            RPCRequest::Goodbye(g) => RPCRequestView::Goodbye(*g),
            RPCRequest::BlocksByRange(r) => RPCRequestView::BlocksByRange(*r),
            RPCRequest::BlocksByRoot(v) => RPCRequestView::BlocksByRoot(v@),
        }
    }
}

/// A response frame; a `None` payload is the stream terminator.
#[derive(Clone, Debug)]
pub enum RPCResponse {
    Status(StatusMessage),
    BlocksByRange(Option<Vec<u8>>),
    BlocksByRoot(Option<Vec<u8>>),
}

pub enum RPCResponseView {
    Status(StatusMessage),
    BlocksByRange(Option<Seq<u8>>),
    BlocksByRoot(Option<Seq<u8>>),
}

impl View for RPCResponse {
    type V = RPCResponseView;

    open spec fn view(&self) -> RPCResponseView {
        match self {
            RPCResponse::Status(s) => RPCResponseView::Status(*s),
            RPCResponse::BlocksByRange(o) => RPCResponseView::BlocksByRange(
                match o {
                    Option::Some(v) => Some(v@),
                    Option::None => None,
                },
            ),
            RPCResponse::BlocksByRoot(o) => RPCResponseView::BlocksByRoot(
                match o {
                    Option::Some(v) => Some(v@),
                    Option::None => None,
                },
            ),
        }
    }
}

/// One queued network send.
pub enum NetworkEvent {
    Request { peer_id: PeerId, request_id: RequestId, request: RPCRequest },
    Response { peer_id: PeerId, request_id: RequestId, response: RPCResponse },
}

pub enum NetworkEventView {
    Request { peer_id: PeerId, request_id: RequestId, request: RPCRequestView },
    Response { peer_id: PeerId, request_id: RequestId, response: RPCResponseView },
}

impl View for NetworkEvent {
    type V = NetworkEventView;

    open spec fn view(&self) -> NetworkEventView {
        match self {
            NetworkEvent::Request { peer_id, request_id, request } => NetworkEventView::Request {
                peer_id: *peer_id,
                request_id: *request_id,
                request: request@,
            },
            NetworkEvent::Response { peer_id, request_id, response } => NetworkEventView::Response {
                peer_id: *peer_id,
                request_id: *request_id,
                response: response@,
            },
        }
    }
}

/// The outbox standing for the channel to the network service.
pub struct NetworkContext {
    pub events: Vec<NetworkEvent>,
}

impl View for NetworkContext {
    type V = Seq<NetworkEventView>;

    open spec fn view(&self) -> Seq<NetworkEventView> {
        Seq::new(self.events@.len(), |i: int| self.events@[i]@)
    }
}

impl NetworkContext {
    pub fn new() -> (r: NetworkContext)
        ensures
            r@.len() == 0,
    {
        let r = NetworkContext { events: Vec::new() };
        proof {
            assert(r@ =~= Seq::<NetworkEventView>::empty());
        }
        r
    }

    /// Queues a request; without an explicit id the default id 0 is used.
    pub fn send_rpc_request(
        &mut self,
        request_id: Option<RequestId>,
        peer_id: PeerId,
        rpc_request: RPCRequest,
    )
        ensures
            final(self)@ == old(self)@.push(
                NetworkEventView::Request {
                    peer_id,
                    request_id: (match request_id {
                        Option::Some(id) => id,
                        Option::None => 0,
                    }),
                    request: rpc_request@,
                },
            ),
    {
        let id = match request_id {
            Option::Some(id) => id,
            Option::None => 0,
        };
        let ghost ev = rpc_request@;
        self.events.push(NetworkEvent::Request { peer_id, request_id: id, request: rpc_request });
        proof {
            assert(self@ =~= old(self)@.push(
                NetworkEventView::Request { peer_id, request_id: id, request: ev },
            ));
        }
    }

    pub fn send_rpc_response(
        &mut self,
        peer_id: PeerId,
        request_id: RequestId,
        rpc_response: RPCResponse,
    )
        ensures
            final(self)@ == old(self)@.push(
                NetworkEventView::Response { peer_id, request_id, response: rpc_response@ },
            ),
    {
        let ghost ev = rpc_response@;
        self.events.push(NetworkEvent::Response { peer_id, request_id, response: rpc_response });
        proof {
            assert(self@ =~= old(self)@.push(
                NetworkEventView::Response { peer_id, request_id, response: ev },
            ));
        }
    }

    /// Tells the peer goodbye; the transport-level disconnect happens at
    /// the edge.
    pub fn disconnect(&mut self, peer_id: PeerId, reason: GoodbyeReason)
        ensures
            final(self)@ == old(self)@.push(
                NetworkEventView::Request {
                    peer_id,
                    request_id: 0,
                    request: RPCRequestView::Goodbye(reason),
                },
            ),
    {
        self.send_rpc_request(None, peer_id, RPCRequest::Goodbye(reason));
    }
}

/// A message to the sync manager.
pub enum SyncMessage {
    AddPeer(PeerId, PeerSyncInfo),
    Disconnect(PeerId),
    UnknownBlock(PeerId, BeaconBlock),
    BlocksByRangeResponse { peer_id: PeerId, request_id: RequestId, beacon_block: Option<BeaconBlock> },
    BlocksByRootResponse { peer_id: PeerId, request_id: RequestId, beacon_block: Option<BeaconBlock> },
}

pub enum SyncMessageView {
    AddPeer(PeerId, PeerSyncInfo),
    Disconnect(PeerId),
    UnknownBlock(PeerId, BeaconBlockView),
    BlocksByRangeResponse { peer_id: PeerId, request_id: RequestId, beacon_block: Option<BeaconBlockView> },
    BlocksByRootResponse { peer_id: PeerId, request_id: RequestId, beacon_block: Option<BeaconBlockView> },
}

impl View for SyncMessage {
    type V = SyncMessageView;

    open spec fn view(&self) -> SyncMessageView {
        match self {
            SyncMessage::AddPeer(p, i) => SyncMessageView::AddPeer(*p, *i),
            SyncMessage::Disconnect(p) => SyncMessageView::Disconnect(*p),
            SyncMessage::UnknownBlock(p, b) => SyncMessageView::UnknownBlock(*p, b@),
            SyncMessage::BlocksByRangeResponse { peer_id, request_id, beacon_block } => SyncMessageView::BlocksByRangeResponse {
                peer_id: *peer_id,
                request_id: *request_id,
                beacon_block: (match beacon_block {
                    Option::Some(b) => Some(b@),
                    Option::None => None,
                }),
            },
            SyncMessage::BlocksByRootResponse { peer_id, request_id, beacon_block } => SyncMessageView::BlocksByRootResponse {
                peer_id: *peer_id,
                request_id: *request_id,
                beacon_block: (match beacon_block {
                    Option::Some(b) => Some(b@),
                    Option::None => None,
                }),
            },
        }
    }
}

/// The goodbye event `process_status` sends to an irrelevant peer.
pub open spec fn spec_goodbye_event(peer_id: PeerId) -> NetworkEventView {
    NetworkEventView::Request {
        peer_id,
        request_id: 0,
        request: RPCRequestView::Goodbye(GoodbyeReason::IrrelevantNetwork),
    }
}

/// Processes validated messages from the network: it serves requests from
/// the chain and the store, relays responses to the sync manager, and
/// applies gossip.
pub struct MessageProcessor {
    pub chain: BeaconChain,
    pub network: NetworkContext,
    pub sync_queue: Vec<SyncMessage>,
}

pub open spec fn mp_wf(mp: &MessageProcessor) -> bool {
    chain_wf(&mp.chain)
}

pub open spec fn sync_view(mp: &MessageProcessor) -> Seq<SyncMessageView> {
    Seq::new(mp.sync_queue@.len(), |i: int| mp.sync_queue@[i]@)
}

/// Whether a gossip block is forwarded to peers: yes for processed, known,
/// parent-unknown and tolerably-future blocks; no for invalid ones.
pub open spec fn spec_should_forward(
    outcome: BlockProcessingOutcome,
) -> bool {
    match outcome {
        BlockProcessingOutcome::Processed { block_root } => true,
        BlockProcessingOutcome::ParentUnknown { parent } => true,
        BlockProcessingOutcome::BlockIsAlreadyKnown => true,
        BlockProcessingOutcome::FutureSlot { present_slot, block_slot } => present_slot
            + FUTURE_SLOT_TOLERANCE >= block_slot,
        _ => false,
    }
}

impl MessageProcessor {
    /// Wraps a chain with empty network and sync outboxes.
    pub fn new(beacon_chain: BeaconChain) -> (r: MessageProcessor)
        requires
            chain_wf(&beacon_chain),
        ensures
            mp_wf(&r),
            r.network@.len() == 0,
            sync_view(&r).len() == 0,
            r.chain == beacon_chain,
    {
        let r = MessageProcessor {
            chain: beacon_chain,
            network: NetworkContext::new(),
            sync_queue: Vec::new(),
        };
        proof {
            assert(sync_view(&r) =~= Seq::<SyncMessageView>::empty());
        }
        r
    }

    fn send_to_sync(&mut self, message: SyncMessage)
        ensures
            final(self).chain == old(self).chain,
            final(self).network == old(self).network,
            sync_view(final(self)) == sync_view(old(self)).push(message@),
    {
        let ghost mv = message@;
        self.sync_queue.push(message);
        proof {
            assert(sync_view(self) =~= sync_view(old(self)).push(mv));
        }
    }

    /// A peer disconnected: tell the sync manager.
    pub fn on_disconnect(&mut self, peer_id: PeerId)
        requires
            mp_wf(old(self)),
        ensures
            mp_wf(final(self)),
            final(self).chain == old(self).chain,
            final(self).network == old(self).network,
            sync_view(final(self)) == sync_view(old(self)).push(
                SyncMessageView::Disconnect(peer_id),
            ),
    {
        self.send_to_sync(SyncMessage::Disconnect(peer_id));
    }

    /// A peer connected: greet it with our status.
    pub fn on_connect(&mut self, peer_id: PeerId)
        requires
            mp_wf(old(self)),
        ensures
            mp_wf(final(self)),
            final(self).chain == old(self).chain,
            final(self).sync_queue == old(self).sync_queue,
            final(self).network@ == old(self).network@.push(
                NetworkEventView::Request {
                    peer_id,
                    request_id: 0,
                    request: RPCRequestView::Status(spec_status_of(&old(self).chain)),
                },
            ),
    {
        let status = status_message(&self.chain);
        self.network.send_rpc_request(None, peer_id, RPCRequest::Status(status));
    }

    /// A `Status` request: answer with our own status, then classify
    /// exactly as a `Status` response would.
    pub fn on_status_request(
        &mut self,
        peer_id: PeerId,
        request_id: RequestId,
        status: StatusMessage,
    )
        requires
            mp_wf(old(self)),
        ensures
            mp_wf(final(self)),
            final(self).chain == old(self).chain,
            spec_status_outcome(
                &old(self).chain,
                old(self).network@.push(
                    NetworkEventView::Response {
                        peer_id,
                        request_id,
                        response: RPCResponseView::Status(spec_status_of(&old(self).chain)),
                    },
                ),
                sync_view(old(self)),
                final(self).network@,
                sync_view(final(self)),
                peer_id,
                status,
            ),
    {
        let reply = status_message(&self.chain);
        self.network.send_rpc_response(peer_id, request_id, RPCResponse::Status(reply));
        self.process_status(peer_id, status);
    }

    /// A `Status` response: classify without answering.
    pub fn on_status_response(&mut self, peer_id: PeerId, status: StatusMessage)
        requires
            mp_wf(old(self)),
        ensures
            mp_wf(final(self)),
            final(self).chain == old(self).chain,
            spec_status_outcome(
                &old(self).chain,
                old(self).network@,
                sync_view(old(self)),
                final(self).network@,
                sync_view(final(self)),
                peer_id,
                status,
            ),
    {
        self.process_status(peer_id, status);
    }

    /// Classifies the remote peer and acts on the result: goodbye to
    /// irrelevant peers, silence to naive ones, and a hand-off to the sync
    /// manager for useful ones.
    fn process_status(&mut self, peer_id: PeerId, status: StatusMessage)
        requires
            mp_wf(old(self)),
        ensures
            mp_wf(final(self)),
            final(self).chain == old(self).chain,
            spec_status_outcome(
                &old(self).chain,
                old(self).network@,
                sync_view(old(self)),
                final(self).network@,
                sync_view(final(self)),
                peer_id,
                status,
            ),
    {
        let remote = PeerSyncInfo::from_status(status);
        let local = PeerSyncInfo::from_status(status_message(&self.chain));
        let start_slot = self.chain.spec.start_slot_of_epoch(remote.finalized_epoch);
        let root_at = self.chain.root_at_slot(start_slot);
        let head_known = self.chain.store.exists_block(&remote.head_root);
        if local.fork_version != remote.fork_version {
            self.network.disconnect(peer_id, GoodbyeReason::IrrelevantNetwork);
        } else if remote.finalized_epoch <= local.finalized_epoch && !remote.finalized_root.is_zero()
            && !local.finalized_root.is_zero() && !(match &root_at {
            Option::Some(r) => r.eq_root(&remote.finalized_root),
            Option::None => false,
        }) {
            self.network.disconnect(peer_id, GoodbyeReason::IrrelevantNetwork);
        } else if remote.finalized_epoch < local.finalized_epoch {
            // A naive peer: same chain, less finality; nothing to request.
        } else if head_known {
            self.send_to_sync(SyncMessage::AddPeer(peer_id, remote));
        } else {
            self.send_to_sync(SyncMessage::AddPeer(peer_id, remote));
        }
    }
}

/// The remote peer is irrelevant: another fork version, or a finalized
/// checkpoint that contradicts the local canonical chain — both
/// checkpoints nonzero, the remote epoch not ahead, and the local
/// canonical root at the start slot of the remote finalized epoch not the
/// remote finalized root.
pub open spec fn spec_peer_irrelevant(c: &BeaconChain, remote: PeerSyncInfo) -> bool {
    let local = PeerSyncInfo::spec_from_status(spec_status_of(c));
    ||| local.fork_version != remote.fork_version
    ||| (remote.finalized_epoch <= local.finalized_epoch && remote.finalized_root
        != Hash256::spec_zero() && local.finalized_root != Hash256::spec_zero()
        && crate::chain::spec_root_at(
        crate::chain::spec_head_walk(c),
        c.spec.spec_start_slot_of_epoch(remote.finalized_epoch),
    ) != Some(remote.finalized_root))
}

/// What classifying a `Status` does, exactly: an irrelevant peer is told
/// goodbye; a relevant peer with lower finality is left alone; any other
/// relevant peer is handed to the sync manager.
pub open spec fn spec_status_outcome(
    chain: &BeaconChain,
    pre_net: Seq<NetworkEventView>,
    pre_sync: Seq<SyncMessageView>,
    post_net: Seq<NetworkEventView>,
    post_sync: Seq<SyncMessageView>,
    peer_id: PeerId,
    status: StatusMessage,
) -> bool {
    let local = PeerSyncInfo::spec_from_status(spec_status_of(chain));
    let remote = PeerSyncInfo::spec_from_status(status);
    if spec_peer_irrelevant(chain, remote) {
        post_net == pre_net.push(spec_goodbye_event(peer_id)) && post_sync == pre_sync
    } else if remote.finalized_epoch < local.finalized_epoch {
        post_net == pre_net && post_sync == pre_sync
    } else {
        post_net == pre_net && post_sync == pre_sync.push(
            SyncMessageView::AddPeer(peer_id, remote),
        )
    }
}


/// The response frames a `BlocksByRoot` request earns: one frame per known
/// root, in request order.
pub open spec fn spec_root_responses(
    blocks: Seq<(Hash256, BeaconBlockView)>,
    roots: Seq<Hash256>,
    peer_id: PeerId,
    request_id: RequestId,
) -> Seq<NetworkEventView>
    decreases roots.len(),
{
    if roots.len() == 0 {
        Seq::empty()
    } else {
        let rest = spec_root_responses(blocks, roots.drop_first(), peer_id, request_id);
        match spec_lookup_block(blocks, roots.first()) {
            Option::Some(b) => seq![
                NetworkEventView::Response {
                    peer_id,
                    request_id,
                    response: RPCResponseView::BlocksByRoot(Some(spec_beacon_block_wire(b))),
                },
            ] + rest,
            Option::None => rest,
        }
    }
}

#[verifier::rlimit(100)]
#[verifier::spinoff_prover]
proof fn lemma_root_responses_push(
    blocks: Seq<(Hash256, BeaconBlockView)>,
    roots: Seq<Hash256>,
    x: Hash256,
    peer_id: PeerId,
    request_id: RequestId,
)
    ensures
        spec_root_responses(blocks, roots.push(x), peer_id, request_id) == spec_root_responses(
            blocks,
            roots,
            peer_id,
            request_id,
        ) + (match spec_lookup_block(blocks, x) {
            Option::Some(b) => seq![
                NetworkEventView::Response {
                    peer_id,
                    request_id,
                    response: RPCResponseView::BlocksByRoot(Some(spec_beacon_block_wire(b))),
                },
            ],
            Option::None => Seq::empty(),
        }),
    decreases roots.len(),
{
    reveal_with_fuel(spec_root_responses, 3);
    let tail = (match spec_lookup_block(blocks, x) {
        Option::Some(b) => seq![
            NetworkEventView::Response {
                peer_id,
                request_id,
                response: RPCResponseView::BlocksByRoot(Some(spec_beacon_block_wire(b))),
            },
        ],
        Option::None => Seq::<NetworkEventView>::empty(),
    });
    if roots.len() == 0 {
        assert(roots.push(x).first() == x);
        assert(roots.push(x).drop_first() =~= Seq::<Hash256>::empty());
        assert(spec_root_responses(blocks, roots.push(x), peer_id, request_id)
            =~= spec_root_responses(blocks, roots, peer_id, request_id) + tail);
    } else {
        assert(roots.push(x).first() == roots.first());
        assert(roots.push(x).drop_first() =~= roots.drop_first().push(x));
        lemma_root_responses_push(blocks, roots.drop_first(), x, peer_id, request_id);
        assert(spec_root_responses(blocks, roots.push(x), peer_id, request_id)
            =~= spec_root_responses(blocks, roots, peer_id, request_id) + tail);
    }
}

pub open spec fn spec_terminator_by_root(peer_id: PeerId, request_id: RequestId) -> NetworkEventView {
    NetworkEventView::Response {
        peer_id,
        request_id,
        response: RPCResponseView::BlocksByRoot(None),
    }
}

pub open spec fn spec_terminator_by_range(peer_id: PeerId, request_id: RequestId) -> NetworkEventView {
    NetworkEventView::Response {
        peer_id,
        request_id,
        response: RPCResponseView::BlocksByRange(None),
    }
}

/// The block frames a `BlocksByRange` request earns from the canonical
/// walk: one frame per stored walk entry with slot in
/// `[start_slot, start_slot + count)`, lowest slot first.
pub open spec fn spec_range_frames(
    blocks: Seq<(Hash256, BeaconBlockView)>,
    walk: Seq<(Hash256, u64)>,
    start_slot: u64,
    count: u64,
    peer_id: PeerId,
    request_id: RequestId,
) -> Seq<NetworkEventView>
    decreases walk.len(),
{
    if walk.len() == 0 {
        Seq::empty()
    } else {
        let earlier = spec_range_frames(
            blocks,
            walk.drop_last(),
            start_slot,
            count,
            peer_id,
            request_id,
        );
        let entry = walk.last();
        if start_slot <= entry.1 && entry.1 < start_slot + count {
            (match spec_lookup_block(blocks, entry.0) {
                Option::Some(b) => seq![
                    NetworkEventView::Response {
                        peer_id,
                        request_id,
                        response: RPCResponseView::BlocksByRange(
                            Some(spec_beacon_block_wire(b)),
                        ),
                    },
                ],
                Option::None => Seq::empty(),
            }) + earlier
        } else {
            earlier
        }
    }
}

impl MessageProcessor {
    /// Serves a `BlocksByRoot` request: one frame per known root, unknown
    /// roots silently skipped, then the stream terminator.
    #[verifier::loop_isolation(false)]
    #[verifier::rlimit(100)]
    pub fn on_blocks_by_root_request(
        &mut self,
        peer_id: PeerId,
        request_id: RequestId,
        request: BlocksByRootRequest,
    )
        requires
            mp_wf(old(self)),
        ensures
            mp_wf(final(self)),
            final(self).chain == old(self).chain,
            sync_view(final(self)) == sync_view(old(self)),
            final(self).network@ == old(self).network@ + spec_root_responses(
                old(self).chain.store@.blocks,
                request.block_roots@,
                peer_id,
                request_id,
            ) + seq![spec_terminator_by_root(peer_id, request_id)],
    {
        let roots = &request.block_roots;
        let n = roots.len();
        let ghost base = self.network@;
        let mut i: usize = 0;
        proof {
            assert(roots@.take(0) =~= Seq::<Hash256>::empty());
            assert(base + spec_root_responses(
                self.chain.store@.blocks,
                roots@.take(0),
                peer_id,
                request_id,
            ) =~= base);
        }
        while i < n
            invariant
                i <= n,
                self.chain == old(self).chain,
                self.sync_queue == old(self).sync_queue,
                self.network@ == base + spec_root_responses(
                    old(self).chain.store@.blocks,
                    roots@.take(i as int),
                    peer_id,
                    request_id,
                ),
            decreases n - i,
        {
            proof {
                lemma_root_responses_push(
                    self.chain.store@.blocks,
                    roots@.take(i as int),
                    roots@[i as int],
                    peer_id,
                    request_id,
                );
                assert(roots@.take(i + 1) =~= roots@.take(i as int).push(roots@[i as int]));
            }
            let lookup = self.chain.store.get_block(&roots[i]);
            match lookup {
                Option::Some(block) => {
                    let bytes = encode_beacon_block(block);
                    self.network.send_rpc_response(
                        peer_id,
                        request_id,
                        RPCResponse::BlocksByRoot(Some(bytes)),
                    );
                    proof {
                        assert(self.network@ =~= base + spec_root_responses(
                            old(self).chain.store@.blocks,
                            roots@.take(i + 1),
                            peer_id,
                            request_id,
                        ));
                    }
                },
                Option::None => {
                    proof {
                        assert(self.network@ =~= base + spec_root_responses(
                            old(self).chain.store@.blocks,
                            roots@.take(i + 1),
                            peer_id,
                            request_id,
                        ));
                    }
                },
            }
            i = i + 1;
        }
        proof {
            assert(roots@.take(n as int) =~= roots@);
        }
        self.network.send_rpc_response(peer_id, request_id, RPCResponse::BlocksByRoot(None));
        proof {
            assert(self.network@ =~= old(self).network@ + spec_root_responses(
                old(self).chain.store@.blocks,
                roots@,
                peer_id,
                request_id,
            ) + seq![spec_terminator_by_root(peer_id, request_id)]);
        }
    }

    /// Serves a `BlocksByRange` request: exactly the canonical blocks with
    /// slots in `[start_slot, start_slot + count)` are streamed in
    /// ascending slot order — skipped slots are simply absent — followed by
    /// the stream terminator.
    #[verifier::loop_isolation(false)]
    #[verifier::rlimit(100)]
    #[verifier::spinoff_prover]
    pub fn on_blocks_by_range_request(
        &mut self,
        peer_id: PeerId,
        request_id: RequestId,
        req: BlocksByRangeRequest,
    )
        requires
            mp_wf(old(self)),
        ensures
            mp_wf(final(self)),
            final(self).chain == old(self).chain,
            sync_view(final(self)) == sync_view(old(self)),
            final(self).network@ == old(self).network@ + spec_range_frames(
                old(self).chain.store@.blocks,
                crate::chain::spec_head_walk(&old(self).chain),
                req.start_slot,
                req.count,
                peer_id,
                request_id,
            ) + seq![spec_terminator_by_range(peer_id, request_id)],
    {
        let walk = self.chain.rev_iter_block_roots();
        let ghost base = self.network@;
        let ghost blocks = self.chain.store@.blocks;
        let n = walk.len();
        let mut i: usize = n;
        proof {
            assert(walk@.take(n as int) =~= walk@);
        }
        while i > 0
            invariant
                i <= n,
                n == walk@.len(),
                self.chain == old(self).chain,
                self.sync_queue == old(self).sync_queue,
                walk@ == crate::chain::spec_head_walk(&old(self).chain),
                blocks == self.chain.store@.blocks,
                base + spec_range_frames(blocks, walk@, req.start_slot, req.count, peer_id, request_id)
                    == self.network@ + spec_range_frames(
                    blocks,
                    walk@.take(i as int),
                    req.start_slot,
                    req.count,
                    peer_id,
                    request_id,
                ),
                forall|k: int|
                    0 <= k < walk@.len() ==> (match spec_lookup_block(blocks, #[trigger] walk@[k].0) {
                        Option::Some(b) => b.slot == walk@[k].1,
                        Option::None => false,
                    }),
            decreases i,
        {
            proof {
                assert(walk@.take(i as int).last() == walk@[i - 1]);
                assert(walk@.take(i as int).drop_last() =~= walk@.take(i - 1));
            }
            i = i - 1;
            let (root, slot) = walk[i];
            let in_range = req.start_slot <= slot && req.count > 0 && slot - req.start_slot
                < req.count;
            if in_range {
                match self.chain.store.get_block(&root) {
                    Option::Some(block) => {
                        let bytes = encode_beacon_block(block);
                        self.network.send_rpc_response(
                            peer_id,
                            request_id,
                            RPCResponse::BlocksByRange(Some(bytes)),
                        );
                    },
                    Option::None => {
                        proof {
                            assert(false);
                        }
                    },
                }
            }
        }
        proof {
            assert(walk@.take(0) =~= Seq::<(Hash256, u64)>::empty());
        }
        self.network.send_rpc_response(peer_id, request_id, RPCResponse::BlocksByRange(None));
        proof {
            assert(final(self).network@ =~= old(self).network@ + spec_range_frames(
                old(self).chain.store@.blocks,
                crate::chain::spec_head_walk(&old(self).chain),
                req.start_slot,
                req.count,
                peer_id,
                request_id,
            ) + seq![spec_terminator_by_range(peer_id, request_id)]);
        }
    }

    /// Relays a `BlocksByRange` response frame to the sync manager.
    pub fn on_blocks_by_range_response(
        &mut self,
        peer_id: PeerId,
        request_id: RequestId,
        beacon_block: Option<BeaconBlock>,
    )
        requires
            mp_wf(old(self)),
        ensures
            mp_wf(final(self)),
            final(self).chain == old(self).chain,
            final(self).network == old(self).network,
            sync_view(final(self)) == sync_view(old(self)).push(
                SyncMessageView::BlocksByRangeResponse {
                    peer_id,
                    request_id,
                    beacon_block: (match beacon_block {
                        Option::Some(b) => Some(b@),
                        Option::None => None,
                    }),
                },
            ),
    {
        self.send_to_sync(SyncMessage::BlocksByRangeResponse { peer_id, request_id, beacon_block });
    }

    /// Relays a `BlocksByRoot` response frame to the sync manager.
    pub fn on_blocks_by_root_response(
        &mut self,
        peer_id: PeerId,
        request_id: RequestId,
        beacon_block: Option<BeaconBlock>,
    )
        requires
            mp_wf(old(self)),
        ensures
            mp_wf(final(self)),
            final(self).chain == old(self).chain,
            final(self).network == old(self).network,
            sync_view(final(self)) == sync_view(old(self)).push(
                SyncMessageView::BlocksByRootResponse {
                    peer_id,
                    request_id,
                    beacon_block: (match beacon_block {
                        Option::Some(b) => Some(b@),
                        Option::None => None,
                    }),
                },
            ),
    {
        self.send_to_sync(SyncMessage::BlocksByRootResponse { peer_id, request_id, beacon_block });
    }

    /// Applies a gossip block to the chain and decides whether to forward
    /// it: processed, already-known, parent-unknown and tolerably-future
    /// blocks are forwarded; invalid ones are not.  A parent-unknown block
    /// goes to the sync manager for a parent lookup.
    pub fn on_block_gossip(&mut self, peer_id: PeerId, block: BeaconBlock) -> (r: bool)
        requires
            mp_wf(old(self)),
        ensures
            mp_wf(final(self)),
            final(self).network == old(self).network,
            final(self).chain.head_state@.finalized_epoch >= old(
                self,
            ).chain.head_state@.finalized_epoch,
            r == spec_should_forward(
                crate::chain::spec_block_outcome(&old(self).chain, block@),
            ),
            sync_view(final(self)) == (if crate::chain::spec_block_outcome(
                &old(self).chain,
                block@,
            ) is ParentUnknown {
                sync_view(old(self)).push(SyncMessageView::UnknownBlock(peer_id, block@))
            } else {
                sync_view(old(self))
            }),
            !(crate::chain::spec_block_outcome(&old(self).chain, block@) is Processed) ==> ({
                &&& final(self).chain.store@ == old(self).chain.store@
                &&& final(self).chain.head_state@ == old(self).chain.head_state@
            }),
    {
        let block_for_sync = block.duplicate();
        let outcome = self.chain.process_block(block);
        match outcome {
            BlockProcessingOutcome::Processed { block_root } => true,
            BlockProcessingOutcome::ParentUnknown { parent } => {
                self.send_to_sync(SyncMessage::UnknownBlock(peer_id, block_for_sync));
                true
            },
            BlockProcessingOutcome::BlockIsAlreadyKnown => true,
            BlockProcessingOutcome::FutureSlot { present_slot, block_slot } => {
                // The chain only reports FutureSlot when block_slot is
                // ahead of present_slot, so the subtraction is safe.
                block_slot - present_slot <= FUTURE_SLOT_TOLERANCE
            },
            BlockProcessingOutcome::GenesisBlock => false,
            BlockProcessingOutcome::InvalidBlock { reason } => false,
        }
    }

    /// Applies a gossip attestation to the chain.
    pub fn on_attestation_gossip(&mut self, peer_id: PeerId, msg: Attestation) -> (r:
        AttestationProcessingOutcome)
        requires
            mp_wf(old(self)),
        ensures
            mp_wf(final(self)),
            final(self).network == old(self).network,
            final(self).sync_queue == old(self).sync_queue,
            final(self).chain.store@ == old(self).chain.store@,
            final(self).chain.head_state@ == old(self).chain.head_state@,
            final(self).chain.head_block_root == old(self).chain.head_block_root,
            final(self).chain.fork_choice@.nodes == old(self).chain.fork_choice@.nodes,
            r == AttestationProcessingOutcome::Processed <==> (crate::transition::tx_pre(
                old(self).chain.head_state@,
                old(self).chain.spec,
            ) && crate::transition::spec_valid_attestation(
                old(self).chain.head_state@,
                msg@,
                old(self).chain.spec,
            ) && crate::fork_choice::spec_find_node(
                old(self).chain.fork_choice@.nodes,
                msg@.data.beacon_block_root,
            ) is Some),
    {
        self.chain.process_attestation(msg)
    }
}

} // verus!
