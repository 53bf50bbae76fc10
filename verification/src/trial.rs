//! A trial of peer-to-peer synchronisation: two nodes that hold blocks, two that fetch them,
//! and the steps that show that the blocks arrive.

use crate::addr::{contains_addr, SocketAddr};
use vstd::prelude::*;

verus! {

/// Blocks that the first sender mines, and that both syncers must end up with.
pub const BMM_BLOCKS: u32 = 16;

/// Seconds that connections are given to come about.
pub const CONNECT_SECONDS: u64 = 1;

/// Seconds that blocks are given to arrive.
pub const SYNC_SECONDS: u64 = 10;

/// Seconds that tasks are given to end.
pub const STOP_SECONDS: u64 = 1;

/// The nodes of the trial.
#[derive(Debug, Clone, Copy, PartialEq, Eq, Hash, Structural)]
pub enum Node {
    /// Node that will be sending blocks
    Sender,
    /// Second node that will be sending blocks
    Sender2,
    /// Node that will be syncing blocks
    Syncer,
    /// Second node that will be syncing blocks
    Syncer2,
}

impl Node {
    /// What the name of the node's data directory ends in.
    pub open spec fn suffix(self) -> Seq<char> {
        match self {
            Node::Sender => "sender"@,
            Node::Sender2 => "sender_2"@,
            Node::Syncer => "syncer"@,
            Node::Syncer2 => "syncer_2"@,
        }
    }

    /// What the name of the node's data directory ends in.
    pub fn data_dir_suffix(self) -> (suffix: &'static str)
        ensures
            suffix@ == self.suffix(),
    {
        match self {
            Node::Sender => "sender",
            Node::Sender2 => "sender_2",
            Node::Syncer => "syncer",
            Node::Syncer2 => "syncer_2",
        }
    }
}

/// Which of the binaries at hand are run.
#[derive(Debug, Clone, Copy, PartialEq, Eq, Hash, Structural)]
pub enum Binaries {
    /// The node's own
    Thunder,
    /// All others: those that the enforcer needs
    Others,
}

/// The network that the enforcer runs on.
#[derive(Debug, Clone, Copy, PartialEq, Eq, Hash, Structural)]
pub enum ChainNetwork {
    Regtest,
    Signet,
}

/// How the enforcer learns of transactions.
#[derive(Debug, Clone, Copy, PartialEq, Eq, Hash, Structural)]
pub enum EnforcerMode {
    /// It keeps a mempool
    Mempool,
    /// It keeps none
    NoMempool,
}

/// What the enforcer is set up with.
#[derive(Debug, Clone, Copy, PartialEq, Eq, Hash, Structural)]
pub struct EnforcerSetup {
    pub binaries: Binaries,
    pub network: ChainNetwork,
    pub mode: EnforcerMode,
}

/// What a node is set up with.
#[derive(Debug, Clone, Copy)]
pub struct NodeSetup {
    pub app: Binaries,
    pub data_dir_suffix: &'static str,
}

/// The enforcer runs on regtest, with a mempool.
pub open spec fn enforcer() -> EnforcerSetup {
    EnforcerSetup {
        binaries: Binaries::Others,
        network: ChainNetwork::Regtest,
        mode: EnforcerMode::Mempool,
    }
}

/// What the enforcer is set up with.
pub fn enforcer_setup() -> (setup: EnforcerSetup)
    ensures
        setup == (EnforcerSetup {
            binaries: Binaries::Others,
            network: ChainNetwork::Regtest,
            mode: EnforcerMode::Mempool,
        }),
{
    EnforcerSetup {
        binaries: Binaries::Others,
        network: ChainNetwork::Regtest,
        mode: EnforcerMode::Mempool,
    }
}

/// What a node is set up with: the node's own binary, and a data directory of its own.
pub fn node_setup(node: Node) -> (setup: NodeSetup)
    ensures
        setup.app == Binaries::Thunder,
        setup.data_dir_suffix@ == node.suffix(),
{
    NodeSetup { app: Binaries::Thunder, data_dir_suffix: node.data_dir_suffix() }
}

/// What is to be done next.
#[derive(Debug, Clone, Copy, PartialEq, Eq, Hash, Structural)]
pub enum Step {
    /// Set up the enforcer
    SetUpEnforcer(EnforcerSetup),
    /// Set up a node
    SetUpNode(Node),
    ProposeSidechain,
    ActivateSidechain,
    FundEnforcer,
    /// Have a node mine blocks
    Mine { node: Node, blocks: u32 },
    /// Ask a node for its block count, which must be the one given
    ExpectBlockCount { node: Node, blocks: u32 },
    /// Ask a node for its peers, for the record
    ReportPeers(Node),
    /// Have a node connect to another
    Connect { from: Node, to: Node },
    Wait { seconds: u64 },
    /// Ask a node for its peers, among which the other node must be
    ExpectPeer { node: Node, peer: Node },
    /// Shut a node down
    StopNode(Node),
    /// Shut the enforcer down
    StopEnforcer,
    /// Remove what the trial left on disk
    CleanUp,
}

/// What came of a step.
#[derive(Debug, Clone, PartialEq, Eq)]
pub enum Reply {
    /// It was done
    Done,
    /// A node was set up, and listens at this address
    NodeReady(SocketAddr),
    /// A node has this many blocks
    BlockCount(u32),
    /// A node has these peers
    Peers(Vec<SocketAddr>),
    /// It could not be done
    Failed,
}

/// Why a trial was not passed.
#[derive(Debug, Clone, PartialEq, Eq)]
pub enum TrialError {
    /// A step could not be done
    StepFailed(Step),
    /// A node has another number of blocks than it should have
    BlockCount { node: Node, wanted: u32, counted: u32 },
    /// A node lacks a connection
    MissingPeer { expected: SocketAddr, found: Vec<SocketAddr> },
    /// What was reported is no answer to the step at hand
    UnexpectedReply,
}

/// The steps that set the trial up.
pub open spec fn set_up() -> Seq<Step> {
    seq![
        Step::SetUpEnforcer(enforcer()),
        Step::SetUpNode(Node::Sender),
        Step::SetUpNode(Node::Sender2),
        Step::SetUpNode(Node::Syncer),
        Step::SetUpNode(Node::Syncer2),
        Step::ProposeSidechain,
        Step::ActivateSidechain,
        Step::FundEnforcer,
    ]
}

/// One sender mines, and nobody else has any block yet.
pub open spec fn mine() -> Seq<Step> {
    seq![
        Step::Mine { node: Node::Sender, blocks: BMM_BLOCKS },
        Step::ExpectBlockCount { node: Node::Sender, blocks: BMM_BLOCKS },
        Step::ExpectBlockCount { node: Node::Sender2, blocks: 0 },
        Step::ExpectBlockCount { node: Node::Syncer, blocks: 0 },
        Step::ExpectBlockCount { node: Node::Syncer2, blocks: 0 },
    ]
}

/// Every node's peers, for the record.
pub open spec fn report() -> Seq<Step> {
    seq![
        Step::ReportPeers(Node::Sender),
        Step::ReportPeers(Node::Sender2),
        Step::ReportPeers(Node::Syncer),
        Step::ReportPeers(Node::Syncer2),
    ]
}

/// Both syncers connect to both senders.
pub open spec fn connect() -> Seq<Step> {
    seq![
        Step::Connect { from: Node::Syncer, to: Node::Sender },
        Step::Connect { from: Node::Syncer, to: Node::Sender2 },
        Step::Connect { from: Node::Syncer2, to: Node::Sender },
        Step::Connect { from: Node::Syncer2, to: Node::Sender2 },
        Step::Wait { seconds: CONNECT_SECONDS },
    ]
}

/// Each of these connections is seen from both ends.
pub open spec fn check_connections() -> Seq<Step> {
    seq![
        Step::ExpectPeer { node: Node::Syncer, peer: Node::Sender },
        Step::ExpectPeer { node: Node::Syncer, peer: Node::Sender2 },
        Step::ExpectPeer { node: Node::Syncer2, peer: Node::Sender },
        Step::ExpectPeer { node: Node::Syncer2, peer: Node::Sender2 },
        Step::ExpectPeer { node: Node::Sender, peer: Node::Syncer },
        Step::ExpectPeer { node: Node::Sender, peer: Node::Syncer2 },
        Step::ExpectPeer { node: Node::Sender2, peer: Node::Syncer },
        Step::ExpectPeer { node: Node::Sender2, peer: Node::Syncer2 },
        Step::Wait { seconds: SYNC_SECONDS },
    ]
}

/// The blocks have arrived.
pub open spec fn check_sync() -> Seq<Step> {
    seq![
        Step::ExpectBlockCount { node: Node::Sender, blocks: BMM_BLOCKS },
        Step::ExpectBlockCount { node: Node::Syncer, blocks: BMM_BLOCKS },
        Step::ExpectBlockCount { node: Node::Syncer2, blocks: BMM_BLOCKS },
    ]
}

/// The steps that take the trial down.
pub open spec fn tear_down() -> Seq<Step> {
    seq![
        Step::StopNode(Node::Syncer),
        Step::StopNode(Node::Syncer2),
        Step::StopNode(Node::Sender),
        Step::StopNode(Node::Sender2),
        Step::StopEnforcer,
        Step::Wait { seconds: STOP_SECONDS },
        Step::CleanUp,
    ]
}

/// All steps of the trial, in order.
pub open spec fn script() -> Seq<Step> {
    set_up() + mine() + report() + connect() + check_connections() + report() + check_sync()
        + tear_down()
}

/// The steps of the trial as a list.
fn make_script() -> (steps: Vec<Step>)
    ensures
        steps@ == script(),
{
    let steps = vec![
        Step::SetUpEnforcer(enforcer_setup()),
        Step::SetUpNode(Node::Sender),
        Step::SetUpNode(Node::Sender2),
        Step::SetUpNode(Node::Syncer),
        Step::SetUpNode(Node::Syncer2),
        Step::ProposeSidechain,
        Step::ActivateSidechain,
        Step::FundEnforcer,
        Step::Mine { node: Node::Sender, blocks: BMM_BLOCKS },
        Step::ExpectBlockCount { node: Node::Sender, blocks: BMM_BLOCKS },
        Step::ExpectBlockCount { node: Node::Sender2, blocks: 0 },
        Step::ExpectBlockCount { node: Node::Syncer, blocks: 0 },
        Step::ExpectBlockCount { node: Node::Syncer2, blocks: 0 },
        Step::ReportPeers(Node::Sender),
        Step::ReportPeers(Node::Sender2),
        Step::ReportPeers(Node::Syncer),
        Step::ReportPeers(Node::Syncer2),
        Step::Connect { from: Node::Syncer, to: Node::Sender },
        Step::Connect { from: Node::Syncer, to: Node::Sender2 },
        Step::Connect { from: Node::Syncer2, to: Node::Sender },
        Step::Connect { from: Node::Syncer2, to: Node::Sender2 },
        Step::Wait { seconds: CONNECT_SECONDS },
        Step::ExpectPeer { node: Node::Syncer, peer: Node::Sender },
        Step::ExpectPeer { node: Node::Syncer, peer: Node::Sender2 },
        Step::ExpectPeer { node: Node::Syncer2, peer: Node::Sender },
        Step::ExpectPeer { node: Node::Syncer2, peer: Node::Sender2 },
        Step::ExpectPeer { node: Node::Sender, peer: Node::Syncer },
        Step::ExpectPeer { node: Node::Sender, peer: Node::Syncer2 },
        Step::ExpectPeer { node: Node::Sender2, peer: Node::Syncer },
        Step::ExpectPeer { node: Node::Sender2, peer: Node::Syncer2 },
        Step::Wait { seconds: SYNC_SECONDS },
        Step::ReportPeers(Node::Sender),
        Step::ReportPeers(Node::Sender2),
        Step::ReportPeers(Node::Syncer),
        Step::ReportPeers(Node::Syncer2),
        Step::ExpectBlockCount { node: Node::Sender, blocks: BMM_BLOCKS },
        Step::ExpectBlockCount { node: Node::Syncer, blocks: BMM_BLOCKS },
        Step::ExpectBlockCount { node: Node::Syncer2, blocks: BMM_BLOCKS },
        Step::StopNode(Node::Syncer),
        Step::StopNode(Node::Syncer2),
        Step::StopNode(Node::Sender),
        Step::StopNode(Node::Sender2),
        Step::StopEnforcer,
        Step::Wait { seconds: STOP_SECONDS },
        Step::CleanUp,
    ];
    assert(steps@ =~= script());
    steps
}

/// Where the nodes listen, as far as they are set up.
struct NodeAddrs {
    sender: Option<SocketAddr>,
    sender_2: Option<SocketAddr>,
    syncer: Option<SocketAddr>,
    syncer_2: Option<SocketAddr>,
}

impl NodeAddrs {
    spec fn at(self, node: Node) -> Option<SocketAddr> {
        match node {
            Node::Sender => self.sender,
            Node::Sender2 => self.sender_2,
            Node::Syncer => self.syncer,
            Node::Syncer2 => self.syncer_2,
        }
    }

    spec fn known(self) -> Map<Node, SocketAddr> {
        Map::new(|node: Node| self.at(node) is Some, |node: Node| self.at(node)->0)
    }

    fn get(&self, node: Node) -> (addr: Option<SocketAddr>)
        ensures
            addr == self.at(node),
    {
        match node {
            Node::Sender => self.sender,
            Node::Sender2 => self.sender_2,
            Node::Syncer => self.syncer,
            Node::Syncer2 => self.syncer_2,
        }
    }

    fn set(&mut self, node: Node, addr: SocketAddr)
        ensures
            final(self).known() == old(self).known().insert(node, addr),
    {
        let ghost before = self.known();
        match node {
            Node::Sender => {
                self.sender = Some(addr);
            },
            Node::Sender2 => {
                self.sender_2 = Some(addr);
            },
            Node::Syncer => {
                self.syncer = Some(addr);
            },
            Node::Syncer2 => {
                self.syncer_2 = Some(addr);
            },
        }
        assert(self.known() =~= before.insert(node, addr));
    }
}

/// Check that a node with the given peers is connected to the specified peer
pub fn check_peer_connection(peers: Vec<SocketAddr>, expected: SocketAddr) -> (checked: Result<
    (),
    TrialError,
>)
    ensures
        checked == (if peers@.contains(expected) {
            Ok(())
        } else {
            Err(TrialError::MissingPeer { expected, found: peers })
        }),
{
    if contains_addr(&peers, expected) {
        Ok(())
    } else {
        Err(TrialError::MissingPeer { expected, found: peers })
    }
}

/// Whether the trial goes on after a reply to a step, given where the nodes listen.
pub open spec fn verdict(step: Step, addrs: Map<Node, SocketAddr>, reply: Reply) -> Result<
    (),
    TrialError,
> {
    match (step, reply) {
        (_, Reply::Failed) => Err(TrialError::StepFailed(step)),
        (Step::SetUpNode(_), Reply::NodeReady(_)) => Ok(()),
        (Step::SetUpNode(_), _) => Err(TrialError::UnexpectedReply),
        (Step::ExpectBlockCount { node, blocks }, Reply::BlockCount(found)) => if found == blocks {
            Ok(())
        } else {
            Err(TrialError::BlockCount { node, wanted: blocks, counted: found })
        },
        (Step::ExpectBlockCount { .. }, _) => Err(TrialError::UnexpectedReply),
        (Step::ReportPeers(_), Reply::Peers(_)) => Ok(()),
        (Step::ReportPeers(_), _) => Err(TrialError::UnexpectedReply),
        (Step::ExpectPeer { peer, .. }, Reply::Peers(found)) => if found@.contains(addrs[peer]) {
            Ok(())
        } else {
            Err(TrialError::MissingPeer { expected: addrs[peer], found })
        },
        (Step::ExpectPeer { .. }, _) => Err(TrialError::UnexpectedReply),
        (_, Reply::Done) => Ok(()),
        _ => Err(TrialError::UnexpectedReply),
    }
}

/// Where the nodes listen, once a step was answered.
pub open spec fn addrs_after(step: Step, addrs: Map<Node, SocketAddr>, reply: Reply) -> Map<
    Node,
    SocketAddr,
> {
    match (step, reply) {
        (Step::SetUpNode(node), Reply::NodeReady(addr)) => addrs.insert(node, addr),
        _ => addrs,
    }
}

/// How far a trial has come.
#[verifier::ext_equal]
pub struct Progress {
    /// Steps that are done
    pub done: nat,
    /// Where the nodes listen that are set up
    pub addrs: Map<Node, SocketAddr>,
}

impl Progress {
    /// Not more is done than there is to do, and every node that was set up has its
    /// address.
    pub open spec fn valid(self) -> bool {
        &&& self.done <= script().len()
        &&& forall|i: int|
            0 <= i < self.done ==> (#[trigger] script()[i] matches Step::SetUpNode(node)
                ==> self.addrs.contains_key(node))
    }
}

/// A trial under way.
pub struct SyncTrial {
    steps: Vec<Step>,
    done: usize,
    addrs: NodeAddrs,
}

impl View for SyncTrial {
    type V = Progress;

    closed spec fn view(&self) -> Progress {
        Progress { done: self.done as nat, addrs: self.addrs.known() }
    }
}

/// A node whose connection is checked was set up before.
proof fn lemma_checked_peer_has_addr(progress: Progress, node: Node, peer: Node)
    requires
        progress.valid(),
        progress.done < script().len(),
        script()[progress.done as int] == (Step::ExpectPeer { node, peer }),
    ensures
        progress.addrs.contains_key(peer),
{
    assert(script()[0] == Step::SetUpEnforcer(enforcer()));
    assert(script()[1] == Step::SetUpNode(Node::Sender));
    assert(script()[2] == Step::SetUpNode(Node::Sender2));
    assert(script()[3] == Step::SetUpNode(Node::Syncer));
    assert(script()[4] == Step::SetUpNode(Node::Syncer2));
    assert(progress.done > 4);
}

impl SyncTrial {
    /// The steps are the script's, and the progress is valid.
    pub closed spec fn wf(&self) -> bool {
        self.steps@ == script() && self@.valid()
    }

    /// A trial in order has made valid progress.
    pub proof fn law_wf_means_valid(&self)
        requires
            self.wf(),
        ensures
            self@.valid(),
    {
    }

    /// A trial of which nothing is done yet.
    pub fn new() -> (trial: Self)
        ensures
            trial.wf(),
            trial@ == (Progress { done: 0, addrs: Map::empty() }),
    {
        let trial = SyncTrial {
            steps: make_script(),
            done: 0,
            addrs: NodeAddrs { sender: None, sender_2: None, syncer: None, syncer_2: None },
        };
        assert(trial@.addrs =~= Map::<Node, SocketAddr>::empty());
        trial
    }

    /// The step at hand, or `None` once the trial is passed.
    pub fn current(&self) -> (step: Option<Step>)
        requires
            self.wf(),
        ensures
            step == (if self@.done < script().len() {
                Some(script()[self@.done as int])
            } else {
                None
            }),
    {
        if self.done < self.steps.len() {
            Some(self.steps[self.done])
        } else {
            None
        }
    }

    /// The address at which a node listens, once it is set up.
    pub fn addr_of(&self, node: Node) -> (addr: Option<SocketAddr>)
        requires
            self.wf(),
        ensures
            addr == (if self@.addrs.contains_key(node) {
                Some(self@.addrs[node])
            } else {
                None
            }),
    {
        self.addrs.get(node)
    }

    /// Takes note of what came of the step at hand. The trial goes on to the next step, or
    /// is failed where it stands.
    pub fn advance(&mut self, reply: Reply) -> (outcome: Result<(), TrialError>)
        requires
            old(self).wf(),
        ensures
            final(self).wf(),
            outcome == (if old(self)@.done < script().len() {
                verdict(script()[old(self)@.done as int], old(self)@.addrs, reply)
            } else {
                Err(TrialError::UnexpectedReply)
            }),
            final(self)@ == (if outcome is Ok {
                Progress {
                    done: old(self)@.done + 1,
                    addrs: addrs_after(
                        script()[old(self)@.done as int],
                        old(self)@.addrs,
                        reply,
                    ),
                }
            } else {
                old(self)@
            }),
    {
        let ghost before = self@;
        let step = match self.current() {
            Some(step) => step,
            None => {
                return Err(TrialError::UnexpectedReply);
            },
        };
        match (step, reply) {
            (_, Reply::Failed) => {
                return Err(TrialError::StepFailed(step));
            },
            (Step::SetUpNode(node), Reply::NodeReady(addr)) => {
                self.addrs.set(node, addr);
            },
            (Step::ExpectBlockCount { node, blocks }, Reply::BlockCount(found)) => {
                if found != blocks {
                    return Err(TrialError::BlockCount { node, wanted: blocks, counted: found });
                }
            },
            (Step::ReportPeers(_), Reply::Peers(_)) => {},
            (Step::ExpectPeer { node, peer }, Reply::Peers(found)) => {
                proof {
                    lemma_checked_peer_has_addr(before, node, peer);
                }
                let expected = match self.addrs.get(peer) {
                    Some(addr) => addr,
                    None => {
                        return Err(TrialError::UnexpectedReply);
                    },
                };
                match check_peer_connection(found, expected) {
                    Ok(()) => {},
                    Err(error) => {
                        return Err(error);
                    },
                }
            },
            (Step::SetUpNode(_), _) => {
                return Err(TrialError::UnexpectedReply);
            },
            (Step::ExpectBlockCount { .. }, _) => {
                return Err(TrialError::UnexpectedReply);
            },
            (Step::ReportPeers(_), _) => {
                return Err(TrialError::UnexpectedReply);
            },
            (Step::ExpectPeer { .. }, _) => {
                return Err(TrialError::UnexpectedReply);
            },
            (_, Reply::Done) => {},
            _ => {
                return Err(TrialError::UnexpectedReply);
            },
        }
        self.done = self.done + 1;
        Ok(())
    }
}

/// The result of a trial that runs in a task of its own and sends its result to a channel:
/// the first result that comes out, and the error given where the channel closes without
/// one.
pub fn trial_result<E>(received: Option<Result<(), E>>, closed: E) -> (result: Result<(), E>)
    ensures
        result == (match received {
            Some(sent) => sent,
            None => Err(closed),
        }),
{
    match received {
        Some(sent) => sent,
        None => Err(closed),
    }
}

/// The trial is passed with these replies, one to each step in turn, the nodes listening
/// where `addrs` says before each step.
pub open spec fn passes(replies: Seq<Reply>, addrs: Seq<Map<Node, SocketAddr>>) -> bool {
    &&& replies.len() == script().len()
    &&& addrs.len() == script().len() + 1
    &&& addrs[0] == Map::<Node, SocketAddr>::empty()
    &&& forall|i: int|
        0 <= i < script().len() ==> {
            &&& verdict(#[trigger] script()[i], addrs[i], replies[i]) is Ok
            &&& addrs[i + 1] == addrs_after(script()[i], addrs[i], replies[i])
        }
}

/// Where step `i` demands a number of blocks, and a passed trial reached that step, that
/// number was reported; where it demands a peer, the address that this peer was set up with
/// was among those reported; and no step failed.
pub proof fn law_passing_means_every_check_held(
    replies: Seq<Reply>,
    addrs: Seq<Map<Node, SocketAddr>>,
    i: int,
)
    requires
        passes(replies, addrs),
        0 <= i < script().len(),
    ensures
        replies[i] != Reply::Failed,
        script()[i] matches Step::ExpectBlockCount { blocks, .. } ==> replies[i]
            == Reply::BlockCount(blocks),
        script()[i] matches Step::ExpectPeer { peer, .. } ==> {
            &&& replies[i] is Peers
            &&& addrs.last().contains_key(peer)
            &&& replies[i]->Peers_0@.contains(addrs.last()[peer])
        },
{
    assert(verdict(script()[i], addrs[i], replies[i]) is Ok);
    if let Step::ExpectPeer { node, peer } = script()[i] {
        lemma_addrs_settled(replies, addrs, 5);
        lemma_addrs_settled(replies, addrs, i);
        lemma_addrs_settled(replies, addrs, script().len() as int);
    }
}

/// Once the nodes are set up, each has its address, and keeps it.
proof fn lemma_addrs_settled(replies: Seq<Reply>, addrs: Seq<Map<Node, SocketAddr>>, i: int)
    requires
        passes(replies, addrs),
        5 <= i <= script().len(),
    ensures
        forall|node: Node| addrs[5].contains_key(node),
        addrs[i] == addrs[5],
    decreases i,
{
    if i == 5 {
        assert(script()[0] == Step::SetUpEnforcer(enforcer()));
        assert(script()[1] == Step::SetUpNode(Node::Sender));
        assert(script()[2] == Step::SetUpNode(Node::Sender2));
        assert(script()[3] == Step::SetUpNode(Node::Syncer));
        assert(script()[4] == Step::SetUpNode(Node::Syncer2));
        assert(addrs[1] == addrs_after(script()[0], addrs[0], replies[0]));
        assert(addrs[2] == addrs_after(script()[1], addrs[1], replies[1]));
        assert(addrs[3] == addrs_after(script()[2], addrs[2], replies[2]));
        assert(addrs[4] == addrs_after(script()[3], addrs[3], replies[3]));
        assert(addrs[5] == addrs_after(script()[4], addrs[4], replies[4]));
        assert forall|node: Node| addrs[5].contains_key(node) by {
            match node {
                Node::Sender => {},
                Node::Sender2 => {},
                Node::Syncer => {},
                Node::Syncer2 => {},
            }
        }
    } else {
        lemma_addrs_settled(replies, addrs, i - 1);
        assert(addrs[i - 1 + 1] == addrs_after(script()[i - 1], addrs[i - 1], replies[i - 1]));
        assert(!(script()[i - 1] is SetUpNode));
    }
}

/// Every connection that is made is later looked for at both of its ends.
pub proof fn law_connections_are_checked_at_both_ends(i: int, from: Node, to: Node)
    requires
        0 <= i < script().len(),
        script()[i] == (Step::Connect { from, to }),
    ensures
        exists|j: int|
            i < j < script().len() && #[trigger] script()[j] == (Step::ExpectPeer {
                node: from,
                peer: to,
            }),
        exists|j: int|
            i < j < script().len() && #[trigger] script()[j] == (Step::ExpectPeer {
                node: to,
                peer: from,
            }),
{
    assert(script()[22] == (Step::ExpectPeer { node: Node::Syncer, peer: Node::Sender }));
    assert(script()[23] == (Step::ExpectPeer { node: Node::Syncer, peer: Node::Sender2 }));
    assert(script()[24] == (Step::ExpectPeer { node: Node::Syncer2, peer: Node::Sender }));
    assert(script()[25] == (Step::ExpectPeer { node: Node::Syncer2, peer: Node::Sender2 }));
    assert(script()[26] == (Step::ExpectPeer { node: Node::Sender, peer: Node::Syncer }));
    assert(script()[27] == (Step::ExpectPeer { node: Node::Sender, peer: Node::Syncer2 }));
    assert(script()[28] == (Step::ExpectPeer { node: Node::Sender2, peer: Node::Syncer }));
    assert(script()[29] == (Step::ExpectPeer { node: Node::Sender2, peer: Node::Syncer2 }));
}

/// There is one enforcer, on regtest and with a mempool, set up before all else, so that
/// all nodes run on it; and each node is set up once, in order.
pub proof fn law_all_nodes_run_on_one_enforcer(i: int, j: int, node: Node)
    requires
        0 <= i < script().len(),
        0 <= j < script().len(),
    ensures
        script()[0] == Step::SetUpEnforcer(
            (EnforcerSetup {
                binaries: Binaries::Others,
                network: ChainNetwork::Regtest,
                mode: EnforcerMode::Mempool,
            }),
        ),
        script()[i] is SetUpEnforcer <==> i == 0,
        script()[1] == Step::SetUpNode(Node::Sender),
        script()[2] == Step::SetUpNode(Node::Sender2),
        script()[3] == Step::SetUpNode(Node::Syncer),
        script()[4] == Step::SetUpNode(Node::Syncer2),
        script()[i] == Step::SetUpNode(node) && script()[j] == Step::SetUpNode(node) ==> i == j,
        exists|k: int|
            0 < k < script().len() && #[trigger] script()[k] == Step::SetUpNode(node),
{
    assert(script()[1] == Step::SetUpNode(Node::Sender));
    assert(script()[2] == Step::SetUpNode(Node::Sender2));
    assert(script()[3] == Step::SetUpNode(Node::Syncer));
    assert(script()[4] == Step::SetUpNode(Node::Syncer2));
}

/// What each step of the trial is.
proof fn lemma_steps()
    ensures
        script().len() == 45,
        script()[0] == Step::SetUpEnforcer(enforcer()),
        script()[1] == Step::SetUpNode(Node::Sender),
        script()[2] == Step::SetUpNode(Node::Sender2),
        script()[3] == Step::SetUpNode(Node::Syncer),
        script()[4] == Step::SetUpNode(Node::Syncer2),
        script()[5] == Step::ProposeSidechain,
        script()[6] == Step::ActivateSidechain,
        script()[7] == Step::FundEnforcer,
        script()[8] == (Step::Mine { node: Node::Sender, blocks: 16 }),
        script()[9] == (Step::ExpectBlockCount { node: Node::Sender, blocks: 16 }),
        script()[10] == (Step::ExpectBlockCount { node: Node::Sender2, blocks: 0 }),
        script()[11] == (Step::ExpectBlockCount { node: Node::Syncer, blocks: 0 }),
        script()[12] == (Step::ExpectBlockCount { node: Node::Syncer2, blocks: 0 }),
        script()[13] == Step::ReportPeers(Node::Sender),
        script()[14] == Step::ReportPeers(Node::Sender2),
        script()[15] == Step::ReportPeers(Node::Syncer),
        script()[16] == Step::ReportPeers(Node::Syncer2),
        script()[17] == (Step::Connect { from: Node::Syncer, to: Node::Sender }),
        script()[18] == (Step::Connect { from: Node::Syncer, to: Node::Sender2 }),
        script()[19] == (Step::Connect { from: Node::Syncer2, to: Node::Sender }),
        script()[20] == (Step::Connect { from: Node::Syncer2, to: Node::Sender2 }),
        script()[21] == (Step::Wait { seconds: 1 }),
        script()[22] == (Step::ExpectPeer { node: Node::Syncer, peer: Node::Sender }),
        script()[23] == (Step::ExpectPeer { node: Node::Syncer, peer: Node::Sender2 }),
        script()[24] == (Step::ExpectPeer { node: Node::Syncer2, peer: Node::Sender }),
        script()[25] == (Step::ExpectPeer { node: Node::Syncer2, peer: Node::Sender2 }),
        script()[26] == (Step::ExpectPeer { node: Node::Sender, peer: Node::Syncer }),
        script()[27] == (Step::ExpectPeer { node: Node::Sender, peer: Node::Syncer2 }),
        script()[28] == (Step::ExpectPeer { node: Node::Sender2, peer: Node::Syncer }),
        script()[29] == (Step::ExpectPeer { node: Node::Sender2, peer: Node::Syncer2 }),
        script()[30] == (Step::Wait { seconds: 10 }),
        script()[31] == Step::ReportPeers(Node::Sender),
        script()[32] == Step::ReportPeers(Node::Sender2),
        script()[33] == Step::ReportPeers(Node::Syncer),
        script()[34] == Step::ReportPeers(Node::Syncer2),
        script()[35] == (Step::ExpectBlockCount { node: Node::Sender, blocks: 16 }),
        script()[36] == (Step::ExpectBlockCount { node: Node::Syncer, blocks: 16 }),
        script()[37] == (Step::ExpectBlockCount { node: Node::Syncer2, blocks: 16 }),
        script()[38] == Step::StopNode(Node::Syncer),
        script()[39] == Step::StopNode(Node::Syncer2),
        script()[40] == Step::StopNode(Node::Sender),
        script()[41] == Step::StopNode(Node::Sender2),
        script()[42] == Step::StopEnforcer,
        script()[43] == (Step::Wait { seconds: 1 }),
        script()[44] == Step::CleanUp,
{
}

/// The sidechain is proposed, activated and funded, in this order and once each, when all
/// nodes are set up and before any block is mined.
pub proof fn law_chain_is_ready_before_mining(i: int, p: int, a: int, f: int, m: int)
    requires
        0 <= i < script().len(),
        0 <= p < script().len(),
        0 <= a < script().len(),
        0 <= f < script().len(),
        0 <= m < script().len(),
        script()[p] is ProposeSidechain,
        script()[a] is ActivateSidechain,
        script()[f] is FundEnforcer,
        script()[m] is Mine,
    ensures
        p < a < f < m,
        script()[i] is SetUpNode ==> i < p,
        script()[i] is ProposeSidechain <==> i == p,
        script()[i] is ActivateSidechain <==> i == a,
        script()[i] is FundEnforcer <==> i == f,
        script()[i] is Mine <==> i == m,
{
    lemma_steps();
}

/// The trial has steps of all the kinds whose order matters.
pub proof fn law_chain_is_made_ready()
    ensures
        exists|i: int| 0 <= i < script().len() && #[trigger] script()[i] is ProposeSidechain,
        exists|i: int| 0 <= i < script().len() && #[trigger] script()[i] is ActivateSidechain,
        exists|i: int| 0 <= i < script().len() && #[trigger] script()[i] is FundEnforcer,
        exists|i: int| 0 <= i < script().len() && #[trigger] script()[i] is Mine,
        exists|i: int| 0 <= i < script().len() && #[trigger] script()[i] is Connect,
        exists|i: int| 0 <= i < script().len() && #[trigger] script()[i] is ExpectPeer,
        exists|i: int| 0 <= i < script().len() && #[trigger] script()[i] is StopNode,
        exists|i: int| 0 <= i < script().len() && #[trigger] script()[i] is StopEnforcer,
        exists|i: int| 0 <= i < script().len() && #[trigger] script()[i] is CleanUp,
{
    lemma_steps();
}

/// The first sender mines sixteen blocks; then, before any connection is made, every node is
/// asked for its blocks: the first sender must have all sixteen, every other node none.
pub proof fn law_only_the_first_sender_has_blocks_at_first(m: int, c: int, i: int, node: Node)
    requires
        0 <= m < script().len(),
        0 <= c < script().len(),
        0 <= i < script().len(),
        script()[m] is Mine,
        script()[c] is Connect,
    ensures
        script()[m] == (Step::Mine { node: Node::Sender, blocks: 16 }),
        m < c,
        exists|k: int|
            m < k < c && #[trigger] script()[k] == (Step::ExpectBlockCount {
                node,
                blocks: if node == Node::Sender {
                    16
                } else {
                    0
                },
            }),
        i < c ==> (script()[i] matches Step::ExpectBlockCount { node: asked, blocks } ==> m < i
            && blocks == (if asked == Node::Sender {
            16u32
        } else {
            0u32
        })),
        BMM_BLOCKS == 16,
{
    lemma_steps();
    assert(script()[9] == (Step::ExpectBlockCount { node: Node::Sender, blocks: 16 }));
    assert(script()[10] == (Step::ExpectBlockCount { node: Node::Sender2, blocks: 0 }));
    assert(script()[11] == (Step::ExpectBlockCount { node: Node::Syncer, blocks: 0 }));
    assert(script()[12] == (Step::ExpectBlockCount { node: Node::Syncer2, blocks: 0 }));
}

/// Each syncer connects to each sender, once, and nobody else connects to anybody.
pub proof fn law_every_syncer_connects_to_every_sender(from: Node, to: Node, i: int, j: int)
    requires
        0 <= i < script().len(),
        0 <= j < script().len(),
    ensures
        (exists|k: int|
            0 <= k < script().len() && #[trigger] script()[k] == (Step::Connect { from, to }))
            <==> (from == Node::Syncer || from == Node::Syncer2) && (to == Node::Sender || to
            == Node::Sender2),
        script()[i] is Connect && script()[i] == script()[j] ==> i == j,
{
    lemma_steps();
    assert(script()[17] == (Step::Connect { from: Node::Syncer, to: Node::Sender }));
    assert(script()[18] == (Step::Connect { from: Node::Syncer, to: Node::Sender2 }));
    assert(script()[19] == (Step::Connect { from: Node::Syncer2, to: Node::Sender }));
    assert(script()[20] == (Step::Connect { from: Node::Syncer2, to: Node::Sender2 }));
}

/// When all connections are made, a second is waited; then each of them is looked for at both
/// ends, once, and no other connection is looked for.
pub proof fn law_every_connection_is_looked_for(node: Node, peer: Node, c: int, i: int, j: int)
    requires
        0 <= c < script().len(),
        0 <= i < script().len(),
        0 <= j < script().len(),
        script()[c] is Connect,
    ensures
        (exists|k: int|
            c < k < script().len() && #[trigger] script()[k] == (Step::ExpectPeer { node, peer }))
            <==> (node == Node::Sender || node == Node::Sender2) != (peer == Node::Sender || peer
            == Node::Sender2),
        script()[i] is ExpectPeer ==> c < i && exists|w: int|
            c < w < i && #[trigger] script()[w] == (Step::Wait { seconds: 1 }),
        script()[i] is ExpectPeer && script()[i] == script()[j] ==> i == j,
{
    lemma_steps();
    assert(script()[21] == (Step::Wait { seconds: 1 }));
    assert(script()[22] == (Step::ExpectPeer { node: Node::Syncer, peer: Node::Sender }));
    assert(script()[23] == (Step::ExpectPeer { node: Node::Syncer, peer: Node::Sender2 }));
    assert(script()[24] == (Step::ExpectPeer { node: Node::Syncer2, peer: Node::Sender }));
    assert(script()[25] == (Step::ExpectPeer { node: Node::Syncer2, peer: Node::Sender2 }));
    assert(script()[26] == (Step::ExpectPeer { node: Node::Sender, peer: Node::Syncer }));
    assert(script()[27] == (Step::ExpectPeer { node: Node::Sender, peer: Node::Syncer2 }));
    assert(script()[28] == (Step::ExpectPeer { node: Node::Sender2, peer: Node::Syncer }));
    assert(script()[29] == (Step::ExpectPeer { node: Node::Sender2, peer: Node::Syncer2 }));
}

/// When all connections are made and found, ten seconds are waited; then, before any node is
/// stopped, the first sender and both syncers are asked for their blocks, once each, and each
/// must have all sixteen.
pub proof fn law_all_blocks_are_expected_after_the_wait(
    node: Node,
    c: int,
    p: int,
    s: int,
    i: int,
    j: int,
)
    requires
        0 <= c < script().len(),
        0 <= p < script().len(),
        0 <= s < script().len(),
        0 <= i < script().len(),
        0 <= j < script().len(),
        script()[c] is Connect,
        script()[p] is ExpectPeer,
        script()[s] is StopNode,
    ensures
        (exists|k: int|
            c < k < s && p < k && #[trigger] script()[k] == (Step::ExpectBlockCount {
                node,
                blocks: 16,
            })) <==> node != Node::Sender2,
        c < i && script()[i] is ExpectBlockCount ==> {
            &&& p < i < s
            &&& script()[i]->ExpectBlockCount_blocks == 16
            &&& exists|w: int|
                p < w < i && #[trigger] script()[w] == (Step::Wait { seconds: 10 })
        },
        script()[i] is ExpectBlockCount && script()[i] == script()[j] && c < i && c < j ==> i == j,
{
    lemma_steps();
    assert(script()[30] == (Step::Wait { seconds: 10 }));
    assert(script()[35] == (Step::ExpectBlockCount { node: Node::Sender, blocks: 16 }));
    assert(script()[36] == (Step::ExpectBlockCount { node: Node::Syncer, blocks: 16 }));
    assert(script()[37] == (Step::ExpectBlockCount { node: Node::Syncer2, blocks: 16 }));
}

/// Every node's peers are reported twice: once before the connections are made, and once
/// after the ten seconds that follow them.
pub proof fn law_peers_are_reported_before_and_after(node: Node, c: int, i: int, j: int)
    requires
        0 <= c < script().len(),
        0 <= i < script().len(),
        0 <= j < script().len(),
        script()[c] is Connect,
    ensures
        exists|k: int| 0 <= k < c && #[trigger] script()[k] == Step::ReportPeers(node),
        exists|k: int| c < k < script().len() && #[trigger] script()[k] == Step::ReportPeers(node),
        script()[i] is ReportPeers && script()[i] == script()[j] && (i < c <==> j < c) ==> i == j,
        script()[i] is ReportPeers && c < i ==> exists|w: int|
            c < w < i && #[trigger] script()[w] == (Step::Wait { seconds: 10 }),
{
    lemma_steps();
    assert(script()[13] == Step::ReportPeers(Node::Sender));
    assert(script()[14] == Step::ReportPeers(Node::Sender2));
    assert(script()[15] == Step::ReportPeers(Node::Syncer));
    assert(script()[16] == Step::ReportPeers(Node::Syncer2));
    assert(script()[30] == (Step::Wait { seconds: 10 }));
    assert(script()[31] == Step::ReportPeers(Node::Sender));
    assert(script()[32] == Step::ReportPeers(Node::Sender2));
    assert(script()[33] == Step::ReportPeers(Node::Syncer));
    assert(script()[34] == Step::ReportPeers(Node::Syncer2));
}

/// When all is checked, every node is stopped once, the syncers first; then the enforcer is
/// stopped, once; then a second is waited; and the last step, and no other, cleans up.
pub proof fn law_all_is_taken_down_at_the_end(node: Node, s: int, e: int, i: int, j: int)
    requires
        0 <= s < script().len(),
        0 <= e < script().len(),
        0 <= i < script().len(),
        0 <= j < script().len(),
        script()[s] is StopNode,
        script()[e] is StopEnforcer,
    ensures
        exists|k: int| 0 <= k < e && #[trigger] script()[k] == Step::StopNode(node),
        s < e,
        script()[i] is StopEnforcer <==> i == e,
        script()[i] is StopNode && script()[i] == script()[j] ==> i == j,
        script()[i] matches Step::StopNode(Node::Syncer) ==> (script()[j] is StopNode ==> i <= j),
        script()[i] matches Step::StopNode(Node::Syncer2) ==> (script()[j] matches Step::StopNode(
            later,
        ) ==> j < i || i == j || later == Node::Sender || later == Node::Sender2),
        script()[i] matches Step::StopNode(Node::Sender2) ==> (script()[j] is StopNode ==> j <= i),
        s <= i < e ==> script()[i] is StopNode,
        e < i ==> script()[i] == (Step::Wait { seconds: 1 }) || script()[i] is CleanUp,
        exists|w: int|
            e < w < script().len() && #[trigger] script()[w] == (Step::Wait { seconds: 1 }),
        script()[i] is CleanUp <==> i == script().len() - 1,
{
    lemma_steps();
    assert(script()[38] == Step::StopNode(Node::Syncer));
    assert(script()[39] == Step::StopNode(Node::Syncer2));
    assert(script()[40] == Step::StopNode(Node::Sender));
    assert(script()[41] == Step::StopNode(Node::Sender2));
    assert(script()[43] == (Step::Wait { seconds: 1 }));
}

/// The trial waits three times, and never twice in a row: a second between the connections
/// and the look for them, ten seconds after that look, a second when the enforcer is stopped.
pub proof fn law_when_the_trial_waits(i: int, seconds: u64)
    requires
        0 < i < script().len() - 1,
        script()[i] == (Step::Wait { seconds }),
    ensures
        !(script()[i + 1] is Wait),
        script()[i - 1] is Connect || script()[i - 1] is ExpectPeer || script()[i - 1]
            is StopEnforcer,
        seconds == (if script()[i - 1] is ExpectPeer {
            10u64
        } else {
            1u64
        }),
        script()[i - 1] is Connect ==> script()[i + 1] is ExpectPeer,
        script()[i - 1] is ExpectPeer ==> script()[i + 1] is ReportPeers,
        script()[i - 1] is StopEnforcer ==> script()[i + 1] is CleanUp,
{
    lemma_steps();
}

/// In a trial that is passed, the first sender and both syncers have reported sixteen blocks
/// after the last connection was made and found, and before any node was stopped.
pub proof fn law_passing_means_the_blocks_arrived(
    replies: Seq<Reply>,
    addrs: Seq<Map<Node, SocketAddr>>,
    node: Node,
)
    requires
        passes(replies, addrs),
        node != Node::Sender2,
    ensures
        exists|i: int|
            {
                &&& 0 <= i < script().len()
                &&& #[trigger] replies[i] == Reply::BlockCount(16)
                &&& script()[i] is ExpectBlockCount
                &&& script()[i]->ExpectBlockCount_node == node
                &&& forall|j: int|
                    0 <= j < script().len() && (#[trigger] script()[j] is Connect || script()[j]
                        is ExpectPeer) ==> j < i
                &&& forall|j: int|
                    0 <= j < script().len() && #[trigger] script()[j] is StopNode ==> i < j
            },
{
    lemma_steps();
    let i: int = match node {
        Node::Sender => 35,
        Node::Sender2 => 0,
        Node::Syncer => 36,
        Node::Syncer2 => 37,
    };
    assert(script()[i] == (Step::ExpectBlockCount { node, blocks: 16 }));
    law_passing_means_every_check_held(replies, addrs, i);
    assert(replies[i] == Reply::BlockCount(16));
}

/// In a trial that is passed, each node is known in the end by the address in the reply to
/// its being set up, and every connection was looked for under that address.
pub proof fn law_passing_means_addresses_are_those_reported(
    replies: Seq<Reply>,
    addrs: Seq<Map<Node, SocketAddr>>,
    node: Node,
    i: int,
    k: int,
)
    requires
        passes(replies, addrs),
        0 <= i < script().len(),
        0 <= k < script().len(),
        script()[i] == Step::SetUpNode(node),
    ensures
        replies[i] is NodeReady,
        addrs.last().contains_key(node),
        addrs.last()[node] == replies[i]->NodeReady_0,
        script()[k] matches Step::ExpectPeer { peer, .. } ==> peer == node ==> replies[k] is Peers
            && replies[k]->Peers_0@.contains(replies[i]->NodeReady_0),
{
    lemma_steps();
    lemma_addrs_settled(replies, addrs, 5);
    lemma_addrs_settled(replies, addrs, script().len() as int);
    assert(verdict(script()[i], addrs[i], replies[i]) is Ok);
    assert(addrs[1] == addrs_after(script()[0], addrs[0], replies[0]));
    assert(addrs[2] == addrs_after(script()[1], addrs[1], replies[1]));
    assert(addrs[3] == addrs_after(script()[2], addrs[2], replies[2]));
    assert(addrs[4] == addrs_after(script()[3], addrs[3], replies[3]));
    assert(addrs[5] == addrs_after(script()[4], addrs[4], replies[4]));
    assert(verdict(script()[1], addrs[1], replies[1]) is Ok);
    assert(verdict(script()[2], addrs[2], replies[2]) is Ok);
    assert(verdict(script()[3], addrs[3], replies[3]) is Ok);
    assert(verdict(script()[4], addrs[4], replies[4]) is Ok);
    law_passing_means_every_check_held(replies, addrs, k);
}

/// A trial begins with nothing done and no address known.
pub proof fn law_trial_begins_at_the_first_step(
    trial: SyncTrial,
    step: Option<Step>,
    node: Node,
    addr: Option<SocketAddr>,
)
    requires
        call_ensures(SyncTrial::new, (), trial),
        call_ensures(SyncTrial::current, (&trial,), step),
        call_ensures(SyncTrial::addr_of, (&trial, node), addr),
    ensures
        trial.wf(),
        step matches Some(Step::SetUpEnforcer(_)),
        addr is None,
{
    lemma_steps();
}

/// The trial goes on to the next step exactly when the reply is the one that the step asks
/// for: the address of a node that was set up, the number of blocks expected, any peers for
/// the record, peers among which the one expected is, and for all else that it was done.
/// Otherwise it stays at the step, and says what was wrong.
pub proof fn law_when_the_trial_goes_on(
    trial: &mut SyncTrial,
    reply: Reply,
    outcome: Result<(), TrialError>,
    step: Step,
    next: Option<Step>,
)
    requires
        old(trial).wf(),
        call_ensures(SyncTrial::current, (&*old(trial),), Some(step)),
        call_ensures(SyncTrial::advance, (trial, reply), outcome),
        call_ensures(SyncTrial::current, (&*final(trial),), next),
    ensures
        final(trial).wf(),
        old(trial)@.done < script().len(),
        step == script()[old(trial)@.done as int],
        outcome is Ok <==> match step {
            Step::SetUpNode(_) => reply is NodeReady,
            Step::ExpectBlockCount { blocks, .. } => reply matches Reply::BlockCount(counted)
                && counted == blocks,
            Step::ReportPeers(_) => reply is Peers,
            Step::ExpectPeer { peer, .. } => reply matches Reply::Peers(found) && exists|i: int|
                0 <= i < found@.len() && #[trigger] found@[i] == old(trial)@.addrs[peer],
            _ => reply is Done,
        },
        outcome is Ok ==> final(trial)@.done == old(trial)@.done + 1,
        outcome is Ok ==> next == (if old(trial)@.done + 1 < script().len() {
            Some(script()[old(trial)@.done as int + 1])
        } else {
            None
        }),
        outcome is Err ==> final(trial)@ == old(trial)@ && next == Some(step),
        outcome matches Err(error) ==> match (step, reply) {
            (_, Reply::Failed) => error == TrialError::StepFailed(step),
            (Step::ExpectBlockCount { node, blocks }, Reply::BlockCount(counted)) => error == (
            TrialError::BlockCount { node, wanted: blocks, counted }),
            (Step::ExpectPeer { peer, .. }, Reply::Peers(found)) => error == (
            TrialError::MissingPeer { expected: old(trial)@.addrs[peer], found }),
            _ => error is UnexpectedReply,
        },
{
    old(trial).law_wf_means_valid();
}

/// Once all steps are done there is none at hand, and no reply is expected any more.
pub proof fn law_passed_trial_expects_nothing(
    trial: &mut SyncTrial,
    reply: Reply,
    outcome: Result<(), TrialError>,
    step: Option<Step>,
)
    requires
        old(trial).wf(),
        call_ensures(SyncTrial::current, (&*old(trial),), step),
        call_ensures(SyncTrial::advance, (trial, reply), outcome),
    ensures
        step is None <==> old(trial)@.done == script().len(),
        step is None ==> outcome == Err::<(), TrialError>(TrialError::UnexpectedReply) && final(trial)@ == old(trial)@,
{
    old(trial).law_wf_means_valid();
}

/// When a node is reported as set up, the trial knows it by the address reported, and every
/// other node by the one that it was known by before; no other reply changes an address.
pub proof fn law_trial_notes_where_nodes_listen(
    trial: &mut SyncTrial,
    reply: Reply,
    outcome: Result<(), TrialError>,
    step: Option<Step>,
    node: Node,
    before: Option<SocketAddr>,
    after: Option<SocketAddr>,
)
    requires
        old(trial).wf(),
        call_ensures(SyncTrial::current, (&*old(trial),), step),
        call_ensures(SyncTrial::advance, (trial, reply), outcome),
        call_ensures(SyncTrial::addr_of, (&*old(trial), node), before),
        call_ensures(SyncTrial::addr_of, (&*final(trial), node), after),
    ensures
        step == Some(Step::SetUpNode(node)) ==> (reply matches Reply::NodeReady(addr) ==> after
            == Some(addr)),
        step != Some(Step::SetUpNode(node)) || !(reply is NodeReady) ==> after == before,
{
    old(trial).law_wf_means_valid();
}

/// A check for a connection looks for the address that the trial gives for the peer: it holds
/// exactly when that address is among those reported.
pub proof fn law_connection_is_looked_for_under_the_known_address(
    trial: &mut SyncTrial,
    found: Vec<SocketAddr>,
    outcome: Result<(), TrialError>,
    node: Node,
    peer: Node,
    known: Option<SocketAddr>,
)
    requires
        old(trial).wf(),
        call_ensures(SyncTrial::current, (&*old(trial),), Some(Step::ExpectPeer { node, peer })),
        call_ensures(SyncTrial::addr_of, (&*old(trial), peer), known),
        call_ensures(SyncTrial::advance, (trial, Reply::Peers(found)), outcome),
    ensures
        known is Some,
        outcome is Ok <==> exists|i: int|
            0 <= i < found@.len() && #[trigger] found@[i] == known->0,
        outcome matches Err(error) ==> error == (TrialError::MissingPeer {
            expected: known->0,
            found,
        }),
{
    old(trial).law_wf_means_valid();
    lemma_checked_peer_has_addr(old(trial)@, node, peer);
}

/// A connection is found exactly when the address expected is among those of the peers; else
/// the error names the one expected and those found.
pub proof fn law_connection_is_found_among_the_peers(
    peers: Vec<SocketAddr>,
    expected: SocketAddr,
    checked: Result<(), TrialError>,
)
    requires
        call_ensures(check_peer_connection, (peers, expected), checked),
    ensures
        checked is Ok <==> exists|i: int| 0 <= i < peers@.len() && #[trigger] peers@[i] == expected,
        checked matches Err(error) ==> error == (TrialError::MissingPeer { expected, found: peers }),
{
}

/// The result of a trial is the one that was sent, success or error, and the error given
/// where none was sent.
pub proof fn law_result_is_the_one_sent<E>(
    received: Option<Result<(), E>>,
    closed: E,
    result: Result<(), E>,
)
    requires
        call_ensures(trial_result::<E>, (received, closed), result),
    ensures
        result is Ok <==> (received matches Some(sent) && sent is Ok),
        received matches Some(Err(error)) ==> result == Err::<(), E>(error),
        received is None ==> result == Err::<(), E>(closed),
{
}

/// Each node is run from its own binary in a data directory that no other node has.
pub proof fn law_nodes_have_data_directories_of_their_own(
    node: Node,
    other: Node,
    setup: NodeSetup,
    other_setup: NodeSetup,
    suffix: &'static str,
)
    requires
        call_ensures(node_setup, (node,), setup),
        call_ensures(node_setup, (other,), other_setup),
        call_ensures(Node::data_dir_suffix, (node,), suffix),
    ensures
        setup.app == Binaries::Thunder,
        setup.data_dir_suffix@ == suffix@,
        setup.data_dir_suffix@ == other_setup.data_dir_suffix@ <==> node == other,
        node == Node::Sender ==> suffix@ == "sender"@,
        node == Node::Sender2 ==> suffix@ == "sender_2"@,
        node == Node::Syncer ==> suffix@ == "syncer"@,
        node == Node::Syncer2 ==> suffix@ == "syncer_2"@,
{
    reveal_strlit("sender");
    reveal_strlit("sender_2");
    reveal_strlit("syncer");
    reveal_strlit("syncer_2");
    assert("sender"@[1] == 'e' && "sender_2"@[1] == 'e');
    assert("syncer"@[1] == 'y' && "syncer_2"@[1] == 'y');
    assert("sender"@.len() == 6 && "syncer"@.len() == 6);
    assert("sender_2"@.len() == 8 && "syncer_2"@.len() == 8);
}

/// The enforcer that the trial sets up is the one on regtest, with a mempool, run from the
/// binaries other than the node's.
pub proof fn law_enforcer_runs_on_regtest_with_a_mempool(setup: EnforcerSetup, i: int)
    requires
        call_ensures(enforcer_setup, (), setup),
        0 <= i < script().len(),
    ensures
        setup.binaries == Binaries::Others,
        setup.network == ChainNetwork::Regtest,
        setup.mode == EnforcerMode::Mempool,
        script()[i] matches Step::SetUpEnforcer(given) ==> given == setup,
{
    lemma_steps();
}

/// A trial in order can be given any reply, and asked for its step and for any address.
pub proof fn law_trial_in_order_can_be_used(trial: &mut SyncTrial, reply: Reply, node: Node)
    requires
        old(trial).wf(),
    ensures
        call_requires(SyncTrial::advance, (trial, reply)),
        call_requires(SyncTrial::current, (&*old(trial),)),
        call_requires(SyncTrial::addr_of, (&*old(trial), node)),
{
}

} // verus!
