use thunder_net::addr::{SocketAddr, SocketAddrV4};
use thunder_net::trial::{
    check_peer_connection, enforcer_setup, node_setup, trial_result, Binaries, ChainNetwork,
    EnforcerMode, EnforcerSetup, Node, Reply, Step, SyncTrial, TrialError,
};

fn addr_of(node: Node) -> SocketAddr {
    let port = match node {
        Node::Sender => 1,
        Node::Sender2 => 2,
        Node::Syncer => 3,
        Node::Syncer2 => 4,
    };
    SocketAddr::V4(SocketAddrV4 { ip: 0x7f000001, port })
}

/// What a network in which all goes well replies.
fn good_reply(step: Step) -> Reply {
    match step {
        Step::SetUpNode(node) => Reply::NodeReady(addr_of(node)),
        Step::ExpectBlockCount { blocks, .. } => Reply::BlockCount(blocks),
        Step::ReportPeers(_) => Reply::Peers(vec![]),
        Step::ExpectPeer { .. } => Reply::Peers(vec![
            addr_of(Node::Syncer2),
            addr_of(Node::Syncer),
            addr_of(Node::Sender2),
            addr_of(Node::Sender),
        ]),
        _ => Reply::Done,
    }
}

/// A trial that has come to the first step that `stop` picks.
fn trial_at(stop: fn(Step) -> bool) -> SyncTrial {
    let mut trial = SyncTrial::new();
    while let Some(step) = trial.current() {
        if stop(step) {
            return trial;
        }
        trial.advance(good_reply(step)).unwrap();
    }
    panic!("no such step");
}

#[test]
fn a_trial_in_which_all_goes_well_is_passed() {
    let mut trial = SyncTrial::new();
    let mut steps = vec![];
    while let Some(step) = trial.current() {
        steps.push(step);
        trial.advance(good_reply(step)).unwrap();
    }
    assert_eq!(steps.len(), 45);
    assert_eq!(steps[0], Step::SetUpEnforcer(enforcer_setup()));
    assert_eq!(steps[8], Step::Mine { node: Node::Sender, blocks: 16 });
    assert_eq!(steps[21], Step::Wait { seconds: 1 });
    assert_eq!(steps[30], Step::Wait { seconds: 10 });
    assert_eq!(steps[37], Step::ExpectBlockCount { node: Node::Syncer2, blocks: 16 });
    assert_eq!(steps[44], Step::CleanUp);
    assert_eq!(trial.current(), None);
    assert_eq!(trial.advance(Reply::Done), Err(TrialError::UnexpectedReply));
}

#[test]
fn every_connection_is_checked_at_both_ends() {
    let mut trial = SyncTrial::new();
    let mut made = vec![];
    let mut checked = vec![];
    while let Some(step) = trial.current() {
        match step {
            Step::Connect { from, to } => made.push((from, to)),
            Step::ExpectPeer { node, peer } => checked.push((node, peer)),
            _ => {}
        }
        trial.advance(good_reply(step)).unwrap();
    }
    assert_eq!(made.len(), 4);
    assert_eq!(checked.len(), 8);
    for (from, to) in made {
        assert!(checked.contains(&(from, to)));
        assert!(checked.contains(&(to, from)));
    }
}

#[test]
fn a_failed_step_fails_the_trial() {
    let mut trial = SyncTrial::new();
    assert_eq!(
        trial.advance(Reply::Failed),
        Err(TrialError::StepFailed(Step::SetUpEnforcer(enforcer_setup())))
    );
    assert_eq!(trial.current(), Some(Step::SetUpEnforcer(enforcer_setup())));
}

#[test]
fn a_wrong_block_count_fails_the_trial() {
    let mut trial = trial_at(|step| {
        step == Step::ExpectBlockCount { node: Node::Syncer2, blocks: 16 }
    });
    assert_eq!(
        trial.advance(Reply::BlockCount(15)),
        Err(TrialError::BlockCount { node: Node::Syncer2, wanted: 16, counted: 15 })
    );
    assert_eq!(trial.advance(Reply::BlockCount(16)), Ok(()));
}

#[test]
fn a_missing_connection_fails_the_trial() {
    let mut trial = trial_at(|step| {
        step == Step::ExpectPeer { node: Node::Sender, peer: Node::Syncer2 }
    });
    let found = vec![addr_of(Node::Syncer), addr_of(Node::Sender2)];
    assert_eq!(
        trial.advance(Reply::Peers(found.clone())),
        Err(TrialError::MissingPeer { expected: addr_of(Node::Syncer2), found })
    );
}

#[test]
fn a_reply_of_the_wrong_kind_is_refused() {
    let mut trial = SyncTrial::new();
    assert_eq!(trial.advance(Reply::BlockCount(0)), Err(TrialError::UnexpectedReply));
    trial.advance(Reply::Done).unwrap();
    assert_eq!(trial.advance(Reply::Done), Err(TrialError::UnexpectedReply));
    let mut trial = trial_at(|step| matches!(step, Step::ReportPeers(_)));
    assert_eq!(trial.advance(Reply::Done), Err(TrialError::UnexpectedReply));
    let mut trial = trial_at(|step| matches!(step, Step::ExpectPeer { .. }));
    assert_eq!(trial.advance(Reply::Done), Err(TrialError::UnexpectedReply));
    let mut trial = trial_at(|step| matches!(step, Step::ExpectBlockCount { .. }));
    assert_eq!(trial.advance(Reply::Done), Err(TrialError::UnexpectedReply));
}

#[test]
fn addresses_are_known_from_setup_on() {
    let mut trial = SyncTrial::new();
    trial.advance(Reply::Done).unwrap();
    assert_eq!(trial.addr_of(Node::Sender), None);
    trial.advance(Reply::NodeReady(addr_of(Node::Sender))).unwrap();
    assert_eq!(trial.addr_of(Node::Sender), Some(addr_of(Node::Sender)));
    assert_eq!(trial.addr_of(Node::Sender2), None);
}

#[test]
fn a_connection_is_looked_up_among_the_peers() {
    let expected = addr_of(Node::Sender);
    let other = addr_of(Node::Syncer);
    assert_eq!(check_peer_connection(vec![other, expected], expected), Ok(()));
    assert_eq!(
        check_peer_connection(vec![other], expected),
        Err(TrialError::MissingPeer { expected, found: vec![other] })
    );
    assert_eq!(
        check_peer_connection(vec![], expected),
        Err(TrialError::MissingPeer { expected, found: vec![] })
    );
}

#[test]
fn data_directories_are_named_after_the_nodes() {
    assert_eq!(Node::Sender.data_dir_suffix(), "sender");
    assert_eq!(Node::Sender2.data_dir_suffix(), "sender_2");
    assert_eq!(Node::Syncer.data_dir_suffix(), "syncer");
    assert_eq!(Node::Syncer2.data_dir_suffix(), "syncer_2");
}

#[test]
fn the_enforcer_runs_on_regtest_with_a_mempool() {
    let setup = EnforcerSetup {
        binaries: Binaries::Others,
        network: ChainNetwork::Regtest,
        mode: EnforcerMode::Mempool,
    };
    assert_eq!(enforcer_setup(), setup);
    assert_eq!(SyncTrial::new().current(), Some(Step::SetUpEnforcer(setup)));
}

#[test]
fn each_node_is_set_up_once_after_the_enforcer() {
    let mut trial = SyncTrial::new();
    let mut nodes = vec![];
    let mut enforcers = vec![];
    let mut position = 0;
    while let Some(step) = trial.current() {
        match step {
            Step::SetUpEnforcer(_) => enforcers.push(position),
            Step::SetUpNode(node) => nodes.push(node),
            _ => {}
        }
        trial.advance(good_reply(step)).unwrap();
        position += 1;
    }
    assert_eq!(enforcers, vec![0]);
    assert_eq!(nodes, vec![Node::Sender, Node::Sender2, Node::Syncer, Node::Syncer2]);
    for node in nodes {
        assert_eq!(node_setup(node).app, Binaries::Thunder);
        assert_eq!(node_setup(node).data_dir_suffix, node.data_dir_suffix());
    }
}

#[test]
fn the_result_is_what_the_task_sent() {
    assert_eq!(trial_result(Some(Ok(())), "closed"), Ok(()));
    assert_eq!(trial_result(Some(Err("failed")), "closed"), Err("failed"));
    assert_eq!(trial_result(None, "closed"), Err("closed"));
}
