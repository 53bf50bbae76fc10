use std::collections::HashSet;
use thunder_net::addr::{SocketAddr, SocketAddrV4};
use thunder_net::message::{
    AddrMessage, GetBlockRequest, GetHeadersRequest, HeadersSummary, Heartbeat,
    PushTransactionRequest, Request, RequestMessage, RequestMessageRef, ResponseMessage,
};
use thunder_net::peer_info::PeerInfo;
use thunder_net::types::{
    AuthorizedTransaction, Block, BlockHash, Header, PeerState, PeerStateId, Tip, Txid,
};
use thunder_net::wire::{ReceivedRequest, SentRequest};

fn hash(byte: u8) -> BlockHash {
    BlockHash([byte; 32])
}

fn get_block() -> GetBlockRequest {
    GetBlockRequest {
        block_hash: hash(1),
        descendant_tip: Some(Tip { block_hash: hash(2), main_block_hash: hash(3) }),
        ancestor: Some(hash(4)),
        peer_state_id: Some(PeerStateId([5; 32])),
    }
}

fn get_headers(height: Option<u32>) -> GetHeadersRequest {
    let mut start = HashSet::new();
    start.insert(hash(6));
    start.insert(hash(7));
    GetHeadersRequest { start, end: hash(8), height, peer_state_id: Some(PeerStateId([9; 32])) }
}

fn push_transaction() -> PushTransactionRequest {
    PushTransactionRequest { transaction: AuthorizedTransaction(vec![1, 2, 3]) }
}

fn addr_message() -> AddrMessage {
    let addr = SocketAddr::V4(SocketAddrV4 { ip: 1, port: 2 });
    AddrMessage::from(vec![PeerInfo::new(addr, addr)])
}

fn heartbeat() -> Heartbeat {
    Heartbeat(PeerState(vec![4, 2]))
}

/// Sends a message and takes in what the other side gets.
fn over_the_wire(message: &RequestMessage) -> ReceivedRequest {
    match message.as_ref().to_sent() {
        SentRequest::Heartbeat(heartbeat) => ReceivedRequest::Heartbeat(heartbeat.clone()),
        SentRequest::GetBlock { block_hash } => {
            ReceivedRequest::GetBlock { block_hash: *block_hash }
        }
        SentRequest::GetHeaders { start, end } => {
            ReceivedRequest::GetHeaders { start: start.clone(), end: *end }
        }
        SentRequest::PushTransaction { transaction } => {
            ReceivedRequest::PushTransaction { transaction: transaction.clone() }
        }
        SentRequest::GetAddr => ReceivedRequest::GetAddr,
        SentRequest::Addr(message) => ReceivedRequest::Addr(message.clone()),
    }
}

#[test]
fn response_limits() {
    assert_eq!(get_block().read_response_limit(), 10 * 1024 * 1024);
    assert_eq!(get_headers(Some(0)).read_response_limit(), 2048);
    assert_eq!(get_headers(Some(9)).read_response_limit(), 20480);
    assert_eq!(get_headers(Some(1_000_000)).read_response_limit(), 2_048_002_048);
    assert_eq!(push_transaction().read_response_limit(), 256);
}

#[test]
fn a_headers_limit_is_known_with_the_height() {
    assert!(!get_headers(None).knows_limit());
    assert!(get_headers(Some(0)).knows_limit());
    assert!(get_headers(Some(1_000_000)).knows_limit());
}

#[test]
fn response_limits_of_requests() {
    assert_eq!(Request::from(get_block()).read_response_limit(), 10485760);
    assert_eq!(Request::from(get_headers(Some(3))).read_response_limit(), 8192);
    assert_eq!(Request::from(push_transaction()).read_response_limit(), 256);
    assert_eq!(Request::GetAddr.read_response_limit(), 1);
    assert_eq!(Request::from(addr_message()).read_response_limit(), 1);
}

#[test]
fn a_heartbeat_expects_no_response() {
    let message = RequestMessage::from(heartbeat());
    assert_eq!(message.as_ref().read_response_limit(), None);
    let heartbeat = heartbeat();
    assert_eq!(RequestMessageRef::from(&heartbeat).read_response_limit(), None);
}

#[test]
fn a_borrowed_request_has_the_limit_of_the_request() {
    let request = Request::from(get_headers(Some(1)));
    assert_eq!(RequestMessageRef::from(&request).read_response_limit(), Some(4096));
    let message = RequestMessage::from(request);
    assert_eq!(RequestMessageRef::from(&message).read_response_limit(), Some(4096));
    assert_eq!(message.as_ref().read_response_limit(), Some(4096));
}

#[test]
fn requests_become_messages() {
    assert!(matches!(
        RequestMessage::from(get_block()),
        RequestMessage::Request(Request::GetBlock(_))
    ));
    assert!(matches!(
        RequestMessage::from(get_headers(None)),
        RequestMessage::Request(Request::GetHeaders(_))
    ));
    assert!(matches!(
        RequestMessage::from(push_transaction()),
        RequestMessage::Request(Request::PushTransaction(_))
    ));
    assert!(matches!(
        RequestMessage::from(addr_message()),
        RequestMessage::Request(Request::Addr(_))
    ));
    assert!(matches!(
        RequestMessage::from(Request::GetAddr),
        RequestMessage::Request(Request::GetAddr)
    ));
}

#[test]
fn a_clone_of_a_headers_request_has_the_same_hashes() {
    let request = get_headers(Some(4));
    let copy = request.clone();
    assert_eq!(copy.start.len(), 2);
    assert_eq!(copy.start, request.start);
    assert_eq!(copy.end, request.end);
    assert_eq!(copy.height, Some(4));
    assert_eq!(copy.peer_state_id, request.peer_state_id);
}

#[test]
fn a_block_request_is_read_back_without_local_fields() {
    let message = RequestMessage::from(get_block());
    match RequestMessage::from(over_the_wire(&message)) {
        RequestMessage::Request(Request::GetBlock(request)) => {
            assert_eq!(request.block_hash, hash(1));
            assert_eq!(request.descendant_tip, None);
            assert_eq!(request.ancestor, None);
            assert_eq!(request.peer_state_id, None);
        }
        other => panic!("{:?}", other),
    }
}

#[test]
fn a_headers_request_is_read_back_without_local_fields() {
    let message = RequestMessage::from(get_headers(Some(12)));
    match RequestMessage::from(over_the_wire(&message)) {
        RequestMessage::Request(Request::GetHeaders(request)) => {
            assert_eq!(request.start, get_headers(None).start);
            assert_eq!(request.end, hash(8));
            assert_eq!(request.height, None);
            assert_eq!(request.peer_state_id, None);
        }
        other => panic!("{:?}", other),
    }
}

#[test]
fn other_messages_are_read_back_whole() {
    match RequestMessage::from(over_the_wire(&RequestMessage::from(heartbeat()))) {
        RequestMessage::Heartbeat(read) => assert_eq!(read.0, heartbeat().0),
        other => panic!("{:?}", other),
    }
    match RequestMessage::from(over_the_wire(&RequestMessage::from(push_transaction()))) {
        RequestMessage::Request(Request::PushTransaction(read)) => {
            assert_eq!(read.transaction, push_transaction().transaction)
        }
        other => panic!("{:?}", other),
    }
    match RequestMessage::from(over_the_wire(&RequestMessage::from(Request::GetAddr))) {
        RequestMessage::Request(Request::GetAddr) => {}
        other => panic!("{:?}", other),
    }
    match RequestMessage::from(over_the_wire(&RequestMessage::from(addr_message()))) {
        RequestMessage::Request(Request::Addr(read)) => {
            assert_eq!(read.addresses, addr_message().addresses)
        }
        other => panic!("{:?}", other),
    }
}

#[test]
fn passing_a_message_on_changes_nothing() {
    let message = RequestMessage::from(get_block());
    let first = over_the_wire(&message);
    let again = over_the_wire(&RequestMessage::from(over_the_wire(&message)));
    assert_eq!(format!("{:?}", first), format!("{:?}", again));
}

#[test]
fn responses_are_made_from_what_they_carry() {
    assert!(matches!(
        ResponseMessage::from(Block(vec![1])),
        ResponseMessage::Block(block) if block == Block(vec![1])
    ));
    assert!(matches!(
        ResponseMessage::from(vec![Header(vec![2])]),
        ResponseMessage::Headers(headers) if headers == vec![Header(vec![2])]
    ));
    assert!(matches!(
        ResponseMessage::from(Txid([3; 32])),
        ResponseMessage::TransactionAccepted(txid) if txid == Txid([3; 32])
    ));
    assert!(matches!(
        ResponseMessage::from(String::from("no")),
        ResponseMessage::TransactionRejected(reason) if reason == "no"
    ));
    assert!(matches!(
        ResponseMessage::from(addr_message()),
        ResponseMessage::Addr(message) if message.addresses.len() == 1
    ));
    assert!(matches!(ResponseMessage::from(()), ResponseMessage::Empty));
}

#[test]
fn long_lists_of_headers_are_shown_by_their_ends() {
    let headers: Vec<Header> = (0..4).map(|i| Header(vec![i])).collect();
    match ResponseMessage::summarize_headers(&headers) {
        HeadersSummary::Ends { first, last } => {
            assert_eq!(*first, Header(vec![0]));
            assert_eq!(*last, Header(vec![3]));
        }
        HeadersSummary::Whole(_) => panic!("four headers are to be cut"),
    }
    let two = vec![Header(vec![1]), Header(vec![2])];
    assert!(matches!(
        ResponseMessage::summarize_headers(&two),
        HeadersSummary::Ends { .. }
    ));
}

#[test]
fn short_lists_of_headers_are_shown_whole() {
    let none: Vec<Header> = vec![];
    let one = vec![Header(vec![1])];
    assert!(matches!(
        ResponseMessage::summarize_headers(&none),
        HeadersSummary::Whole(headers) if headers.is_empty()
    ));
    assert!(matches!(
        ResponseMessage::summarize_headers(&one),
        HeadersSummary::Whole(headers) if headers.len() == 1
    ));
}
