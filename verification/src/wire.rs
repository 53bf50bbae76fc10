//! What of a request message is sent, and what a received one is read as.

use crate::message::{
    AddrMessage, GetBlockRequest, GetHeadersRequest, Heartbeat, PushTransactionRequest, Request,
    RequestMessage, RequestMessageRef,
};
use crate::types::{AuthorizedTransaction, BlockHash};
use std::collections::HashSet;
use vstd::prelude::*;

verus! {

/// A request message as it is sent: one flat choice, without what only the requester needs.
#[derive(Debug, Clone, Copy)]
pub enum SentRequest<'a> {
    Heartbeat(&'a Heartbeat),
    GetBlock { block_hash: &'a BlockHash },
    GetHeaders { start: &'a HashSet<BlockHash>, end: &'a BlockHash },
    PushTransaction { transaction: &'a AuthorizedTransaction },
    GetAddr,
    Addr(&'a AddrMessage),
}

/// A request message as it is received.
#[derive(Debug)]
pub enum ReceivedRequest {
    Heartbeat(Heartbeat),
    GetBlock { block_hash: BlockHash },
    GetHeaders { start: HashSet<BlockHash>, end: BlockHash },
    PushTransaction { transaction: AuthorizedTransaction },
    GetAddr,
    Addr(AddrMessage),
}

impl ReceivedRequest {
    /// The message that is read.
    pub open spec fn message(self) -> RequestMessage {
        match self {
            ReceivedRequest::Heartbeat(heartbeat) => RequestMessage::Heartbeat(heartbeat),
            ReceivedRequest::GetBlock { block_hash } => RequestMessage::Request(
                Request::GetBlock(
                    GetBlockRequest {
                        block_hash,
                        descendant_tip: None,
                        ancestor: None,
                        peer_state_id: None,
                    },
                ),
            ),
            ReceivedRequest::GetHeaders { start, end } => RequestMessage::Request(
                Request::GetHeaders(
                    GetHeadersRequest { start, end, height: None, peer_state_id: None },
                ),
            ),
            ReceivedRequest::PushTransaction { transaction } => RequestMessage::Request(
                Request::PushTransaction(PushTransactionRequest { transaction }),
            ),
            ReceivedRequest::GetAddr => RequestMessage::Request(Request::GetAddr),
            ReceivedRequest::Addr(message) => RequestMessage::Request(Request::Addr(message)),
        }
    }
}

impl<'a> SentRequest<'a> {
    /// What the other side receives.
    pub open spec fn received(self) -> ReceivedRequest {
        match self {
            SentRequest::Heartbeat(heartbeat) => ReceivedRequest::Heartbeat(*heartbeat),
            SentRequest::GetBlock { block_hash } => ReceivedRequest::GetBlock {
                block_hash: *block_hash,
            },
            SentRequest::GetHeaders { start, end } => ReceivedRequest::GetHeaders {
                start: *start,
                end: *end,
            },
            SentRequest::PushTransaction { transaction } => ReceivedRequest::PushTransaction {
                transaction: *transaction,
            },
            SentRequest::GetAddr => ReceivedRequest::GetAddr,
            SentRequest::Addr(message) => ReceivedRequest::Addr(*message),
        }
    }
}

impl RequestMessage {
    /// What the other side receives when the message is sent.
    pub open spec fn sent(self) -> ReceivedRequest {
        match self {
            RequestMessage::Heartbeat(heartbeat) => ReceivedRequest::Heartbeat(heartbeat),
            RequestMessage::Request(Request::GetBlock(request)) => ReceivedRequest::GetBlock {
                block_hash: request.block_hash,
            },
            RequestMessage::Request(Request::GetHeaders(request)) => ReceivedRequest::GetHeaders {
                start: request.start,
                end: request.end,
            },
            RequestMessage::Request(Request::PushTransaction(request)) =>
                ReceivedRequest::PushTransaction { transaction: request.transaction },
            RequestMessage::Request(Request::GetAddr) => ReceivedRequest::GetAddr,
            RequestMessage::Request(Request::Addr(message)) => ReceivedRequest::Addr(message),
        }
    }

    /// The message without what is only relevant for the requester.
    pub open spec fn without_local_fields(self) -> RequestMessage {
        match self {
            RequestMessage::Request(Request::GetBlock(request)) => RequestMessage::Request(
                Request::GetBlock(
                    GetBlockRequest {
                        descendant_tip: None,
                        ancestor: None,
                        peer_state_id: None,
                        ..request
                    },
                ),
            ),
            RequestMessage::Request(Request::GetHeaders(request)) => RequestMessage::Request(
                Request::GetHeaders(
                    GetHeadersRequest { height: None, peer_state_id: None, ..request },
                ),
            ),
            _ => self,
        }
    }
}

impl<'a> RequestMessageRef<'a> {
    /// The form in which the message is sent.
    pub fn to_sent(&self) -> (form: SentRequest<'a>)
        ensures
            form.received() == self.message().sent(),
    {
        match self {
            RequestMessageRef::Heartbeat(heartbeat) => SentRequest::Heartbeat(heartbeat),
            RequestMessageRef::Request(request) => match request {
                Request::GetBlock(request) => SentRequest::GetBlock {
                    block_hash: &request.block_hash,
                },
                Request::GetHeaders(request) => SentRequest::GetHeaders {
                    start: &request.start,
                    end: &request.end,
                },
                Request::PushTransaction(request) => SentRequest::PushTransaction {
                    transaction: &request.transaction,
                },
                Request::GetAddr => SentRequest::GetAddr,
                Request::Addr(message) => SentRequest::Addr(message),
            },
        }
    }
}

impl From<ReceivedRequest> for RequestMessage {
    fn from(form: ReceivedRequest) -> (message: Self) {
        match form {
            ReceivedRequest::Heartbeat(heartbeat) => RequestMessage::Heartbeat(heartbeat),
            ReceivedRequest::GetBlock { block_hash } => RequestMessage::Request(
                Request::GetBlock(
                    GetBlockRequest {
                        block_hash,
                        descendant_tip: None,
                        ancestor: None,
                        peer_state_id: None,
                    },
                ),
            ),
            ReceivedRequest::GetHeaders { start, end } => RequestMessage::Request(
                Request::GetHeaders(
                    GetHeadersRequest { start, end, height: None, peer_state_id: None },
                ),
            ),
            ReceivedRequest::PushTransaction { transaction } => RequestMessage::Request(
                Request::PushTransaction(PushTransactionRequest { transaction }),
            ),
            ReceivedRequest::GetAddr => RequestMessage::Request(Request::GetAddr),
            ReceivedRequest::Addr(message) => RequestMessage::Request(Request::Addr(message)),
        }
    }
}

impl vstd::std_specs::convert::FromSpecImpl<ReceivedRequest> for RequestMessage {
    open spec fn obeys_from_spec() -> bool {
        true
    }

    open spec fn from_spec(form: ReceivedRequest) -> Self {
        form.message()
    }
}

/// A message that is sent and read back is the same message, except that what was only
/// relevant for the requester is gone.
pub proof fn law_read_back_what_was_sent(message: RequestMessage)
    ensures
        message.sent().message() == message.without_local_fields(),
{
}

/// A received message that is passed on is received alike.
pub proof fn law_passing_on_changes_nothing(form: ReceivedRequest)
    ensures
        form.message().sent() == form,
        form.message().without_local_fields() == form.message(),
{
}

/// What is only relevant for the requester has no influence on what is sent; all else has:
/// two messages are sent alike exactly when they agree on all else.
pub proof fn law_local_fields_are_not_sent(one: RequestMessage, other: RequestMessage)
    ensures
        one.sent() == other.sent() <==> one.without_local_fields() == other.without_local_fields(),
{
    law_read_back_what_was_sent(one);
    law_read_back_what_was_sent(other);
}

/// A request for headers loses its height on the way, so only its sender can tell how much
/// to read in response; to any other message that is received, the limit can be told.
pub proof fn law_height_stays_with_the_requester(message: RequestMessage)
    ensures
        message.sent().message().has_limit() <==> !(message
            matches RequestMessage::Request(Request::GetHeaders(_))),
{
}

/// What is sent of a message is what the other side needs, each part as it is: the state of a
/// heartbeat, the hash of a block, the ends of a range of headers, a transaction, a list of
/// addresses.
pub proof fn law_what_is_sent(message: RequestMessageRef, form: SentRequest)
    requires
        call_ensures(RequestMessageRef::to_sent, (&message,), form),
    ensures
        match message {
            RequestMessageRef::Heartbeat(heartbeat) => form matches SentRequest::Heartbeat(sent)
                && *sent == *heartbeat,
            RequestMessageRef::Request(request) => match *request {
                Request::GetBlock(request) => form matches SentRequest::GetBlock { block_hash }
                    && *block_hash == request.block_hash,
                Request::GetHeaders(request) => form matches SentRequest::GetHeaders { start, end }
                    && *start == request.start && *end == request.end,
                Request::PushTransaction(request) => form matches SentRequest::PushTransaction {
                    transaction,
                } && *transaction == request.transaction,
                Request::GetAddr => form is GetAddr,
                Request::Addr(addresses) => form matches SentRequest::Addr(sent) && *sent
                    == addresses,
            },
        },
{
}

/// What is received is read as the message of its kind with the parts received, and with
/// nothing of what is only relevant for the requester.
pub proof fn law_what_is_read(form: ReceivedRequest, message: RequestMessage)
    requires
        call_ensures(<RequestMessage as From<ReceivedRequest>>::from, (form,), message),
    ensures
        match form {
            ReceivedRequest::Heartbeat(heartbeat) => message matches RequestMessage::Heartbeat(read)
                && read == heartbeat,
            ReceivedRequest::GetBlock { block_hash } => {
                &&& message matches RequestMessage::Request(Request::GetBlock(read))
                &&& read.block_hash == block_hash
                &&& read.descendant_tip is None
                &&& read.ancestor is None
                &&& read.peer_state_id is None
            },
            ReceivedRequest::GetHeaders { start, end } => {
                &&& message matches RequestMessage::Request(Request::GetHeaders(read))
                &&& read.start == start
                &&& read.end == end
                &&& read.height is None
                &&& read.peer_state_id is None
            },
            ReceivedRequest::PushTransaction { transaction } => {
                &&& message matches RequestMessage::Request(Request::PushTransaction(read))
                &&& read.transaction == transaction
            },
            ReceivedRequest::GetAddr => message matches RequestMessage::Request(Request::GetAddr),
            ReceivedRequest::Addr(addresses) => {
                &&& message matches RequestMessage::Request(Request::Addr(read))
                &&& read == addresses
            },
        },
{
}

} // verus!
