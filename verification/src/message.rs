//! P2P message types

use crate::peer_info::PeerInfo;
use crate::types::{
    AuthorizedTransaction, Block, BlockHash, Header, PeerState, PeerStateId, Tip, Txid,
};
use std::collections::HashSet;
use vstd::prelude::*;
use vstd::std_specs::convert::FromSpec;

verus! {

/// Bytes that a block may take in a response.
pub const READ_BLOCK_LIMIT: usize = 10 * 1024 * 1024;

/// Bytes that a header may take in a response.
pub const READ_HEADER_LIMIT: usize = 2048;

/// Bytes that the acknowledgement of a transaction may take (such a response is ~192).
pub const READ_TX_ACK_LIMIT: usize = 256;

/// Bytes that the empty answer to an address message may take.
pub const READ_ADDR_LIMIT: usize = 1;

#[derive(Clone, Debug)]
pub struct Heartbeat(pub PeerState);

#[derive(Clone, Debug)]
pub struct GetBlockRequest {
    pub block_hash: BlockHash,
    /// Mainchain descendant tip that we are requesting the block to reach.
    /// Only relevant for the requester, and not sent
    pub descendant_tip: Option<Tip>,
    /// Ancestor block. If no bodies are missing between `descendant_tip`
    /// and `ancestor`, then `descendant_tip` is ready to apply.
    /// Only relevant for the requester, and not sent
    pub ancestor: Option<BlockHash>,
    /// Only relevant for the requester, and not sent
    pub peer_state_id: Option<PeerStateId>,
}

impl GetBlockRequest {
    /// Limit bytes to read in a response to a request
    pub fn read_response_limit(&self) -> (limit: usize)
        ensures
            limit == READ_BLOCK_LIMIT,
    {
        READ_BLOCK_LIMIT
    }
}

/// `Clone::clone` of a `std::collections::HashSet`: the copy holds the same hashes.
#[verifier::external_body]
fn clone_hashes(hashes: &HashSet<BlockHash>) -> (copy: HashSet<BlockHash>)
    ensures
        copy@ == hashes@,
{
    hashes.clone()
}

/// Request headers up to `end`
#[derive(Debug)]
pub struct GetHeadersRequest {
    /// Request headers AFTER (not including) the first ancestor found in
    /// the specified list, if such an ancestor exists.
    pub start: HashSet<BlockHash>,
    pub end: BlockHash,
    /// Height is only relevant for the requester, and not sent
    pub height: Option<u32>,
    /// Only relevant for the requester, and not sent
    pub peer_state_id: Option<PeerStateId>,
}

impl GetHeadersRequest {
    /// Room for every header up to a height, the one at height zero counted.
    pub open spec fn headers_limit(height: u32) -> int {
        (height + 1) * READ_HEADER_LIMIT
    }

    /// The request is one of ours, so it knows its height, and its answer can be held.
    pub open spec fn has_limit(self) -> bool {
        &&& self.height is Some
        &&& Self::headers_limit(self.height->0) <= usize::MAX
    }

    /// Whether a limit can be told.
    pub fn knows_limit(&self) -> (known: bool)
        ensures
            known == self.has_limit(),
    {
        match self.height {
            Some(height) => match (height as usize).checked_add(1) {
                Some(headers) => headers.checked_mul(READ_HEADER_LIMIT).is_some(),
                None => false,
            },
            None => false,
        }
    }

    /// Limit bytes to read in a response to a request
    pub fn read_response_limit(&self) -> (limit: usize)
        requires
            self.has_limit(),
        ensures
            limit == Self::headers_limit(self.height->0),
    {
        let expected_headers: usize = self.height.unwrap() as usize + 1;
        expected_headers * READ_HEADER_LIMIT
    }
}

impl Clone for GetHeadersRequest {
    fn clone(&self) -> (copy: Self)
        ensures
            copy.start@ == self.start@,
            copy.end == self.end,
            copy.height == self.height,
            copy.peer_state_id == self.peer_state_id,
    {
        GetHeadersRequest {
            start: clone_hashes(&self.start),
            end: self.end,
            height: self.height,
            peer_state_id: self.peer_state_id,
        }
    }
}

#[derive(Clone, Debug)]
pub struct PushTransactionRequest {
    pub transaction: AuthorizedTransaction,
}

impl PushTransactionRequest {
    /// Limit bytes to read in a response to a request
    pub fn read_response_limit(&self) -> (limit: usize)
        ensures
            limit == READ_TX_ACK_LIMIT,
    {
        READ_TX_ACK_LIMIT
    }
}

/// Message containing a list of peer addresses
#[derive(Clone, Debug)]
pub struct AddrMessage {
    /// List of peer addresses with their services
    pub addresses: Vec<PeerInfo>,
}

impl From<Vec<PeerInfo>> for AddrMessage {
    fn from(addresses: Vec<PeerInfo>) -> (made: Self) {
        AddrMessage { addresses }
    }
}

impl vstd::std_specs::convert::FromSpecImpl<Vec<PeerInfo>> for AddrMessage {
    open spec fn obeys_from_spec() -> bool {
        true
    }

    open spec fn from_spec(addresses: Vec<PeerInfo>) -> Self {
        AddrMessage { addresses }
    }
}

#[derive(Clone, Debug)]
pub enum Request {
    GetBlock(GetBlockRequest),
    GetHeaders(GetHeadersRequest),
    PushTransaction(PushTransactionRequest),
    /// Request to send peer addresses
    GetAddr,
    /// Message containing peer addresses
    Addr(AddrMessage),
}

impl Request {
    /// A limit can be told: only a request for headers can lack what is needed for it.
    pub open spec fn has_limit(self) -> bool {
        self matches Request::GetHeaders(request) ==> request.has_limit()
    }

    /// The bytes that a response may take.
    pub open spec fn response_limit(self) -> int {
        match self {
            Request::GetBlock(_) => READ_BLOCK_LIMIT as int,
            Request::GetHeaders(request) => GetHeadersRequest::headers_limit(request.height->0),
            Request::PushTransaction(_) => READ_TX_ACK_LIMIT as int,
            Request::GetAddr => READ_ADDR_LIMIT as int,
            Request::Addr(_) => READ_ADDR_LIMIT as int,
        }
    }

    /// Limit bytes to read in a response to a request
    pub fn read_response_limit(&self) -> (limit: usize)
        requires
            self.has_limit(),
        ensures
            limit == self.response_limit(),
    {
        match self {
            Request::GetBlock(request) => request.read_response_limit(),
            Request::GetHeaders(request) => request.read_response_limit(),
            Request::PushTransaction(request) => request.read_response_limit(),
            Request::GetAddr => READ_ADDR_LIMIT,
            Request::Addr(_) => READ_ADDR_LIMIT,
        }
    }
}

impl From<GetBlockRequest> for Request {
    fn from(request: GetBlockRequest) -> (made: Self) {
        Request::GetBlock(request)
    }
}

impl vstd::std_specs::convert::FromSpecImpl<GetBlockRequest> for Request {
    open spec fn obeys_from_spec() -> bool {
        true
    }

    open spec fn from_spec(request: GetBlockRequest) -> Self {
        Request::GetBlock(request)
    }
}

impl From<GetHeadersRequest> for Request {
    fn from(request: GetHeadersRequest) -> (made: Self) {
        Request::GetHeaders(request)
    }
}

impl vstd::std_specs::convert::FromSpecImpl<GetHeadersRequest> for Request {
    open spec fn obeys_from_spec() -> bool {
        true
    }

    open spec fn from_spec(request: GetHeadersRequest) -> Self {
        Request::GetHeaders(request)
    }
}

impl From<PushTransactionRequest> for Request {
    fn from(request: PushTransactionRequest) -> (made: Self) {
        Request::PushTransaction(request)
    }
}

impl vstd::std_specs::convert::FromSpecImpl<PushTransactionRequest> for Request {
    open spec fn obeys_from_spec() -> bool {
        true
    }

    open spec fn from_spec(request: PushTransactionRequest) -> Self {
        Request::PushTransaction(request)
    }
}

impl From<AddrMessage> for Request {
    fn from(message: AddrMessage) -> (made: Self) {
        Request::Addr(message)
    }
}

impl vstd::std_specs::convert::FromSpecImpl<AddrMessage> for Request {
    open spec fn obeys_from_spec() -> bool {
        true
    }

    open spec fn from_spec(message: AddrMessage) -> Self {
        Request::Addr(message)
    }
}

/// A message to a peer, borrowed: a heartbeat, or a request.
#[derive(Clone, Copy, Debug)]
pub enum RequestMessageRef<'a> {
    Heartbeat(&'a Heartbeat),
    Request(&'a Request),
}

impl<'a> RequestMessageRef<'a> {
    /// The message that is borrowed.
    pub open spec fn message(self) -> RequestMessage {
        match self {
            RequestMessageRef::Heartbeat(heartbeat) => RequestMessage::Heartbeat(*heartbeat),
            RequestMessageRef::Request(request) => RequestMessage::Request(*request),
        }
    }

    /// Limit bytes to read in a response to a request.
    /// Returns `None` if no response is expected
    pub fn read_response_limit(&self) -> (limit: Option<usize>)
        requires
            self.message().has_limit(),
        ensures
            match (limit, self.message().response_limit()) {
                (Some(limit), Some(bytes)) => limit == bytes,
                (None, None) => true,
                _ => false,
            },
    {
        match self {
            RequestMessageRef::Heartbeat(_) => None,
            RequestMessageRef::Request(request) => Some(request.read_response_limit()),
        }
    }
}

impl<'a> From<&'a Heartbeat> for RequestMessageRef<'a> {
    fn from(heartbeat: &'a Heartbeat) -> (made: Self) {
        RequestMessageRef::Heartbeat(heartbeat)
    }
}

impl<'a> vstd::std_specs::convert::FromSpecImpl<&'a Heartbeat> for RequestMessageRef<'a> {
    open spec fn obeys_from_spec() -> bool {
        true
    }

    open spec fn from_spec(heartbeat: &'a Heartbeat) -> Self {
        RequestMessageRef::Heartbeat(heartbeat)
    }
}

impl<'a> From<&'a Request> for RequestMessageRef<'a> {
    fn from(request: &'a Request) -> (made: Self) {
        RequestMessageRef::Request(request)
    }
}

impl<'a> vstd::std_specs::convert::FromSpecImpl<&'a Request> for RequestMessageRef<'a> {
    open spec fn obeys_from_spec() -> bool {
        true
    }

    open spec fn from_spec(request: &'a Request) -> Self {
        RequestMessageRef::Request(request)
    }
}

/// A message to a peer: a heartbeat, or a request.
#[derive(Debug)]
pub enum RequestMessage {
    Heartbeat(Heartbeat),
    Request(Request),
}

impl RequestMessage {
    /// A limit can be told, or none is needed.
    pub open spec fn has_limit(self) -> bool {
        self matches RequestMessage::Request(request) ==> request.has_limit()
    }

    /// The bytes that a response may take, if a response is expected.
    pub open spec fn response_limit(self) -> Option<int> {
        match self {
            RequestMessage::Heartbeat(_) => None,
            RequestMessage::Request(request) => Some(request.response_limit()),
        }
    }

    /// Borrows the message.
    pub fn as_ref<'a>(&'a self) -> (borrowed: RequestMessageRef<'a>)
        ensures
            borrowed.message() == *self,
    {
        match self {
            RequestMessage::Heartbeat(heartbeat) => RequestMessageRef::Heartbeat(heartbeat),
            RequestMessage::Request(request) => RequestMessageRef::Request(request),
        }
    }
}

impl<'a> From<&'a RequestMessage> for RequestMessageRef<'a> {
    fn from(owned: &'a RequestMessage) -> (made: Self) {
        owned.as_ref()
    }
}

impl<'a> vstd::std_specs::convert::FromSpecImpl<&'a RequestMessage> for RequestMessageRef<'a> {
    open spec fn obeys_from_spec() -> bool {
        true
    }

    open spec fn from_spec(owned: &'a RequestMessage) -> Self {
        match *owned {
            RequestMessage::Heartbeat(heartbeat) => RequestMessageRef::Heartbeat(&heartbeat),
            RequestMessage::Request(request) => RequestMessageRef::Request(&request),
        }
    }
}

impl From<Heartbeat> for RequestMessage {
    fn from(heartbeat: Heartbeat) -> (made: Self) {
        RequestMessage::Heartbeat(heartbeat)
    }
}

impl vstd::std_specs::convert::FromSpecImpl<Heartbeat> for RequestMessage {
    open spec fn obeys_from_spec() -> bool {
        true
    }

    open spec fn from_spec(heartbeat: Heartbeat) -> Self {
        RequestMessage::Heartbeat(heartbeat)
    }
}

impl From<Request> for RequestMessage {
    fn from(request: Request) -> (made: Self) {
        RequestMessage::Request(request)
    }
}

impl vstd::std_specs::convert::FromSpecImpl<Request> for RequestMessage {
    open spec fn obeys_from_spec() -> bool {
        true
    }

    open spec fn from_spec(request: Request) -> Self {
        RequestMessage::Request(request)
    }
}

impl From<GetBlockRequest> for RequestMessage {
    fn from(request: GetBlockRequest) -> (made: Self) {
        RequestMessage::Request(Request::GetBlock(request))
    }
}

impl vstd::std_specs::convert::FromSpecImpl<GetBlockRequest> for RequestMessage {
    open spec fn obeys_from_spec() -> bool {
        true
    }

    open spec fn from_spec(request: GetBlockRequest) -> Self {
        RequestMessage::Request(Request::GetBlock(request))
    }
}

impl From<GetHeadersRequest> for RequestMessage {
    fn from(request: GetHeadersRequest) -> (made: Self) {
        RequestMessage::Request(Request::GetHeaders(request))
    }
}

impl vstd::std_specs::convert::FromSpecImpl<GetHeadersRequest> for RequestMessage {
    open spec fn obeys_from_spec() -> bool {
        true
    }

    open spec fn from_spec(request: GetHeadersRequest) -> Self {
        RequestMessage::Request(Request::GetHeaders(request))
    }
}

impl From<PushTransactionRequest> for RequestMessage {
    fn from(request: PushTransactionRequest) -> (made: Self) {
        RequestMessage::Request(Request::PushTransaction(request))
    }
}

impl vstd::std_specs::convert::FromSpecImpl<PushTransactionRequest> for RequestMessage {
    open spec fn obeys_from_spec() -> bool {
        true
    }

    open spec fn from_spec(request: PushTransactionRequest) -> Self {
        RequestMessage::Request(Request::PushTransaction(request))
    }
}

impl From<AddrMessage> for RequestMessage {
    fn from(message: AddrMessage) -> (made: Self) {
        RequestMessage::Request(Request::Addr(message))
    }
}

impl vstd::std_specs::convert::FromSpecImpl<AddrMessage> for RequestMessage {
    open spec fn obeys_from_spec() -> bool {
        true
    }

    open spec fn from_spec(message: AddrMessage) -> Self {
        RequestMessage::Request(Request::Addr(message))
    }
}

/// A peer's answer to a request.
#[derive(Debug, Clone)]
pub enum ResponseMessage {
    Block(Block),
    Headers(Vec<Header>),
    TransactionAccepted(Txid),
    TransactionRejected(String),
    Addr(AddrMessage),
    Empty,
    NoBlock { block_hash: BlockHash },
    NoHeader { block_hash: BlockHash },
}

/// What to show of a list of headers.
#[derive(Debug, Clone, Copy)]
pub enum HeadersSummary<'a> {
    /// The first header and the last, with those between them left out
    Ends { first: &'a Header, last: &'a Header },
    /// The list as it is
    Whole(&'a Vec<Header>),
}

impl ResponseMessage {
    /// What to show of a list of headers: its two ends where there are two or more
    /// headers, and all of it otherwise.
    pub fn summarize_headers<'a>(headers: &'a Vec<Header>) -> (summary: HeadersSummary<'a>)
        ensures
            summary == (if headers@.len() >= 2 {
                HeadersSummary::Ends { first: &headers@.first(), last: &headers@.last() }
            } else {
                HeadersSummary::Whole(headers)
            }),
    {
        if headers.len() >= 2 {
            HeadersSummary::Ends { first: &headers[0], last: &headers[headers.len() - 1] }
        } else {
            HeadersSummary::Whole(headers)
        }
    }
}

impl From<Block> for ResponseMessage {
    fn from(block: Block) -> (made: Self) {
        ResponseMessage::Block(block)
    }
}

impl vstd::std_specs::convert::FromSpecImpl<Block> for ResponseMessage {
    open spec fn obeys_from_spec() -> bool {
        true
    }

    open spec fn from_spec(block: Block) -> Self {
        ResponseMessage::Block(block)
    }
}

impl From<Vec<Header>> for ResponseMessage {
    fn from(headers: Vec<Header>) -> (made: Self) {
        ResponseMessage::Headers(headers)
    }
}

impl vstd::std_specs::convert::FromSpecImpl<Vec<Header>> for ResponseMessage {
    open spec fn obeys_from_spec() -> bool {
        true
    }

    open spec fn from_spec(headers: Vec<Header>) -> Self {
        ResponseMessage::Headers(headers)
    }
}

impl From<Txid> for ResponseMessage {
    fn from(txid: Txid) -> (made: Self) {
        ResponseMessage::TransactionAccepted(txid)
    }
}

impl vstd::std_specs::convert::FromSpecImpl<Txid> for ResponseMessage {
    open spec fn obeys_from_spec() -> bool {
        true
    }

    open spec fn from_spec(txid: Txid) -> Self {
        ResponseMessage::TransactionAccepted(txid)
    }
}

impl From<String> for ResponseMessage {
    fn from(reason: String) -> (made: Self) {
        ResponseMessage::TransactionRejected(reason)
    }
}

impl vstd::std_specs::convert::FromSpecImpl<String> for ResponseMessage {
    open spec fn obeys_from_spec() -> bool {
        true
    }

    open spec fn from_spec(reason: String) -> Self {
        ResponseMessage::TransactionRejected(reason)
    }
}

impl From<AddrMessage> for ResponseMessage {
    fn from(message: AddrMessage) -> (made: Self) {
        ResponseMessage::Addr(message)
    }
}

impl vstd::std_specs::convert::FromSpecImpl<AddrMessage> for ResponseMessage {
    open spec fn obeys_from_spec() -> bool {
        true
    }

    open spec fn from_spec(message: AddrMessage) -> Self {
        ResponseMessage::Addr(message)
    }
}

impl From<()> for ResponseMessage {
    fn from(_nothing: ()) -> (made: Self) {
        ResponseMessage::Empty
    }
}

impl vstd::std_specs::convert::FromSpecImpl<()> for ResponseMessage {
    open spec fn obeys_from_spec() -> bool {
        true
    }

    open spec fn from_spec(_nothing: ()) -> Self {
        ResponseMessage::Empty
    }
}

/// Every limit leaves room for at least one byte.
pub proof fn law_limits_are_positive(request: Request)
    requires
        request.has_limit(),
    ensures
        request.response_limit() >= 1,
{
    if let Request::GetHeaders(headers) = request {
        law_headers_limit_grows_by_header(headers.height->0);
    }
}

/// A request for headers has room for one header at height zero, and for one more with
/// each height.
pub proof fn law_headers_limit_grows_by_header(height: u32)
    ensures
        GetHeadersRequest::headers_limit(0) == READ_HEADER_LIMIT,
        GetHeadersRequest::headers_limit(height) >= READ_HEADER_LIMIT,
        height < u32::MAX ==> GetHeadersRequest::headers_limit((height + 1) as u32)
            == GetHeadersRequest::headers_limit(height) + READ_HEADER_LIMIT,
{
}

/// A request becomes a message alike, whether directly or as a `Request` first.
pub proof fn law_conversions_go_through_request(
    block: GetBlockRequest,
    headers: GetHeadersRequest,
    transaction: PushTransactionRequest,
    addr: AddrMessage,
)
    ensures
        RequestMessage::from_spec(block) == RequestMessage::from_spec(Request::from_spec(block)),
        RequestMessage::from_spec(headers) == RequestMessage::from_spec(
            Request::from_spec(headers),
        ),
        RequestMessage::from_spec(transaction) == RequestMessage::from_spec(
            Request::from_spec(transaction),
        ),
        RequestMessage::from_spec(addr) == RequestMessage::from_spec(Request::from_spec(addr)),
{
}

/// Borrowing a message, by any of the ways to do it, keeps the message.
pub proof fn law_borrowing_keeps_the_message(
    message: RequestMessage,
    heartbeat: Heartbeat,
    request: Request,
)
    ensures
        RequestMessageRef::from_spec(&message).message() == message,
        RequestMessageRef::from_spec(&heartbeat).message() == RequestMessage::from_spec(heartbeat),
        RequestMessageRef::from_spec(&request).message() == RequestMessage::from_spec(request),
{
}

/// No response is expected to a heartbeat, and to nothing else but a heartbeat; in response to
/// a request as many bytes are read as the request itself says: ten megabytes for a block, two
/// kilobytes for each header up to the height and the one at height zero, 256 bytes for a
/// transaction, one byte for what concerns addresses.
pub proof fn law_how_much_is_read_in_response(
    message: RequestMessageRef,
    limit: Option<usize>,
    own: usize,
)
    requires
        call_ensures(RequestMessageRef::read_response_limit, (&message,), limit),
        message matches RequestMessageRef::Request(request) ==> call_ensures(
            Request::read_response_limit,
            (request,),
            own,
        ),
    ensures
        limit is None <==> message is Heartbeat,
        message is Request ==> limit == Some(own),
        message matches RequestMessageRef::Request(request) ==> match *request {
            Request::GetBlock(_) => own == 10 * 1024 * 1024,
            Request::GetHeaders(headers) => headers.height matches Some(height) ==> own == 2048 * (
            height + 1),
            Request::PushTransaction(_) => own == 256,
            Request::GetAddr => own == 1,
            Request::Addr(_) => own == 1,
        },
{
}

/// A request says the same limit by itself as when it is one of the requests.
pub proof fn law_requests_know_their_own_limit(
    block: GetBlockRequest,
    headers: GetHeadersRequest,
    transaction: PushTransactionRequest,
    block_limit: usize,
    headers_limit: usize,
    transaction_limit: usize,
)
    requires
        call_ensures(GetBlockRequest::read_response_limit, (&block,), block_limit),
        call_ensures(GetHeadersRequest::read_response_limit, (&headers,), headers_limit),
        call_ensures(
            PushTransactionRequest::read_response_limit,
            (&transaction,),
            transaction_limit,
        ),
    ensures
        block_limit == 10 * 1024 * 1024,
        headers.height matches Some(height) ==> headers_limit == 2048 * (height + 1),
        transaction_limit == 256,
        READ_BLOCK_LIMIT == 10 * 1024 * 1024,
        READ_HEADER_LIMIT == 2048,
        READ_TX_ACK_LIMIT == 256,
        READ_ADDR_LIMIT == 1,
{
}

/// The limit can be asked for of any message but a request for headers that has no height, or
/// such a height that the headers cannot be held; and a request for headers knows which it is.
pub proof fn law_when_a_limit_can_be_told(
    message: RequestMessageRef,
    request: Request,
    headers: GetHeadersRequest,
    known: bool,
)
    requires
        call_ensures(GetHeadersRequest::knows_limit, (&headers,), known),
    ensures
        known <==> headers.height is Some && 2048 * (headers.height->0 + 1) <= usize::MAX,
        known ==> call_requires(GetHeadersRequest::read_response_limit, (&headers,)),
        (request matches Request::GetHeaders(asked) ==> asked == headers && known)
            ==> call_requires(Request::read_response_limit, (&request,)),
        (message matches RequestMessageRef::Request(held) ==> *held == request && (request
            matches Request::GetHeaders(asked) ==> asked == headers && known)) ==> call_requires(
            RequestMessageRef::read_response_limit,
            (&message,),
        ),
{
}

/// Of two requests for headers, the one that reaches one header higher reads two kilobytes
/// more; what else a request holds makes no difference to its limit.
pub proof fn law_one_header_more_is_two_kilobytes_more(
    lower: GetHeadersRequest,
    higher: GetHeadersRequest,
    lower_limit: usize,
    higher_limit: usize,
)
    requires
        lower.height is Some,
        higher.height is Some,
        call_ensures(GetHeadersRequest::read_response_limit, (&lower,), lower_limit),
        call_ensures(GetHeadersRequest::read_response_limit, (&higher,), higher_limit),
    ensures
        higher_limit - lower_limit == 2048 * (higher.height->0 - lower.height->0),
{
}

/// A copy of a request for headers asks for the same.
pub proof fn law_copied_request_asks_for_the_same(
    request: GetHeadersRequest,
    copy: GetHeadersRequest,
    hash: BlockHash,
)
    requires
        call_ensures(<GetHeadersRequest as Clone>::clone, (&request,), copy),
    ensures
        copy.start@.contains(hash) <==> request.start@.contains(hash),
        copy.end == request.end,
        copy.height == request.height,
        copy.peer_state_id == request.peer_state_id,
{
}

/// A message that is borrowed is a heartbeat exactly when it was one, and holds what it held.
pub proof fn law_borrowed_message_is_the_same(
    message: RequestMessage,
    borrowed: RequestMessageRef,
    converted: RequestMessageRef,
)
    requires
        call_ensures(RequestMessage::as_ref, (&message,), borrowed),
        call_ensures(
            <RequestMessageRef as From<&RequestMessage>>::from,
            (&message,),
            converted,
        ),
    ensures
        message matches RequestMessage::Heartbeat(heartbeat) ==> borrowed
            == RequestMessageRef::Heartbeat(&heartbeat),
        message matches RequestMessage::Request(request) ==> borrowed
            == RequestMessageRef::Request(&request),
        converted == borrowed,
{
}

/// What is shown of a list of headers is its first and its last one where these are two, and
/// otherwise the list itself.
pub proof fn law_headers_are_shown_by_their_ends(headers: Vec<Header>, summary: HeadersSummary)
    requires
        call_ensures(ResponseMessage::summarize_headers, (&headers,), summary),
    ensures
        summary is Ends <==> headers@.len() >= 2,
        summary matches HeadersSummary::Ends { first, last } ==> *first == headers@[0] && *last
            == headers@[headers@.len() - 1],
        summary matches HeadersSummary::Whole(all) ==> *all == headers,
{
}

/// A message about addresses carries the list that it is made from.
pub proof fn law_addresses_are_carried(addresses: Vec<PeerInfo>, made: AddrMessage)
    requires
        call_ensures(<AddrMessage as From<Vec<PeerInfo>>>::from, (addresses,), made),
    ensures
        made.addresses == addresses,
{
}

/// A request for a block is, as a request, that one.
pub proof fn law_block_request_is_a_request(request: GetBlockRequest, made: Request)
    requires
        call_ensures(<Request as From<GetBlockRequest>>::from, (request,), made),
    ensures
        made matches Request::GetBlock(held) && held == request,
{
}

/// A request for headers is, as a request, that one.
pub proof fn law_headers_request_is_a_request(request: GetHeadersRequest, made: Request)
    requires
        call_ensures(<Request as From<GetHeadersRequest>>::from, (request,), made),
    ensures
        made matches Request::GetHeaders(held) && held == request,
{
}

/// The push of a transaction is, as a request, that one.
pub proof fn law_transaction_push_is_a_request(request: PushTransactionRequest, made: Request)
    requires
        call_ensures(<Request as From<PushTransactionRequest>>::from, (request,), made),
    ensures
        made matches Request::PushTransaction(held) && held == request,
{
}

/// A message about addresses is, as a request, that one.
pub proof fn law_addr_message_is_a_request(message: AddrMessage, made: Request)
    requires
        call_ensures(<Request as From<AddrMessage>>::from, (message,), made),
    ensures
        made matches Request::Addr(held) && held == message,
{
}

/// A request for a block is, as a message, that request.
pub proof fn law_block_request_is_a_message(request: GetBlockRequest, made: RequestMessage)
    requires
        call_ensures(<RequestMessage as From<GetBlockRequest>>::from, (request,), made),
    ensures
        made matches RequestMessage::Request(Request::GetBlock(held)) && held == request,
{
}

/// A request for headers is, as a message, that request.
pub proof fn law_headers_request_is_a_message(request: GetHeadersRequest, made: RequestMessage)
    requires
        call_ensures(<RequestMessage as From<GetHeadersRequest>>::from, (request,), made),
    ensures
        made matches RequestMessage::Request(Request::GetHeaders(held)) && held == request,
{
}

/// The push of a transaction is, as a message, that request.
pub proof fn law_transaction_push_is_a_message(request: PushTransactionRequest, made: RequestMessage)
    requires
        call_ensures(<RequestMessage as From<PushTransactionRequest>>::from, (request,), made),
    ensures
        made matches RequestMessage::Request(Request::PushTransaction(held)) && held == request,
{
}

/// A message about addresses is, as a message, that request.
pub proof fn law_addr_message_is_a_message(message: AddrMessage, made: RequestMessage)
    requires
        call_ensures(<RequestMessage as From<AddrMessage>>::from, (message,), made),
    ensures
        made matches RequestMessage::Request(Request::Addr(held)) && held == message,
{
}

/// A heartbeat is, as a message, that heartbeat.
pub proof fn law_heartbeat_is_a_message(heartbeat: Heartbeat, made: RequestMessage)
    requires
        call_ensures(<RequestMessage as From<Heartbeat>>::from, (heartbeat,), made),
    ensures
        made matches RequestMessage::Heartbeat(held) && held == heartbeat,
{
}

/// A request is, as a message, that request.
pub proof fn law_request_is_a_message(request: Request, made: RequestMessage)
    requires
        call_ensures(<RequestMessage as From<Request>>::from, (request,), made),
    ensures
        made matches RequestMessage::Request(held) && held == request,
{
}

/// A heartbeat or a request is borrowed as what it is.
pub proof fn law_parts_are_borrowed_as_they_are(
    heartbeat: Heartbeat,
    request: Request,
    beat: RequestMessageRef,
    asked: RequestMessageRef,
)
    requires
        call_ensures(<RequestMessageRef as From<&Heartbeat>>::from, (&heartbeat,), beat),
        call_ensures(<RequestMessageRef as From<&Request>>::from, (&request,), asked),
    ensures
        beat matches RequestMessageRef::Heartbeat(held) && *held == heartbeat,
        asked matches RequestMessageRef::Request(held) && *held == request,
{
}

/// A response that is made from a block is that block.
pub proof fn law_response_carries_the_block(block: Block, made: ResponseMessage)
    requires
        call_ensures(<ResponseMessage as From<Block>>::from, (block,), made),
    ensures
        made matches ResponseMessage::Block(held) && held == block,
{
}

/// A response that is made from headers, be there none, one or many, is the list of them.
pub proof fn law_response_carries_the_headers(headers: Vec<Header>, made: ResponseMessage)
    requires
        call_ensures(<ResponseMessage as From<Vec<Header>>>::from, (headers,), made),
    ensures
        made matches ResponseMessage::Headers(held) && held == headers,
{
}

/// A response that is made from a transaction's hash says that this one is accepted.
pub proof fn law_response_accepts_the_transaction(txid: Txid, made: ResponseMessage)
    requires
        call_ensures(<ResponseMessage as From<Txid>>::from, (txid,), made),
    ensures
        made matches ResponseMessage::TransactionAccepted(held) && held == txid,
{
}

/// A response that is made from words says that a transaction is rejected, in these words.
pub proof fn law_response_gives_the_reason(reason: String, made: ResponseMessage)
    requires
        call_ensures(<ResponseMessage as From<String>>::from, (reason,), made),
    ensures
        made matches ResponseMessage::TransactionRejected(held) && held == reason,
{
}

/// A response that is made from a message about addresses is that message.
pub proof fn law_response_carries_the_addresses(message: AddrMessage, made: ResponseMessage)
    requires
        call_ensures(<ResponseMessage as From<AddrMessage>>::from, (message,), made),
    ensures
        made matches ResponseMessage::Addr(held) && held == message,
{
}

/// A response that is made from nothing is empty.
pub proof fn law_response_may_be_empty(nothing: (), made: ResponseMessage)
    requires
        call_ensures(<ResponseMessage as From<()>>::from, (nothing,), made),
    ensures
        made is Empty,
{
}

} // verus!
