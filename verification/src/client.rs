//! The RPC client: typed operations on the authority, each one exchange over
//! a message channel.
//!
//! The client relays. It hands the request on as it was given, reports a
//! failure as an absent result and never as an empty one, and neither retries
//! nor repairs what came back.

use crate::channel::{MessageChannel, Reply, ReplyView, Request, RequestView};
use std::string::FromUtf8Error;
use vstd::prelude::*;
use vstd::slice::slice_to_vec;
use vstd::utf8::{decode_utf8, encode_utf8, valid_utf8};

verus! {

/// The error type of `String::from_utf8`. Nothing is read from a value of
/// it.
#[verifier::external_type_specification]
#[verifier::external_body]
pub struct ExFromUtf8Error(FromUtf8Error);

/// `String::from_utf8` returns `Ok` exactly where the bytes are well-formed
/// UTF-8, and the string then holds the characters that the bytes encode.
/// This is taken from the documentation of `std`, not proved.
pub assume_specification[ String::from_utf8 ](vec: Vec<u8>) -> (result: Result<
    String,
    FromUtf8Error,
>)
    ensures
        result is Ok <==> valid_utf8(vec@),
        result matches Ok(text) ==> text@ == decode_utf8(vec@),
;

/// An optional byte string as specifications see it.
pub open spec fn bytes_view(value: Option<Vec<u8>>) -> Option<Seq<u8>> {
    match value {
        Some(bytes) => Some(bytes@),
        None => None,
    }
}

/// Optional data with its policy label as specifications see them.
pub open spec fn unsealed_view(value: Option<(Vec<u8>, String)>) -> Option<(Seq<u8>, Seq<char>)> {
    match value {
        Some((data, policy)) => Some((data@, policy@)),
        None => None,
    }
}

/// Tells whether `status` reports success. Zero is failure: what came back
/// beside it is then without meaning and is to be left alone.
pub fn call_succeeded(status: i32) -> (succeeded: bool)
    ensures
        succeeded == (status != 0),
{
    status != 0
}

/// What a byte string that crossed the boundary amounts to: nothing where
/// the status is zero, whatever the buffer holds; the buffer otherwise, even
/// an empty one.
pub open spec fn adopted(status: i32, buffer: Seq<u8>) -> Option<Seq<u8>> {
    if status == 0 {
        None
    } else {
        Some(buffer)
    }
}

/// What the answer to an unseal amounts to: nothing where the status is zero
/// or the policy bytes are no UTF-8; the data and the decoded policy label
/// otherwise.
pub open spec fn adopted_unsealed(status: i32, data: Seq<u8>, policy: Seq<u8>) -> Option<
    (Seq<u8>, Seq<char>),
> {
    if status == 0 || !valid_utf8(policy) {
        None
    } else {
        Some((data, decode_utf8(policy)))
    }
}

/// Takes over a byte string that came back with `status`.
pub fn adopt_buffer(status: i32, buffer: Vec<u8>) -> (owned: Option<Vec<u8>>)
    ensures
        bytes_view(owned) == adopted(status, buffer@),
{
    if call_succeeded(status) {
        Some(buffer)
    } else {
        None
    }
}

/// Takes over the data and the policy label that came back from an unseal
/// with `status`.
pub fn adopt_unsealed(status: i32, data: Vec<u8>, policy: Vec<u8>) -> (owned: Option<
    (Vec<u8>, String),
>)
    ensures
        unsealed_view(owned) == adopted_unsealed(status, data@, policy@),
{
    if !call_succeeded(status) {
        return None;
    }
    match String::from_utf8(policy) {
        Ok(label) => Some((data, label)),
        Err(_) => None,
    }
}

/// One completed round trip: what was asked and what came back.
pub struct Exchange {
    pub request: RequestView,
    pub reply: ReplyView,
}

/// How many of the exchanges told the authority that the session is over.
pub open spec fn release_signals(exchanges: Seq<Exchange>) -> nat
    decreases exchanges.len(),
{
    if exchanges.len() == 0 {
        0
    } else {
        let last: nat = if exchanges.last().request is Release {
            1
        } else {
            0
        };
        release_signals(exchanges.drop_last()) + last
    }
}

/// `after` is `before` and one more exchange, which carried `request`.
pub open spec fn relayed(before: Seq<Exchange>, after: Seq<Exchange>, request: RequestView) -> bool {
    &&& after.len() == before.len() + 1
    &&& after.drop_last() == before
    &&& after.last().request == request
}

/// How a byte-string operation behaves: on a released session it sends
/// nothing and fails; on an open one it makes one round trip with `request`
/// and yields what the reply to it amounts to.
pub open spec fn relays_bytes(
    was_released: bool,
    before: Seq<Exchange>,
    after: Seq<Exchange>,
    request: RequestView,
    result: Option<Seq<u8>>,
) -> bool {
    if was_released {
        after == before && result is None
    } else {
        let reply = after.last().reply;
        relayed(before, after, request) && result == adopted(reply.status, reply.data)
    }
}

/// How an unseal behaves: as a byte-string operation does, but for the
/// policy label that comes back beside the data.
pub open spec fn relays_unsealed(
    was_released: bool,
    before: Seq<Exchange>,
    after: Seq<Exchange>,
    request: RequestView,
    result: Option<(Seq<u8>, Seq<char>)>,
) -> bool {
    if was_released {
        after == before && result is None
    } else {
        let reply = after.last().reply;
        relayed(before, after, request) && result == adopted_unsealed(
            reply.status,
            reply.data,
            reply.policy,
        )
    }
}

/// One more exchange adds its own release signal, if it is one, to the count.
pub proof fn lemma_release_signals_push(exchanges: Seq<Exchange>, exchange: Exchange)
    ensures
        release_signals(exchanges.push(exchange)) == release_signals(exchanges) + (if exchange.request
            is Release {
            1nat
        } else {
            0nat
        }),
{
    assert(exchanges.push(exchange).drop_last() =~= exchanges);
}

/// The operations that the authority offers to a hosted program.
///
/// Every operation is one blocking round trip. A failure of any kind, on the
/// channel or at the authority, comes back as `None`. Once the session has
/// been released nothing is sent any more and every operation fails.
pub trait Tao {
    /// The round trips made so far, oldest first.
    spec fn exchanges(&self) -> Seq<Exchange>;

    /// Whether the session has been given back to the authority.
    spec fn released(&self) -> bool;

    /// The authenticated name of the calling process.
    fn get_tao_name(&mut self) -> (name: Option<Vec<u8>>)
        ensures
            final(self).released() == old(self).released(),
            relays_bytes(
                old(self).released(),
                old(self).exchanges(),
                final(self).exchanges(),
                RequestView::GetTaoName,
                bytes_view(name),
            ),
    ;

    /// Random bytes from the authority: `size` of them were asked for, and
    /// the caller has to check how many came.
    fn get_random_bytes(&mut self, size: usize) -> (bytes: Option<Vec<u8>>)
        ensures
            final(self).released() == old(self).released(),
            relays_bytes(
                old(self).released(),
                old(self).exchanges(),
                final(self).exchanges(),
                RequestView::GetRandomBytes { size },
                bytes_view(bytes),
            ),
    ;

    /// The authority's attestation of `message`.
    fn attest(&mut self, message: &[u8]) -> (attestation: Option<Vec<u8>>)
        ensures
            final(self).released() == old(self).released(),
            relays_bytes(
                old(self).released(),
                old(self).exchanges(),
                final(self).exchanges(),
                RequestView::Attest { message: message@ },
                bytes_view(attestation),
            ),
    ;

    /// `data` sealed under `policy`. The label goes out as it was given,
    /// whether it is one of the well-known ones or not.
    fn seal(&mut self, data: &[u8], policy: &str) -> (sealed: Option<Vec<u8>>)
        ensures
            final(self).released() == old(self).released(),
            relays_bytes(
                old(self).released(),
                old(self).exchanges(),
                final(self).exchanges(),
                RequestView::Seal { data: data@, policy: policy@ },
                bytes_view(sealed),
            ),
    ;

    /// The data that `sealed` holds, and the policy label it was sealed
    /// under.
    fn unseal(&mut self, sealed: &[u8]) -> (opened: Option<(Vec<u8>, String)>)
        ensures
            final(self).released() == old(self).released(),
            relays_unsealed(
                old(self).released(),
                old(self).exchanges(),
                final(self).exchanges(),
                RequestView::Unseal { sealed: sealed@ },
                unsealed_view(opened),
            ),
    ;

    /// Tells the authority that the session is over. The first call sends the
    /// signal; later calls do nothing.
    fn release(&mut self)
        ensures
            final(self).released(),
            release_signals(final(self).exchanges()) == 1,
            old(self).released() ==> final(self).exchanges() == old(self).exchanges(),
            !old(self).released() ==> relayed(
                old(self).exchanges(),
                final(self).exchanges(),
                RequestView::Release,
            ),
    ;
}

/// The book-keeping of one session: whether it has been released, and the
/// round trips made on it.
struct Session {
    released: bool,
    history: Ghost<Seq<Exchange>>,
}

impl Session {
    #[verifier::type_invariant]
    spec fn well_formed(self) -> bool {
        release_signals(self.history@) == (if self.released {
            1nat
        } else {
            0nat
        })
    }

    fn open() -> (session: Session)
        ensures
            !session.released,
            session.history@ == Seq::<Exchange>::empty(),
    {
        Session { released: false, history: Ghost(Seq::empty()) }
    }

    /// Notes a round trip; one that carried the release signal ends the
    /// session.
    fn record(&mut self, ends: bool, Ghost(exchange): Ghost<Exchange>)
        requires
            !old(self).released,
            ends == (exchange.request is Release),
        ensures
            final(self).released == (exchange.request is Release),
            final(self).history@ == old(self).history@.push(exchange),
    {
        proof {
            use_type_invariant(&*self);
            lemma_release_signals_push(self.history@, exchange);
        }
        *self = Session { released: ends, history: Ghost(self.history@.push(exchange)) };
    }
}

/// A session with the authority over a message channel.
pub struct TaoRPC<C: MessageChannel> {
    channel: C,
    session: Session,
}

impl<C: MessageChannel> TaoRPC<C> {
    /// Opens a session over `channel`. Nothing is sent yet.
    pub fn new(channel: C) -> (tao: TaoRPC<C>)
        ensures
            !tao.released(),
            tao.exchanges() == Seq::<Exchange>::empty(),
    {
        TaoRPC { channel, session: Session::open() }
    }

    /// Whether the session has been given back to the authority.
    pub fn is_released(&self) -> (released: bool)
        ensures
            released == self.released(),
    {
        self.session.released
    }

    /// Makes one round trip on an open session.
    fn call(&mut self, request: Request) -> (reply: Reply)
        requires
            !old(self).released(),
        ensures
            final(self).released() == (request@ is Release),
            final(self).exchanges() == old(self).exchanges().push(
                Exchange { request: request@, reply: reply@ },
            ),
    {
        let ends = matches!(request, Request::Release);
        let reply = self.channel.exchange(&request);
        self.session.record(ends, Ghost(Exchange { request: request@, reply: reply@ }));
        reply
    }
}

impl<C: MessageChannel> Tao for TaoRPC<C> {
    closed spec fn exchanges(&self) -> Seq<Exchange> {
        self.session.history@
    }

    closed spec fn released(&self) -> bool {
        self.session.released
    }

    fn get_tao_name(&mut self) -> (name: Option<Vec<u8>>) {
        if self.session.released {
            return None;
        }
        let reply = self.call(Request::GetTaoName);
        assert(self.exchanges().drop_last() =~= old(self).exchanges());
        adopt_buffer(reply.status, reply.data)
    }

    fn get_random_bytes(&mut self, size: usize) -> (bytes: Option<Vec<u8>>) {
        if self.session.released {
            return None;
        }
        let reply = self.call(Request::GetRandomBytes { size });
        assert(self.exchanges().drop_last() =~= old(self).exchanges());
        adopt_buffer(reply.status, reply.data)
    }

    fn attest(&mut self, message: &[u8]) -> (attestation: Option<Vec<u8>>) {
        if self.session.released {
            return None;
        }
        let reply = self.call(Request::Attest { message: slice_to_vec(message) });
        assert(self.exchanges().drop_last() =~= old(self).exchanges());
        adopt_buffer(reply.status, reply.data)
    }

    fn seal(&mut self, data: &[u8], policy: &str) -> (sealed: Option<Vec<u8>>) {
        if self.session.released {
            return None;
        }
        let reply = self.call(
            Request::Seal { data: slice_to_vec(data), policy: policy.to_owned() },
        );
        assert(self.exchanges().drop_last() =~= old(self).exchanges());
        adopt_buffer(reply.status, reply.data)
    }

    fn unseal(&mut self, sealed: &[u8]) -> (opened: Option<(Vec<u8>, String)>) {
        if self.session.released {
            return None;
        }
        let reply = self.call(Request::Unseal { sealed: slice_to_vec(sealed) });
        assert(self.exchanges().drop_last() =~= old(self).exchanges());
        adopt_unsealed(reply.status, reply.data, reply.policy)
    }

    fn release(&mut self) {
        proof {
            use_type_invariant(&self.session);
        }
        if !self.session.released {
            let _ = self.call(Request::Release);
            assert(self.exchanges().drop_last() =~= old(self).exchanges());
        }
        proof {
            use_type_invariant(&self.session);
        }
    }
}

/// A failure is an absent result and never an empty one, while an empty
/// buffer that came back with success is a present result.
pub proof fn lemma_failure_is_absent(status: i32, buffer: Seq<u8>, policy: Seq<u8>)
    ensures
        status == 0 ==> adopted(status, buffer) is None,
        status == 0 ==> adopted_unsealed(status, buffer, policy) is None,
        status != 0 ==> adopted(status, Seq::<u8>::empty()) == Some(Seq::<u8>::empty()),
{
}

/// Where the authority sends as many random bytes as were asked for, the
/// operation yields nothing or exactly that many bytes.
pub proof fn lemma_random_bytes_length(
    size: usize,
    was_released: bool,
    before: Seq<Exchange>,
    after: Seq<Exchange>,
    result: Option<Seq<u8>>,
)
    requires
        relays_bytes(was_released, before, after, RequestView::GetRandomBytes { size }, result),
        !was_released ==> after.last().reply.data.len() == size,
    ensures
        result matches Some(bytes) ==> bytes.len() == size,
{
}

/// The reply of an authority that opens what it sealed: it reports success
/// and sends back the data and the policy label, byte for byte, that the
/// seal request carried.
pub open spec fn answers_faithfully(seal: RequestView, unsealed: ReplyView) -> bool {
    &&& seal is Seal
    &&& unsealed.status != 0
    &&& unsealed.data == seal->data
    &&& unsealed.policy == encode_utf8(seal->policy)
}

/// Sealing and then unsealing gives back the data and the very label that
/// was given, be it a well-known one or any other string, when the authority
/// answers faithfully.
pub proof fn lemma_seal_unseal_round_trip(data: Seq<u8>, policy: Seq<char>, unsealed: ReplyView)
    requires
        answers_faithfully(RequestView::Seal { data, policy }, unsealed),
    ensures
        adopted_unsealed(unsealed.status, unsealed.data, unsealed.policy) == Some((data, policy)),
{
    vstd::utf8::encode_utf8_valid_utf8(policy);
    vstd::utf8::encode_utf8_decode_utf8(policy);
}

/// The same of a session: where a seal on an open session yields a blob, and
/// the authority answers the unseal of that blob faithfully, the unseal yields
/// the data and the label that went into the seal.
pub proof fn lemma_seal_then_unseal(
    data: Seq<u8>,
    policy: Seq<char>,
    start: Seq<Exchange>,
    sealed_at: Seq<Exchange>,
    opened_at: Seq<Exchange>,
    blob: Seq<u8>,
    opened: Option<(Seq<u8>, Seq<char>)>,
)
    requires
        relays_bytes(false, start, sealed_at, RequestView::Seal { data, policy }, Some(blob)),
        relays_unsealed(false, sealed_at, opened_at, RequestView::Unseal { sealed: blob }, opened),
        answers_faithfully(sealed_at.last().request, opened_at.last().reply),
    ensures
        opened == Some((data, policy)),
{
    lemma_seal_unseal_round_trip(data, policy, opened_at.last().reply);
}

/// A session that is released before any operation was called has made one
/// round trip, which carried the one release signal.
pub proof fn lemma_fresh_session_releases_once(after: Seq<Exchange>)
    requires
        relayed(Seq::<Exchange>::empty(), after, RequestView::Release),
    ensures
        after.len() == 1,
        after[0].request is Release,
        release_signals(after) == 1,
{
    assert(after.drop_last() =~= Seq::<Exchange>::empty());
    assert(release_signals(after.drop_last()) == 0);
}

} // verus!
