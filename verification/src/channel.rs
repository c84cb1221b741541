//! The message channel to the authority, and what travels over it.
//!
//! One exchange is atomic: a request goes out and the caller blocks until the
//! reply, or the failure of the channel, comes back. How the bytes are framed
//! on the wire is the transport's business.

use vstd::prelude::*;

verus! {

/// One request to the authority.
#[derive(Clone, Debug, PartialEq, Eq)]
pub enum Request {
    /// Asks for the authenticated name of the calling process.
    GetTaoName,
    /// Asks for `size` bytes of randomness.
    GetRandomBytes { size: usize },
    /// Asks the authority to vouch for `message`.
    Attest { message: Vec<u8> },
    /// Asks the authority to seal `data` under `policy`.
    Seal { data: Vec<u8>, policy: String },
    /// Asks the authority to open `sealed`.
    Unseal { sealed: Vec<u8> },
    /// Tells the authority that the session is over.
    Release,
}

/// A request as specifications see it.
pub enum RequestView {
    GetTaoName,
    GetRandomBytes { size: usize },
    Attest { message: Seq<u8> },
    Seal { data: Seq<u8>, policy: Seq<char> },
    Unseal { sealed: Seq<u8> },
    Release,
}

impl View for Request {
    type V = RequestView;

    open spec fn view(&self) -> RequestView {
        match self {
            Request::GetTaoName => RequestView::GetTaoName,
            Request::GetRandomBytes { size } => RequestView::GetRandomBytes { size: *size },
            Request::Attest { message } => RequestView::Attest { message: message@ },
            Request::Seal { data, policy } => RequestView::Seal { data: data@, policy: policy@ },
            Request::Unseal { sealed } => RequestView::Unseal { sealed: sealed@ },
            Request::Release => RequestView::Release,
        }
    }
}

/// What came back for one request, in buffers that the local side owns.
///
/// `status` says how the call went: zero means that it failed, and
/// then the buffers carry no meaning. `data` is the byte string that the call
/// produces. `policy` is filled in by an unseal alone: the label recorded when
/// the data was sealed, as the bytes the authority sent.
#[derive(Clone, Debug, PartialEq, Eq)]
pub struct Reply {
    pub status: i32,
    pub data: Vec<u8>,
    pub policy: Vec<u8>,
}

/// A reply as specifications see it.
pub struct ReplyView {
    pub status: i32,
    pub data: Seq<u8>,
    pub policy: Seq<u8>,
}

impl View for Reply {
    type V = ReplyView;

    open spec fn view(&self) -> ReplyView {
        ReplyView { status: self.status, data: self.data@, policy: self.policy@ }
    }
}

/// A bidirectional transport to the authority, used by one client at a time.
///
/// Nothing is promised about the reply: it comes from the other side of a
/// process boundary. A channel that has failed answers with status zero.
pub trait MessageChannel {
    /// Sends `request` and blocks until the reply to it has arrived.
    fn exchange(&mut self, request: &Request) -> Reply;
}

/// A channel over two file descriptors: replies are read from one, requests
/// are written to the other.
#[derive(Debug, PartialEq, Eq)]
pub struct FDMessageChannel {
    readfd: i32,
    writefd: i32,
}

impl FDMessageChannel {
    /// A channel that reads from `readfd` and writes to `writefd`.
    pub fn new(readfd: i32, writefd: i32) -> (channel: FDMessageChannel)
        ensures
            channel.read_descriptor() == readfd,
            channel.write_descriptor() == writefd,
    {
        FDMessageChannel { readfd, writefd }
    }

    /// The descriptor that replies are read from.
    pub closed spec fn read_descriptor(&self) -> i32 {
        self.readfd
    }

    /// The descriptor that requests are written to.
    pub closed spec fn write_descriptor(&self) -> i32 {
        self.writefd
    }

    /// The descriptor that replies are read from.
    pub fn readfd(&self) -> (fd: i32)
        ensures
            fd == self.read_descriptor(),
    {
        self.readfd
    }

    /// The descriptor that requests are written to.
    pub fn writefd(&self) -> (fd: i32)
        ensures
            fd == self.write_descriptor(),
    {
        self.writefd
    }
}

} // verus!
