//! Shared networking types: usernames and their fixed-size user-data
//! encoding, and the measured round-trip latency.

use vstd::prelude::*;

pub mod protocol;
pub mod stats;
pub mod wire;

use crate::util::string_from_utf8;

verus! {

/// Maximum username length, in UTF-8 bytes, inside the user-data block.
pub const USERNAME_BYTES: usize = 32;

/// Size of the transport's connect-time user-data block, in bytes.
pub const USER_DATA_BYTES: usize = 256;

/// A player's username.
#[derive(Debug, Hash)]
pub struct Username(pub String);

impl View for Username {
    type V = Seq<char>;

    open spec fn view(&self) -> Seq<char> {
        self.0@
    }
}

impl Clone for Username {
    fn clone(&self) -> (r: Self)
        ensures
            r@ == self@,
    {
        Username(self.0.clone())
    }
}

impl PartialEq for Username {
    fn eq(&self, other: &Self) -> (r: bool)
        ensures
            r == (self@ == other@),
    {
        self.0 == other.0
    }
}

impl vstd::std_specs::cmp::PartialEqSpecImpl for Username {
    open spec fn obeys_eq_spec() -> bool {
        true
    }

    open spec fn eq_spec(&self, other: &Self) -> bool {
        self@ == other@
    }
}

impl Username {
    /// The username's UTF-8 length is what the user-data block budgets:
    /// a name over budget is a content error, not a runtime case.
    pub open spec fn fits_user_data(&self) -> bool {
        vstd::utf8::encode_utf8(self@).len() <= USERNAME_BYTES
    }

    /// Serializes the username into a fixed-size user-data block: one
    /// length byte, the UTF-8 bytes of the name, zero padding.
    pub fn to_user_data(&self) -> (r: Vec<u8>)
        requires
            self.fits_user_data(),
        ensures
            r@.len() == USER_DATA_BYTES as int,
            r@[0] as int == vstd::utf8::encode_utf8(self@).len(),
            r@.subrange(1, 1 + vstd::utf8::encode_utf8(self@).len() as int)
                == vstd::utf8::encode_utf8(self@),
            forall|i: int|
                1 + vstd::utf8::encode_utf8(self@).len() <= i < USER_DATA_BYTES as int
                    ==> r@[i] == 0,
    {
        let bytes = self.0.as_str().as_bytes();
        let len = bytes.len();
        let mut out: Vec<u8> = Vec::new();
        out.push(len as u8);
        let mut i: usize = 0;
        while i < len
            invariant
                len == bytes@.len(),
                len <= USERNAME_BYTES,
                i <= len,
                out@.len() == 1 + i as int,
                out@[0] as int == len as int,
                forall|j: int| 0 <= j < i ==> out@[1 + j] == bytes@[j],
            decreases len - i,
        {
            out.push(bytes[i]);
            i += 1;
        }
        while out.len() < USER_DATA_BYTES
            invariant
                len == bytes@.len(),
                1 + len as int <= out@.len() <= USER_DATA_BYTES as int,
                out@[0] as int == len as int,
                forall|j: int| 0 <= j < len ==> out@[1 + j] == bytes@[j],
                forall|i: int| 1 + len as int <= i < out@.len() ==> out@[i] == 0,
            decreases USER_DATA_BYTES - out.len(),
        {
            out.push(0);
        }
        proof {
            assert(bytes@ == vstd::utf8::encode_utf8(self@));
            assert(out@.subrange(1, 1 + bytes@.len() as int) =~= bytes@);
        }
        out
    }

    /// Reads a username back out of a user-data block: the first byte
    /// gives the length, the following bytes the UTF-8 name. Returns
    /// `None` when those bytes are not valid UTF-8.
    pub fn from_user_data(user_data: &Vec<u8>) -> (r: Option<Username>)
        requires
            user_data@.len() == USER_DATA_BYTES as int,
        ensures
            r is Some <==> vstd::utf8::valid_utf8(
                user_data@.subrange(1, 1 + user_data@[0] as int),
            ),
            r matches Some(u) ==> vstd::utf8::encode_utf8(u@) == user_data@.subrange(
                1,
                1 + user_data@[0] as int,
            ),
    {
        let len = user_data[0] as usize;
        let mut buf: Vec<u8> = Vec::new();
        let mut i: usize = 0;
        while i < len
            invariant
                len < USER_DATA_BYTES,
                user_data@.len() == USER_DATA_BYTES as int,
                i <= len,
                buf@.len() == i as int,
                forall|j: int| 0 <= j < i ==> buf@[j] == user_data@[1 + j],
            decreases len - i,
        {
            buf.push(user_data[1 + i]);
            i += 1;
        }
        proof {
            assert(buf@ =~= user_data@.subrange(1, 1 + len as int));
        }
        match string_from_utf8(buf) {
            Some(s) => Some(Username(s)),
            None => None,
        }
    }
}

/// Mathematical model of a [`DisconnectReason`].
pub enum DisconnectReasonView {
    Transport(Seq<char>),
    Client(Seq<char>),
    AddrParseError(Seq<char>),
    Disconnected(crate::networking::protocol::DisconnectReasonView),
}

/// Why this client fell back to the disconnected state: a
/// transport-layer failure, a client-layer failure, a malformed server
/// address, or a reason the server supplied — four disjoint sources.
/// The first three carry the collaborating layer's message as text.
#[derive(Debug)]
pub enum DisconnectReason {
    Transport(String),
    Client(String),
    AddrParseError(String),
    Disconnected(crate::networking::protocol::DisconnectReason),
}

impl View for DisconnectReason {
    type V = DisconnectReasonView;

    open spec fn view(&self) -> DisconnectReasonView {
        match self {
            DisconnectReason::Transport(s) => DisconnectReasonView::Transport(s@),
            DisconnectReason::Client(s) => DisconnectReasonView::Client(s@),
            DisconnectReason::AddrParseError(s) => DisconnectReasonView::AddrParseError(s@),
            DisconnectReason::Disconnected(r) => DisconnectReasonView::Disconnected(r@),
        }
    }
}

/// A measured round-trip latency, in milliseconds.
#[derive(Debug, Copy, Clone, PartialEq, Eq, Hash, Structural)]
pub struct Ping(pub u128);

} // verus!
