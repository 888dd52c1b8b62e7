//! The socket as the transaction engine sees it, together with a record of
//! everything that was asked of it and of what came back. The record is
//! ghost: it costs nothing at run time. It can grow only through the calls
//! below, each of which makes one call and records it, so that what the
//! engine's contracts say about the record is said about the calls.

use crate::errors::{ErrorView, IoFailure, IoErrorView, MpdError};
use crate::line::{FromMpd, LineHandled};
use vstd::prelude::*;

verus! {

/// An open connection to the server: a stream of bytes in both directions
/// that can be set up again in place.
pub trait SocketClient {
    /// Sets the connection up again.
    fn reconnect(&mut self) -> Result<(), MpdError>;

    /// Sends all of `bytes`.
    fn write(&mut self, bytes: &[u8]) -> Result<(), IoFailure>;

    /// Reads up to the next line feed and returns the line with it. At the
    /// end of the stream the line is empty.
    fn read_line(&mut self) -> Result<String, IoFailure>;

    /// Reads `count` bytes, or fewer where the stream ends before.
    fn read_bytes(&mut self, count: u64) -> Result<Vec<u8>, IoFailure>;
}

/// One call that the engine made, and what the call returned.
pub enum Exchange {
    /// The socket was asked to reconnect.
    Reconnect(Result<(), ErrorView>),
    /// The socket was handed bytes to send.
    Write(Seq<u8>, Result<(), IoErrorView>),
    /// The socket was asked for a line.
    Line(Result<Seq<char>, IoErrorView>),
    /// The socket was asked for a number of bytes.
    Bytes(u64, Result<Seq<u8>, IoErrorView>),
    /// A decoder was handed a key and its value.
    Feed(Seq<char>, Seq<char>, Result<(), ErrorView>),
}

/// `full` begins with the exchanges of `t`.
pub open spec fn extends(full: Seq<Exchange>, t: Seq<Exchange>) -> bool {
    t.len() <= full.len() && forall|i: int| 0 <= i < t.len() ==> #[trigger] full[i] == t[i]
}

/// The exchange at position `at` of a record, if the record goes that far.
pub open spec fn exchange_at(t: Seq<Exchange>, at: int) -> Option<Exchange> {
    if 0 <= at < t.len() {
        Some(t[at])
    } else {
        None
    }
}

/// The view of the result of a call that returns nothing.
pub open spec fn view_unit<E: View>(r: Result<(), E>) -> Result<(), E::V> {
    match r {
        Ok(_) => Ok(()),
        Err(e) => Err(e@),
    }
}

/// The view of the result of a read of text.
pub open spec fn view_text(r: Result<String, IoFailure>) -> Result<Seq<char>, IoErrorView> {
    match r {
        Ok(s) => Ok(s@),
        Err(e) => Err(e@),
    }
}

/// The view of the result of a read of bytes.
pub open spec fn view_bytes(r: Result<Vec<u8>, IoFailure>) -> Result<Seq<u8>, IoErrorView> {
    match r {
        Ok(s) => Ok(s@),
        Err(e) => Err(e@),
    }
}

/// The view of what a decoder answered.
pub open spec fn view_handled(r: Result<LineHandled, MpdError>) -> Result<(), ErrorView> {
    match r {
        Ok(_) => Ok(()),
        Err(e) => Err(e@),
    }
}

/// A socket and the record of the calls made through this value.
pub struct Channel<'client, C: SocketClient> {
    client: &'client mut C,
    log: Ghost<Seq<Exchange>>,
}

impl<'client, C: SocketClient> Channel<'client, C> {
    /// The record: every call made so far with its result, in order.
    pub closed spec fn log(&self) -> Seq<Exchange> {
        self.log@
    }

    /// A channel over `client`, with nothing on record.
    pub fn new(client: &'client mut C) -> (channel: Self)
        ensures
            channel.log() == Seq::<Exchange>::empty(),
    {
        Channel { client, log: Ghost(Seq::empty()) }
    }

    /// Asks the socket to reconnect.
    pub fn reconnect(&mut self) -> (r: Result<(), MpdError>)
        ensures
            final(self).log() == old(self).log().push(Exchange::Reconnect(view_unit(r))),
    {
        let r = self.client.reconnect();
        self.log = Ghost(self.log@.push(Exchange::Reconnect(view_unit(r))));
        r
    }

    /// Hands the socket bytes to send.
    pub fn write(&mut self, bytes: &[u8]) -> (r: Result<(), IoFailure>)
        ensures
            final(self).log() == old(self).log().push(Exchange::Write(bytes@, view_unit(r))),
    {
        let r = self.client.write(bytes);
        self.log = Ghost(self.log@.push(Exchange::Write(bytes@, view_unit(r))));
        r
    }

    /// Asks the socket for a line.
    pub fn read_line(&mut self) -> (r: Result<String, IoFailure>)
        ensures
            final(self).log() == old(self).log().push(Exchange::Line(view_text(r))),
    {
        let r = self.client.read_line();
        self.log = Ghost(self.log@.push(Exchange::Line(view_text(r))));
        r
    }

    /// Asks the socket for `count` bytes.
    pub fn read_bytes(&mut self, count: u64) -> (r: Result<Vec<u8>, IoFailure>)
        ensures
            final(self).log() == old(self).log().push(Exchange::Bytes(count, view_bytes(r))),
    {
        let r = self.client.read_bytes(count);
        self.log = Ghost(self.log@.push(Exchange::Bytes(count, view_bytes(r))));
        r
    }

    /// Hands a decoder a key and its value.
    pub fn feed<V: FromMpd>(&mut self, decoder: &mut V, key: &str, value: String) -> (r: Result<
        LineHandled,
        MpdError,
    >)
        ensures
            final(self).log() == old(self).log().push(
                Exchange::Feed(key@, value@, view_handled(r)),
            ),
            r is Ok ==> V::takes(*old(decoder), key@, value@, *final(decoder)),
    {
        let ghost text = value@;
        let r = decoder.next_internal(key, value);
        self.log = Ghost(self.log@.push(Exchange::Feed(key@, text, view_handled(r))));
        r
    }
}

} // verus!
