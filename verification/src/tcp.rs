use vstd::prelude::*;
use crate::error::Error;

verus! {

/// The most messages that one connection delivers.
pub const TCP_MAX_MESSAGES: u32 = 1024;

/// The size of one read. A read that gives fewer bytes ends a message.
pub const BUFFER_SIZE: usize = 128;

/// The seconds that a connection may stay idle.
pub const CONNECTION_STALLING_LIMIT: u64 = 60;

/// One message of a connection.
#[derive(Debug)]
pub struct TcpMessage {
    pub time_received: i64,
    pub content: Vec<u8>,
}

/// What the queue of a connection gave within the idle limit.
#[derive(Debug)]
pub enum Inbound {
    /// A message.
    Message(Vec<u8>),
    /// Nothing: the idle limit was reached.
    Idle,
    /// Nothing more: the reader has gone.
    Ended,
}

/// What a connection has counted and whether it was closed: the part of a
/// persistent connection that decides.
#[derive(Debug, Clone, Copy, PartialEq, Eq, Structural)]
pub struct PersistentTcpConnection {
    pub messages_count: u32,
    pub closed: bool,
}

/// Whether a read of `read` bytes ends a message: it did not fill the
/// buffer.
pub fn ends_message(read: usize) -> (r: bool)
    ensures
        r == (read < BUFFER_SIZE),
{
    read < BUFFER_SIZE
}

impl PersistentTcpConnection {
    /// The counter never exceeds the cap.
    pub open spec fn wf(&self) -> bool {
        self.messages_count <= TCP_MAX_MESSAGES
    }

    pub fn new() -> (c: PersistentTcpConnection)
        ensures
            c.messages_count == 0,
            !c.closed,
            c.wf(),
    {
        PersistentTcpConnection { messages_count: 0, closed: false }
    }

    /// Takes what the queue gave. A message is delivered and counted while
    /// the connection is open and under the cap. At the cap the connection is
    /// closed with code 4002 and the message is not delivered; on the idle
    /// limit it is closed with code 4003. Where the reader has gone, or the
    /// connection was closed before, code 1000.
    pub fn messages(&mut self, inbound: Inbound, now: i64) -> (r: Result<TcpMessage, Error>)
        requires
            old(self).wf(),
        ensures
            final(self).wf(),
            final(self).messages_count >= old(self).messages_count,
            match inbound {
                Inbound::Message(content) => if old(self).closed {
                    r is Err && r->Err_0.code == 1000 && *final(self) == *old(self)
                } else if old(self).messages_count == TCP_MAX_MESSAGES {
                    r is Err && r->Err_0.code == 4002 && final(self).closed && final(self).messages_count == old(self).messages_count
                } else {
                    r is Ok && r->Ok_0.content == content && r->Ok_0.time_received == now
                        && !final(self).closed && final(self).messages_count == old(self).messages_count + 1
                },
                Inbound::Idle => r is Err && r->Err_0.code == 4003 && final(self).closed && final(self).messages_count == old(self).messages_count,
                Inbound::Ended => r is Err && r->Err_0.code == 1000 && *final(self) == *old(self),
            },
    {
        match inbound {
            Inbound::Message(content) => {
                if self.closed {
                    return Err(Error::new("Failed to read the message.", 1000));
                }
                if self.messages_count == TCP_MAX_MESSAGES {
                    self.closed = true;
                    return Err(
                        Error::new(
                            "Maximum number of messages per TCP connection was reached.",
                            4002,
                        ),
                    );
                }
                self.messages_count = self.messages_count + 1;
                Ok(TcpMessage { time_received: now, content })
            },
            Inbound::Idle => {
                self.closed = true;
                Err(Error::new("Connection stalling limit reached.", 4003))
            },
            Inbound::Ended => Err(Error::new("Failed to read the message.", 1000)),
        }
    }

    /// Marks the connection as closed.
    pub fn close(&mut self)
        ensures
            final(self).closed,
            final(self).messages_count == old(self).messages_count,
    {
        self.closed = true;
    }

    pub fn get_message_count(&self) -> (n: u32)
        ensures
            n == self.messages_count,
    {
        self.messages_count
    }

    /// Whether the message that was delivered last is the last that the
    /// connection delivers: its answer says `Connection: close`.
    pub fn is_last(&self) -> (r: bool)
        ensures
            r == (self.messages_count == TCP_MAX_MESSAGES),
    {
        self.messages_count == TCP_MAX_MESSAGES
    }
}

} // verus!
