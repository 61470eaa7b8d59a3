//! The messages between a client and the daemon, and how they are taken off a connection.

use crate::app::AppName;
use crate::wire::{
    bool_bytes, decode_bool, decode_text, decode_u32, encode_bool, encode_text, encode_u32,
    lemma_text, lemma_text_extends, lemma_varint, lemma_varint_extends, read_bool, read_text,
    read_varint, text_bytes, varint, WireError,
};
use std::marker::PhantomData;
use vstd::prelude::*;

verus! {

/// What a client asks of the daemon.
#[derive(Debug, Clone, Copy, PartialEq, Eq, Structural)]
pub enum ServerboundMessage {
    Ping,
    Spawn(AppSpawnOptions),
    Goodbye,
}

#[derive(Debug, Clone, Copy, PartialEq, Eq, Structural)]
pub struct AppSpawnOptions {
    pub app_name: AppName,
    /// Do not spawn the app where one of the same name runs.
    pub single: bool,
}

/// What the daemon answers.
pub enum ClientboundMessage {
    Pong,
    /// Whether an app of that name runs.
    Running(String, bool),
    AppResult(String),
}

/// What a [`ClientboundMessage`] says.
pub enum ClientboundView {
    Pong,
    Running(Seq<char>, bool),
    AppResult(Seq<char>),
}

impl View for ServerboundMessage {
    type V = ServerboundMessage;

    open spec fn view(&self) -> ServerboundMessage {
        *self
    }
}

impl View for ClientboundMessage {
    type V = ClientboundView;

    open spec fn view(&self) -> ClientboundView {
        match self {
            ClientboundMessage::Pong => ClientboundView::Pong,
            ClientboundMessage::Running(name, running) => ClientboundView::Running(name@, *running),
            ClientboundMessage::AppResult(result) => ClientboundView::AppResult(result@),
        }
    }
}

/// A message that can be sent.
pub trait Wire: View + Sized {
    /// The message is not larger than memory.
    spec fn fits(message: Self::V) -> bool;

    /// The bytes of a message.
    spec fn encoding(message: Self::V) -> Seq<u8>;

    /// The message at the start of bytes, with the number of bytes that it takes.
    spec fn decoding(bytes: Seq<u8>) -> Result<(Self::V, nat), WireError>;

    fn encode(&self) -> (res: Vec<u8>)
        ensures
            res@ == Self::encoding(self@),
            Self::fits(self@),
    ;

    fn decode(bytes: &Vec<u8>) -> (res: Result<(Self, usize), WireError>)
        ensures
            match res {
                Ok((message, used)) => used <= bytes@.len() && Self::decoding(bytes@) == Ok::<
                    (Self::V, nat),
                    WireError,
                >((message@, used as nat)),
                Err(e) => Self::decoding(bytes@) == Err::<(Self::V, nat), WireError>(e),
            },
    ;

    /// A message is read back as it was sent, whatever follows it, and not before it is complete.
    proof fn law_round_trip(message: Self::V, rest: Seq<u8>)
        requires
            Self::fits(message),
        ensures
            Self::decoding(Self::encoding(message) + rest) == Ok::<(Self::V, nat), WireError>(
                (message, Self::encoding(message).len()),
            ),
            Self::encoding(message).len() > 0,
            forall|k: int|
                0 <= k < Self::encoding(message).len() ==> Self::decoding(
                    #[trigger] Self::encoding(message).take(k),
                ) == Err::<(Self::V, nat), WireError>(WireError::Incomplete),
    ;

    /// What was read of bytes is read of them whatever follows; and what is invalid stays so.
    proof fn law_decoding_extends(bytes: Seq<u8>, more: Seq<u8>)
        requires
            Self::decoding(bytes) != Err::<(Self::V, nat), WireError>(WireError::Incomplete),
        ensures
            Self::decoding(bytes + more) == Self::decoding(bytes),
            Self::decoding(bytes) matches Ok((message, used)) ==> 0 < used <= bytes.len(),
    ;
}

/// The options for a new app at the start of bytes.
pub open spec fn read_options(bytes: Seq<u8>) -> Result<(AppSpawnOptions, nat), WireError> {
    match read_varint(bytes, 5) {
        Err(e) => Err(e),
        Ok((name, n)) => if name != 0 {
            Err(WireError::Invalid)
        } else {
            match read_bool(bytes.skip(n as int)) {
                Err(e) => Err(e),
                Ok((single, m)) => Ok(
                    (AppSpawnOptions { app_name: AppName::Launcher, single }, n + m),
                ),
            }
        },
    }
}

impl Wire for ServerboundMessage {
    open spec fn fits(message: ServerboundMessage) -> bool {
        true
    }

    open spec fn encoding(message: ServerboundMessage) -> Seq<u8> {
        match message {
            ServerboundMessage::Ping => varint(0),
            ServerboundMessage::Spawn(options) => varint(1) + (varint(0) + bool_bytes(
                options.single,
            )),
            ServerboundMessage::Goodbye => varint(2),
        }
    }

    open spec fn decoding(bytes: Seq<u8>) -> Result<(ServerboundMessage, nat), WireError> {
        match read_varint(bytes, 5) {
            Err(e) => Err(e),
            Ok((variant, n)) => if variant == 0 {
                Ok((ServerboundMessage::Ping, n))
            } else if variant == 1 {
                match read_options(bytes.skip(n as int)) {
                    Err(e) => Err(e),
                    Ok((options, m)) => Ok((ServerboundMessage::Spawn(options), n + m)),
                }
            } else if variant == 2 {
                Ok((ServerboundMessage::Goodbye, n))
            } else {
                Err(WireError::Invalid)
            },
        }
    }

    fn encode(&self) -> (res: Vec<u8>) {
        match self {
            ServerboundMessage::Ping => encode_u32(0),
            ServerboundMessage::Spawn(options) => {
                let mut res = encode_u32(1);
                let mut name = encode_u32(0);
                let mut single = encode_bool(options.single);
                name.append(&mut single);
                res.append(&mut name);
                res
            },
            ServerboundMessage::Goodbye => encode_u32(2),
        }
    }

    fn decode(bytes: &Vec<u8>) -> (res: Result<(Self, usize), WireError>) {
        assert(bytes@.skip(0) == bytes@);
        match decode_u32(bytes, 0) {
            Err(e) => Err(e),
            Ok((variant, n)) => {
                proof {
                    lemma_varint_extends(bytes@, Seq::empty(), 5);
                }
                if variant == 0 {
                    Ok((ServerboundMessage::Ping, n))
                } else if variant == 2 {
                    Ok((ServerboundMessage::Goodbye, n))
                } else if variant != 1 {
                    Err(WireError::Invalid)
                } else {
                    match decode_u32(bytes, n) {
                        Err(e) => Err(e),
                        Ok((name, m)) => {
                            if name != 0 {
                                return Err(WireError::Invalid);
                            }
                            proof {
                                lemma_varint_extends(bytes@.skip(n as int), Seq::empty(), 5);
                                assert(bytes@.skip(n as int).skip(m as int) == bytes@.skip(n + m));
                            }
                            match decode_bool(bytes, n + m) {
                                Err(e) => Err(e),
                                Ok((single, l)) => {
                                    let options = AppSpawnOptions {
                                        app_name: AppName::Launcher,
                                        single,
                                    };
                                    Ok((ServerboundMessage::Spawn(options), n + m + l))
                                },
                            }
                        },
                    }
                }
            },
        }
    }

    proof fn law_round_trip(message: ServerboundMessage, rest: Seq<u8>) {
        let all = Self::encoding(message);
        lemma_varint(0, rest, 5);
        lemma_varint(2, rest, 5);
        if let ServerboundMessage::Spawn(options) = message {
            let single = bool_bytes(options.single);
            let tail = varint(0) + single;
            lemma_varint(1, tail + rest, 5);
            lemma_varint(0, single + rest, 5);
            assert(all + rest =~= varint(1) + (tail + rest));
            assert((all + rest).skip(1) =~= varint(0) + (single + rest));
            assert((all + rest).skip(1).skip(1) =~= single + rest);
            assert forall|k: int| 0 <= k < all.len() implies Self::decoding(
                #[trigger] all.take(k),
            ) == Err::<(ServerboundMessage, nat), WireError>(WireError::Incomplete) by {
                if k >= 1 {
                    lemma_varint(1, tail.take(k - 1), 5);
                    assert(all.take(k) =~= varint(1) + tail.take(k - 1));
                    assert(all.take(k).skip(1) =~= tail.take(k - 1));
                    if k >= 2 {
                        lemma_varint(0, single.take(k - 2), 5);
                        assert(tail.take(k - 1) =~= varint(0) + single.take(k - 2));
                        assert(tail.take(k - 1).skip(1) =~= single.take(k - 2));
                    }
                }
            }
        }
    }

    proof fn law_decoding_extends(bytes: Seq<u8>, more: Seq<u8>) {
        lemma_varint_extends(bytes, more, 5);
        if let Ok((variant, n)) = read_varint(bytes, 5) {
            assert((bytes + more).skip(n as int) =~= bytes.skip(n as int) + more);
            if variant == 1 {
                let tail = bytes.skip(n as int);
                lemma_varint_extends(tail, more, 5);
                if let Ok((name, m)) = read_varint(tail, 5) {
                    assert((tail + more).skip(m as int) =~= tail.skip(m as int) + more);
                }
            }
        }
    }
}

/// A text with a truth value after it, at the start of bytes.
pub open spec fn read_running(bytes: Seq<u8>) -> Result<(ClientboundView, nat), WireError> {
    match read_text(bytes) {
        Err(e) => Err(e),
        Ok((name, n)) => match read_bool(bytes.skip(n as int)) {
            Err(e) => Err(e),
            Ok((running, m)) => Ok((ClientboundView::Running(name, running), n + m)),
        },
    }
}

/// A text with a truth value is read back as it was written, and not before it is complete.
proof fn lemma_running(name: Seq<char>, running: bool, rest: Seq<u8>)
    requires
        vstd::utf8::encode_utf8(name).len() < 0x1_0000_0000_0000_0000,
    ensures
        read_running(text_bytes(name) + bool_bytes(running) + rest) == Ok::<
            (ClientboundView, nat),
            WireError,
        >(
            (
                ClientboundView::Running(name, running),
                (text_bytes(name) + bool_bytes(running)).len(),
            ),
        ),
        forall|k: int|
            0 <= k < (text_bytes(name) + bool_bytes(running)).len() ==> read_running(
                #[trigger] (text_bytes(name) + bool_bytes(running)).take(k),
            ) == Err::<(ClientboundView, nat), WireError>(WireError::Incomplete),
{
    let text = text_bytes(name);
    let flag = bool_bytes(running);
    let tail = text + flag;
    lemma_text(name, flag + rest);
    assert(tail + rest =~= text + (flag + rest));
    assert((tail + rest).skip(text.len() as int) =~= flag + rest);
    assert forall|k: int| 0 <= k < tail.len() implies read_running(#[trigger] tail.take(k)) == Err::<
        (ClientboundView, nat),
        WireError,
    >(WireError::Incomplete) by {
        if k < text.len() {
            assert(tail.take(k) =~= text.take(k));
        } else {
            lemma_text(name, Seq::empty());
            assert(tail.take(k) =~= text + Seq::<u8>::empty());
            assert(tail.take(k).skip(text.len() as int) =~= Seq::<u8>::empty());
        }
    }
}

impl Wire for ClientboundMessage {
    open spec fn fits(message: ClientboundView) -> bool {
        match message {
            ClientboundView::Pong => true,
            ClientboundView::Running(text, _) => vstd::utf8::encode_utf8(text).len()
                < 0x1_0000_0000_0000_0000,
            ClientboundView::AppResult(text) => vstd::utf8::encode_utf8(text).len()
                < 0x1_0000_0000_0000_0000,
        }
    }

    open spec fn encoding(message: ClientboundView) -> Seq<u8> {
        match message {
            ClientboundView::Pong => varint(0),
            ClientboundView::Running(name, running) => varint(1) + (text_bytes(name) + bool_bytes(
                running,
            )),
            ClientboundView::AppResult(result) => varint(2) + text_bytes(result),
        }
    }

    open spec fn decoding(bytes: Seq<u8>) -> Result<(ClientboundView, nat), WireError> {
        match read_varint(bytes, 5) {
            Err(e) => Err(e),
            Ok((variant, n)) => if variant == 0 {
                Ok((ClientboundView::Pong, n))
            } else if variant == 1 {
                match read_running(bytes.skip(n as int)) {
                    Err(e) => Err(e),
                    Ok((message, m)) => Ok((message, n + m)),
                }
            } else if variant == 2 {
                match read_text(bytes.skip(n as int)) {
                    Err(e) => Err(e),
                    Ok((result, m)) => Ok((ClientboundView::AppResult(result), n + m)),
                }
            } else {
                Err(WireError::Invalid)
            },
        }
    }

    fn encode(&self) -> (res: Vec<u8>) {
        match self {
            ClientboundMessage::Pong => encode_u32(0),
            ClientboundMessage::Running(name, running) => {
                let mut res = encode_u32(1);
                let mut text = encode_text(name);
                let ghost bytes = text@;
                assert(bytes.len() == text.len());
                let mut flag = encode_bool(*running);
                text.append(&mut flag);
                res.append(&mut text);
                res
            },
            ClientboundMessage::AppResult(result) => {
                let mut res = encode_u32(2);
                let mut text = encode_text(result);
                let ghost bytes = text@;
                assert(bytes.len() == text.len());
                res.append(&mut text);
                res
            },
        }
    }

    fn decode(bytes: &Vec<u8>) -> (res: Result<(Self, usize), WireError>) {
        assert(bytes@.skip(0) == bytes@);
        match decode_u32(bytes, 0) {
            Err(e) => Err(e),
            Ok((variant, n)) => {
                proof {
                    lemma_varint_extends(bytes@, Seq::empty(), 5);
                }
                if variant == 0 {
                    Ok((ClientboundMessage::Pong, n))
                } else if variant == 1 || variant == 2 {
                    match decode_text(bytes, n) {
                        Err(e) => Err(e),
                        Ok((text, m)) => {
                            proof {
                                let tail = bytes@.skip(n as int);
                                lemma_text_extends(tail, Seq::empty());
                                assert(read_text(tail) == Ok::<(Seq<char>, nat), WireError>(
                                    (text@, m as nat),
                                ));
                                assert(n + m <= bytes.len());
                                assert(bytes@.skip(n as int).skip(m as int) == bytes@.skip(n + m));
                            }
                            if variant == 2 {
                                return Ok((ClientboundMessage::AppResult(text), n + m));
                            }
                            match decode_bool(bytes, n + m) {
                                Err(e) => Err(e),
                                Ok((running, l)) => {
                                    Ok((ClientboundMessage::Running(text, running), n + m + l))
                                },
                            }
                        },
                    }
                } else {
                    Err(WireError::Invalid)
                }
            },
        }
    }

    proof fn law_round_trip(message: ClientboundView, rest: Seq<u8>) {
        let all = Self::encoding(message);
        match message {
            ClientboundView::Pong => {
                lemma_varint(0, rest, 5);
            },
            ClientboundView::Running(name, running) => {
                let tail = text_bytes(name) + bool_bytes(running);
                lemma_varint(1, tail + rest, 5);
                lemma_running(name, running, rest);
                assert(all + rest =~= varint(1) + (tail + rest));
                assert((all + rest).skip(1) =~= tail + rest);
                assert forall|k: int| 0 <= k < all.len() implies Self::decoding(
                    #[trigger] all.take(k),
                ) == Err::<(ClientboundView, nat), WireError>(WireError::Incomplete) by {
                    if k >= 1 {
                        lemma_varint(1, tail.take(k - 1), 5);
                        assert(all.take(k) =~= varint(1) + tail.take(k - 1));
                        assert(all.take(k).skip(1) =~= tail.take(k - 1));
                    }
                }
            },
            ClientboundView::AppResult(result) => {
                let tail = text_bytes(result);
                lemma_varint(2, tail + rest, 5);
                lemma_text(result, rest);
                assert(all + rest =~= varint(2) + (tail + rest));
                assert((all + rest).skip(1) =~= tail + rest);
                assert forall|k: int| 0 <= k < all.len() implies Self::decoding(
                    #[trigger] all.take(k),
                ) == Err::<(ClientboundView, nat), WireError>(WireError::Incomplete) by {
                    if k >= 1 {
                        lemma_varint(2, tail.take(k - 1), 5);
                        assert(all.take(k) =~= varint(2) + tail.take(k - 1));
                        assert(all.take(k).skip(1) =~= tail.take(k - 1));
                    }
                }
            },
        }
    }

    proof fn law_decoding_extends(bytes: Seq<u8>, more: Seq<u8>) {
        lemma_varint_extends(bytes, more, 5);
        if let Ok((variant, n)) = read_varint(bytes, 5) {
            let tail = bytes.skip(n as int);
            assert((bytes + more).skip(n as int) =~= tail + more);
            if variant == 1 || variant == 2 {
                lemma_text_extends(tail, more);
                if let Ok((text, m)) = read_text(tail) {
                    assert((tail + more).skip(m as int) =~= tail.skip(m as int) + more);
                }
            }
        }
    }
}

/// The name of the socket that the daemon listens on.
pub const SOCKET_NAME: &'static str = "polymodo.sock";

/// Why no message could be received.
#[derive(Debug, Clone, Copy, PartialEq, Eq, Structural)]
pub enum IpcReceiveError {
    /// What came is no message.
    DecodeError,
    /// The other end has closed the connection.
    BrokenPipe,
}

/// One end of a connection: the bytes that came, and were not taken as messages yet.
pub struct IpcClient<In, Out> {
    buffer: Vec<u8>,
    marker: PhantomData<(In, Out)>,
}

/// The end of a client.
pub type IpcC2S = IpcClient<ClientboundMessage, ServerboundMessage>;

/// The end of the daemon.
pub type IpcS2C = IpcClient<ServerboundMessage, ClientboundMessage>;

impl<In: Wire, Out: Wire> View for IpcClient<In, Out> {
    type V = Seq<u8>;

    closed spec fn view(&self) -> Seq<u8> {
        self.buffer@
    }
}

impl<In: Wire, Out: Wire> IpcClient<In, Out> {
    pub fn new() -> (res: Self)
        ensures
            res@ == Seq::<u8>::empty(),
    {
        IpcClient { buffer: Vec::new(), marker: PhantomData }
    }

    /// The bytes that send a message.
    pub fn send(&self, message: &Out) -> (res: Vec<u8>)
        ensures
            res@ == Out::encoding(message@),
            Out::fits(message@),
    {
        message.encode()
    }

    /// Takes the next message out of the bytes that came: nothing, where more of them are needed.
    /// The bytes after the message are kept for the next one.
    pub fn recv(&mut self) -> (res: Result<Option<In>, IpcReceiveError>)
        ensures
            match In::decoding(old(self)@) {
                Ok((message, used)) => {
                    &&& res matches Ok(Some(m)) && m@ == message
                    &&& final(self)@ == old(self)@.skip(used as int)
                },
                Err(WireError::Incomplete) => {
                    &&& res == Ok::<Option<In>, IpcReceiveError>(None)
                    &&& final(self)@ == old(self)@
                },
                Err(WireError::Invalid) => {
                    &&& res == Err::<Option<In>, IpcReceiveError>(IpcReceiveError::DecodeError)
                    &&& final(self)@ == old(self)@
                },
            },
    {
        match In::decode(&self.buffer) {
            Ok((message, used)) => {
                let rest = skip_bytes(&self.buffer, used);
                self.buffer = rest;
                Ok(Some(message))
            },
            Err(WireError::Incomplete) => Ok(None),
            Err(WireError::Invalid) => Err(IpcReceiveError::DecodeError),
        }
    }

    /// Takes over bytes that were read from the connection. Reading none means that it is closed.
    pub fn on_read(&mut self, chunk: &mut Vec<u8>) -> (res: Result<(), IpcReceiveError>)
        ensures
            old(chunk)@.len() == 0 ==> {
                &&& res == Err::<(), IpcReceiveError>(IpcReceiveError::BrokenPipe)
                &&& final(self)@ == old(self)@
            },
            old(chunk)@.len() > 0 ==> {
                &&& res == Ok::<(), IpcReceiveError>(())
                &&& final(self)@ == old(self)@ + old(chunk)@
            },
            final(chunk)@ == Seq::<u8>::empty(),
    {
        if chunk.len() == 0 {
            assert(chunk@ =~= Seq::<u8>::empty());
            return Err(IpcReceiveError::BrokenPipe);
        }
        self.buffer.append(chunk);
        Ok(())
    }
}

fn skip_bytes(bytes: &Vec<u8>, from: usize) -> (res: Vec<u8>)
    requires
        from <= bytes@.len(),
    ensures
        res@ == bytes@.skip(from as int),
{
    let mut res: Vec<u8> = Vec::new();
    let mut i: usize = from;
    while i < bytes.len()
        invariant
            from <= i <= bytes.len(),
            res@ == bytes@.subrange(from as int, i as int),
        decreases bytes.len() - i,
    {
        res.push(bytes[i]);
        i += 1;
        assert(bytes@.subrange(from as int, i as int) == bytes@.subrange(from as int, i - 1).push(
            bytes@[i - 1],
        ));
    }
    assert(res@ =~= bytes@.skip(from as int));
    res
}

/// The bytes of messages that are sent one after the other.
pub open spec fn sent<M: Wire>(messages: Seq<M::V>) -> Seq<u8>
    decreases messages.len(),
{
    if messages.len() == 0 {
        Seq::empty()
    } else {
        M::encoding(messages[0]) + sent::<M>(messages.skip(1))
    }
}

/// The messages that are received from bytes, one after the other, and the bytes that are left
/// when more are needed, or when they are no message.
pub open spec fn received<M: Wire>(bytes: Seq<u8>) -> (Seq<M::V>, Seq<u8>)
    decreases bytes.len(),
{
    match M::decoding(bytes) {
        Ok((message, used)) => if 0 < used <= bytes.len() {
            let (messages, rest) = received::<M>(bytes.skip(used as int));
            (seq![message] + messages, rest)
        } else {
            (Seq::empty(), bytes)
        },
        Err(_) => (Seq::empty(), bytes),
    }
}

/// What is sent is received: all messages, in order; and a part of one more message is kept until
/// the rest of it comes.
pub proof fn law_sent_messages_are_received<M: Wire>(messages: Seq<M::V>, next: M::V, n: int)
    requires
        forall|i: int| 0 <= i < messages.len() ==> M::fits(#[trigger] messages[i]),
        M::fits(next),
        0 <= n < M::encoding(next).len(),
    ensures
        received::<M>(sent::<M>(messages) + M::encoding(next).take(n)) == (
            messages,
            M::encoding(next).take(n),
        ),
    decreases messages.len(),
{
    let part = M::encoding(next).take(n);
    let all = sent::<M>(messages) + part;
    if messages.len() == 0 {
        M::law_round_trip(next, Seq::empty());
        assert(all =~= part);
        assert(messages =~= Seq::empty());
    } else {
        let first = messages[0];
        let rest = messages.skip(1);
        assert(M::fits(first));
        M::law_round_trip(first, sent::<M>(rest) + part);
        assert(all =~= M::encoding(first) + (sent::<M>(rest) + part));
        assert(all.skip(M::encoding(first).len() as int) =~= sent::<M>(rest) + part);
        assert forall|i: int| 0 <= i < rest.len() implies M::fits(#[trigger] rest[i]) by {
            assert(M::fits(messages[i + 1]));
        }
        law_sent_messages_are_received::<M>(rest, next, n);
        assert(seq![first] + rest =~= messages);
    }
}

/// It makes no difference how bytes are cut into pieces on their way: receiving one piece, and then
/// the next with what was left of the first, gives the messages of both together.
pub proof fn law_pieces_make_no_difference<M: Wire>(a: Seq<u8>, b: Seq<u8>)
    requires
        M::decoding(received::<M>(a).1) == Err::<(M::V, nat), WireError>(WireError::Incomplete),
    ensures
        ({
            let (first, rest) = received::<M>(a);
            let (second, left) = received::<M>(rest + b);
            received::<M>(a + b) == (first + second, left)
        }),
    decreases a.len(),
{
    let (first, rest) = received::<M>(a);
    let (second, left) = received::<M>(rest + b);
    match M::decoding(a) {
        Ok((message, used)) => {
            M::law_decoding_extends(a, b);
            let tail = a.skip(used as int);
            law_pieces_make_no_difference::<M>(tail, b);
            assert((a + b).skip(used as int) =~= tail + b);
            let (messages, r) = received::<M>(tail);
            assert(first == seq![message] + messages);
            assert(seq![message] + (messages + second) =~= first + second);
        },
        Err(e) => {
            assert(first =~= Seq::empty());
            assert(first + second =~= second);
        },
    }
}

} // verus!
