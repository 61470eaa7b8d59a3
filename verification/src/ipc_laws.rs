//! What messages look like on a connection, and what the daemon says.

use crate::app::{AppKey, AppName, Driver};
use crate::ipc::{
    AppSpawnOptions, ClientboundMessage, ClientboundView, IpcClient, IpcReceiveError,
    ServerboundMessage, Wire,
};
use crate::polymodo::runs_named;
use crate::server::{is_refused, result_text};
use crate::wire::WireError;
use vstd::prelude::*;

verus! {

/// The bytes of what a client asks: a number for what is asked, and for an app to be spawned its
/// number, and whether it is to be a single one.
pub proof fn law_requests_as_bytes(single: bool)
    ensures
        ServerboundMessage::encoding(ServerboundMessage::Ping) == seq![0u8],
        ServerboundMessage::encoding(
            ServerboundMessage::Spawn(AppSpawnOptions { app_name: AppName::Launcher, single }),
        ) == seq![
            1u8,
            0u8,
            if single {
                1u8
            } else {
                0u8
            },
        ],
        ServerboundMessage::encoding(ServerboundMessage::Goodbye) == seq![2u8],
{
    let spawn = ServerboundMessage::encoding(
        ServerboundMessage::Spawn(AppSpawnOptions { app_name: AppName::Launcher, single }),
    );
    assert(spawn =~= seq![
        1u8,
        0u8,
        if single {
            1u8
        } else {
            0u8
        },
    ]);
}

/// The bytes of what the daemon answers: a number for what is answered, and the text of the answer
/// with its length in front.
pub proof fn law_answers_as_bytes(text: Seq<char>, running: bool)
    requires
        vstd::utf8::encode_utf8(text).len() < 251,
    ensures
        ({
            let bytes = vstd::utf8::encode_utf8(text);
            let length = seq![bytes.len() as u8];
            &&& ClientboundMessage::encoding(ClientboundView::Pong) == seq![0u8]
            &&& ClientboundMessage::encoding(ClientboundView::Running(text, running)) == seq![1u8]
                + length + bytes + seq![
                if running {
                    1u8
                } else {
                    0u8
                },
            ]
            &&& ClientboundMessage::encoding(ClientboundView::AppResult(text)) == seq![2u8]
                + length + bytes
        }),
{
    let bytes = vstd::utf8::encode_utf8(text);
    let length = seq![bytes.len() as u8];
    assert(ClientboundMessage::encoding(ClientboundView::Running(text, running)) =~= seq![1u8]
        + length + bytes + seq![
        if running {
            1u8
        } else {
            0u8
        },
    ]);
    assert(ClientboundMessage::encoding(ClientboundView::AppResult(text)) =~= seq![2u8] + length
        + bytes);
}

/// A byte that stands for no request is invalid, whatever follows.
pub proof fn law_unknown_request_is_invalid(first: u8, rest: Seq<u8>)
    requires
        3 <= first < 251,
    ensures
        ServerboundMessage::decoding(seq![first] + rest) == Err::<
            (ServerboundMessage, nat),
            WireError,
        >(WireError::Invalid),
        ClientboundMessage::decoding(seq![first] + rest) == Err::<
            (ClientboundView, nat),
            WireError,
        >(WireError::Invalid),
{
    assert((seq![first] + rest)[0] == first);
}

/// A request for an app is refused exactly where it is to be a single one, and one of the apps that
/// run has its name.
pub proof fn law_only_a_second_single_app_is_refused<D: Driver>(
    options: AppSpawnOptions,
    apps: Map<AppKey, D>,
)
    ensures
        is_refused(options, apps) <==> options.single && exists|key: AppKey|
            apps.dom().contains(key) && (#[trigger] apps[key]).name() == options.app_name,
{
}

/// An app of a name runs exactly where one of those that are known has that name.
pub proof fn law_running_app_is_known<D: Driver>(apps: Map<AppKey, D>, name: AppName)
    ensures
        runs_named(apps, name) <==> exists|key: AppKey|
            apps.dom().contains(key) && (#[trigger] apps[key]).name() == name,
{
}

/// A client is told the result of its app, or what went wrong with it; and where there is none,
/// that there is none.
pub proof fn law_client_is_told_the_result(json: String, error: String)
    ensures
        result_text(Some(Ok(json))) == json@,
        result_text(Some(Err(error))) == error@,
        result_text(None) == "the server could not retrieve the app's result"@,
{
}

/// A request to spawn something that is no app is invalid, and so is one that does not say by 0 or
/// 1 whether it is to be a single one, whatever follows.
pub proof fn law_unknown_app_is_invalid(name: u8, single: u8, rest: Seq<u8>)
    ensures
        1 <= name < 251 ==> ServerboundMessage::decoding(seq![1u8, name] + rest) == Err::<
            (ServerboundMessage, nat),
            WireError,
        >(WireError::Invalid),
        single >= 2 ==> ServerboundMessage::decoding(seq![1u8, 0u8, single] + rest) == Err::<
            (ServerboundMessage, nat),
            WireError,
        >(WireError::Invalid),
{
    let a = seq![1u8, name] + rest;
    assert(a.skip(1)[0] == name);
    let b = seq![1u8, 0u8, single] + rest;
    assert(b.skip(1)[0] == 0);
    assert(b.skip(1).skip(1)[0] == single);
}

/// What came over a connection is taken message by message: the next one is given as it was sent,
/// and what comes after it is kept; a part of one is kept until the rest comes. Bytes that are read
/// are kept after those that came before, and none means that the other end is gone.
pub proof fn law_messages_are_taken_in_turn<In: Wire, Out: Wire>(
    message: In::V,
    rest: Seq<u8>,
    n: int,
    res: Result<Option<In>, IpcReceiveError>,
    read: Result<(), IpcReceiveError>,
)
    requires
        In::fits(message),
        0 <= n < In::encoding(message).len(),
    ensures
        forall|c: &mut IpcClient<In, Out>| #[trigger]
            call_ensures(IpcClient::<In, Out>::recv, (c,), res) && c@ == In::encoding(message)
                + rest ==> {
                &&& res matches Ok(Some(m)) && m@ == message
                &&& final(c)@ == rest
            },
        forall|c: &mut IpcClient<In, Out>| #[trigger]
            call_ensures(IpcClient::<In, Out>::recv, (c,), res) && c@ == In::encoding(message).take(
                n,
            ) ==> res == Ok::<Option<In>, IpcReceiveError>(None) && final(c)@ == c@,
        forall|c: &mut IpcClient<In, Out>, chunk: &mut Vec<u8>| #[trigger]
            call_ensures(IpcClient::<In, Out>::on_read, (c, chunk), read) ==> {
                &&& read is Err <==> chunk@.len() == 0
                &&& read matches Err(e) ==> e == IpcReceiveError::BrokenPipe
                &&& final(c)@ == c@ + chunk@
            },
{
    In::law_round_trip(message, rest);
    let bytes = In::encoding(message) + rest;
    assert(bytes.skip(In::encoding(message).len() as int) =~= rest);
    assert forall|c: &mut IpcClient<In, Out>, chunk: &mut Vec<u8>| #[trigger]
        call_ensures(IpcClient::<In, Out>::on_read, (c, chunk), read) implies final(c)@ == c@
        + chunk@ by {
        if chunk@.len() == 0 {
            assert(c@ + chunk@ =~= c@);
        }
    }
}

/// What is sent is the encoding of the message, which the other end takes as that message.
pub proof fn law_message_is_sent_as_its_bytes<In: Wire, Out: Wire>(
    client: IpcClient<In, Out>,
    message: Out,
    bytes: Vec<u8>,
    rest: Seq<u8>,
)
    requires
        call_ensures(IpcClient::<In, Out>::send, (&client, &message), bytes),
    ensures
        Out::decoding(bytes@ + rest) == Ok::<(Out::V, nat), WireError>(
            (message@, bytes@.len()),
        ),
{
    Out::law_round_trip(message@, rest);
}

} // verus!
