//! How the daemon serves a client.

use crate::app::{AppKey, AppName, Driver};
use crate::ipc::{
    AppSpawnOptions, ClientboundMessage, ClientboundView, IpcReceiveError, ServerboundMessage, Wire,
};
use crate::polymodo::{
    law_spawned_app_runs, law_stopped_app_is_gone, runs_named, Polymodo,
};
use crate::wire::WireError;
use vstd::prelude::*;

verus! {

/// What the daemon does next for a client.
pub enum ServeStep {
    /// Send the message, and go on to the next one.
    Reply(ClientboundMessage),
    /// Spawn the app, wait until it has stopped, and reply with its result.
    SpawnAndWait(AppName),
    /// Shut the connection down and leave the client.
    Shutdown,
    /// Leave the client.
    Close,
}

/// What is told where the result of an app is not there.
pub open spec fn no_result_text() -> Seq<char> {
    "the server could not retrieve the app's result"@
}

/// A request for a single app, where one of that name runs.
pub open spec fn is_refused<D: Driver>(options: AppSpawnOptions, apps: Map<AppKey, D>) -> bool {
    options.single && runs_named(apps, options.app_name)
}

/// Decides what to do with what came from a client. What cannot be received ends the connection;
/// and so does a request for a single app where one of that name runs.
pub fn serve_client<D: Driver>(
    received: Result<ServerboundMessage, IpcReceiveError>,
    polymodo: &Polymodo<D>,
) -> (res: ServeStep)
    ensures
        match received {
            Err(_) => res is Close,
            Ok(ServerboundMessage::Ping) => res matches ServeStep::Reply(m) && m@
                == ClientboundView::Pong,
            Ok(ServerboundMessage::Spawn(options)) => if is_refused(options, polymodo@) {
                res is Close
            } else {
                res == ServeStep::SpawnAndWait(options.app_name)
            },
            Ok(ServerboundMessage::Goodbye) => res is Shutdown,
        },
{
    match received {
        Err(_) => ServeStep::Close,
        Ok(ServerboundMessage::Ping) => ServeStep::Reply(ClientboundMessage::Pong),
        Ok(ServerboundMessage::Spawn(AppSpawnOptions { app_name, single })) => {
            if single && polymodo.is_app_running(app_name) {
                ServeStep::Close
            } else {
                ServeStep::SpawnAndWait(app_name)
            }
        },
        Ok(ServerboundMessage::Goodbye) => ServeStep::Shutdown,
    }
}

/// The text that a client is told of an app that has stopped: its result, or what went wrong.
pub open spec fn result_text(app_result: Option<Result<String, String>>) -> Seq<char> {
    match app_result {
        None => no_result_text(),
        Some(Ok(json)) => json@,
        Some(Err(error)) => error@,
    }
}

/// The reply for an app that has stopped. `app_result` is what it left behind, if it could be
/// retrieved: as text, or what went wrong when it was to be made text.
pub fn reply_with_result(app_result: Option<Result<String, String>>) -> (res: ClientboundMessage)
    ensures
        res@ == ClientboundView::AppResult(result_text(app_result)),
{
    let text = match app_result {
        None => "the server could not retrieve the app's result".to_owned(),
        Some(Ok(json)) => json,
        Some(Err(error)) => error,
    };
    ClientboundMessage::AppResult(text)
}

/// The result of an app reaches the client: the reply with it, sent over a connection, is read as
/// that same result, whatever is sent after it.
pub proof fn law_result_reaches_client(
    app_result: Option<Result<String, String>>,
    rest: Seq<u8>,
)
    requires
        ClientboundMessage::fits(ClientboundView::AppResult(result_text(app_result))),
    ensures
        ({
            let reply = ClientboundView::AppResult(result_text(app_result));
            ClientboundMessage::decoding(ClientboundMessage::encoding(reply) + rest) == Ok::<
                (ClientboundView, nat),
                WireError,
            >((reply, ClientboundMessage::encoding(reply).len()))
        }),
{
    ClientboundMessage::law_round_trip(ClientboundView::AppResult(result_text(app_result)), rest);
}

/// While an app runs, a request for a single app of its name is refused, and one for another app
/// besides it is not. Once the last app of that name was stopped, no request for one is refused.
pub proof fn law_single_app_runs_once<D: Driver>(
    apps: Map<AppKey, D>,
    key: AppKey,
    driver: D,
    options: AppSpawnOptions,
)
    requires
        options.app_name == driver.name(),
        !runs_named(apps, driver.name()),
    ensures
        is_refused(options, apps.insert(key, driver)) == options.single,
        !is_refused(options, apps.insert(key, driver).remove(key)),
{
    let after = apps.insert(key, driver);
    law_spawned_app_runs(apps, key, driver);
    assert forall|other: AppKey| after.dom().contains(other) && other != key implies (
    #[trigger] after[other]).name() != after[key].name() by {
        assert(after[other] == apps[other]);
    }
    law_stopped_app_is_gone(after, key);
}

} // verus!
