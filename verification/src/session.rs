//! What the program does when it is started, and how it talks to the daemon as a client.

use crate::app::AppName;
use crate::cli::Args;
use crate::ipc::{AppSpawnOptions, ClientboundMessage, ClientboundView, ServerboundMessage};
use vstd::prelude::*;

verus! {

/// What came of an attempt to connect to the daemon.
#[derive(Debug, Clone, Copy, PartialEq, Eq, Structural)]
pub enum Connection {
    Connected,
    /// Nobody listens.
    Refused,
    /// Something else went wrong.
    Failed,
}

/// What the program runs as.
#[derive(Debug, Clone, Copy, PartialEq, Eq, Structural)]
pub enum Role {
    /// On its own, without the daemon.
    Standalone,
    /// As a client of the daemon.
    Client,
    /// As the daemon.
    Server,
    /// Not at all.
    Exit,
}

/// Whether the program tries to connect to the daemon at all.
pub fn connects(args: &Args) -> (res: bool)
    ensures
        res == !args.standalone,
{
    !args.standalone
}

/// What the program runs as. It becomes the daemon where nobody listens yet; any other failure to
/// connect is fatal. A standalone instance does not look at the connection.
pub fn choose_role(args: &Args, connection: Connection) -> (res: Role)
    ensures
        res == if args.standalone {
            Role::Standalone
        } else {
            match connection {
                Connection::Connected => Role::Client,
                Connection::Refused => Role::Server,
                Connection::Failed => Role::Exit,
            }
        },
{
    if args.standalone {
        return Role::Standalone;
    }
    match connection {
        Connection::Connected => Role::Client,
        Connection::Refused => Role::Server,
        Connection::Failed => Role::Exit,
    }
}

/// What a client asks first: for the launcher.
pub fn request(args: &Args) -> (res: ServerboundMessage)
    ensures
        res == ServerboundMessage::Spawn(
            AppSpawnOptions { app_name: AppName::Launcher, single: args.single },
        ),
{
    ServerboundMessage::Spawn(AppSpawnOptions { app_name: AppName::Launcher, single: args.single })
}

/// What a client says last.
pub fn farewell() -> (res: ServerboundMessage)
    ensures
        res == ServerboundMessage::Goodbye,
{
    ServerboundMessage::Goodbye
}

/// The result of the app in the answer of the daemon; an answer of another sort holds none.
pub fn result_of(answer: ClientboundMessage) -> (res: Option<String>)
    ensures
        match answer@ {
            ClientboundView::AppResult(text) => res matches Some(t) && t@ == text,
            _ => res is None,
        },
{
    match answer {
        ClientboundMessage::AppResult(result) => Some(result),
        _ => None,
    }
}

} // verus!
