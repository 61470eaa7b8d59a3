//! The messages that apps with surfaces send to themselves.

use crate::app::AppKey;
use vstd::prelude::*;

verus! {

/// A message with the key of the app that sent it to itself.
pub struct AppMessage<M> {
    pub app_key: AppKey,
    pub message: M,
}

/// The end at which an app sends to itself.
#[derive(Debug, Clone, Copy, PartialEq, Eq, Structural)]
pub struct AppSender {
    app_key: AppKey,
}

impl AppSender {
    /// The app that sends.
    pub closed spec fn key(&self) -> AppKey {
        self.app_key
    }

    pub fn new(app_key: AppKey) -> (res: Self)
        ensures
            res.key() == app_key,
    {
        AppSender { app_key }
    }

    /// The message, on its way to the app.
    pub fn send<M>(&self, message: M) -> (res: AppMessage<M>)
        ensures
            (res == AppMessage { app_key: self.key(), message }),
    {
        AppMessage { app_key: self.app_key, message }
    }
}

} // verus!
