//! Apps, and how they are driven.

use vstd::prelude::*;

verus! {

pub type AppKey = u32;

/// `rand::random` of a `u32`. Nothing is claimed of the result.
#[verifier::external_body]
fn random_key() -> (res: u32) {
    rand::random()
}

/// A key for a new app: a number at random.
pub fn new_app_key() -> AppKey {
    random_key()
}

/// The apps that there are.
#[derive(Debug, Clone, Copy, PartialEq, Eq, Structural)]
pub enum AppName {
    Launcher,
}

/// An app.
pub trait App: Sized {
    /// What the app is told.
    type Message;

    /// What the app leaves behind.
    type Output;

    const NAME: AppName;

    fn create(message_sender: AppSender) -> Self;

    /// Handles a message. An app that does not say otherwise ignores it.
    fn on_message(&mut self, message: Self::Message)
        default_ensures
            *final(self) == *old(self),
    {
    }

    fn stop(self) -> Self::Output;
}

/// Something that can be stopped before it is done.
pub trait Abortable {
    fn abort(&self);
}

/// Holds something that is to be stopped before it is let go, and stops it only once. Letting go of
/// it stops nothing by itself: whoever holds it calls `abort` first.
pub struct AbortOnDrop<T: Abortable>(Option<T>);

impl<T: Abortable> AbortOnDrop<T> {
    /// What is still to be stopped.
    pub closed spec fn held(&self) -> Option<T> {
        self.0
    }

    pub fn new(value: T) -> (res: Self)
        ensures
            res.held() == Some(value),
    {
        AbortOnDrop(Some(value))
    }

    /// Stops what is held, unless it was stopped before. Says whether it was still to be stopped.
    pub fn abort(&mut self) -> (res: bool)
        ensures
            res == old(self).held() is Some,
            res ==> call_ensures(T::abort, (&old(self).held()->0,), ()),
            final(self).held() is None,
    {
        match self.0.take() {
            Some(held) => {
                held.abort();
                true
            },
            None => false,
        }
    }
}

/// What an app asks of those who run it.
pub enum AppMessage<M, T: Abortable> {
    /// The app wants to be stopped.
    Finished,
    /// A message for the app itself.
    Message(M),
    /// A task that was started for the app, and goes with it.
    SpawnLocal(AbortOnDrop<T>),
}

/// A message with the key of the app that it comes from.
pub struct AppEvent<M, T: Abortable> {
    pub app_key: AppKey,
    pub message: AppMessage<M, T>,
}

/// The end at which an app sends to itself.
#[derive(Debug, Clone, Copy, PartialEq, Eq, Structural)]
pub struct AppSender {
    app_key: AppKey,
}

impl AppSender {
    /// The app that sends.
    pub closed spec fn key(&self) -> AppKey {
        self.app_key
    }

    pub fn new(app_key: AppKey) -> (res: Self)
        ensures
            res.key() == app_key,
    {
        AppSender { app_key }
    }

    fn send_event<M, T: Abortable>(&self, message: AppMessage<M, T>) -> (res: AppEvent<M, T>)
        ensures
            (res == AppEvent { app_key: self.key(), message }),
    {
        AppEvent { app_key: self.app_key, message }
    }

    /// The event for a task of the app.
    pub fn spawn<M, T: Abortable>(&self, task: T) -> (res: AppEvent<M, T>)
        ensures
            res.app_key == self.key(),
            res.message matches AppMessage::SpawnLocal(held) && held.held() == Some(task),
    {
        self.send_event(AppMessage::SpawnLocal(AbortOnDrop::new(task)))
    }

    /// The event for a message to the app.
    pub fn send<M, T: Abortable>(&self, message: M) -> (res: AppEvent<M, T>)
        ensures
            (res == AppEvent { app_key: self.key(), message: AppMessage::<M, T>::Message(message) }),
    {
        self.send_event(AppMessage::Message(message))
    }

    /// The event by which the app asks to be stopped.
    pub fn finish<M, T: Abortable>(&self) -> (res: AppEvent<M, T>)
        ensures
            (res == AppEvent { app_key: self.key(), message: AppMessage::<M, T>::Finished }),
    {
        self.send_event(AppMessage::Finished)
    }
}

/// Drives an app: hands messages to it, holds its tasks, and stops it.
pub struct AppDriver<A: App, T: Abortable> {
    key: AppKey,
    app: Option<A>,
    abortables: Vec<AbortOnDrop<T>>,
}

/// What an [`AppDriver`] holds.
pub struct AppDriverView<A, T: Abortable> {
    pub key: AppKey,
    /// The app, until it is stopped.
    pub app: Option<A>,
    pub abortables: Seq<AbortOnDrop<T>>,
}

impl<A: App, T: Abortable> View for AppDriver<A, T> {
    type V = AppDriverView<A, T>;

    closed spec fn view(&self) -> AppDriverView<A, T> {
        AppDriverView { key: self.key, app: self.app, abortables: self.abortables@ }
    }
}

/// The driver of an app.
pub fn driver_for<A: App, T: Abortable>(key: AppKey, app: A) -> (res: AppDriver<A, T>)
    ensures
        res@.key == key,
        res@.app == Some(app),
        res@.abortables == Seq::<AbortOnDrop<T>>::empty(),
{
    AppDriver { key, app: Some(app), abortables: Vec::new() }
}

impl<A: App, T: Abortable> AppDriver<A, T> {
    pub fn key(&self) -> (res: AppKey)
        ensures
            res == self@.key,
    {
        self.key
    }

    pub fn app_name(&self) -> (res: AppName)
        ensures
            res == A::NAME,
    {
        A::NAME
    }

    /// Takes over a task of the app.
    pub fn add_abortable(&mut self, abortable: AbortOnDrop<T>)
        ensures
            final(self)@.key == old(self)@.key,
            final(self)@.app == old(self)@.app,
            final(self)@.abortables == old(self)@.abortables.push(abortable),
    {
        self.abortables.push(abortable);
    }

    /// Hands a message to the app, which must not have been stopped. Nothing is one that was not
    /// meant for an app of this type, and is ignored, stopped or not. What the app does with a
    /// message is its own affair.
    pub fn on_message(&mut self, message: Option<A::Message>)
        requires
            message is Some ==> old(self)@.app is Some,
        ensures
            final(self)@.app is Some == old(self)@.app is Some,
            match message {
                Some(m) => exists|app: &mut A|
                    *app == old(self)@.app->0 && *final(app) == final(self)@.app->0
                        && #[trigger] call_ensures(A::on_message, (app, m), ()),
                None => *final(self) == *old(self),
            },
            final(self)@.key == old(self)@.key,
            final(self)@.abortables == old(self)@.abortables,
    {
        if let Some(m) = message {
            match &mut self.app {
                Some(app) => app.on_message(m),
                None => {},
            }
        }
    }

    /// Stops the app, which can be done once, and gives what it leaves behind.
    pub fn stop(&mut self) -> (res: A::Output)
        requires
            old(self)@.app is Some,
        ensures
            call_ensures(A::stop, (old(self)@.app->0,), res),
            final(self)@.app is None,
            final(self)@.key == old(self)@.key,
            final(self)@.abortables == old(self)@.abortables,
    {
        let app = self.app.take().unwrap();
        app.stop()
    }

    /// Stops the tasks of the app that were not stopped before, in order.
    pub fn abort_all(&mut self)
        ensures
            forall|i: int|
                0 <= i < old(self)@.abortables.len() && (
                #[trigger] old(self)@.abortables[i]).held() is Some ==> call_ensures(
                    T::abort,
                    (&old(self)@.abortables[i].held()->0,),
                    (),
                ),
            final(self)@.abortables == Seq::<AbortOnDrop<T>>::empty(),
            final(self)@.key == old(self)@.key,
            final(self)@.app == old(self)@.app,
    {
        let mut tasks: Vec<AbortOnDrop<T>> = Vec::new();
        core::mem::swap(&mut self.abortables, &mut tasks);
        let ghost all = tasks@;
        for task in it: tasks
            invariant
                it.seq() == all,
                forall|i: int|
                    0 <= i < it.index() && (#[trigger] all[i]).held() is Some ==> call_ensures(
                        T::abort,
                        (&all[i].held()->0,),
                        (),
                    ),
        {
            let mut task = task;
            task.abort();
        }
    }
}

/// Something that drives an app, whatever app it is.
pub trait Driver: Sized {
    type Message;

    type Output;

    /// What is stopped together with the app.
    type Task;

    /// The name of the app.
    spec fn name(&self) -> AppName;

    /// The app was not stopped.
    spec fn runs(&self) -> bool;

    /// The driver holds the task, and is `after` where it was `before`.
    spec fn adopted(before: Self, task: Self::Task, after: Self) -> bool;

    /// What the app leaves behind when it is stopped.
    spec fn leaves(before: Self, output: Self::Output) -> bool;

    /// Every task that the driver still held was stopped.
    spec fn tasks_stopped(before: Self) -> bool;

    fn name_of_app(&self) -> (res: AppName)
        ensures
            res == self.name(),
    ;

    fn deliver(&mut self, message: Option<Self::Message>)
        requires
            message is Some ==> old(self).runs(),
        ensures
            final(self).runs() == old(self).runs(),
            final(self).name() == old(self).name(),
            message is None ==> *final(self) == *old(self),
    ;

    fn adopt(&mut self, task: Self::Task)
        requires
            old(self).runs(),
        ensures
            final(self).runs(),
            final(self).name() == old(self).name(),
            Self::adopted(*old(self), task, *final(self)),
    ;

    fn finish(&mut self) -> (res: Self::Output)
        requires
            old(self).runs(),
        ensures
            !final(self).runs(),
            Self::leaves(*old(self), res),
            Self::tasks_stopped(*old(self)),
    ;
}

impl<A: App, T: Abortable> Driver for AppDriver<A, T> {
    type Message = A::Message;

    type Output = A::Output;

    type Task = AbortOnDrop<T>;

    open spec fn name(&self) -> AppName {
        A::NAME
    }

    open spec fn runs(&self) -> bool {
        self@.app is Some
    }

    open spec fn adopted(before: Self, task: AbortOnDrop<T>, after: Self) -> bool {
        &&& after@.abortables == before@.abortables.push(task)
        &&& after@.app == before@.app
        &&& after@.key == before@.key
    }

    open spec fn leaves(before: Self, output: A::Output) -> bool {
        call_ensures(A::stop, (before@.app->0,), output)
    }

    open spec fn tasks_stopped(before: Self) -> bool {
        forall|i: int|
            0 <= i < before@.abortables.len() && (#[trigger] before@.abortables[i]).held() is Some
                ==> call_ensures(T::abort, (&before@.abortables[i].held()->0,), ())
    }

    fn name_of_app(&self) -> (res: AppName) {
        self.app_name()
    }

    fn deliver(&mut self, message: Option<A::Message>)
        ensures
            message matches Some(m) ==> exists|app: &mut A|
                *app == old(self)@.app->0 && *final(app) == final(self)@.app->0
                    && #[trigger] call_ensures(A::on_message, (app, m), ()),
    {
        self.on_message(message)
    }

    fn adopt(&mut self, task: AbortOnDrop<T>) {
        self.add_abortable(task)
    }

    fn finish(&mut self) -> (res: A::Output)
        ensures
            final(self)@.abortables == Seq::<AbortOnDrop<T>>::empty(),
    {
        let output = self.stop();
        self.abort_all();
        output
    }
}

} // verus!
