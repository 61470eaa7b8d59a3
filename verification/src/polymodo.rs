//! The apps that run.

use crate::app::{AppKey, AppName, AppSender, Driver};
use std::collections::HashMap;
use vstd::prelude::*;

verus! {

#[derive(Debug, Clone, Copy, PartialEq, Eq, Structural)]
pub enum PolymodoError {
    /// No app with that key runs.
    NoSuchApp(AppKey),
}

/// The apps that run, by their keys.
pub struct Polymodo<D: Driver> {
    apps: HashMap<AppKey, D>,
}

impl<D: Driver> View for Polymodo<D> {
    type V = Map<AppKey, D>;

    closed spec fn view(&self) -> Map<AppKey, D> {
        self.apps@
    }
}

/// An app with the name runs.
pub open spec fn runs_named<D: Driver>(apps: Map<AppKey, D>, name: AppName) -> bool {
    exists|key: AppKey| apps.dom().contains(key) && (#[trigger] apps[key]).name() == name
}

impl<D: Driver> Polymodo<D> {
    /// Every app that is known runs.
    pub open spec fn well_formed(&self) -> bool {
        forall|key: AppKey| self@.dom().contains(key) ==> (#[trigger] self@[key]).runs()
    }

    pub fn new() -> (res: Self)
        ensures
            (res@ == Map::<AppKey, D>::empty()),
            res.well_formed(),
    {
        broadcast use vstd::std_specs::hash::group_hash_axioms;

        Polymodo { apps: HashMap::new() }
    }

    /// The end at which an app sends to itself.
    pub fn app_sender(&self, app_key: AppKey) -> (res: AppSender)
        ensures
            res.key() == app_key,
    {
        AppSender::new(app_key)
    }

    /// Takes over an app that was made.
    pub fn spawn_app(&mut self, key: AppKey, driver: D)
        requires
            old(self).well_formed(),
            driver.runs(),
        ensures
            final(self).well_formed(),
            final(self)@ == old(self)@.insert(key, driver),
    {
        broadcast use vstd::std_specs::hash::group_hash_axioms;

        self.apps.insert(key, driver);
    }

    /// Stops an app and its tasks, and gives what it leaves behind.
    pub fn stop_app(&mut self, app: AppKey) -> (res: Result<D::Output, PolymodoError>)
        requires
            old(self).well_formed(),
        ensures
            final(self).well_formed(),
            final(self)@ == old(self)@.remove(app),
            res is Ok == old(self)@.dom().contains(app),
            res matches Ok(output) ==> D::leaves(old(self)@[app], output) && D::tasks_stopped(
                old(self)@[app],
            ),
            res matches Err(e) ==> e == PolymodoError::NoSuchApp(app),
    {
        broadcast use vstd::std_specs::hash::group_hash_axioms;

        match self.apps.remove(&app) {
            Some(mut driver) => {
                assert(old(self)@[app].runs());
                assert forall|key: AppKey| self@.dom().contains(key) implies (
                #[trigger] self@[key]).runs() by {
                    assert(old(self)@[key].runs());
                }
                Ok(driver.finish())
            },
            None => {
                assert(old(self)@.remove(app) =~= old(self)@);
                Err(PolymodoError::NoSuchApp(app))
            },
        }
    }

    /// Hands a message to the app that it came from. An app that was stopped in the meantime gets
    /// nothing. Says whether the message was delivered.
    pub fn handle_app_message(&mut self, app: AppKey, message: Option<D::Message>) -> (res: bool)
        requires
            old(self).well_formed(),
        ensures
            final(self).well_formed(),
            res == old(self)@.dom().contains(app),
            final(self)@.dom() == old(self)@.dom(),
            forall|key: AppKey|
                old(self)@.dom().contains(key) && key != app ==> #[trigger] final(self)@[key]
                    == old(self)@[key],
            res ==> final(self)@[app].name() == old(self)@[app].name(),
            res ==> exists|driver: &mut D|
                *driver == old(self)@[app] && *final(driver) == final(self)@[app]
                    && #[trigger] call_ensures(D::deliver, (driver, message), ()),
    {
        broadcast use vstd::std_specs::hash::group_hash_axioms;

        match self.apps.remove(&app) {
            Some(mut driver) => {
                assert(old(self)@[app].runs());
                driver.deliver(message);
                self.apps.insert(app, driver);
                assert(self@.dom() =~= old(self)@.dom());
                assert forall|key: AppKey| self@.dom().contains(key) implies (
                #[trigger] self@[key]).runs() by {
                    assert(old(self)@[key].runs());
                }
                true
            },
            None => {
                assert(old(self)@.remove(app) =~= old(self)@);
                false
            },
        }
    }

    /// Takes over a task of an app. A task of an app that was stopped in the meantime is given back,
    /// to be stopped.
    pub fn add_abortable(&mut self, app: AppKey, task: D::Task) -> (res: Option<D::Task>)
        requires
            old(self).well_formed(),
        ensures
            final(self).well_formed(),
            res == if old(self)@.dom().contains(app) {
                None
            } else {
                Some(task)
            },
            final(self)@.dom() == old(self)@.dom(),
            forall|key: AppKey|
                old(self)@.dom().contains(key) && key != app ==> #[trigger] final(self)@[key]
                    == old(self)@[key],
            res is None ==> {
                &&& D::adopted(old(self)@[app], task, final(self)@[app])
                &&& final(self)@[app].name() == old(self)@[app].name()
            },
    {
        broadcast use vstd::std_specs::hash::group_hash_axioms;

        match self.apps.remove(&app) {
            Some(mut driver) => {
                assert(old(self)@[app].runs());
                driver.adopt(task);
                self.apps.insert(app, driver);
                assert(self@.dom() =~= old(self)@.dom());
                assert forall|key: AppKey| self@.dom().contains(key) implies (
                #[trigger] self@[key]).runs() by {
                    assert(old(self)@[key].runs());
                }
                None
            },
            None => {
                assert(old(self)@.remove(app) =~= old(self)@);
                Some(task)
            },
        }
    }

    /// Whether an app of that name runs.
    pub fn is_app_running(&self, app_name: AppName) -> (res: bool)
        ensures
            res == runs_named(self@, app_name),
    {
        broadcast use vstd::std_specs::hash::group_hash_axioms;

        let ghost drivers = vstd::std_specs::iter::IteratorSpec::remaining(
            &vstd::std_specs::hash::spec_values_iter(&self.apps),
        );
        let mut found = false;
        for driver in it: self.apps.values()
            invariant
                it.seq() == drivers,
                found == exists|i: int|
                    0 <= i < it.index() && (#[trigger] drivers[i]).name() == app_name,
        {
            let ghost n = it.index() as int;
            assert(driver == drivers[n]);
            if driver.name_of_app() == app_name {
                assert(drivers[n].name() == app_name);
                found = true;
            }
        }
        proof {
            assert(drivers.unref().to_set() == self@.values());
            if found {
                let i = choose|i: int|
                    0 <= i < drivers.len() && (#[trigger] drivers[i]).name() == app_name;
                assert(drivers.unref()[i] == *drivers[i]);
                assert(self@.values().contains(*drivers[i]));
            }
            if runs_named(self@, app_name) {
                let key = choose|key: AppKey|
                    self@.dom().contains(key) && (#[trigger] self@[key]).name() == app_name;
                assert(self@.values().contains(self@[key]));
                assert(drivers.unref().contains(self@[key]));
                let i = choose|i: int|
                    0 <= i < drivers.unref().len() && drivers.unref()[i] == self@[key];
                assert(*drivers[i] == self@[key]);
            }
        }
        found
    }
}

/// An app that was spawned runs.
pub proof fn law_spawned_app_runs<D: Driver>(apps: Map<AppKey, D>, key: AppKey, driver: D)
    ensures
        runs_named(apps.insert(key, driver), driver.name()),
{
    let after = apps.insert(key, driver);
    assert(after.dom().contains(key) && after[key].name() == driver.name());
}

/// Once the last app of a name was stopped, none of that name runs.
pub proof fn law_stopped_app_is_gone<D: Driver>(apps: Map<AppKey, D>, key: AppKey)
    requires
        apps.dom().contains(key),
        forall|other: AppKey|
            apps.dom().contains(other) && other != key ==> (#[trigger] apps[other]).name()
                != apps[key].name(),
    ensures
        !apps.remove(key).dom().contains(key),
        !runs_named(apps.remove(key), apps[key].name()),
{
    let after = apps.remove(key);
    assert forall|other: AppKey| after.dom().contains(other) implies (
    #[trigger] after[other]).name() != apps[key].name() by {
        assert(apps[other].name() != apps[key].name());
    }
}

/// What is done with one app leaves the others running.
pub proof fn law_stopping_spares_others<D: Driver>(
    apps: Map<AppKey, D>,
    key: AppKey,
    other: AppKey,
)
    requires
        other != key,
        apps.dom().contains(other),
    ensures
        apps.remove(key).dom().contains(other),
        apps.remove(key)[other] == apps[other],
        runs_named(apps.remove(key), apps[other].name()),
{
    let after = apps.remove(key);
    assert(after.dom().contains(other) && after[other].name() == apps[other].name());
}

} // verus!
