//! The driver of apps and surfaces: which app has made which surface, and what every event does
//! to them.
//!
//! The driver decides; what reaches the compositor, the GPU or an app is an [`Action`], in the
//! order in which it is to be carried out. A paint that fails ends the list.

pub use crate::app::AppKey;
use crate::sequences::{
    first, is_first, lemma_filter_mapped, lemma_filter_next, lemma_first, lemma_first_is, position, retain,
};
use crate::surface_ids::{listed, SurfaceIds};
use crate::windowing::client::{RepeatInfo, SurfaceEvent};
use crate::windowing::surface::{
    Event, Key, PointerEvent, PointerEventKind, ScaleFactor, Surface, SurfaceConfiguration,
    SurfaceId, SurfaceView, ViewportId, ROOT_VIEWPORT,
};
use vstd::prelude::*;

verus! {

/// A surface, and the viewport of its app that it shows.
#[derive(Debug, Clone, Copy, PartialEq, Eq, Structural)]
pub struct FullSurfaceId {
    pub surface_id: SurfaceId,
    pub viewport_id: ViewportId,
}

/// An app that is driven.
pub struct AppDriver {
    pub key: AppKey,
    pub app_type: String,
    /// How many passes the user interface of the app has completed.
    pub cumulative_pass_nr: u64,
}

/// The driver of an app that was not rendered yet.
pub fn create_app_driver(key: AppKey, app_type: String) -> (res: AppDriver)
    ensures
        res == (AppDriver { key, app_type, cumulative_pass_nr: 0 }),
{
    AppDriver { key, app_type, cumulative_pass_nr: 0 }
}

/// What an app is told of its surfaces.
#[derive(Debug, Clone, Copy, PartialEq, Eq, Structural)]
pub enum AppSurfaceEvent {
    KeyboardEnter(ViewportId),
    KeyboardLeave(ViewportId),
    PointerEnter(ViewportId),
    PointerLeave(ViewportId),
}

/// A key that is held and repeats.
pub struct Repeat {
    pub surface: SurfaceId,
    pub text: Option<String>,
    pub key: Option<Key>,
    pub rate: u32,
    pub delay: u32,
}

/// What is to be done outside the driver.
pub enum Action {
    /// Ask the user interface of an app to repaint a viewport.
    RequestRepaint { app: AppKey, viewport: ViewportId },
    /// Render the app on the surface.
    Paint { app: AppKey, surface: SurfaceId },
    /// Hand an event to the app.
    SurfaceEvent { app: AppKey, event: AppSurfaceEvent },
    /// Configure the GPU surface and the viewport.
    ConfigureSurface { surface: SurfaceId, configuration: SurfaceConfiguration },
    /// Zoom the user interface of the app.
    SetZoomFactor { app: AppKey, scale: ScaleFactor },
    /// Stop the task that repeats a key.
    AbortRepeat,
    /// Start a task that repeats a key.
    StartRepeat(Repeat),
    /// Hand the message at hand to the app.
    DeliverMessage { app: AppKey },
    /// Destroy the surface.
    DestroySurface { surface: SurfaceId },
    /// Drop the app.
    DropApp { app: AppKey },
    /// Answer the query at hand.
    Answer(bool),
}

#[derive(Debug, Clone, Copy, PartialEq, Eq, Structural)]
pub enum DriverError {
    NoSuchSurface,
    NoSuchApp,
    SurfaceNotCreated,
}

pub struct AppSurfaceDriver {
    apps: Vec<AppDriver>,
    app_surface_map: Vec<(FullSurfaceId, AppKey)>,
    surfaces: Vec<Surface>,
    repeat: Option<Repeat>,
    repeat_info: Option<RepeatInfo>,
}

/// What an [`AppSurfaceDriver`] holds.
#[verifier::ext_equal]
pub struct DriverView {
    pub apps: Seq<AppDriver>,
    pub app_surface_map: Seq<(FullSurfaceId, AppKey)>,
    pub surfaces: Seq<SurfaceView>,
    pub repeat: Option<Repeat>,
    pub repeat_info: Option<RepeatInfo>,
}

/// What an event leads to.
#[verifier::ext_equal]
pub struct Outcome {
    pub state: DriverView,
    pub actions: Seq<Action>,
    pub result: Result<(), DriverError>,
}

/// What is to be done after an event, and whether it could be handled.
pub struct Handled {
    pub actions: Vec<Action>,
    pub result: Result<(), DriverError>,
}

pub open spec fn is_surface(id: SurfaceId) -> spec_fn(SurfaceView) -> bool {
    |s: SurfaceView| s.surface_id == id
}

pub open spec fn maps_surface(id: SurfaceId) -> spec_fn((FullSurfaceId, AppKey)) -> bool {
    |e: (FullSurfaceId, AppKey)| e.0.surface_id == id
}

pub open spec fn maps_viewport(key: AppKey, viewport: ViewportId) -> spec_fn(
    (FullSurfaceId, AppKey),
) -> bool {
    |e: (FullSurfaceId, AppKey)| e.1 == key && e.0.viewport_id == viewport
}

pub open spec fn is_app(key: AppKey) -> spec_fn(AppDriver) -> bool {
    |a: AppDriver| a.key == key
}

pub open spec fn is_other_app(key: AppKey) -> spec_fn(AppDriver) -> bool {
    |a: AppDriver| a.key != key
}

pub open spec fn maps_other_app(key: AppKey) -> spec_fn((FullSurfaceId, AppKey)) -> bool {
    |e: (FullSurfaceId, AppKey)| e.1 != key
}

impl DriverView {
    /// Nothing runs.
    pub open spec fn empty() -> DriverView {
        DriverView {
            apps: Seq::empty(),
            app_surface_map: Seq::empty(),
            surfaces: Seq::empty(),
            repeat: None,
            repeat_info: None,
        }
    }

    /// The place of a surface among the surfaces.
    pub open spec fn surface_at(self, id: SurfaceId) -> Option<int> {
        first(self.surfaces, is_surface(id))
    }

    /// The places of a surface among the surfaces and of its app among the apps.
    pub open spec fn located(self, id: SurfaceId) -> Result<(int, int), DriverError> {
        match self.surface_at(id) {
            None => Err(DriverError::NoSuchSurface),
            Some(i) => match first(self.app_surface_map, maps_surface(id)) {
                None => Err(DriverError::NoSuchApp),
                Some(j) => match first(self.apps, is_app(self.app_surface_map[j].1)) {
                    None => Err(DriverError::NoSuchApp),
                    Some(k) => Ok((i, k)),
                },
            },
        }
    }

    /// The first surface that an app has for a viewport.
    pub open spec fn surface_of_viewport(self, key: AppKey, viewport: ViewportId) -> Option<
        SurfaceId,
    > {
        match first(self.app_surface_map, maps_viewport(key, viewport)) {
            Some(j) => Some(self.app_surface_map[j].0.surface_id),
            None => None,
        }
    }

    /// One of the surfaces of the app.
    pub open spec fn owns(self, key: AppKey, id: SurfaceId) -> bool {
        exists|j: int|
            0 <= j < self.app_surface_map.len() && (#[trigger] self.app_surface_map[j]).1 == key
                && self.app_surface_map[j].0.surface_id == id
    }

    pub open spec fn owned(self, key: AppKey) -> spec_fn(SurfaceView) -> bool {
        |s: SurfaceView| self.owns(key, s.surface_id)
    }

    pub open spec fn not_owned(self, key: AppKey) -> spec_fn(SurfaceView) -> bool {
        |s: SurfaceView| !self.owns(key, s.surface_id)
    }

    /// Nothing changes, and nothing is done.
    pub open spec fn refused(self, error: DriverError) -> Outcome {
        Outcome { state: self, actions: Seq::empty(), result: Err(error) }
    }

    pub open spec fn done(self, actions: Seq<Action>) -> Outcome {
        Outcome { state: self, actions, result: Ok(()) }
    }

    pub open spec fn with_surface(self, i: int, surface: SurfaceView) -> DriverView {
        DriverView { surfaces: self.surfaces.update(i, surface), ..self }
    }

    /// Changes a surface.
    pub open spec fn on_surface(
        self,
        id: SurfaceId,
        change: spec_fn(SurfaceView) -> SurfaceView,
    ) -> Outcome {
        match self.surface_at(id) {
            None => self.refused(DriverError::NoSuchSurface),
            Some(i) => self.with_surface(i, change(self.surfaces[i])).done(Seq::empty()),
        }
    }

    /// Changes a surface; `actions` says what follows for its app.
    pub open spec fn on_app_surface(
        self,
        id: SurfaceId,
        change: spec_fn(SurfaceView) -> SurfaceView,
        actions: spec_fn(AppDriver, SurfaceView) -> Seq<Action>,
    ) -> Outcome {
        match self.located(id) {
            Err(e) => self.refused(e),
            Ok((i, k)) => {
                let surface = change(self.surfaces[i]);
                self.with_surface(i, surface).done(actions(self.apps[k], surface))
            },
        }
    }

    /// Paints a surface. A request that was made after some passes is left out where the app has
    /// completed more of them since.
    pub open spec fn painted(self, id: SurfaceId, pass_nr: Option<u64>) -> Outcome {
        match self.located(id) {
            Err(e) => self.refused(e),
            Ok((i, k)) => self.done(
                if pass_nr is Some && pass_nr->0 < self.apps[k].cumulative_pass_nr {
                    Seq::empty()
                } else {
                    seq![Action::Paint { app: self.apps[k].key, surface: id }]
                },
            ),
        }
    }

    /// An app has completed some passes; nothing changes where there is no such app.
    pub open spec fn passes_counted(self, key: AppKey, cumulative_pass_nr: u64) -> DriverView {
        match first(self.apps, is_app(key)) {
            Some(k) => DriverView {
                apps: self.apps.update(k, AppDriver { cumulative_pass_nr, ..self.apps[k] }),
                ..self
            },
            None => self,
        }
    }

    /// A repaint is asked for each of the surfaces, in order, up to the first that has no app.
    pub open spec fn repaints_requested(self, ids: Seq<SurfaceId>) -> Outcome
        decreases ids.len(),
    {
        if ids.len() == 0 {
            self.done(Seq::empty())
        } else {
            let before = self.repaints_requested(ids.drop_last());
            if before.result is Err {
                before
            } else {
                match self.located(ids.last()) {
                    Err(e) => Outcome { result: Err(e), ..before },
                    Ok((i, k)) => Outcome {
                        actions: before.actions.push(
                            Action::RequestRepaint {
                                app: self.apps[k].key,
                                viewport: self.surfaces[i].viewport_id,
                            },
                        ),
                        ..before
                    },
                }
            }
        }
    }

    /// The surfaces with events that wait.
    pub open spec fn with_events(self) -> Seq<SurfaceId> {
        self.surfaces.filter(|s: SurfaceView| s.events.len() > 0).map_values(
            |s: SurfaceView| s.surface_id,
        )
    }

    /// No key repeats.
    pub open spec fn repeat_cancelled(self) -> DriverView {
        DriverView { repeat: None, ..self }
    }

    /// What stops the key that repeats, if one does.
    pub open spec fn cancelling(self) -> Seq<Action> {
        if self.repeat is Some {
            seq![Action::AbortRepeat]
        } else {
            Seq::empty()
        }
    }

    /// What an event of the compositor, or one that was sent on its account, leads to.
    pub open spec fn handled(self, event: SurfaceEvent) -> Outcome {
        match event {
            SurfaceEvent::UpdateAllWithEvents => self.repaints_requested(self.with_events()),
            SurfaceEvent::NeedsRepaintSurface(id) => self.painted(id, None),
            SurfaceEvent::NeedsRepaintViewport(key, viewport, pass_nr) => match self.surface_of_viewport(
            key, viewport) {
                None => self.refused(DriverError::NoSuchSurface),
                Some(id) => self.painted(id, Some(pass_nr)),
            },
            SurfaceEvent::Closed(id) => self.on_surface(
                id,
                |s: SurfaceView| SurfaceView { exit: true, ..s },
            ),
            SurfaceEvent::Configure(id, new_size) => match self.surface_at(id) {
                None => self.refused(DriverError::NoSuchSurface),
                Some(i) => {
                    let surface = self.surfaces[i].resized(new_size.0, new_size.1);
                    let painted = self.with_surface(i, surface).painted(id, None);
                    Outcome {
                        actions: seq![
                            Action::ConfigureSurface {
                                surface: id,
                                configuration: surface.configuration(),
                            },
                        ] + painted.actions,
                        ..painted
                    }
                },
            },
            SurfaceEvent::KeyboardFocus(id, focus) => self.on_app_surface(
                id,
                |s: SurfaceView| s.focus_changed(focus),
                |a: AppDriver, s: SurfaceView|
                    seq![
                        Action::SurfaceEvent {
                            app: a.key,
                            event: if focus {
                                AppSurfaceEvent::KeyboardEnter(s.viewport_id)
                            } else {
                                AppSurfaceEvent::KeyboardLeave(s.viewport_id)
                            },
                        },
                    ],
            ),
            SurfaceEvent::PressKey(id, text, key) => if text is None && key is None {
                self.done(Seq::empty())
            } else {
                let (state, actions) = self.repeat_started(id, text, key);
                let pressed = state.on_surface(id, |s: SurfaceView| typed(s, text, key, false));
                Outcome { actions: actions + pressed.actions, ..pressed }
            },
            SurfaceEvent::RepeatKey(id, text, key) => self.on_app_surface(
                id,
                |s: SurfaceView| typed(s, text, key, true),
                |a: AppDriver, s: SurfaceView|
                    seq![Action::RequestRepaint { app: a.key, viewport: s.viewport_id }],
            ),
            SurfaceEvent::ReleaseKey(id, key) => match key {
                None => self.repeat_cancelled().done(self.cancelling()),
                Some(k) => {
                    let released = self.repeat_cancelled().on_surface(
                        id,
                        |s: SurfaceView| s.with_event(s.key_event(k, false, false)),
                    );
                    Outcome { actions: self.cancelling() + released.actions, ..released }
                },
            },
            SurfaceEvent::UpdateModifiers(id, modifiers) => self.on_surface(
                id,
                |s: SurfaceView| SurfaceView { modifiers, ..s },
            ),
            SurfaceEvent::Pointer(id, pointer) => self.on_app_surface(
                id,
                |s: SurfaceView| s.with_event(s.pointer_event(pointer)),
                |a: AppDriver, s: SurfaceView|
                    match pointer.kind {
                        PointerEventKind::Enter => seq![
                            Action::SurfaceEvent {
                                app: a.key,
                                event: AppSurfaceEvent::PointerEnter(s.viewport_id),
                            },
                        ],
                        PointerEventKind::Leave => seq![
                            Action::SurfaceEvent {
                                app: a.key,
                                event: AppSurfaceEvent::PointerLeave(s.viewport_id),
                            },
                        ],
                        _ => Seq::empty(),
                    },
            ),
            SurfaceEvent::UpdateRepeatInfo(info) => DriverView {
                repeat_info: Some(info),
                ..self
            }.done(Seq::empty()),
            SurfaceEvent::Scale(id, scale) => self.on_app_surface(
                id,
                |s: SurfaceView| s.rescaled(scale),
                |a: AppDriver, s: SurfaceView|
                    seq![
                        Action::SetZoomFactor { app: a.key, scale },
                        Action::ConfigureSurface { surface: id, configuration: s.configuration() },
                    ],
            ),
        }
    }

    /// A new app with its first surface.
    pub open spec fn app_added(self, app: AppDriver, surface: SurfaceView) -> DriverView {
        DriverView {
            surfaces: self.surfaces.push(surface),
            app_surface_map: self.app_surface_map.push(
                (
                    FullSurfaceId {
                        surface_id: surface.surface_id,
                        viewport_id: ViewportId(ROOT_VIEWPORT),
                    },
                    app.key,
                ),
            ),
            apps: self.apps.push(app),
            ..self
        }
    }

    /// An app is gone, with all its surfaces and with the key that repeats, whichever it is.
    pub open spec fn app_removed(self, key: AppKey) -> DriverView {
        DriverView {
            apps: self.apps.filter(is_other_app(key)),
            app_surface_map: self.app_surface_map.filter(maps_other_app(key)),
            surfaces: self.surfaces.filter(self.not_owned(key)),
            repeat: None,
            ..self
        }
    }

    /// What removes an app: its surfaces and its drivers go, and the key that repeats stops.
    pub open spec fn removing(self, key: AppKey) -> Seq<Action> {
        self.surfaces.filter(self.owned(key)).map_values(
            |s: SurfaceView| Action::DestroySurface { surface: s.surface_id },
        ) + self.apps.filter(is_app(key)).map_values(
            |a: AppDriver| Action::DropApp { app: a.key },
        ) + self.cancelling()
    }

    /// A message for an app is delivered, and then each of its surfaces is painted.
    pub open spec fn message_delivered(self, key: AppKey) -> Outcome {
        if first(self.apps, is_app(key)) is None {
            self.refused(DriverError::NoSuchApp)
        } else {
            self.done(
                seq![Action::DeliverMessage { app: key }] + self.surfaces.filter(self.owned(key)).map_values(|s: SurfaceView| Action::Paint { app: key, surface: s.surface_id }),
            )
        }
    }

    /// An app of the given type runs.
    pub open spec fn runs(self, app_type: Seq<char>) -> bool {
        exists|k: int| 0 <= k < self.apps.len() && (#[trigger] self.apps[k]).app_type@ == app_type
    }

    /// What an event of an app leads to.
    pub open spec fn app_event_handled(self, event: AppEvent) -> Outcome {
        match event {
            AppEvent::NewApp { app_driver, initial_surface } => match initial_surface {
                Some(surface) => self.app_added(app_driver, surface@).done(Seq::empty()),
                None => self.refused(DriverError::SurfaceNotCreated),
            },
            AppEvent::DestroyApp { app_key } => self.app_removed(app_key).done(
                self.removing(app_key),
            ),
            AppEvent::AppMessage { app_key } => self.message_delivered(app_key),
            AppEvent::AppExistsQuery { app_type_id } => self.done(
                seq![Action::Answer(self.runs(app_type_id@))],
            ),
        }
    }

    /// A key that is pressed starts to repeat where the keyboard repeats keys; the one that
    /// repeated before no longer does.
    pub open spec fn repeat_started(
        self,
        id: SurfaceId,
        text: Option<String>,
        key: Option<Key>,
    ) -> (DriverView, Seq<Action>) {
        match self.repeat_info {
            Some(RepeatInfo::Repeat { rate, delay }) => {
                let repeat = Repeat { surface: id, text, key, rate, delay };
                (
                    DriverView { repeat: Some(repeat), ..self },
                    self.cancelling().push(Action::StartRepeat(repeat)),
                )
            },
            _ => (self, Seq::empty()),
        }
    }
}

/// The surface after a key was pressed, or repeated: first comes its text, then the key itself.
pub open spec fn typed(s: SurfaceView, text: Option<String>, key: Option<Key>, repeat: bool) -> SurfaceView {
    let with_text = match text {
        Some(t) => s.with_event(Event::Text(t)),
        None => s,
    };
    match key {
        Some(k) => with_text.with_event(s.key_event(k, true, repeat)),
        None => with_text,
    }
}

impl View for AppSurfaceDriver {
    type V = DriverView;

    closed spec fn view(&self) -> DriverView {
        DriverView {
            apps: self.apps@,
            app_surface_map: self.app_surface_map@,
            surfaces: self.surfaces@.map_values(|s: Surface| s@),
            repeat: self.repeat,
            repeat_info: self.repeat_info,
        }
    }
}

fn clone_text(text: &Option<String>) -> (res: Option<String>)
    ensures
        res == *text,
{
    match text {
        Some(t) => Some(t.clone()),
        None => None,
    }
}

fn type_key(surface: &mut Surface, text: Option<String>, key: Option<Key>, repeat: bool)
    ensures
        final(surface)@ == typed(old(surface)@, text, key, repeat),
{
    if let Some(t) = text {
        surface.push_event(Event::Text(t));
    }
    if let Some(k) = key {
        surface.on_key(k, true, repeat);
    }
}

impl AppSurfaceDriver {
    pub fn create() -> (res: Self)
        ensures
            res@ == DriverView::empty(),
    {
        AppSurfaceDriver {
            apps: Vec::new(),
            app_surface_map: Vec::new(),
            surfaces: Vec::new(),
            repeat: None,
            repeat_info: None,
        }
    }

    fn surface_by_id(&self, id: SurfaceId) -> (res: Option<usize>)
        ensures
            match res {
                Some(i) => self@.surface_at(id) == Some(i as int) && i < self.surfaces@.len(),
                None => self@.surface_at(id) is None,
            },
    {
        let ghost p = |s: Surface| s@.surface_id == id;
        let test = |s: &Surface| -> (b: bool) ensures b == (s@.surface_id == id), { s.surface_id() == id };
        let res = position(&self.surfaces, test, Ghost(p));
        proof {
            lemma_first(self.surfaces@, p);
            lemma_first(self@.surfaces, is_surface(id));
            match res {
                Some(i) => {
                    assert(is_first(self@.surfaces, is_surface(id), i as int)) by {
                        assert forall|j: int| 0 <= j < i implies !is_surface(id)(
                            #[trigger] self@.surfaces[j],
                        ) by {
                            assert(!p(self.surfaces@[j]));
                        }
                    }
                    lemma_first_is(self@.surfaces, is_surface(id), i as int);
                },
                None => {
                    if let Some(i) = first(self@.surfaces, is_surface(id)) {
                        assert(p(self.surfaces@[i]));
                    }
                },
            }
        }
        res
    }

    fn app_by_key(&self, key: AppKey) -> (res: Option<usize>)
        ensures
            match res {
                Some(k) => first(self@.apps, is_app(key)) == Some(k as int) && k
                    < self.apps@.len() && self.apps@[k as int].key == key,
                None => first(self@.apps, is_app(key)) is None,
            },
    {
        let test = |a: &AppDriver| -> (b: bool) ensures b == (a.key == key), { a.key == key };
        position(&self.apps, test, Ghost(is_app(key)))
    }

    /// The places of a surface and of its app.
    fn locate(&self, id: SurfaceId) -> (res: Result<(usize, usize), DriverError>)
        ensures
            match res {
                Ok((i, k)) => self@.located(id) == Ok::<(int, int), DriverError>((i as int, k as int)) && i
                    < self.surfaces@.len() && k < self.apps@.len() && self@.surface_at(id) == Some(i as int),
                Err(e) => self@.located(id) == Err::<(int, int), DriverError>(e),
            },
    {
        let i: usize = match self.surface_by_id(id) {
            Some(i) => i,
            None => {
                return Err(DriverError::NoSuchSurface);
            },
        };
        let test = |e: &(FullSurfaceId, AppKey)| -> (b: bool) ensures b == (e.0.surface_id == id), { e.0.surface_id == id };
        let entry = position(&self.app_surface_map, test, Ghost(maps_surface(id)));
        let j: usize = match entry {
            Some(j) => j,
            None => {
                return Err(DriverError::NoSuchApp);
            },
        };
        match self.app_by_key(self.app_surface_map[j].1) {
            Some(k) => Ok((i, k)),
            None => Err(DriverError::NoSuchApp),
        }
    }

    fn surface_id_by_viewport_id(&self, key: AppKey, viewport: ViewportId) -> (res: Option<
        SurfaceId,
    >)
        ensures
            res == self@.surface_of_viewport(key, viewport),
    {
        let test = |e: &(FullSurfaceId, AppKey)| -> (b: bool) ensures b == (e.1 == key && e.0.viewport_id == viewport), { e.1 == key && e.0.viewport_id == viewport };
        let entry = position(&self.app_surface_map, test, Ghost(maps_viewport(key, viewport)));
        match entry {
            Some(j) => Some(self.app_surface_map[j].0.surface_id),
            None => None,
        }
    }

    /// Paints a surface, unless the app has completed more passes than there were when it was asked
    /// for.
    pub fn paint(&self, id: SurfaceId, pass_nr: Option<u64>) -> (res: Handled)
        ensures
            self@.painted(id, pass_nr) == (Outcome {
                state: self@,
                actions: res.actions@,
                result: res.result,
            }),
    {
        match self.locate(id) {
            Err(e) => Handled { actions: Vec::new(), result: Err(e) },
            Ok((_, k)) => {
                let mut actions: Vec<Action> = Vec::new();
                let completed: u64 = self.apps[k].cumulative_pass_nr;
                let skip = match pass_nr {
                    Some(pass) => pass < completed,
                    None => false,
                };
                if !skip {
                    actions.push(Action::Paint { app: self.apps[k].key, surface: id });
                }
                Handled { actions, result: Ok(()) }
            },
        }
    }

    /// Asks for a repaint of every surface with events that wait.
    fn update_all_with_events(&self) -> (res: Handled)
        ensures
            self@.handled(SurfaceEvent::UpdateAllWithEvents).state == self@,
            res.actions@ == self@.handled(SurfaceEvent::UpdateAllWithEvents).actions,
            res.result == self@.handled(SurfaceEvent::UpdateAllWithEvents).result,
    {
        let ghost waits = |s: SurfaceView| s.events.len() > 0;
        let ghost id_of = |s: SurfaceView| s.surface_id;
        let mut ids: Vec<SurfaceId> = Vec::new();
        let mut i: usize = 0;
        while i < self.surfaces.len()
            invariant
                i <= self.surfaces.len(),
                waits == (|s: SurfaceView| s.events.len() > 0),
                id_of == (|s: SurfaceView| s.surface_id),
                ids@ == self@.surfaces.take(i as int).filter(waits).map_values(id_of),
            decreases self.surfaces.len() - i,
        {
            proof {
                lemma_filter_next(self@.surfaces, waits, i as int);
            }
            if self.surfaces[i].has_events() {
                ids.push(self.surfaces[i].surface_id());
            }
            i += 1;
            assert(ids@ =~= self@.surfaces.take(i as int).filter(waits).map_values(id_of));
        }
        assert(self@.surfaces.take(i as int) =~= self@.surfaces);
        let mut actions: Vec<Action> = Vec::new();
        let mut n: usize = 0;
        while n < ids.len()
            invariant
                n <= ids.len(),
                ids@ == self@.with_events(),
                self@.repaints_requested(ids@.take(n as int)) == self@.done(actions@),
            decreases ids.len() - n,
        {
            let ghost requested = actions@;
            proof {
                assert(ids@.take(n + 1).drop_last() == ids@.take(n as int));
            }
            match self.locate(ids[n]) {
                Err(e) => {
                    proof {
                        lemma_requests_stop(self@, ids@, n + 1);
                    }
                    return Handled { actions, result: Err(e) };
                },
                Ok((i, k)) => {
                    actions.push(
                        Action::RequestRepaint {
                            app: self.apps[k].key,
                            viewport: self.surfaces[i].viewport_id(),
                        },
                    );
                },
            }
            n += 1;
        }
        assert(ids@.take(n as int) == ids@);
        Handled { actions, result: Ok(()) }
    }

    fn cancel_repetition_task(&mut self, actions: &mut Vec<Action>)
        ensures
            final(self)@ == old(self)@.repeat_cancelled(),
            final(actions)@ == old(actions)@ + old(self)@.cancelling(),
    {
        if self.repeat.is_some() {
            self.repeat = None;
            actions.push(Action::AbortRepeat);
        }
    }

    fn configure(&mut self, id: SurfaceId, width: u32, height: u32) -> (res: Handled)
        ensures
            final(self)@ == old(self)@.handled(SurfaceEvent::Configure(id, (width, height))).state,
            res.actions@ == old(self)@.handled(SurfaceEvent::Configure(id, (width, height))).actions,
            res.result == old(self)@.handled(SurfaceEvent::Configure(id, (width, height))).result,
    {
        let mut actions: Vec<Action> = Vec::new();
        match self.surface_by_id(id) {
            None => Handled { actions, result: Err(DriverError::NoSuchSurface) },
            Some(i) => {
                let configuration = self.surfaces[i].set_unscaled_size(width, height);
                actions.push(Action::ConfigureSurface { surface: id, configuration });
                let mut painted = self.paint(id, None);
                actions.append(&mut painted.actions);
                Handled { actions, result: painted.result }
            },
        }
    }

    fn keyboard_focus(&mut self, id: SurfaceId, focus: bool) -> (res: Handled)
        ensures
            final(self)@ == old(self)@.handled(SurfaceEvent::KeyboardFocus(id, focus)).state,
            res.actions@ == old(self)@.handled(SurfaceEvent::KeyboardFocus(id, focus)).actions,
            res.result == old(self)@.handled(SurfaceEvent::KeyboardFocus(id, focus)).result,
    {
        let mut actions: Vec<Action> = Vec::new();
        match self.locate(id) {
            Err(e) => Handled { actions, result: Err(e) },
            Ok((i, k)) => {
                self.surfaces[i].on_focus(focus);
                let viewport = self.surfaces[i].viewport_id();
                let event = if focus {
                    AppSurfaceEvent::KeyboardEnter(viewport)
                } else {
                    AppSurfaceEvent::KeyboardLeave(viewport)
                };
                actions.push(Action::SurfaceEvent { app: self.apps[k].key, event });
                Handled { actions, result: Ok(()) }
            },
        }
    }

    fn press_key(&mut self, id: SurfaceId, text: Option<String>, key: Option<Key>) -> (res: Handled)
        ensures
            final(self)@ == old(self)@.handled(SurfaceEvent::PressKey(id, text, key)).state,
            res.actions@ == old(self)@.handled(SurfaceEvent::PressKey(id, text, key)).actions,
            res.result == old(self)@.handled(SurfaceEvent::PressKey(id, text, key)).result,
    {
        let mut actions: Vec<Action> = Vec::new();
        if text.is_none() && key.is_none() {
            return Handled { actions, result: Ok(()) };
        }
        if let Some(RepeatInfo::Repeat { rate, delay }) = self.repeat_info {
            self.cancel_repetition_task(&mut actions);
            let kept = Repeat { surface: id, text: clone_text(&text), key, rate, delay };
            let started = Repeat { surface: id, text: clone_text(&text), key, rate, delay };
            self.repeat = Some(kept);
            actions.push(Action::StartRepeat(started));
        }
        match self.surface_by_id(id) {
            None => Handled { actions, result: Err(DriverError::NoSuchSurface) },
            Some(i) => {
                type_key(&mut self.surfaces[i], text, key, false);
                Handled { actions, result: Ok(()) }
            },
        }
    }

    fn repeat_key(&mut self, id: SurfaceId, text: Option<String>, key: Option<Key>) -> (res: Handled)
        ensures
            final(self)@ == old(self)@.handled(SurfaceEvent::RepeatKey(id, text, key)).state,
            res.actions@ == old(self)@.handled(SurfaceEvent::RepeatKey(id, text, key)).actions,
            res.result == old(self)@.handled(SurfaceEvent::RepeatKey(id, text, key)).result,
    {
        let mut actions: Vec<Action> = Vec::new();
        match self.locate(id) {
            Err(e) => Handled { actions, result: Err(e) },
            Ok((i, k)) => {
                type_key(&mut self.surfaces[i], text, key, true);
                let viewport = self.surfaces[i].viewport_id();
                actions.push(
                    Action::RequestRepaint { app: self.apps[k].key, viewport },
                );
                Handled { actions, result: Ok(()) }
            },
        }
    }

    fn release_key(&mut self, id: SurfaceId, key: Option<Key>) -> (res: Handled)
        ensures
            final(self)@ == old(self)@.handled(SurfaceEvent::ReleaseKey(id, key)).state,
            res.actions@ == old(self)@.handled(SurfaceEvent::ReleaseKey(id, key)).actions,
            res.result == old(self)@.handled(SurfaceEvent::ReleaseKey(id, key)).result,
    {
        let mut actions: Vec<Action> = Vec::new();
        self.cancel_repetition_task(&mut actions);
        match key {
            None => Handled { actions, result: Ok(()) },
            Some(k) => {
                match self.surface_by_id(id) {
                    None => Handled { actions, result: Err(DriverError::NoSuchSurface) },
                    Some(i) => {
                        self.surfaces[i].on_key(k, false, false);
                        Handled { actions, result: Ok(()) }
                    },
                }
            },
        }
    }

    fn pointer(&mut self, id: SurfaceId, pointer: PointerEvent) -> (res: Handled)
        ensures
            final(self)@ == old(self)@.handled(SurfaceEvent::Pointer(id, pointer)).state,
            res.actions@ == old(self)@.handled(SurfaceEvent::Pointer(id, pointer)).actions,
            res.result == old(self)@.handled(SurfaceEvent::Pointer(id, pointer)).result,
    {
        let mut actions: Vec<Action> = Vec::new();
        match self.locate(id) {
            Err(e) => Handled { actions, result: Err(e) },
            Ok((i, k)) => {
                self.surfaces[i].handle_pointer_event(&pointer);
                let viewport = self.surfaces[i].viewport_id();
                let app = self.apps[k].key;
                match pointer.kind {
                    PointerEventKind::Enter => {
                        let event = AppSurfaceEvent::PointerEnter(viewport);
                        actions.push(Action::SurfaceEvent { app, event });
                    },
                    PointerEventKind::Leave => {
                        let event = AppSurfaceEvent::PointerLeave(viewport);
                        actions.push(Action::SurfaceEvent { app, event });
                    },
                    _ => {},
                }
                Handled { actions, result: Ok(()) }
            },
        }
    }

    fn scale(&mut self, id: SurfaceId, scale: ScaleFactor) -> (res: Handled)
        ensures
            final(self)@ == old(self)@.handled(SurfaceEvent::Scale(id, scale)).state,
            res.actions@ == old(self)@.handled(SurfaceEvent::Scale(id, scale)).actions,
            res.result == old(self)@.handled(SurfaceEvent::Scale(id, scale)).result,
    {
        let mut actions: Vec<Action> = Vec::new();
        match self.locate(id) {
            Err(e) => Handled { actions, result: Err(e) },
            Ok((i, k)) => {
                actions.push(Action::SetZoomFactor { app: self.apps[k].key, scale });
                let configuration = self.surfaces[i].set_scale(scale);
                actions.push(Action::ConfigureSurface { surface: id, configuration });
                Handled { actions, result: Ok(()) }
            },
        }
    }

    /// Handles an event, and says what is to be done.
    pub fn handle_event(&mut self, event: SurfaceEvent) -> (res: Handled)
        ensures
            final(self)@ == old(self)@.handled(event).state,
            res.actions@ == old(self)@.handled(event).actions,
            res.result == old(self)@.handled(event).result,
    {
        let actions: Vec<Action> = Vec::new();
        match event {
            SurfaceEvent::UpdateAllWithEvents => self.update_all_with_events(),
            SurfaceEvent::NeedsRepaintSurface(id) => self.paint(id, None),
            SurfaceEvent::NeedsRepaintViewport(key, viewport, pass_nr) => {
                match self.surface_id_by_viewport_id(key, viewport) {
                    None => Handled { actions, result: Err(DriverError::NoSuchSurface) },
                    Some(id) => self.paint(id, Some(pass_nr)),
                }
            },
            SurfaceEvent::Closed(id) => {
                match self.surface_by_id(id) {
                    None => Handled { actions, result: Err(DriverError::NoSuchSurface) },
                    Some(i) => {
                        self.surfaces[i].set_exit();
                        Handled { actions, result: Ok(()) }
                    },
                }
            },
            SurfaceEvent::Configure(id, (width, height)) => self.configure(id, width, height),
            SurfaceEvent::KeyboardFocus(id, focus) => self.keyboard_focus(id, focus),
            SurfaceEvent::PressKey(id, text, key) => self.press_key(id, text, key),
            SurfaceEvent::RepeatKey(id, text, key) => self.repeat_key(id, text, key),
            SurfaceEvent::ReleaseKey(id, key) => self.release_key(id, key),
            SurfaceEvent::UpdateModifiers(id, modifiers) => {
                match self.surface_by_id(id) {
                    None => Handled { actions, result: Err(DriverError::NoSuchSurface) },
                    Some(i) => {
                        self.surfaces[i].set_modifiers(modifiers);
                        Handled { actions, result: Ok(()) }
                    },
                }
            },
            SurfaceEvent::Pointer(id, pointer) => self.pointer(id, pointer),
            SurfaceEvent::UpdateRepeatInfo(info) => {
                self.repeat_info = Some(info);
                Handled { actions, result: Ok(()) }
            },
            SurfaceEvent::Scale(id, scale) => self.scale(id, scale),
        }
    }

    /// Takes note of how many passes the user interface of an app has completed, after it was
    /// painted.
    pub fn rendered(&mut self, app_key: AppKey, cumulative_pass_nr: u64)
        ensures
            final(self)@ == old(self)@.passes_counted(app_key, cumulative_pass_nr),
    {
        if let Some(k) = self.app_by_key(app_key) {
            self.apps[k].cumulative_pass_nr = cumulative_pass_nr;
        }
    }

    /// Adds an app with its first surface, which shows the root of its viewports.
    pub fn add_app(&mut self, app_driver: AppDriver, initial_surface: Surface)
        requires
            initial_surface@.viewport_id == ViewportId(ROOT_VIEWPORT),
        ensures
            final(self)@ == old(self)@.app_added(app_driver, initial_surface@),
    {
        let fid = FullSurfaceId {
            viewport_id: ViewportId(ROOT_VIEWPORT),
            surface_id: initial_surface.surface_id(),
        };
        let app_key = app_driver.key;
        self.surfaces.push(initial_surface);
        self.app_surface_map.push((fid, app_key));
        self.apps.push(app_driver);
        assert(self@.surfaces =~= old(self)@.surfaces.push(initial_surface@));
    }

    /// The surfaces of an app.
    fn surfaces_of(&self, key: AppKey) -> (res: SurfaceIds)
        ensures
            forall|id: SurfaceId| listed(res).contains(id.0) == #[trigger] self@.owns(key, id),
    {
        let mut ids = SurfaceIds::new();
        let mut j: usize = 0;
        while j < self.app_surface_map.len()
            invariant
                j <= self.app_surface_map.len(),
                forall|id: u64| #[trigger] listed(ids).contains(id) <==> exists|i: int|
                    0 <= i < j && (#[trigger] self.app_surface_map@[i]).1 == key
                        && self.app_surface_map@[i].0.surface_id == SurfaceId(id),
            decreases self.app_surface_map.len() - j,
        {
            let (fid, app_key) = self.app_surface_map[j];
            let ghost before = listed(ids);
            if app_key == key {
                ids.push(fid.surface_id);
                proof {
                    assert forall|id: u64| #[trigger] listed(ids).contains(id) <==> (before.contains(
                        id,
                    ) || id == fid.surface_id.0) by {
                        if before.contains(id) {
                            let n = choose|n: int| 0 <= n < before.len() && before[n] == id;
                            assert(listed(ids)[n] == id);
                        }
                        assert(listed(ids)[before.len() as int] == fid.surface_id.0);
                    }
                }
            }
            j += 1;
            proof {
                assert forall|id: u64| #[trigger] listed(ids).contains(id) <==> exists|i: int|
                    0 <= i < j && (#[trigger] self.app_surface_map@[i]).1 == key
                        && self.app_surface_map@[i].0.surface_id == SurfaceId(id) by {
                    assert(self.app_surface_map@[j - 1] == (fid, app_key));
                    if app_key == key && id == fid.surface_id.0 {
                        assert(self.app_surface_map@[j - 1].0.surface_id == SurfaceId(id));
                    }
                }
            }
        }
        proof {
            assert forall|id: SurfaceId| listed(ids).contains(id.0) == #[trigger] self@.owns(
                key,
                id,
            ) by {
                assert(SurfaceId(id.0) == id);
                if self@.owns(key, id) {
                    let i = choose|i: int|
                        0 <= i < self@.app_surface_map.len() && (
                        #[trigger] self@.app_surface_map[i]).1 == key
                            && self@.app_surface_map[i].0.surface_id == id;
                    assert(self.app_surface_map@[i].1 == key);
                }
                if listed(ids).contains(id.0) {
                    let i = choose|i: int|
                        0 <= i < j && (#[trigger] self.app_surface_map@[i]).1 == key
                            && self.app_surface_map@[i].0.surface_id == SurfaceId(id.0);
                    assert(self@.app_surface_map[i].1 == key);
                }
            }
        }
        ids
    }

    /// Those of the surfaces that are listed, in the order of the surfaces.
    fn listed_surfaces(&self, ids: &SurfaceIds, key: AppKey) -> (res: Vec<SurfaceId>)
        requires
            forall|id: SurfaceId| listed(*ids).contains(id.0) == #[trigger] self@.owns(key, id),
        ensures
            res@ == self@.surfaces.filter(self@.owned(key)).map_values(
                |s: SurfaceView| s.surface_id,
            ),
    {
        let ghost owned = self@.owned(key);
        let ghost id_of = |s: SurfaceView| s.surface_id;
        let mut res: Vec<SurfaceId> = Vec::new();
        let mut i: usize = 0;
        while i < self.surfaces.len()
            invariant
                i <= self.surfaces.len(),
                forall|id: SurfaceId| listed(*ids).contains(id.0) == #[trigger] self@.owns(key, id),
                owned == self@.owned(key),
                id_of == (|s: SurfaceView| s.surface_id),
                res@ == self@.surfaces.take(i as int).filter(owned).map_values(id_of),
            decreases self.surfaces.len() - i,
        {
            proof {
                lemma_filter_next(self@.surfaces, owned, i as int);
            }
            let id = self.surfaces[i].surface_id();
            if ids.contains(id) {
                res.push(id);
            }
            i += 1;
            assert(res@ =~= self@.surfaces.take(i as int).filter(owned).map_values(id_of));
        }
        assert(self@.surfaces.take(i as int) =~= self@.surfaces);
        res
    }

    /// Removes an app with all its surfaces.
    pub fn remove_app(&mut self, app_key_to_remove: AppKey) -> (res: Vec<Action>)
        ensures
            final(self)@ == old(self)@.app_removed(app_key_to_remove),
            res@ == old(self)@.removing(app_key_to_remove),
    {
        let key = app_key_to_remove;
        let ghost before = self@;
        let associated_surfaces = self.surfaces_of(key);
        let removed = self.listed_surfaces(&associated_surfaces, key);
        let mut actions: Vec<Action> = Vec::new();
        let ghost destroy = |s: SurfaceView| Action::DestroySurface { surface: s.surface_id };
        let ghost gone = before.surfaces.filter(before.owned(key));
        let mut i: usize = 0;
        while i < removed.len()
            invariant
                i <= removed.len(),
                removed@ == gone.map_values(|s: SurfaceView| s.surface_id),
                destroy == (|s: SurfaceView| Action::DestroySurface { surface: s.surface_id }),
                actions@ == gone.take(i as int).map_values(destroy),
            decreases removed.len() - i,
        {
            actions.push(Action::DestroySurface { surface: removed[i] });
            i += 1;
            assert(actions@ =~= gone.take(i as int).map_values(destroy));
        }
        assert(gone.take(i as int) =~= gone);
        let ghost destroyed = actions@;
        let ghost drop_app = |a: AppDriver| Action::DropApp { app: a.key };
        let mut k: usize = 0;
        while k < self.apps.len()
            invariant
                k <= self.apps.len(),
                drop_app == (|a: AppDriver| Action::DropApp { app: a.key }),
                actions@ == destroyed + self.apps@.take(k as int).filter(is_app(key)).map_values(
                    drop_app,
                ),
            decreases self.apps.len() - k,
        {
            proof {
                lemma_filter_next(self.apps@, is_app(key), k as int);
            }
            if self.apps[k].key == key {
                actions.push(Action::DropApp { app: key });
            }
            k += 1;
            assert(actions@ =~= destroyed + self.apps@.take(k as int).filter(
                is_app(key),
            ).map_values(drop_app));
        }
        assert(self.apps@.take(k as int) =~= self.apps@);
        let keep_entry = |e: &(FullSurfaceId, AppKey)| -> (b: bool) ensures b == (e.1 != key), { e.1 != key };
        retain(
            &mut self.app_surface_map,
            keep_entry,
            Ghost(maps_other_app(key)),
        );
        let associated = &associated_surfaces;
        let keep_surface = |s: &Surface| -> (b: bool) ensures b == !listed(*associated).contains(s@.surface_id.0), { !associated.contains(s.surface_id()) };
        let ghost kept = before.not_owned(key);
        let ghost kept_surface = |s: Surface| kept(s@);
        proof {
            lemma_filter_mapped(self.surfaces@, |s: Surface| s@, kept_surface, kept);
            assert forall|s: &Surface, b: bool| call_ensures(keep_surface, (s,), b) implies b
                == kept(s@) by {
                assert(listed(*associated).contains(s@.surface_id.0) == before.owns(
                    key,
                    s@.surface_id,
                ));
            }
        }
        retain(&mut self.surfaces, keep_surface, Ghost(kept_surface));
        let keep_app = |a: &AppDriver| -> (b: bool) ensures b == (a.key != key), { a.key != key };
        retain(&mut self.apps, keep_app, Ghost(is_other_app(key)));
        self.cancel_repetition_task(&mut actions);
        actions
    }

    /// Whether an app of the given type runs.
    pub fn is_running(&self, id: &String) -> (res: bool)
        ensures
            res == self@.runs(id@),
    {
        let mut k: usize = 0;
        while k < self.apps.len()
            invariant
                k <= self.apps.len(),
                forall|j: int| 0 <= j < k ==> (#[trigger] self.apps@[j]).app_type@ != id@,
            decreases self.apps.len() - k,
        {
            if self.apps[k].app_type == *id {
                assert(self@.apps[k as int].app_type@ == id@);
                return true;
            }
            k += 1;
        }
        false
    }

    /// Delivers the message at hand to an app, and paints its surfaces.
    pub fn on_app_message(&mut self, app_key: AppKey) -> (res: Handled)
        ensures
            final(self)@ == old(self)@.message_delivered(app_key).state,
            res.actions@ == old(self)@.message_delivered(app_key).actions,
            res.result == old(self)@.message_delivered(app_key).result,
    {
        let mut actions: Vec<Action> = Vec::new();
        if self.app_by_key(app_key).is_none() {
            return Handled { actions, result: Err(DriverError::NoSuchApp) };
        }
        actions.push(Action::DeliverMessage { app: app_key });
        let ids = self.surfaces_of(app_key);
        let surfaces = self.listed_surfaces(&ids, app_key);
        let ghost owned = self@.surfaces.filter(self@.owned(app_key));
        let ghost paint = |s: SurfaceView| Action::Paint { app: app_key, surface: s.surface_id };
        let mut i: usize = 0;
        while i < surfaces.len()
            invariant
                i <= surfaces.len(),
                surfaces@ == owned.map_values(|s: SurfaceView| s.surface_id),
                paint == (|s: SurfaceView| Action::Paint { app: app_key, surface: s.surface_id }),
                actions@ == seq![Action::DeliverMessage { app: app_key }] + owned.take(
                    i as int,
                ).map_values(paint),
            decreases surfaces.len() - i,
        {
            actions.push(Action::Paint { app: app_key, surface: surfaces[i] });
            i += 1;
            assert(actions@ =~= seq![Action::DeliverMessage { app: app_key }] + owned.take(
                i as int,
            ).map_values(paint));
        }
        assert(owned.take(i as int) =~= owned);
        Handled { actions, result: Ok(()) }
    }

    /// Handles an event of an app. The error is only reported: the driver goes on.
    pub fn on_app_event(&mut self, event: AppEvent) -> (res: Handled)
        requires
            event.starts_at_root(),
        ensures
            final(self)@ == old(self)@.app_event_handled(event).state,
            res.actions@ == old(self)@.app_event_handled(event).actions,
            res.result == old(self)@.app_event_handled(event).result,
    {
        let mut actions: Vec<Action> = Vec::new();
        match event {
            AppEvent::NewApp { app_driver, initial_surface } => {
                match initial_surface {
                    Some(surface) => {
                        self.add_app(app_driver, surface);
                        Handled { actions, result: Ok(()) }
                    },
                    None => Handled { actions, result: Err(DriverError::SurfaceNotCreated) },
                }
            },
            AppEvent::DestroyApp { app_key } => {
                let actions = self.remove_app(app_key);
                Handled { actions, result: Ok(()) }
            },
            AppEvent::AppMessage { app_key } => self.on_app_message(app_key),
            AppEvent::AppExistsQuery { app_type_id } => {
                let running = self.is_running(&app_type_id);
                actions.push(Action::Answer(running));
                Handled { actions, result: Ok(()) }
            },
        }
    }

    /// One turn of the driver's task: an event of either channel, or the news that the channel
    /// is closed. Where nobody can send events any more, the program has no reason to live on.
    pub fn turn(&mut self, input: DriverInput) -> (res: DriverTurn)
        requires
            input matches DriverInput::App(Some(event)) ==> event.starts_at_root(),
        ensures
            match input {
                DriverInput::Surface(None) | DriverInput::App(None) => res is Exit && final(self)@
                    == old(self)@,
                DriverInput::Surface(Some(event)) => {
                    let handled = old(self)@.handled(event);
                    &&& final(self)@ == handled.state
                    &&& res is Continue
                    &&& res->actions@ == handled.actions
                    &&& res->error == handled.error()
                },
                DriverInput::App(Some(event)) => {
                    let handled = old(self)@.app_event_handled(event);
                    &&& final(self)@ == handled.state
                    &&& res is Continue
                    &&& res->actions@ == handled.actions
                    &&& res->error == handled.error()
                },
            },
    {
        let handled = match input {
            DriverInput::Surface(None) => {
                return DriverTurn::Exit;
            },
            DriverInput::App(None) => {
                return DriverTurn::Exit;
            },
            DriverInput::Surface(Some(event)) => self.handle_event(event),
            DriverInput::App(Some(event)) => self.on_app_event(event),
        };
        let error = match handled.result {
            Ok(()) => None,
            Err(e) => Some(e),
        };
        DriverTurn::Continue { actions: handled.actions, error }
    }
}

/// An event of an app.
pub enum AppEvent {
    /// A new app, with its first surface where one could be made.
    NewApp { app_driver: AppDriver, initial_surface: Option<Surface> },
    /// An app has finished and is to be removed.
    DestroyApp { app_key: AppKey },
    /// An app sent a message to itself.
    AppMessage { app_key: AppKey },
    /// Somebody asks whether an app of a type runs.
    AppExistsQuery { app_type_id: String },
}

impl AppEvent {
    /// The first surface of a new app shows the root of its viewports.
    pub open spec fn starts_at_root(self) -> bool {
        match self {
            AppEvent::NewApp { initial_surface: Some(surface), .. } => surface@.viewport_id
                == ViewportId(ROOT_VIEWPORT),
            _ => true,
        }
    }
}

/// What one of the driver's two channels gave; nothing where it is closed.
pub enum DriverInput {
    Surface(Option<SurfaceEvent>),
    App(Option<AppEvent>),
}

pub enum DriverTurn {
    Continue { actions: Vec<Action>, error: Option<DriverError> },
    Exit,
}

impl Outcome {
    pub open spec fn error(self) -> Option<DriverError> {
        match self.result {
            Ok(_) => None,
            Err(e) => Some(e),
        }
    }
}

/// What stands after the first surface without an app is not asked for.
proof fn lemma_requests_stop(s: DriverView, ids: Seq<SurfaceId>, n: int)
    requires
        0 <= n <= ids.len(),
        s.repaints_requested(ids.take(n)).result is Err,
    ensures
        s.repaints_requested(ids) == s.repaints_requested(ids.take(n)),
    decreases ids.len() - n,
{
    if n < ids.len() {
        assert(ids.take(n + 1).drop_last() == ids.take(n));
        lemma_requests_stop(s, ids, n + 1);
    } else {
        assert(ids.take(n) == ids);
    }
}

} // verus!
