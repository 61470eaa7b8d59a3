//! What each event does to the surfaces and apps of the driver.

use crate::app_surface_driver::{
    is_app, is_surface, maps_surface, maps_viewport, Action, AppDriver, AppEvent, AppSurfaceEvent,
    DriverError, DriverView, Repeat,
};
use crate::app::AppKey;
use crate::sequences::{
    first, is_first, lemma_filter_from, lemma_filter_keeps, lemma_first, lemma_first_exists,
    lemma_first_is,
};
use crate::windowing::client::{RepeatInfo, SurfaceEvent};
use crate::windowing::surface::{
    Event, Key, Modifiers, PointerEvent, PointerEventKind, ScaleFactor, Surface, SurfaceId,
    SurfaceView, ViewportId,
};
use vstd::prelude::*;

verus! {

/// `i` is the place of the surface, and there is none before it.
pub open spec fn is_place_of(s: DriverView, id: SurfaceId, i: int) -> bool {
    &&& 0 <= i < s.surfaces.len()
    &&& s.surfaces[i].surface_id == id
    &&& forall|n: int| 0 <= n < i ==> (#[trigger] s.surfaces[n]).surface_id != id
}

/// `k` is the place of the app that the surface belongs to.
pub open spec fn is_app_of(s: DriverView, id: SurfaceId, k: int) -> bool {
    &&& 0 <= k < s.apps.len()
    &&& forall|n: int| 0 <= n < k ==> (#[trigger] s.apps[n]).key != s.apps[k].key
    &&& exists|j: int|
        0 <= j < s.app_surface_map.len() && (#[trigger] s.app_surface_map[j]).0.surface_id == id
            && s.app_surface_map[j].1 == s.apps[k].key && (forall|n: int|
            0 <= n < j ==> (#[trigger] s.app_surface_map[n]).0.surface_id != id)
}

/// There is no such surface.
pub open spec fn is_unknown(s: DriverView, id: SurfaceId) -> bool {
    forall|n: int| 0 <= n < s.surfaces.len() ==> (#[trigger] s.surfaces[n]).surface_id != id
}

/// Apps, the surfaces that they have, and the key that repeats are what they were, and so is every
/// surface but one.
pub open spec fn only_surface_differs(s: DriverView, t: DriverView, i: int) -> bool {
    &&& t.apps == s.apps
    &&& t.app_surface_map == s.app_surface_map
    &&& t.repeat_info == s.repeat_info
    &&& t.surfaces.len() == s.surfaces.len()
    &&& forall|n: int| 0 <= n < s.surfaces.len() && n != i ==> #[trigger] t.surfaces[n] == s.surfaces[n]
    &&& t.surfaces[i].surface_id == s.surfaces[i].surface_id
    &&& t.surfaces[i].viewport_id == s.surfaces[i].viewport_id
}

/// The size of the surface, its scale and whether it is to go are what they were.
pub open spec fn same_shape(a: SurfaceView, b: SurfaceView) -> bool {
    &&& a.unscaled_size == b.unscaled_size
    &&& a.size == b.size
    &&& a.scale == b.scale
    &&& a.exit == b.exit
}

/// The focus, the modifiers and the events of the surface are what they were.
pub open spec fn same_input(a: SurfaceView, b: SurfaceView) -> bool {
    &&& a.focused == b.focused
    &&& a.modifiers == b.modifiers
    &&& a.events == b.events
}

proof fn lemma_place(s: DriverView, id: SurfaceId, i: int)
    requires
        is_place_of(s, id, i),
    ensures
        s.surface_at(id) == Some(i),
{
    assert(is_first(s.surfaces, is_surface(id), i));
    lemma_first_is(s.surfaces, is_surface(id), i);
}

proof fn lemma_unknown(s: DriverView, id: SurfaceId)
    requires
        is_unknown(s, id),
    ensures
        s.surface_at(id) is None,
{
    lemma_first(s.surfaces, is_surface(id));
}

proof fn lemma_located(s: DriverView, id: SurfaceId, i: int, k: int)
    requires
        is_place_of(s, id, i),
        is_app_of(s, id, k),
    ensures
        s.surface_at(id) == Some(i),
        s.located(id) == Ok::<(int, int), DriverError>((i, k)),
{
    lemma_place(s, id, i);
    let j = choose|j: int|
        0 <= j < s.app_surface_map.len() && (#[trigger] s.app_surface_map[j]).0.surface_id == id
            && s.app_surface_map[j].1 == s.apps[k].key && (forall|n: int|
            0 <= n < j ==> (#[trigger] s.app_surface_map[n]).0.surface_id != id);
    assert(is_first(s.app_surface_map, maps_surface(id), j));
    lemma_first_is(s.app_surface_map, maps_surface(id), j);
    assert(is_first(s.apps, is_app(s.apps[k].key), k));
    lemma_first_is(s.apps, is_app(s.apps[k].key), k);
}

/// A surface that the compositor has closed is marked to go, and nothing else is done.
pub proof fn law_closed_surface_is_marked(s: DriverView, id: SurfaceId, i: int)
    requires
        is_place_of(s, id, i),
    ensures
        ({
            let out = s.handled(SurfaceEvent::Closed(id));
            &&& out.result is Ok
            &&& out.actions.len() == 0
            &&& only_surface_differs(s, out.state, i)
            &&& out.state.repeat == s.repeat
            &&& out.state.surfaces[i].exit
            &&& out.state.surfaces[i].size == s.surfaces[i].size
            &&& out.state.surfaces[i].unscaled_size == s.surfaces[i].unscaled_size
            &&& out.state.surfaces[i].scale == s.surfaces[i].scale
            &&& same_input(out.state.surfaces[i], s.surfaces[i])
        }),
{
    lemma_place(s, id, i);
}

/// A size from the compositor is taken over, where it is not left open; the surface is configured
/// with its new size, and its app is painted on it.
pub proof fn law_configured_surface_is_resized_and_painted(
    s: DriverView,
    id: SurfaceId,
    width: u32,
    height: u32,
    i: int,
    k: int,
)
    requires
        is_place_of(s, id, i),
        is_app_of(s, id, k),
        s.surfaces[i].unscaled_size.0 <= i32::MAX,
        s.surfaces[i].unscaled_size.1 <= i32::MAX,
        width <= i32::MAX,
        height <= i32::MAX,
    ensures
        ({
            let out = s.handled(SurfaceEvent::Configure(id, (width, height)));
            let surface = out.state.surfaces[i];
            &&& out.result is Ok
            &&& only_surface_differs(s, out.state, i)
            &&& out.state.repeat == s.repeat
            &&& surface.unscaled_size.0 == if width == 0 {
                s.surfaces[i].unscaled_size.0
            } else {
                width
            }
            &&& surface.unscaled_size.1 == if height == 0 {
                s.surfaces[i].unscaled_size.1
            } else {
                height
            }
            &&& surface.scale == s.surfaces[i].scale
            &&& surface.exit == s.surfaces[i].exit
            &&& same_input(surface, s.surfaces[i])
            &&& out.actions.len() == 2
            &&& out.actions[0] matches Action::ConfigureSurface { surface: which, configuration }
                && which == id && configuration.size == surface.size
                && configuration.destination.0 == surface.unscaled_size.0
                && configuration.destination.1 == surface.unscaled_size.1
            &&& out.actions[1] == Action::Paint { app: s.apps[k].key, surface: id }
        }),
{
    lemma_located(s, id, i, k);
    let surface = s.surfaces[i].resized(width, height);
    let t = s.with_surface(i, surface);
    assert(is_place_of(t, id, i));
    assert(is_app_of(t, id, k));
    lemma_located(t, id, i, k);
}

/// The scale that the compositor asks for is taken over: the user interface of the app is zoomed,
/// and the surface is configured. The size that it is shown at stays.
pub proof fn law_scaled_surface_is_zoomed(
    s: DriverView,
    id: SurfaceId,
    scale: ScaleFactor,
    i: int,
    k: int,
)
    requires
        is_place_of(s, id, i),
        is_app_of(s, id, k),
        s.surfaces[i].unscaled_size.0 <= i32::MAX,
        s.surfaces[i].unscaled_size.1 <= i32::MAX,
    ensures
        ({
            let out = s.handled(SurfaceEvent::Scale(id, scale));
            let surface = out.state.surfaces[i];
            &&& out.result is Ok
            &&& only_surface_differs(s, out.state, i)
            &&& out.state.repeat == s.repeat
            &&& surface.scale == scale
            &&& surface.unscaled_size == s.surfaces[i].unscaled_size
            &&& surface.exit == s.surfaces[i].exit
            &&& same_input(surface, s.surfaces[i])
            &&& out.actions.len() == 2
            &&& out.actions[0] == Action::SetZoomFactor { app: s.apps[k].key, scale }
            &&& out.actions[1] matches Action::ConfigureSurface { surface: which, configuration }
                && which == id && configuration.size == surface.size
                && configuration.destination.0 == surface.unscaled_size.0
                && configuration.destination.1 == surface.unscaled_size.1
        }),
{
    lemma_located(s, id, i, k);
}

/// A surface that gets or loses the keyboard notes it, as an event that waits too, and its app is
/// told.
pub proof fn law_focus_is_noted(s: DriverView, id: SurfaceId, focus: bool, i: int, k: int)
    requires
        is_place_of(s, id, i),
        is_app_of(s, id, k),
    ensures
        ({
            let out = s.handled(SurfaceEvent::KeyboardFocus(id, focus));
            let surface = out.state.surfaces[i];
            let viewport = s.surfaces[i].viewport_id;
            &&& out.result is Ok
            &&& only_surface_differs(s, out.state, i)
            &&& out.state.repeat == s.repeat
            &&& same_shape(surface, s.surfaces[i])
            &&& surface.focused == focus
            &&& surface.modifiers == s.surfaces[i].modifiers
            &&& surface.events == s.surfaces[i].events.push(Event::WindowFocused(focus))
            &&& out.actions == seq![
                Action::SurfaceEvent {
                    app: s.apps[k].key,
                    event: if focus {
                        AppSurfaceEvent::KeyboardEnter(viewport)
                    } else {
                        AppSurfaceEvent::KeyboardLeave(viewport)
                    },
                },
            ]
        }),
{
    lemma_located(s, id, i, k);
}

/// The events that a key press leaves: its text, where there is one, and then the key, where there
/// is one, with the modifiers that are held.
pub open spec fn key_events(
    before: Seq<Event>,
    text: Option<String>,
    key: Option<Key>,
    modifiers: Modifiers,
    repeat: bool,
) -> Seq<Event> {
    let typed = match text {
        Some(t) => seq![Event::Text(t)],
        None => Seq::empty(),
    };
    let pressed = match key {
        Some(k) => seq![Event::Key { key: k, pressed: true, modifiers, repeat }],
        None => Seq::empty(),
    };
    before + typed + pressed
}

/// A key that is pressed waits for the next frame of its surface. Where the keyboard repeats keys
/// it starts to repeat, as the keyboard says, and the key that repeated before stops first; where
/// it does not, nothing is done.
pub proof fn law_pressed_key_waits_and_repeats(
    s: DriverView,
    id: SurfaceId,
    text: Option<String>,
    key: Option<Key>,
    i: int,
)
    requires
        is_place_of(s, id, i),
        text is Some || key is Some,
    ensures
        ({
            let out = s.handled(SurfaceEvent::PressKey(id, text, key));
            let surface = out.state.surfaces[i];
            &&& out.result is Ok
            &&& only_surface_differs(s, out.state, i)
            &&& same_shape(surface, s.surfaces[i])
            &&& surface.focused == s.surfaces[i].focused
            &&& surface.modifiers == s.surfaces[i].modifiers
            &&& surface.events == key_events(
                s.surfaces[i].events,
                text,
                key,
                s.surfaces[i].modifiers,
                false,
            )
            &&& match s.repeat_info {
                Some(RepeatInfo::Repeat { rate, delay }) => {
                    let repeat = Repeat { surface: id, text, key, rate, delay };
                    &&& out.state.repeat == Some(repeat)
                    &&& out.actions == if s.repeat is Some {
                        seq![Action::AbortRepeat, Action::StartRepeat(repeat)]
                    } else {
                        seq![Action::StartRepeat(repeat)]
                    }
                },
                _ => out.state.repeat == s.repeat && out.actions.len() == 0,
            }
        }),
{
    lemma_place(s, id, i);
    let out = s.handled(SurfaceEvent::PressKey(id, text, key));
    let (t, actions) = s.repeat_started(id, text, key);
    assert(is_place_of(t, id, i));
    lemma_place(t, id, i);
    assert(out.state.surfaces[i].events =~= key_events(
        s.surfaces[i].events,
        text,
        key,
        s.surfaces[i].modifiers,
        false,
    ));
    match s.repeat_info {
        Some(RepeatInfo::Repeat { rate, delay }) => {
            let repeat = Repeat { surface: id, text, key, rate, delay };
            if s.repeat is Some {
                assert(out.actions =~= seq![Action::AbortRepeat, Action::StartRepeat(repeat)]);
            } else {
                assert(out.actions =~= seq![Action::StartRepeat(repeat)]);
            }
        },
        _ => {},
    }
}

/// A key press with neither a text nor a key does nothing.
pub proof fn law_empty_press_does_nothing(s: DriverView, id: SurfaceId)
    ensures
        ({
            let out = s.handled(SurfaceEvent::PressKey(id, None, None));
            &&& out.result is Ok
            &&& out.state == s
            &&& out.actions.len() == 0
        }),
{
}

/// A key that repeats waits like one that is pressed, marked as repeated, and its viewport is to be
/// repainted.
pub proof fn law_repeated_key_waits(
    s: DriverView,
    id: SurfaceId,
    text: Option<String>,
    key: Option<Key>,
    i: int,
    k: int,
)
    requires
        is_place_of(s, id, i),
        is_app_of(s, id, k),
    ensures
        ({
            let out = s.handled(SurfaceEvent::RepeatKey(id, text, key));
            let surface = out.state.surfaces[i];
            &&& out.result is Ok
            &&& only_surface_differs(s, out.state, i)
            &&& out.state.repeat == s.repeat
            &&& same_shape(surface, s.surfaces[i])
            &&& surface.focused == s.surfaces[i].focused
            &&& surface.modifiers == s.surfaces[i].modifiers
            &&& surface.events == key_events(
                s.surfaces[i].events,
                text,
                key,
                s.surfaces[i].modifiers,
                true,
            )
            &&& out.actions == seq![
                Action::RequestRepaint {
                    app: s.apps[k].key,
                    viewport: s.surfaces[i].viewport_id,
                },
            ]
        }),
{
    lemma_located(s, id, i, k);
    let out = s.handled(SurfaceEvent::RepeatKey(id, text, key));
    assert(out.state.surfaces[i].events =~= key_events(
        s.surfaces[i].events,
        text,
        key,
        s.surfaces[i].modifiers,
        true,
    ));
}

/// A key that is released stops the key that repeats, whichever it is, and waits for the next
/// frame.
pub proof fn law_released_key_stops_repeating(
    s: DriverView,
    id: SurfaceId,
    key: Option<Key>,
    i: int,
)
    requires
        is_place_of(s, id, i),
    ensures
        ({
            let out = s.handled(SurfaceEvent::ReleaseKey(id, key));
            let surface = out.state.surfaces[i];
            &&& out.result is Ok
            &&& only_surface_differs(s, out.state, i)
            &&& out.state.repeat is None
            &&& same_shape(surface, s.surfaces[i])
            &&& surface.focused == s.surfaces[i].focused
            &&& surface.modifiers == s.surfaces[i].modifiers
            &&& surface.events == match key {
                Some(k) => s.surfaces[i].events.push(
                    Event::Key {
                        key: k,
                        pressed: false,
                        modifiers: s.surfaces[i].modifiers,
                        repeat: false,
                    },
                ),
                None => s.surfaces[i].events,
            }
            &&& out.actions == if s.repeat is Some {
                seq![Action::AbortRepeat]
            } else {
                Seq::<Action>::empty()
            }
        }),
{
    let t = s.repeat_cancelled();
    assert(is_place_of(t, id, i));
    lemma_place(t, id, i);
    let out = s.handled(SurfaceEvent::ReleaseKey(id, key));
    assert(out.actions =~= if s.repeat is Some {
        seq![Action::AbortRepeat]
    } else {
        Seq::<Action>::empty()
    });
}

/// The modifiers that are held are noted on the surface.
pub proof fn law_modifiers_are_noted(s: DriverView, id: SurfaceId, modifiers: Modifiers, i: int)
    requires
        is_place_of(s, id, i),
    ensures
        ({
            let out = s.handled(SurfaceEvent::UpdateModifiers(id, modifiers));
            let surface = out.state.surfaces[i];
            &&& out.result is Ok
            &&& out.actions.len() == 0
            &&& only_surface_differs(s, out.state, i)
            &&& out.state.repeat == s.repeat
            &&& same_shape(surface, s.surfaces[i])
            &&& surface.focused == s.surfaces[i].focused
            &&& surface.events == s.surfaces[i].events
            &&& surface.modifiers == modifiers
        }),
{
    lemma_place(s, id, i);
}

/// What a pointer does waits for the next frame of its surface: where it is, that it is gone, which
/// button it pressed or released there, or how far it scrolled. The app is told where it enters or
/// leaves.
pub proof fn law_pointer_event_waits(
    s: DriverView,
    id: SurfaceId,
    pointer: PointerEvent,
    i: int,
    k: int,
)
    requires
        is_place_of(s, id, i),
        is_app_of(s, id, k),
    ensures
        ({
            let out = s.handled(SurfaceEvent::Pointer(id, pointer));
            let surface = out.state.surfaces[i];
            let viewport = s.surfaces[i].viewport_id;
            let app = s.apps[k].key;
            let held = s.surfaces[i].modifiers;
            &&& out.result is Ok
            &&& only_surface_differs(s, out.state, i)
            &&& out.state.repeat == s.repeat
            &&& same_shape(surface, s.surfaces[i])
            &&& surface.focused == s.surfaces[i].focused
            &&& surface.modifiers == held
            &&& surface.events.len() == s.surfaces[i].events.len() + 1
            &&& surface.events.drop_last() == s.surfaces[i].events
            &&& match pointer.kind {
                PointerEventKind::Enter => surface.events.last() == Event::PointerMoved(
                    pointer.position,
                ) && out.actions == seq![
                    Action::SurfaceEvent { app, event: AppSurfaceEvent::PointerEnter(viewport) },
                ],
                PointerEventKind::Leave => surface.events.last() == Event::PointerGone
                    && out.actions == seq![
                    Action::SurfaceEvent { app, event: AppSurfaceEvent::PointerLeave(viewport) },
                ],
                PointerEventKind::Motion => surface.events.last() == Event::PointerMoved(
                    pointer.position,
                ) && out.actions.len() == 0,
                PointerEventKind::Press { button } => surface.events.last()
                    == Event::PointerButton {
                    position: pointer.position,
                    button,
                    pressed: true,
                    modifiers: held,
                } && out.actions.len() == 0,
                PointerEventKind::Release { button } => surface.events.last()
                    == Event::PointerButton {
                    position: pointer.position,
                    button,
                    pressed: false,
                    modifiers: held,
                } && out.actions.len() == 0,
                PointerEventKind::Axis { horizontal, vertical } => {
                    &&& surface.events.last() matches Event::MouseWheel { delta, modifiers }
                        && modifiers == held && delta.x == horizontal && (delta.y == vertical
                        + 0x8000_0000 || delta.y == vertical - 0x8000_0000)
                    &&& out.actions.len() == 0
                },
            }
        }),
{
    lemma_located(s, id, i, k);
    let out = s.handled(SurfaceEvent::Pointer(id, pointer));
    assert(out.state.surfaces[i].events.drop_last() =~= s.surfaces[i].events);
}

/// How keys repeat is noted, and nothing else changes.
pub proof fn law_repeat_info_is_noted(s: DriverView, info: RepeatInfo)
    ensures
        ({
            let out = s.handled(SurfaceEvent::UpdateRepeatInfo(info));
            &&& out.result is Ok
            &&& out.actions.len() == 0
            &&& out.state.repeat_info == Some(info)
            &&& out.state.apps == s.apps
            &&& out.state.app_surface_map == s.app_surface_map
            &&& out.state.surfaces == s.surfaces
            &&& out.state.repeat == s.repeat
        }),
{
}

/// A surface that has to be repainted is painted by its app, and nothing changes.
pub proof fn law_surface_is_repainted(s: DriverView, id: SurfaceId, i: int, k: int)
    requires
        is_place_of(s, id, i),
        is_app_of(s, id, k),
    ensures
        ({
            let out = s.handled(SurfaceEvent::NeedsRepaintSurface(id));
            &&& out.result is Ok
            &&& out.state == s
            &&& out.actions == seq![Action::Paint { app: s.apps[k].key, surface: id }]
        }),
{
    lemma_located(s, id, i, k);
}

/// A viewport that is to be repainted is looked for among the surfaces of its app: the first one
/// that shows it is painted, unless the app has completed more passes than the request knew of.
pub proof fn law_viewport_is_repainted(
    s: DriverView,
    key: AppKey,
    viewport: ViewportId,
    pass_nr: u64,
    j: int,
    i: int,
    k: int,
)
    requires
        0 <= j < s.app_surface_map.len(),
        s.app_surface_map[j].1 == key,
        s.app_surface_map[j].0.viewport_id == viewport,
        forall|n: int|
            0 <= n < j ==> !((#[trigger] s.app_surface_map[n]).1 == key
                && s.app_surface_map[n].0.viewport_id == viewport),
        is_place_of(s, s.app_surface_map[j].0.surface_id, i),
        is_app_of(s, s.app_surface_map[j].0.surface_id, k),
    ensures
        ({
            let id = s.app_surface_map[j].0.surface_id;
            let out = s.handled(SurfaceEvent::NeedsRepaintViewport(key, viewport, pass_nr));
            &&& out.result is Ok
            &&& out.state == s
            &&& pass_nr < s.apps[k].cumulative_pass_nr ==> out.actions.len() == 0
            &&& pass_nr >= s.apps[k].cumulative_pass_nr ==> out.actions == seq![
                Action::Paint { app: s.apps[k].key, surface: id },
            ]
        }),
{
    assert(is_first(s.app_surface_map, maps_viewport(key, viewport), j));
    lemma_first_is(s.app_surface_map, maps_viewport(key, viewport), j);
    lemma_located(s, s.app_surface_map[j].0.surface_id, i, k);
}

/// An event for a surface that is not there is refused: nothing changes, and nothing is done for
/// it. A key that is pressed or released still starts or stops to repeat.
pub proof fn law_unknown_surface_is_refused(s: DriverView, id: SurfaceId, event: SurfaceEvent)
    requires
        is_unknown(s, id),
        match event {
            SurfaceEvent::NeedsRepaintSurface(x) => x == id,
            SurfaceEvent::Closed(x) => x == id,
            SurfaceEvent::Configure(x, _) => x == id,
            SurfaceEvent::KeyboardFocus(x, _) => x == id,
            SurfaceEvent::RepeatKey(x, _, _) => x == id,
            SurfaceEvent::UpdateModifiers(x, _) => x == id,
            SurfaceEvent::Pointer(x, _) => x == id,
            SurfaceEvent::Scale(x, _) => x == id,
            _ => false,
        },
    ensures
        s.handled(event).result == Err::<(), DriverError>(DriverError::NoSuchSurface),
        s.handled(event).state == s,
        s.handled(event).actions.len() == 0,
{
    lemma_unknown(s, id);
}

/// A repaint is asked for exactly the viewports whose surfaces have events that wait, for each of
/// them as its app is known by, where all of these surfaces have apps; and nothing changes.
pub proof fn law_waiting_events_ask_for_repaints(s: DriverView)
    requires
        s.handled(SurfaceEvent::UpdateAllWithEvents).result is Ok,
    ensures
        ({
            let out = s.handled(SurfaceEvent::UpdateAllWithEvents);
            &&& out.state == s
            &&& forall|i: int, k: int|
                #![trigger s.surfaces[i], s.apps[k]]
                0 <= i < s.surfaces.len() && s.surfaces[i].events.len() > 0 && is_place_of(
                    s,
                    s.surfaces[i].surface_id,
                    i,
                ) && is_app_of(s, s.surfaces[i].surface_id, k) ==> out.actions.contains(
                    Action::RequestRepaint {
                        app: s.apps[k].key,
                        viewport: s.surfaces[i].viewport_id,
                    },
                )
            &&& forall|n: int|
                0 <= n < out.actions.len() ==> asks_for_waiting(s, #[trigger] out.actions[n])
        }),
{
    let ids = s.with_events();
    let waits = |x: SurfaceView| x.events.len() > 0;
    let out = s.handled(SurfaceEvent::UpdateAllWithEvents);
    lemma_repaints(s, ids);
    assert forall|i: int, k: int|
        #![trigger s.surfaces[i], s.apps[k]]
        0 <= i < s.surfaces.len() && s.surfaces[i].events.len() > 0 && is_place_of(
            s,
            s.surfaces[i].surface_id,
            i,
        ) && is_app_of(s, s.surfaces[i].surface_id, k) implies out.actions.contains(
        Action::RequestRepaint { app: s.apps[k].key, viewport: s.surfaces[i].viewport_id },
    ) by {
        let n = lemma_filter_keeps(s.surfaces, waits, i);
        assert(ids[n] == s.surfaces[i].surface_id);
        lemma_located(s, ids[n], i, k);
        assert(out.actions[n] == repaint_of(s, ids[n]));
    }
    assert forall|n: int| 0 <= n < out.actions.len() implies asks_for_waiting(
        s,
        #[trigger] out.actions[n],
    ) by {
        let m = lemma_filter_from(s.surfaces, waits, n);
        assert(ids[n] == s.surfaces[m].surface_id);
        lemma_first_exists(s.surfaces, is_surface(ids[n]), m);
        assert(out.actions[n] == repaint_of(s, ids[n]));
        let i = s.located(ids[n])->Ok_0.0;
        lemma_first(s.app_surface_map, maps_surface(ids[n]));
        let j = first(s.app_surface_map, maps_surface(ids[n]))->0;
        lemma_first(s.apps, is_app(s.app_surface_map[j].1));
        let k = s.located(ids[n])->Ok_0.1;
        lemma_first(s.surfaces, is_surface(ids[n]));
        assert(is_place_of(s, ids[n], i)) by {
            assert forall|x: int| 0 <= x < i implies (#[trigger] s.surfaces[x]).surface_id
                != ids[n] by {
                assert(!is_surface(ids[n])(s.surfaces[x]));
            }
        }
        assert(is_app_of(s, ids[n], k)) by {
            assert forall|x: int| 0 <= x < k implies (#[trigger] s.apps[x]).key != s.apps[k].key by {
                assert(!is_app(s.app_surface_map[j].1)(s.apps[x]));
            }
            assert forall|x: int| 0 <= x < j implies (
            #[trigger] s.app_surface_map[x]).0.surface_id != ids[n] by {
                assert(!maps_surface(ids[n])(s.app_surface_map[x]));
            }
            assert(s.app_surface_map[j].0.surface_id == ids[n]);
        }
        assert(shows_of(
            s,
            s.surfaces[m].surface_id,
            s.surfaces[i].viewport_id,
            s.apps[k].key,
        ));
        assert(s.surfaces[m].events.len() > 0);
    }
}

/// A repaint is asked for a viewport whose surface has events that wait, of the app that the
/// surface belongs to.
pub open spec fn asks_for_waiting(s: DriverView, action: Action) -> bool {
    match action {
        Action::RequestRepaint { app, viewport } => exists|m: int|
            0 <= m < s.surfaces.len() && (#[trigger] s.surfaces[m]).events.len() > 0
                && shows_of(s, s.surfaces[m].surface_id, viewport, app),
        _ => false,
    }
}

/// The surface shows the viewport of the app.
pub open spec fn shows_of(s: DriverView, id: SurfaceId, viewport: ViewportId, app: AppKey) -> bool {
    &&& exists|i: int| #[trigger] is_place_of(s, id, i) && s.surfaces[i].viewport_id == viewport
    &&& exists|k: int| #[trigger] is_app_of(s, id, k) && s.apps[k].key == app
}

/// The request for the surface.
spec fn repaint_of(s: DriverView, id: SurfaceId) -> Action {
    let (i, k) = s.located(id)->Ok_0;
    Action::RequestRepaint { app: s.apps[k].key, viewport: s.surfaces[i].viewport_id }
}

proof fn lemma_repaints(s: DriverView, ids: Seq<SurfaceId>)
    requires
        s.repaints_requested(ids).result is Ok,
    ensures
        s.repaints_requested(ids).state == s,
        s.repaints_requested(ids).actions.len() == ids.len(),
        forall|n: int|
            0 <= n < ids.len() ==> s.located(ids[n]) is Ok && #[trigger] s.repaints_requested(
                ids,
            ).actions[n] == repaint_of(s, ids[n]),
    decreases ids.len(),
{
    if ids.len() > 0 {
        lemma_repaints(s, ids.drop_last());
    }
}

/// A new app comes last, with its first surface, which is filed as that of its root viewport.
pub proof fn law_new_app_has_its_surface(s: DriverView, app_driver: AppDriver, surface: Surface)
    ensures
        ({
            let out = s.app_event_handled(
                AppEvent::NewApp { app_driver, initial_surface: Some(surface) },
            );
            &&& out.result is Ok
            &&& out.actions.len() == 0
            &&& out.state.apps == s.apps.push(app_driver)
            &&& out.state.surfaces == s.surfaces.push(surface@)
            &&& out.state.app_surface_map.len() == s.app_surface_map.len() + 1
            &&& out.state.app_surface_map.drop_last() == s.app_surface_map
            &&& out.state.app_surface_map.last().0.surface_id == surface@.surface_id
            &&& out.state.app_surface_map.last().0.viewport_id == ViewportId(
                0xffff_ffff_ffff_ffff,
            )
            &&& out.state.app_surface_map.last().1 == app_driver.key
            &&& out.state.repeat == s.repeat
            &&& out.state.repeat_info == s.repeat_info
            &&& s.app_event_handled(
                AppEvent::NewApp { app_driver, initial_surface: None },
            ).result is Err
            &&& s.app_event_handled(
                AppEvent::NewApp { app_driver, initial_surface: None },
            ).state == s
        }),
{
    let out = s.app_event_handled(AppEvent::NewApp { app_driver, initial_surface: Some(surface) });
    assert(out.state.app_surface_map.drop_last() =~= s.app_surface_map);
}

/// The app has the surface.
pub open spec fn has_surface(s: DriverView, key: AppKey, id: SurfaceId) -> bool {
    exists|j: int|
        0 <= j < s.app_surface_map.len() && (#[trigger] s.app_surface_map[j]).1 == key
            && s.app_surface_map[j].0.surface_id == id
}

/// An app that is to go is dropped, each of its surfaces is destroyed, and a key that repeats is
/// stopped; nothing is done to the surfaces and apps that are not its own.
pub proof fn law_removed_app_is_taken_down(s: DriverView, key: AppKey, i: int, k: int)
    requires
        0 <= i < s.surfaces.len(),
        0 <= k < s.apps.len(),
    ensures
        ({
            let out = s.app_event_handled(AppEvent::DestroyApp { app_key: key });
            &&& out.result is Ok
            &&& out.actions.contains(
                Action::DestroySurface { surface: s.surfaces[i].surface_id },
            ) <==> has_surface(s, key, s.surfaces[i].surface_id)
            &&& out.state.surfaces.contains(s.surfaces[i]) <==> !has_surface(
                s,
                key,
                s.surfaces[i].surface_id,
            )
            &&& s.apps[k].key == key ==> out.actions.contains(Action::DropApp { app: key })
            &&& s.apps[k].key != key ==> !out.actions.contains(
                Action::DropApp { app: s.apps[k].key },
            )
            &&& out.state.apps.contains(s.apps[k]) <==> s.apps[k].key != key
            &&& out.actions.contains(Action::AbortRepeat) <==> s.repeat is Some
            &&& out.state.repeat is None
            &&& out.state.repeat_info == s.repeat_info
        }),
{
    let out = s.app_event_handled(AppEvent::DestroyApp { app_key: key });
    let gone = s.surfaces.filter(s.owned(key));
    let dropped = s.apps.filter(is_app(key));
    let a = gone.map_values(|x: SurfaceView| Action::DestroySurface { surface: x.surface_id });
    let b = dropped.map_values(|x: AppDriver| Action::DropApp { app: x.key });
    let c = s.cancelling();
    let acts = out.actions;
    assert(acts == a + b + c);
    let id = s.surfaces[i].surface_id;
    assert(has_surface(s, key, id) == s.owns(key, id));
    if s.owns(key, id) {
        let n = lemma_filter_keeps(s.surfaces, s.owned(key), i);
        assert(acts[n] == Action::DestroySurface { surface: id });
    }
    if acts.contains(Action::DestroySurface { surface: id }) {
        let n = choose|n: int| 0 <= n < acts.len() && acts[n] == Action::DestroySurface {
            surface: id,
        };
        assert(n < a.len());
        let m = lemma_filter_from(s.surfaces, s.owned(key), n);
        assert(a[n] == Action::DestroySurface { surface: s.surfaces[m].surface_id });
    }
    let kept = s.surfaces.filter(s.not_owned(key));
    if !s.owns(key, id) {
        let n = lemma_filter_keeps(s.surfaces, s.not_owned(key), i);
        assert(kept[n] == s.surfaces[i]);
    }
    if kept.contains(s.surfaces[i]) {
        let n = choose|n: int| 0 <= n < kept.len() && kept[n] == s.surfaces[i];
        let m = lemma_filter_from(s.surfaces, s.not_owned(key), n);
    }
    if s.apps[k].key == key {
        let n = lemma_filter_keeps(s.apps, is_app(key), k);
        assert(acts[a.len() + n] == Action::DropApp { app: key });
    } else if acts.contains(Action::DropApp { app: s.apps[k].key }) {
        let n = choose|n: int| 0 <= n < acts.len() && acts[n] == Action::DropApp {
            app: s.apps[k].key,
        };
        assert(a.len() <= n < a.len() + b.len());
        let m = lemma_filter_from(s.apps, is_app(key), n - a.len());
        assert(b[n - a.len()] == Action::DropApp { app: s.apps[m].key });
    }
    let left = s.apps.filter(crate::app_surface_driver::is_other_app(key));
    let other = crate::app_surface_driver::is_other_app(key);
    if s.apps[k].key != key {
        let n = lemma_filter_keeps(s.apps, other, k);
        assert(left[n] == s.apps[k]);
    }
    if left.contains(s.apps[k]) {
        let n = choose|n: int| 0 <= n < left.len() && left[n] == s.apps[k];
        let m = lemma_filter_from(s.apps, other, n);
    }
    if s.repeat is Some {
        assert(acts[(a.len() + b.len()) as int] == Action::AbortRepeat);
    }
    if acts.contains(Action::AbortRepeat) {
        let n = choose|n: int| 0 <= n < acts.len() && acts[n] == Action::AbortRepeat;
        if n < a.len() {
            assert(a[n] == Action::AbortRepeat);
        } else if n < a.len() + b.len() {
            assert(b[n - a.len()] == Action::AbortRepeat);
        }
    }
}

/// A message for an app that runs is handed to it first, and then each of its surfaces is painted,
/// and no other; nothing changes. For an app that does not run the message is refused.
pub proof fn law_message_reaches_its_app(s: DriverView, key: AppKey, i: int)
    requires
        0 <= i < s.surfaces.len(),
    ensures
        ({
            let out = s.app_event_handled(AppEvent::AppMessage { app_key: key });
            let runs = exists|k: int| 0 <= k < s.apps.len() && (#[trigger] s.apps[k]).key == key;
            &&& out.state == s
            &&& out.result is Ok <==> runs
            &&& !runs ==> out.actions.len() == 0 && out.result == Err::<(), DriverError>(
                DriverError::NoSuchApp,
            )
            &&& runs ==> out.actions.len() > 0 && out.actions[0] == Action::DeliverMessage {
                app: key,
            }
            &&& runs ==> (out.actions.contains(
                Action::Paint { app: key, surface: s.surfaces[i].surface_id },
            ) <==> has_surface(s, key, s.surfaces[i].surface_id))
            &&& forall|n: int|
                0 < n < out.actions.len() ==> (#[trigger] out.actions[n] matches Action::Paint {
                    app,
                    surface,
                } && app == key)
        }),
{
    let out = s.app_event_handled(AppEvent::AppMessage { app_key: key });
    let runs = exists|k: int| 0 <= k < s.apps.len() && (#[trigger] s.apps[k]).key == key;
    lemma_first(s.apps, is_app(key));
    if runs {
        let k = choose|k: int| 0 <= k < s.apps.len() && (#[trigger] s.apps[k]).key == key;
        lemma_first_exists(s.apps, is_app(key), k);
        let id = s.surfaces[i].surface_id;
        let acts = out.actions;
        let own = s.surfaces.filter(s.owned(key));
        assert(has_surface(s, key, id) == s.owns(key, id));
        if s.owns(key, id) {
            let n = lemma_filter_keeps(s.surfaces, s.owned(key), i);
            assert(acts[n + 1] == Action::Paint { app: key, surface: id });
        }
        if acts.contains(Action::Paint { app: key, surface: id }) {
            let n = choose|n: int| 0 <= n < acts.len() && acts[n] == Action::Paint {
                app: key,
                surface: id,
            };
            assert(n > 0);
            let m = lemma_filter_from(s.surfaces, s.owned(key), n - 1);
            assert(acts[n] == Action::Paint { app: key, surface: s.surfaces[m].surface_id });
        }
    } else if let Some(k) = first(s.apps, is_app(key)) {
        assert(s.apps[k].key == key);
    }
}

/// Whether an app of a type runs is answered by whether one of the apps has that type.
pub proof fn law_query_is_answered(s: DriverView, app_type_id: String)
    ensures
        ({
            let out = s.app_event_handled(AppEvent::AppExistsQuery { app_type_id });
            let runs = exists|k: int|
                0 <= k < s.apps.len() && (#[trigger] s.apps[k]).app_type@ == app_type_id@;
            &&& out.result is Ok
            &&& out.state == s
            &&& out.actions == seq![Action::Answer(runs)]
        }),
{
}

/// How many passes an app has completed is noted on that app, and changes nothing else.
pub proof fn law_passes_are_noted(s: DriverView, key: AppKey, passes: u64, k: int)
    requires
        0 <= k < s.apps.len(),
        s.apps[k].key == key,
        forall|n: int| 0 <= n < k ==> (#[trigger] s.apps[n]).key != key,
    ensures
        ({
            let t = s.passes_counted(key, passes);
            &&& t.apps.len() == s.apps.len()
            &&& t.apps[k].cumulative_pass_nr == passes
            &&& t.apps[k].key == key
            &&& t.apps[k].app_type == s.apps[k].app_type
            &&& forall|n: int| 0 <= n < s.apps.len() && n != k ==> #[trigger] t.apps[n] == s.apps[n]
            &&& t.app_surface_map == s.app_surface_map
            &&& t.surfaces == s.surfaces
            &&& t.repeat == s.repeat
            &&& t.repeat_info == s.repeat_info
        }),
{
    assert(is_first(s.apps, is_app(key), k));
    lemma_first_is(s.apps, is_app(key), k);
}

} // verus!
