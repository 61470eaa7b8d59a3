//! What the keyboard and the pointer do to surfaces.

use crate::windowing::client::{typed_text, Capability, Dispatcher, SurfaceEvent};
use crate::windowing::layer_shell::{LayerWindowing, NoSuchSurface, ShellSurface, ShellView};
use crate::windowing::surface::{
    Event, Key, Modifiers, PointerEvent, RawInput, Surface, SurfaceId, SurfaceView, ViewportId,
};
use crate::windowing::surface_laws::law_text_that_can_be_shown_is_kept;
use crate::windowing::windowing::{DispatcherRequest, Windowing};
use vstd::prelude::*;

verus! {

/// One of the characters is not a control character of ASCII.
pub open spec fn can_be_shown(text: Seq<char>) -> bool {
    exists|i: int| 0 <= i < text.len() && (#[trigger] text[i]) as u32 > 0x1f && text[i] as u32 != 0x7f
}

/// What a client reports of the keyboard is for the surface that the keyboard is on, and nothing is
/// reported where it is on none. Text that cannot be shown is left out.
pub proof fn law_client_reports_keys(
    d: Dispatcher,
    text: String,
    key: Option<Key>,
    pressed: Option<SurfaceEvent>,
    released: Option<SurfaceEvent>,
    alt: bool,
    ctrl: bool,
    shift: bool,
    modified: Option<SurfaceEvent>,
)
    requires
        call_ensures(Dispatcher::press_key, (&d, Some(text), key), pressed),
        call_ensures(Dispatcher::release_key, (&d, key), released),
        call_ensures(Dispatcher::update_modifiers, (&d, alt, ctrl, shift), modified),
    ensures
        match d.keyboard_entered_surface {
            None => pressed is None && released is None && modified is None,
            Some(id) => {
                &&& can_be_shown(text@) ==> pressed == Some(
                    SurfaceEvent::PressKey(id, Some(text), key),
                )
                &&& !can_be_shown(text@) ==> pressed == Some(SurfaceEvent::PressKey(id, None, key))
                &&& released == Some(SurfaceEvent::ReleaseKey(id, key))
                &&& modified == Some(
                    SurfaceEvent::UpdateModifiers(
                        id,
                        Modifiers { alt, ctrl, shift, mac_cmd: false, command: ctrl },
                    ),
                )
            },
        },
{
    law_text_that_can_be_shown_is_kept(text);
}

/// A device is taken exactly where it is new, and released exactly where it is held; a touchscreen
/// never is. The keyboard is reported to enter and to leave, and is then on the surface that it
/// entered, or on none.
pub proof fn law_devices_are_held_once(
    capability: Capability,
    taken: bool,
    surface: SurfaceId,
    event: SurfaceEvent,
)
    ensures
        forall|d: &mut Dispatcher| #[trigger]
            call_ensures(Dispatcher::new_capability, (d, capability), taken) ==> {
                &&& capability == Capability::Keyboard ==> taken == !d.keyboard
                    && final(d).keyboard && final(d).pointer == d.pointer
                &&& capability == Capability::Pointer ==> taken == !d.pointer && final(d).pointer
                    && final(d).keyboard == d.keyboard
                &&& capability == Capability::Touch ==> !taken && *final(d) == *d
                &&& final(d).keyboard_entered_surface == d.keyboard_entered_surface
            },
        forall|d: &mut Dispatcher| #[trigger]
            call_ensures(Dispatcher::remove_capability, (d, capability), taken) ==> {
                &&& capability == Capability::Keyboard ==> taken == d.keyboard
                    && !final(d).keyboard && final(d).pointer == d.pointer
                &&& capability == Capability::Pointer ==> taken == d.pointer && !final(d).pointer
                    && final(d).keyboard == d.keyboard
                &&& capability == Capability::Touch ==> !taken && *final(d) == *d
                &&& final(d).keyboard_entered_surface == d.keyboard_entered_surface
            },
        forall|d: &mut Dispatcher| #[trigger]
            call_ensures(Dispatcher::enter, (d, surface), event) ==> event
                == SurfaceEvent::KeyboardFocus(surface, true) && final(d).keyboard_entered_surface
                == Some(surface),
        forall|d: &mut Dispatcher| #[trigger]
            call_ensures(Dispatcher::leave, (d, surface), event) ==> event
                == SurfaceEvent::KeyboardFocus(surface, false) && final(d).keyboard_entered_surface is None,
{
}

/// A frame of the pointer is reported event by event, each for the surface that it names.
pub proof fn law_client_reports_pointer(
    d: Dispatcher,
    events: Vec<PointerEvent>,
    reported: Vec<SurfaceEvent>,
    i: int,
)
    requires
        call_ensures(Dispatcher::pointer_frame, (&d, &events), reported),
    ensures
        reported@.len() == events@.len(),
        0 <= i < events@.len() ==> reported@[i] == SurfaceEvent::Pointer(
            events@[i].surface,
            events@[i],
        ),
{
}

/// Keys and modifiers go to the surface that the keyboard is on, where that one is known, and no
/// other of the windows changes.
pub proof fn law_keys_reach_the_entered_one_of_windows(
    text: String,
    key: Key,
    alt: bool,
    ctrl: bool,
    shift: bool,
    other: SurfaceId,
)
    requires
        can_be_shown(text@),
    ensures
        forall|w: &mut Windowing| #[trigger]
            call_ensures(Windowing::press_key, (w, Some(text), Some(key)), ()) ==> {
                let id = w@.entered->0;
                let s = w@.surfaces[id];
                &&& final(w)@.entered == w@.entered
                &&& final(w)@.surfaces.dom() == w@.surfaces.dom()
                &&& w@.entered != Some(other) ==> final(w)@.surfaces[other] == w@.surfaces[other]
                &&& w@.entered is Some && w@.surfaces.dom().contains(id) ==> final(w)@.surfaces[id]
                    == (ShellView {
                    events: s.events + seq![
                        Event::Text(text),
                        Event::Key { key, pressed: true, modifiers: s.modifiers, repeat: false },
                    ],
                    ..s
                })
            },
        forall|w: &mut Windowing| #[trigger]
            call_ensures(Windowing::release_key, (w, Some(key)), ()) ==> {
                let id = w@.entered->0;
                let s = w@.surfaces[id];
                &&& final(w)@.entered == w@.entered
                &&& final(w)@.surfaces.dom() == w@.surfaces.dom()
                &&& w@.entered != Some(other) ==> final(w)@.surfaces[other] == w@.surfaces[other]
                &&& w@.entered is Some && w@.surfaces.dom().contains(id) ==> final(w)@.surfaces[id]
                    == (ShellView {
                    events: s.events.push(
                        Event::Key { key, pressed: false, modifiers: s.modifiers, repeat: false },
                    ),
                    ..s
                })
            },
        forall|w: &mut Windowing| #[trigger]
            call_ensures(Windowing::update_modifiers, (w, alt, ctrl, shift), ()) ==> {
                let id = w@.entered->0;
                &&& final(w)@.entered == w@.entered
                &&& final(w)@.surfaces.dom() == w@.surfaces.dom()
                &&& w@.entered != Some(other) ==> final(w)@.surfaces[other] == w@.surfaces[other]
                &&& w@.entered is Some && w@.surfaces.dom().contains(id) ==> final(w)@.surfaces[id]
                    == (ShellView {
                    modifiers: Modifiers { alt, ctrl, shift, mac_cmd: false, command: false },
                    ..w@.surfaces[id]
                })
            },
{
    law_text_that_can_be_shown_is_kept(text);
    assert(typed_text(Some(text)) == Some(text));
    assert forall|w: &mut Windowing| #[trigger]
        call_ensures(Windowing::press_key, (w, Some(text), Some(key)), ()) && w@.entered is Some
            && w@.surfaces.dom().contains(w@.entered->0) implies final(w)@.surfaces[w@.entered->0]
        == (ShellView {
        events: w@.surfaces[w@.entered->0].events + seq![
            Event::Text(text),
            Event::Key {
                key,
                pressed: true,
                modifiers: w@.surfaces[w@.entered->0].modifiers,
                repeat: false,
            },
        ],
        ..w@.surfaces[w@.entered->0]
    }) by {
        let s = w@.surfaces[w@.entered->0];
        let down = Event::Key { key, pressed: true, modifiers: s.modifiers, repeat: false };
        assert(s.events.push(Event::Text(text)).push(down) =~= s.events + seq![
            Event::Text(text),
            down,
        ]);
    }
}

/// The keyboard is on the window that it entered last until it leaves, and that window is told; it
/// is on none where it entered one that is not known. A window that is closed is marked. No other
/// window changes.
pub proof fn law_keyboard_enters_and_leaves_windows(id: SurfaceId, other: SurfaceId, focus: bool)
    ensures
        forall|w: &mut Windowing| #[trigger]
            call_ensures(Windowing::enter, (w, id), ()) ==> {
                &&& final(w)@.entered == if w@.surfaces.dom().contains(id) {
                    Some(id)
                } else {
                    None
                }
                &&& final(w)@.surfaces.dom() == w@.surfaces.dom()
                &&& other != id ==> final(w)@.surfaces[other] == w@.surfaces[other]
                &&& w@.surfaces.dom().contains(id) ==> final(w)@.surfaces[id] == (ShellView {
                    focused: true,
                    events: w@.surfaces[id].events.push(Event::WindowFocused(true)),
                    ..w@.surfaces[id]
                })
            },
        forall|w: &mut Windowing| #[trigger]
            call_ensures(Windowing::leave, (w, id), ()) ==> {
                &&& w@.surfaces.dom().contains(id) ==> final(w)@.entered is None
                &&& !w@.surfaces.dom().contains(id) ==> final(w)@.entered is None
                &&& final(w)@.surfaces.dom() == w@.surfaces.dom()
                &&& other != id ==> final(w)@.surfaces[other] == w@.surfaces[other]
                &&& w@.surfaces.dom().contains(id) ==> final(w)@.surfaces[id] == (ShellView {
                    focused: false,
                    events: w@.surfaces[id].events.push(Event::WindowFocused(false)),
                    ..w@.surfaces[id]
                })
            },
        forall|w: &mut Windowing| #[trigger]
            call_ensures(Windowing::closed, (w, id), ()) ==> {
                &&& final(w)@.entered == w@.entered
                &&& final(w)@.surfaces.dom() == w@.surfaces.dom()
                &&& other != id ==> final(w)@.surfaces[other] == w@.surfaces[other]
                &&& w@.surfaces.dom().contains(id) ==> final(w)@.surfaces[id] == (ShellView {
                    exit: true,
                    ..w@.surfaces[id]
                })
            },
{
}

/// Keys and modifiers go to the surface that the keyboard is on, where that one is known, and no
/// other of the layer surfaces changes.
pub proof fn law_keys_reach_the_entered_one_of_layers(
    text: String,
    key: Key,
    alt: bool,
    ctrl: bool,
    shift: bool,
    other: SurfaceId,
)
    requires
        can_be_shown(text@),
    ensures
        forall|w: &mut LayerWindowing| #[trigger]
            call_ensures(LayerWindowing::press_key, (w, Some(text), Some(key)), ()) ==> {
                let id = w@.entered->0;
                let s = w@.surfaces[id];
                &&& final(w)@.entered == w@.entered
                &&& final(w)@.surfaces.dom() == w@.surfaces.dom()
                &&& w@.entered != Some(other) ==> final(w)@.surfaces[other] == w@.surfaces[other]
                &&& w@.entered is Some && w@.surfaces.dom().contains(id) ==> final(w)@.surfaces[id]
                    == (ShellView {
                    events: s.events + seq![
                        Event::Text(text),
                        Event::Key { key, pressed: true, modifiers: s.modifiers, repeat: false },
                    ],
                    ..s
                })
            },
        forall|w: &mut LayerWindowing| #[trigger]
            call_ensures(LayerWindowing::release_key, (w, Some(key)), ()) ==> {
                let id = w@.entered->0;
                let s = w@.surfaces[id];
                &&& final(w)@.entered == w@.entered
                &&& final(w)@.surfaces.dom() == w@.surfaces.dom()
                &&& w@.entered != Some(other) ==> final(w)@.surfaces[other] == w@.surfaces[other]
                &&& w@.entered is Some && w@.surfaces.dom().contains(id) ==> final(w)@.surfaces[id]
                    == (ShellView {
                    events: s.events.push(
                        Event::Key { key, pressed: false, modifiers: s.modifiers, repeat: false },
                    ),
                    ..s
                })
            },
        forall|w: &mut LayerWindowing| #[trigger]
            call_ensures(LayerWindowing::update_modifiers, (w, alt, ctrl, shift), ()) ==> {
                let id = w@.entered->0;
                &&& final(w)@.entered == w@.entered
                &&& final(w)@.surfaces.dom() == w@.surfaces.dom()
                &&& w@.entered != Some(other) ==> final(w)@.surfaces[other] == w@.surfaces[other]
                &&& w@.entered is Some && w@.surfaces.dom().contains(id) ==> final(w)@.surfaces[id]
                    == (ShellView {
                    modifiers: Modifiers { alt, ctrl, shift, mac_cmd: false, command: false },
                    ..w@.surfaces[id]
                })
            },
{
    law_text_that_can_be_shown_is_kept(text);
    assert(typed_text(Some(text)) == Some(text));
    assert forall|w: &mut LayerWindowing| #[trigger]
        call_ensures(LayerWindowing::press_key, (w, Some(text), Some(key)), ()) && w@.entered is Some
            && w@.surfaces.dom().contains(w@.entered->0) implies final(w)@.surfaces[w@.entered->0]
        == (ShellView {
        events: w@.surfaces[w@.entered->0].events + seq![
            Event::Text(text),
            Event::Key {
                key,
                pressed: true,
                modifiers: w@.surfaces[w@.entered->0].modifiers,
                repeat: false,
            },
        ],
        ..w@.surfaces[w@.entered->0]
    }) by {
        let s = w@.surfaces[w@.entered->0];
        let down = Event::Key { key, pressed: true, modifiers: s.modifiers, repeat: false };
        assert(s.events.push(Event::Text(text)).push(down) =~= s.events + seq![
            Event::Text(text),
            down,
        ]);
    }
}

/// The keyboard is on the surface that it entered last until it leaves, and that surface is told;
/// one that is not known changes nothing. A surface that is closed is marked. No other surface
/// changes.
pub proof fn law_keyboard_enters_and_leaves_layers(id: SurfaceId, other: SurfaceId, focus: bool)
    ensures
        forall|w: &mut LayerWindowing| #[trigger]
            call_ensures(LayerWindowing::enter, (w, id), ()) ==> {
                &&& final(w)@.entered == if w@.surfaces.dom().contains(id) {
                    Some(id)
                } else {
                    w@.entered
                }
                &&& final(w)@.surfaces.dom() == w@.surfaces.dom()
                &&& other != id ==> final(w)@.surfaces[other] == w@.surfaces[other]
                &&& w@.surfaces.dom().contains(id) ==> final(w)@.surfaces[id] == (ShellView {
                    focused: true,
                    events: w@.surfaces[id].events.push(Event::WindowFocused(true)),
                    ..w@.surfaces[id]
                })
            },
        forall|w: &mut LayerWindowing| #[trigger]
            call_ensures(LayerWindowing::leave, (w, id), ()) ==> {
                &&& w@.surfaces.dom().contains(id) ==> final(w)@.entered is None
                &&& !w@.surfaces.dom().contains(id) ==> final(w)@.entered == w@.entered
                &&& final(w)@.surfaces.dom() == w@.surfaces.dom()
                &&& other != id ==> final(w)@.surfaces[other] == w@.surfaces[other]
                &&& w@.surfaces.dom().contains(id) ==> final(w)@.surfaces[id] == (ShellView {
                    focused: false,
                    events: w@.surfaces[id].events.push(Event::WindowFocused(false)),
                    ..w@.surfaces[id]
                })
            },
        forall|w: &mut LayerWindowing| #[trigger]
            call_ensures(LayerWindowing::closed, (w, id), ()) ==> {
                &&& final(w)@.entered == w@.entered
                &&& final(w)@.surfaces.dom() == w@.surfaces.dom()
                &&& other != id ==> final(w)@.surfaces[other] == w@.surfaces[other]
                &&& w@.surfaces.dom().contains(id) ==> final(w)@.surfaces[id] == (ShellView {
                    exit: true,
                    ..w@.surfaces[id]
                })
            },
{
}

/// The input of a frame holds all the events that wait, in order, and none of them waits after it.
/// It is as large as the surface is shown; nothing else of the surface changes.
pub proof fn law_frame_takes_all_events(input: RawInput)
    ensures
        forall|s: &mut Surface| #[trigger]
            call_ensures(Surface::next_raw_input, (s,), input) ==> {
                &&& input.events@ == s@.events
                &&& input.viewport_id == s@.viewport_id
                &&& input.screen_size == s@.unscaled_size
                &&& input.modifiers == s@.modifiers
                &&& input.focused == s@.focused
                &&& final(s)@.events.len() == 0
                &&& (SurfaceView { events: s@.events, ..final(s)@ }) == s@
            },
        forall|s: &mut ShellSurface| #[trigger]
            call_ensures(ShellSurface::next_raw_input, (s,), input) ==> {
                &&& input.events@ == s@.events
                &&& input.viewport_id == ViewportId(0xffff_ffff_ffff_ffff)
                &&& input.screen_size == s@.size
                &&& input.modifiers == s@.modifiers
                &&& input.focused == s@.focused
                &&& final(s)@.events.len() == 0
                &&& (ShellView { events: s@.events, ..final(s)@ }) == s@
            },
{
}

/// A layer surface that was just made has the size that it was made with, which is also the one
/// that it falls back to, was not configured, and waits for nothing.
pub proof fn law_new_layer_surface_is_empty(width: u32, height: u32, s: ShellSurface)
    requires
        call_ensures(ShellSurface::create, (width, height), s),
    ensures
        s@.size == (width, height),
        s@.default_size == Some((width, height)),
        s@.first_configure,
        s@.events.len() == 0,
        !s@.focused,
        !s@.exit,
        !s@.modifiers.alt && !s@.modifiers.ctrl && !s@.modifiers.shift && !s@.modifiers.mac_cmd
            && !s@.modifiers.command,
{
}

/// A surface is rendered exactly where that is asked for or events wait; and every surface on which
/// events wait is asked for, and no other, once there is nothing left to dispatch.
pub proof fn law_waiting_events_are_rendered(
    layers: LayerWindowing,
    id: SurfaceId,
    repaint: bool,
    requested: bool,
    rendered: Result<bool, NoSuchSurface>,
    windows: Windowing,
    dispatched: usize,
    asked: Option<Vec<SurfaceId>>,
)
    requires
        call_ensures(LayerWindowing::render, (&layers, id, repaint, requested), rendered),
        call_ensures(Windowing::update, (&windows, dispatched), asked),
    ensures
        rendered is Err <==> !layers@.surfaces.dom().contains(id),
        rendered matches Ok(r) ==> (r <==> repaint || requested
            || layers@.surfaces[id].events.len() > 0),
        asked is Some <==> dispatched == 0,
        asked matches Some(ids) ==> (ids@.contains(id) <==> windows@.surfaces.dom().contains(id)
            && windows@.surfaces[id].events.len() > 0),
{
}

/// A layer surface is drawn for the first time when it is configured for the first time, and never
/// again; it is configured with the size that it then has. A window asks for a repaint in the same
/// way. A surface that is not known is not configured.
pub proof fn law_first_configure_draws(
    id: SurfaceId,
    size: (u32, u32),
    configured: Option<((u32, u32), bool)>,
    resized: Option<((u32, u32), Option<DispatcherRequest>)>,
)
    ensures
        forall|w: &mut LayerWindowing| #[trigger]
            call_ensures(LayerWindowing::configure, (w, id, size), configured) ==> {
                &&& configured is Some <==> w@.surfaces.dom().contains(id)
                &&& configured matches Some((taken, draw)) ==> draw
                    == w@.surfaces[id].first_configure && !final(w)@.surfaces[id].first_configure
                    && taken == final(w)@.surfaces[id].size && (size.0 != 0 ==> taken.0 == size.0)
                    && (size.1 != 0 ==> taken.1 == size.1)
                &&& configured is None ==> final(w)@ == w@
            },
        forall|w: &mut Windowing| #[trigger]
            call_ensures(Windowing::configure, (w, id, size), resized) ==> {
                &&& resized is Some <==> w@.surfaces.dom().contains(id)
                &&& resized matches Some((taken, request)) ==> (request is Some
                    <==> w@.surfaces[id].first_configure) && (request matches Some(r) ==> r
                    == DispatcherRequest::RepaintSurface(id)) && taken
                    == final(w)@.surfaces[id].size && (size.0 != 0 ==> taken.0 == size.0) && (size.1
                    != 0 ==> taken.1 == size.1)
                &&& resized is None ==> final(w)@ == w@
            },
{
}

} // verus!
