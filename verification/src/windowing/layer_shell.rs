//! Surfaces that are kept in one place, by their names, and drawn where the events come in.

use crate::windowing::client::{keep_typed, typed_text};
use crate::windowing::surface::{
    pointer_input, to_pointer_input, Anchor, Event, Key, Layer, Modifiers, PointerEvent, RawInput,
    SurfaceId, ViewportId, ROOT_VIEWPORT,
};
use std::collections::HashMap;
use vstd::prelude::*;

verus! {

/// The size that a surface gets where nobody says one.
pub const FALLBACK_SIZE: u32 = 256;

pub struct LayerShellOptions {
    pub layer: Layer,
    pub namespace: Option<String>,
    pub anchor: Anchor,
    pub width: u32,
    pub height: u32,
}

impl Default for LayerShellOptions {
    fn default() -> (res: Self)
        ensures
            res.layer == Layer::Top,
            res.namespace is None,
            res.anchor == (Anchor { top: true, bottom: true, left: true, right: true }),
            res.width == 1024,
            res.height == 1024,
    {
        LayerShellOptions {
            layer: Layer::Top,
            namespace: None,
            anchor: Anchor { top: true, bottom: true, left: true, right: true },
            width: 1024,
            height: 1024,
        }
    }
}

/// One surface.
pub struct ShellSurface {
    exit: bool,
    first_configure: bool,
    default_size: Option<(u32, u32)>,
    size: (u32, u32),
    focused: bool,
    events: Vec<Event>,
    modifiers: Modifiers,
}

/// What a [`ShellSurface`] holds.
#[verifier::ext_equal]
pub struct ShellView {
    pub exit: bool,
    /// The surface was not configured yet.
    pub first_configure: bool,
    pub default_size: Option<(u32, u32)>,
    pub size: (u32, u32),
    pub focused: bool,
    pub events: Seq<Event>,
    pub modifiers: Modifiers,
}

/// A dimension that the compositor leaves open, by a 0, is the one that the surface has by
/// default.
pub open spec fn dimension(new: u32, default: Option<u32>) -> u32 {
    if new != 0 {
        new
    } else {
        match default {
            Some(d) => d,
            None => FALLBACK_SIZE,
        }
    }
}

impl ShellView {
    /// A surface that was just made.
    pub open spec fn fresh(size: (u32, u32)) -> ShellView {
        ShellView {
            exit: false,
            first_configure: true,
            default_size: Some(size),
            size,
            focused: false,
            events: Seq::empty(),
            modifiers: Modifiers::none(),
        }
    }

    pub open spec fn with_event(self, event: Event) -> ShellView {
        ShellView { events: self.events.push(event), ..self }
    }

    /// The surface after it was configured.
    pub open spec fn configured(self, width: u32, height: u32) -> ShellView {
        let w = match self.default_size {
            Some(d) => Some(d.0),
            None => None,
        };
        let h = match self.default_size {
            Some(d) => Some(d.1),
            None => None,
        };
        ShellView { size: (dimension(width, w), dimension(height, h)), ..self }
    }

    /// The surface after its size was updated: a height that is left open stays 0 where the
    /// surface has a size by default.
    pub open spec fn resized(self, width: u32, height: u32) -> ShellView {
        let w = match self.default_size {
            Some(d) => Some(d.0),
            None => None,
        };
        let h = match self.default_size {
            Some(d) => Some(height),
            None => None,
        };
        ShellView { size: (dimension(width, w), dimension(height, h)), ..self }
    }

    pub open spec fn focus_changed(self, focus: bool) -> ShellView {
        ShellView { focused: focus, ..self }.with_event(Event::WindowFocused(focus))
    }

    pub open spec fn key_event(self, key: Key, pressed: bool) -> Event {
        Event::Key { key, pressed, modifiers: self.modifiers, repeat: false }
    }

    /// The surface after a key was pressed: first comes the text of the key, where something of it
    /// can be shown, and then the key.
    pub open spec fn key_pressed(self, utf8: Option<String>, key: Option<Key>) -> ShellView {
        let with_text = match typed_text(utf8) {
            Some(t) => self.with_event(Event::Text(t)),
            None => self,
        };
        match key {
            Some(k) => with_text.with_event(self.key_event(k, true)),
            None => with_text,
        }
    }

    pub open spec fn key_released(self, key: Option<Key>) -> ShellView {
        match key {
            Some(k) => self.with_event(self.key_event(k, false)),
            None => self,
        }
    }

    pub open spec fn pointed(self, event: PointerEvent) -> ShellView {
        self.with_event(pointer_input(event, self.modifiers))
    }
}

impl View for ShellSurface {
    type V = ShellView;

    closed spec fn view(&self) -> ShellView {
        ShellView {
            exit: self.exit,
            first_configure: self.first_configure,
            default_size: self.default_size,
            size: self.size,
            focused: self.focused,
            events: self.events@,
            modifiers: self.modifiers,
        }
    }
}

/// The input of a frame is what the surface holds.
pub open spec fn is_input_of(input: RawInput, surface: ShellView) -> bool {
    &&& input.viewport_id == ViewportId(ROOT_VIEWPORT)
    &&& input.screen_size == surface.size
    &&& input.modifiers == surface.modifiers
    &&& input.focused == surface.focused
    &&& input.events@ == surface.events
}

fn dimension_or(new: u32, default: Option<u32>) -> (res: u32)
    ensures
        res == dimension(new, default),
{
    if new != 0 {
        new
    } else {
        match default {
            Some(d) => d,
            None => FALLBACK_SIZE,
        }
    }
}

impl ShellSurface {
    pub fn create(width: u32, height: u32) -> (res: Self)
        ensures
            res@ == ShellView::fresh((width, height)),
    {
        ShellSurface {
            exit: false,
            first_configure: true,
            default_size: Some((width, height)),
            size: (width, height),
            focused: false,
            events: Vec::new(),
            modifiers: Modifiers::default(),
        }
    }

    /// Takes over a size from the compositor, and says what the GPU surface is configured with.
    pub fn configure(&mut self, width: u32, height: u32) -> (res: (u32, u32))
        ensures
            final(self)@ == old(self)@.configured(width, height),
            res == final(self)@.size,
    {
        let (w, h) = match self.default_size {
            Some((w, h)) => (Some(w), Some(h)),
            None => (None, None),
        };
        self.size = (dimension_or(width, w), dimension_or(height, h));
        self.size
    }

    /// Takes over a size, and says what the GPU surface is configured with.
    pub fn update_size(&mut self, width: u32, height: u32) -> (res: (u32, u32))
        ensures
            final(self)@ == old(self)@.resized(width, height),
            res == final(self)@.size,
    {
        let (w, h) = match self.default_size {
            Some((w, _)) => (Some(w), Some(height)),
            None => (None, None),
        };
        self.size = (dimension_or(width, w), dimension_or(height, h));
        self.size
    }

    /// Whether the surface is to be drawn for the first time; it is, once.
    pub fn first_draw(&mut self) -> (res: bool)
        ensures
            res == old(self)@.first_configure,
            final(self)@ == (ShellView { first_configure: false, ..old(self)@ }),
    {
        let first = self.first_configure;
        self.first_configure = false;
        first
    }

    pub fn is_first_configure(&self) -> (res: bool)
        ensures
            res == self@.first_configure,
    {
        self.first_configure
    }

    pub fn size(&self) -> (res: (u32, u32))
        ensures
            res == self@.size,
    {
        self.size
    }

    pub fn focused(&self) -> (res: bool)
        ensures
            res == self@.focused,
    {
        self.focused
    }

    pub fn has_events(&self) -> (res: bool)
        ensures
            res == (self@.events.len() > 0),
    {
        self.events.len() > 0
    }

    /// The input of the next frame. The events that waited go with it.
    pub fn next_raw_input(&mut self) -> (res: RawInput)
        ensures
            is_input_of(res, old(self)@),
            final(self)@ == (ShellView { events: Seq::empty(), ..old(self)@ }),
    {
        let mut events: Vec<Event> = Vec::new();
        core::mem::swap(&mut self.events, &mut events);
        RawInput {
            viewport_id: ViewportId(ROOT_VIEWPORT),
            screen_size: self.size,
            modifiers: self.modifiers,
            focused: self.focused,
            events,
        }
    }

    pub fn handle_pointer_event(&mut self, event: &PointerEvent)
        ensures
            final(self)@ == old(self)@.pointed(*event),
    {
        let input = to_pointer_input(event, self.modifiers);
        self.events.push(input);
    }

    pub fn set_modifiers(&mut self, modifiers: Modifiers)
        ensures
            final(self)@ == (ShellView { modifiers, ..old(self)@ }),
    {
        self.modifiers = modifiers;
    }

    pub fn set_exit(&mut self)
        ensures
            final(self)@ == (ShellView { exit: true, ..old(self)@ }),
    {
        self.exit = true;
    }

    pub fn on_focus(&mut self, focus: bool)
        ensures
            final(self)@ == old(self)@.focus_changed(focus),
    {
        self.focused = focus;
        self.events.push(Event::WindowFocused(focus));
    }

    pub fn press_key(&mut self, utf8: Option<String>, key: Option<Key>)
        ensures
            final(self)@ == old(self)@.key_pressed(utf8, key),
    {
        let modifiers = self.modifiers;
        if let Some(t) = keep_typed(utf8) {
            self.events.push(Event::Text(t));
        }
        if let Some(k) = key {
            self.events.push(Event::Key { key: k, pressed: true, modifiers, repeat: false });
        }
    }

    pub fn release_key(&mut self, key: Option<Key>)
        ensures
            final(self)@ == old(self)@.key_released(key),
    {
        let modifiers = self.modifiers;
        if let Some(k) = key {
            self.events.push(Event::Key { key: k, pressed: false, modifiers, repeat: false });
        }
    }
}

/// The surfaces, by their names.
pub struct Surfaces {
    map: HashMap<u64, ShellSurface>,
}

impl View for Surfaces {
    type V = Map<SurfaceId, ShellView>;

    closed spec fn view(&self) -> Map<SurfaceId, ShellView> {
        Map::new(
            |id: SurfaceId| self.map@.dom().contains(id.0),
            |id: SurfaceId| self.map@[id.0]@,
        )
    }
}

/// The surfaces after one of them has changed; as they were, where there is no such surface.
pub open spec fn changed(
    surfaces: Map<SurfaceId, ShellView>,
    id: SurfaceId,
    change: spec_fn(ShellView) -> ShellView,
) -> Map<SurfaceId, ShellView> {
    if surfaces.dom().contains(id) {
        surfaces.insert(id, change(surfaces[id]))
    } else {
        surfaces
    }
}

impl Surfaces {
    pub fn new() -> (res: Self)
        ensures
            (res@ == Map::<SurfaceId, ShellView>::empty()),
    {
        broadcast use vstd::std_specs::hash::group_hash_axioms;

        let res = Surfaces { map: HashMap::new() };
        assert(res@ =~= Map::empty());
        res
    }

    pub fn insert(&mut self, id: SurfaceId, surface: ShellSurface)
        ensures
            final(self)@ == old(self)@.insert(id, surface@),
    {
        broadcast use vstd::std_specs::hash::group_hash_axioms;

        self.map.insert(id.0, surface);
        assert forall|i: SurfaceId| i != id implies i.0 != id.0 by {
            assert(SurfaceId(i.0) == i && SurfaceId(id.0) == id);
        }
        assert(self@ =~= old(self)@.insert(id, surface@));
    }

    pub fn get(&self, id: SurfaceId) -> (res: Option<&ShellSurface>)
        ensures
            res is Some == self@.dom().contains(id),
            res is Some ==> res->0@ == self@[id],
    {
        broadcast use vstd::std_specs::hash::group_hash_axioms;

        self.map.get(&id.0)
    }

    /// Takes a surface out, to be changed and put back.
    fn take(&mut self, id: SurfaceId) -> (res: Option<ShellSurface>)
        ensures
            res is Some == old(self)@.dom().contains(id),
            res is Some ==> res->0@ == old(self)@[id] && final(self)@ == old(self)@.remove(id),
            res is None ==> final(self)@ == old(self)@,
    {
        broadcast use vstd::std_specs::hash::group_hash_axioms;

        let res = self.map.remove(&id.0);
        assert forall|i: SurfaceId| i != id implies i.0 != id.0 by {
            assert(SurfaceId(i.0) == i && SurfaceId(id.0) == id);
        }
        assert(self@ =~= old(self)@.remove(id));
        assert(res is None ==> self@ =~= old(self)@);
        res
    }

    /// Marks a surface as one that is to go. Says whether there is such a surface.
    pub fn close(&mut self, id: SurfaceId) -> (res: bool)
        ensures
            res == old(self)@.dom().contains(id),
            final(self)@ == changed(old(self)@, id, |s: ShellView| ShellView { exit: true, ..s }),
    {
        match self.take(id) {
            Some(mut surface) => {
                surface.set_exit();
                self.insert(id, surface);
                assert(self@ =~= changed(old(self)@, id, |s: ShellView| ShellView { exit: true, ..s }));
                true
            },
            None => false,
        }
    }

    /// A surface gets or loses the keyboard. Says whether there is such a surface.
    pub fn focus(&mut self, id: SurfaceId, focus: bool) -> (res: bool)
        ensures
            res == old(self)@.dom().contains(id),
            final(self)@ == changed(old(self)@, id, |s: ShellView| s.focus_changed(focus)),
    {
        match self.take(id) {
            Some(mut surface) => {
                surface.on_focus(focus);
                self.insert(id, surface);
                assert(self@ =~= changed(old(self)@, id, |s: ShellView| s.focus_changed(focus)));
                true
            },
            None => false,
        }
    }

    /// A key is pressed on a surface. Says whether there is such a surface.
    pub fn press(&mut self, id: SurfaceId, utf8: Option<String>, key: Option<Key>) -> (res: bool)
        ensures
            res == old(self)@.dom().contains(id),
            final(self)@ == changed(old(self)@, id, |s: ShellView| s.key_pressed(utf8, key)),
    {
        match self.take(id) {
            Some(mut surface) => {
                surface.press_key(utf8, key);
                self.insert(id, surface);
                assert(self@ =~= changed(old(self)@, id, |s: ShellView| s.key_pressed(utf8, key)));
                true
            },
            None => false,
        }
    }

    /// A key is released on a surface. Says whether there is such a surface.
    pub fn release(&mut self, id: SurfaceId, key: Option<Key>) -> (res: bool)
        ensures
            res == old(self)@.dom().contains(id),
            final(self)@ == changed(old(self)@, id, |s: ShellView| s.key_released(key)),
    {
        match self.take(id) {
            Some(mut surface) => {
                surface.release_key(key);
                self.insert(id, surface);
                assert(self@ =~= changed(old(self)@, id, |s: ShellView| s.key_released(key)));
                true
            },
            None => false,
        }
    }

    /// Other modifiers are held on a surface. Says whether there is such a surface.
    pub fn modify(&mut self, id: SurfaceId, modifiers: Modifiers) -> (res: bool)
        ensures
            res == old(self)@.dom().contains(id),
            final(self)@ == changed(old(self)@, id, |s: ShellView| ShellView { modifiers, ..s }),
    {
        match self.take(id) {
            Some(mut surface) => {
                surface.set_modifiers(modifiers);
                self.insert(id, surface);
                assert(self@ =~= changed(old(self)@, id, |s: ShellView| ShellView { modifiers, ..s }));
                true
            },
            None => false,
        }
    }

    /// A pointer does something on a surface. Says whether there is such a surface.
    pub fn point(&mut self, id: SurfaceId, event: &PointerEvent) -> (res: bool)
        ensures
            res == old(self)@.dom().contains(id),
            final(self)@ == changed(old(self)@, id, |s: ShellView| s.pointed(*event)),
    {
        match self.take(id) {
            Some(mut surface) => {
                surface.handle_pointer_event(event);
                self.insert(id, surface);
                assert(self@ =~= changed(old(self)@, id, |s: ShellView| s.pointed(*event)));
                true
            },
            None => false,
        }
    }

    /// Takes over a size for a surface: says what the GPU surface is configured with, and whether
    /// the surface was not configured before.
    pub fn resize(&mut self, id: SurfaceId, width: u32, height: u32) -> (res: Option<
        ((u32, u32), bool),
    >)
        ensures
            final(self)@ == changed(old(self)@, id, |s: ShellView| s.resized(width, height)),
            res == if old(self)@.dom().contains(id) {
                Some((final(self)@[id].size, old(self)@[id].first_configure))
            } else {
                None
            },
    {
        match self.take(id) {
            Some(mut surface) => {
                let size = surface.update_size(width, height);
                let first = surface.is_first_configure();
                self.insert(id, surface);
                assert(self@ =~= changed(old(self)@, id, |s: ShellView| s.resized(width, height)));
                Some((size, first))
            },
            None => None,
        }
    }

    /// The surfaces with events that wait, each of them once, in any order.
    pub fn with_events(&self) -> (res: Vec<SurfaceId>)
        ensures
            forall|id: SurfaceId| #[trigger] res@.contains(id) <==> self@.dom().contains(id)
                && self@[id].events.len() > 0,
            res@.no_duplicates(),
    {
        broadcast use vstd::std_specs::hash::group_hash_axioms;

        let ghost keys = vstd::std_specs::iter::IteratorSpec::remaining(
            &vstd::std_specs::hash::spec_keys_iter(&self.map),
        );
        let mut res: Vec<SurfaceId> = Vec::new();
        for key in it: self.map.keys()
            invariant
                it.seq() == keys,
                keys.no_duplicates(),
                keys.unref().to_set() == self.map@.dom(),
                res@.no_duplicates(),
                forall|id: SurfaceId| #[trigger] res@.contains(id) <==> exists|i: int|
                    0 <= i < it.index() && *(#[trigger] keys[i]) == id.0 && self@[id].events.len() > 0,
        {
            let ghost n = it.index() as int;
            let ghost before = res@;
            let id = SurfaceId(*key);
            proof {
                assert(key == keys[n]);
                assert(keys.unref()[n] == *key);
                assert(keys.unref().to_set().contains(*key));
                if before.contains(id) {
                    let i = choose|i: int|
                        0 <= i < n && *(#[trigger] keys[i]) == id.0 && self@[id].events.len() > 0;
                    assert(keys[i] == keys[n]);
                }
            }
            if let Some(surface) = self.get(id) {
                if surface.has_events() {
                    res.push(id);
                    assert(res@[before.len() as int] == id);
                }
            }
            proof {
                assert forall|other: SurfaceId| #[trigger] res@.contains(other) <==> exists|i: int|
                    0 <= i < n + 1 && *(#[trigger] keys[i]) == other.0
                        && self@[other].events.len() > 0 by {
                    assert(SurfaceId(other.0) == other);
                    if before.contains(other) {
                        let k = choose|k: int| 0 <= k < before.len() && before[k] == other;
                        assert(res@[k] == other);
                    }
                    if res@.contains(other) && !before.contains(other) {
                        assert(*keys[n] == other.0);
                    }
                }
            }
        }
        proof {
            assert forall|id: SurfaceId| #[trigger] res@.contains(id) <==> self@.dom().contains(id)
                && self@[id].events.len() > 0 by {
                if self@.dom().contains(id) {
                    assert(keys.unref().to_set().contains(id.0));
                    assert(keys.unref().contains(id.0));
                    let i = choose|i: int|
                        0 <= i < keys.unref().len() && keys.unref()[i] == id.0;
                    assert(*keys[i] == id.0);
                }
                if res@.contains(id) {
                    let i = choose|i: int|
                        0 <= i < keys.len() && *(#[trigger] keys[i]) == id.0
                            && self@[id].events.len() > 0;
                    assert(keys.unref()[i] == id.0);
                    assert(keys.unref().to_set().contains(id.0));
                }
            }
        }
        res
    }
}

/// The modifiers that the compositor reports.
pub open spec fn reported(alt: bool, ctrl: bool, shift: bool) -> Modifiers {
    Modifiers { alt, ctrl, shift, mac_cmd: false, command: false }
}

/// There is no such surface.
#[derive(Debug, Clone, Copy, PartialEq, Eq, Structural)]
pub struct NoSuchSurface;

/// The surfaces, and the surface that the keyboard is on.
pub struct LayerWindowing {
    surfaces: Surfaces,
    keyboard_entered_surface: Option<SurfaceId>,
}

/// What a [`LayerWindowing`] holds.
#[verifier::ext_equal]
pub struct LayerWindowingView {
    pub surfaces: Map<SurfaceId, ShellView>,
    pub entered: Option<SurfaceId>,
}

impl View for LayerWindowing {
    type V = LayerWindowingView;

    closed spec fn view(&self) -> LayerWindowingView {
        LayerWindowingView { surfaces: self.surfaces@, entered: self.keyboard_entered_surface }
    }
}

impl LayerWindowingView {
    /// A change of the surface that the keyboard is on; none, where it is on no known surface.
    pub open spec fn on_entered(self, change: spec_fn(ShellView) -> ShellView) -> LayerWindowingView {
        match self.entered {
            Some(id) => LayerWindowingView {
                surfaces: changed(self.surfaces, id, change),
                ..self
            },
            None => self,
        }
    }
}

/// The surfaces after the events of a pointer, up to the first one for an unknown surface.
pub open spec fn pointed_until_unknown(
    surfaces: Map<SurfaceId, ShellView>,
    events: Seq<PointerEvent>,
) -> Map<SurfaceId, ShellView>
    decreases events.len(),
{
    if events.len() == 0 || !surfaces.dom().contains(events[0].surface) {
        surfaces
    } else {
        pointed_until_unknown(
            changed(surfaces, events[0].surface, |s: ShellView| s.pointed(events[0])),
            events.skip(1),
        )
    }
}

impl LayerWindowing {
    pub fn create() -> (res: Self)
        ensures
            (res@ == LayerWindowingView { surfaces: Map::empty(), entered: None }),
    {
        LayerWindowing { surfaces: Surfaces::new(), keyboard_entered_surface: None }
    }

    /// Takes over a surface that was made, of the given size.
    pub fn create_surface(&mut self, id: SurfaceId, width: u32, height: u32) -> (res: SurfaceId)
        ensures
            res == id,
            (final(self)@ == LayerWindowingView {
                surfaces: old(self)@.surfaces.insert(id, ShellView::fresh((width, height))),
                ..old(self)@
            }),
    {
        self.surfaces.insert(id, ShellSurface::create(width, height));
        id
    }

    /// Whether a surface is to be rendered: where that is asked for, by the caller or by the user
    /// interface, or where events wait.
    pub fn render(&self, id: SurfaceId, repaint: bool, requested: bool) -> (res: Result<
        bool,
        NoSuchSurface,
    >)
        ensures
            res == if self@.surfaces.dom().contains(id) {
                Ok(repaint || self@.surfaces[id].events.len() > 0 || requested)
            } else {
                Err(NoSuchSurface)
            },
    {
        match self.surfaces.get(id) {
            Some(surface) => Ok(repaint || surface.has_events() || requested),
            None => Err(NoSuchSurface),
        }
    }

    /// The input of the next frame of a surface. The events that waited go with it.
    pub fn next_raw_input(&mut self, id: SurfaceId) -> (res: Option<RawInput>)
        ensures
            res is Some == old(self)@.surfaces.dom().contains(id),
            res is Some ==> is_input_of(res->0, old(self)@.surfaces[id]),
            (final(self)@ == LayerWindowingView {
                surfaces: changed(
                    old(self)@.surfaces,
                    id,
                    |s: ShellView| ShellView { events: Seq::empty(), ..s },
                ),
                ..old(self)@
            }),
    {
        match self.surfaces.take(id) {
            Some(mut surface) => {
                let input = surface.next_raw_input();
                self.surfaces.insert(id, surface);
                assert(self@.surfaces =~= changed(
                    old(self)@.surfaces,
                    id,
                    |s: ShellView| ShellView { events: Seq::empty(), ..s },
                ));
                Some(input)
            },
            None => None,
        }
    }

    /// Whether a surface is rendered when the compositor asks for a frame: where it is known.
    pub fn frame(&self, id: SurfaceId) -> (res: bool)
        ensures
            res == self@.surfaces.dom().contains(id),
    {
        self.surfaces.get(id).is_some()
    }

    pub fn closed(&mut self, id: SurfaceId)
        ensures
            (final(self)@ == LayerWindowingView {
                surfaces: changed(
                    old(self)@.surfaces,
                    id,
                    |s: ShellView| ShellView { exit: true, ..s },
                ),
                ..old(self)@
            }),
    {
        self.surfaces.close(id);
    }

    /// Configures a surface: says what the GPU surface is configured with, and whether the surface
    /// is drawn for the first time. Nothing is done for an unknown surface.
    pub fn configure(&mut self, id: SurfaceId, new_size: (u32, u32)) -> (res: Option<
        ((u32, u32), bool),
    >)
        ensures
            (final(self)@ == LayerWindowingView {
                surfaces: changed(
                    old(self)@.surfaces,
                    id,
                    |s: ShellView|
                        ShellView {
                            first_configure: false,
                            ..s.configured(new_size.0, new_size.1)
                        },
                ),
                ..old(self)@
            }),
            res == if old(self)@.surfaces.dom().contains(id) {
                Some(
                    (
                        final(self)@.surfaces[id].size,
                        old(self)@.surfaces[id].first_configure,
                    ),
                )
            } else {
                None
            },
    {
        match self.surfaces.take(id) {
            Some(mut surface) => {
                let size = surface.configure(new_size.0, new_size.1);
                let draw = surface.first_draw();
                self.surfaces.insert(id, surface);
                assert(self@.surfaces =~= changed(
                    old(self)@.surfaces,
                    id,
                    |s: ShellView|
                        ShellView {
                            first_configure: false,
                            ..s.configured(new_size.0, new_size.1)
                        },
                ));
                Some((size, draw))
            },
            None => None,
        }
    }

    /// Configures a surface with a size that is taken over as it is updated: says what the GPU
    /// surface is configured with, and whether the surface is drawn for the first time. Nothing is
    /// done for an unknown surface.
    pub fn configure_updated(&mut self, id: SurfaceId, new_size: (u32, u32)) -> (res: Option<
        ((u32, u32), bool),
    >)
        ensures
            (final(self)@ == LayerWindowingView {
                surfaces: changed(
                    old(self)@.surfaces,
                    id,
                    |s: ShellView|
                        ShellView { first_configure: false, ..s.resized(new_size.0, new_size.1) },
                ),
                ..old(self)@
            }),
            res == if old(self)@.surfaces.dom().contains(id) {
                Some(
                    (
                        final(self)@.surfaces[id].size,
                        old(self)@.surfaces[id].first_configure,
                    ),
                )
            } else {
                None
            },
    {
        match self.surfaces.take(id) {
            Some(mut surface) => {
                let size = surface.update_size(new_size.0, new_size.1);
                let draw = surface.first_draw();
                self.surfaces.insert(id, surface);
                assert(self@.surfaces =~= changed(
                    old(self)@.surfaces,
                    id,
                    |s: ShellView|
                        ShellView { first_configure: false, ..s.resized(new_size.0, new_size.1) },
                ));
                Some((size, draw))
            },
            None => None,
        }
    }

    /// The keyboard enters a surface; an unknown one changes nothing.
    pub fn enter(&mut self, id: SurfaceId)
        ensures
            (final(self)@ == LayerWindowingView {
                surfaces: changed(old(self)@.surfaces, id, |s: ShellView| s.focus_changed(true)),
                entered: if old(self)@.surfaces.dom().contains(id) {
                    Some(id)
                } else {
                    old(self)@.entered
                },
            }),
    {
        if self.surfaces.focus(id, true) {
            self.keyboard_entered_surface = Some(id);
        }
    }

    /// The keyboard leaves a surface; an unknown one changes nothing.
    pub fn leave(&mut self, id: SurfaceId)
        ensures
            (final(self)@ == LayerWindowingView {
                surfaces: changed(old(self)@.surfaces, id, |s: ShellView| s.focus_changed(false)),
                entered: if old(self)@.surfaces.dom().contains(id) {
                    None
                } else {
                    old(self)@.entered
                },
            }),
    {
        if self.surfaces.focus(id, false) {
            self.keyboard_entered_surface = None;
        }
    }

    pub fn press_key(&mut self, utf8: Option<String>, key: Option<Key>)
        ensures
            final(self)@ == old(self)@.on_entered(|s: ShellView| s.key_pressed(utf8, key)),
    {
        if let Some(id) = self.keyboard_entered_surface {
            self.surfaces.press(id, utf8, key);
        }
    }

    pub fn release_key(&mut self, key: Option<Key>)
        ensures
            final(self)@ == old(self)@.on_entered(|s: ShellView| s.key_released(key)),
    {
        if let Some(id) = self.keyboard_entered_surface {
            self.surfaces.release(id, key);
        }
    }

    pub fn update_modifiers(&mut self, alt: bool, ctrl: bool, shift: bool)
        ensures
            final(self)@ == old(self)@.on_entered(
                |s: ShellView| ShellView { modifiers: reported(alt, ctrl, shift), ..s },
            ),
    {
        if let Some(id) = self.keyboard_entered_surface {
            let modifiers = Modifiers { alt, ctrl, shift, mac_cmd: false, command: false };
            self.surfaces.modify(id, modifiers);
        }
    }

    /// Hands the events of a pointer to their surfaces, up to the first one for an unknown surface.
    pub fn pointer_frame(&mut self, events: &Vec<PointerEvent>)
        ensures
            (final(self)@ == LayerWindowingView {
                surfaces: pointed_until_unknown(old(self)@.surfaces, events@),
                ..old(self)@
            }),
    {
        let ghost all = pointed_until_unknown(self@.surfaces, events@);
        let mut i: usize = 0;
        assert(events@.skip(0) == events@);
        while i < events.len()
            invariant
                i <= events.len(),
                self@.entered == old(self)@.entered,
                all == pointed_until_unknown(old(self)@.surfaces, events@),
                all == pointed_until_unknown(self@.surfaces, events@.skip(i as int)),
            decreases events.len() - i,
        {
            let event = events[i];
            let ghost before = self@.surfaces;
            let ghost rest = events@.skip(i as int);
            assert(rest[0] == event);
            assert(rest.skip(1) == events@.skip(i + 1));
            if !self.surfaces.point(event.surface, &event) {
                return;
            }
            assert(self@.surfaces == changed(before, event.surface, |s: ShellView| s.pointed(rest[0])));
            i += 1;
        }
    }
}

/// The events of one frame all arrive where all their surfaces are known: the events that wait on
/// a surface grow by as many as the frame has for it.
pub proof fn law_pointer_frame_arrives(
    surfaces: Map<SurfaceId, ShellView>,
    events: Seq<PointerEvent>,
    id: SurfaceId,
)
    requires
        surfaces.dom().contains(id),
        forall|i: int|
            0 <= i < events.len() ==> surfaces.dom().contains((#[trigger] events[i]).surface),
    ensures
        pointed_until_unknown(surfaces, events).dom() == surfaces.dom(),
        pointed_until_unknown(surfaces, events)[id].events.len() == surfaces[id].events.len()
            + events.filter(|e: PointerEvent| e.surface == id).len(),
    decreases events.len(),
{
    let p = |e: PointerEvent| e.surface == id;
    reveal(Seq::filter);
    if events.len() > 0 {
        let first = events[0];
        let rest = events.skip(1);
        let after = changed(surfaces, first.surface, |s: ShellView| s.pointed(first));
        assert(after.dom() =~= surfaces.dom());
        assert forall|i: int| 0 <= i < rest.len() implies after.dom().contains(
            (#[trigger] rest[i]).surface,
        ) by {
            assert(surfaces.dom().contains(events[i + 1].surface));
        }
        law_pointer_frame_arrives(after, rest, id);
        assert(events =~= seq![first] + rest);
        Seq::filter_distributes_over_add(seq![first], rest, p);
        assert(seq![first].drop_last() =~= Seq::empty());
        assert(seq![first].filter(p).len() == if p(first) {
            1nat
        } else {
            0
        }) by {
            reveal_with_fuel(Seq::filter, 2);
        }
    }
}

} // verus!
