//! The events of the compositor, turned into the events that the surfaces are driven by.

use crate::text::characters;
use crate::windowing::surface::{Key, Modifiers, PointerEvent, ScaleFactor, SurfaceId, ViewportId};
use vstd::prelude::*;

verus! {

/// How a key that is held repeats: `rate` times a second, after `delay` milliseconds.
#[derive(Debug, Clone, Copy, PartialEq, Eq, Structural)]
pub enum RepeatInfo {
    Repeat { rate: u32, delay: u32 },
    Disable,
}

/// An event for the surfaces.
pub enum SurfaceEvent {
    /// Every surface with events that wait is to be repainted.
    UpdateAllWithEvents,
    NeedsRepaintSurface(SurfaceId),
    /// The user interface of an app asks for a repaint of a viewport, with the number of passes
    /// that it had completed. Where it has completed more of them since, the request is ignored.
    NeedsRepaintViewport(u32, ViewportId, u64),
    Closed(SurfaceId),
    Configure(SurfaceId, (u32, u32)),
    KeyboardFocus(SurfaceId, bool),
    PressKey(SurfaceId, Option<String>, Option<Key>),
    RepeatKey(SurfaceId, Option<String>, Option<Key>),
    ReleaseKey(SurfaceId, Option<Key>),
    UpdateModifiers(SurfaceId, Modifiers),
    Pointer(SurfaceId, PointerEvent),
    Scale(SurfaceId, ScaleFactor),
    UpdateRepeatInfo(RepeatInfo),
}

#[derive(Debug, Clone, Copy, PartialEq, Eq, Structural)]
pub enum Capability {
    Keyboard,
    Pointer,
    Touch,
}

/// A control character of ASCII.
pub open spec fn is_ascii_control(c: char) -> bool {
    c as u32 <= 0x1f || c as u32 == 0x7f
}

/// Something in the text can be shown.
pub open spec fn is_typed(text: Seq<char>) -> bool {
    exists|i: int| 0 <= i < text.len() && !is_ascii_control(#[trigger] text[i])
}

/// The text of a key press: none where nothing of it can be shown.
pub open spec fn typed_text(text: Option<String>) -> Option<String> {
    match text {
        Some(t) => if is_typed(t@) {
            Some(t)
        } else {
            None
        },
        None => None,
    }
}

/// Keeps the text of a key press where something of it can be shown.
pub(crate) fn keep_typed(text: Option<String>) -> (res: Option<String>)
    ensures
        res == typed_text(text),
{
    match text {
        Some(t) => {
            let chars: Vec<char> = characters(t.as_str());
            let mut i: usize = 0;
            while i < chars.len()
                invariant
                    i <= chars.len(),
                    chars@ == t@,
                    text == Some(t),
                    forall|j: int| 0 <= j < i ==> is_ascii_control(#[trigger] chars@[j]),
                decreases chars.len() - i,
            {
                let c: u32 = chars[i] as u32;
                if !(c <= 0x1f || c == 0x7f) {
                    assert(!is_ascii_control(t@[i as int]));
                    return Some(t);
                }
                i += 1;
            }
            None
        },
        None => None,
    }
}

/// What the client knows between two events of the compositor: whether it holds the keyboard
/// and the pointer of the seat, and which surface the keyboard is on.
#[derive(Debug, Clone, Copy, PartialEq, Eq)]
pub struct Dispatcher {
    pub keyboard: bool,
    pub pointer: bool,
    pub keyboard_entered_surface: Option<SurfaceId>,
}

/// An event for the surface that the keyboard is on; none where it is on no surface.
pub open spec fn for_entered(
    entered: Option<SurfaceId>,
    event: spec_fn(SurfaceId) -> SurfaceEvent,
) -> Option<SurfaceEvent> {
    match entered {
        Some(id) => Some(event(id)),
        None => None,
    }
}

impl Dispatcher {
    pub fn create() -> (res: Self)
        ensures
            res == (Dispatcher { keyboard: false, pointer: false, keyboard_entered_surface: None }),
    {
        Dispatcher { keyboard: false, pointer: false, keyboard_entered_surface: None }
    }

    /// The event that follows after the messages of the compositor were dispatched.
    pub fn dispatched(&self) -> (res: SurfaceEvent)
        ensures
            res == SurfaceEvent::UpdateAllWithEvents,
    {
        SurfaceEvent::UpdateAllWithEvents
    }

    pub fn scale_factor_changed(&self, surface: SurfaceId, factor: i32) -> (res: SurfaceEvent)
        ensures
            res == SurfaceEvent::Scale(surface, ScaleFactor::Scalar(factor)),
    {
        SurfaceEvent::Scale(surface, ScaleFactor::Scalar(factor))
    }

    /// `scale` counts in 120ths.
    pub fn preferred_scale(&self, surface: SurfaceId, scale: u32) -> (res: SurfaceEvent)
        ensures
            res == SurfaceEvent::Scale(surface, ScaleFactor::Fractional(scale)),
    {
        SurfaceEvent::Scale(surface, ScaleFactor::Fractional(scale))
    }

    pub fn frame(&self, surface: SurfaceId) -> (res: SurfaceEvent)
        ensures
            res == SurfaceEvent::NeedsRepaintSurface(surface),
    {
        SurfaceEvent::NeedsRepaintSurface(surface)
    }

    pub fn closed(&self, surface: SurfaceId) -> (res: SurfaceEvent)
        ensures
            res == SurfaceEvent::Closed(surface),
    {
        SurfaceEvent::Closed(surface)
    }

    pub fn configure(&self, surface: SurfaceId, new_size: (u32, u32)) -> (res: SurfaceEvent)
        ensures
            res == SurfaceEvent::Configure(surface, new_size),
    {
        SurfaceEvent::Configure(surface, new_size)
    }

    /// Whether the device of a new capability is to be taken: it is, where none is held yet.
    pub fn new_capability(&mut self, capability: Capability) -> (res: bool)
        ensures
            res == match capability {
                Capability::Keyboard => !old(self).keyboard,
                Capability::Pointer => !old(self).pointer,
                Capability::Touch => false,
            },
            *final(self) == (Dispatcher {
                keyboard: old(self).keyboard || capability == Capability::Keyboard,
                pointer: old(self).pointer || capability == Capability::Pointer,
                ..*old(self)
            }),
    {
        match capability {
            Capability::Keyboard => {
                let taken = !self.keyboard;
                self.keyboard = true;
                taken
            },
            Capability::Pointer => {
                let taken = !self.pointer;
                self.pointer = true;
                taken
            },
            Capability::Touch => false,
        }
    }

    /// Whether the device of a capability that went away is to be released: it is, where it is
    /// held.
    pub fn remove_capability(&mut self, capability: Capability) -> (res: bool)
        ensures
            res == match capability {
                Capability::Keyboard => old(self).keyboard,
                Capability::Pointer => old(self).pointer,
                Capability::Touch => false,
            },
            *final(self) == (Dispatcher {
                keyboard: old(self).keyboard && capability != Capability::Keyboard,
                pointer: old(self).pointer && capability != Capability::Pointer,
                ..*old(self)
            }),
    {
        match capability {
            Capability::Keyboard => {
                let held = self.keyboard;
                self.keyboard = false;
                held
            },
            Capability::Pointer => {
                let held = self.pointer;
                self.pointer = false;
                held
            },
            Capability::Touch => false,
        }
    }

    /// The keyboard enters a surface.
    pub fn enter(&mut self, surface: SurfaceId) -> (res: SurfaceEvent)
        ensures
            res == SurfaceEvent::KeyboardFocus(surface, true),
            *final(self) == (Dispatcher {
                keyboard_entered_surface: Some(surface),
                ..*old(self)
            }),
    {
        self.keyboard_entered_surface = Some(surface);
        SurfaceEvent::KeyboardFocus(surface, true)
    }

    /// The keyboard leaves a surface; it is then on none, whichever it was on.
    pub fn leave(&mut self, surface: SurfaceId) -> (res: SurfaceEvent)
        ensures
            res == SurfaceEvent::KeyboardFocus(surface, false),
            *final(self) == (Dispatcher { keyboard_entered_surface: None, ..*old(self) }),
    {
        self.keyboard_entered_surface = None;
        SurfaceEvent::KeyboardFocus(surface, false)
    }

    pub fn press_key(&self, utf8: Option<String>, key: Option<Key>) -> (res: Option<SurfaceEvent>)
        ensures
            res == for_entered(
                self.keyboard_entered_surface,
                |id: SurfaceId| SurfaceEvent::PressKey(id, typed_text(utf8), key),
            ),
    {
        match self.keyboard_entered_surface {
            Some(id) => {
                let text = keep_typed(utf8);
                Some(SurfaceEvent::PressKey(id, text, key))
            },
            None => None,
        }
    }

    pub fn release_key(&self, key: Option<Key>) -> (res: Option<SurfaceEvent>)
        ensures
            res == for_entered(
                self.keyboard_entered_surface,
                |id: SurfaceId| SurfaceEvent::ReleaseKey(id, key),
            ),
    {
        match self.keyboard_entered_surface {
            Some(id) => Some(SurfaceEvent::ReleaseKey(id, key)),
            None => None,
        }
    }

    pub fn update_modifiers(&self, alt: bool, ctrl: bool, shift: bool) -> (res: Option<
        SurfaceEvent,
    >)
        ensures
            res == for_entered(
                self.keyboard_entered_surface,
                |id: SurfaceId|
                    SurfaceEvent::UpdateModifiers(
                        id,
                        Modifiers { alt, ctrl, shift, mac_cmd: false, command: ctrl },
                    ),
            ),
    {
        match self.keyboard_entered_surface {
            Some(id) => Some(
                SurfaceEvent::UpdateModifiers(
                    id,
                    Modifiers { alt, ctrl, shift, mac_cmd: false, command: ctrl },
                ),
            ),
            None => None,
        }
    }

    pub fn update_repeat_info(&self, info: RepeatInfo) -> (res: SurfaceEvent)
        ensures
            res == SurfaceEvent::UpdateRepeatInfo(info),
    {
        SurfaceEvent::UpdateRepeatInfo(info)
    }

    /// One event for each event of the frame, in order, for the surface that it names.
    pub fn pointer_frame(&self, events: &Vec<PointerEvent>) -> (res: Vec<SurfaceEvent>)
        ensures
            res@ == events@.map_values(|e: PointerEvent| SurfaceEvent::Pointer(e.surface, e)),
    {
        let mut res: Vec<SurfaceEvent> = Vec::new();
        let mut i: usize = 0;
        while i < events.len()
            invariant
                i <= events.len(),
                res@ == events@.take(i as int).map_values(
                    |e: PointerEvent| SurfaceEvent::Pointer(e.surface, e),
                ),
            decreases events.len() - i,
        {
            let event = events[i];
            res.push(SurfaceEvent::Pointer(event.surface, event));
            i += 1;
        }
        assert(events@.take(i as int) == events@);
        res
    }
}

} // verus!
