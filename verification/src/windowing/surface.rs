//! The state of one layer surface: its size, its focus, and the input events that wait for the
//! next frame.

use crate::binary32::{round, round_ratio, ONE};
use vstd::prelude::*;

verus! {

/// Which surface of the compositor is meant.
#[derive(Debug, Clone, Copy, PartialEq, Eq, Hash, Structural)]
pub struct SurfaceId(pub u64);

/// Which viewport of an app is meant.
#[derive(Debug, Clone, Copy, PartialEq, Eq, Hash, Structural)]
pub struct ViewportId(pub u64);

/// The number of the viewport that every app starts with.
pub const ROOT_VIEWPORT: u64 = 0xffff_ffff_ffff_ffff;

/// A key of the keyboard, by its code.
#[derive(Debug, Clone, Copy, PartialEq, Eq, Hash, Structural)]
pub struct Key(pub u32);

/// A position or a distance on a surface: two binary32 numbers, by their bits.
#[derive(Debug, Clone, Copy, PartialEq, Eq, Structural)]
pub struct Coordinates {
    pub x: u32,
    pub y: u32,
}

#[derive(Debug, Clone, Copy, PartialEq, Eq, Structural)]
pub struct Modifiers {
    pub alt: bool,
    pub ctrl: bool,
    pub shift: bool,
    pub mac_cmd: bool,
    pub command: bool,
}

impl Modifiers {
    /// No modifier is held.
    pub open spec fn none() -> Modifiers {
        Modifiers { alt: false, ctrl: false, shift: false, mac_cmd: false, command: false }
    }
}

impl Default for Modifiers {
    fn default() -> (res: Self)
        ensures
            res == Modifiers::none(),
    {
        Modifiers { alt: false, ctrl: false, shift: false, mac_cmd: false, command: false }
    }
}

/// An input event, as the user interface takes it.
pub enum Event {
    Text(String),
    Key { key: Key, pressed: bool, modifiers: Modifiers, repeat: bool },
    PointerMoved(Coordinates),
    PointerGone,
    PointerButton { position: Coordinates, button: u32, pressed: bool, modifiers: Modifiers },
    MouseWheel { delta: Coordinates, modifiers: Modifiers },
    WindowFocused(bool),
}

/// What a pointer did. A button is known by its code, the distance of a scroll by the bits of a
/// binary32 number.
#[derive(Debug, Clone, Copy, PartialEq, Eq, Structural)]
pub enum PointerEventKind {
    Enter,
    Leave,
    Motion,
    Press { button: u32 },
    Release { button: u32 },
    Axis { horizontal: u32, vertical: u32 },
}

#[derive(Debug, Clone, Copy, PartialEq, Eq, Structural)]
pub struct PointerEvent {
    pub surface: SurfaceId,
    pub position: Coordinates,
    pub kind: PointerEventKind,
}

/// The scale that the compositor asks for: a whole number, or a number of 120ths.
#[derive(Debug, Clone, Copy, PartialEq, Eq, Structural)]
pub enum ScaleFactor {
    Scalar(i32),
    Fractional(u32),
}

#[derive(Debug, Clone, Copy, PartialEq, Eq, Structural)]
pub enum Layer {
    Background,
    Bottom,
    Top,
    Overlay,
}

/// The edges of the output that a surface is held to.
#[derive(Debug, Clone, Copy, PartialEq, Eq, Structural)]
pub struct Anchor {
    pub top: bool,
    pub bottom: bool,
    pub left: bool,
    pub right: bool,
}

pub struct LayerSurfaceOptions {
    pub layer: Layer,
    pub namespace: Option<String>,
    pub anchor: Anchor,
    pub width: u32,
    pub height: u32,
}

impl Default for LayerSurfaceOptions {
    fn default() -> (res: Self)
        ensures
            res.layer == Layer::Top,
            res.namespace is None,
            res.anchor == (Anchor { top: false, bottom: false, left: false, right: false }),
            res.width == 1024,
            res.height == 1024,
    {
        LayerSurfaceOptions {
            layer: Layer::Top,
            namespace: None,
            anchor: Anchor { top: false, bottom: false, left: false, right: false },
            width: 1024,
            height: 1024,
        }
    }
}

/// The binary32 number `n / 120`, in units of 2^-64.
pub open spec fn fraction_of_120(n: u32) -> nat {
    if n == 0 {
        0
    } else {
        crate::binary32::rounded_ratio(crate::binary32::rounded(n as nat) * ONE as nat, 120)
    }
}

/// A number, or the largest `u32` where it is larger.
pub open spec fn saturated(n: nat) -> u32 {
    if n > u32::MAX {
        u32::MAX
    } else {
        n as u32
    }
}

/// `length` times `scale`, evaluated in single precision and cut off to a whole number of pixels.
pub open spec fn scaled_length(length: u32, scale: ScaleFactor) -> u32 {
    match scale {
        ScaleFactor::Scalar(n) => if n <= 0 {
            0
        } else {
            saturated(
                crate::binary32::rounded(
                    crate::binary32::rounded(length as nat) * crate::binary32::rounded(n as nat),
                ),
            )
        },
        ScaleFactor::Fractional(n) => saturated(
            crate::binary32::rounded(crate::binary32::rounded(length as nat) * fraction_of_120(n))
                / ONE as nat,
        ),
    }
}

/// Both dimensions of `size`, scaled.
pub open spec fn scaled_size(size: (u32, u32), scale: ScaleFactor) -> (u32, u32) {
    (scaled_length(size.0, scale), scaled_length(size.1, scale))
}

fn scale_length(length: u32, scale: ScaleFactor) -> (res: u32)
    ensures
        res == scaled_length(length, scale),
{
    let l: u128 = round(length as u128);
    let pixels: u128 = match scale {
        ScaleFactor::Scalar(n) => {
            if n <= 0 {
                return 0;
            }
            let factor: u128 = round(n as u128);
            assert(l * factor <= 0x2_0000_0000 * 0x1_0000_0000) by (nonlinear_arith)
                requires
                    l <= 0x2_0000_0000,
                    factor <= 0x1_0000_0000,
            ;
            round(l * factor)
        },
        ScaleFactor::Fractional(n) => {
            let factor: u128 = if n == 0 {
                0
            } else {
                let whole: u128 = round(n as u128);
                proof {
                    crate::binary32::law_rounding_is_monotone(1, n as nat);
                    assert(crate::binary32::spacing(1) == 1);
                    crate::binary32::law_rounding_keeps_representable(1);
                    assert(1 <= whole <= 0x2_0000_0000);
                }
                round_ratio(whole * ONE, 120)
            };
            assert(l * factor <= 0x2_0000_0000 * 0x1000_0000_0000_0000_0000_0000)
                by (nonlinear_arith)
                requires
                    l <= 0x2_0000_0000,
                    factor <= 0x1000_0000_0000_0000_0000_0000,
            ;
            round(l * factor) / ONE
        },
    };
    if pixels > u32::MAX as u128 {
        u32::MAX
    } else {
        pixels as u32
    }
}

/// What the compositor and the GPU are told after the size of a surface changed: the size of
/// the drawn image, and the size that it is shown at.
#[derive(Debug, Clone, Copy, PartialEq, Eq)]
pub struct SurfaceConfiguration {
    pub size: (u32, u32),
    pub destination: (i32, i32),
}

/// The input of one frame.
pub struct RawInput {
    pub viewport_id: ViewportId,
    pub screen_size: (u32, u32),
    pub modifiers: Modifiers,
    pub focused: bool,
    pub events: Vec<Event>,
}

/// One layer surface.
pub struct Surface {
    surface_id: SurfaceId,
    viewport_id: ViewportId,
    exit: bool,
    unscaled_size: (u32, u32),
    size: (u32, u32),
    scale: ScaleFactor,
    focused: bool,
    events: Vec<Event>,
    modifiers: Modifiers,
}

/// What a [`Surface`] holds.
#[verifier::ext_equal]
pub struct SurfaceView {
    pub surface_id: SurfaceId,
    pub viewport_id: ViewportId,
    pub exit: bool,
    pub unscaled_size: (u32, u32),
    pub size: (u32, u32),
    pub scale: ScaleFactor,
    pub focused: bool,
    pub events: Seq<Event>,
    pub modifiers: Modifiers,
}

/// A dimension that a configure event leaves open, by a 0, stays as it was.
pub open spec fn kept_if_zero(new: u32, current: u32) -> u32 {
    if new == 0 {
        current
    } else {
        new
    }
}

/// The binary32 number with the other sign, by its bits.
pub open spec fn negated(bits: u32) -> u32 {
    if bits >= 0x8000_0000 {
        (bits - 0x8000_0000) as u32
    } else {
        (bits + 0x8000_0000) as u32
    }
}

/// The input event that a pointer event becomes, with the modifiers that are held.
pub open spec fn pointer_input(event: PointerEvent, modifiers: Modifiers) -> Event {
    match event.kind {
        PointerEventKind::Enter => Event::PointerMoved(event.position),
        PointerEventKind::Leave => Event::PointerGone,
        PointerEventKind::Motion => Event::PointerMoved(event.position),
        PointerEventKind::Press { button } => Event::PointerButton {
            position: event.position,
            button,
            pressed: true,
            modifiers,
        },
        PointerEventKind::Release { button } => Event::PointerButton {
            position: event.position,
            button,
            pressed: false,
            modifiers,
        },
        PointerEventKind::Axis { horizontal, vertical } => Event::MouseWheel {
            delta: Coordinates { x: horizontal, y: negated(vertical) },
            modifiers,
        },
    }
}

/// Makes an input event of a pointer event.
pub fn to_pointer_input(event: &PointerEvent, modifiers: Modifiers) -> (res: Event)
    ensures
        res == pointer_input(*event, modifiers),
{
    let position = event.position;
    match event.kind {
        PointerEventKind::Enter => Event::PointerMoved(position),
        PointerEventKind::Leave => Event::PointerGone,
        PointerEventKind::Motion => Event::PointerMoved(position),
        PointerEventKind::Press { button } => Event::PointerButton {
            position,
            button,
            pressed: true,
            modifiers,
        },
        PointerEventKind::Release { button } => Event::PointerButton {
            position,
            button,
            pressed: false,
            modifiers,
        },
        PointerEventKind::Axis { horizontal, vertical } => {
            let y: u32 = if vertical >= 0x8000_0000 {
                vertical - 0x8000_0000
            } else {
                vertical + 0x8000_0000
            };
            Event::MouseWheel { delta: Coordinates { x: horizontal, y }, modifiers }
        },
    }
}

impl SurfaceView {
    /// A surface that was just made.
    pub open spec fn fresh(surface_id: SurfaceId, viewport_id: ViewportId, size: (u32, u32)) -> Self {
        SurfaceView {
            surface_id,
            viewport_id,
            exit: false,
            unscaled_size: size,
            size,
            scale: ScaleFactor::Scalar(1),
            focused: false,
            events: Seq::empty(),
            modifiers: Modifiers::none(),
        }
    }

    /// The surface with one more event that waits.
    pub open spec fn with_event(self, event: Event) -> Self {
        SurfaceView { events: self.events.push(event), ..self }
    }

    /// The surface at a new size; see [`kept_if_zero`] for a dimension of 0.
    pub open spec fn resized(self, width: u32, height: u32) -> Self {
        let unscaled = (
            kept_if_zero(width, self.unscaled_size.0),
            kept_if_zero(height, self.unscaled_size.1),
        );
        SurfaceView {
            unscaled_size: unscaled,
            size: scaled_size(unscaled, self.scale),
            ..self
        }
    }

    /// The surface at a new scale.
    pub open spec fn rescaled(self, scale: ScaleFactor) -> Self {
        SurfaceView { scale, size: scaled_size(self.unscaled_size, scale), ..self }
    }

    /// The surface after it got or lost the keyboard focus.
    pub open spec fn focus_changed(self, focus: bool) -> Self {
        SurfaceView { focused: focus, ..self }.with_event(Event::WindowFocused(focus))
    }

    /// The event of a key with the modifiers that are held.
    pub open spec fn key_event(self, key: Key, pressed: bool, repeat: bool) -> Event {
        Event::Key { key, pressed, modifiers: self.modifiers, repeat }
    }

    /// The event that a pointer event becomes.
    pub open spec fn pointer_event(self, event: PointerEvent) -> Event {
        pointer_input(event, self.modifiers)
    }

    /// What is to be configured for the surface as it is.
    pub open spec fn configuration(self) -> SurfaceConfiguration {
        SurfaceConfiguration {
            size: self.size,
            destination: (self.unscaled_size.0 as i32, self.unscaled_size.1 as i32),
        }
    }
}

impl View for Surface {
    type V = SurfaceView;

    closed spec fn view(&self) -> SurfaceView {
        SurfaceView {
            surface_id: self.surface_id,
            viewport_id: self.viewport_id,
            exit: self.exit,
            unscaled_size: self.unscaled_size,
            size: self.size,
            scale: self.scale,
            focused: self.focused,
            events: self.events@,
            modifiers: self.modifiers,
        }
    }
}

impl Surface {
    pub fn create(surface_id: SurfaceId, viewport_id: ViewportId, size: (u32, u32)) -> (res: Self)
        ensures
            res@ == SurfaceView::fresh(surface_id, viewport_id, size),
    {
        Surface {
            surface_id,
            viewport_id,
            exit: false,
            unscaled_size: size,
            size,
            scale: ScaleFactor::Scalar(1),
            focused: false,
            events: Vec::new(),
            modifiers: Modifiers::default(),
        }
    }

    /// The input of the next frame. The events that waited go with it.
    pub fn next_raw_input(&mut self) -> (res: RawInput)
        ensures
            res.viewport_id == old(self)@.viewport_id,
            res.screen_size == old(self)@.unscaled_size,
            res.modifiers == old(self)@.modifiers,
            res.focused == old(self)@.focused,
            res.events@ == old(self)@.events,
            final(self)@ == (SurfaceView { events: Seq::empty(), ..old(self)@ }),
    {
        let mut events: Vec<Event> = Vec::new();
        core::mem::swap(&mut self.events, &mut events);
        RawInput {
            viewport_id: self.viewport_id,
            screen_size: self.unscaled_size,
            modifiers: self.modifiers,
            focused: self.focused,
            events,
        }
    }

    /// What the GPU surface and the viewport are configured with.
    pub fn configure_surface(&self) -> (res: SurfaceConfiguration)
        ensures
            res == self@.configuration(),
    {
        SurfaceConfiguration {
            size: self.size,
            destination: (self.unscaled_size.0 as i32, self.unscaled_size.1 as i32),
        }
    }

    /// Takes over a size from the compositor, and says what is to be configured.
    pub fn set_unscaled_size(&mut self, width: u32, height: u32) -> (res: SurfaceConfiguration)
        ensures
            final(self)@ == old(self)@.resized(width, height),
            res == final(self)@.configuration(),
    {
        let w: u32 = if width == 0 {
            self.unscaled_size.0
        } else {
            width
        };
        let h: u32 = if height == 0 {
            self.unscaled_size.1
        } else {
            height
        };
        self.unscaled_size = (w, h);
        self.size = (scale_length(w, self.scale), scale_length(h, self.scale));
        self.configure_surface()
    }

    pub fn handle_pointer_event(&mut self, event: &PointerEvent)
        ensures
            final(self)@ == old(self)@.with_event(old(self)@.pointer_event(*event)),
    {
        let input = to_pointer_input(event, self.modifiers);
        self.push_event(input);
    }

    pub fn has_events(&self) -> (res: bool)
        ensures
            res == (self@.events.len() > 0),
    {
        self.events.len() > 0
    }

    pub fn surface_id(&self) -> (res: SurfaceId)
        ensures
            res == self@.surface_id,
    {
        self.surface_id
    }

    pub fn viewport_id(&self) -> (res: ViewportId)
        ensures
            res == self@.viewport_id,
    {
        self.viewport_id
    }

    pub fn focused(&self) -> (res: bool)
        ensures
            res == self@.focused,
    {
        self.focused
    }

    pub fn modifiers(&self) -> (res: Modifiers)
        ensures
            res == self@.modifiers,
    {
        self.modifiers
    }

    pub fn size(&self) -> (res: (u32, u32))
        ensures
            res == self@.size,
    {
        self.size
    }

    pub fn exits(&self) -> (res: bool)
        ensures
            res == self@.exit,
    {
        self.exit
    }

    pub fn set_modifiers(&mut self, modifiers: Modifiers)
        ensures
            final(self)@ == (SurfaceView { modifiers, ..old(self)@ }),
    {
        self.modifiers = modifiers;
    }

    pub fn set_exit(&mut self)
        ensures
            final(self)@ == (SurfaceView { exit: true, ..old(self)@ }),
    {
        self.exit = true;
    }

    /// Takes over a scale, and says what is to be configured.
    pub fn set_scale(&mut self, scale: ScaleFactor) -> (res: SurfaceConfiguration)
        ensures
            final(self)@ == old(self)@.rescaled(scale),
            res == final(self)@.configuration(),
    {
        self.scale = scale;
        let (width, height) = self.unscaled_size;
        self.set_unscaled_size(width, height)
    }

    pub fn on_focus(&mut self, focus: bool)
        ensures
            final(self)@ == old(self)@.focus_changed(focus),
    {
        self.focused = focus;
        self.push_event(Event::WindowFocused(focus));
    }

    pub fn on_key(&mut self, key: Key, pressed: bool, repeat: bool)
        ensures
            final(self)@ == old(self)@.with_event(old(self)@.key_event(key, pressed, repeat)),
    {
        let modifiers = self.modifiers;
        self.push_event(Event::Key { key, pressed, modifiers, repeat });
    }

    pub fn push_event(&mut self, event: Event)
        ensures
            final(self)@ == old(self)@.with_event(event),
    {
        self.events.push(event);
    }
}

/// The events that reach a surface after a frame are the input of the next one: none is lost,
/// none is added, and they keep their order.
pub proof fn law_events_wait_in_order(after_frame: SurfaceView, events: Seq<Event>)
    requires
        after_frame.events == Seq::<Event>::empty(),
    ensures
        events.fold_left(after_frame, |s: SurfaceView, e: Event| s.with_event(e)).events == events,
    decreases events.len(),
{
    if events.len() > 0 {
        law_events_wait_in_order(after_frame, events.drop_last());
        assert(events.drop_last().push(events.last()) == events);
    }
}

/// A size in which both dimensions are given is taken over as it is, whatever the surface held.
pub proof fn law_resize_forgets(surface: SurfaceView, first: (u32, u32), second: (u32, u32))
    requires
        second.0 != 0,
        second.1 != 0,
    ensures
        surface.resized(first.0, first.1).resized(second.0, second.1) == surface.resized(
            second.0,
            second.1,
        ),
{
}

/// At scale 1 a surface of less than 2^24 pixels is drawn at the size that it is shown at.
pub proof fn law_scale_one_is_identity(length: u32)
    requires
        length < 0x100_0000,
    ensures
        scaled_length(length, ScaleFactor::Scalar(1)) == length,
        scaled_length(length, ScaleFactor::Fractional(120)) == length,
{
    let n = length as nat;
    let one = ONE as nat;
    assert(crate::binary32::spacing(n) == 1);
    assert(crate::binary32::spacing(1) == 1);
    assert(crate::binary32::spacing(120) == 1);
    crate::binary32::law_rounding_keeps_representable(n);
    crate::binary32::law_rounding_keeps_representable(1);
    crate::binary32::law_rounding_keeps_representable(120);
    assert(n * 1 == n) by (nonlinear_arith);
    vstd::arithmetic::power2::lemma2_to64();
    assert(one == vstd::arithmetic::power2::pow2(64));
    crate::binary32::lemma_doubled_is_representable(1, 64);
    crate::binary32::lemma_doubled_is_representable(n, 64);
    assert(1 * one == one) by (nonlinear_arith);
    crate::binary32::law_ratio_rounding_is_nearest(120 * one, 120, one);
    assert(fraction_of_120(120) == one);
    crate::binary32::law_rounding_keeps_representable(n * one);
    vstd::arithmetic::div_mod::lemma_div_multiples_vanish(n as int, one as int);
}

} // verus!
