//! Surfaces that are kept in one place, and that somebody else is asked to repaint.

use crate::app_surface_driver::FullSurfaceId;
use crate::windowing::layer_shell::{changed, reported, ShellSurface, ShellView, Surfaces};
use crate::windowing::surface::{Key, Modifiers, PointerEvent, SurfaceId, ViewportId};
use vstd::prelude::*;

verus! {

/// What is asked of those who repaint.
#[derive(Debug, Clone, Copy, PartialEq, Eq, Structural)]
pub enum DispatcherRequest {
    RepaintSurface(SurfaceId),
    RepaintViewport(ViewportId, u64),
}

/// The surfaces, and the surface that the keyboard is on.
pub struct Windowing {
    surfaces: Surfaces,
    keyboard_entered_surface: Option<SurfaceId>,
}

/// What a [`Windowing`] holds.
#[verifier::ext_equal]
pub struct WindowingView {
    pub surfaces: Map<SurfaceId, ShellView>,
    pub entered: Option<SurfaceId>,
}

impl View for Windowing {
    type V = WindowingView;

    closed spec fn view(&self) -> WindowingView {
        WindowingView { surfaces: self.surfaces@, entered: self.keyboard_entered_surface }
    }
}

impl WindowingView {
    /// A change of the surface that the keyboard is on; none, where it is on no known surface.
    pub open spec fn on_entered(self, change: spec_fn(ShellView) -> ShellView) -> WindowingView {
        match self.entered {
            Some(id) => WindowingView { surfaces: changed(self.surfaces, id, change), ..self },
            None => self,
        }
    }
}

/// The surfaces after the events of a pointer; those for unknown surfaces are passed over.
pub open spec fn pointed_all(
    surfaces: Map<SurfaceId, ShellView>,
    events: Seq<PointerEvent>,
) -> Map<SurfaceId, ShellView>
    decreases events.len(),
{
    if events.len() == 0 {
        surfaces
    } else {
        changed(
            pointed_all(surfaces, events.drop_last()),
            events.last().surface,
            |s: ShellView| s.pointed(events.last()),
        )
    }
}

impl Windowing {
    pub fn create() -> (res: Self)
        ensures
            (res@ == WindowingView { surfaces: Map::empty(), entered: None }),
    {
        Windowing { surfaces: Surfaces::new(), keyboard_entered_surface: None }
    }

    /// Takes over a surface that was made, of the given size.
    pub fn create_surface(
        &mut self,
        id: SurfaceId,
        viewport_id: ViewportId,
        width: u32,
        height: u32,
    ) -> (res: FullSurfaceId)
        ensures
            res == (FullSurfaceId { surface_id: id, viewport_id }),
            (final(self)@ == WindowingView {
                surfaces: old(self)@.surfaces.insert(id, ShellView::fresh((width, height))),
                ..old(self)@
            }),
    {
        self.surfaces.insert(id, ShellSurface::create(width, height));
        FullSurfaceId { surface_id: id, viewport_id }
    }

    /// Whether a surface can be repainted: it can, where it is known.
    pub fn repaint_surface(&self, id: SurfaceId) -> (res: bool)
        ensures
            res == self@.surfaces.dom().contains(id),
    {
        self.surfaces.get(id).is_some()
    }

    /// The compositor asks for a frame.
    pub fn frame(&self, id: SurfaceId) -> (res: DispatcherRequest)
        ensures
            res == DispatcherRequest::RepaintSurface(id),
    {
        DispatcherRequest::RepaintSurface(id)
    }

    pub fn closed(&mut self, id: SurfaceId)
        ensures
            (final(self)@ == WindowingView {
                surfaces: changed(
                    old(self)@.surfaces,
                    id,
                    |s: ShellView| ShellView { exit: true, ..s },
                ),
                ..old(self)@
            }),
    {
        self.surfaces.close(id);
    }

    /// Configures a surface: says what the GPU surface is configured with, and asks for a repaint
    /// where it was not configured before. Nothing is done for an unknown surface.
    pub fn configure(&mut self, id: SurfaceId, new_size: (u32, u32)) -> (res: Option<
        ((u32, u32), Option<DispatcherRequest>),
    >)
        ensures
            (final(self)@ == WindowingView {
                surfaces: changed(
                    old(self)@.surfaces,
                    id,
                    |s: ShellView| s.resized(new_size.0, new_size.1),
                ),
                ..old(self)@
            }),
            res == if old(self)@.surfaces.dom().contains(id) {
                Some(
                    (
                        final(self)@.surfaces[id].size,
                        if old(self)@.surfaces[id].first_configure {
                            Some(DispatcherRequest::RepaintSurface(id))
                        } else {
                            None
                        },
                    ),
                )
            } else {
                None
            },
    {
        match self.surfaces.resize(id, new_size.0, new_size.1) {
            Some((size, first)) => {
                let request = if first {
                    Some(DispatcherRequest::RepaintSurface(id))
                } else {
                    None
                };
                Some((size, request))
            },
            None => None,
        }
    }

    /// The keyboard enters a surface; where that one is unknown, the keyboard is on none.
    pub fn enter(&mut self, id: SurfaceId)
        ensures
            (final(self)@ == WindowingView {
                surfaces: changed(old(self)@.surfaces, id, |s: ShellView| s.focus_changed(true)),
                entered: if old(self)@.surfaces.dom().contains(id) {
                    Some(id)
                } else {
                    None
                },
            }),
    {
        if self.surfaces.focus(id, true) {
            self.keyboard_entered_surface = Some(id);
        } else {
            self.keyboard_entered_surface = None;
        }
    }

    /// The keyboard leaves a surface; it is then on none, whichever it was on.
    pub fn leave(&mut self, id: SurfaceId)
        ensures
            (final(self)@ == WindowingView {
                surfaces: changed(old(self)@.surfaces, id, |s: ShellView| s.focus_changed(false)),
                entered: None,
            }),
    {
        self.keyboard_entered_surface = None;
        self.surfaces.focus(id, false);
    }

    pub fn press_key(&mut self, utf8: Option<String>, key: Option<Key>)
        ensures
            final(self)@ == old(self)@.on_entered(|s: ShellView| s.key_pressed(utf8, key)),
    {
        if let Some(id) = self.keyboard_entered_surface {
            self.surfaces.press(id, utf8, key);
        }
    }

    pub fn release_key(&mut self, key: Option<Key>)
        ensures
            final(self)@ == old(self)@.on_entered(|s: ShellView| s.key_released(key)),
    {
        if let Some(id) = self.keyboard_entered_surface {
            self.surfaces.release(id, key);
        }
    }

    pub fn update_modifiers(&mut self, alt: bool, ctrl: bool, shift: bool)
        ensures
            final(self)@ == old(self)@.on_entered(
                |s: ShellView| ShellView { modifiers: reported(alt, ctrl, shift), ..s },
            ),
    {
        if let Some(id) = self.keyboard_entered_surface {
            let modifiers = Modifiers { alt, ctrl, shift, mac_cmd: false, command: false };
            self.surfaces.modify(id, modifiers);
        }
    }

    /// Hands the events of a pointer to their surfaces; those for unknown surfaces are passed over.
    pub fn pointer_frame(&mut self, events: &Vec<PointerEvent>)
        ensures
            (final(self)@ == WindowingView {
                surfaces: pointed_all(old(self)@.surfaces, events@),
                ..old(self)@
            }),
    {
        let mut i: usize = 0;
        while i < events.len()
            invariant
                i <= events.len(),
                self@.entered == old(self)@.entered,
                self@.surfaces == pointed_all(old(self)@.surfaces, events@.take(i as int)),
            decreases events.len() - i,
        {
            let event = events[i];
            let ghost before = self@.surfaces;
            self.surfaces.point(event.surface, &event);
            i += 1;
            proof {
                let taken = events@.take(i as int);
                assert(taken.drop_last() == events@.take(i - 1));
                assert(taken.last() == event);
                assert(self@.surfaces == changed(
                    before,
                    event.surface,
                    |s: ShellView| s.pointed(taken.last()),
                ));
            }
        }
        assert(events@.take(i as int) == events@);
    }

    /// What is to be asked for after the events that were there have been dispatched: a repaint of
    /// each surface with events that wait, where there was nothing to dispatch. None means that the
    /// client comes back before it waits for new events.
    pub fn update(&self, dispatched: usize) -> (res: Option<Vec<SurfaceId>>)
        ensures
            res is None == (dispatched > 0),
            res is Some ==> {
                &&& res->0@.no_duplicates()
                &&& forall|id: SurfaceId| #[trigger] res->0@.contains(id)
                    <==> self@.surfaces.dom().contains(id) && self@.surfaces[id].events.len() > 0
            },
    {
        if dispatched > 0 {
            None
        } else {
            Some(self.surfaces.with_events())
        }
    }
}

/// The events of a frame arrive at every surface that is known, whatever other surfaces the frame
/// has events for: those that wait on it grow by as many as the frame has for it.
pub proof fn law_known_surfaces_get_their_events(
    surfaces: Map<SurfaceId, ShellView>,
    events: Seq<PointerEvent>,
    id: SurfaceId,
)
    requires
        surfaces.dom().contains(id),
    ensures
        pointed_all(surfaces, events).dom() == surfaces.dom(),
        pointed_all(surfaces, events)[id].events.len() == surfaces[id].events.len()
            + events.filter(|e: PointerEvent| e.surface == id).len(),
    decreases events.len(),
{
    reveal(Seq::filter);
    if events.len() > 0 {
        law_known_surfaces_get_their_events(surfaces, events.drop_last(), id);
        assert(pointed_all(surfaces, events).dom() =~= surfaces.dom());
    }
}

} // verus!
