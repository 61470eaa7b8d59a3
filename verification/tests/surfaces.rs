use polymodo::windowing::client::{Capability, Dispatcher, RepeatInfo, SurfaceEvent};
use polymodo::windowing::layer_shell::{LayerShellOptions, LayerWindowing, NoSuchSurface, ShellSurface};
use polymodo::windowing::surface::{
    to_pointer_input, Anchor, Coordinates, Event, Key, Layer, LayerSurfaceOptions, Modifiers,
    PointerEvent, PointerEventKind, ScaleFactor, Surface, SurfaceId, ViewportId,
};
use polymodo::windowing::windowing::{DispatcherRequest, Windowing};

fn fresh() -> Surface {
    Surface::create(SurfaceId(1), ViewportId(2), (640, 480))
}

fn at(id: u64, kind: PointerEventKind) -> PointerEvent {
    let position = Coordinates { x: 1.5f32.to_bits(), y: 2.5f32.to_bits() };
    PointerEvent { surface: SurfaceId(id), position, kind }
}

#[test]
fn scaled_sizes_follow_single_precision() {
    let lengths = [0u32, 1, 3, 640, 1079, 16_777_215, 16_777_217, 4_294_967_295];
    for n in [1u32, 60, 90, 119, 120, 121, 150, 180, 233, 240, 1000, 123_457, 4_294_967_295] {
        let scale = n as f32 / 120f32;
        for length in lengths {
            let mut s = Surface::create(SurfaceId(1), ViewportId(2), (length, length));
            s.set_scale(ScaleFactor::Fractional(n));
            assert_eq!(s.size().0, (length as f32 * scale) as u32, "{length} at {n}");
        }
    }
    for n in [-3i32, 0, 1, 2, 3, 7, 16_777_217, 2_147_483_647] {
        for length in lengths {
            let mut s = Surface::create(SurfaceId(1), ViewportId(2), (length, length));
            s.set_scale(ScaleFactor::Scalar(n));
            assert_eq!(s.size().1, (length as f32 * n as f32) as u32, "{length} at {n}");
        }
    }
}

#[test]
fn open_dimension_stays() {
    let mut s = fresh();
    let configuration = s.set_unscaled_size(800, 0);
    assert_eq!(configuration.size, (800, 480));
    s.set_scale(ScaleFactor::Scalar(2));
    let configuration = s.set_unscaled_size(0, 100);
    assert_eq!(configuration.size, (1600, 200));
    assert_eq!(configuration.destination, (800, 100));
    assert_eq!(s.configure_surface(), configuration);
}

#[test]
fn later_size_replaces_earlier_one() {
    let mut a = fresh();
    a.set_unscaled_size(5, 6);
    a.set_unscaled_size(7, 8);
    let mut b = fresh();
    assert_eq!(a.configure_surface(), b.set_unscaled_size(7, 8));
}

#[test]
fn events_wait_in_order_for_one_frame() {
    let mut s = fresh();
    assert!(!s.has_events());
    s.set_modifiers(Modifiers { alt: true, ..Modifiers::default() });
    s.on_focus(true);
    s.push_event(Event::Text("a".to_string()));
    s.on_key(Key(7), true, false);
    s.handle_pointer_event(&at(1, PointerEventKind::Press { button: 272 }));
    assert!(s.has_events());
    let input = s.next_raw_input();
    assert_eq!(input.viewport_id, ViewportId(2));
    assert_eq!(input.screen_size, (640, 480));
    assert!(input.focused && input.modifiers.alt);
    assert_eq!(input.events.len(), 4);
    assert!(matches!(input.events[0], Event::WindowFocused(true)));
    assert!(matches!(&input.events[1], Event::Text(t) if t == "a"));
    assert!(matches!(
        input.events[2],
        Event::Key { key: Key(7), pressed: true, repeat: false, modifiers: Modifiers { alt: true, .. } }
    ));
    assert!(matches!(input.events[3], Event::PointerButton { button: 272, pressed: true, .. }));
    assert!(!s.has_events());
    assert!(s.next_raw_input().events.is_empty());
}

#[test]
fn getters_say_what_was_set() {
    let mut s = fresh();
    assert_eq!((s.surface_id(), s.viewport_id()), (SurfaceId(1), ViewportId(2)));
    assert!(!s.focused() && !s.exits());
    s.set_exit();
    s.on_focus(true);
    assert!(s.focused() && s.exits());
    assert_eq!(s.modifiers(), Modifiers::default());
}

#[test]
fn pointer_events_become_input() {
    let m = Modifiers::default();
    let position = at(1, PointerEventKind::Enter).position;
    assert!(matches!(to_pointer_input(&at(1, PointerEventKind::Enter), m), Event::PointerMoved(p) if p == position));
    assert!(matches!(to_pointer_input(&at(1, PointerEventKind::Motion), m), Event::PointerMoved(p) if p == position));
    assert!(matches!(to_pointer_input(&at(1, PointerEventKind::Leave), m), Event::PointerGone));
    let release = PointerEventKind::Release { button: 3 };
    assert!(matches!(
        to_pointer_input(&at(1, release), m),
        Event::PointerButton { button: 3, pressed: false, position: p, .. } if p == position
    ));
    for vertical in [1.5f32, -2.0, 0.0] {
        let axis = PointerEventKind::Axis { horizontal: 4f32.to_bits(), vertical: vertical.to_bits() };
        match to_pointer_input(&at(1, axis), m) {
            Event::MouseWheel { delta, .. } => {
                assert_eq!(delta.x, 4f32.to_bits());
                assert_eq!(delta.y, (-vertical).to_bits());
            }
            _ => panic!("no wheel"),
        }
    }
}

#[test]
fn surface_options_have_defaults() {
    let options = LayerSurfaceOptions::default();
    assert_eq!(options.layer, Layer::Top);
    assert_eq!(options.anchor, Anchor { top: false, bottom: false, left: false, right: false });
    assert_eq!((options.width, options.height), (1024, 1024));
    let options = LayerShellOptions::default();
    assert_eq!(options.anchor, Anchor { top: true, bottom: true, left: true, right: true });
    assert_eq!((options.width, options.height), (1024, 1024));
    assert!(options.namespace.is_none());
}

#[test]
fn keys_go_to_the_surface_that_was_entered() {
    let mut d = Dispatcher::create();
    assert!(d.press_key(Some("a".to_string()), None).is_none());
    assert!(d.release_key(Some(Key(1))).is_none());
    assert!(d.update_modifiers(true, true, true).is_none());
    assert!(matches!(d.enter(SurfaceId(4)), SurfaceEvent::KeyboardFocus(SurfaceId(4), true)));
    assert!(matches!(
        d.press_key(Some("a".to_string()), Some(Key(9))),
        Some(SurfaceEvent::PressKey(SurfaceId(4), Some(t), Some(Key(9)))) if t == "a"
    ));
    for silent in ["", "\u{7f}", "\r\n", "\u{1b}"] {
        assert!(matches!(
            d.press_key(Some(silent.to_string()), None),
            Some(SurfaceEvent::PressKey(SurfaceId(4), None, None))
        ));
    }
    assert!(matches!(
        d.press_key(Some("\nx".to_string()), None),
        Some(SurfaceEvent::PressKey(_, Some(_), None))
    ));
    assert!(matches!(d.release_key(None), Some(SurfaceEvent::ReleaseKey(SurfaceId(4), None))));
    match d.update_modifiers(false, true, true) {
        Some(SurfaceEvent::UpdateModifiers(id, m)) => {
            assert_eq!(id, SurfaceId(4));
            assert_eq!(m, Modifiers { alt: false, ctrl: true, shift: true, mac_cmd: false, command: true });
        }
        _ => panic!("no modifiers"),
    }
    assert!(matches!(d.leave(SurfaceId(5)), SurfaceEvent::KeyboardFocus(SurfaceId(5), false)));
    assert_eq!(d.keyboard_entered_surface, None);
}

#[test]
fn devices_are_taken_and_released_once() {
    let mut d = Dispatcher::create();
    assert!(!d.remove_capability(Capability::Keyboard));
    assert!(d.new_capability(Capability::Keyboard));
    assert!(!d.new_capability(Capability::Keyboard));
    assert!(d.new_capability(Capability::Pointer));
    assert!(!d.new_capability(Capability::Touch));
    assert!(d.remove_capability(Capability::Pointer));
    assert!(!d.remove_capability(Capability::Pointer));
    assert!(d.keyboard && !d.pointer);
}

#[test]
fn compositor_events_are_passed_on() {
    let d = Dispatcher::create();
    let id = SurfaceId(3);
    assert!(matches!(d.dispatched(), SurfaceEvent::UpdateAllWithEvents));
    assert!(matches!(d.frame(id), SurfaceEvent::NeedsRepaintSurface(SurfaceId(3))));
    assert!(matches!(d.closed(id), SurfaceEvent::Closed(SurfaceId(3))));
    assert!(matches!(d.configure(id, (1, 2)), SurfaceEvent::Configure(SurfaceId(3), (1, 2))));
    assert!(matches!(d.scale_factor_changed(id, 2), SurfaceEvent::Scale(SurfaceId(3), ScaleFactor::Scalar(2))));
    assert!(matches!(d.preferred_scale(id, 90), SurfaceEvent::Scale(SurfaceId(3), ScaleFactor::Fractional(90))));
    assert!(matches!(
        d.update_repeat_info(RepeatInfo::Disable),
        SurfaceEvent::UpdateRepeatInfo(RepeatInfo::Disable)
    ));
    let frame = vec![at(1, PointerEventKind::Enter), at(2, PointerEventKind::Motion)];
    let events = d.pointer_frame(&frame);
    assert_eq!(events.len(), 2);
    assert!(matches!(&events[1], SurfaceEvent::Pointer(SurfaceId(2), e) if *e == frame[1]));
}

#[test]
fn shell_surface_takes_its_default_size() {
    let mut s = ShellSurface::create(300, 200);
    assert_eq!(s.configure(0, 0), (300, 200));
    assert_eq!(s.configure(0, 50), (300, 50));
    assert_eq!(s.configure(60, 0), (60, 200));
    assert_eq!(s.update_size(0, 0), (300, 0));
    assert_eq!(s.update_size(10, 20), (10, 20));
    assert!(s.is_first_configure());
    assert!(s.first_draw());
    assert!(!s.first_draw());
}

#[test]
fn shell_surface_collects_events() {
    let mut s = ShellSurface::create(1, 1);
    s.on_focus(true);
    s.press_key(Some("q".to_string()), Some(Key(5)));
    s.press_key(Some("\u{1}".to_string()), None);
    s.release_key(Some(Key(5)));
    s.release_key(None);
    s.handle_pointer_event(&at(1, PointerEventKind::Leave));
    assert!(s.focused() && s.has_events());
    let input = s.next_raw_input();
    assert_eq!((input.screen_size, input.focused), ((1, 1), true));
    let events = input.events;
    assert_eq!(events.len(), 5);
    assert!(matches!(&events[1], Event::Text(t) if t == "q"));
    assert!(matches!(events[2], Event::Key { key: Key(5), pressed: true, .. }));
    assert!(matches!(events[3], Event::Key { key: Key(5), pressed: false, .. }));
    assert!(!s.has_events());
}

#[test]
fn layer_windowing_draws_known_surfaces() {
    let mut w = LayerWindowing::create();
    assert_eq!(w.create_surface(SurfaceId(1), 30, 20), SurfaceId(1));
    assert_eq!(w.render(SurfaceId(2), true, true), Err(NoSuchSurface));
    assert_eq!(w.render(SurfaceId(1), false, false), Ok(false));
    assert_eq!(w.render(SurfaceId(1), true, false), Ok(true));
    assert_eq!(w.render(SurfaceId(1), false, true), Ok(true));
    assert!(w.frame(SurfaceId(1)) && !w.frame(SurfaceId(2)));
    assert_eq!(w.configure(SurfaceId(1), (0, 0)), Some(((30, 20), true)));
    assert_eq!(w.configure(SurfaceId(1), (5, 0)), Some(((5, 20), false)));
    assert_eq!(w.configure(SurfaceId(2), (5, 0)), None);
    assert_eq!(w.configure_updated(SurfaceId(1), (0, 0)), Some(((30, 0), false)));
    assert_eq!(w.configure_updated(SurfaceId(2), (0, 0)), None);
    w.enter(SurfaceId(2));
    w.press_key(Some("a".to_string()), None);
    assert_eq!(w.render(SurfaceId(1), false, false), Ok(false));
    w.enter(SurfaceId(1));
    w.leave(SurfaceId(2));
    w.update_modifiers(false, true, false);
    w.press_key(Some("a".to_string()), Some(Key(1)));
    w.release_key(Some(Key(1)));
    w.closed(SurfaceId(1));
    let events = w.next_raw_input(SurfaceId(1)).unwrap().events;
    assert_eq!(events.len(), 4);
    assert!(matches!(
        events[3],
        Event::Key { pressed: false, modifiers: Modifiers { ctrl: true, command: false, .. }, .. }
    ));
    assert!(w.next_raw_input(SurfaceId(2)).is_none());
}

#[test]
fn layer_windowing_stops_at_an_unknown_surface() {
    let mut w = LayerWindowing::create();
    w.create_surface(SurfaceId(1), 30, 20);
    let motion = PointerEventKind::Motion;
    w.pointer_frame(&vec![at(1, motion), at(2, motion), at(1, motion)]);
    assert_eq!(w.next_raw_input(SurfaceId(1)).unwrap().events.len(), 1);
    w.pointer_frame(&vec![at(1, motion), at(1, motion)]);
    assert_eq!(w.next_raw_input(SurfaceId(1)).unwrap().events.len(), 2);
}

#[test]
fn windowing_passes_over_unknown_surfaces() {
    let mut w = Windowing::create();
    let full = w.create_surface(SurfaceId(1), ViewportId(3), 30, 20);
    assert_eq!((full.surface_id, full.viewport_id), (SurfaceId(1), ViewportId(3)));
    let motion = PointerEventKind::Motion;
    assert_eq!(w.update(0), Some(vec![]));
    w.pointer_frame(&vec![at(2, motion), at(1, motion)]);
    assert_eq!(w.update(1), None);
    assert_eq!(w.update(0), Some(vec![SurfaceId(1)]));
    assert!(w.repaint_surface(SurfaceId(1)) && !w.repaint_surface(SurfaceId(2)));
    assert_eq!(w.frame(SurfaceId(7)), DispatcherRequest::RepaintSurface(SurfaceId(7)));
    let repaint = Some(DispatcherRequest::RepaintSurface(SurfaceId(1)));
    assert_eq!(w.configure(SurfaceId(1), (0, 0)), Some(((30, 0), repaint)));
    assert_eq!(w.configure(SurfaceId(1), (4, 4)), Some(((4, 4), repaint)));
    assert_eq!(w.configure(SurfaceId(2), (4, 4)), None);
}

#[test]
fn windowing_follows_the_keyboard() {
    let mut w = Windowing::create();
    w.create_surface(SurfaceId(1), ViewportId(3), 30, 20);
    w.create_surface(SurfaceId(2), ViewportId(4), 30, 20);
    w.press_key(None, Some(Key(1)));
    assert_eq!(w.update(0), Some(vec![]));
    w.enter(SurfaceId(1));
    w.enter(SurfaceId(9));
    w.press_key(None, Some(Key(1)));
    w.enter(SurfaceId(2));
    w.leave(SurfaceId(1));
    w.release_key(Some(Key(1)));
    w.update_modifiers(true, true, true);
    w.closed(SurfaceId(1));
    let mut waiting = w.update(0).unwrap();
    waiting.sort_by_key(|id| id.0);
    assert_eq!(waiting, vec![SurfaceId(1), SurfaceId(2)]);
}
