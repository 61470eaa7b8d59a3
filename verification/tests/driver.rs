use polymodo::app_surface_driver::{
    create_app_driver, Action, AppEvent, AppSurfaceDriver, AppSurfaceEvent, DriverError,
    DriverInput, DriverTurn,
};
use polymodo::windowing::client::{RepeatInfo, SurfaceEvent};
use polymodo::windowing::surface::{
    Coordinates, Key, Modifiers, PointerEvent, PointerEventKind, ScaleFactor, Surface, SurfaceId,
    ViewportId, ROOT_VIEWPORT,
};

const ROOT: ViewportId = ViewportId(ROOT_VIEWPORT);

fn surface(id: u64) -> Surface {
    Surface::create(SurfaceId(id), ROOT, (100, 50))
}

/// App 1 with surface 10 and app 2 with surface 20.
fn driver() -> AppSurfaceDriver {
    let mut driver = AppSurfaceDriver::create();
    driver.add_app(create_app_driver(1, "first".to_string()), surface(10));
    driver.add_app(create_app_driver(2, "second".to_string()), surface(20));
    driver
}

fn pointer(id: u64, kind: PointerEventKind) -> SurfaceEvent {
    let position = Coordinates { x: 0, y: 0 };
    SurfaceEvent::Pointer(SurfaceId(id), PointerEvent { surface: SurfaceId(id), position, kind })
}

#[test]
fn unknown_surface_is_refused() {
    let mut d = driver();
    let id = SurfaceId(99);
    let events = vec![
        SurfaceEvent::NeedsRepaintSurface(id),
        SurfaceEvent::NeedsRepaintViewport(1, ViewportId(5), 0),
        SurfaceEvent::Closed(id),
        SurfaceEvent::Configure(id, (1, 1)),
        SurfaceEvent::KeyboardFocus(id, true),
        SurfaceEvent::PressKey(id, None, Some(Key(1))),
        SurfaceEvent::RepeatKey(id, None, Some(Key(1))),
        SurfaceEvent::ReleaseKey(id, Some(Key(1))),
        SurfaceEvent::UpdateModifiers(id, Modifiers::default()),
        pointer(99, PointerEventKind::Motion),
        SurfaceEvent::Scale(id, ScaleFactor::Scalar(2)),
    ];
    for event in events {
        let handled = d.handle_event(event);
        assert_eq!(handled.result, Err(DriverError::NoSuchSurface));
        assert!(handled.actions.is_empty());
    }
}

#[test]
fn frame_paints_the_surface_of_its_app() {
    let mut d = driver();
    let handled = d.handle_event(SurfaceEvent::NeedsRepaintSurface(SurfaceId(20)));
    assert_eq!(handled.result, Ok(()));
    assert_eq!(handled.actions.len(), 1);
    assert!(matches!(handled.actions[0], Action::Paint { app: 2, surface: SurfaceId(20) }));
}

#[test]
fn stale_paint_is_skipped() {
    let mut d = driver();
    d.rendered(2, 5);
    for (pass, count) in [(None, 1), (Some(4), 0), (Some(5), 1), (Some(0), 0)] {
        let handled = d.paint(SurfaceId(20), pass);
        assert_eq!((handled.result, handled.actions.len()), (Ok(()), count));
    }
    assert_eq!(d.paint(SurfaceId(10), Some(0)).actions.len(), 1);
    assert_eq!(d.paint(SurfaceId(30), None).result, Err(DriverError::NoSuchSurface));
}

#[test]
fn only_current_requests_are_painted() {
    let mut d = driver();
    let paints = |d: &mut AppSurfaceDriver, pass: u64| {
        d.handle_event(SurfaceEvent::NeedsRepaintViewport(1, ROOT, pass)).actions.len()
    };
    assert_eq!(paints(&mut d, 0), 1);
    d.rendered(1, 3);
    assert_eq!(paints(&mut d, 2), 0);
    assert_eq!(paints(&mut d, 3), 1);
    assert_eq!(paints(&mut d, 4), 1);
    d.rendered(7, 100);
    assert_eq!(paints(&mut d, 3), 1);
    let other = d.handle_event(SurfaceEvent::NeedsRepaintViewport(2, ROOT, 0));
    assert_eq!(other.actions.len(), 1);
}

#[test]
fn surfaces_with_events_are_repainted_in_order() {
    let mut d = driver();
    assert!(d.handle_event(SurfaceEvent::UpdateAllWithEvents).actions.is_empty());
    d.handle_event(pointer(20, PointerEventKind::Motion));
    d.handle_event(pointer(10, PointerEventKind::Motion));
    let handled = d.handle_event(SurfaceEvent::UpdateAllWithEvents);
    assert_eq!(handled.result, Ok(()));
    assert_eq!(handled.actions.len(), 2);
    assert!(matches!(handled.actions[0], Action::RequestRepaint { app: 1, viewport: ROOT }));
    assert!(matches!(handled.actions[1], Action::RequestRepaint { app: 2, viewport: ROOT }));
}

#[test]
fn configure_resizes_and_paints() {
    let mut d = driver();
    let handled = d.handle_event(SurfaceEvent::Configure(SurfaceId(10), (0, 80)));
    assert_eq!(handled.actions.len(), 2);
    match &handled.actions[0] {
        Action::ConfigureSurface { surface, configuration } => {
            assert_eq!(*surface, SurfaceId(10));
            assert_eq!(configuration.size, (100, 80));
            assert_eq!(configuration.destination, (100, 80));
        }
        _ => panic!("not configured"),
    }
    assert!(matches!(handled.actions[1], Action::Paint { app: 1, surface: SurfaceId(10) }));
}

#[test]
fn app_is_told_of_focus_and_pointer() {
    let mut d = driver();
    let told = |d: &mut AppSurfaceDriver, event: SurfaceEvent| match d.handle_event(event).actions.pop() {
        Some(Action::SurfaceEvent { app: 1, event }) => Some(event),
        _ => None,
    };
    let id = SurfaceId(10);
    assert_eq!(told(&mut d, SurfaceEvent::KeyboardFocus(id, true)), Some(AppSurfaceEvent::KeyboardEnter(ROOT)));
    assert_eq!(told(&mut d, SurfaceEvent::KeyboardFocus(id, false)), Some(AppSurfaceEvent::KeyboardLeave(ROOT)));
    assert_eq!(told(&mut d, pointer(10, PointerEventKind::Enter)), Some(AppSurfaceEvent::PointerEnter(ROOT)));
    assert_eq!(told(&mut d, pointer(10, PointerEventKind::Leave)), Some(AppSurfaceEvent::PointerLeave(ROOT)));
    assert_eq!(told(&mut d, pointer(10, PointerEventKind::Motion)), None);
}

#[test]
fn one_key_repeats() {
    let mut d = driver();
    let id = SurfaceId(10);
    let press = |d: &mut AppSurfaceDriver, key: u32| {
        d.handle_event(SurfaceEvent::PressKey(id, Some("x".to_string()), Some(Key(key)))).actions
    };
    assert!(press(&mut d, 1).is_empty());
    d.handle_event(SurfaceEvent::UpdateRepeatInfo(RepeatInfo::Repeat { rate: 25, delay: 600 }));
    let actions = press(&mut d, 2);
    assert_eq!(actions.len(), 1);
    match &actions[0] {
        Action::StartRepeat(repeat) => {
            assert_eq!(repeat.surface, id);
            assert_eq!(repeat.text, Some("x".to_string()));
            assert_eq!(repeat.key, Some(Key(2)));
            assert_eq!((repeat.rate, repeat.delay), (25, 600));
        }
        _ => panic!("does not repeat"),
    }
    let actions = press(&mut d, 3);
    assert!(matches!(actions[0], Action::AbortRepeat));
    assert!(matches!(actions[1], Action::StartRepeat(_)));
    let released = d.handle_event(SurfaceEvent::ReleaseKey(id, None));
    assert!(matches!(released.actions[0], Action::AbortRepeat));
    assert!(d.handle_event(SurfaceEvent::ReleaseKey(id, None)).actions.is_empty());
    d.handle_event(SurfaceEvent::UpdateRepeatInfo(RepeatInfo::Disable));
    assert!(press(&mut d, 4).is_empty());
}

#[test]
fn press_without_text_and_key_does_nothing() {
    let mut d = driver();
    d.handle_event(SurfaceEvent::UpdateRepeatInfo(RepeatInfo::Repeat { rate: 1, delay: 1 }));
    let handled = d.handle_event(SurfaceEvent::PressKey(SurfaceId(99), None, None));
    assert_eq!(handled.result, Ok(()));
    assert!(handled.actions.is_empty());
}

#[test]
fn repeated_key_asks_for_a_repaint() {
    let mut d = driver();
    let handled = d.handle_event(SurfaceEvent::RepeatKey(SurfaceId(20), None, Some(Key(4))));
    assert!(matches!(handled.actions[0], Action::RequestRepaint { app: 2, viewport: ROOT }));
}

#[test]
fn scale_zooms_and_configures() {
    let mut d = driver();
    let handled = d.handle_event(SurfaceEvent::Scale(SurfaceId(10), ScaleFactor::Fractional(180)));
    assert!(matches!(
        handled.actions[0],
        Action::SetZoomFactor { app: 1, scale: ScaleFactor::Fractional(180) }
    ));
    match &handled.actions[1] {
        Action::ConfigureSurface { configuration, .. } => {
            assert_eq!(configuration.size, (150, 75));
            assert_eq!(configuration.destination, (100, 50));
        }
        _ => panic!("not configured"),
    }
}

#[test]
fn removed_app_leaves_nothing() {
    let mut d = driver();
    d.handle_event(SurfaceEvent::UpdateRepeatInfo(RepeatInfo::Repeat { rate: 25, delay: 600 }));
    d.handle_event(SurfaceEvent::PressKey(SurfaceId(10), None, Some(Key(1))));
    let actions = d.remove_app(1);
    assert_eq!(actions.len(), 3);
    assert!(matches!(actions[0], Action::DestroySurface { surface: SurfaceId(10) }));
    assert!(matches!(actions[1], Action::DropApp { app: 1 }));
    assert!(matches!(actions[2], Action::AbortRepeat));
    assert!(!d.is_running(&"first".to_string()));
    assert!(d.is_running(&"second".to_string()));
    assert_eq!(d.on_app_message(1).result, Err(DriverError::NoSuchApp));
    let gone = d.handle_event(SurfaceEvent::NeedsRepaintSurface(SurfaceId(10)));
    assert_eq!(gone.result, Err(DriverError::NoSuchSurface));
    let kept = d.handle_event(SurfaceEvent::NeedsRepaintSurface(SurfaceId(20)));
    assert!(matches!(kept.actions[0], Action::Paint { app: 2, surface: SurfaceId(20) }));
    assert!(d.remove_app(1).is_empty());
}

#[test]
fn surface_without_its_app_is_refused() {
    let mut d = AppSurfaceDriver::create();
    d.add_app(create_app_driver(1, "a".to_string()), surface(10));
    d.add_app(create_app_driver(1, "a".to_string()), surface(11));
    assert_eq!(d.remove_app(1).len(), 4);
    assert_eq!(d.on_app_message(1).result, Err(DriverError::NoSuchApp));
}

#[test]
fn message_is_delivered_and_painted() {
    let mut d = driver();
    let handled = d.on_app_message(2);
    assert_eq!(handled.result, Ok(()));
    assert_eq!(handled.actions.len(), 2);
    assert!(matches!(handled.actions[0], Action::DeliverMessage { app: 2 }));
    assert!(matches!(handled.actions[1], Action::Paint { app: 2, surface: SurfaceId(20) }));
}

#[test]
fn turns_of_the_driver() {
    let mut d = AppSurfaceDriver::create();
    let new_app = |surface: Option<Surface>| {
        DriverInput::App(Some(AppEvent::NewApp {
            app_driver: create_app_driver(1, "a".to_string()),
            initial_surface: surface,
        }))
    };
    match d.turn(new_app(None)) {
        DriverTurn::Continue { actions, error } => {
            assert!(actions.is_empty());
            assert_eq!(error, Some(DriverError::SurfaceNotCreated));
        }
        DriverTurn::Exit => panic!("stopped"),
    }
    assert!(matches!(d.turn(new_app(Some(surface(1)))), DriverTurn::Continue { error: None, .. }));
    let query = |app_type: &str| {
        DriverInput::App(Some(AppEvent::AppExistsQuery { app_type_id: app_type.to_string() }))
    };
    for (app_type, runs) in [("a", true), ("b", false)] {
        match d.turn(query(app_type)) {
            DriverTurn::Continue { actions, error: None } => {
                assert!(matches!(actions[0], Action::Answer(answer) if answer == runs));
            }
            _ => panic!("no answer"),
        }
    }
    let frame = DriverInput::Surface(Some(SurfaceEvent::NeedsRepaintSurface(SurfaceId(1))));
    assert!(matches!(d.turn(frame), DriverTurn::Continue { error: None, .. }));
    let message = DriverInput::App(Some(AppEvent::AppMessage { app_key: 3 }));
    assert!(matches!(
        d.turn(message),
        DriverTurn::Continue { error: Some(DriverError::NoSuchApp), .. }
    ));
    let destroy = DriverInput::App(Some(AppEvent::DestroyApp { app_key: 1 }));
    assert!(matches!(d.turn(destroy), DriverTurn::Continue { error: None, .. }));
    assert!(matches!(d.turn(DriverInput::Surface(None)), DriverTurn::Exit));
    assert!(matches!(d.turn(DriverInput::App(None)), DriverTurn::Exit));
}
