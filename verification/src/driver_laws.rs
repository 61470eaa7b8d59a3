//! What holds of the driver of apps and surfaces in every state.

use crate::app_surface_driver::{
    is_app, is_other_app, is_surface, maps_other_app, maps_surface, maps_viewport, typed, Action, AppDriver,
    AppKey, DriverError, DriverView, FullSurfaceId, Repeat,
};
use crate::sequences::{
    distinct, first, is_first, lemma_filter_alike, lemma_filter_distinct, lemma_filter_from,
    lemma_filter_keeps, lemma_first, lemma_first_exists, lemma_first_is,
};
use crate::windowing::client::SurfaceEvent;
use crate::windowing::surface::{SurfaceId, SurfaceView, ViewportId, ROOT_VIEWPORT};
use vstd::prelude::*;

verus! {

/// Some app has the key.
pub open spec fn has_app(s: DriverView, key: AppKey) -> bool {
    exists|k: int| 0 <= k < s.apps.len() && (#[trigger] s.apps[k]).key == key
}

/// The three collections of the driver agree: each surface has one entry in the map, which names
/// it, its viewport and an app that runs; no surface and no key occurs twice.
pub open spec fn consistent(s: DriverView) -> bool {
    &&& s.surfaces.len() == s.app_surface_map.len()
    &&& forall|i: int|
        0 <= i < s.surfaces.len() ==> (#[trigger] s.app_surface_map[i]).0 == (FullSurfaceId {
            surface_id: s.surfaces[i].surface_id,
            viewport_id: s.surfaces[i].viewport_id,
        })
    &&& forall|i: int|
        0 <= i < s.app_surface_map.len() ==> has_app(s, (#[trigger] s.app_surface_map[i]).1)
    &&& distinct(s.surfaces, |v: SurfaceView| v.surface_id)
    &&& distinct(s.apps, |a: AppDriver| a.key)
}

/// A driver starts out consistent.
pub proof fn law_empty_driver_is_consistent()
    ensures
        consistent(DriverView::empty()),
{
}

/// Replacing a surface by one with the same name keeps the collections in agreement.
proof fn lemma_surface_changed(s: DriverView, i: int, v: SurfaceView)
    requires
        consistent(s),
        0 <= i < s.surfaces.len(),
        v.surface_id == s.surfaces[i].surface_id,
        v.viewport_id == s.surfaces[i].viewport_id,
    ensures
        consistent(s.with_surface(i, v)),
{
    let t = s.with_surface(i, v);
    assert forall|j: int| 0 <= j < t.surfaces.len() implies (#[trigger] t.app_surface_map[j]).0 == (
    FullSurfaceId {
        surface_id: t.surfaces[j].surface_id,
        viewport_id: t.surfaces[j].viewport_id,
    }) by {
        assert(s.app_surface_map[j].0.surface_id == s.surfaces[j].surface_id);
    }
    assert forall|j: int| 0 <= j < t.app_surface_map.len() implies has_app(
        t,
        (#[trigger] t.app_surface_map[j]).1,
    ) by {
        assert(has_app(s, s.app_surface_map[j].1));
        let k = choose|k: int|
            0 <= k < s.apps.len() && (#[trigger] s.apps[k]).key == s.app_surface_map[j].1;
        assert(t.apps[k].key == t.app_surface_map[j].1);
    }
    let f = |v: SurfaceView| v.surface_id;
    assert forall|a: int, b: int| 0 <= a < b < t.surfaces.len() implies f(
        #[trigger] t.surfaces[a],
    ) != f(#[trigger] t.surfaces[b]) by {
        assert(f(s.surfaces[a]) != f(s.surfaces[b]));
    }
}

/// What concerns neither surfaces nor apps keeps the collections in agreement.
proof fn lemma_same_collections(s: DriverView, t: DriverView)
    requires
        consistent(s),
        t.surfaces == s.surfaces,
        t.app_surface_map == s.app_surface_map,
        t.apps == s.apps,
    ensures
        consistent(t),
{
    assert forall|j: int| 0 <= j < t.app_surface_map.len() implies has_app(
        t,
        (#[trigger] t.app_surface_map[j]).1,
    ) by {
        assert(has_app(s, s.app_surface_map[j].1));
        let k = choose|k: int|
            0 <= k < s.apps.len() && (#[trigger] s.apps[k]).key == s.app_surface_map[j].1;
        assert(t.apps[k].key == t.app_surface_map[j].1);
    }
}

/// In a consistent driver every surface is found, together with the app that owns it.
pub proof fn law_surface_has_app(s: DriverView, i: int)
    requires
        consistent(s),
        0 <= i < s.surfaces.len(),
    ensures
        ({
            let id = s.surfaces[i].surface_id;
            &&& s.surface_at(id) == Some(i)
            &&& s.located(id) is Ok
            &&& s.located(id)->Ok_0.0 == i
            &&& 0 <= s.located(id)->Ok_0.1 < s.apps.len()
            &&& s.apps[s.located(id)->Ok_0.1].key == s.app_surface_map[i].1
            &&& s.owns(s.app_surface_map[i].1, id)
        }),
{
    let id = s.surfaces[i].surface_id;
    let f = |v: SurfaceView| v.surface_id;
    assert(is_first(s.surfaces, is_surface(id), i)) by {
        assert forall|j: int| 0 <= j < i implies !is_surface(id)(#[trigger] s.surfaces[j]) by {
            assert(f(s.surfaces[j]) != f(s.surfaces[i]));
        }
    }
    lemma_first_is(s.surfaces, is_surface(id), i);
    assert(s.app_surface_map[i].0.surface_id == id);
    assert(is_first(s.app_surface_map, maps_surface(id), i)) by {
        assert forall|j: int| 0 <= j < i implies !maps_surface(id)(
            #[trigger] s.app_surface_map[j],
        ) by {
            assert(f(s.surfaces[j]) != f(s.surfaces[i]));
        }
    }
    lemma_first_is(s.app_surface_map, maps_surface(id), i);
    let key = s.app_surface_map[i].1;
    assert(has_app(s, key));
    let k = choose|k: int| 0 <= k < s.apps.len() && (#[trigger] s.apps[k]).key == key;
    lemma_first_exists(s.apps, is_app(key), k);
}

/// A surface that is found stands where it is found.
proof fn lemma_found(s: DriverView, id: SurfaceId)
    ensures
        s.surface_at(id) is Some ==> {
            &&& 0 <= s.surface_at(id)->0 < s.surfaces.len()
            &&& s.surfaces[s.surface_at(id)->0].surface_id == id
        },
        s.located(id) is Ok ==> s.surface_at(id) == Some(s.located(id)->Ok_0.0),
        s.located(id) matches Err(e) ==> e == DriverError::NoSuchSurface || e
            == DriverError::NoSuchApp,
        s.located(id) == Err::<(int, int), DriverError>(DriverError::NoSuchSurface) <==> s.surface_at(
            id,
        ) is None,
{
    lemma_first(s.surfaces, is_surface(id));
}

/// No event of the compositor brings the collections out of agreement.
pub proof fn law_events_keep_driver_consistent(s: DriverView, event: SurfaceEvent)
    requires
        consistent(s),
    ensures
        consistent(s.handled(event).state),
{
    let t = s.handled(event).state;
    match event {
        SurfaceEvent::UpdateAllWithEvents => {
            lemma_requests_change_nothing(s, s.with_events());
        },
        SurfaceEvent::NeedsRepaintSurface(id) => {},
        SurfaceEvent::NeedsRepaintViewport(key, viewport, pass_nr) => {},
        SurfaceEvent::Closed(id) => {
            lemma_found(s, id);
            if let Some(i) = s.surface_at(id) {
                lemma_surface_changed(s, i, t.surfaces[i]);
            }
        },
        SurfaceEvent::Configure(id, size) => {
            lemma_found(s, id);
            if let Some(i) = s.surface_at(id) {
                lemma_surface_changed(s, i, s.surfaces[i].resized(size.0, size.1));
            }
        },
        SurfaceEvent::KeyboardFocus(id, focus) => {
            lemma_found(s, id);
            if let Ok((i, k)) = s.located(id) {
                lemma_surface_changed(s, i, s.surfaces[i].focus_changed(focus));
            }
        },
        SurfaceEvent::PressKey(id, text, key) => {
            let u = s.repeat_started(id, text, key).0;
            lemma_same_collections(s, u);
            lemma_found(u, id);
            if let Some(i) = u.surface_at(id) {
                lemma_surface_changed(u, i, typed(u.surfaces[i], text, key, false));
            }
        },
        SurfaceEvent::RepeatKey(id, text, key) => {
            lemma_found(s, id);
            if let Ok((i, k)) = s.located(id) {
                lemma_surface_changed(s, i, typed(s.surfaces[i], text, key, true));
            }
        },
        SurfaceEvent::ReleaseKey(id, key) => {
            let u = s.repeat_cancelled();
            lemma_same_collections(s, u);
            lemma_found(u, id);
            if let Some(i) = u.surface_at(id) {
                if let Some(k) = key {
                    let v = u.surfaces[i];
                    lemma_surface_changed(u, i, v.with_event(v.key_event(k, false, false)));
                }
            }
        },
        SurfaceEvent::UpdateModifiers(id, modifiers) => {
            lemma_found(s, id);
            if let Some(i) = s.surface_at(id) {
                lemma_surface_changed(s, i, t.surfaces[i]);
            }
        },
        SurfaceEvent::Pointer(id, pointer) => {
            lemma_found(s, id);
            if let Ok((i, k)) = s.located(id) {
                let v = s.surfaces[i];
                lemma_surface_changed(s, i, v.with_event(v.pointer_event(pointer)));
            }
        },
        SurfaceEvent::UpdateRepeatInfo(info) => {
            lemma_same_collections(s, t);
        },
        SurfaceEvent::Scale(id, scale) => {
            lemma_found(s, id);
            if let Ok((i, k)) = s.located(id) {
                lemma_surface_changed(s, i, s.surfaces[i].rescaled(scale));
            }
        },
    }
}

/// Asking for repaints changes nothing.
proof fn lemma_requests_change_nothing(s: DriverView, ids: Seq<SurfaceId>)
    ensures
        s.repaints_requested(ids).state == s,
    decreases ids.len(),
{
    if ids.len() > 0 {
        lemma_requests_change_nothing(s, ids.drop_last());
    }
}

/// Some surface has the name.
pub open spec fn is_known(s: DriverView, id: SurfaceId) -> bool {
    exists|i: int| 0 <= i < s.surfaces.len() && (#[trigger] s.surfaces[i]).surface_id == id
}

/// In a consistent driver a repaint can be asked for every surface.
proof fn lemma_requests_succeed(s: DriverView, ids: Seq<SurfaceId>)
    requires
        consistent(s),
        forall|n: int| 0 <= n < ids.len() ==> is_known(s, #[trigger] ids[n]),
    ensures
        s.repaints_requested(ids).result is Ok,
    decreases ids.len(),
{
    if ids.len() > 0 {
        lemma_requests_succeed(s, ids.drop_last());
        let n = ids.len() - 1;
        let i = choose|i: int|
            0 <= i < s.surfaces.len() && (#[trigger] s.surfaces[i]).surface_id == ids[n];
        law_surface_has_app(s, i);
    }
}

/// The surfaces with events that wait are surfaces of the driver.
proof fn lemma_with_events(s: DriverView)
    ensures
        forall|n: int| 0 <= n < s.with_events().len() ==> is_known(s, #[trigger] s.with_events()[n]),
{
    let waits = |v: SurfaceView| v.events.len() > 0;
    assert forall|n: int| 0 <= n < s.with_events().len() implies is_known(
        s,
        #[trigger] s.with_events()[n],
    ) by {
        let i = lemma_filter_from(s.surfaces, waits, n);
        assert(s.surfaces[i].surface_id == s.with_events()[n]);
    }
}

/// A new app with a new key and a new surface for its root viewport keeps the collections in
/// agreement.
pub proof fn law_adding_app_keeps_driver_consistent(
    s: DriverView,
    app: AppDriver,
    surface: SurfaceView,
)
    requires
        consistent(s),
        !has_app(s, app.key),
        s.surface_at(surface.surface_id) is None,
        surface.viewport_id == ViewportId(ROOT_VIEWPORT),
    ensures
        consistent(s.app_added(app, surface)),
        s.app_added(app, surface).owns(app.key, surface.surface_id),
{
    let t = s.app_added(app, surface);
    let n = s.surfaces.len() as int;
    lemma_first(s.surfaces, is_surface(surface.surface_id));
    assert forall|i: int| 0 <= i < t.surfaces.len() implies (#[trigger] t.app_surface_map[i]).0 == (
    FullSurfaceId {
        surface_id: t.surfaces[i].surface_id,
        viewport_id: t.surfaces[i].viewport_id,
    }) by {
        if i < n {
            assert(s.app_surface_map[i].0.surface_id == s.surfaces[i].surface_id);
        }
    }
    assert forall|i: int| 0 <= i < t.app_surface_map.len() implies has_app(
        t,
        (#[trigger] t.app_surface_map[i]).1,
    ) by {
        if i < n {
            assert(has_app(s, s.app_surface_map[i].1));
            let k = choose|k: int|
                0 <= k < s.apps.len() && (#[trigger] s.apps[k]).key == s.app_surface_map[i].1;
            assert(t.apps[k].key == t.app_surface_map[i].1);
        } else {
            assert(t.apps[s.apps.len() as int].key == app.key);
        }
    }
    let f = |v: SurfaceView| v.surface_id;
    assert forall|a: int, b: int| 0 <= a < b < t.surfaces.len() implies f(
        #[trigger] t.surfaces[a],
    ) != f(#[trigger] t.surfaces[b]) by {
        if b < n {
            assert(f(s.surfaces[a]) != f(s.surfaces[b]));
        } else {
            assert(!is_surface(surface.surface_id)(s.surfaces[a]));
        }
    }
    let g = |a: AppDriver| a.key;
    assert forall|a: int, b: int| 0 <= a < b < t.apps.len() implies g(#[trigger] t.apps[a]) != g(
        #[trigger] t.apps[b],
    ) by {
        if b < s.apps.len() {
            assert(g(s.apps[a]) != g(s.apps[b]));
        } else {
            assert(s.apps[a].key != app.key);
        }
    }
    assert(t.app_surface_map[n].1 == app.key);
}

/// In a consistent driver a surface belongs to an app exactly where its entry says so.
proof fn lemma_owner(s: DriverView, key: AppKey, i: int)
    requires
        consistent(s),
        0 <= i < s.surfaces.len(),
    ensures
        s.owns(key, s.surfaces[i].surface_id) == (s.app_surface_map[i].1 == key),
{
    let id = s.surfaces[i].surface_id;
    assert(s.app_surface_map[i].0.surface_id == id);
    if s.owns(key, id) {
        let j = choose|j: int|
            0 <= j < s.app_surface_map.len() && (#[trigger] s.app_surface_map[j]).1 == key
                && s.app_surface_map[j].0.surface_id == id;
        let f = |v: SurfaceView| v.surface_id;
        assert(s.app_surface_map[j].0.surface_id == s.surfaces[j].surface_id);
        if i < j {
            assert(f(s.surfaces[i]) != f(s.surfaces[j]));
        } else if j < i {
            assert(f(s.surfaces[j]) != f(s.surfaces[i]));
        }
    }
}

/// Removing an app keeps the collections in agreement.
pub proof fn law_removing_app_keeps_driver_consistent(s: DriverView, key: AppKey)
    requires
        consistent(s),
    ensures
        consistent(s.app_removed(key)),
{
    let t = s.app_removed(key);
    let p = s.not_owned(key);
    let q = maps_other_app(key);
    assert forall|i: int| 0 <= i < s.surfaces.len() implies p(#[trigger] s.surfaces[i]) == q(
        s.app_surface_map[i],
    ) by {
        lemma_owner(s, key, i);
    }
    lemma_filter_alike(s.surfaces, s.app_surface_map, p, q);
    assert forall|j: int| 0 <= j < t.surfaces.len() implies (#[trigger] t.app_surface_map[j]).0 == (
    FullSurfaceId {
        surface_id: t.surfaces[j].surface_id,
        viewport_id: t.surfaces[j].viewport_id,
    }) by {
        let i = choose|i: int|
            0 <= i < s.surfaces.len() && #[trigger] s.surfaces[i] == t.surfaces[j]
                && s.app_surface_map[i] == t.app_surface_map[j];
        assert(s.app_surface_map[i].0.surface_id == s.surfaces[i].surface_id);
    }
    assert forall|j: int| 0 <= j < t.app_surface_map.len() implies has_app(
        t,
        (#[trigger] t.app_surface_map[j]).1,
    ) by {
        let i = lemma_filter_from(s.app_surface_map, q, j);
        assert(has_app(s, s.app_surface_map[i].1));
        let k = choose|k: int|
            0 <= k < s.apps.len() && (#[trigger] s.apps[k]).key == s.app_surface_map[i].1;
        let l = lemma_filter_keeps(s.apps, is_other_app(key), k);
        assert(t.apps[l].key == t.app_surface_map[j].1);
    }
    lemma_filter_distinct(s.surfaces, |v: SurfaceView| v.surface_id, p);
    lemma_filter_distinct(s.apps, |a: AppDriver| a.key, is_other_app(key));
}

/// After an app was removed, nothing of it is left: no app has its key, no surface belongs to it,
/// the surfaces that it had are unknown, and no key repeats.
pub proof fn law_removed_app_leaves_nothing(s: DriverView, key: AppKey, id: SurfaceId)
    requires
        consistent(s),
    ensures
        !has_app(s.app_removed(key), key),
        !s.app_removed(key).owns(key, id),
        s.owns(key, id) ==> s.app_removed(key).surface_at(id) is None,
        s.app_removed(key).repeat is None,
        s.app_removed(key).message_delivered(key).result == Err::<(), DriverError>(
            DriverError::NoSuchApp,
        ),
{
    let t = s.app_removed(key);
    assert forall|k: int| 0 <= k < t.apps.len() implies (#[trigger] t.apps[k]).key != key by {
        let i = lemma_filter_from(s.apps, is_other_app(key), k);
    }
    assert forall|j: int| 0 <= j < t.app_surface_map.len() implies (
    #[trigger] t.app_surface_map[j]).1 != key by {
        let i = lemma_filter_from(s.app_surface_map, maps_other_app(key), j);
    }
    lemma_first(t.apps, is_app(key));
    if s.owns(key, id) {
        lemma_first(t.surfaces, is_surface(id));
        if let Some(j) = t.surface_at(id) {
            let i = lemma_filter_from(s.surfaces, s.not_owned(key), j);
            assert(t.surfaces[j].surface_id == id);
        }
    }
}

/// Removing an app leaves the surfaces of other apps as they were, and with their apps.
pub proof fn law_removal_spares_other_apps(s: DriverView, key: AppKey, id: SurfaceId)
    requires
        consistent(s),
        s.surface_at(id) is Some,
        !s.owns(key, id),
    ensures
        ({
            let t = s.app_removed(key);
            &&& s.located(id) is Ok
            &&& t.located(id) is Ok
            &&& t.surfaces[t.located(id)->Ok_0.0] == s.surfaces[s.located(id)->Ok_0.0]
            &&& t.apps[t.located(id)->Ok_0.1].key == s.apps[s.located(id)->Ok_0.1].key
        }),
{
    let t = s.app_removed(key);
    let p = s.not_owned(key);
    let q = maps_other_app(key);
    lemma_found(s, id);
    let i = s.surface_at(id)->0;
    law_surface_has_app(s, i);
    law_removing_app_keeps_driver_consistent(s, key);
    let j = lemma_filter_keeps(s.surfaces, p, i);
    law_surface_has_app(t, j);
    assert forall|i: int| 0 <= i < s.surfaces.len() implies p(#[trigger] s.surfaces[i]) == q(
        s.app_surface_map[i],
    ) by {
        lemma_owner(s, key, i);
    }
    lemma_filter_alike(s.surfaces, s.app_surface_map, p, q);
    let m = choose|m: int|
        0 <= m < s.surfaces.len() && #[trigger] s.surfaces[m] == t.surfaces[j]
            && s.app_surface_map[m] == t.app_surface_map[j];
    let f = |v: SurfaceView| v.surface_id;
    if m < i {
        assert(f(s.surfaces[m]) != f(s.surfaces[i]));
    } else if i < m {
        assert(f(s.surfaces[i]) != f(s.surfaces[m]));
    }
}

/// In a consistent driver an event that is refused changes no surface, no app and no entry; and
/// it is refused only because there is no such surface.
pub proof fn law_refused_event_changes_nothing(s: DriverView, event: SurfaceEvent)
    requires
        consistent(s),
        s.handled(event).result is Err,
    ensures
        s.handled(event).state.surfaces == s.surfaces,
        s.handled(event).state.apps == s.apps,
        s.handled(event).state.app_surface_map == s.app_surface_map,
        s.handled(event).result == Err::<(), DriverError>(DriverError::NoSuchSurface),
{
    match event {
        SurfaceEvent::UpdateAllWithEvents => {
            lemma_with_events(s);
            lemma_requests_succeed(s, s.with_events());
        },
        SurfaceEvent::NeedsRepaintSurface(id) | SurfaceEvent::KeyboardFocus(id, _)
        | SurfaceEvent::RepeatKey(id, _, _) | SurfaceEvent::Pointer(id, _)
        | SurfaceEvent::Scale(id, _) => {
            lemma_found(s, id);
            if let Some(i) = s.surface_at(id) {
                law_surface_has_app(s, i);
            }
        },
        SurfaceEvent::NeedsRepaintViewport(key, viewport, pass_nr) => {
            lemma_first(s.app_surface_map, maps_viewport(key, viewport));
            if let Some(j) = first(s.app_surface_map, maps_viewport(key, viewport)) {
                law_surface_has_app(s, j);
            }
        },
        SurfaceEvent::Configure(id, size) => {
            lemma_found(s, id);
            if let Some(i) = s.surface_at(id) {
                let v = s.surfaces[i].resized(size.0, size.1);
                lemma_surface_changed(s, i, v);
                law_surface_has_app(s.with_surface(i, v), i);
            }
        },
        _ => {},
    }
}

/// Counting the passes of an app keeps the collections in agreement.
pub proof fn law_counting_passes_keeps_driver_consistent(s: DriverView, key: AppKey, passes: u64)
    requires
        consistent(s),
    ensures
        consistent(s.passes_counted(key, passes)),
{
    let t = s.passes_counted(key, passes);
    lemma_first(s.apps, is_app(key));
    assert(t.apps.len() == s.apps.len());
    assert forall|k: int| 0 <= k < s.apps.len() implies (#[trigger] t.apps[k]).key == s.apps[k].key by {}
    assert forall|i: int| 0 <= i < t.app_surface_map.len() implies has_app(
        t,
        (#[trigger] t.app_surface_map[i]).1,
    ) by {
        assert(has_app(s, s.app_surface_map[i].1));
        let k = choose|k: int|
            0 <= k < s.apps.len() && (#[trigger] s.apps[k]).key == s.app_surface_map[i].1;
        assert(t.apps[k].key == t.app_surface_map[i].1);
    }
    let g = |a: AppDriver| a.key;
    assert forall|a: int, b: int| 0 <= a < b < t.apps.len() implies g(#[trigger] t.apps[a]) != g(
        #[trigger] t.apps[b],
    ) by {
        assert(g(s.apps[a]) != g(s.apps[b]));
    }
}

/// A request for a repaint that was made before the app was painted last paints nothing; a later
/// one paints the surface of the viewport.
pub proof fn law_only_current_requests_are_painted(
    s: DriverView,
    key: AppKey,
    passes: u64,
    viewport: ViewportId,
    pass_nr: u64,
)
    requires
        consistent(s),
        s.surface_of_viewport(key, viewport) is Some,
    ensures
        ({
            let t = s.passes_counted(key, passes);
            let handled = t.handled(SurfaceEvent::NeedsRepaintViewport(key, viewport, pass_nr));
            &&& handled.result is Ok
            &&& handled.actions == if pass_nr < passes {
                Seq::<Action>::empty()
            } else {
                seq![Action::Paint { app: key, surface: s.surface_of_viewport(key, viewport)->0 }]
            }
        }),
{
    let t = s.passes_counted(key, passes);
    law_counting_passes_keeps_driver_consistent(s, key, passes);
    lemma_first(s.app_surface_map, maps_viewport(key, viewport));
    let j = first(s.app_surface_map, maps_viewport(key, viewport))->0;
    law_surface_has_app(t, j);
    let id = s.surface_of_viewport(key, viewport)->0;
    assert(s.app_surface_map[j].0.surface_id == s.surfaces[j].surface_id);
    let k = t.located(id)->Ok_0.1;
    assert(t.apps[k].key == key);
    lemma_first(s.apps, is_app(key));
    assert(has_app(s, s.app_surface_map[j].1));
    let m = choose|m: int| 0 <= m < s.apps.len() && (#[trigger] s.apps[m]).key == key;
    lemma_first_exists(s.apps, is_app(key), m);
    let n = first(s.apps, is_app(key))->0;
    let g = |a: AppDriver| a.key;
    if n < k {
        assert(g(t.apps[n]) != g(t.apps[k]));
    } else if k < n {
        assert(g(t.apps[k]) != g(t.apps[n]));
    }
}

/// A surface is painted whenever no pass is named; where one is named that lies before the passes
/// that its app has completed, nothing is painted, and nothing changes: the events of the surface
/// still wait.
pub proof fn law_stale_paint_is_skipped(
    s: DriverView,
    key: AppKey,
    passes: u64,
    id: SurfaceId,
    pass_nr: u64,
)
    requires
        ({
            let t = s.passes_counted(key, passes);
            t.located(id) matches Ok((i, k)) && first(t.apps, is_app(key)) == Some(k)
        }),
    ensures
        ({
            let t = s.passes_counted(key, passes);
            &&& t.painted(id, None).result is Ok
            &&& t.painted(id, None).actions == seq![Action::Paint { app: key, surface: id }]
            &&& pass_nr < passes ==> {
                &&& t.painted(id, Some(pass_nr)).result is Ok
                &&& t.painted(id, Some(pass_nr)).actions == Seq::<Action>::empty()
                &&& t.painted(id, Some(pass_nr)).state == t
            }
            &&& pass_nr >= passes ==> t.painted(id, Some(pass_nr)) == t.painted(id, None)
        }),
{
    let t = s.passes_counted(key, passes);
    lemma_first(s.apps, is_app(key));
    lemma_first(t.apps, is_app(key));
    let k = first(t.apps, is_app(key))->0;
    match first(s.apps, is_app(key)) {
        Some(n) => {
            assert(t.apps[n].key == key);
            if k < n {
                assert(s.apps[k].key == key);
                assert(is_app(key)(s.apps[k]));
            } else if n < k {
                assert(is_app(key)(t.apps[n]));
            }
        },
        None => {
            assert(is_app(key)(s.apps[k]));
        },
    }
}

/// The key that repeats after some actions.
pub open spec fn repeating_after(before: Option<Repeat>, actions: Seq<Action>) -> Option<Repeat>
    decreases actions.len(),
{
    if actions.len() == 0 {
        before
    } else {
        match actions.last() {
            Action::AbortRepeat => None,
            Action::StartRepeat(repeat) => Some(repeat),
            _ => repeating_after(before, actions.drop_last()),
        }
    }
}

/// No key starts to repeat while another one does.
pub open spec fn one_repeat_at_a_time(before: Option<Repeat>, actions: Seq<Action>) -> bool {
    forall|n: int|
        0 <= n < actions.len() && #[trigger] actions[n] is StartRepeat ==> repeating_after(
            before,
            actions.take(n),
        ) is None
}

/// Actions that neither stop nor start a repetition leave it as it is.
proof fn lemma_repeat_unaffected(before: Option<Repeat>, actions: Seq<Action>)
    requires
        forall|n: int|
            0 <= n < actions.len() ==> !(#[trigger] actions[n] is AbortRepeat) && !(actions[n]
                is StartRepeat),
    ensures
        repeating_after(before, actions) == before,
        one_repeat_at_a_time(before, actions),
    decreases actions.len(),
{
    if actions.len() > 0 {
        assert(!(actions[actions.len() - 1] is AbortRepeat));
        assert forall|n: int| 0 <= n < actions.drop_last().len() implies !(
        #[trigger] actions.drop_last()[n] is AbortRepeat) && !(actions.drop_last()[n]
            is StartRepeat) by {
            assert(!(actions[n] is AbortRepeat));
        }
        lemma_repeat_unaffected(before, actions.drop_last());
    }
}

/// Repaint requests concern no repetition.
proof fn lemma_requests_only(s: DriverView, ids: Seq<SurfaceId>)
    ensures
        forall|n: int|
            0 <= n < s.repaints_requested(ids).actions.len() ==> (
            #[trigger] s.repaints_requested(ids).actions[n]) is RequestRepaint,
    decreases ids.len(),
{
    if ids.len() > 0 {
        lemma_requests_only(s, ids.drop_last());
    }
}

/// Only the press and the release of a key concern the repetition.
#[verifier::rlimit(60)]
proof fn lemma_other_events(s: DriverView, event: SurfaceEvent)
    requires
        !(event is PressKey),
        !(event is ReleaseKey),
        !(event is UpdateAllWithEvents),
    ensures
        s.handled(event).state.repeat == s.repeat,
        s.handled(event).actions.len() <= 2,
        s.handled(event).actions.len() >= 1 ==> !(s.handled(event).actions[0] is AbortRepeat) && !(
        s.handled(event).actions[0] is StartRepeat),
        s.handled(event).actions.len() >= 2 ==> !(s.handled(event).actions[1] is AbortRepeat) && !(
        s.handled(event).actions[1] is StartRepeat),
{
    match event {
        SurfaceEvent::NeedsRepaintSurface(_) => {},
        SurfaceEvent::NeedsRepaintViewport(_, _, _) => {},
        SurfaceEvent::Closed(_) => {},
        SurfaceEvent::Configure(_, _) => {},
        SurfaceEvent::KeyboardFocus(_, _) => {},
        SurfaceEvent::RepeatKey(_, _, _) => {},
        SurfaceEvent::UpdateModifiers(_, _) => {},
        SurfaceEvent::Pointer(_, _) => {},
        SurfaceEvent::UpdateRepeatInfo(_) => {},
        SurfaceEvent::Scale(_, _) => {},
        _ => {},
    }
}

/// The driver knows which key repeats: carrying out the actions of an event, in order, leads from
/// the key that it held to the one that it holds. And at no time do two keys repeat.
pub proof fn law_one_key_repeats(s: DriverView, event: SurfaceEvent)
    ensures
        repeating_after(s.repeat, s.handled(event).actions) == s.handled(event).state.repeat,
        one_repeat_at_a_time(s.repeat, s.handled(event).actions),
{
    let actions = s.handled(event).actions;
    match event {
        SurfaceEvent::UpdateAllWithEvents => {
            lemma_requests_only(s, s.with_events());
            lemma_requests_change_nothing(s, s.with_events());
            lemma_repeat_unaffected(s.repeat, actions);
        },
        SurfaceEvent::PressKey(id, text, key) => {
            let started = s.repeat_started(id, text, key).1;
            if (text is Some || key is Some) && started.len() > 0 {
                assert(actions =~= started);
                assert(actions.last() is StartRepeat);
                assert(actions.drop_last() =~= s.cancelling());
                assert(repeating_after(s.repeat, s.cancelling()) is None) by {
                    reveal_with_fuel(repeating_after, 2);
                }
                assert forall|n: int|
                    0 <= n < actions.len() && #[trigger] actions[n]
                        is StartRepeat implies repeating_after(s.repeat, actions.take(n))
                    is None by {
                    assert(n == actions.len() - 1);
                    assert(actions.take(n) =~= s.cancelling());
                }
            } else {
                lemma_repeat_unaffected(s.repeat, actions);
            }
        },
        SurfaceEvent::ReleaseKey(id, key) => {
            assert(actions =~= s.cancelling());
            reveal_with_fuel(repeating_after, 2);
        },
        _ => {
            lemma_other_events(s, event);
            lemma_repeat_unaffected(s.repeat, actions);
        },
    }
}

/// Removing an app stops the key that repeats.
pub proof fn law_removal_stops_repeat(s: DriverView, key: AppKey)
    ensures
        repeating_after(s.repeat, s.removing(key)) is None,
        s.app_removed(key).repeat is None,
{
    let rest = s.surfaces.filter(s.owned(key)).map_values(
        |v: SurfaceView| Action::DestroySurface { surface: v.surface_id },
    ) + s.apps.filter(is_app(key)).map_values(|a: AppDriver| Action::DropApp { app: a.key });
    if s.repeat is Some {
        assert(s.removing(key).last() is AbortRepeat);
    } else {
        assert(s.removing(key) =~= rest);
        lemma_repeat_unaffected(s.repeat, rest);
    }
}

} // verus!
