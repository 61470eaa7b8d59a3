//! What holds of every surface, whatever it is told.

use crate::binary32::{
    distance, law_ratio_rounding_is_nearest, law_rounding_keeps_representable,
    lemma_doubled_is_representable, lemma_spacing_bounds, rounded, rounded_ratio, spacing, ONE,
};
use crate::single::value_of_bits;
use crate::windowing::client::{for_entered, typed_text, SurfaceEvent};
use crate::windowing::layer_shell::{
    changed, is_input_of, pointed_until_unknown, reported, ShellView,
};
use crate::windowing::surface::{
    fraction_of_120, negated, pointer_input, scaled_length, Event, Key, Modifiers, PointerEvent,
    PointerEventKind, RawInput, ScaleFactor, SurfaceId, SurfaceView, ViewportId,
};
use crate::windowing::windowing::pointed_all;
use vstd::prelude::*;

verus! {

/// Rounding moves a number by no more than the 2^24th part of it.
proof fn lemma_rounding_error(n: nat)
    ensures
        distance(n, rounded(n)) * 0x100_0000 <= n,
{
    let u = spacing(n);
    lemma_spacing_bounds(n);
    let q = n / u;
    let rest = n % u;
    vstd::arithmetic::div_mod::lemma_fundamental_div_mod(n as int, u as int);
    vstd::arithmetic::div_mod::lemma_mod_bound(n as int, u as int);
    assert(q * u == u * q && (q + 1) * u == q * u + u) by (nonlinear_arith);
    if n < 0x100_0000 {
        assert(u == 1);
    }
}

/// Rounding a quotient moves it by no more than the 2^24th part of it.
proof fn lemma_ratio_error(a: nat, b: nat)
    requires
        b > 0,
        a / b >= 0x100_0000,
    ensures
        distance(a, b * rounded_ratio(a, b)) * 0x100_0000 <= a,
{
    let n = a / b;
    let u = spacing(n);
    lemma_spacing_bounds(n);
    let w = b * u;
    assert(w > 0) by (nonlinear_arith)
        requires
            w == b * u,
            b > 0,
            u > 0,
    ;
    let q = a / w;
    let rest = a % w;
    vstd::arithmetic::div_mod::lemma_fundamental_div_mod(a as int, w as int);
    vstd::arithmetic::div_mod::lemma_mod_bound(a as int, w as int);
    assert(b * (q * u) == w * q && b * ((q + 1) * u) == w * q + w) by (nonlinear_arith)
        requires
            w == b * u,
    ;
    assert(w * 0x80_0000 <= a) by (nonlinear_arith)
        requires
            w == b * u,
            u * 0x80_0000 <= a / b,
            b > 0,
    ;
}

/// A length is multiplied by a whole scale; a scale that is not positive leaves nothing. The result
/// is the product wherever that has at most 24 bits.
pub proof fn law_whole_scale_multiplies(length: u32, scale: i32)
    ensures
        scale <= 0 ==> scaled_length(length, ScaleFactor::Scalar(scale)) == 0,
        scale > 0 && length * scale < 0x100_0000 ==> scaled_length(
            length,
            ScaleFactor::Scalar(scale),
        ) == length * scale,
{
    if scale > 0 && length * scale < 0x100_0000 {
        let n = scale as nat;
        let l = length as nat;
        assert(rounded(l) * rounded(n) == l * n) by {
            if l == 0 {
                assert(spacing(0) == 1);
                law_rounding_keeps_representable(0);
                assert(0 * rounded(n) == 0 && 0 * n == 0) by (nonlinear_arith);
            } else {
                assert(l < 0x100_0000 && n < 0x100_0000) by (nonlinear_arith)
                    requires
                        l * n < 0x100_0000,
                        l >= 1,
                        n >= 1,
                ;
                assert(spacing(l) == 1 && spacing(n) == 1);
                law_rounding_keeps_representable(l);
                law_rounding_keeps_representable(n);
            }
        }
        assert(spacing(l * n) == 1);
        law_rounding_keeps_representable(l * n);
    }
}

/// A scale in 120ths multiplies a length, up to two pixels less and one more; a whole number of
/// times the length is met exactly.
pub proof fn law_fractional_scale_multiplies(length: u32, scale: u32)
    requires
        length < 0x100_0000,
        scale < 0x100_0000,
        length * scale < 120 * 0x40_0000,
    ensures
        ({
            let res = scaled_length(length, ScaleFactor::Fractional(scale));
            &&& length * scale - 240 < 120 * res < length * scale + 120
            &&& scale % 120 == 0 ==> 120 * res == length * scale
        }),
{
    let l = length as nat;
    let n = scale as nat;
    let one = ONE as nat;
    assert(spacing(l) == 1 && spacing(n) == 1);
    law_rounding_keeps_representable(l);
    law_rounding_keeps_representable(n);
    let f = fraction_of_120(scale);
    let x = l * f;
    let r = rounded(x);
    let p = l * n;
    if n == 0 {
        assert(x == 0) by (nonlinear_arith)
            requires
                x == l * f,
                f == 0,
        ;
        assert(spacing(0) == 1);
        law_rounding_keeps_representable(0);
        assert(p == 0) by (nonlinear_arith)
            requires
                p == l * n,
                n == 0,
        ;
    } else {
        let a = n * one;
        assert(a / 120 >= 0x100_0000) by (nonlinear_arith)
            requires
                a == n * one,
                n >= 1,
                one == 0x1_0000_0000_0000_0000,
        ;
        lemma_ratio_error(a, 120);
        lemma_rounding_error(x);
        let e = distance(a, 120 * f);
        assert(l * a == p * one) by (nonlinear_arith)
            requires
                a == n * one,
                p == l * n,
        ;
        assert(l * (120 * f) == 120 * x) by (nonlinear_arith)
            requires
                x == l * f,
        ;
        assert(l * e * 0x100_0000 <= l * a) by (nonlinear_arith)
            requires
                e * 0x100_0000 <= a,
        ;
        assert(120 * x <= p * one + l * e && p * one <= 120 * x + l * e) by (nonlinear_arith)
            requires
                l * a == p * one,
                l * (120 * f) == 120 * x,
                120 * f <= a + e,
                a <= 120 * f + e,
        ;
        let le = l * e;
        assert(le * 0x100_0000 <= p * one);
        let big = p * one;
        assert(big < 120 * 0x40_0000 * one) by (nonlinear_arith)
            requires
                big == p * one,
                p < 120 * 0x40_0000,
                one == 0x1_0000_0000_0000_0000,
        ;
        let q = r / one;
        vstd::arithmetic::div_mod::lemma_fundamental_div_mod(r as int, one as int);
        vstd::arithmetic::div_mod::lemma_mod_bound(r as int, one as int);
        assert(120 * r < big + 120 * one && 120 * r + 120 * one > big);
        assert(q * one <= r < q * one + one);
        assert(120 * q < p + 120) by (nonlinear_arith)
            requires
                120 * (q * one) < p * one + 120 * one,
                one > 0,
        ;
        assert(p < 120 * q + 240) by (nonlinear_arith)
            requires
                120 * (q * one) + 120 * one + 120 * one > p * one,
                one > 0,
        ;
        if n % 120 == 0 {
            let k = n / 120;
            lemma_doubled_is_representable(k, 64);
            vstd::arithmetic::power2::lemma2_to64();
            assert(spacing(k) == 1);
            let m = k * one;
            assert(120 * m == a) by (nonlinear_arith)
                requires
                    m == k * one,
                    a == n * one,
                    n == 120 * k,
            ;
            law_ratio_rounding_is_nearest(a, 120, m);
            assert(f == m);
            assert(x == (l * k) * one) by (nonlinear_arith)
                requires
                    x == l * f,
                    f == k * one,
            ;
            assert(120 * (l * k) == p) by (nonlinear_arith)
                requires
                    p == l * n,
                    n == 120 * k,
            ;
            assert(spacing(l * k) == 1);
            lemma_doubled_is_representable(l * k, 64);
            law_rounding_keeps_representable(x);
            assert(q == l * k) by {
                vstd::arithmetic::div_mod::lemma_div_multiples_vanish((l * k) as int, one as int);
                assert((l * k) * one == one * (l * k)) by (nonlinear_arith);
            }
        }
    }
}

/// What a pointer does, as the user interface takes it.
pub proof fn law_pointer_event_is_an_input(event: PointerEvent, modifiers: Modifiers)
    ensures
        match event.kind {
            PointerEventKind::Enter => pointer_input(event, modifiers) == Event::PointerMoved(
                event.position,
            ),
            PointerEventKind::Leave => pointer_input(event, modifiers) == Event::PointerGone,
            PointerEventKind::Motion => pointer_input(event, modifiers) == Event::PointerMoved(
                event.position,
            ),
            PointerEventKind::Press { button } => pointer_input(event, modifiers)
                == Event::PointerButton {
                position: event.position,
                button,
                pressed: true,
                modifiers,
            },
            PointerEventKind::Release { button } => pointer_input(event, modifiers)
                == Event::PointerButton {
                position: event.position,
                button,
                pressed: false,
                modifiers,
            },
            PointerEventKind::Axis { horizontal, vertical } => {
                &&& pointer_input(event, modifiers) matches Event::MouseWheel {
                    delta,
                    modifiers: held,
                } && held == modifiers && delta.x == horizontal && value_of_bits(delta.y)
                    == -value_of_bits(vertical)
            },
        },
{
    if let PointerEventKind::Axis { horizontal, vertical } = event.kind {
        law_sign_is_changed(vertical);
    }
}

/// A number with the other sign is as large as before, and changing the sign twice changes nothing.
pub proof fn law_sign_is_changed(bits: u32)
    ensures
        negated(negated(bits)) == bits,
        value_of_bits(negated(bits)) == -value_of_bits(bits),
{
    if bits >= 0x8000_0000 {
        crate::single_laws::law_first_bit_is_the_sign((bits - 0x8000_0000) as u32);
    } else {
        crate::single_laws::law_first_bit_is_the_sign(bits);
    }
}

/// What is configured is the size that is drawn, and the size that it is shown at.
pub proof fn law_configuration_is_drawn_and_shown_size(s: SurfaceView)
    requires
        s.unscaled_size.0 <= i32::MAX,
        s.unscaled_size.1 <= i32::MAX,
    ensures
        s.configuration().size == s.size,
        s.configuration().destination.0 == s.unscaled_size.0,
        s.configuration().destination.1 == s.unscaled_size.1,
{
}

/// After a new size or a new scale, what is drawn is the size that is shown, scaled; a dimension of
/// 0 stays as it was.
pub proof fn law_drawn_size_follows(s: SurfaceView, width: u32, height: u32, scale: ScaleFactor)
    ensures
        ({
            let t = s.resized(width, height);
            let u = s.rescaled(scale);
            &&& t.unscaled_size.0 == if width == 0 {
                s.unscaled_size.0
            } else {
                width
            }
            &&& t.unscaled_size.1 == if height == 0 {
                s.unscaled_size.1
            } else {
                height
            }
            &&& t.size.0 == scaled_length(t.unscaled_size.0, s.scale)
            &&& t.size.1 == scaled_length(t.unscaled_size.1, s.scale)
            &&& t.scale == s.scale
            &&& u.scale == scale
            &&& u.unscaled_size == s.unscaled_size
            &&& u.size.0 == scaled_length(s.unscaled_size.0, scale)
            &&& u.size.1 == scaled_length(s.unscaled_size.1, scale)
            &&& t.events == s.events && u.events == s.events
            &&& t.focused == s.focused && u.focused == s.focused
            &&& t.modifiers == s.modifiers && u.modifiers == s.modifiers
            &&& t.exit == s.exit && u.exit == s.exit
            &&& t.surface_id == s.surface_id && u.surface_id == s.surface_id
            &&& t.viewport_id == s.viewport_id && u.viewport_id == s.viewport_id
        }),
{
}

/// A surface that was just made has the size that it was made with, is not scaled, and waits for
/// nothing.
pub proof fn law_fresh_surface_is_empty(id: SurfaceId, viewport: ViewportId, size: (u32, u32))
    ensures
        ({
            let s = SurfaceView::fresh(id, viewport, size);
            &&& s.surface_id == id
            &&& s.viewport_id == viewport
            &&& s.unscaled_size == size
            &&& s.size == size
            &&& s.scale == ScaleFactor::Scalar(1)
            &&& s.events.len() == 0
            &&& !s.focused
            &&& !s.exit
            &&& !s.modifiers.alt && !s.modifiers.ctrl && !s.modifiers.shift && !s.modifiers.mac_cmd
                && !s.modifiers.command
        }),
{
}

/// The text of a key press is kept exactly where one of its characters is not a control character
/// of ASCII.
pub proof fn law_text_that_can_be_shown_is_kept(text: String)
    ensures
        typed_text(Some(text)) == Some(text) || typed_text(Some(text)) is None,
        typed_text(Some(text)) is Some <==> exists|i: int|
            0 <= i < text@.len() && (#[trigger] text@[i]) as u32 > 0x1f && text@[i] as u32 != 0x7f,
        typed_text(None) is None,
{
    if exists|i: int|
        0 <= i < text@.len() && (#[trigger] text@[i]) as u32 > 0x1f && text@[i] as u32 != 0x7f {
        let i = choose|i: int|
            0 <= i < text@.len() && (#[trigger] text@[i]) as u32 > 0x1f && text@[i] as u32 != 0x7f;
        assert(!crate::windowing::client::is_ascii_control(text@[i]));
    }
}

/// What the keyboard does goes to the surface that it is on, and nowhere where it is on none.
pub proof fn law_keyboard_events_go_to_the_entered_surface(
    id: SurfaceId,
    event: spec_fn(SurfaceId) -> SurfaceEvent,
)
    ensures
        for_entered(Some(id), event) == Some(event(id)),
        for_entered(None, event) is None,
{
}

/// A change is made to the surface that it is meant for, and to no other; where that one is not
/// known, nothing changes.
pub proof fn law_only_one_surface_changes(
    surfaces: Map<SurfaceId, ShellView>,
    id: SurfaceId,
    change: spec_fn(ShellView) -> ShellView,
    other: SurfaceId,
)
    ensures
        changed(surfaces, id, change).dom().contains(other) <==> surfaces.dom().contains(other),
        surfaces.dom().contains(id) ==> changed(surfaces, id, change)[id] == change(surfaces[id]),
        other != id && surfaces.dom().contains(other) ==> changed(surfaces, id, change)[other]
            == surfaces[other],
{
}

/// A size that the compositor leaves open is the one that the surface was made with, or 256 where
/// there is none. Nothing but the size changes.
pub proof fn law_open_size_is_the_default(s: ShellView, width: u32, height: u32)
    ensures
        ({
            let t = s.configured(width, height);
            &&& width != 0 ==> t.size.0 == width
            &&& height != 0 ==> t.size.1 == height
            &&& width == 0 ==> t.size.0 == match s.default_size {
                Some(d) => d.0,
                None => 256u32,
            }
            &&& height == 0 ==> t.size.1 == match s.default_size {
                Some(d) => d.1,
                None => 256u32,
            }
            &&& t.events == s.events
            &&& t.focused == s.focused
            &&& t.modifiers == s.modifiers
            &&& t.exit == s.exit
            &&& t.first_configure == s.first_configure
            &&& t.default_size == s.default_size
        }),
{
}

/// A size that is taken over is the new one, as far as it is not left open. An open width is the
/// one that the surface was made with. Nothing but the size changes.
pub proof fn law_size_is_taken_over(s: ShellView, width: u32, height: u32)
    ensures
        ({
            let t = s.resized(width, height);
            &&& width != 0 ==> t.size.0 == width
            &&& height != 0 ==> t.size.1 == height
            &&& width == 0 ==> t.size.0 == match s.default_size {
                Some(d) => d.0,
                None => 256u32,
            }
            &&& height == 0 ==> t.size.1 == if s.default_size is Some {
                0u32
            } else {
                256u32
            }
            &&& t.events == s.events
            &&& t.focused == s.focused
            &&& t.modifiers == s.modifiers
            &&& t.exit == s.exit
            &&& t.first_configure == s.first_configure
            &&& t.default_size == s.default_size
        }),
{
}

/// What the keyboard and the pointer do to a surface waits in order: the text of a key before the
/// key, each with the modifiers that are held.
pub proof fn law_input_waits_in_order(
    s: ShellView,
    text: String,
    key: Key,
    focus: bool,
    event: PointerEvent,
)
    requires
        exists|i: int|
            0 <= i < text@.len() && (#[trigger] text@[i]) as u32 > 0x1f && text@[i] as u32 != 0x7f,
    ensures
        ({
            let down = Event::Key { key, pressed: true, modifiers: s.modifiers, repeat: false };
            let up = Event::Key { key, pressed: false, modifiers: s.modifiers, repeat: false };
            &&& s.key_pressed(Some(text), Some(key)).events == s.events.push(
                Event::Text(text),
            ).push(down)
            &&& s.key_pressed(None, Some(key)).events == s.events.push(down)
            &&& s.key_pressed(Some(text), None).events == s.events.push(Event::Text(text))
            &&& s.key_pressed(None, None) == s
            &&& s.key_released(Some(key)).events == s.events.push(up)
            &&& s.key_released(None) == s
            &&& s.focus_changed(focus).events == s.events.push(Event::WindowFocused(focus))
            &&& s.focus_changed(focus).focused == focus
            &&& s.pointed(event).events == s.events.push(pointer_input(event, s.modifiers))
        }),
{
    law_text_that_can_be_shown_is_kept(text);
    assert(typed_text(Some(text)) == Some(text));
}

/// The input of a frame is the size of the surface, its focus, its modifiers and its events, for
/// the root viewport.
pub proof fn law_frame_takes_what_waits(input: RawInput, s: ShellView)
    requires
        is_input_of(input, s),
    ensures
        input.viewport_id == ViewportId(0xffff_ffff_ffff_ffff),
        input.screen_size == s.size,
        input.modifiers == s.modifiers,
        input.focused == s.focused,
        input.events@ == s.events,
{
}

/// The modifiers are those that the compositor reports.
pub proof fn law_modifiers_are_as_reported(alt: bool, ctrl: bool, shift: bool)
    ensures
        reported(alt, ctrl, shift).alt == alt,
        reported(alt, ctrl, shift).ctrl == ctrl,
        reported(alt, ctrl, shift).shift == shift,
        !reported(alt, ctrl, shift).mac_cmd,
        !reported(alt, ctrl, shift).command,
{
}

/// The events of a frame are taken in order: each goes to its surface, and one for a surface that
/// is not known is passed over.
pub proof fn law_frame_is_taken_in_order(
    surfaces: Map<SurfaceId, ShellView>,
    events: Seq<PointerEvent>,
    event: PointerEvent,
    other: SurfaceId,
)
    ensures
        pointed_all(surfaces, Seq::empty()) == surfaces,
        ({
            let before = pointed_all(surfaces, events);
            let after = pointed_all(surfaces, events.push(event));
            &&& after.dom().contains(other) <==> before.dom().contains(other)
            &&& before.dom().contains(event.surface) ==> after[event.surface].events
                == before[event.surface].events.push(
                pointer_input(event, before[event.surface].modifiers),
            )
            &&& other != event.surface && before.dom().contains(other) ==> after[other]
                == before[other]
        }),
{
    assert(events.push(event).drop_last() =~= events);
    assert(events.push(event).last() == event);
}

/// The events of a frame are taken in order, up to the first one for a surface that is not known.
pub proof fn law_frame_ends_at_an_unknown_surface(
    surfaces: Map<SurfaceId, ShellView>,
    event: PointerEvent,
    rest: Seq<PointerEvent>,
)
    ensures
        pointed_until_unknown(surfaces, Seq::empty()) == surfaces,
        !surfaces.dom().contains(event.surface) ==> pointed_until_unknown(
            surfaces,
            seq![event] + rest,
        ) == surfaces,
        surfaces.dom().contains(event.surface) ==> pointed_until_unknown(
            surfaces,
            seq![event] + rest,
        ) == pointed_until_unknown(
            surfaces.insert(
                event.surface,
                ShellView {
                    events: surfaces[event.surface].events.push(
                        pointer_input(event, surfaces[event.surface].modifiers),
                    ),
                    ..surfaces[event.surface]
                },
            ),
            rest,
        ),
{
    let all = seq![event] + rest;
    assert(all[0] == event);
    assert(all.skip(1) =~= rest);
}

} // verus!
