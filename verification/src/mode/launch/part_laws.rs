//! What holds of the smaller parts of the launcher.

use crate::binary32::{
    law_no_number_between_neighbours, law_rounding_is_monotone, law_rounding_is_representable,
    law_rounding_keeps_representable, lemma_doubled_is_representable, lemma_same_spacing,
    lemma_spacing_bounds, rounded, spacing,
};
use crate::fuzzy_search::{SearchStatus, SearchView};
use crate::mode::launch::icons::{IconStep, Icons, RenderedIcon};
use crate::mode::launch::launcher::{on_launch, LauncherEntry, UiEntry};
use crate::mode::launch::rows::{
    bump_history_value, decrement_history_value, find_icon, RowAction, RowLauncher,
};
use crate::mode::launch::settings::LauncherSettings;
use crate::paths::extension;
use crate::single::value_of_bits;
use crate::single_laws::{law_first_bit_is_the_sign, law_patterns_are_ordered};
use crate::ui::index_model::IndexModel;
use vstd::arithmetic::power2::{lemma2_to64, pow2};
use vstd::prelude::*;

verus! {

/// Of two patterns without a sign the larger one stands for the larger number.
proof fn lemma_larger_pattern(a: u32, b: u32)
    requires
        a < b <= 0x7f80_0000,
    ensures
        value_of_bits(a) < value_of_bits(b),
    decreases b,
{
    law_patterns_are_ordered((b - 1) as u32);
    if a < b - 1 {
        lemma_larger_pattern(a, (b - 1) as u32);
    }
}

/// The transparency is between 0 and 1 after it was sanitized, and as near to what it was as it
/// can be. Numbers are counted in units of 2^-149. What stands for no number stays.
pub proof fn law_transparency_is_brought_into_range(before: LauncherSettings, after: LauncherSettings)
    requires
        call_ensures(LauncherSettings::sanitize, (before,), after),
    ensures
        before.transparency % 0x8000_0000 <= 0x7f80_0000 ==> {
            let old_value = value_of_bits(before.transparency);
            let new_value = value_of_bits(after.transparency);
            &&& 0 <= new_value <= pow2(149)
            &&& 0 <= old_value <= pow2(149) ==> after.transparency == before.transparency
            &&& old_value < 0 ==> new_value == 0
            &&& old_value > pow2(149) ==> new_value == pow2(149)
        },
        before.transparency % 0x8000_0000 > 0x7f80_0000 ==> after.transparency
            == before.transparency,
{
    let bits = before.transparency;
    law_patterns_are_ordered(0);
    if bits % 0x8000_0000 <= 0x7f80_0000 {
        if bits >= 0x8000_0000 {
            let low = (bits - 0x8000_0000) as u32;
            law_first_bit_is_the_sign(low);
            if low > 0 {
                lemma_larger_pattern(0, low);
            }
        } else {
            if bits > 0 {
                lemma_larger_pattern(0, bits);
            }
            if bits > 0x3f80_0000 {
                lemma_larger_pattern(0x3f80_0000, bits);
            } else if bits < 0x3f80_0000 {
                lemma_larger_pattern(bits, 0x3f80_0000);
            }
        }
    }
}

/// A launch takes the value of an entry half of the way to 100, as far as it has no more than 23
/// bits.
pub proof fn law_launch_goes_half_of_the_way(value: u32, after: u32)
    requires
        call_ensures(bump_history_value, (value,), after),
        value < 0x80_0000,
    ensures
        after == (value + 100) / 2,
{
    assert(spacing(value as nat) == 1);
    law_rounding_keeps_representable(value as nat);
    assert(spacing(100 + value as nat) == 1);
    law_rounding_keeps_representable(100 + value as nat);
}

/// The launch of another entry leaves nine tenths of a value, in whole numbers, as far as it has no
/// more than 19 bits.
pub proof fn law_other_launch_leaves_nine_tenths(value: u32, after: u32)
    requires
        call_ensures(decrement_history_value, (value,), after),
        value < 0x8_0000,
    ensures
        after == 9 * value / 10,
{
    let v = value as nat;
    assert(spacing(v) == 1);
    law_rounding_keeps_representable(v);
    let m = v * 15099494;
    let r = rounded(m);
    let q = (9 * value / 10) as nat;
    let target = q * 0x100_0000;
    let u = spacing(m);
    lemma_spacing_bounds(m);
    vstd::arithmetic::div_mod::lemma_fundamental_div_mod(m as int, u as int);
    vstd::arithmetic::div_mod::lemma_mod_bound(m as int, u as int);
    let low = m / u * u;
    let high = (m / u + 1) * u;
    assert(low == u * (m / u) && high == low + u) by (nonlinear_arith)
        requires
            low == m / u * u,
            high == (m / u + 1) * u,
    ;
    lemma2_to64();
    assert(spacing(q) == 1);
    lemma_doubled_is_representable(q, 24);
    assert(target == q * pow2(24));
    law_rounding_keeps_representable(target);
    if m >= target {
        law_rounding_is_monotone(target, m);
    } else {
        assert(v % 10 == 0);
        assert(target - m == 4 * (v / 10));
        law_no_number_between_neighbours(m, target);
        assert(2 * (m % u) > u);
        assert(r == high);
        let w = spacing(high);
        lemma_spacing_bounds(high);
        if high < u * 0x100_0000 {
            lemma_same_spacing(m, high);
        }
        law_rounding_is_representable(m);
        vstd::arithmetic::div_mod::lemma_fundamental_div_mod(high as int, w as int);
        assert(high / w * w == w * (high / w) && (high / w + 1) * w == high / w * w + w)
            by (nonlinear_arith);
        law_no_number_between_neighbours(high, target);
    }
    assert(r < target + 0x100_0000);
    assert(r / 0x100_0000 == q) by {
        vstd::arithmetic::div_mod::lemma_fundamental_div_mod(r as int, 0x100_0000);
    }
}

/// How the search for an icon begins: what is known is given at once; an absolute path is checked,
/// and anything else is looked up by its name, 32 pixels large, unscaled, in the theme that is used
/// by default.
pub proof fn law_icon_is_sought_once(icons: Icons, icon: String, step: IconStep)
    requires
        call_ensures(Icons::load_icon, (&icons, &icon), step),
    ensures
        step is Finished <==> icons@.dom().contains(icon@),
        icons@.dom().contains(icon@) ==> match icons@[icon@] {
            RenderedIcon::Loaded(image) => step == IconStep::Finished(Some(image)),
            RenderedIcon::Failed => step == IconStep::Finished(None),
        },
        !icons@.dom().contains(icon@) ==> step == if icon@.len() > 0 && icon@[0] == '/' {
            IconStep::CheckExists(icon)
        } else {
            IconStep::LookUp { name: icon, size: 32, scale: 1, theme: None }
        },
{
}

/// A path that is there is read, and one that is not is looked up as a name.
pub proof fn law_missing_path_is_looked_up(
    icons: Icons,
    icon: String,
    present: bool,
    step: IconStep,
)
    requires
        call_ensures(Icons::path_checked, (&icons, &icon, present), step),
    ensures
        present ==> step == IconStep::Read(icon),
        !present ==> step == (IconStep::LookUp { name: icon, size: 32, scale: 1, theme: None }),
{
}

/// What was found is read; where nothing was found there is no image, and that is remembered unless
/// something is known of the icon. Nothing is said of any other icon.
pub proof fn law_lookup_is_remembered(
    icon: String,
    found: Option<String>,
    step: IconStep,
    other: Seq<char>,
)
    ensures
        forall|icons: &mut Icons| #[trigger]
            call_ensures(Icons::looked_up, (icons, icon, found), step) ==> {
                &&& found matches Some(path) ==> step == IconStep::Read(path) && final(icons)@
                    == icons@
                &&& found is None ==> step == IconStep::Finished(None) && final(icons)@.dom().contains(icon@)
                &&& found is None && !icons@.dom().contains(icon@) ==> final(icons)@[icon@]
                    == RenderedIcon::Failed
                &&& icons@.dom().contains(icon@) ==> final(icons)@[icon@] == icons@[icon@]
                &&& other != icon@ ==> (final(icons)@.dom().contains(other)
                    <==> icons@.dom().contains(other)) && final(icons)@[other] == icons@[other]
            },
{
}

/// A file that holds something is the image, with the extension of its path; that is remembered
/// unless something is known of the icon, and so is that there was none. Nothing is said of any
/// other icon.
pub proof fn law_image_is_what_the_file_holds(
    icon: String,
    path: String,
    content: Option<Vec<u8>>,
    image: Option<crate::mode::launch::entry::StaticImage>,
    other: Seq<char>,
)
    ensures
        forall|icons: &mut Icons| #[trigger]
            call_ensures(Icons::content_read, (icons, icon, &path, content), image) ==> {
                &&& image is Some <==> content is Some && content->0@.len() > 0
                &&& image matches Some(i) ==> i.data@ == content->0@ && match extension(path@) {
                    Some(e) => i.extension@ == e,
                    None => i.extension@.len() == 0,
                }
                &&& final(icons)@.dom().contains(icon@)
                &&& icons@.dom().contains(icon@) ==> final(icons)@[icon@] == icons@[icon@]
                &&& !icons@.dom().contains(icon@) ==> final(icons)@[icon@] == match image {
                    Some(i) => RenderedIcon::Loaded(i),
                    None => RenderedIcon::Failed,
                }
                &&& other != icon@ ==> (final(icons)@.dom().contains(other)
                    <==> icons@.dom().contains(other)) && final(icons)@[other] == icons@[other]
            },
{
}

/// The icon of a row is read where it is an absolute path to a file that is there, and looked up in
/// the theme `Adwaita` otherwise, 32 pixels large and unscaled; a row without an icon has none.
pub proof fn law_icon_of_row_is_found(icon: Option<String>, present: bool, step: IconStep)
    requires
        call_ensures(find_icon, (&icon, present), step),
    ensures
        icon is None ==> step == IconStep::Finished(None),
        icon matches Some(name) ==> if name@.len() > 0 && name@[0] == '/' && present {
            step == IconStep::Read(name)
        } else {
            step matches IconStep::LookUp { name: n, size, scale, theme } && n == name && size == 32
                && scale == 1 && theme is Some && theme->0@ == "Adwaita"@
        },
{
}

/// What is chosen in the user interface is the entry that was shown there, and a number below 0 is
/// none.
pub proof fn law_shown_entry_can_be_chosen(
    entry: LauncherEntry,
    shown: UiEntry,
    message: Option<crate::mode::launch::launcher::Message>,
)
    requires
        call_ensures(LauncherEntry::to_slint, (&entry,), shown),
        call_ensures(on_launch, (shown.id,), message),
    ensures
        entry.id.0 <= i32::MAX ==> message == Some(
            crate::mode::launch::launcher::Message::Launch(entry.id),
        ),
        shown.id < 0 <==> message is None,
        shown.name@ == entry.desktop.name@,
        shown.icon == entry.icon,
{
}

/// A search changes what is searched for in its column, and in no other. What is found was added;
/// it stays where the matcher says that nothing changed; and once the matcher has finished and
/// nothing is searched for, it is everything that was added, in order.
pub proof fn law_search_is_for_its_query(
    before: SearchView,
    column: int,
    query: Seq<char>,
    status: SearchStatus,
    after: SearchView,
    other: int,
    i: int,
)
    requires
        before.searches(column, query, status, after),
        0 <= column < before.queries.len(),
        0 <= other < before.queries.len(),
    ensures
        after.searched[column] == query,
        after.searched.len() == before.queries.len(),
        other != column ==> after.searched[other] == before.queries[other],
        after.queries == after.searched,
        after.items == before.items,
        0 <= i < after.found.len() ==> exists|j: int|
            0 <= j < before.items.len() && (#[trigger] before.items[j]).0 == after.found[i],
        !status.changed ==> after.found == before.found,
        !status.running && (forall|c: int|
            0 <= c < after.queries.len() ==> (#[trigger] after.queries[c]).len() == 0)
            ==> after.found.len() == before.items.len() && (0 <= i < after.found.len()
            ==> after.found[i] == before.items[i].0),
{
    if forall|c: int| 0 <= c < after.queries.len() ==> (#[trigger] after.queries[c]).len() == 0 {
        assert(crate::fuzzy_search::no_query(after.queries)) by {
            assert forall|c: int| 0 <= c < after.queries.len() implies (#[trigger] after.queries[c])
                == Seq::<char>::empty() by {
                assert(after.queries[c] =~= Seq::empty());
            }
        }
    }
    if 0 <= i < after.found.len() {
        assert(crate::fuzzy_search::is_given(after.found[i], after.items));
    }
}

/// What a launcher of rows does: a query is searched for; results are shown row by row, each match
/// as the row that it stands for; and the match that is chosen is launched, and the launcher then
/// asks to be stopped.
pub proof fn law_row_launcher_follows_the_search(
    query: String,
    index: usize,
    actions: Vec<RowAction>,
    i: int,
)
    ensures
        forall|launcher: &mut RowLauncher| #[trigger]
            call_ensures(
                RowLauncher::on_message,
                (launcher, crate::mode::launch::rows::Message::QuerySet(query)),
                actions,
            ) ==> {
                &&& final(launcher)@.rows == launcher@.rows
                &&& final(launcher)@.search.searched == seq![query@]
                &&& 1 <= actions@.len() <= 2
                &&& actions@[0] matches RowAction::Searched(status) && (actions@.len() == 2
                    <==> !status.running && status.changed)
                &&& actions@.len() == 2 ==> actions@[1] == RowAction::NotifySearch
            },
        forall|launcher: &mut RowLauncher| #[trigger]
            call_ensures(
                RowLauncher::on_message,
                (launcher, crate::mode::launch::rows::Message::Search),
                actions,
            ) ==> {
                &&& final(launcher)@.rows == launcher@.rows
                &&& actions@.len() == 2
                &&& actions@[1] matches RowAction::Show(rows) && rows@.len()
                    == final(launcher)@.search.found.len() && (0 <= i < rows@.len() ==> rows@[i]
                    == launcher@.rows[final(launcher)@.search.found[i].for_id.0 as int])
            },
        forall|launcher: &mut RowLauncher| #[trigger]
            call_ensures(
                RowLauncher::on_message,
                (launcher, crate::mode::launch::rows::Message::Launch(index)),
                actions,
            ) ==> {
                &&& final(launcher)@ == launcher@
                &&& index >= launcher@.search.found.len() ==> actions@.len() == 0
                &&& index < launcher@.search.found.len() ==> actions@.len() == 2 && actions@[0]
                    == RowAction::Launch(
                    launcher@.rows[launcher@.search.found[index as int].for_id.0 as int].entry,
                ) && actions@[1] == RowAction::Finish
            },
{
}

/// A row is found by its key, and by its place.
pub proof fn law_row_is_found_by_its_key(
    model: IndexModel,
    place: int,
    key: usize,
    row: Option<usize>,
    value: Option<LauncherEntry>,
)
    requires
        call_ensures(IndexModel::get_row_of_key, (&model, &key), row),
        call_ensures(IndexModel::get_value_of_key, (&model, &key), value),
        0 <= place <= model@.len(),
        forall|i: int| 0 <= i < place ==> (#[trigger] model@[i]).0 != key,
    ensures
        place < model@.len() && model@[place].0 == key ==> row is Some && row->0 == place && value
            == Some(model@[place].1),
        place == model@.len() ==> row is None && value is None,
{
    let p = crate::index_map::has_key::<usize, LauncherEntry>(key);
    crate::sequences::lemma_first(model@, p);
    if place < model@.len() && model@[place].0 == key {
        crate::sequences::lemma_first_exists(model@, p, place);
    }
}

} // verus!
