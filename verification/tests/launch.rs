use polymodo::fuzzy_search::{notifies, FuzzySearch, Row, SearchConfig, SearchStatus};
use polymodo::mode::launch::command::{launch, launch_arguments};
use polymodo::mode::launch::entry::{scour_desktop_entries, DesktopEntry, EntryCache, EntryIds, StaticImage};
use polymodo::mode::launch::history::{LaunchHistory, LaunchStatistic, NANOS_PER_SECOND, SECONDS_PER_DAY};
use polymodo::single::Single;
use polymodo::mode::launch::icons::{IconStep, Icons};
use polymodo::mode::launch::launcher::{
    copy_entry, on_launch, on_search_edited, EntryId, Launcher, LauncherAction, LauncherEntry,
    Message, SearchEntry,
};
use polymodo::mode::launch::rows;
use polymodo::mode::launch::settings::LauncherSettings;
use polymodo::persistence::StorableState;
use polymodo::ui::index_model::{IndexModel, Notification};
use polymodo::xdg::desktop_entry::{ApplicationType, DesktopEntry as XdgEntry};
use std::sync::Arc;
use std::time::{Duration, Instant};

const DAY: i128 = NANOS_PER_SECOND * SECONDS_PER_DAY;

#[test]
fn test() {}

fn entry(name: &str, path: &str, command_line: &str) -> DesktopEntry {
    DesktopEntry {
        name: name.to_string(),
        generic_name: None,
        description: None,
        path: path.as_bytes().to_vec(),
        command_line: command_line.to_string(),
        icon: None,
    }
}

fn found(name: &str, path: &str) -> XdgEntry {
    XdgEntry {
        source_path: path.as_bytes().to_vec(),
        source_hash: 0,
        entry_type: ApplicationType::Application,
        name: name.to_string(),
        command_line: Some("run".to_string()),
        generic_name: Some("generic".to_string()),
        comment: Some("comment".to_string()),
        icon: Some("icon".to_string()),
        no_display: None,
    }
}

fn args(command_line: &str) -> Vec<String> {
    launch_arguments(&entry("Name", "/p.desktop", command_line))
}

#[test]
fn command_is_split_at_spaces() {
    assert_eq!(args("prog a  b "), vec!["prog", "a", "b"]);
    assert_eq!(args(""), Vec::<String>::new());
    assert_eq!(args("   "), Vec::<String>::new());
    assert_eq!(args("prog\ta"), vec!["prog\ta"]);
}

#[test]
fn codes_for_files_are_dropped() {
    assert_eq!(args("prog %f %F %u %U --x=%u"), vec!["prog", "--x="]);
    assert_eq!(args("prog %%ff"), vec!["prog", "%f"]);
    assert_eq!(args("prog %%fF"), vec!["prog"]);
    assert_eq!(args("a%"), vec!["a%"]);
}

#[test]
fn codes_for_the_entry_are_filled_in() {
    assert_eq!(args("prog %c %k"), vec!["prog", "Name", "/p.desktop"]);
    assert_eq!(args("prog %i x"), vec!["prog", "--icon", "", "x"]);
    let mut e = entry("Name", "/p.desktop", "prog %i x%i");
    e.icon = Some("pic".to_string());
    assert_eq!(launch_arguments(&e), vec!["prog", "--icon", "pic", "x%i"]);
    e.command_line = "prog %k".to_string();
    e.path = vec![0x2f, 0xff];
    assert_eq!(launch_arguments(&e), vec!["prog", ""]);
    e.path = "/\u{e4}".as_bytes().to_vec();
    assert_eq!(launch_arguments(&e), vec!["prog", "/\u{e4}"]);
}

#[test]
fn first_argument_is_the_program() {
    let run = launch(&entry("Name", "/p", "prog a b"));
    assert_eq!(run.program, "prog");
    assert_eq!(run.args, vec!["a", "b"]);
}

#[test]
fn rows_keep_their_order_and_their_keys() {
    let row = |id: usize, name: &str| LauncherEntry {
        id: EntryId(id),
        shown: true,
        score: 0,
        desktop: Arc::new(entry(name, "/p", "run")),
        icon: None,
    };
    let mut model = IndexModel::default();
    assert_eq!(model.row_count(), 0);
    model.insert(7, row(7, "seven"));
    model.insert(3, row(3, "three"));
    model.insert(7, row(7, "again"));
    assert_eq!(model.row_count(), 2);
    assert_eq!(model.get_row_key(0), Some(7));
    assert_eq!(model.get_row_key(2), None);
    assert_eq!(model.get_row_of_key(&3), Some(1));
    assert_eq!(model.get_row_of_key(&4), None);
    assert_eq!(model.get_value_of_key(&7).unwrap().desktop.name, "again");
    assert!(model.get_value_of_key(&8).is_none());
    assert_eq!(model.row_data(1).unwrap().desktop.name, "three");
    assert!(model.row_data(2).is_none());
    assert_eq!(model.get_row_key_value(1).unwrap().0, 3);
    model.set_row_data(1, row(3, "new"));
    assert_eq!(model.get_value_of_key(&3).unwrap().desktop.name, "new");
    let scored = |_: &usize, value: &LauncherEntry| {
        let mut value = copy_entry(value);
        value.score = 9;
        (value, "done")
    };
    assert_eq!(model.mutate_row(0, scored), Some(("done", Notification::RowChanged(0))));
    assert_eq!(model.mutate_row(5, scored), None);
    assert_eq!(model.row_data(0).unwrap().score, 9);
    let by_key = |row: usize, key: &usize, value: &LauncherEntry| {
        let mut value = copy_entry(value);
        value.score = 100 * row as u32 + *key as u32;
        (value, row)
    };
    assert_eq!(model.mutate_by_key(&3, by_key), Some((1, Notification::RowChanged(1))));
    assert_eq!(model.mutate_by_key(&4, by_key), None);
    assert_eq!(model.row_data(1).unwrap().score, 103);
    let all = |row: usize, key: &usize, value: &LauncherEntry| by_key(row, key, value).0;
    assert_eq!(model.mutate_all(all), Notification::Reset);
    assert_eq!(model.row_data(0).unwrap().score, 7);
    assert_eq!(model.row_data(1).unwrap().score, 103);
}

#[test]
fn only_launchable_entries_are_announced() {
    let mut cache = EntryCache::new();
    let mut ids = EntryIds::new();
    let mut hidden = found("hidden", "/h");
    hidden.no_display = Some(true);
    let mut shown = found("shown", "/s");
    shown.no_display = Some(false);
    let mut silent = found("silent", "/n");
    silent.command_line = None;
    let messages = scour_desktop_entries(
        &mut cache,
        &mut ids,
        vec![found("a", "/a"), hidden, silent, shown],
    );
    let names: Vec<(usize, &str)> = messages
        .iter()
        .map(|m| match m {
            Message::NewEntry(id, e) => (id.0, e.name.as_str()),
            _ => panic!("not an entry"),
        })
        .collect();
    assert_eq!(names, vec![(0, "a"), (1, "shown")]);
    match &messages[0] {
        Message::NewEntry(_, e) => {
            assert_eq!(e.generic_name.as_deref(), Some("generic"));
            assert_eq!(e.description.as_deref(), Some("comment"));
            assert_eq!(e.icon.as_deref(), Some("icon"));
            assert_eq!(e.command_line, "run");
            assert_eq!(e.path, b"/a".to_vec());
        }
        _ => panic!("not an entry"),
    }
}

#[test]
fn second_search_announces_only_what_is_cached() {
    let mut cache = EntryCache::new();
    let mut ids = EntryIds::new();
    let search = || vec![found("a", "/d/a"), found("b", "/d//b")];
    assert_eq!(cache.take_found(search(), &mut ids).len(), 2);
    assert_eq!(cache.take_found(search(), &mut ids).len(), 0);
    assert_eq!(cache.take_found(vec![found("b", "/d/b")], &mut ids).len(), 0);
    let messages = scour_desktop_entries(&mut cache, &mut ids, search());
    let numbers: Vec<(usize, &str)> = messages
        .iter()
        .map(|m| match m {
            Message::NewEntry(id, e) => (id.0, e.name.as_str()),
            _ => panic!("not an entry"),
        })
        .collect();
    assert_eq!(numbers, vec![(2, "b"), (3, "a")]);
    assert_eq!(ids.next_id(), EntryId(4));
}

#[test]
fn entry_that_was_found_before_is_kept_as_it_was() {
    let mut cache = EntryCache::new();
    let mut ids = EntryIds::new();
    cache.take_found(vec![found("old name", "/a")], &mut ids);
    cache.take_found(vec![found("new name", "/a")], &mut ids);
    match &cache.announce_cached(&mut ids)[0] {
        Message::NewEntry(id, e) => assert_eq!((id.0, e.name.as_str()), (1, "old name")),
        _ => panic!("not an entry"),
    }
}

#[test]
fn numbers_start_again_when_they_run_out() {
    let mut ids = EntryIds { next: usize::MAX };
    assert_eq!(ids.next_id(), EntryId(usize::MAX));
    assert_eq!(ids.next_id(), EntryId(0));
}

#[test]
fn icon_is_read_once() {
    let mut icons = Icons::new();
    let name = "/pics/a.svg".to_string();
    assert!(matches!(icons.load_icon(&name), IconStep::CheckExists(p) if p == name));
    assert!(matches!(icons.path_checked(&name, true), IconStep::Read(p) if p == name));
    assert!(matches!(
        icons.path_checked(&name, false),
        IconStep::LookUp { name: n, size: 32, scale: 1, theme: None } if n == name
    ));
    let image = icons.content_read(name.clone(), &name, Some(vec![1, 2, 3])).unwrap();
    assert_eq!(*image.data, vec![1, 2, 3]);
    assert_eq!(image.extension, "svg");
    assert!(icons.is_icon_cached(&name));
    assert!(icons.content_read(name.clone(), &name, None).is_none());
    match icons.load_icon(&name) {
        IconStep::Finished(Some(image)) => assert_eq!(*image.data, vec![1, 2, 3]),
        _ => panic!("not cached"),
    }
    assert_eq!(icons.cached_icon(&name).unwrap().extension, "svg");
}

#[test]
fn icon_that_failed_fails_at_once() {
    let mut icons = Icons::new();
    let name = "firefox".to_string();
    assert!(!icons.is_icon_cached(&name));
    assert!(matches!(icons.load_icon(&name), IconStep::LookUp { name: n, .. } if n == "firefox"));
    assert!(matches!(icons.looked_up(name.clone(), None), IconStep::Finished(None)));
    assert!(icons.is_icon_cached(&name));
    assert!(matches!(icons.load_icon(&name), IconStep::Finished(None)));
    assert!(icons.cached_icon(&name).is_none());
    let other = "empty".to_string();
    assert!(matches!(
        icons.looked_up(other.clone(), Some("/x/y".to_string())),
        IconStep::Read(p) if p == "/x/y"
    ));
    assert!(!icons.is_icon_cached(&other));
    assert!(icons.content_read(other.clone(), &"/x/y".to_string(), Some(vec![])).is_none());
    assert!(icons.is_icon_cached(&other));
}

#[test]
fn image_without_extension_has_an_empty_one() {
    let mut icons = Icons::new();
    let image = icons.content_read("a".to_string(), &"/p.d/.hidden".to_string(), Some(vec![0]));
    assert_eq!(image.unwrap().extension, "");
}

/// Ticks until the matcher has come to rest.
fn settle(search: &mut FuzzySearch<1>) {
    let start = Instant::now();
    loop {
        let status = search.tick();
        if !status.running {
            return;
        }
        assert!(start.elapsed() < Duration::from_secs(15));
        std::hint::spin_loop();
    }
}

fn search_of(texts: &[&str]) -> FuzzySearch<1> {
    let mut search = FuzzySearch::create_with_config(SearchConfig { prefer_prefix: true }, || {});
    let entries = texts
        .iter()
        .enumerate()
        .map(|(i, t)| SearchEntry { for_id: EntryId(i), text: t.to_string() })
        .collect();
    search.push_all(entries);
    search
}

fn ids(search: &FuzzySearch<1>) -> Vec<usize> {
    let mut ids: Vec<usize> = search.get_matches().iter().map(|e| e.for_id.0).collect();
    ids.sort();
    ids
}

#[test]
fn search_finds_what_matches() {
    let mut search = search_of(&["Firefox", "Files", "Terminal"]);
    assert_eq!(search.len(), 3);
    assert_eq!(ids(&search), Vec::<usize>::new());
    settle(&mut search);
    assert_eq!(ids(&search), vec![0, 1, 2]);
    search.search::<0>("fi".to_string());
    settle(&mut search);
    assert_eq!(ids(&search), vec![0, 1]);
    search.search::<0>("fire".to_string());
    settle(&mut search);
    assert_eq!(ids(&search), vec![0]);
    search.search::<0>("term".to_string());
    settle(&mut search);
    assert_eq!(ids(&search), vec![2]);
    search.search::<0>(String::new());
    settle(&mut search);
    assert_eq!(ids(&search), vec![0, 1, 2]);
    search.push(SearchEntry { for_id: EntryId(3), text: "Fish".to_string() });
    search.search::<0>("fi".to_string());
    settle(&mut search);
    assert_eq!(ids(&search), vec![0, 1, 3]);
}

#[test]
fn capitals_in_the_query_count() {
    let mut search = search_of(&["alpha", "Alpha"]);
    search.search::<0>("A".to_string());
    settle(&mut search);
    assert_eq!(ids(&search), vec![1]);
}

#[test]
fn start_of_a_text_ranks_higher() {
    let mut search = search_of(&["xx code", "code xx"]);
    search.search::<0>("code".to_string());
    settle(&mut search);
    let order: Vec<usize> = search.get_matches().iter().map(|e| e.for_id.0).collect();
    assert_eq!(order, vec![1, 0]);
}

#[test]
fn search_for_nothing_finds_all_in_order() {
    let mut search = search_of(&["a longer text", "b", "xx code", "code xx"]);
    search.search::<0>("code".to_string());
    settle(&mut search);
    search.search::<0>(String::new());
    search.push(SearchEntry { for_id: EntryId(4), text: "a".to_string() });
    settle(&mut search);
    let order: Vec<usize> = search.get_matches().iter().map(|e| e.for_id.0).collect();
    assert_eq!(order, vec![0, 1, 2, 3, 4]);
}

#[test]
fn results_at_once_are_notified() {
    for (changed, running, notified) in [(true, false, true), (true, true, false), (false, false, false)] {
        assert_eq!(notifies(SearchStatus { changed, running }), notified);
    }
    let mut search = search_of(&["a"]);
    let outcome = search.search::<0>("a".to_string());
    assert_eq!(outcome.notify, notifies(outcome.status));
}

#[test]
fn updates_of_the_search_are_told() {
    let told = Arc::new(std::sync::atomic::AtomicUsize::new(0));
    let counter = told.clone();
    let mut search: FuzzySearch<1> = FuzzySearch::create_with_config(
        SearchConfig { prefer_prefix: false },
        move || {
            counter.fetch_add(1, std::sync::atomic::Ordering::SeqCst);
        },
    );
    search.push(SearchEntry { for_id: EntryId(0), text: "a".to_string() });
    settle(&mut search);
    assert!(told.load(std::sync::atomic::Ordering::SeqCst) > 0);
}

#[test]
fn row_has_one_column() {
    let entry = SearchEntry { for_id: EntryId(0), text: "text".to_string() };
    let columns: [String; 1] = entry.columns();
    assert_eq!(columns, ["text".to_string()]);
}

fn new_entry(launcher: &mut Launcher, id: usize, name: &str, path: &str) -> Vec<LauncherAction> {
    let entry = Arc::new(entry(name, path, "run"));
    launcher.on_message_at(Message::NewEntry(EntryId(id), entry), &Icons::new(), 0)
}

fn shown_names(launcher: &Launcher, now: i128) -> Vec<String> {
    launcher.displayed(now).into_iter().map(|e| e.name).collect()
}

/// Lets the launcher take over results until the given number of entries is shown.
fn update_until(launcher: &mut Launcher, count: usize) {
    let start = Instant::now();
    loop {
        let actions = launcher.on_message(Message::SearchUpdated, &Icons::new());
        assert!(matches!(actions[0], LauncherAction::Searched(_)));
        assert!(matches!(actions[1], LauncherAction::Notify(Notification::Reset)));
        if launcher.displayed(0).len() == count {
            return;
        }
        assert!(start.elapsed() < Duration::from_secs(15));
        std::hint::spin_loop();
    }
}

#[test]
fn new_entry_is_shown_at_once() {
    let mut launcher = Launcher::create(None, || {});
    assert_eq!(launcher.entry_count(), 0);
    assert!(new_entry(&mut launcher, 4, "a", "/a").is_empty());
    assert!(new_entry(&mut launcher, 5, "b", "/b").is_empty());
    assert_eq!(launcher.entry_count(), 2);
    assert_eq!(launcher.display_order(0), vec![1, 0]);
    let shown = launcher.displayed(0);
    assert_eq!((shown[0].name.as_str(), shown[0].id), ("b", 5));
    assert_eq!(shown[1].generic_name, "");
    assert!(shown[1].icon.is_none());
}

#[test]
fn search_shows_what_was_found_best_first() {
    let mut launcher = Launcher::create(None, || {});
    new_entry(&mut launcher, 0, "xx code", "/a");
    new_entry(&mut launcher, 1, "code xx", "/b");
    new_entry(&mut launcher, 2, "other", "/c");
    let actions = launcher.on_message_at(on_search_edited("code".to_string()), &Icons::new(), 0);
    match &actions[0] {
        LauncherAction::Searched(status) => {
            assert_eq!(actions.len(), if notifies(*status) { 2 } else { 1 });
        }
        _ => panic!("nothing is said of the search"),
    }
    update_until(&mut launcher, 2);
    assert_eq!(shown_names(&launcher, 0), vec!["code xx", "xx code"]);
    launcher.on_message_at(Message::QuerySet(String::new()), &Icons::new(), 0);
    update_until(&mut launcher, 3);
}

#[test]
fn launch_score_ranks_before_the_search() {
    let stat = LaunchStatistic {
        launch_score: Single::from_bits(2f32.to_bits()).unwrap(),
        last_launched: 0,
    };
    let stored = LaunchHistory::from_entries(vec![(b"/a".to_vec(), stat)]);
    let mut launcher = Launcher::create(Some(stored), || {});
    new_entry(&mut launcher, 0, "xx code", "/a");
    new_entry(&mut launcher, 1, "code xx", "/b");
    launcher.on_message_at(Message::QuerySet("code".to_string()), &Icons::new(), 0);
    update_until(&mut launcher, 2);
    assert_eq!(shown_names(&launcher, 0), vec!["xx code", "code xx"]);
}

#[test]
fn launch_is_remembered() {
    let mut launcher = Launcher::create(None, || {});
    new_entry(&mut launcher, 0, "a", "/a");
    new_entry(&mut launcher, 1, "b", "/b");
    assert!(launcher.on_message_at(Message::Launch(EntryId(9)), &Icons::new(), 5).is_empty());
    let chosen = on_launch(0).unwrap();
    let actions = launcher.on_message_at(chosen, &Icons::new(), 5);
    assert_eq!(actions.len(), 3);
    assert!(matches!(actions[0], LauncherAction::WriteHistory));
    assert!(matches!(&actions[1], LauncherAction::Launch(e) if e.name == "a"));
    assert!(matches!(actions[2], LauncherAction::Finish));
    assert_eq!(launcher.history().entries()[0].0, b"/a".to_vec());
    assert_eq!(launcher.history().entries()[0].1.last_launched, 5);
    assert!(launcher.history().score_at(&b"/a".to_vec(), 20 * DAY).exceeds_half());
    assert_eq!(shown_names(&launcher, 5), vec!["b", "a"]);
}

#[test]
fn number_below_zero_launches_nothing() {
    assert!(on_launch(-1).is_none());
    assert!(matches!(on_launch(3), Some(Message::Launch(EntryId(3)))));
}

#[test]
fn icon_of_an_entry_is_loaded_where_it_is_not_cached() {
    let mut launcher = Launcher::create(None, || {});
    let mut icons = Icons::new();
    let with_icon = |name: &str| {
        let mut e = entry("n", "/n", "run");
        e.icon = Some(name.to_string());
        Arc::new(e)
    };
    let actions = launcher.on_message_at(Message::NewEntry(EntryId(0), with_icon("a")), &icons, 0);
    assert!(matches!(
        &actions[0],
        LauncherAction::LoadIcon { id: EntryId(0), icon } if icon == "a"
    ));
    icons.content_read("b".to_string(), &"/b.png".to_string(), Some(vec![9]));
    let actions = launcher.on_message_at(Message::NewEntry(EntryId(1), with_icon("b")), &icons, 0);
    assert!(actions.is_empty());
    icons.looked_up("c".to_string(), None);
    let actions = launcher.on_message_at(Message::NewEntry(EntryId(2), with_icon("c")), &icons, 0);
    assert!(actions.is_empty());
    let shown = launcher.displayed(0);
    assert!(shown[0].icon.is_none() && shown[2].icon.is_none());
    assert_eq!(*shown[1].icon.as_ref().unwrap().data, vec![9]);
    let image = StaticImage { data: Arc::new(vec![7]), extension: "png".to_string() };
    let actions = launcher.on_message_at(Message::UpdateIcon(EntryId(0), image), &icons, 0);
    assert!(matches!(actions[0], LauncherAction::Notify(Notification::RowChanged(0))));
    assert_eq!(*launcher.displayed(0)[2].icon.as_ref().unwrap().data, vec![7]);
    let image = StaticImage { data: Arc::new(vec![7]), extension: "png".to_string() };
    assert!(launcher.on_message_at(Message::UpdateIcon(EntryId(9), image), &icons, 0).is_empty());
}

#[test]
fn texts_of_an_entry_are_shown() {
    let mut e = entry("name", "/p", "run");
    e.generic_name = Some("generic".to_string());
    e.description = Some("description".to_string());
    let row = LauncherEntry {
        id: EntryId((1usize << 32) + 5),
        shown: true,
        score: 0,
        desktop: Arc::new(e),
        icon: None,
    };
    let shown = row.to_slint();
    assert_eq!(shown.generic_name, "generic");
    assert_eq!(shown.description, "description");
    assert_eq!(shown.id, 5);
}

#[test]
fn history_values_follow_single_precision() {
    let bump = |value: u32| (0.5f32 * 100 as f32 + 0.5f32 * value as f32) as u32;
    let decrement = |value: u32| (0.1f32 * 0 as f32 + (1f32 - 0.1f32) * value as f32) as u32;
    for value in [
        0u32, 1, 2, 3, 9, 10, 11, 50, 99, 100, 101, 1000, 16_777_215, 16_777_216, 16_777_217,
        16_777_219, 33_554_433, 123_456_789, 4_294_967_295,
    ] {
        assert_eq!(rows::bump_history_value(value), bump(value), "{value}");
        assert_eq!(rows::decrement_history_value(value), decrement(value), "{value}");
    }
}

#[test]
fn rows_stay_and_new_ones_come_last() {
    let bias = rows::LauncherEntryBiasState { history: vec![(b"/b".to_vec(), 42)] };
    let mut cache: Vec<rows::SearchRow> = Vec::new();
    rows::scour_desktop_entries(&mut cache, vec![found("a", "/a")], &bias);
    let mut hidden = found("h", "/h");
    hidden.no_display = Some(true);
    rows::scour_desktop_entries(
        &mut cache,
        vec![found("b", "/b"), found("a again", "//a"), hidden],
        &bias,
    );
    let names: Vec<(&str, u32)> =
        cache.iter().map(|r| (r.entry.name.as_str(), r.bonus_score)).collect();
    assert_eq!(names, vec![("a", 0), ("b", 42)]);
    let copy = rows::copy_desktop_entry_cache(&cache);
    assert_eq!(copy.len(), 2);
    assert!(Arc::ptr_eq(&copy[1].entry, &cache[1].entry));
    assert_eq!(copy[0].columns(), ["a".to_string()]);
    assert_eq!(bias.value(&b"/b/".to_vec()), 42);
    assert_eq!(bias.value(&b"/c".to_vec()), 0);
}

#[test]
fn icon_of_a_row_is_found() {
    assert!(matches!(rows::find_icon(&None, true), IconStep::Finished(None)));
    let path = Some("/a.png".to_string());
    assert!(matches!(rows::find_icon(&path, true), IconStep::Read(p) if p == "/a.png"));
    assert!(matches!(rows::find_icon(&path, false), IconStep::LookUp { size: 32, scale: 1, theme: Some("Adwaita"), .. }));
    let name = Some("a".to_string());
    assert!(matches!(rows::find_icon(&name, true), IconStep::LookUp { name, .. } if name == "a"));
}

#[test]
fn row_launcher_launches_a_match() {
    let mut launcher = rows::RowLauncher::create(|| {});
    let mut cache: Vec<rows::SearchRow> = Vec::new();
    let bias = rows::LauncherEntryBiasState { history: Vec::new() };
    rows::scour_desktop_entries(&mut cache, vec![found("alpha", "/a"), found("beta", "/b")], &bias);
    for row in &cache {
        launcher.push(row.share());
    }
    assert_eq!(launcher.row_count(), 2);
    assert!(launcher.on_message(rows::Message::Launch(0)).is_empty());
    let actions = launcher.on_message(rows::Message::QuerySet("bet".to_string()));
    assert!(matches!(
        actions[0],
        rows::RowAction::Searched(status) if actions.len() == 1 + notifies(status) as usize
    ));
    let start = Instant::now();
    loop {
        let actions = launcher.on_message(rows::Message::Search);
        assert!(matches!(actions[0], rows::RowAction::Searched(_)));
        match &actions[1] {
            rows::RowAction::Show(rows) => {
                if rows.len() == 1 && rows[0].entry.name == "beta" {
                    break;
                }
            }
            _ => panic!("nothing is shown"),
        }
        assert!(start.elapsed() < Duration::from_secs(15));
    }
    let actions = launcher.on_message(rows::Message::Launch(0));
    assert!(matches!(&actions[0], rows::RowAction::Launch(e) if e.name == "beta"));
    assert!(matches!(actions[1], rows::RowAction::Finish));
    assert!(launcher.on_message(rows::Message::Launch(1)).is_empty());
}

#[test]
fn settings_are_brought_into_range() {
    assert_eq!(LauncherSettings::default().transparency, 0.2f32.to_bits());
    for value in [0.0f32, 0.3, 1.0, 1.5, -1.0, f32::INFINITY, f32::NEG_INFINITY, f32::MIN_POSITIVE] {
        let settings = LauncherSettings { transparency: value.to_bits() }.sanitize();
        assert_eq!(settings.transparency, value.clamp(0.0, 1.0).to_bits(), "{value}");
        assert_eq!(
            LauncherSettings { transparency: settings.transparency }.sanitize().transparency,
            settings.transparency
        );
    }
    let nan = LauncherSettings { transparency: f32::NAN.to_bits() }.sanitize();
    assert!(f32::from_bits(nan.transparency).is_nan());
    assert_eq!(LauncherSettings::NAME, "settings");
}
