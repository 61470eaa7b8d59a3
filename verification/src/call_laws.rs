//! What those who call the library can rely on.

use crate::app::{Abortable, AppEvent, AppKey, AppMessage, AppName, AppSender, Driver};
use crate::binary32::rounded;
use crate::cli::Args;
use crate::ipc::{ClientboundMessage, ClientboundView, IpcReceiveError, ServerboundMessage};
use crate::mode::launch::command::launch_arguments;
use crate::mode::launch::command_laws::{
    are_without_spaces, joined_by_spaces, law_plain_line_is_its_parts,
};
use crate::mode::launch::display_laws::{
    law_higher_launch_score_is_on_top, law_shown_rows_are_shown_once,
};
use crate::mode::launch::entry::{
    announced, new_entries, nth_id, scour_desktop_entries, DesktopEntry, EntryCache, EntryIds,
};
use crate::mode::launch::entry_laws::{
    announces, caches, law_launchable_entry_is_offered,
    law_only_new_launchable_entries_are_announced,
};
use crate::mode::launch::history::{score_in, time_from_epoch, LaunchHistory};
use crate::mode::launch::history_laws::{
    law_bonus_falls_off_with_the_days, law_decay_takes_a_twentieth, law_launch_adds_one,
    law_unknown_entry_has_no_score,
};
use crate::mode::launch::launcher::{EntryId, Launcher, Message};
use crate::notify::Notify;
use crate::paths::{joined, path_key, PathKey};
use crate::persistence::{state_file, StateFile};
use crate::polymodo::{Polymodo, PolymodoError};
use crate::repaint::{RepaintPlan, RepaintRequest, RepaintRequests};
use crate::server::{reply_with_result, serve_client, ServeStep};
use crate::session::{choose_role, request, Connection, Role};
use crate::single::{is_single, nearest, Single};
use crate::windowing::client::SurfaceEvent;
use crate::xdg::desktop_entry::{
    entry_from_section, load, parsed_sections, LoadError, SectionValues,
};
use crate::xdg::desktop_entry_laws::{
    is_text_under, law_entry_knows_its_source, law_no_display_is_as_written,
    law_texts_are_as_written, law_values_are_taken_over,
};
use vstd::arithmetic::power2::pow2;
use vstd::prelude::*;
use vstd::string::StringSliceAdditionalSpecFns;

verus! {

/// Whatever order the launcher gives: a row whose entry has the higher launch score stands above,
/// and the rows are those that are to be shown, each of them once.
pub proof fn law_launcher_orders_by_launch_score(
    launcher: Launcher,
    now: i128,
    order: Vec<usize>,
    j: int,
    k: int,
    row: usize,
)
    requires
        call_ensures(Launcher::display_order, (&launcher, now), order),
    ensures
        0 <= j < k < order@.len() ==> {
            let a = launcher@.entries[order@[j] as int].1;
            let b = launcher@.entries[order@[k] as int].1;
            score_in(launcher@.ranking, path_key(a.desktop.path@), now) >= score_in(
                launcher@.ranking,
                path_key(b.desktop.path@),
                now,
            )
        },
        order@.contains(row) <==> row < launcher@.entries.len()
            && launcher@.entries[row as int].1.shown,
        order@.no_duplicates(),
{
    let a = launcher@.entries[order@[j] as int].1;
    let b = launcher@.entries[order@[k] as int].1;
    if 0 <= j < k < order@.len() && score_in(
        launcher@.ranking,
        path_key(b.desktop.path@),
        now,
    ) > score_in(
        launcher@.ranking,
        path_key(a.desktop.path@),
        now,
    ) {
        law_higher_launch_score_is_on_top(launcher@, now, order@, k, j);
    }
    law_shown_rows_are_shown_once(launcher@, now, order@, row);
}

/// Whatever score a history gives: it is the launch score of the entry, with what is added for the
/// time since the last launch.
pub proof fn law_score_goes_by_the_days(
    history: LaunchHistory,
    path: Vec<u8>,
    now: i128,
    res: Single,
)
    requires
        call_ensures(LaunchHistory::score_at, (&history, &path, now), res),
        history@.dom().contains(path_key(path@)) ==> is_single(history@[path_key(path@)].score),
    ensures
        !history@.dom().contains(path_key(path@)) ==> res@ == 0,
        history@.dom().contains(path_key(path@)) ==> {
            let score = history@[path_key(path@)].score;
            let nanos = now - history@[path_key(path@)].last_launched;
            let day: int = 86_400_000_000_000;
            &&& nanos < 0 || nanos >= 13 * day ==> res@ == score
            &&& 0 <= nanos < 2 * day ==> res@ == nearest(score + 4 * pow2(149))
            &&& 2 * day <= nanos < 5 * day ==> res@ == nearest(score + 10066330 * pow2(127))
            &&& 5 * day <= nanos < 13 * day ==> res@ == nearest(score + 10066330 * pow2(126))
        },
{
    if history@.dom().contains(path_key(path@)) {
        law_bonus_falls_off_with_the_days(history@, path_key(path@), now);
    } else {
        law_unknown_entry_has_no_score(history@, path_key(path@), now);
    }
}

/// Whatever a cache announces of what was found: each desktop entry that has a command, does not
/// ask to be hidden and was not cached, and nothing else.
pub proof fn law_found_entries_are_announced(
    found: Vec<crate::xdg::desktop_entry::DesktopEntry>,
    res: Vec<Message>,
    i: int,
    m: int,
)
    requires
        0 <= i < found@.len(),
    ensures
        forall|cache: &mut EntryCache, ids: &mut EntryIds| #[trigger]
            call_ensures(EntryCache::take_found, (cache, found, ids), res) && (forall|j: int|
                0 <= j < cache@.len() ==> (#[trigger] cache@[j]).0 == path_key(cache@[j].1.path@))
                ==> {
                &&& found@[i].command_line is Some && found@[i].no_display != Some(true) && !caches(
                    cache@,
                    path_key(found@[i].source_path@),
                ) ==> exists|n: int|
                    0 <= n < res@.len() && announces(#[trigger] res@[n], found@[i])
                &&& 0 <= m < res@.len() ==> exists|n: int|
                    0 <= n < found@.len() && announces(res@[m], #[trigger] found@[n])
                        && found@[n].command_line is Some && found@[n].no_display != Some(true)
            },
{
    assert forall|cache: &mut EntryCache, ids: &mut EntryIds| #[trigger]
        call_ensures(EntryCache::take_found, (cache, found, ids), res) && (forall|j: int|
            0 <= j < cache@.len() ==> (#[trigger] cache@[j]).0 == path_key(cache@[j].1.path@)) implies {
        &&& found@[i].command_line is Some && found@[i].no_display != Some(true) && !caches(
            cache@,
            path_key(found@[i].source_path@),
        ) ==> exists|n: int| 0 <= n < res@.len() && announces(#[trigger] res@[n], found@[i])
        &&& 0 <= m < res@.len() ==> exists|n: int|
            0 <= n < found@.len() && announces(res@[m], #[trigger] found@[n])
                && found@[n].command_line is Some && found@[n].no_display != Some(true)
    } by {
        if found@[i].command_line is Some && found@[i].no_display != Some(true) {
            law_launchable_entry_is_offered(cache@, found@, ids.next, i);
        }
        if 0 <= m < res@.len() {
            law_only_new_launchable_entries_are_announced(cache@, found@, ids.next, m);
        }
    }
}

/// Whatever an entry without codes is launched with: it is the parts of its command between
/// spaces, without the empty ones.
pub proof fn law_plain_command_is_split_at_spaces(
    entry: DesktopEntry,
    parts: Seq<Seq<char>>,
    arguments: Vec<String>,
)
    requires
        call_ensures(launch_arguments, (&entry,), arguments),
        !entry.command_line@.contains('%'),
        parts.len() > 0,
        joined_by_spaces(parts) == entry.command_line@,
        are_without_spaces(parts),
    ensures
        arguments@.map_values(|a: String| a@) == parts.filter(|p: Seq<char>| p.len() > 0),
{
    law_plain_line_is_its_parts(entry, parts);
    assert(arguments@.map_values(|a: String| a@)
        =~= crate::mode::launch::command::texts(arguments@));
}

/// Whatever is made of the values of a section: an entry exactly where there is a name and one of
/// the three types, and it is hidden exactly where `true` is written.
pub proof fn law_section_is_taken_over(
    path: Vec<u8>,
    hash: u64,
    section: SectionValues,
    res: Result<crate::xdg::desktop_entry::DesktopEntry, LoadError>,
)
    requires
        call_ensures(entry_from_section, (path, hash, section), res),
    ensures
        res is Ok <==> section.name is Some && section.entry_type is Some && (
        section.entry_type->0@ == "Application"@ || section.entry_type->0@ == "Link"@
            || section.entry_type->0@ == "Directory"@),
        res matches Ok(entry) ==> {
            &&& entry.source_path == path
            &&& entry.source_hash == hash
            &&& section.name == Some(entry.name)
            &&& entry.command_line == section.command_line
            &&& entry.generic_name == section.generic_name
            &&& entry.comment == section.comment
            &&& entry.icon == section.icon
            &&& entry.no_display == Some(true) <==> section.no_display is Some
                && section.no_display->0@ == "true"@
            &&& entry.no_display == Some(false) <==> section.no_display is Some
                && section.no_display->0@ == "false"@
        },
{
    if let Ok(entry) = res {
        law_values_are_taken_over(path, hash, section, entry);
    }
}

/// Whatever the program runs as: it stands alone exactly where it is told to, and otherwise is a
/// client where somebody listens, and becomes the daemon only where nobody does.
pub proof fn law_role_goes_by_the_connection(args: Args, connection: Connection, role: Role)
    requires
        call_ensures(choose_role, (&args, connection), role),
    ensures
        role == Role::Standalone <==> args.standalone,
        role == Role::Client <==> !args.standalone && connection == Connection::Connected,
        role == Role::Server <==> !args.standalone && connection == Connection::Refused,
        role == Role::Exit <==> !args.standalone && connection == Connection::Failed,
{
}

/// Whatever is made of the content of a file: where it is an entry, its texts are those of the
/// section `Desktop Entry`, and it is hidden exactly where `true` is written under `NoDisplay`.
pub proof fn law_entry_is_what_is_written(
    path: Vec<u8>,
    content: &str,
    res: Result<crate::xdg::desktop_entry::DesktopEntry, LoadError>,
)
    requires
        call_ensures(load, (path, content), res),
    ensures
        res matches Ok(entry) ==> {
            let section = (parsed_sections(content@)->0)["Desktop Entry"@];
            &&& entry.source_path == path
            &&& section.dom().contains("Name"@) && section["Name"@] == entry.name@
            &&& is_text_under(entry.command_line, section, "Exec"@)
            &&& is_text_under(entry.generic_name, section, "GenericName"@)
            &&& is_text_under(entry.comment, section, "Comment"@)
            &&& is_text_under(entry.icon, section, "Icon"@)
            &&& entry.no_display == Some(true) <==> section.dom().contains("NoDisplay"@)
                && section["NoDisplay"@] == "true"@
        },
{
    if let Ok(entry) = res {
        law_texts_are_as_written(path, content@, entry);
        law_no_display_is_as_written(path, content@, entry);
        law_entry_knows_its_source(path, content@, entry);
    }
}

/// A notification leaves one permit, whatever there was; a task gets a permit exactly where there
/// is one, and one less is then left; and a permit that is given back is there again.
pub proof fn law_permits_are_counted(taken: bool)
    ensures
        forall|n: &mut Notify| #[trigger]
            call_ensures(Notify::notify, (n,), ()) ==> final(n).permits == 1,
        forall|n: &mut Notify| #[trigger]
            call_ensures(Notify::try_acquire, (n,), taken) ==> {
                &&& taken <==> n.permits > 0
                &&& taken ==> final(n).permits == n.permits - 1
                &&& !taken ==> final(n).permits == 0
            },
        forall|n: &mut Notify| #[trigger]
            call_ensures(Notify::release, (n,), ()) ==> final(n).permits == n.permits + 1,
{
}

/// A request for a repaint takes the place of the one that is waited for, waits as long as it asks
/// to, and is for its own viewport.
pub proof fn law_last_request_is_waited_for(info: RepaintRequest, plan: RepaintPlan)
    ensures
        forall|requests: &mut RepaintRequests| #[trigger]
            call_ensures(RepaintRequests::request, (requests, info), plan) ==> {
                &&& final(requests).waiting
                &&& final(requests).key == requests.key
                &&& plan.abort_previous <==> requests.waiting
                &&& plan.sleep is None <==> info.delay == 0
                &&& plan.sleep matches Some(delay) ==> delay == info.delay
                &&& plan.event == SurfaceEvent::NeedsRepaintViewport(
                    requests.key,
                    info.viewport_id,
                    info.current_cumulative_pass_nr,
                )
            },
{
}

/// The state of an app is stored in a file of its own name, in the directory of the app, below the
/// directory `polymodo` of the user's state; and nowhere where the user has no such directory.
pub proof fn law_state_is_stored_below_the_app(
    state_home: Option<&Vec<u8>>,
    app_name: &str,
    state_name: &str,
    res: Option<StateFile>,
)
    requires
        call_ensures(state_file, (state_home, app_name, state_name), res),
    ensures
        res is Some <==> state_home is Some,
        res matches Some(place) ==> place.directory@ == joined(
            joined(state_home->0@, "polymodo".spec_bytes()),
            app_name.spec_bytes(),
        ) && place.file@ == joined(place.directory@, state_name.spec_bytes()),
{
}

/// What the daemon does for a client: it answers, spawns what is asked for unless that is a second
/// app where there is to be one, and leaves a client that says goodbye or cannot be understood.
pub proof fn law_client_is_served<D: Driver>(
    received: Result<ServerboundMessage, IpcReceiveError>,
    polymodo: Polymodo<D>,
    step: ServeStep,
)
    requires
        call_ensures(serve_client::<D>, (received, &polymodo), step),
    ensures
        received is Err ==> step is Close,
        received == Ok::<ServerboundMessage, IpcReceiveError>(ServerboundMessage::Ping) ==> step
            == ServeStep::Reply(ClientboundMessage::Pong),
        received == Ok::<ServerboundMessage, IpcReceiveError>(ServerboundMessage::Goodbye)
            ==> step is Shutdown,
        received matches Ok(ServerboundMessage::Spawn(options)) ==> {
            &&& step is Close <==> options.single && exists|key: AppKey|
                polymodo@.dom().contains(key) && (#[trigger] polymodo@[key]).name()
                    == options.app_name
            &&& step !is Close ==> step == ServeStep::SpawnAndWait(options.app_name)
        },
{
}

/// A client asks for the launcher, and for a single one exactly where it is told to.
pub proof fn law_client_asks_for_the_launcher(args: Args, message: ServerboundMessage)
    requires
        call_ensures(request, (&args,), message),
    ensures
        message matches ServerboundMessage::Spawn(options) && options.app_name == AppName::Launcher
            && options.single == args.single,
{
}

/// A launch adds 1 to the score of its path, which starts at 0, and notes the time; of any other
/// path nothing changes.
pub proof fn law_launch_is_noted(path: Vec<u8>, now: i128, other: PathKey)
    ensures
        forall|history: &mut LaunchHistory| #[trigger]
            call_ensures(LaunchHistory::increment_at, (history, path, now), ()) ==> {
                let key = path_key(path@);
                &&& final(history)@.dom().contains(key)
                &&& final(history)@[key].last_launched == now
                &&& final(history)@[key].score == if history@.dom().contains(key) {
                    nearest(history@[key].score + pow2(149))
                } else {
                    pow2(149) as int
                }
                &&& other != key ==> (final(history)@.dom().contains(other)
                    <==> history@.dom().contains(other)) && final(history)@[other]
                    == history@[other]
            },
{
    assert forall|history: &mut LaunchHistory| #[trigger]
        call_ensures(LaunchHistory::increment_at, (history, path, now), ()) implies {
        let key = path_key(path@);
        &&& final(history)@.dom().contains(key)
        &&& final(history)@[key].last_launched == now
        &&& final(history)@[key].score == if history@.dom().contains(key) {
            nearest(history@[key].score + pow2(149))
        } else {
            pow2(149) as int
        }
        &&& other != key ==> (final(history)@.dom().contains(other) <==> history@.dom().contains(
            other,
        )) && final(history)@[other] == history@[other]
    } by {
        law_launch_adds_one(history@, path_key(path@), now, other);
    }
}

/// Decay leaves 15938355 / 2^24 of every finite score above 0, rounded, and keeps a path exactly
/// where that is more than one half; the times stay.
pub proof fn law_scores_fade(path: PathKey)
    ensures
        forall|history: &mut LaunchHistory| #[trigger]
            call_ensures(LaunchHistory::decay_all, (history,), ()) && history@.dom().contains(path)
                && is_single(history@[path].score) && 0 < history@[path].score < pow2(277) ==> {
                let left = rounded(history@[path].score as nat * 15938355);
                &&& final(history)@.dom().contains(path) <==> left > pow2(148) * 0x100_0000
                &&& final(history)@.dom().contains(path) ==> final(history)@[path].score
                    * 0x100_0000 == left && final(history)@[path].last_launched
                    == history@[path].last_launched
            },
{
    assert forall|history: &mut LaunchHistory| #[trigger]
        call_ensures(LaunchHistory::decay_all, (history,), ()) && history@.dom().contains(path)
            && is_single(history@[path].score) && 0 < history@[path].score < pow2(277) implies {
        let left = rounded(history@[path].score as nat * 15938355);
        &&& final(history)@.dom().contains(path) <==> left > pow2(148) * 0x100_0000
        &&& final(history)@.dom().contains(path) ==> final(history)@[path].score * 0x100_0000
            == left && final(history)@[path].last_launched == history@[path].last_launched
    } by {
        law_decay_takes_a_twentieth(history@, path);
    }
}

/// An app that is spawned is known under its key until it is stopped, which leaves what it leaves
/// behind; one that is not known cannot be stopped. Nothing is done to another app.
pub proof fn law_apps_come_and_go<D: Driver>(
    key: AppKey,
    driver: D,
    left: Result<D::Output, PolymodoError>,
    other: AppKey,
)
    requires
        other != key,
    ensures
        forall|p: &mut Polymodo<D>| #[trigger]
            call_ensures(Polymodo::<D>::spawn_app, (p, key, driver), ()) ==> {
                &&& final(p)@.dom().contains(key)
                &&& final(p)@[key] == driver
                &&& final(p)@.dom().contains(other) <==> p@.dom().contains(other)
                &&& final(p)@[other] == p@[other]
            },
        forall|p: &mut Polymodo<D>| #[trigger]
            call_ensures(Polymodo::<D>::stop_app, (p, key), left) ==> {
                &&& !final(p)@.dom().contains(key)
                &&& left is Ok <==> p@.dom().contains(key)
                &&& left matches Ok(output) ==> D::leaves(p@[key], output)
                &&& left matches Err(e) ==> e == PolymodoError::NoSuchApp(key)
                &&& final(p)@.dom().contains(other) <==> p@.dom().contains(other)
                &&& final(p)@[other] == p@[other]
            },
{
}

/// A message reaches the app that it is for, and a task goes to the app that it belongs to; what is
/// for an app that is not known is not delivered, and its task is given back. Nothing is done to
/// another app, and no app comes or goes.
pub proof fn law_only_known_apps_are_reached<D: Driver>(
    key: AppKey,
    message: Option<D::Message>,
    delivered: bool,
    task: D::Task,
    back: Option<D::Task>,
    other: AppKey,
)
    requires
        other != key,
    ensures
        forall|p: &mut Polymodo<D>| #[trigger]
            call_ensures(Polymodo::<D>::handle_app_message, (p, key, message), delivered) ==> {
                &&& delivered <==> p@.dom().contains(key)
                &&& final(p)@.dom() == p@.dom()
                &&& p@.dom().contains(other) ==> final(p)@[other] == p@[other]
            },
        forall|p: &mut Polymodo<D>| #[trigger]
            call_ensures(Polymodo::<D>::add_abortable, (p, key, task), back) ==> {
                &&& back is None <==> p@.dom().contains(key)
                &&& back matches Some(t) ==> t == task
                &&& back is None ==> D::adopted(p@[key], task, final(p)@[key])
                &&& final(p)@.dom() == p@.dom()
                &&& p@.dom().contains(other) ==> final(p)@[other] == p@[other]
            },
{
}

/// Whether an app of a name runs: where one of those that are known has it.
pub proof fn law_running_apps_are_found<D: Driver>(
    polymodo: Polymodo<D>,
    name: AppName,
    running: bool,
)
    requires
        call_ensures(Polymodo::<D>::is_app_running, (&polymodo, name), running),
    ensures
        running <==> exists|key: AppKey|
            polymodo@.dom().contains(key) && (#[trigger] polymodo@[key]).name() == name,
{
}

/// Whatever an app sends goes out under its own key, as what it is: a message, a task, or the wish
/// to be stopped.
pub proof fn law_app_sends_under_its_key<M, T: Abortable>(
    sender: AppSender,
    message: M,
    sent: AppEvent<M, T>,
    task: T,
    spawned: AppEvent<M, T>,
    finished: AppEvent<M, T>,
)
    requires
        call_ensures(AppSender::send::<M, T>, (&sender, message), sent),
        call_ensures(AppSender::spawn::<M, T>, (&sender, task), spawned),
        call_ensures(AppSender::finish::<M, T>, (&sender,), finished),
    ensures
        sent.app_key == sender.key(),
        sent.message == AppMessage::<M, T>::Message(message),
        spawned.app_key == sender.key(),
        spawned.message matches AppMessage::SpawnLocal(held) && held.held() == Some(task),
        finished.app_key == sender.key(),
        finished.message == AppMessage::<M, T>::Finished,
{
}

/// A client is told the result of its app, or what went wrong, or that there is nothing to tell.
pub proof fn law_reply_is_the_result(
    app_result: Option<Result<String, String>>,
    reply: ClientboundMessage,
)
    requires
        call_ensures(reply_with_result, (app_result,), reply),
    ensures
        reply@ == ClientboundView::AppResult(
            match app_result {
                Some(Ok(json)) => json@,
                Some(Err(error)) => error@,
                None => "the server could not retrieve the app's result"@,
            },
        ),
{
}

/// What was found before is announced again, each entry once and in order; and a search announces
/// that first, and then each desktop entry that is new, has a command and does not ask to be hidden.
pub proof fn law_cached_entries_are_announced_first(
    cache: EntryCache,
    found: Vec<crate::xdg::desktop_entry::DesktopEntry>,
    res: Vec<Message>,
    i: int,
    n: int,
)
    ensures
        forall|ids: &mut EntryIds| #[trigger]
            call_ensures(EntryCache::announce_cached, (&cache, ids), res) ==> {
                &&& res@.len() == cache@.len()
                &&& 0 <= i < cache@.len() ==> (res@[i] matches Message::NewEntry(_, entry)
                    && entry == cache@[i].1)
            },
        forall|c: &mut EntryCache, ids: &mut EntryIds| #[trigger]
            call_ensures(scour_desktop_entries, (c, ids, found), res) && (forall|j: int|
                0 <= j < c@.len() ==> (#[trigger] c@[j]).0 == path_key(c@[j].1.path@)) ==> {
                &&& res@.len() >= c@.len()
                &&& 0 <= i < c@.len() ==> (res@[i] matches Message::NewEntry(_, entry) && entry
                    == c@[i].1)
                &&& 0 <= n < found@.len() && found@[n].command_line is Some && found@[n].no_display
                    != Some(true) && !caches(c@, path_key(found@[n].source_path@)) ==> exists|k: int|
                    c@.len() <= k < res@.len() && announces(#[trigger] res@[k], found@[n])
            },
{
    assert forall|c: &mut EntryCache, ids: &mut EntryIds| #[trigger]
        call_ensures(scour_desktop_entries, (c, ids, found), res) && (forall|j: int|
            0 <= j < c@.len() ==> (#[trigger] c@[j]).0 == path_key(c@[j].1.path@)) && 0 <= n
            < found@.len() && found@[n].command_line is Some && found@[n].no_display != Some(true)
            && !caches(c@, path_key(found@[n].source_path@)) implies exists|k: int|
        c@.len() <= k < res@.len() && announces(#[trigger] res@[k], found@[n]) by {
        let next = nth_id(ids.next, c@.len()).0;
        law_launchable_entry_is_offered(c@, found@, next, n);
        let new = announced(new_entries(c@, found@), next);
        let m = choose|m: int| 0 <= m < new.len() && announces(#[trigger] new[m], found@[n]);
        assert(res@[c@.len() + m] == new[m]);
    }
}

/// Numbers are given out one after the other.
pub proof fn law_numbers_count_up(id: EntryId)
    ensures
        forall|ids: &mut EntryIds| #[trigger]
            call_ensures(EntryIds::next_id, (ids,), id) ==> id == EntryId(ids.next) && (ids.next
                < usize::MAX ==> final(ids).next == ids.next + 1),
{
    assert forall|ids: &mut EntryIds| #[trigger]
        call_ensures(EntryIds::next_id, (ids,), id) && ids.next < usize::MAX implies final(ids).next == ids.next + 1 by {
        vstd::arithmetic::div_mod::lemma_small_mod(
            (ids.next + 1) as nat,
            (usize::MAX + 1) as nat,
        );
    }
}

/// A time is as many nanoseconds from the Unix epoch as the clock says, before it or after it.
pub proof fn law_time_is_counted_from_the_epoch(after: bool, nanos: u128, time: i128)
    requires
        call_ensures(time_from_epoch, (after, nanos), time),
        nanos <= 0xffff_ffff_ffff_ffff_ffff,
    ensures
        time == if after {
            nanos as int
        } else {
            -nanos
        },
{
}

} // verus!
