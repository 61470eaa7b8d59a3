//! What holds of every desktop entry that is read.

use crate::paths::{extension, joined, names, relative_components};
use crate::xdg::desktop_entry::{
    entries_to_load, entry_of, holds_entry, is_entry_path, law_earliest_file_is_loaded,
    law_loaded_files_are_entries, law_loaded_names_differ, loads, optional_path, parsed_sections,
    present, search_dirs, searched_dirs, ApplicationType, DesktopEntry, DesktopEntryIdentifier,
    LoadError, ReadFile, SectionValues,
};
use std::hash::DefaultHasher;
use vstd::prelude::*;
use vstd::std_specs::hash::DefaultHasherAdditionalSpecFns;

verus! {

/// The value is the text that the section holds under the key, and is none where it holds none.
pub open spec fn is_text_under(
    value: Option<String>,
    section: Map<Seq<char>, Seq<char>>,
    key: Seq<char>,
) -> bool {
    match value {
        Some(text) => section.dom().contains(key) && section[key] == text@,
        None => !section.dom().contains(key),
    }
}

/// The texts that are compared are different ones.
proof fn lemma_texts_differ()
    ensures
        "true"@ != "false"@,
        "Application"@ != "Link"@,
        "Application"@ != "Directory"@,
        "Link"@ != "Directory"@,
{
    reveal_strlit("true");
    reveal_strlit("false");
    reveal_strlit("Application");
    reveal_strlit("Link");
    reveal_strlit("Directory");
    assert("true"@.len() != "false"@.len());
    assert("Application"@.len() != "Link"@.len());
    assert("Application"@.len() != "Directory"@.len());
    assert("Link"@.len() != "Directory"@.len());
}

/// An entry is hidden exactly where its section holds `true` under `NoDisplay`, and says that it
/// is not hidden exactly where it holds `false` there, whatever it holds under other keys.
pub proof fn law_no_display_is_as_written(path: Vec<u8>, content: Seq<char>, entry: DesktopEntry)
    requires
        loads(path, content, Ok(entry)),
    ensures
        ({
            let section = (parsed_sections(content)->0)["Desktop Entry"@];
            let written = section.dom().contains("NoDisplay"@);
            &&& entry.no_display == Some(true) <==> written && section["NoDisplay"@] == "true"@
            &&& entry.no_display == Some(false) <==> written && section["NoDisplay"@] == "false"@
        }),
{
    lemma_texts_differ();
}

/// The texts of an entry are those that its section holds, each under its own key, whatever it
/// holds under the others.
pub proof fn law_texts_are_as_written(path: Vec<u8>, content: Seq<char>, entry: DesktopEntry)
    requires
        loads(path, content, Ok(entry)),
    ensures
        parsed_sections(content) is Some,
        (parsed_sections(content)->0).dom().contains("Desktop Entry"@),
        ({
            let section = (parsed_sections(content)->0)["Desktop Entry"@];
            &&& section.dom().contains("Name"@) && section["Name"@] == entry.name@
            &&& is_text_under(entry.command_line, section, "Exec"@)
            &&& is_text_under(entry.generic_name, section, "GenericName"@)
            &&& is_text_under(entry.comment, section, "Comment"@)
            &&& is_text_under(entry.icon, section, "Icon"@)
        }),
{
}

/// The type of an entry is the one that its section names under `Type`.
pub proof fn law_type_is_as_written(path: Vec<u8>, content: Seq<char>, entry: DesktopEntry)
    requires
        loads(path, content, Ok(entry)),
    ensures
        ({
            let section = (parsed_sections(content)->0)["Desktop Entry"@];
            &&& section.dom().contains("Type"@)
            &&& section["Type"@] == match entry.entry_type {
                ApplicationType::Application => "Application"@,
                ApplicationType::Link => "Link"@,
                ApplicationType::Directory => "Directory"@,
            }
        }),
{
    lemma_texts_differ();
}

/// An entry knows where it was read, and what was read there.
pub proof fn law_entry_knows_its_source(path: Vec<u8>, content: Seq<char>, entry: DesktopEntry)
    requires
        loads(path, content, Ok(entry)),
    ensures
        entry.source_path == path,
        entry.source_hash == DefaultHasher::spec_finish(
            seq![vstd::utf8::encode_utf8(content), seq![0xffu8]],
        ),
{
}

/// A text is an entry exactly where it can be parsed, and its section `Desktop Entry` names one of
/// the three types and a name. Where it is none, the first thing that is missing is reported.
pub proof fn law_what_is_no_entry(
    path: Vec<u8>,
    content: Seq<char>,
    res: Result<DesktopEntry, LoadError>,
)
    requires
        loads(path, content, res),
    ensures
        ({
            let parsed = parsed_sections(content);
            let section = (parsed->0)["Desktop Entry"@];
            let has_section = parsed is Some && (parsed->0).dom().contains("Desktop Entry"@);
            let has_type = section.dom().contains("Type"@);
            let is_known = section["Type"@] == "Application"@ || section["Type"@] == "Link"@
                || section["Type"@] == "Directory"@;
            let has_name = section.dom().contains("Name"@);
            &&& res is Ok <==> has_section && has_type && is_known && has_name
            &&& parsed is None ==> res == Err::<DesktopEntry, LoadError>(LoadError::Unparsable)
            &&& parsed is Some && !has_section ==> res == Err::<DesktopEntry, LoadError>(
                LoadError::NoSection,
            )
            &&& has_section && !has_type ==> res == Err::<DesktopEntry, LoadError>(
                LoadError::NoType,
            )
            &&& has_section && has_type && !is_known ==> res == Err::<DesktopEntry, LoadError>(
                LoadError::UnknownType,
            )
            &&& has_section && has_type && is_known && !has_name ==> res == Err::<
                DesktopEntry,
                LoadError,
            >(LoadError::NoName)
        }),
{
}

/// A file is left out exactly where it could not be read, or where its content is no entry; any
/// other file gives the entry that its content is.
pub proof fn law_only_what_is_no_entry_is_left_out(file: ReadFile, entry: Option<DesktopEntry>)
    requires
        holds_entry(file, entry),
    ensures
        file.content is None ==> entry is None,
        file.content matches Some(content) ==> {
            let parsed = parsed_sections(content@);
            let section = (parsed->0)["Desktop Entry"@];
            &&& entry is Some <==> parsed is Some && (parsed->0).dom().contains("Desktop Entry"@)
                && section.dom().contains("Type"@) && (section["Type"@] == "Application"@
                || section["Type"@] == "Link"@ || section["Type"@] == "Directory"@)
                && section.dom().contains("Name"@)
            &&& entry is Some ==> loads(file.path, content@, Ok(entry->0))
        },
{
    if let Some(content) = file.content {
        match entry {
            Some(e) => law_what_is_no_entry(file.path, content@, Ok(e)),
            None => {
                let error = choose|error: LoadError| #[trigger]
                    loads(file.path, content@, Err(error));
                law_what_is_no_entry(file.path, content@, Err(error));
            },
        }
    }
}

/// What is made of the values of a section: each text is taken over, and the truth value is the
/// one that is written.
pub proof fn law_values_are_taken_over(
    path: Vec<u8>,
    hash: u64,
    section: SectionValues,
    entry: DesktopEntry,
)
    requires
        entry_of(path, hash, section) == Ok::<DesktopEntry, LoadError>(entry),
    ensures
        entry.source_path == path,
        entry.source_hash == hash,
        section.name == Some(entry.name),
        entry.command_line == section.command_line,
        entry.generic_name == section.generic_name,
        entry.comment == section.comment,
        entry.icon == section.icon,
        entry.no_display == Some(true) <==> section.no_display is Some
            && section.no_display->0@ == "true"@,
        entry.no_display == Some(false) <==> section.no_display is Some
            && section.no_display->0@ == "false"@,
{
    lemma_texts_differ();
}

/// Of files that follow each other the entries follow each other; a file with an entry gives that
/// entry, and one without gives none.
pub proof fn law_entries_follow_their_files(
    a: Seq<Option<DesktopEntry>>,
    b: Seq<Option<DesktopEntry>>,
    entry: DesktopEntry,
)
    ensures
        present(a + b) == present(a) + present(b),
        present(seq![Some(entry)]) == seq![entry],
        present(seq![None::<DesktopEntry>]) == Seq::<DesktopEntry>::empty(),
        present(Seq::empty()) == Seq::<DesktopEntry>::empty(),
    decreases b.len(),
{
    reveal_with_fuel(present, 2);
    assert(seq![Some(entry)].drop_last() =~= Seq::empty());
    assert(seq![None::<DesktopEntry>].drop_last() =~= Seq::empty());
    assert(present(seq![Some(entry)]) =~= seq![entry]);
    if b.len() == 0 {
        assert(a + b =~= a);
        assert(present(a) + present(b) =~= present(a));
    } else {
        law_entries_follow_their_files(a, b.drop_last(), entry);
        assert((a + b).drop_last() =~= a + b.drop_last());
        assert((a + b).last() == b.last());
        assert(present(a + b) =~= present(a) + present(b));
    }
}

/// The directory of the user is searched first, then the others in their order; in each of them it
/// is the directory `applications`.
pub proof fn law_users_directory_is_searched_first(
    data_home: Option<Vec<u8>>,
    data_dirs: Vec<Vec<u8>>,
    dirs: Vec<Vec<u8>>,
    i: int,
)
    requires
        call_ensures(search_dirs, (&data_home, &data_dirs), dirs),
    ensures
        ({
            let name = seq![
                97u8, 112u8, 112u8, 108u8, 105u8, 99u8, 97u8, 116u8, 105u8, 111u8, 110u8, 115u8,
            ];
            match data_home {
                Some(home) => {
                    &&& dirs@.len() == data_dirs@.len() + 1
                    &&& dirs@[0]@ == joined(home@, name)
                    &&& 0 <= i < data_dirs@.len() ==> dirs@[i + 1]@ == joined(data_dirs@[i]@, name)
                },
                None => {
                    &&& dirs@.len() == data_dirs@.len()
                    &&& 0 <= i < data_dirs@.len() ==> dirs@[i]@ == joined(data_dirs@[i]@, name)
                },
            }
        }),
{
    let all = searched_dirs(optional_path(data_home), names(data_dirs@));
    assert(names(dirs@) == all);
    assert(names(dirs@).len() == dirs@.len());
    let name = seq![
        97u8, 112u8, 112u8, 108u8, 105u8, 99u8, 97u8, 116u8, 105u8, 111u8, 110u8, 115u8,
    ];
    assert(name =~= crate::xdg::desktop_entry::applications());
    if data_home is Some {
        assert(all[0] == names(dirs@)[0]);
    }
    if 0 <= i < data_dirs@.len() {
        assert(all[i] == names(dirs@)[i]);
        if data_home is Some {
            assert(all[i + 1] == names(dirs@)[i + 1]);
        }
    }
}

/// What is loaded was found, and goes by the extension `desktop`; no two of the files go by the
/// same name below their directories. Of the files with that extension, the first one that was
/// found under its name is loaded.
pub proof fn law_first_file_of_a_name_is_loaded(
    found: Vec<DesktopEntryIdentifier>,
    loaded: Vec<DesktopEntryIdentifier>,
    i: int,
    j: int,
    k: int,
)
    requires
        call_ensures(entries_to_load, (found,), loaded),
        0 <= i < found@.len(),
    ensures
        ({
            let desktop = seq![100u8, 101u8, 115u8, 107u8, 116u8, 111u8, 112u8];
            &&& 0 <= j < loaded@.len() ==> found@.contains(loaded@[j]) && extension(
                loaded@[j].path@,
            ) == Some(desktop)
            &&& 0 <= j < k < loaded@.len() ==> relative_components(
                loaded@[j].base_dir@,
                loaded@[j].path@,
            ) != relative_components(loaded@[k].base_dir@, loaded@[k].path@)
            &&& extension(found@[i].path@) == Some(desktop) && (forall|n: int|
                0 <= n < i && extension((#[trigger] found@[n]).path@) == Some(desktop)
                    ==> relative_components(found@[n].base_dir@, found@[n].path@)
                    != relative_components(found@[i].base_dir@, found@[i].path@))
                ==> loaded@.contains(found@[i])
        }),
{
    let desktop = seq![100u8, 101u8, 115u8, 107u8, 116u8, 111u8, 112u8];
    let p = is_entry_path();
    let files = found@.filter(p);
    assert(desktop =~= crate::xdg::desktop_entry::desktop_extension());
    if 0 <= j < loaded@.len() {
        law_loaded_files_are_entries(found@, j);
        if j < k < loaded@.len() {
            law_loaded_names_differ(files, j, k);
        }
    }
    if extension(found@[i].path@) == Some(desktop) && (forall|n: int|
        0 <= n < i && extension((#[trigger] found@[n]).path@) == Some(desktop)
            ==> relative_components(found@[n].base_dir@, found@[n].path@) != relative_components(
            found@[i].base_dir@,
            found@[i].path@,
        )) {
        let before = found@.take(i).filter(p);
        let rest = found@.skip(i);
        assert(found@ =~= found@.take(i) + rest);
        Seq::filter_distributes_over_add(found@.take(i), rest, p);
        assert(rest =~= seq![found@[i]] + found@.skip(i + 1));
        Seq::filter_distributes_over_add(seq![found@[i]], found@.skip(i + 1), p);
        assert(seq![found@[i]].filter(p) =~= seq![found@[i]]) by {
            reveal_with_fuel(Seq::filter, 2);
            assert(seq![found@[i]].drop_last() =~= Seq::empty());
        }
        let n = before.len() as int;
        assert(files[n] == found@[i]);
        assert forall|m: int| 0 <= m < n implies (#[trigger] files[m]).relative()
            != files[n].relative() by {
            assert(files[m] == before[m]);
            let place = crate::sequences::lemma_filter_from(found@.take(i), p, m);
            assert(found@[place] == before[m]);
        }
        law_earliest_file_is_loaded(files, n);
        let t = choose|t: int|
            0 <= t < loaded@.len() && (#[trigger] loaded@[t]).relative() == files[n].relative();
        assert(loaded@[t] == found@[i]);
    }
}

} // verus!
