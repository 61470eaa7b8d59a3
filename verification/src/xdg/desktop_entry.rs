//! Desktop entries.

use crate::paths::{
    extension, extension_of, join, joined, names, relative_components, relative_to, same_names,
    same_path, PathKey,
};
use crate::sequences::lemma_filter_next;
use std::hash::{DefaultHasher, Hasher};
use vstd::prelude::*;
use vstd::std_specs::hash::DefaultHasherAdditionalSpecFns;
use vstd::string::StringSliceAdditionalSpecFns;

verus! {

#[derive(Debug, Clone, Copy, PartialEq, Eq, Structural)]
pub enum ApplicationType {
    Application,
    Link,
    Directory,
}

/// A desktop entry.
pub struct DesktopEntry {
    /// The path at which the entry lies.
    pub source_path: Vec<u8>,
    /// The hash of the content of the entry.
    pub source_hash: u64,
    pub entry_type: ApplicationType,
    pub name: String,
    pub command_line: Option<String>,
    pub generic_name: Option<String>,
    pub comment: Option<String>,
    pub icon: Option<String>,
    pub no_display: Option<bool>,
}

/// Why a text is no desktop entry.
#[derive(Debug, Clone, Copy, PartialEq, Eq, Structural)]
pub enum LoadError {
    /// It cannot be parsed.
    Unparsable,
    /// It has no section `Desktop Entry`.
    NoSection,
    /// The section has no `Type`.
    NoType,
    /// There is no such type.
    UnknownType,
    /// The section has no `Name`.
    NoName,
}

/// `ini::Ini`, a parsed file.
#[verifier::external_type_specification]
#[verifier::external_body]
pub struct ExIni(ini::Ini);

/// `ini::Properties`, a section of a parsed file.
#[verifier::external_type_specification]
#[verifier::external_body]
pub struct ExProperties(ini::Properties);

/// `ini::ParseError`, of which nothing is known.
#[verifier::external_type_specification]
#[verifier::external_body]
pub struct ExParseError(ini::ParseError);

/// The named sections that a parsed file holds.
pub uninterp spec fn sections(file: ini::Ini) -> Map<Seq<char>, Map<Seq<char>, Seq<char>>>;

/// The values that a section holds.
pub uninterp spec fn values(section: ini::Properties) -> Map<Seq<char>, Seq<char>>;

/// The named sections of a text; none where it cannot be parsed.
pub uninterp spec fn parsed_sections(text: Seq<char>) -> Option<
    Map<Seq<char>, Map<Seq<char>, Seq<char>>>,
>;

/// `Ini::load_from_str`: parses a text. What the file then holds depends on the text alone.
#[verifier::external_body]
fn parse(text: &str) -> (res: Result<ini::Ini, ini::ParseError>)
    ensures
        parsed_sections(text@) == match res {
            Ok(file) => Some(sections(file)),
            Err(_) => None,
        },
{
    ini::Ini::load_from_str(text)
}

/// `Ini::section`: the section of a name, if there is one.
#[verifier::external_body]
fn section<'a>(file: &'a ini::Ini, name: &str) -> (res: Option<&'a ini::Properties>)
    ensures
        res is Some == sections(*file).dom().contains(name@),
        res is Some ==> values(*res->0) == sections(*file)[name@],
{
    file.section(Some(name))
}

/// `Properties::get`: the value of a key, if there is one.
#[verifier::external_body]
fn value_of(section: &ini::Properties, key: &str) -> (res: Option<String>)
    ensures
        res is Some == values(*section).dom().contains(key@),
        res is Some ==> res->0@ == values(*section)[key@],
{
    section.get(key).map(|value| value.to_string())
}

/// The hash of a text: of its bytes, and of one byte that occurs in no text.
pub open spec fn text_hash(text: Seq<char>) -> u64 {
    DefaultHasher::spec_finish(seq![vstd::utf8::encode_utf8(text), seq![0xffu8]])
}

/// The hash of the content of an entry.
pub fn content_hash(content: &str) -> (res: u64)
    ensures
        res == text_hash(content@),
{
    let mut hasher = DefaultHasher::new();
    hasher.write(content.as_bytes());
    let end: [u8; 1] = [0xff];
    hasher.write(&end);
    assert(hasher@ =~= seq![content.spec_bytes(), seq![0xffu8]]) by {
        assert(end@ =~= seq![0xffu8]);
    }
    hasher.finish()
}

/// The type of an entry, by its name.
pub open spec fn type_named(text: Seq<char>) -> Option<ApplicationType> {
    if text == "Application"@ {
        Some(ApplicationType::Application)
    } else if text == "Link"@ {
        Some(ApplicationType::Link)
    } else if text == "Directory"@ {
        Some(ApplicationType::Directory)
    } else {
        None
    }
}

impl ApplicationType {
    /// The type of an entry, by its name.
    pub fn from_name(text: &String) -> (res: Option<Self>)
        ensures
            res == type_named(text@),
    {
        proof {
            reveal_strlit("Application");
            reveal_strlit("Link");
            reveal_strlit("Directory");
        }
        if *text == "Application".to_owned() {
            Some(ApplicationType::Application)
        } else if *text == "Link".to_owned() {
            Some(ApplicationType::Link)
        } else if *text == "Directory".to_owned() {
            Some(ApplicationType::Directory)
        } else {
            None
        }
    }
}

/// A truth value, as it is written.
pub open spec fn truth_named(text: Seq<char>) -> Option<bool> {
    if text == "true"@ {
        Some(true)
    } else if text == "false"@ {
        Some(false)
    } else {
        None
    }
}

fn parse_truth(text: &String) -> (res: Option<bool>)
    ensures
        res == truth_named(text@),
{
    proof {
        reveal_strlit("true");
        reveal_strlit("false");
    }
    if *text == "true".to_owned() {
        Some(true)
    } else if *text == "false".to_owned() {
        Some(false)
    } else {
        None
    }
}

/// The values of an entry's section that are read.
pub struct SectionValues {
    pub entry_type: Option<String>,
    pub name: Option<String>,
    pub generic_name: Option<String>,
    pub comment: Option<String>,
    pub command_line: Option<String>,
    pub icon: Option<String>,
    pub no_display: Option<String>,
}

/// The entry that a section describes.
pub open spec fn entry_of(path: Vec<u8>, hash: u64, section: SectionValues) -> Result<
    DesktopEntry,
    LoadError,
> {
    if section.entry_type is None {
        Err(LoadError::NoType)
    } else if type_named(section.entry_type->0@) is None {
        Err(LoadError::UnknownType)
    } else if section.name is None {
        Err(LoadError::NoName)
    } else {
        Ok(
            DesktopEntry {
                source_path: path,
                source_hash: hash,
                entry_type: type_named(section.entry_type->0@)->0,
                name: section.name->0,
                command_line: section.command_line,
                generic_name: section.generic_name,
                comment: section.comment,
                icon: section.icon,
                no_display: match section.no_display {
                    Some(text) => truth_named(text@),
                    None => None,
                },
            },
        )
    }
}

/// Makes an entry of the values of its section.
pub fn entry_from_section(path: Vec<u8>, hash: u64, section: SectionValues) -> (res: Result<
    DesktopEntry,
    LoadError,
>)
    ensures
        res == entry_of(path, hash, section),
{
    let entry_type = match &section.entry_type {
        Some(text) => match ApplicationType::from_name(text) {
            Some(entry_type) => entry_type,
            None => {
                return Err(LoadError::UnknownType);
            },
        },
        None => {
            return Err(LoadError::NoType);
        },
    };
    let name = match section.name {
        Some(name) => name,
        None => {
            return Err(LoadError::NoName);
        },
    };
    let no_display = match &section.no_display {
        Some(text) => parse_truth(text),
        None => None,
    };
    Ok(
        DesktopEntry {
            source_path: path,
            source_hash: hash,
            entry_type,
            name,
            command_line: section.command_line,
            generic_name: section.generic_name,
            comment: section.comment,
            icon: section.icon,
            no_display,
        },
    )
}

/// The value is the one that a section has for a key, or there is none in either.
pub open spec fn is_value(
    value: Option<String>,
    section: Map<Seq<char>, Seq<char>>,
    key: Seq<char>,
) -> bool {
    &&& value is Some == section.dom().contains(key)
    &&& value is Some ==> value->0@ == section[key]
}

/// The values are those that a section has for the keys of a desktop entry.
pub open spec fn are_values(read: SectionValues, section: Map<Seq<char>, Seq<char>>) -> bool {
    &&& is_value(read.entry_type, section, "Type"@)
    &&& is_value(read.name, section, "Name"@)
    &&& is_value(read.generic_name, section, "GenericName"@)
    &&& is_value(read.comment, section, "Comment"@)
    &&& is_value(read.command_line, section, "Exec"@)
    &&& is_value(read.icon, section, "Icon"@)
    &&& is_value(read.no_display, section, "NoDisplay"@)
}

/// What the content of the file at `path` is read as.
pub open spec fn loads(
    path: Vec<u8>,
    content: Seq<char>,
    res: Result<DesktopEntry, LoadError>,
) -> bool {
    match parsed_sections(content) {
        None => res == Err::<DesktopEntry, LoadError>(LoadError::Unparsable),
        Some(file) => if !file.dom().contains("Desktop Entry"@) {
            res == Err::<DesktopEntry, LoadError>(LoadError::NoSection)
        } else {
            exists|read: SectionValues| #[trigger]
                are_values(read, file["Desktop Entry"@]) && res == entry_of(
                    path,
                    text_hash(content),
                    read,
                )
        },
    }
}

/// Reads the desktop entry at `path` out of its content.
pub fn load(path: Vec<u8>, content: &str) -> (res: Result<DesktopEntry, LoadError>)
    ensures
        loads(path, content@, res),
{
    let hash: u64 = content_hash(content);
    let file = match parse(content) {
        Ok(file) => file,
        Err(_) => {
            return Err(LoadError::Unparsable);
        },
    };
    let main = match section(&file, "Desktop Entry") {
        Some(main) => main,
        None => {
            return Err(LoadError::NoSection);
        },
    };
    let read = SectionValues {
        entry_type: value_of(main, "Type"),
        name: value_of(main, "Name"),
        generic_name: value_of(main, "GenericName"),
        comment: value_of(main, "Comment"),
        command_line: value_of(main, "Exec"),
        icon: value_of(main, "Icon"),
        no_display: value_of(main, "NoDisplay"),
    };
    assert(are_values(read, sections(file)["Desktop Entry"@]));
    entry_from_section(path, hash, read)
}

/// A file that was read, or could not be.
pub struct ReadFile {
    pub path: Vec<u8>,
    pub content: Option<String>,
}

/// The desktop entry in a file that was read, if there is one.
pub open spec fn holds_entry(file: ReadFile, entry: Option<DesktopEntry>) -> bool {
    match file.content {
        None => entry is None,
        Some(content) => match entry {
            Some(e) => loads(file.path, content@, Ok(e)),
            None => exists|error: LoadError| #[trigger] loads(file.path, content@, Err(error)),
        },
    }
}

/// The entries that are there, in order.
pub open spec fn present(entries: Seq<Option<DesktopEntry>>) -> Seq<DesktopEntry>
    decreases entries.len(),
{
    if entries.len() == 0 {
        Seq::empty()
    } else {
        match entries.last() {
            Some(e) => present(entries.drop_last()).push(e),
            None => present(entries.drop_last()),
        }
    }
}

/// The entries are those that the files hold, one place for each file.
pub open spec fn hold_entries(files: Seq<ReadFile>, entries: Seq<Option<DesktopEntry>>) -> bool {
    &&& entries.len() == files.len()
    &&& forall|i: int| 0 <= i < files.len() ==> holds_entry(#[trigger] files[i], entries[i])
}

/// The desktop entries in the files that were read, in order. A file that could not be read, or
/// that holds no desktop entry, is left out.
pub fn find_desktop_entries(files: Vec<ReadFile>) -> (res: Vec<DesktopEntry>)
    ensures
        exists|entries: Seq<Option<DesktopEntry>>| #[trigger]
            hold_entries(files@, entries) && res@ == present(entries),
{
    let ghost all = files@;
    let ghost mut entries: Seq<Option<DesktopEntry>> = Seq::empty();
    let mut res: Vec<DesktopEntry> = Vec::new();
    for file in it: files
        invariant
            it.seq() == all,
            hold_entries(all.take(it.index() as int), entries),
            res@ == present(entries),
    {
        let ghost n = it.index() as int;
        let ghost before = entries;
        let ghost read = file;
        assert(file == all[n]);
        let entry = match file.content {
            Some(content) => {
                let loaded = load(file.path, content.as_str());
                match loaded {
                    Ok(entry) => Some(entry),
                    Err(error) => {
                        assert(loads(read.path, content@, Err(error)));
                        None
                    },
                }
            },
            None => None,
        };
        assert(holds_entry(read, entry));
        proof {
            entries = before.push(entry);
            assert(entries.drop_last() =~= before);
            assert forall|i: int| 0 <= i < n + 1 implies holds_entry(
                #[trigger] all.take(n + 1)[i],
                entries[i],
            ) by {
                if i < n {
                    assert(holds_entry(all.take(n)[i], before[i]));
                }
            }
        }
        if let Some(entry) = entry {
            res.push(entry);
        }
    }
    assert(all.take(all.len() as int) == all);
    res
}

/// A file that was found below one of the directories that are searched.
pub struct DesktopEntryIdentifier {
    pub base_dir: Vec<u8>,
    pub path: Vec<u8>,
}

impl DesktopEntryIdentifier {
    /// What the file goes by below its directory.
    pub open spec fn relative(self) -> Option<PathKey> {
        relative_components(self.base_dir@, self.path@)
    }

    /// The name of the file below its directory, if it lies there.
    pub fn relative_dir(&self) -> (res: Option<Vec<Vec<u8>>>)
        ensures
            match res {
                Some(parts) => self.relative() == Some(names(parts@)),
                None => self.relative() is None,
            },
    {
        relative_to(&self.base_dir, &self.path)
    }
}

/// The name of the directory with the entries, below each directory with data.
pub open spec fn applications() -> Seq<u8> {
    seq![0x61u8, 0x70, 0x70, 0x6c, 0x69, 0x63, 0x61, 0x74, 0x69, 0x6f, 0x6e, 0x73]
}

/// The directories that are searched for entries: the one of the user comes first.
pub open spec fn searched_dirs(data_home: Option<Seq<u8>>, data_dirs: Seq<Seq<u8>>) -> Seq<Seq<u8>> {
    let all = match data_home {
        Some(home) => seq![home] + data_dirs,
        None => data_dirs,
    };
    all.map_values(|dir: Seq<u8>| joined(dir, applications()))
}

/// The view of an optional path.
pub open spec fn optional_path(path: Option<Vec<u8>>) -> Option<Seq<u8>> {
    match path {
        Some(p) => Some(p@),
        None => None,
    }
}

/// The directories that are to be searched for entries, in order.
pub fn search_dirs(data_home: &Option<Vec<u8>>, data_dirs: &Vec<Vec<u8>>) -> (res: Vec<Vec<u8>>)
    ensures
        names(res@) == searched_dirs(optional_path(*data_home), names(data_dirs@)),
{
    let name: [u8; 12] = [
        0x61,
        0x70,
        0x70,
        0x6c,
        0x69,
        0x63,
        0x61,
        0x74,
        0x69,
        0x6f,
        0x6e,
        0x73,
    ];
    assert(name@ =~= applications());
    let ghost below = |dir: Seq<u8>| joined(dir, applications());
    let ghost mut all = names(data_dirs@);
    let mut res: Vec<Vec<u8>> = Vec::new();
    if let Some(home) = data_home {
        res.push(join(home, &name));
        proof {
            all = seq![home@] + all;
        }
    }
    let ghost first = res.len() as int;
    let mut i: usize = 0;
    assert(names(res@) =~= all.take(first).map_values(below));
    while i < data_dirs.len()
        invariant
            i <= data_dirs.len(),
            name@ == applications(),
            below == (|dir: Seq<u8>| joined(dir, applications())),
            all.len() == first + data_dirs.len(),
            0 <= first,
            forall|j: int| 0 <= j < data_dirs.len() ==> all[first + j] == (#[trigger] data_dirs@[j])@,
            names(res@) == all.take(first + i).map_values(below),
        decreases data_dirs.len() - i,
    {
        let ghost before = res@;
        res.push(join(&data_dirs[i], &name));
        i += 1;
        assert(names(res@) =~= names(before).push(joined(data_dirs@[i - 1]@, applications())));
        assert(names(res@) =~= all.take(first + i).map_values(below));
    }
    assert(all.take(first + i) =~= all);
    res
}

/// The extension of entries.
pub open spec fn desktop_extension() -> Seq<u8> {
    seq![0x64u8, 0x65, 0x73, 0x6b, 0x74, 0x6f, 0x70]
}

pub open spec fn is_entry_path() -> spec_fn(DesktopEntryIdentifier) -> bool {
    |f: DesktopEntryIdentifier| extension(f.path@) == Some(desktop_extension())
}

/// One of the files goes by the same name as `file`, below its directory.
pub open spec fn has_name_of(files: Seq<DesktopEntryIdentifier>, file: DesktopEntryIdentifier) -> bool {
    exists|i: int| 0 <= i < files.len() && (#[trigger] files[i]).relative() == file.relative()
}

/// Files without those that go by the name of one that is kept before them.
pub open spec fn without_repeats(files: Seq<DesktopEntryIdentifier>) -> Seq<DesktopEntryIdentifier>
    decreases files.len(),
{
    if files.len() == 0 {
        files
    } else {
        let front = without_repeats(files.drop_last());
        if has_name_of(front, files.last()) {
            front
        } else {
            front.push(files.last())
        }
    }
}

/// Whether the file goes by the extension of entries.
fn has_entry_extension(path: &Vec<u8>) -> (res: bool)
    ensures
        res == (extension(path@) == Some(desktop_extension())),
{
    let mut wanted: Vec<u8> = Vec::new();
    wanted.push(0x64);
    wanted.push(0x65);
    wanted.push(0x73);
    wanted.push(0x6b);
    wanted.push(0x74);
    wanted.push(0x6f);
    wanted.push(0x70);
    assert(wanted@ =~= desktop_extension());
    match extension_of(path) {
        Some(e) => same_path(&e, &wanted),
        None => false,
    }
}

fn same_relative(a: &DesktopEntryIdentifier, b: &DesktopEntryIdentifier) -> (res: bool)
    ensures
        res == (a.relative() == b.relative()),
{
    match (a.relative_dir(), b.relative_dir()) {
        (Some(x), Some(y)) => same_names(&x, &y),
        (None, None) => true,
        _ => false,
    }
}

/// Whether one of the files goes by the same name.
fn is_repeated(files: &Vec<DesktopEntryIdentifier>, file: &DesktopEntryIdentifier) -> (res: bool)
    ensures
        res == has_name_of(files@, *file),
{
    let mut i: usize = 0;
    while i < files.len()
        invariant
            i <= files.len(),
            forall|j: int| 0 <= j < i ==> (#[trigger] files@[j]).relative() != file.relative(),
        decreases files.len() - i,
    {
        if same_relative(&files[i], file) {
            assert(files@[i as int].relative() == file.relative());
            return true;
        }
        i += 1;
    }
    false
}

/// The files among those that were found that are to be loaded, in order: those with the
/// extension of entries, without repeats. Of several files that go by one name below their
/// directories, the first one that was found is loaded.
pub fn entries_to_load(found: Vec<DesktopEntryIdentifier>) -> (res: Vec<DesktopEntryIdentifier>)
    ensures
        res@ == without_repeats(found@.filter(is_entry_path())),
{
    let ghost all = found@;
    let mut res: Vec<DesktopEntryIdentifier> = Vec::new();
    assert(all.take(0).filter(is_entry_path()) =~= Seq::empty()) by {
        reveal(Seq::filter);
    }
    for file in it: found
        invariant
            it.seq() == all,
            res@ == without_repeats(all.take(it.index() as int).filter(is_entry_path())),
    {
        let ghost n = it.index() as int;
        proof {
            assert(file == all[n]);
            lemma_filter_next(all, is_entry_path(), n);
        }
        if has_entry_extension(&file.path) {
            proof {
                let before = all.take(n).filter(is_entry_path());
                assert(before.push(file).drop_last() == before);
            }
            if !is_repeated(&res, &file) {
                res.push(file);
            }
        }
    }
    assert(all.take(all.len() as int) == all);
    res
}

/// Every file that is loaded was found, and has the extension of entries.
pub proof fn law_loaded_files_are_entries(found: Seq<DesktopEntryIdentifier>, i: int)
    requires
        0 <= i < without_repeats(found.filter(is_entry_path())).len(),
    ensures
        extension(without_repeats(found.filter(is_entry_path()))[i].path@) == Some(
            desktop_extension(),
        ),
        found.contains(without_repeats(found.filter(is_entry_path()))[i]),
{
    let files = found.filter(is_entry_path());
    law_loaded_files_stay_in_order(files);
    let place = kept_places(files)[i];
    found.lemma_filter_pred(is_entry_path(), place);
    assert(files.contains(files[place]));
    found.lemma_filter_contains_rev(is_entry_path(), files[place]);
}

/// No two files that are loaded go by the same name.
pub proof fn law_loaded_names_differ(files: Seq<DesktopEntryIdentifier>, i: int, j: int)
    requires
        0 <= i < j < without_repeats(files).len(),
    ensures
        without_repeats(files)[i].relative() != without_repeats(files)[j].relative(),
    decreases files.len(),
{
    if files.len() > 0 {
        let front = without_repeats(files.drop_last());
        if j < front.len() {
            law_loaded_names_differ(files.drop_last(), i, j);
        } else {
            assert(front[i].relative() != files.last().relative());
        }
    }
}

/// Of the files that go by one name, the earliest is loaded, and none of the others.
pub proof fn law_earliest_file_is_loaded(files: Seq<DesktopEntryIdentifier>, i: int)
    requires
        0 <= i < files.len(),
        forall|k: int| 0 <= k < i ==> (#[trigger] files[k]).relative() != files[i].relative(),
    ensures
        has_name_of(without_repeats(files), files[i]),
        forall|j: int|
            0 <= j < without_repeats(files).len() && (
            #[trigger] without_repeats(files)[j]).relative() == files[i].relative()
                ==> without_repeats(files)[j] == files[i],
    decreases files.len(),
{
    let front = without_repeats(files.drop_last());
    let all = without_repeats(files);
    if i < files.len() - 1 {
        assert(files.drop_last()[i] == files[i]);
        assert forall|k: int| 0 <= k < i implies (#[trigger] files.drop_last()[k]).relative()
            != files.drop_last()[i].relative() by {
            assert(files[k].relative() != files[i].relative());
        }
        law_earliest_file_is_loaded(files.drop_last(), i);
        let n = choose|n: int| 0 <= n < front.len() && (#[trigger] front[n]).relative()
            == files[i].relative();
        assert(all[n].relative() == files[i].relative());
        assert forall|j: int|
            0 <= j < all.len() && (#[trigger] all[j]).relative() == files[i].relative() implies all[j]
            == files[i] by {
            if j < front.len() {
                assert(front[j] == all[j]);
            } else {
                assert(front[n].relative() == files.last().relative());
            }
        }
    } else {
        assert forall|j: int| 0 <= j < front.len() implies (#[trigger] front[j]).relative()
            != files[i].relative() by {
            law_loaded_files_stay_in_order(files.drop_last());
            let place = kept_places(files.drop_last())[j];
            assert(front[j] == files[place]);
        }
        assert(all[front.len() as int] == files[i]);
    }
}

/// Where the files that are loaded stand among those that were found.
pub open spec fn kept_places(files: Seq<DesktopEntryIdentifier>) -> Seq<int>
    decreases files.len(),
{
    if files.len() == 0 {
        Seq::empty()
    } else {
        let front = kept_places(files.drop_last());
        if has_name_of(without_repeats(files.drop_last()), files.last()) {
            front
        } else {
            front.push(files.len() - 1)
        }
    }
}

/// Every file that is loaded was found, and they stay in the order in which they were found.
pub proof fn law_loaded_files_stay_in_order(files: Seq<DesktopEntryIdentifier>)
    ensures
        kept_places(files).len() == without_repeats(files).len(),
        forall|j: int|
            0 <= j < kept_places(files).len() ==> 0 <= #[trigger] kept_places(files)[j] < files.len()
                && without_repeats(files)[j] == files[kept_places(files)[j]],
        forall|i: int, j: int|
            0 <= i < j < kept_places(files).len() ==> #[trigger] kept_places(files)[i]
                < #[trigger] kept_places(files)[j],
    decreases files.len(),
{
    if files.len() > 0 {
        law_loaded_files_stay_in_order(files.drop_last());
    }
}

} // verus!
