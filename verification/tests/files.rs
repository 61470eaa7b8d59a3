use polymodo::paths::{
    copy_path, extension_of, join, key_of, relative_to, same_key, same_names, same_path,
};
use polymodo::persistence::{get_polymodo_state_home, state_file};
use polymodo::xdg::desktop_entry::{
    content_hash, entries_to_load, entry_from_section, find_desktop_entries, load, search_dirs,
    ApplicationType, DesktopEntryIdentifier, LoadError, ReadFile, SectionValues,
};
use std::hash::{DefaultHasher, Hash, Hasher};
use std::path::Path;

fn bytes(text: &str) -> Vec<u8> {
    text.as_bytes().to_vec()
}

const PATHS: [&str; 24] = [
    "", ".", "..", "/", "//", "a", "a/", "./a", "/a", "/a/", "//a", "/a/.", "/a/..", "/./a", "a/./b",
    "a//b", "a/b", "a/b.desktop", "a/.desktop", "a/b.tar.gz", "a/b.", "a/b./", "a/..b", "a/b.desktop/.",
];

#[test]
fn extensions_are_those_of_std() {
    for path in PATHS {
        let expected = Path::new(path).extension().map(|e| e.to_str().unwrap().to_string());
        let found = extension_of(&bytes(path)).map(|e| String::from_utf8(e).unwrap());
        assert_eq!(found, expected, "{path}");
        let chars: Vec<char> = path.chars().collect();
        assert_eq!(extension_of(&chars).map(|e| e.into_iter().collect::<String>()), expected);
    }
}

#[test]
fn paths_are_compared_like_those_of_std() {
    for a in PATHS {
        for b in PATHS {
            assert_eq!(same_key(&bytes(a), &bytes(b)), Path::new(a) == Path::new(b), "{a} {b}");
            assert_eq!(same_path(&bytes(a), &bytes(b)), a == b);
            let joined = join(&bytes(a), b.as_bytes());
            assert_eq!(joined, bytes(Path::new(a).join(b).to_str().unwrap()), "{a} {b}");
            let relative = relative_to(&bytes(a), &bytes(b));
            let expected = Path::new(b).strip_prefix(a).ok();
            assert_eq!(relative.is_some(), expected.is_some(), "{a} {b}");
            if let (Some(parts), Some(rest)) = (relative, expected) {
                assert!(same_names(&parts, &key_of(&bytes(rest.to_str().unwrap()))), "{a} {b}");
            }
        }
        assert_eq!(copy_path(&bytes(a)), bytes(a));
    }
    assert_eq!(key_of(&bytes("/a//b/")), vec![bytes(""), bytes("a"), bytes("b")]);
    assert_eq!(key_of(&bytes("a/b")), vec![bytes("a"), bytes("b")]);
}

#[test]
fn state_lies_below_the_state_home() {
    let home = bytes("/home/me/.local/state");
    assert_eq!(
        get_polymodo_state_home(Some(&home)),
        Some(bytes("/home/me/.local/state/polymodo"))
    );
    let file = state_file(Some(&home), "launcher", "history").unwrap();
    assert_eq!(file.directory, bytes("/home/me/.local/state/polymodo/launcher"));
    assert_eq!(file.file, bytes("/home/me/.local/state/polymodo/launcher/history"));
    assert!(get_polymodo_state_home(None).is_none());
    assert!(state_file(None, "launcher", "history").is_none());
}

const ENTRY: &str = "\
[Desktop Entry]
Type=Application
Name=Fire
GenericName=Browser
Comment=Browse
Exec=fire %u
Icon=fire
NoDisplay=false

[Desktop Action new]
Name=New
";

#[test]
fn desktop_entry_is_read() {
    let entry = load(bytes("/e.desktop"), ENTRY).ok().unwrap();
    assert_eq!(entry.source_path, bytes("/e.desktop"));
    assert_eq!(entry.entry_type, ApplicationType::Application);
    assert_eq!(entry.name, "Fire");
    assert_eq!(entry.generic_name.as_deref(), Some("Browser"));
    assert_eq!(entry.comment.as_deref(), Some("Browse"));
    assert_eq!(entry.command_line.as_deref(), Some("fire %u"));
    assert_eq!(entry.icon.as_deref(), Some("fire"));
    assert_eq!(entry.no_display, Some(false));
    let small = load(bytes("/e"), "[Desktop Entry]\nType=Link\nName=N\nNoDisplay=yes\n").ok().unwrap();
    assert_eq!(small.entry_type, ApplicationType::Link);
    assert_eq!(small.no_display, None);
    assert!(small.command_line.is_none() && small.icon.is_none());
}

#[test]
fn what_is_no_desktop_entry_is_refused() {
    let error = |text: &str| load(bytes("/e"), text).err();
    assert_eq!(error("[Desktop Entry\nType=Application"), Some(LoadError::Unparsable));
    assert_eq!(error(""), Some(LoadError::NoSection));
    assert_eq!(error("[Other]\nType=Application\nName=N\n"), Some(LoadError::NoSection));
    assert_eq!(error("[Desktop Entry]\nName=N\n"), Some(LoadError::NoType));
    assert_eq!(error("[Desktop Entry]\nType=application\nName=N\n"), Some(LoadError::UnknownType));
    assert_eq!(error("[Desktop Entry]\nType=Directory\n"), Some(LoadError::NoName));
}

#[test]
fn files_without_an_entry_are_left_out() {
    let file = |path: &str, content: Option<&str>| ReadFile {
        path: bytes(path),
        content: content.map(str::to_string),
    };
    let found = find_desktop_entries(vec![
        file("/a", Some(ENTRY)),
        file("/b", None),
        file("/c", Some("no entry")),
        file("/d", Some("[Desktop Entry]\nType=Link\nName=D\n")),
    ]);
    let names: Vec<(&[u8], &str)> =
        found.iter().map(|e| (e.source_path.as_slice(), e.name.as_str())).collect();
    assert_eq!(names, vec![(&b"/a"[..], "Fire"), (&b"/d"[..], "D")]);
}

#[test]
fn section_becomes_an_entry() {
    let values = |entry_type: Option<&str>, name: Option<&str>, no_display: Option<&str>| SectionValues {
        entry_type: entry_type.map(str::to_string),
        name: name.map(str::to_string),
        generic_name: None,
        comment: None,
        command_line: None,
        icon: None,
        no_display: no_display.map(str::to_string),
    };
    let entry = entry_from_section(bytes("/p"), 7, values(Some("Directory"), Some("n"), Some("true")));
    let entry = entry.ok().unwrap();
    assert_eq!((entry.source_hash, entry.no_display), (7, Some(true)));
    assert_eq!(entry.entry_type, ApplicationType::Directory);
    let refused = entry_from_section(bytes("/p"), 7, values(None, None, None));
    assert_eq!(refused.err(), Some(LoadError::NoType));
}

#[test]
fn hash_is_that_of_a_text() {
    for text in ["", "a", ENTRY, "\u{e4}"] {
        let mut hasher = DefaultHasher::new();
        text.hash(&mut hasher);
        assert_eq!(content_hash(text), hasher.finish());
    }
    let entry = load(bytes("/e"), ENTRY).ok().unwrap();
    assert_eq!(entry.source_hash, content_hash(ENTRY));
}

#[test]
fn directory_of_the_user_is_searched_first() {
    let dirs = vec![bytes("/usr/share"), bytes("/opt/share/")];
    assert_eq!(
        search_dirs(&Some(bytes("/home/me/.local/share")), &dirs),
        vec![
            bytes("/home/me/.local/share/applications"),
            bytes("/usr/share/applications"),
            bytes("/opt/share/applications"),
        ]
    );
    assert_eq!(search_dirs(&None, &dirs).len(), 2);
}

#[test]
fn repeats_are_left_out() {
    let file = |base: &str, path: &str| DesktopEntryIdentifier { base_dir: bytes(base), path: bytes(path) };
    let kept = entries_to_load(vec![
        file("/a", "/a/x.desktop"),
        file("/a", "/a/y.desktop"),
        file("/b", "/b/readme.txt"),
        file("/b", "/b/x.desktop"),
        file("/b", "/b/sub/x.desktop"),
        file("/c", "/c/x.desktop"),
        file("/c", "/c/.desktop"),
        file("/c", "/c/z.desktop"),
        file("/d", "/d/sub/x.desktop"),
        file("/d", "/e/x.desktop"),
    ]);
    let paths: Vec<String> = kept.iter().map(|f| String::from_utf8(f.path.clone()).unwrap()).collect();
    assert_eq!(
        paths,
        vec!["/a/x.desktop", "/a/y.desktop", "/b/sub/x.desktop", "/c/z.desktop", "/e/x.desktop"]
    );
    assert_eq!(kept[2].relative_dir(), Some(vec![bytes("sub"), bytes("x.desktop")]));
    assert_eq!(kept[4].relative_dir(), None);
}

