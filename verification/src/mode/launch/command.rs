//! The command that an entry is launched with.

use crate::mode::launch::entry::DesktopEntry;
use crate::paths::copy_path;
use crate::text::{characters, decode, string_of};
use vstd::prelude::*;

verus! {

/// The text without any `%` that is followed by `code`, and without that `code`.
pub open spec fn without_code(s: Seq<char>, code: char) -> Seq<char>
    decreases s.len(),
{
    if s.len() < 2 {
        s
    } else if s[0] == '%' && s[1] == code {
        without_code(s.skip(2), code)
    } else {
        seq![s[0]] + without_code(s.skip(1), code)
    }
}

/// The length of the text up to the first space.
pub open spec fn word_length(s: Seq<char>) -> nat
    decreases s.len(),
{
    if s.len() == 0 || s[0] == ' ' {
        0
    } else {
        1 + word_length(s.skip(1))
    }
}

/// The parts of a text between its spaces; a part can be empty.
pub open spec fn words(s: Seq<char>) -> Seq<Seq<char>>
    decreases s.len(),
{
    let n = word_length(s) as int;
    if n >= s.len() {
        seq![s]
    } else {
        seq![s.take(n)] + words(s.skip(n + 1))
    }
}

/// A path as text: nothing where it is not UTF-8.
pub open spec fn path_text(path: Seq<u8>) -> Seq<char> {
    if vstd::utf8::valid_utf8(path) {
        vstd::utf8::decode_utf8(path)
    } else {
        Seq::empty()
    }
}

/// The arguments that a part of the command stands for: `%i` for the icon, `%c` for the name and
/// `%k` for the path of the entry. An empty part is no argument.
pub open spec fn arguments_of(word: Seq<char>, entry: DesktopEntry) -> Seq<Seq<char>> {
    if word == seq!['%', 'i'] {
        seq![
            seq!['-', '-', 'i', 'c', 'o', 'n'],
            if entry.icon is Some {
                entry.icon->0@
            } else {
                Seq::empty()
            },
        ]
    } else if word == seq!['%', 'c'] {
        seq![entry.name@]
    } else if word == seq!['%', 'k'] {
        seq![path_text(entry.path@)]
    } else if word.len() == 0 {
        Seq::empty()
    } else {
        seq![word]
    }
}

/// The arguments that all parts stand for, in order.
pub open spec fn all_arguments(parts: Seq<Seq<char>>, entry: DesktopEntry) -> Seq<Seq<char>>
    decreases parts.len(),
{
    if parts.len() == 0 {
        Seq::empty()
    } else {
        all_arguments(parts.drop_last(), entry) + arguments_of(parts.last(), entry)
    }
}

/// The command of an entry without the codes for files and addresses, which are never given.
pub open spec fn without_files(line: Seq<char>) -> Seq<char> {
    without_code(without_code(without_code(without_code(line, 'f'), 'F'), 'u'), 'U')
}

/// The program and its arguments.
pub open spec fn command(entry: DesktopEntry) -> Seq<Seq<char>> {
    all_arguments(words(without_files(entry.command_line@)), entry)
}

/// The texts of some strings.
pub open spec fn texts(strings: Seq<String>) -> Seq<Seq<char>> {
    strings.map_values(|s: String| s@)
}

fn remove_code(s: &Vec<char>, code: char) -> (res: Vec<char>)
    ensures
        res@ == without_code(s@, code),
{
    let mut res: Vec<char> = Vec::new();
    let mut i: usize = 0;
    assert(s@.skip(0) == s@);
    while i < s.len()
        invariant
            i <= s.len(),
            without_code(s@, code) == res@ + without_code(s@.skip(i as int), code),
        decreases s.len() - i,
    {
        let ghost rest = s@.skip(i as int);
        if i < s.len() - 1 && s[i] == '%' && s[i + 1] == code {
            assert(rest.skip(2) == s@.skip(i + 2));
            i += 2;
        } else {
            res.push(s[i]);
            proof {
                assert(rest.skip(1) == s@.skip(i + 1));
                if rest.len() < 2 {
                    assert(rest == seq![rest[0]] + rest.skip(1));
                    assert(without_code(rest.skip(1), code) == rest.skip(1));
                }
                assert(res@ + without_code(s@.skip(i + 1), code) =~= res@.drop_last() + (seq![
                    rest[0],
                ] + without_code(rest.skip(1), code)));
            }
            i += 1;
        }
    }
    assert(res@ + without_code(s@.skip(i as int), code) =~= res@);
    res
}

fn split_words(s: &Vec<char>) -> (res: Vec<Vec<char>>)
    ensures
        res@.map_values(|w: Vec<char>| w@) == words(s@),
{
    let mut res: Vec<Vec<char>> = Vec::new();
    let mut start: usize = 0;
    let ghost view = |w: Vec<char>| w@;
    assert(s@.skip(0) == s@);
    assert(res@.map_values(view) + words(s@) =~= words(s@));
    loop
        invariant
            start <= s.len(),
            view == (|w: Vec<char>| w@),
            words(s@) == res@.map_values(view) + words(s@.skip(start as int)),
        decreases s.len() - start,
    {
        let ghost rest = s@.skip(start as int);
        let mut word: Vec<char> = Vec::new();
        let mut i: usize = start;
        while i < s.len() && s[i] != ' '
            invariant
                start <= i <= s.len(),
                rest == s@.skip(start as int),
                word@ == rest.take(i - start),
                word_length(rest) == (i - start) + word_length(s@.skip(i as int)),
            decreases s.len() - i,
        {
            word.push(s[i]);
            assert(s@.skip(i as int).skip(1) == s@.skip(i + 1));
            i += 1;
        }
        let ghost before = res@;
        res.push(word);
        assert(res@.map_values(view) == before.map_values(view).push(word@));
        assert(word_length(rest) == i - start);
        if i >= s.len() {
            assert(word@ == rest);
            assert(res@.map_values(view) =~= before.map_values(view) + words(rest));
            return res;
        }
        assert(rest.skip(i - start + 1) == s@.skip(i + 1));
        assert(before.map_values(view) + words(rest) =~= res@.map_values(view) + words(
            s@.skip(i + 1),
        ));
        start = i + 1;
    }
}

fn is_code(word: &Vec<char>, code: char) -> (res: bool)
    ensures
        res == (word@ == seq!['%', code]),
{
    let res = word.len() == 2 && word[0] == '%' && word[1] == code;
    assert(res ==> word@ =~= seq!['%', code]);
    res
}

fn push_arguments(args: &mut Vec<String>, word: &Vec<char>, entry: &DesktopEntry)
    ensures
        texts(final(args)@) == texts(old(args)@) + arguments_of(word@, *entry),
{
    let ghost before = args@;
    if is_code(word, 'i') {
        let flag = "--icon";
        proof {
            reveal_strlit("--icon");
            assert(flag@ =~= seq!['-', '-', 'i', 'c', 'o', 'n']);
        }
        args.push(flag.to_owned());
        match &entry.icon {
            Some(icon) => args.push(icon.clone()),
            None => {
                let nothing = String::new();
                assert(nothing@ =~= Seq::empty());
                args.push(nothing);
            },
        }
    } else if is_code(word, 'c') {
        args.push(entry.name.clone());
    } else if is_code(word, 'k') {
        match decode(copy_path(&entry.path)) {
            Some(path) => args.push(path),
            None => {
                let nothing = String::new();
                assert(nothing@ =~= Seq::empty());
                args.push(nothing);
            },
        }
    } else if word.len() > 0 {
        args.push(string_of(word));
    }
    assert(texts(args@) =~= texts(before) + arguments_of(word@, *entry));
}

/// The program and the arguments that an entry is launched with.
pub fn launch_arguments(entry: &DesktopEntry) -> (res: Vec<String>)
    ensures
        texts(res@) == command(*entry),
{
    let line = characters(entry.command_line.as_str());
    let line = remove_code(&line, 'f');
    let line = remove_code(&line, 'F');
    let line = remove_code(&line, 'u');
    let line = remove_code(&line, 'U');
    let parts = split_words(&line);
    let ghost view = |w: Vec<char>| w@;
    let ghost all = parts@.map_values(view);
    let mut args: Vec<String> = Vec::new();
    let mut i: usize = 0;
    assert(texts(args@) =~= all_arguments(all.take(0), *entry));
    while i < parts.len()
        invariant
            i <= parts.len(),
            view == (|w: Vec<char>| w@),
            all == parts@.map_values(view),
            texts(args@) == all_arguments(all.take(i as int), *entry),
        decreases parts.len() - i,
    {
        push_arguments(&mut args, &parts[i], entry);
        i += 1;
        assert(all.take(i as int).drop_last() == all.take(i - 1));
    }
    assert(all.take(i as int) == all);
    args
}

/// The program that is to be run, and its arguments.
pub struct Launch {
    pub program: String,
    pub args: Vec<String>,
}

/// What is to be run for an entry. An entry without a program cannot be launched.
pub fn launch(entry: &DesktopEntry) -> (res: Launch)
    requires
        command(*entry).len() > 0,
    ensures
        seq![res.program@] + texts(res.args@) == command(*entry),
{
    let mut args = launch_arguments(entry);
    let ghost all = args@;
    assert(texts(all).len() == all.len());
    let program = args.remove(0);
    assert(seq![program@] + texts(args@) =~= texts(all));
    Launch { program, args }
}

} // verus!
