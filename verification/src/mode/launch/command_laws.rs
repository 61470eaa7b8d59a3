//! What holds of the command of every entry.

use crate::mode::launch::command::{
    all_arguments, command, without_code, without_files, word_length, words,
};
use crate::mode::launch::entry::DesktopEntry;
use crate::sequences::lemma_filter_next;
use vstd::prelude::*;

verus! {

/// Parts, joined by single spaces.
pub open spec fn joined_by_spaces(parts: Seq<Seq<char>>) -> Seq<char>
    decreases parts.len(),
{
    if parts.len() == 0 {
        Seq::empty()
    } else if parts.len() == 1 {
        parts[0]
    } else {
        parts[0] + seq![' '] + joined_by_spaces(parts.skip(1))
    }
}

/// None of the parts holds a space.
pub open spec fn are_without_spaces(parts: Seq<Seq<char>>) -> bool {
    forall|i: int, j: int|
        0 <= i < parts.len() && 0 <= j < parts[i].len() ==> #[trigger] parts[i][j] != ' '
}

/// A word ends at the first space.
proof fn lemma_word_length(s: Seq<char>)
    ensures
        word_length(s) <= s.len(),
        word_length(s) < s.len() ==> s[word_length(s) as int] == ' ',
        forall|i: int| 0 <= i < word_length(s) ==> #[trigger] s[i] != ' ',
    decreases s.len(),
{
    if s.len() > 0 && s[0] != ' ' {
        lemma_word_length(s.skip(1));
        assert forall|i: int| 0 <= i < word_length(s) implies #[trigger] s[i] != ' ' by {
            if i > 0 {
                assert(s.skip(1)[i - 1] == s[i]);
            }
        }
    }
}

/// The parts of a line, joined by single spaces, are the line, and none of them holds a space.
pub proof fn law_parts_make_up_the_line(line: Seq<char>)
    ensures
        words(line).len() > 0,
        joined_by_spaces(words(line)) == line,
        are_without_spaces(words(line)),
    decreases line.len(),
{
    lemma_word_length(line);
    let n = word_length(line) as int;
    let all = words(line);
    if n < line.len() {
        let rest = line.skip(n + 1);
        law_parts_make_up_the_line(rest);
        assert(all.skip(1) =~= words(rest));
        assert(line =~= line.take(n) + seq![' '] + rest);
        assert forall|i: int, j: int| 0 <= i < all.len() && 0 <= j < all[i].len() implies #[trigger] all[i][j]
            != ' ' by {
            if i > 0 {
                assert(all[i] == words(rest)[i - 1]);
                assert(words(rest)[i - 1][j] != ' ');
            } else {
                assert(all[0][j] == line[j]);
            }
        }
    } else {
        assert(all[0] == line);
    }
}

/// There is only one way to take a line apart at its spaces.
pub proof fn law_parts_are_unique(line: Seq<char>, parts: Seq<Seq<char>>)
    requires
        parts.len() > 0,
        joined_by_spaces(parts) == line,
        are_without_spaces(parts),
    ensures
        words(line) == parts,
    decreases line.len(), parts.len(),
{
    lemma_word_length(line);
    let n = word_length(line) as int;
    let head = parts[0];
    if parts.len() == 1 {
        assert(head == line);
        if n < line.len() {
            assert(parts[0][n] != ' ');
        }
        assert(words(line) =~= parts);
    } else {
        let rest = parts.skip(1);
        assert(line[head.len() as int] == ' ');
        if n < head.len() {
            assert(parts[0][n] != ' ');
            assert(line[n] == head[n]);
        } else if n > head.len() {
            assert(line[head.len() as int] != ' ');
        }
        assert(line.skip(n + 1) =~= joined_by_spaces(rest));
        assert(line.take(n) =~= head);
        assert forall|i: int, j: int| 0 <= i < rest.len() && 0 <= j < rest[i].len() implies #[trigger] rest[i][j]
            != ' ' by {
            assert(parts[i + 1][j] != ' ');
        }
        law_parts_are_unique(line.skip(n + 1), rest);
        assert(words(line) =~= parts);
    }
}

/// The code stands at a place of the text.
pub open spec fn has_code_at(s: Seq<char>, code: char, i: int) -> bool {
    0 <= i && i + 1 < s.len() && s[i] == '%' && s[i + 1] == code
}

/// A text in which a code does not stand is left as it is by the removal of the code.
pub proof fn law_text_without_code_is_kept(s: Seq<char>, code: char)
    requires
        forall|i: int| !#[trigger] has_code_at(s, code, i),
    ensures
        without_code(s, code) == s,
    decreases s.len(),
{
    if s.len() >= 2 {
        assert(!has_code_at(s, code, 0));
        let rest = s.skip(1);
        assert forall|i: int| !#[trigger] has_code_at(rest, code, i) by {
            assert(!has_code_at(s, code, i + 1));
        }
        law_text_without_code_is_kept(rest, code);
        assert(seq![s[0]] + rest =~= s);
    }
}

/// The first place at which a code stands is cut out, and the rest is treated in the same way.
pub proof fn law_code_is_cut_out(before: Seq<char>, code: char, after: Seq<char>)
    requires
        code != '%',
        forall|i: int| !#[trigger] has_code_at(before, code, i),
    ensures
        without_code(before + seq!['%', code] + after, code) == before + without_code(after, code),
    decreases before.len(),
{
    let s = before + seq!['%', code] + after;
    if before.len() == 0 {
        assert(s.skip(2) =~= after);
        assert(before + without_code(after, code) =~= without_code(after, code));
    } else {
        let rest = before.skip(1);
        assert(!has_code_at(before, code, 0));
        if before.len() == 1 {
            assert(s[1] == '%');
        } else {
            assert(s[1] == before[1]);
        }
        assert(s.skip(1) =~= rest + seq!['%', code] + after);
        assert forall|i: int| !#[trigger] has_code_at(rest, code, i) by {
            assert(!has_code_at(before, code, i + 1));
        }
        law_code_is_cut_out(rest, code, after);
        assert(seq![s[0]] + (rest + without_code(after, code)) =~= before + without_code(
            after,
            code,
        ));
    }
}

/// The arguments of parts that follow each other follow each other.
pub proof fn law_arguments_follow_parts(
    a: Seq<Seq<char>>,
    b: Seq<Seq<char>>,
    entry: DesktopEntry,
)
    ensures
        all_arguments(a + b, entry) == all_arguments(a, entry) + all_arguments(b, entry),
    decreases b.len(),
{
    if b.len() == 0 {
        assert(a + b =~= a);
        assert(all_arguments(a, entry) + all_arguments(b, entry) =~= all_arguments(a, entry));
    } else {
        law_arguments_follow_parts(a, b.drop_last(), entry);
        assert((a + b).drop_last() =~= a + b.drop_last());
        assert((a + b).last() == b.last());
        assert(all_arguments(a + b, entry) =~= all_arguments(a, entry) + all_arguments(b, entry));
    }
}

/// What a part of a command stands for: `%i` for `--icon` and the icon of the entry, `%c` for its
/// name, and `%k` for its path, as far as that is text. An empty part stands for nothing, and any
/// other part for itself.
pub proof fn law_part_stands_for_arguments(part: Seq<char>, entry: DesktopEntry)
    ensures
        part == "%i"@ ==> all_arguments(seq![part], entry) == seq![
            "--icon"@,
            match entry.icon {
                Some(icon) => icon@,
                None => Seq::empty(),
            },
        ],
        part == "%c"@ ==> all_arguments(seq![part], entry) == seq![entry.name@],
        part == "%k"@ && vstd::utf8::valid_utf8(entry.path@) ==> all_arguments(seq![part], entry)
            == seq![vstd::utf8::decode_utf8(entry.path@)],
        part == "%k"@ && !vstd::utf8::valid_utf8(entry.path@) ==> all_arguments(seq![part], entry)
            == seq![Seq::<char>::empty()],
        part.len() == 0 ==> all_arguments(seq![part], entry) == Seq::<Seq<char>>::empty(),
        part.len() > 0 && part != "%i"@ && part != "%c"@ && part != "%k"@ ==> all_arguments(
            seq![part],
            entry,
        ) == seq![part],
        all_arguments(Seq::empty(), entry) == Seq::<Seq<char>>::empty(),
{
    reveal_strlit("%i");
    reveal_strlit("%c");
    reveal_strlit("%k");
    reveal_strlit("--icon");
    assert("%i"@ =~= seq!['%', 'i']);
    assert("%c"@ =~= seq!['%', 'c']);
    assert("%k"@ =~= seq!['%', 'k']);
    assert("--icon"@ =~= seq!['-', '-', 'i', 'c', 'o', 'n']);
    let one = seq![part];
    assert(one.drop_last() =~= Seq::empty());
    reveal_with_fuel(all_arguments, 2);
    let args = crate::mode::launch::command::arguments_of(part, entry);
    assert(all_arguments(one, entry) =~= args);
    if part == "%i"@ {
        assert(args =~= seq![
            "--icon"@,
            match entry.icon {
                Some(icon) => icon@,
                None => Seq::empty(),
            },
        ]);
    }
}

/// Nothing is cut out of a text without `%`.
proof fn lemma_no_codes(line: Seq<char>)
    requires
        !line.contains('%'),
    ensures
        without_files(line) == line,
{
    assert forall|i: int, code: char| !#[trigger] has_code_at(line, code, i) by {
        if has_code_at(line, code, i) {
            assert(line.contains(line[i]));
        }
    }
    law_text_without_code_is_kept(line, 'f');
    law_text_without_code_is_kept(line, 'F');
    law_text_without_code_is_kept(line, 'u');
    law_text_without_code_is_kept(line, 'U');
}

/// Parts without `%` stand for themselves, where they are not empty.
proof fn lemma_plain_arguments(parts: Seq<Seq<char>>, entry: DesktopEntry)
    requires
        forall|i: int| 0 <= i < parts.len() ==> !(#[trigger] parts[i]).contains('%'),
    ensures
        all_arguments(parts, entry) == parts.filter(|p: Seq<char>| p.len() > 0),
    decreases parts.len(),
{
    let full = |p: Seq<char>| p.len() > 0;
    reveal(Seq::filter);
    if parts.len() > 0 {
        let front = parts.drop_last();
        let last = parts.last();
        assert forall|i: int| 0 <= i < front.len() implies !(#[trigger] front[i]).contains('%') by {
            assert(!parts[i].contains('%'));
        }
        lemma_plain_arguments(front, entry);
        assert(!parts[parts.len() - 1].contains('%'));
        law_part_stands_for_arguments(last, entry);
        reveal_strlit("%i");
        reveal_strlit("%c");
        reveal_strlit("%k");
        if last.len() > 0 {
            assert(last.contains(last[0]));
        }
        law_arguments_follow_parts(front, seq![last], entry);
        assert(parts =~= front + seq![last]);
        assert(all_arguments(parts, entry) =~= parts.filter(full));
    } else {
        assert(all_arguments(parts, entry) =~= parts.filter(full));
    }
}

/// A letter that stands in one of the joined parts stands in the whole.
proof fn lemma_part_in_line(parts: Seq<Seq<char>>, i: int, j: int)
    requires
        0 <= i < parts.len(),
        0 <= j < parts[i].len(),
    ensures
        joined_by_spaces(parts).contains(parts[i][j]),
    decreases parts.len(),
{
    let line = joined_by_spaces(parts);
    if parts.len() == 1 {
        assert(line[j] == parts[i][j]);
    } else if i == 0 {
        assert(line[j] == parts[0][j]);
    } else {
        let rest = parts.skip(1);
        lemma_part_in_line(rest, i - 1, j);
        let tail = joined_by_spaces(rest);
        let k = choose|k: int| 0 <= k < tail.len() && tail[k] == parts[i][j];
        assert(line[parts[0].len() + 1 + k] == tail[k]);
    }
}

/// A line without `%` is launched as the parts between its spaces, without the empty ones.
pub proof fn law_plain_line_is_its_parts(entry: DesktopEntry, parts: Seq<Seq<char>>)
    requires
        !entry.command_line@.contains('%'),
        parts.len() > 0,
        joined_by_spaces(parts) == entry.command_line@,
        are_without_spaces(parts),
    ensures
        command(entry) == parts.filter(|p: Seq<char>| p.len() > 0),
{
    lemma_no_codes(entry.command_line@);
    law_parts_are_unique(entry.command_line@, parts);
    assert forall|i: int| 0 <= i < parts.len() implies !(#[trigger] parts[i]).contains('%') by {
        if parts[i].contains('%') {
            let j = choose|j: int| 0 <= j < parts[i].len() && parts[i][j] == '%';
            lemma_part_in_line(parts, i, j);
        }
    }
    lemma_plain_arguments(parts, entry);
}

/// An entry is launched with what its parts stand for, once the codes for files and addresses are
/// cut out: first `%f`, then `%F`, then `%u`, then `%U`.
pub proof fn law_command_is_what_parts_stand_for(entry: DesktopEntry, parts: Seq<Seq<char>>)
    requires
        parts.len() > 0,
        joined_by_spaces(parts) == without_code(
            without_code(without_code(without_code(entry.command_line@, 'f'), 'F'), 'u'),
            'U',
        ),
        are_without_spaces(parts),
    ensures
        command(entry) == all_arguments(parts, entry),
{
    law_parts_are_unique(joined_by_spaces(parts), parts);
}

/// The code at the end is cut out, and any other code finds nothing.
proof fn lemma_code_at_the_end(line: Seq<char>, code: char, other: char)
    requires
        !line.contains('%'),
        code != '%',
        other != '%',
    ensures
        without_code(line + seq!['%', code], other) == if code == other {
            line
        } else {
            line + seq!['%', code]
        },
{
    let s = line + seq!['%', code];
    assert forall|i: int, c: char| !#[trigger] has_code_at(line, c, i) by {
        if has_code_at(line, c, i) {
            assert(line.contains(line[i]));
        }
    }
    if code == other {
        law_code_is_cut_out(line, code, Seq::empty());
        assert(s + Seq::<char>::empty() =~= s);
        assert(line + without_code(Seq::empty(), code) =~= line);
    } else {
        assert forall|i: int| !#[trigger] has_code_at(s, other, i) by {
            if has_code_at(s, other, i) {
                if i < line.len() {
                    assert(s[i] == line[i]);
                    assert(line.contains(line[i]));
                }
            }
        }
        law_text_without_code_is_kept(s, other);
    }
}

/// A code for files or addresses at the end of a line makes no difference to what is launched.
pub proof fn law_file_code_makes_no_difference(a: DesktopEntry, b: DesktopEntry, code: char)
    requires
        !a.command_line@.contains('%'),
        code == 'f' || code == 'F' || code == 'u' || code == 'U',
        b.command_line@ == a.command_line@ + seq![' ', '%', code],
    ensures
        command(b) == command(a),
{
    let line = a.command_line@;
    let with_space = line + seq![' '];
    assert(!with_space.contains('%')) by {
        if with_space.contains('%') {
            let i = choose|i: int| 0 <= i < with_space.len() && with_space[i] == '%';
            if i < line.len() {
                assert(line.contains(line[i]));
            }
        }
    }
    let full = |p: Seq<char>| p.len() > 0;
    assert(b.command_line@ =~= with_space + seq!['%', code]);
    lemma_no_codes(line);
    lemma_no_codes(with_space);
    assert(without_files(b.command_line@) == with_space) by {
        let s = with_space + seq!['%', code];
        lemma_code_at_the_end(with_space, code, 'f');
        lemma_code_at_the_end(with_space, code, 'F');
        lemma_code_at_the_end(with_space, code, 'u');
        lemma_code_at_the_end(with_space, code, 'U');
        assert forall|i: int, c: char| !#[trigger] has_code_at(with_space, c, i) by {
            if has_code_at(with_space, c, i) {
                assert(with_space.contains(with_space[i]));
            }
        }
        law_text_without_code_is_kept(with_space, 'f');
        law_text_without_code_is_kept(with_space, 'F');
        law_text_without_code_is_kept(with_space, 'u');
        law_text_without_code_is_kept(with_space, 'U');
    }
    let parts = words(line);
    law_parts_make_up_the_line(line);
    law_plain_line_is_its_parts(a, parts);
    let more = parts.push(Seq::empty());
    lemma_joined_push(parts);
    assert(are_without_spaces(more)) by {
        assert forall|i: int, j: int| 0 <= i < more.len() && 0 <= j < more[i].len() implies #[trigger] more[i][j]
            != ' ' by {
            assert(parts[i][j] != ' ');
        }
    }
    law_parts_are_unique(with_space, more);
    assert forall|i: int| 0 <= i < more.len() implies !(#[trigger] more[i]).contains('%') by {
        if more[i].contains('%') {
            let j = choose|j: int| 0 <= j < more[i].len() && more[i][j] == '%';
            lemma_part_in_line(more, i, j);
        }
    }
    lemma_plain_arguments(more, b);
    lemma_filter_next(more, full, parts.len() as int);
    assert(more.take(more.len() as int) =~= more);
    assert(more.take(parts.len() as int) =~= parts);
}

/// An empty part at the end adds a space.
proof fn lemma_joined_push(parts: Seq<Seq<char>>)
    requires
        parts.len() > 0,
    ensures
        joined_by_spaces(parts.push(Seq::empty())) == joined_by_spaces(parts) + seq![' '],
    decreases parts.len(),
{
    let more = parts.push(Seq::empty());
    reveal_with_fuel(joined_by_spaces, 2);
    if parts.len() == 1 {
        assert(more.skip(1) =~= seq![Seq::<char>::empty()]);
        assert(joined_by_spaces(more) =~= joined_by_spaces(parts) + seq![' ']);
    } else {
        lemma_joined_push(parts.skip(1));
        assert(more.skip(1) =~= parts.skip(1).push(Seq::empty()));
        assert(joined_by_spaces(more) =~= joined_by_spaces(parts) + seq![' ']);
    }
}

} // verus!
