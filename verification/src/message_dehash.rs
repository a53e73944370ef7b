//! Finding the names of the sub-files of an archive of game messages from
//! the list file beside it.

use crate::farc::{with_checked_names, Farc};
use vstd::prelude::*;

verus! {

/// The position of the first `c` in `s`, or the length of `s` where there is
/// none.
pub open spec fn first_index(s: Seq<char>, c: char) -> int
    decreases s.len(),
{
    if s.len() == 0 || s[0] == c {
        0
    } else {
        1 + first_index(s.drop_first(), c)
    }
}

/// The name of the list file beside an archive: the name of the archive up
/// to its first dot, then `.lst`.
pub open spec fn list_file_name(archive: Seq<char>) -> Seq<char> {
    archive.take(first_index(archive, '.')) + ".lst"@
}

/// The first `c` is where no earlier character is `c`.
proof fn lemma_first_index(s: Seq<char>, c: char, at: int)
    requires
        0 <= at <= s.len(),
        forall|i: int| 0 <= i < at ==> s[i] != c,
        at == s.len() || s[at] == c,
    ensures
        first_index(s, c) == at,
    decreases s.len(),
{
    if at > 0 {
        assert(s[0] != c);
        lemma_first_index(s.drop_first(), c, at - 1);
    }
}

/// The lines of a text: each line feed ends one and starts the next.
pub open spec fn split_lines(text: Seq<char>) -> Seq<Seq<char>>
    decreases text.len(),
{
    if text.len() == 0 {
        seq![Seq::empty()]
    } else {
        let before = split_lines(text.drop_last());
        if text.last() == '\n' {
            before.push(Seq::empty())
        } else {
            before.drop_last().push(before.last().push(text.last()))
        }
    }
}

/// What follows the last `/` of a path, or the whole path where it has none.
pub open spec fn after_last_slash(path: Seq<char>) -> Seq<char>
    decreases path.len(),
{
    if path.len() == 0 || path.last() == '/' {
        Seq::empty()
    } else {
        after_last_slash(path.drop_last()).push(path.last())
    }
}

/// The names that a list file proposes: of each line that is not empty, what
/// follows the last `/`.
pub open spec fn candidate_names(lines: Seq<Seq<char>>) -> Seq<Seq<char>> {
    lines.filter(|line: Seq<char>| line.len() > 0).map_values(
        |line: Seq<char>| after_last_slash(line),
    )
}

/// A text always has a last line, which may be empty.
proof fn lemma_split_lines_len(text: Seq<char>)
    ensures
        split_lines(text).len() >= 1,
    decreases text.len(),
{
    if text.len() > 0 {
        lemma_split_lines_len(text.drop_last());
    }
}

/// One more line adds its name to the proposed ones, unless it is empty.
proof fn lemma_candidate_names_push(lines: Seq<Seq<char>>, line: Seq<char>)
    ensures
        candidate_names(lines.push(line)) == if line.len() > 0 {
            candidate_names(lines).push(after_last_slash(line))
        } else {
            candidate_names(lines)
        },
{
    let kept = |line: Seq<char>| line.len() > 0;
    Seq::lemma_filter_push(lines, line, kept);
    if line.len() > 0 {
        assert(candidate_names(lines.push(line)) =~= candidate_names(lines).push(
            after_last_slash(line),
        ));
    }
}

/// The name of the list file to open for an archive of this name.
pub fn get_file_name(original_file_name: &str) -> (r: Option<String>)
    ensures
        r matches Some(name) && name@ == list_file_name(original_file_name@),
{
    let len: usize = original_file_name.unicode_len();
    let mut at: usize = 0;
    while at < len && original_file_name.get_char(at) != '.'
        invariant
            len == original_file_name@.len(),
            at <= len,
            forall|i: int| 0 <= i < at ==> original_file_name@[i] != '.',
        decreases len - at,
    {
        at += 1;
    }
    proof {
        lemma_first_index(original_file_name@, '.', at as int);
    }
    let stem = original_file_name.substring_char(0, at);
    Some(stem.to_owned().concat(".lst"))
}

/// Checks the names that a list file proposes against the sub-files of
/// `farc`. The text holds one path on each line; the name proposed by a
/// line that is not empty is what follows its last `/`.
pub fn try_possible_name(farc: &mut Farc, list_file: &str)
    ensures
        final(farc).entries() == with_checked_names(
            old(farc).entries(),
            candidate_names(split_lines(list_file@)),
        ),
        final(farc).data() == old(farc).data(),
{
    let ghost text = list_file@;
    let ghost start = farc.entries();
    let len: usize = list_file.unicode_len();
    let mut name_start: usize = 0;
    let mut line_start: usize = 0;
    let mut at: usize = 0;
    proof {
        assert(text.take(0) =~= Seq::<char>::empty());
        assert(candidate_names(split_lines(text.take(0)).drop_last()) =~= Seq::<
            Seq<char>,
        >::empty()) by {
            reveal_with_fuel(Seq::filter, 2);
        }
        assert(text.subrange(0, 0) =~= Seq::<char>::empty());
    }
    for c in it: list_file.chars()
        invariant
            it.seq() == text,
            text == list_file@,
            len == text.len(),
            at == it.index(),
            line_start <= name_start <= at,
            farc.data() == old(farc).data(),
            split_lines(text.take(at as int)).len() >= 1,
            split_lines(text.take(at as int)).last() == text.subrange(
                line_start as int,
                at as int,
            ),
            after_last_slash(text.subrange(line_start as int, at as int)) == text.subrange(
                name_start as int,
                at as int,
            ),
            farc.entries() == with_checked_names(
                start,
                candidate_names(split_lines(text.take(at as int)).drop_last()),
            ),
    {
        let ghost read = text.take(at as int);
        let ghost lines = split_lines(read);
        let ghost line = text.subrange(line_start as int, at as int);
        proof {
            assert(text.take(at + 1).drop_last() =~= read);
            assert(text.take(at + 1).last() == c);
            lemma_split_lines_len(read);
        }
        if c == '\n' {
            if at > line_start {
                let name = list_file.substring_char(name_start, at);
                farc.check_file_name(name);
            }
            proof {
                lemma_candidate_names_push(lines.drop_last(), line);
                assert(lines.drop_last().push(line) =~= lines);
                assert(lines.push(Seq::empty()).drop_last() =~= lines);
                let names = candidate_names(lines.drop_last());
                if line.len() > 0 {
                    let name = after_last_slash(line);
                    assert(names.push(name).drop_last() =~= names);
                }
                assert(text.subrange(at + 1, at + 1) =~= Seq::<char>::empty());
            }
            line_start = at + 1;
            name_start = at + 1;
        } else {
            proof {
                let longer = text.subrange(line_start as int, at + 1);
                assert(longer.drop_last() =~= line);
                assert(longer.last() == c);
                assert(lines.drop_last().push(lines.last().push(c)).drop_last()
                    =~= lines.drop_last());
                assert(lines.last().push(c) =~= longer);
                if c == '/' {
                    assert(text.subrange(at + 1, at + 1) =~= Seq::<char>::empty());
                } else {
                    assert(text.subrange(name_start as int, at as int).push(c) =~= text.subrange(
                        name_start as int,
                        at + 1,
                    ));
                }
            }
            if c == '/' {
                name_start = at + 1;
            }
        }
        at += 1;
    }
    proof {
        assert(text.take(at as int) =~= text);
        let lines = split_lines(text);
        let line = text.subrange(line_start as int, at as int);
        lemma_candidate_names_push(lines.drop_last(), line);
        assert(lines.drop_last().push(line) =~= lines);
        let names = candidate_names(lines.drop_last());
        if line.len() > 0 {
            assert(names.push(after_last_slash(line)).drop_last() =~= names);
        }
    }
    if at > line_start {
        let name = list_file.substring_char(name_start, at);
        farc.check_file_name(name);
    }
}

} // verus!
