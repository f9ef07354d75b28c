//! The names of archives, and what is said of an archiver that failed.

use crate::archive::{
    ends_with, has_end, lemma_end_is_suffix, lemma_end_of_sum, lemma_ends_differ,
};
use crate::sorting::lowercase_text;
use crate::text::{blank, chars_of, is_blank, join_texts, joined, slice_of, string_of, views};
use vstd::prelude::*;

verus! {

/// Whether a name is that of an archive that can be unpacked, in any case.
pub open spec fn names_archive(name: Seq<char>) -> bool {
    let lower = lowercase_text(name);
    ||| ends_with(lower, ".tar"@)
    ||| ends_with(lower, ".tar.gz"@)
    ||| ends_with(lower, ".tgz"@)
    ||| ends_with(lower, ".tar.bz2"@)
    ||| ends_with(lower, ".tbz2"@)
    ||| ends_with(lower, ".tar.xz"@)
    ||| ends_with(lower, ".txz"@)
}

/// Whether a name is that of an archive that can be unpacked.
pub fn is_archive_file(filename: &str) -> (r: bool)
    ensures
        r == names_archive(filename@),
{
    let lower = filename.to_lowercase();
    let name = lower.as_str();
    has_end(name, ".tar") || has_end(name, ".tar.gz") || has_end(name, ".tgz") || has_end(
        name,
        ".tar.bz2",
    ) || has_end(name, ".tbz2") || has_end(name, ".tar.xz") || has_end(name, ".txz")
}

/// A name without an end, however often it has it.
pub open spec fn without_end(name: Seq<char>, end: Seq<char>) -> Seq<char>
    decreases name.len(),
{
    if end.len() > 0 && ends_with(name, end) {
        without_end(name.take(name.len() - end.len()), end)
    } else {
        name
    }
}

fn strip_end(name: &str, end: &str) -> (r: String)
    requires
        end@.len() > 0,
    ensures
        r@ == without_end(name@, end@),
{
    let whole = chars_of(name);
    let tail = chars_of(end);
    let mut rest = name.to_owned();
    let mut n: usize = whole.len();
    assert(name@.take(n as int) =~= name@);
    while has_end(rest.as_str(), end)
        invariant
            n <= whole@.len(),
            whole@ == name@,
            tail@ == end@,
            end@.len() > 0,
            rest@ == name@.take(n as int),
            without_end(name@, end@) == without_end(rest@, end@),
        decreases n,
    {
        let m: usize = n - tail.len();
        let head = slice_of(&whole, 0, m);
        assert(head@ =~= name@.take(m as int));
        assert(rest@.take(rest@.len() - end@.len()) =~= name@.take(m as int));
        rest = string_of(&head);
        n = m;
    }
    rest
}

/// The name of the directory that an archive is unpacked into.
pub open spec fn extract_name(archive: Seq<char>) -> Seq<char> {
    let a = without_end(archive, ".tar.gz"@);
    let b = without_end(a, ".tgz"@);
    let c = without_end(b, ".tar.bz2"@);
    let d = without_end(c, ".tbz2"@);
    let e = without_end(d, ".tar.xz"@);
    let f = without_end(e, ".txz"@);
    without_end(f, ".tar"@)
}

/// The name of the directory that an archive is unpacked into.
pub fn extract_dir_name(archive: &str) -> (r: String)
    ensures
        r@ == extract_name(archive@),
{
    proof {
        reveal_strlit(".tar.gz");
        reveal_strlit(".tgz");
        reveal_strlit(".tar.bz2");
        reveal_strlit(".tbz2");
        reveal_strlit(".tar.xz");
        reveal_strlit(".txz");
        reveal_strlit(".tar");
    }
    let a = strip_end(archive, ".tar.gz");
    let b = strip_end(a.as_str(), ".tgz");
    let c = strip_end(b.as_str(), ".tar.bz2");
    let d = strip_end(c.as_str(), ".tbz2");
    let e = strip_end(d.as_str(), ".tar.xz");
    let f = strip_end(e.as_str(), ".txz");
    strip_end(f.as_str(), ".tar")
}

/// Whether a character ends a line.
pub open spec fn is_line_end(c: char) -> bool {
    c == '\r' || c == '\n'
}

/// A text without the line ends at its end.
pub open spec fn lines_trimmed_end(s: Seq<char>) -> Seq<char>
    decreases s.len(),
{
    if s.len() > 0 && is_line_end(s.last()) {
        lines_trimmed_end(s.drop_last())
    } else {
        s
    }
}

/// A text without the line ends at its start.
pub open spec fn lines_trimmed_start(s: Seq<char>) -> Seq<char>
    decreases s.len(),
{
    if s.len() > 0 && is_line_end(s[0]) {
        lines_trimmed_start(s.skip(1))
    } else {
        s
    }
}

/// A text without the line ends around it.
pub open spec fn lines_trimmed(s: Seq<char>) -> Seq<char> {
    lines_trimmed_end(lines_trimmed_start(s))
}

/// A text without the line ends around it.
pub fn trim_lines(s: &str) -> (r: String)
    ensures
        r@ == lines_trimmed(s@),
{
    let v = chars_of(s);
    let count: usize = v.len();
    let mut from: usize = 0;
    assert(s@.skip(0) =~= s@);
    while from < count && (v[from] == '\r' || v[from] == '\n')
        invariant
            from <= count,
            count == v@.len(),
            v@ == s@,
            lines_trimmed_start(s@) == lines_trimmed_start(s@.skip(from as int)),
        decreases count - from,
    {
        assert(s@.skip(from as int)[0] == s@[from as int]);
        assert(s@.skip(from as int).skip(1) =~= s@.skip(from + 1));
        from += 1;
    }
    assert(from < count ==> s@.skip(from as int)[0] == s@[from as int]);
    let ghost rest = s@.skip(from as int);
    assert(lines_trimmed_start(s@) == rest);
    let mut to: usize = count;
    assert(s@.subrange(from as int, to as int) =~= rest);
    while to > from && (v[to - 1] == '\r' || v[to - 1] == '\n')
        invariant
            from <= to <= count,
            count == v@.len(),
            v@ == s@,
            lines_trimmed_end(rest) == lines_trimmed_end(s@.subrange(from as int, to as int)),
        decreases to,
    {
        let ghost part = s@.subrange(from as int, to as int);
        assert(part.last() == s@[to - 1]);
        assert(part.drop_last() =~= s@.subrange(from as int, to - 1));
        to -= 1;
    }
    assert(to > from ==> s@.subrange(from as int, to as int).last() == s@[to - 1]);
    let part = slice_of(&v, from, to);
    assert(part@ =~= s@.subrange(from as int, to as int));
    string_of(&part)
}

/// The parts of what is said of a process that failed.
pub open spec fn error_parts(stderr: Option<Seq<char>>, lines: Seq<Seq<char>>) -> Seq<Seq<char>> {
    let first: Seq<Seq<char>> = match stderr {
        Some(text) => if blank(lines_trimmed(text)) {
            Seq::empty()
        } else {
            seq![lines_trimmed(text)]
        },
        None => Seq::empty(),
    };
    if lines.len() == 0 {
        first
    } else {
        first.push(joined(lines, "\n"@))
    }
}

/// What is said of a process that failed.
pub open spec fn error_text(stderr: Option<Seq<char>>, lines: Seq<Seq<char>>, fallback: Seq<char>) -> Seq<
    char,
> {
    let parts = error_parts(stderr, lines);
    if parts.len() == 0 {
        fallback
    } else {
        joined(parts, "\n"@)
    }
}

/// What is said of a process that failed: what it printed on errors and the error
/// lines among its output, or `fallback` where it said nothing.
pub fn process_error_message(stderr: Option<&str>, lines: &Vec<String>, fallback: &str) -> (r: String)
    ensures
        r@ == error_text(
            match stderr {
                Some(text) => Some(text@),
                None => None,
            },
            views(lines@),
            fallback@,
        ),
{
    let mut parts: Vec<String> = Vec::new();
    let ghost first: Seq<Seq<char>> = match stderr {
        Some(text) => if blank(lines_trimmed(text@)) {
            Seq::empty()
        } else {
            seq![lines_trimmed(text@)]
        },
        None => Seq::empty(),
    };
    if let Some(text) = stderr {
        let trimmed = trim_lines(text);
        if !is_blank(trimmed.as_str()) {
            parts.push(trimmed);
        }
    }
    assert(views(parts@) =~= first);
    if lines.len() > 0 {
        let ghost held = parts@;
        parts.push(join_texts(lines, "\n"));
        assert(views(parts@) =~= views(held).push(joined(views(lines@), "\n"@)));
    }
    assert(views(parts@).len() == parts@.len());
    assert(views(lines@).len() == lines@.len());
    if parts.len() == 0 {
        fallback.to_owned()
    } else {
        join_texts(&parts, "\n")
    }
}

/// The directory of an archive never carries one of the ends that mark an archive
/// as a plain one.
pub proof fn law_extract_name_has_no_tar_end(archive: Seq<char>)
    ensures
        !ends_with(extract_name(archive), ".tar"@),
{
    reveal_strlit(".tar");
    let a = without_end(archive, ".tar.gz"@);
    let b = without_end(a, ".tgz"@);
    let c = without_end(b, ".tar.bz2"@);
    let d = without_end(c, ".tbz2"@);
    let e = without_end(d, ".tar.xz"@);
    let f = without_end(e, ".txz"@);
    lemma_end_is_gone(f, ".tar"@);
}

proof fn lemma_end_is_gone(name: Seq<char>, end: Seq<char>)
    requires
        end.len() > 0,
    ensures
        !ends_with(without_end(name, end), end),
    decreases name.len(),
{
    if ends_with(name, end) {
        lemma_end_is_gone(name.take(name.len() - end.len()), end);
    }
}

/// Whether a name has none of the ends of archives.
pub open spec fn is_bare(name: Seq<char>) -> bool {
    &&& !".tar"@.is_suffix_of(name)
    &&& !".tar.gz"@.is_suffix_of(name)
    &&& !".tgz"@.is_suffix_of(name)
    &&& !".tar.bz2"@.is_suffix_of(name)
    &&& !".tbz2"@.is_suffix_of(name)
    &&& !".tar.xz"@.is_suffix_of(name)
    &&& !".txz"@.is_suffix_of(name)
}

/// An archive is unpacked into a directory named as it is, without its end, whichever
/// of the ends that is.
pub proof fn law_archive_is_unpacked_under_its_stem(stem: Seq<char>)
    requires
        is_bare(stem),
    ensures
        extract_name(stem) == stem,
        extract_name(stem + ".tar.gz"@) == stem,
        extract_name(stem + ".tgz"@) == stem,
        extract_name(stem + ".tar.bz2"@) == stem,
        extract_name(stem + ".tbz2"@) == stem,
        extract_name(stem + ".tar.xz"@) == stem,
        extract_name(stem + ".txz"@) == stem,
        extract_name(stem + ".tar"@) == stem,
{
    lemma_lengths_of_ends();
    lemma_bare_is_kept(stem);
    lemma_strips_one(stem, ".tar.gz"@);
    lemma_strips_one(stem, ".tgz"@);
    lemma_strips_one(stem, ".tar.bz2"@);
    lemma_strips_one(stem, ".tbz2"@);
    lemma_strips_one(stem, ".tar.xz"@);
    lemma_strips_one(stem, ".txz"@);
    lemma_strips_one(stem, ".tar"@);
    lemma_tail_of_sum(stem, ".tgz"@);
    lemma_tail_of_sum(stem, ".tar.bz2"@);
    lemma_tail_of_sum(stem, ".tbz2"@);
    lemma_tail_of_sum(stem, ".tar.xz"@);
    lemma_tail_of_sum(stem, ".txz"@);
    lemma_tail_of_sum(stem, ".tar"@);
}

proof fn lemma_lengths_of_ends()
    ensures
        ".tar"@ == seq!['.', 't', 'a', 'r'],
        ".tar.gz"@ == seq!['.', 't', 'a', 'r', '.', 'g', 'z'],
        ".tgz"@ == seq!['.', 't', 'g', 'z'],
        ".tar.bz2"@ == seq!['.', 't', 'a', 'r', '.', 'b', 'z', '2'],
        ".tbz2"@ == seq!['.', 't', 'b', 'z', '2'],
        ".tar.xz"@ == seq!['.', 't', 'a', 'r', '.', 'x', 'z'],
        ".txz"@ == seq!['.', 't', 'x', 'z'],
{
    reveal_strlit(".tar.gz");
    reveal_strlit(".tgz");
    reveal_strlit(".tar.bz2");
    reveal_strlit(".tbz2");
    reveal_strlit(".tar.xz");
    reveal_strlit(".txz");
    reveal_strlit(".tar");
}

proof fn lemma_bare_is_kept(stem: Seq<char>)
    requires
        is_bare(stem),
    ensures
        without_end(stem, ".tar.gz"@) == stem,
        without_end(stem, ".tgz"@) == stem,
        without_end(stem, ".tar.bz2"@) == stem,
        without_end(stem, ".tbz2"@) == stem,
        without_end(stem, ".tar.xz"@) == stem,
        without_end(stem, ".txz"@) == stem,
        without_end(stem, ".tar"@) == stem,
{
    lemma_ends_differ(stem);
}

/// One end is taken off a name that has no more of it.
proof fn lemma_strips_one(stem: Seq<char>, end: Seq<char>)
    requires
        end.len() > 0,
        !end.is_suffix_of(stem),
    ensures
        without_end(stem + end, end) == stem,
{
    let name = stem + end;
    lemma_end_of_sum(stem, end);
    lemma_end_is_suffix(name, end);
    lemma_end_is_suffix(stem, end);
    assert(name.take(name.len() - end.len()) =~= stem);
    reveal_with_fuel(without_end, 2);
}

/// The last four characters of a name with an end are those of the end.
proof fn lemma_tail_of_sum(stem: Seq<char>, end: Seq<char>)
    requires
        end.len() >= 4,
    ensures
        forall|other: Seq<char>|
            other.len() >= 4 && (other[other.len() - 1] != end[end.len() - 1] || other[other.len()
                - 2] != end[end.len() - 2] || other[other.len() - 3] != end[end.len() - 3]
                || other[other.len() - 4] != end[end.len() - 4]) ==> !(#[trigger] ends_with(
                stem + end,
                other,
            )),
{
    let name = stem + end;
    assert forall|other: Seq<char>|
        other.len() >= 4 && (other[other.len() - 1] != end[end.len() - 1] || other[other.len() - 2]
            != end[end.len() - 2] || other[other.len() - 3] != end[end.len() - 3]
            || other[other.len() - 4] != end[end.len() - 4]) implies !(#[trigger] ends_with(
        stem + end,
        other,
    )) by {
        if ends_with(name, other) {
            let part = name.skip(name.len() - other.len());
            assert(part[other.len() - 1] == name[name.len() - 1]);
            assert(part[other.len() - 2] == name[name.len() - 2]);
            assert(part[other.len() - 3] == name[name.len() - 3]);
            assert(part[other.len() - 4] == name[name.len() - 4]);
        }
    }
}

/// A name is that of an archive exactly where, in small letters, it has one of the ends
/// of archives.
pub proof fn law_archive_is_known_by_its_end(name: Seq<char>)
    ensures
        names_archive(name) == !is_bare(lowercase_text(name)),
{
    lemma_ends_differ(lowercase_text(name));
}

/// The line ends around a text go, and nothing else does.
pub proof fn law_trimming_takes_line_ends_only(before: Seq<char>, text: Seq<char>, after: Seq<char>)
    requires
        forall|i: int| 0 <= i < before.len() ==> before[i] == '\r' || before[i] == '\n',
        forall|i: int| 0 <= i < after.len() ==> after[i] == '\r' || after[i] == '\n',
        text.len() > 0,
        text[0] != '\r' && text[0] != '\n',
        text.last() != '\r' && text.last() != '\n',
    ensures
        lines_trimmed(before + text + after) == text,
{
    let whole = before + text + after;
    lemma_trims_start(before, text + after);
    assert(whole =~= before + (text + after));
    lemma_trims_end(text, after);
}

proof fn lemma_trims_start(before: Seq<char>, rest: Seq<char>)
    requires
        forall|i: int| 0 <= i < before.len() ==> before[i] == '\r' || before[i] == '\n',
        rest.len() > 0,
        rest[0] != '\r' && rest[0] != '\n',
    ensures
        lines_trimmed_start(before + rest) == rest,
    decreases before.len(),
{
    let whole = before + rest;
    if before.len() == 0 {
        assert(whole =~= rest);
    } else {
        assert(whole[0] == before[0]);
        assert(whole.skip(1) =~= before.skip(1) + rest);
        lemma_trims_start(before.skip(1), rest);
    }
}

proof fn lemma_trims_end(text: Seq<char>, after: Seq<char>)
    requires
        forall|i: int| 0 <= i < after.len() ==> after[i] == '\r' || after[i] == '\n',
        text.len() > 0,
        text.last() != '\r' && text.last() != '\n',
    ensures
        lines_trimmed_end(text + after) == text,
    decreases after.len(),
{
    let whole = text + after;
    if after.len() == 0 {
        assert(whole =~= text);
    } else {
        assert(whole.last() == after.last());
        assert(whole.drop_last() =~= text + after.drop_last());
        lemma_trims_end(text, after.drop_last());
    }
}

/// Of an archiver that failed, all it said is told, first what it printed on errors; the
/// fallback is used only where it said nothing.
pub proof fn law_failed_process_is_quoted(stderr: Seq<char>, lines: Seq<Seq<char>>, fallback: Seq<char>)
    ensures
        error_text(None, Seq::empty(), fallback) == fallback,
        !blank(lines_trimmed(stderr)) ==> error_text(Some(stderr), Seq::empty(), fallback)
            == lines_trimmed(stderr),
        lines.len() > 0 ==> error_text(None, lines, fallback) == joined(lines, "\n"@),
        lines.len() > 0 && !blank(lines_trimmed(stderr)) ==> error_text(
            Some(stderr),
            lines,
            fallback,
        ) == lines_trimmed(stderr) + "\n"@ + joined(lines, "\n"@),
{
    reveal_with_fuel(joined, 3);
    let a = lines_trimmed(stderr);
    let b = joined(lines, "\n"@);
    assert(seq![a].drop_last() =~= Seq::empty());
    assert(Seq::empty().push(b).drop_last() =~= Seq::<Seq<char>>::empty());
    assert(seq![a].push(b).drop_last() =~= seq![a]);
    assert(seq![a, b].drop_last() =~= seq![a]);
}

} // verus!
