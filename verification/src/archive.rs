//! Archives: the names that may be unpacked, what an archiver prints, and the
//! options that it is called with.

use crate::text::{concat2, ends_with_text};
use vstd::prelude::*;
use vstd::utf8::{decode_utf8, valid_utf8};

verus! {

/// The longest entry name that a listing may hold.
pub const MAX_TAR_LIST_LINE_BYTES: usize = 262144;

/// How much of what an archiver prints on errors is kept.
pub const MAX_TAR_ERROR_TAIL_BYTES: usize = 65536;

/// How many error lines are kept, and how much of each.
pub const MAX_ERROR_LINES: usize = 16;

pub const MAX_ERROR_LINE: usize = 4096;

/// Bytes as text, with replacement characters where they are no UTF-8.
pub uninterp spec fn lossy_text(bytes: Seq<u8>) -> Seq<char>;

/// `String::from_utf8_lossy`: the text that the bytes encode; where they are not
/// UTF-8 throughout, the text that the function makes of them.
#[verifier::external_body]
pub(crate) fn text_of_bytes(bytes: &Vec<u8>) -> (r: String)
    ensures
        r@ == lossy_text(bytes@),
        valid_utf8(bytes@) ==> r@ == decode_utf8(bytes@),
{
    String::from_utf8_lossy(bytes).into_owned()
}

/// The place behind the first newline, or the end.
pub open spec fn line_end(bytes: Seq<u8>) -> int
    decreases bytes.len(),
{
    if bytes.len() == 0 {
        0
    } else if bytes[0] == 10 {
        1
    } else {
        1 + line_end(bytes.skip(1))
    }
}

/// What reading a line came to so far.
#[derive(Debug, Clone, Copy, PartialEq, Eq, Structural)]
pub enum LineStep {
    /// The line is complete, or nothing is left; `consumed` bytes were taken.
    Finished { has_line: bool, consumed: usize },
    /// All bytes were taken, and the line goes on.
    More { consumed: usize },
    /// The line is too long.
    TooLong,
}

/// What reading a line comes to with these bytes at hand; none are at hand only
/// at the end.
pub open spec fn line_step(line: Seq<u8>, available: Seq<u8>, max_bytes: int) -> LineStep {
    let n = line_end(available);
    if available.len() == 0 {
        LineStep::Finished { has_line: line.len() > 0, consumed: 0 }
    } else if line.len() + n > max_bytes {
        LineStep::TooLong
    } else if available[n - 1] == 10 {
        LineStep::Finished { has_line: true, consumed: n as usize }
    } else {
        LineStep::More { consumed: n as usize }
    }
}

/// The line with the bytes that were taken.
pub open spec fn line_after(line: Seq<u8>, available: Seq<u8>, max_bytes: int) -> Seq<u8> {
    if available.len() == 0 || line_step(line, available, max_bytes) is TooLong {
        line
    } else {
        line + available.take(line_end(available))
    }
}

proof fn lemma_line_end(bytes: Seq<u8>)
    ensures
        0 <= line_end(bytes) <= bytes.len(),
        bytes.len() > 0 ==> line_end(bytes) > 0,
        forall|i: int| 0 <= i < line_end(bytes) - 1 ==> (#[trigger] bytes[i]) != 10,
        line_end(bytes) < bytes.len() ==> bytes[line_end(bytes) - 1] == 10,
    decreases bytes.len(),
{
    if bytes.len() > 0 && bytes[0] != 10 {
        lemma_line_end(bytes.skip(1));
        assert forall|i: int| 0 <= i < line_end(bytes) - 1 implies (#[trigger] bytes[i]) != 10 by {
            if i > 0 {
                assert(bytes[i] == bytes.skip(1)[i - 1]);
            }
        }
        if line_end(bytes) < bytes.len() {
            assert(bytes[line_end(bytes) - 1] == bytes.skip(1)[line_end(bytes) - 2]);
        }
    }
}

proof fn lemma_line_end_at(bytes: Seq<u8>, at: int)
    requires
        0 <= at <= bytes.len(),
        forall|i: int| 0 <= i < at ==> (#[trigger] bytes[i]) != 10,
    ensures
        at < bytes.len() && bytes[at] == 10 ==> line_end(bytes) == at + 1,
        at == bytes.len() ==> line_end(bytes) == at,
    decreases at,
{
    if at > 0 {
        assert(bytes[0] != 10);
        assert forall|i: int| 0 <= i < at - 1 implies (#[trigger] bytes.skip(1)[i]) != 10 by {
            assert(bytes.skip(1)[i] == bytes[i + 1]);
        }
        lemma_line_end_at(bytes.skip(1), at - 1);
        if at < bytes.len() {
            assert(bytes.skip(1)[at - 1] == bytes[at]);
        }
    }
}

/// The bytes that a line holds already; one that begins holds none.
pub open spec fn line_so_far(line: Seq<u8>, begins: bool) -> Seq<u8> {
    if begins {
        Seq::empty()
    } else {
        line
    }
}

/// Takes the bytes of a line out of those at hand. Where the line begins, what `line`
/// held is dropped first. A line that would grow beyond `max_bytes` is refused and
/// does not grow.
pub fn read_bounded_line(
    line: &mut Vec<u8>,
    begins: bool,
    available: &Vec<u8>,
    max_bytes: usize,
) -> (r: LineStep)
    ensures
        r == line_step(line_so_far(old(line)@, begins), available@, max_bytes as int),
        final(line)@ == line_after(
            line_so_far(old(line)@, begins),
            available@,
            max_bytes as int,
        ),
{
    if begins {
        line.clear();
    }
    if available.len() == 0 {
        return LineStep::Finished { has_line: line.len() > 0, consumed: 0 };
    }
    let mut at: usize = 0;
    while at < available.len() && available[at] != 10
        invariant
            at <= available@.len(),
            forall|i: int| 0 <= i < at ==> (#[trigger] available@[i]) != 10,
        decreases available@.len() - at,
    {
        at += 1;
    }
    proof {
        lemma_line_end_at(available@, at as int);
    }
    let found = at < available.len();
    let n: usize = if found { at + 1 } else { at };
    let length: usize = line.len();
    if max_bytes < length || n > max_bytes - length {
        return LineStep::TooLong;
    }
    let mut k: usize = 0;
    let ghost before = line@;
    while k < n
        invariant
            k <= n <= available@.len(),
            line@ == before + available@.take(k as int),
        decreases n - k,
    {
        line.push(available[k]);
        assert(available@.take(k + 1) =~= available@.take(k as int).push(available@[k as int]));
        assert(before + available@.take(k + 1) =~= (before + available@.take(k as int)).push(
            available@[k as int],
        ));
        k += 1;
    }
    if found {
        LineStep::Finished { has_line: true, consumed: n }
    } else {
        assert(available@[n - 1] != 10);
        LineStep::More { consumed: n }
    }
}

/// A line never grows beyond its bound.
pub proof fn law_line_stays_bounded(line: Seq<u8>, available: Seq<u8>, max_bytes: int)
    requires
        line.len() <= max_bytes,
    ensures
        line_after(line, available, max_bytes).len() <= max_bytes,
{
    lemma_line_end(available);
}

/// In what pieces the bytes come does not matter: a line that goes on with the
/// next piece is the line that both pieces would have given at once.
pub proof fn law_pieces_do_not_matter(line: Seq<u8>, a: Seq<u8>, b: Seq<u8>, max_bytes: int)
    requires
        line_step(line, a, max_bytes) is More,
        b.len() > 0,
        a.len() + b.len() <= usize::MAX,
    ensures
        ({
            let next = line_after(line, a, max_bytes);
            let whole = line_step(line, a + b, max_bytes);
            let step = line_step(next, b, max_bytes);
            &&& line_after(next, b, max_bytes) == if step is TooLong {
                next
            } else {
                line_after(line, a + b, max_bytes)
            }
            &&& match step {
                LineStep::TooLong => whole is TooLong,
                LineStep::Finished { has_line, consumed } => whole == (LineStep::Finished {
                    has_line,
                    consumed: (a.len() + consumed) as usize,
                }),
                LineStep::More { consumed } => whole == (LineStep::More {
                    consumed: (a.len() + consumed) as usize,
                }),
            }
        }),
{
    let next = line_after(line, a, max_bytes);
    lemma_line_end(a);
    lemma_line_end(b);
    assert(line_end(a) == a.len());
    assert(a.last() != 10);
    assert(a.take(a.len() as int) =~= a);
    let both = a + b;
    let n = line_end(b);
    assert forall|i: int| 0 <= i < a.len() + n - 1 implies (#[trigger] both[i]) != 10 by {
        if i < a.len() {
            assert(both[i] == a[i]);
        } else {
            assert(both[i] == b[i - a.len()]);
        }
    }
    assert(both[a.len() + n - 1] == b[n - 1]);
    if b[n - 1] == 10 {
        lemma_line_end_at(both, a.len() + n - 1);
    } else {
        assert(n == b.len());
        assert forall|i: int| 0 <= i < both.len() implies (#[trigger] both[i]) != 10 by {
            if i == a.len() + n - 1 {
                assert(both[i] == b[n - 1]);
            }
        }
        lemma_line_end_at(both, both.len() as int);
    }
    assert(line_end(both) == a.len() + n);
    assert(both.take(a.len() + n) =~= a + b.take(n));
    assert(line + both.take(a.len() + n) =~= (line + a) + b.take(n));
}

/// The last `max` of the bytes.
pub open spec fn last_bytes(bytes: Seq<u8>, max: int) -> Seq<u8> {
    if bytes.len() <= max {
        bytes
    } else {
        bytes.skip(bytes.len() - max)
    }
}

/// Adds bytes to a tail that keeps the last `max_bytes`.
pub fn push_tail(tail: &mut Vec<u8>, chunk: &Vec<u8>, max_bytes: usize)
    requires
        old(tail)@.len() <= max_bytes,
    ensures
        final(tail)@ == last_bytes(old(tail)@ + chunk@, max_bytes as int),
        final(tail)@.len() <= max_bytes,
{
    let ghost before = tail@;
    let count: usize = chunk.len();
    let held: usize = tail.len();
    let ghost whole = before + chunk@;
    let room: usize = if count >= max_bytes { 0 } else { max_bytes - count };
    let drop: usize = if held > room { held - room } else { 0 };
    let first: usize = if count > max_bytes { count - max_bytes } else { 0 };
    let mut kept: Vec<u8> = Vec::new();
    let mut i: usize = drop;
    while i < held
        invariant
            drop <= i <= held,
            tail@ == before,
            held == before.len(),
            kept@ == before.subrange(drop as int, i as int),
        decreases held - i,
    {
        kept.push(tail[i]);
        assert(before.subrange(drop as int, i + 1) =~= before.subrange(drop as int, i as int).push(
            before[i as int],
        ));
        i += 1;
    }
    let ghost head = before.subrange(drop as int, held as int);
    assert(chunk@.subrange(first as int, first as int) =~= Seq::<u8>::empty());
    assert(head + chunk@.subrange(first as int, first as int) =~= head);
    let mut k: usize = first;
    while k < count
        invariant
            first <= k <= count,
            count == chunk@.len(),
            kept@ == head + chunk@.subrange(first as int, k as int),
        decreases count - k,
    {
        kept.push(chunk[k]);
        assert(chunk@.subrange(first as int, k + 1) =~= chunk@.subrange(
            first as int,
            k as int,
        ).push(chunk@[k as int]));
        assert(head + chunk@.subrange(first as int, k + 1) =~= (head + chunk@.subrange(
            first as int,
            k as int,
        )).push(chunk@[k as int]));
        k += 1;
    }
    assert(kept@ =~= last_bytes(whole, max_bytes as int));
    *tail = kept;
}

/// The bytes of all chunks, in order.
pub open spec fn all_bytes(chunks: Seq<Vec<u8>>) -> Seq<u8>
    decreases chunks.len(),
{
    if chunks.len() == 0 {
        Seq::empty()
    } else {
        all_bytes(chunks.drop_last()) + chunks.last()@
    }
}

/// The end of what was read, as text: the last `max_bytes` of all chunks.
pub fn read_bounded_tail(chunks: &Vec<Vec<u8>>, max_bytes: usize) -> (r: String)
    ensures
        r@ == lossy_text(last_bytes(all_bytes(chunks@), max_bytes as int)),
        valid_utf8(last_bytes(all_bytes(chunks@), max_bytes as int)) ==> r@ == decode_utf8(
            last_bytes(all_bytes(chunks@), max_bytes as int),
        ),
{
    let mut tail: Vec<u8> = Vec::new();
    let mut i: usize = 0;
    assert(chunks@.take(0) =~= Seq::<Vec<u8>>::empty());
    while i < chunks.len()
        invariant
            i <= chunks@.len(),
            tail@ == last_bytes(all_bytes(chunks@.take(i as int)), max_bytes as int),
            tail@.len() <= max_bytes,
        decreases chunks@.len() - i,
    {
        push_tail(&mut tail, &chunks[i], max_bytes);
        proof {
            assert(chunks@.take(i + 1).drop_last() =~= chunks@.take(i as int));
            law_tail_is_the_end(
                all_bytes(chunks@.take(i as int)),
                chunks@[i as int]@,
                max_bytes as int,
            );
        }
        i += 1;
    }
    assert(chunks@.take(i as int) =~= chunks@);
    text_of_bytes(&tail)
}

/// A tail that is kept piece by piece is the end of everything that was read.
pub proof fn law_tail_is_the_end(before: Seq<u8>, chunk: Seq<u8>, max: int)
    requires
        0 <= max,
    ensures
        last_bytes(last_bytes(before, max) + chunk, max) == last_bytes(before + chunk, max),
{
    assert(last_bytes(last_bytes(before, max) + chunk, max) =~= last_bytes(before + chunk, max));
}

/// Whether a byte separates the components of an archived path.
pub open spec fn is_separator(b: u8) -> bool {
    b == 47 || b == 92
}

/// Whether `..` stands as a component at `at`.
pub open spec fn dot_dot_at(entry: Seq<u8>, at: int) -> bool {
    &&& 0 <= at && at + 2 <= entry.len()
    &&& entry[at] == 46 && entry[at + 1] == 46
    &&& at == 0 || is_separator(entry[at - 1])
    &&& at + 2 == entry.len() || is_separator(entry[at + 2])
}

/// Whether one of the components is `..`.
pub open spec fn climbs(entry: Seq<u8>) -> bool {
    exists|at: int| #[trigger] dot_dot_at(entry, at)
}

/// Whether an archived path is absolute, on any system.
pub open spec fn is_absolute(entry: Seq<u8>) -> bool {
    ||| entry.len() > 0 && is_separator(entry[0])
    ||| entry.len() >= 2 && is_letter(entry[0]) && entry[1] == 58
}

pub open spec fn is_letter(b: u8) -> bool {
    65 <= b <= 90 || 97 <= b <= 122
}

/// Refuses an archived path that leads out of the directory that the archive is
/// unpacked into.
pub fn validate_archive_entry_path(entry: &Vec<u8>) -> (r: Result<(), String>)
    ensures
        match r {
            Ok(_) => entry@.len() > 0 && !is_absolute(entry@) && !climbs(entry@),
            Err(e) => if entry@.len() == 0 {
                e@ == "Archive contains an empty entry name"@
            } else if is_absolute(entry@) {
                e@ == "Archive contains an absolute path: "@ + lossy_text(entry@)
            } else {
                climbs(entry@) && e@ == "Archive contains a parent-directory path: "@ + lossy_text(
                    entry@,
                )
            },
        },
        r is Err && entry@.len() > 0 && valid_utf8(entry@) ==> lossy_text(entry@) == decode_utf8(
            entry@,
        ),
{
    let n: usize = entry.len();
    if n == 0 {
        return Err("Archive contains an empty entry name".to_owned());
    }
    let first: u8 = entry[0];
    let letter = (65 <= first && first <= 90) || (97 <= first && first <= 122);
    if first == 47 || first == 92 || (n >= 2 && letter && entry[1] == 58) {
        let text = text_of_bytes(entry);
        return Err(concat2("Archive contains an absolute path: ", text.as_str()));
    }
    let mut at: usize = 0;
    while at < n
        invariant
            at <= n,
            n == entry@.len(),
            n > 0,
            !is_absolute(entry@),
            forall|k: int| 0 <= k < at ==> !(#[trigger] dot_dot_at(entry@, k)),
        decreases n - at,
    {
        if entry[at] == 46 && n - at >= 2 && entry[at + 1] == 46 {
            let begins = at == 0 || entry[at - 1] == 47 || entry[at - 1] == 92;
            let ends = n - at == 2 || entry[at + 2] == 47 || entry[at + 2] == 92;
            if begins && ends {
                assert(dot_dot_at(entry@, at as int));
                let text = text_of_bytes(entry);
                return Err(concat2("Archive contains a parent-directory path: ", text.as_str()));
            }
        }
        assert(!dot_dot_at(entry@, at as int));
        at += 1;
    }
    assert forall|k: int| !(#[trigger] dot_dot_at(entry@, k)) by {
        if 0 <= k < n {
        }
    }
    Ok(())
}

/// A name as the ends of archive names are told from each other.
pub open spec fn ends_with(name: Seq<char>, end: Seq<char>) -> bool {
    name.len() >= end.len() && name.skip(name.len() - end.len()) == end
}

/// How an archive is compressed, as its name tells.
#[derive(Debug, Clone, Copy, PartialEq, Eq, Structural)]
pub enum Compression {
    Gzip,
    Bzip2,
    Xz,
    Plain,
}

/// How an archive is compressed, as its name tells.
pub open spec fn compression_of(name: Seq<char>) -> Compression {
    if ends_with(name, ".tar.gz"@) || ends_with(name, ".tgz"@) {
        Compression::Gzip
    } else if ends_with(name, ".tar.bz2"@) || ends_with(name, ".tbz2"@) {
        Compression::Bzip2
    } else if ends_with(name, ".tar.xz"@) || ends_with(name, ".txz"@) {
        Compression::Xz
    } else {
        Compression::Plain
    }
}

/// Whether a name has this end.
pub fn has_end(name: &str, end: &str) -> (r: bool)
    ensures
        r == ends_with(name@, end@),
{
    let r = ends_with_text(name, end);
    proof {
        if name@.len() >= end@.len() {
            let at = name@.len() - end@.len();
            assert(name@.subrange(at, at + end@.len()) =~= name@.skip(at));
        }
    }
    r
}

/// How an archive is compressed, as its name tells.
pub fn archive_compression(name: &str) -> (r: Compression)
    ensures
        r == compression_of(name@),
{
    if has_end(name, ".tar.gz") || has_end(name, ".tgz") {
        Compression::Gzip
    } else if has_end(name, ".tar.bz2") || has_end(name, ".tbz2") {
        Compression::Bzip2
    } else if has_end(name, ".tar.xz") || has_end(name, ".txz") {
        Compression::Xz
    } else {
        Compression::Plain
    }
}

/// The options that unpack an archive.
pub open spec fn extraction_options(name: Seq<char>) -> Seq<char> {
    match compression_of(name) {
        Compression::Gzip => "xvfz"@,
        Compression::Bzip2 => "xvfj"@,
        Compression::Xz => "xvfJ"@,
        Compression::Plain => "xvf"@,
    }
}

/// The options that unpack an archive. They never ask for the permissions that
/// the archive holds.
pub fn tar_extraction_options(archive_name: &str) -> (r: &'static str)
    ensures
        r@ == extraction_options(archive_name@),
        !r@.contains('p'),
{
    proof {
        law_extraction_keeps_no_permissions(archive_name@);
    }
    match archive_compression(archive_name) {
        Compression::Gzip => "xvfz",
        Compression::Bzip2 => "xvfj",
        Compression::Xz => "xvfJ",
        Compression::Plain => "xvf",
    }
}

/// Unpacking never asks for the permissions that the archive holds.
pub proof fn law_extraction_keeps_no_permissions(name: Seq<char>)
    ensures
        !extraction_options(name).contains('p'),
{
    reveal_strlit("xvfz");
    reveal_strlit("xvfj");
    reveal_strlit("xvfJ");
    reveal_strlit("xvf");
}

/// The options that list an archive.
pub open spec fn listing_options(name: Seq<char>) -> Seq<char> {
    match compression_of(name) {
        Compression::Gzip => "tfz"@,
        Compression::Bzip2 => "tfj"@,
        Compression::Xz => "tfJ"@,
        Compression::Plain => "tf"@,
    }
}

/// The options that list an archive.
pub fn tar_listing_options(archive_name: &str) -> (r: &'static str)
    ensures
        r@ == listing_options(archive_name@),
{
    match archive_compression(archive_name) {
        Compression::Gzip => "tfz",
        Compression::Bzip2 => "tfj",
        Compression::Xz => "tfJ",
        Compression::Plain => "tf",
    }
}

/// The options that make an archive.
pub open spec fn creation_options(name: Seq<char>) -> Seq<char> {
    match compression_of(name) {
        Compression::Gzip => "cvfpz"@,
        Compression::Bzip2 => "cvfpj"@,
        Compression::Xz => "cvfpJ"@,
        Compression::Plain => "cvfp"@,
    }
}

/// The options that make an archive.
pub fn tar_creation_options(archive_name: &str) -> (r: &'static str)
    ensures
        r@ == creation_options(archive_name@),
{
    match archive_compression(archive_name) {
        Compression::Gzip => "cvfpz",
        Compression::Bzip2 => "cvfpj",
        Compression::Xz => "cvfpJ",
        Compression::Plain => "cvfp",
    }
}

/// Packing, listing and unpacking take the compression from the end of the name and from
/// nothing else: gzip for `.tar.gz` and `.tgz`, bzip2 for `.tar.bz2` and `.tbz2`, xz for
/// `.tar.xz` and `.txz`, and none for any other name.
pub proof fn law_end_of_name_tells_the_compression(name: Seq<char>)
    ensures
        ({
            let gzip = ".tar.gz"@.is_suffix_of(name) || ".tgz"@.is_suffix_of(name);
            let bzip2 = ".tar.bz2"@.is_suffix_of(name) || ".tbz2"@.is_suffix_of(name);
            let xz = ".tar.xz"@.is_suffix_of(name) || ".txz"@.is_suffix_of(name);
            &&& extraction_options(name).contains('z') == gzip
            &&& extraction_options(name).contains('j') == bzip2
            &&& extraction_options(name).contains('J') == xz
            &&& listing_options(name).contains('z') == gzip
            &&& listing_options(name).contains('j') == bzip2
            &&& listing_options(name).contains('J') == xz
            &&& creation_options(name).contains('z') == gzip
            &&& creation_options(name).contains('j') == bzip2
            &&& creation_options(name).contains('J') == xz
        }),
{
    lemma_option_letters();
    lemma_ends_differ(name);
    lemma_letters(extraction_options(name), 'z');
    lemma_letters(extraction_options(name), 'j');
    lemma_letters(extraction_options(name), 'J');
    lemma_letters(listing_options(name), 'z');
    lemma_letters(listing_options(name), 'j');
    lemma_letters(listing_options(name), 'J');
    lemma_letters(creation_options(name), 'z');
    lemma_letters(creation_options(name), 'j');
    lemma_letters(creation_options(name), 'J');
}

/// The first letter says what is done with the archive, and the name of the archive is
/// always given; only packing asks for permissions.
pub proof fn law_first_option_tells_the_action(name: Seq<char>)
    ensures
        extraction_options(name)[0] == 'x',
        listing_options(name)[0] == 't',
        creation_options(name)[0] == 'c',
        extraction_options(name).contains('f'),
        listing_options(name).contains('f'),
        creation_options(name).contains('f'),
        creation_options(name).contains('p'),
        !extraction_options(name).contains('p'),
        !listing_options(name).contains('p'),
        extraction_options(name).contains('v'),
        !listing_options(name).contains('v'),
        creation_options(name).contains('v'),
{
    lemma_option_letters();
    lemma_letters(extraction_options(name), 'f');
    lemma_letters(extraction_options(name), 'p');
    lemma_letters(extraction_options(name), 'v');
    lemma_letters(listing_options(name), 'f');
    lemma_letters(listing_options(name), 'p');
    lemma_letters(listing_options(name), 'v');
    lemma_letters(creation_options(name), 'f');
    lemma_letters(creation_options(name), 'p');
    lemma_letters(creation_options(name), 'v');
}

/// Whatever stands before the end, the end alone chooses the options.
pub proof fn law_options_of_each_end(stem: Seq<char>)
    ensures
        extraction_options(stem + ".tar.gz"@) == "xvfz"@,
        extraction_options(stem + ".tgz"@) == "xvfz"@,
        extraction_options(stem + ".tar.bz2"@) == "xvfj"@,
        extraction_options(stem + ".tbz2"@) == "xvfj"@,
        extraction_options(stem + ".tar.xz"@) == "xvfJ"@,
        extraction_options(stem + ".txz"@) == "xvfJ"@,
        extraction_options(stem + ".tar"@) == "xvf"@,
        listing_options(stem + ".tar.gz"@) == "tfz"@,
        listing_options(stem + ".tgz"@) == "tfz"@,
        listing_options(stem + ".tar.bz2"@) == "tfj"@,
        listing_options(stem + ".tbz2"@) == "tfj"@,
        listing_options(stem + ".tar.xz"@) == "tfJ"@,
        listing_options(stem + ".txz"@) == "tfJ"@,
        listing_options(stem + ".tar"@) == "tf"@,
        creation_options(stem + ".tar.gz"@) == "cvfpz"@,
        creation_options(stem + ".tgz"@) == "cvfpz"@,
        creation_options(stem + ".tar.bz2"@) == "cvfpj"@,
        creation_options(stem + ".tbz2"@) == "cvfpj"@,
        creation_options(stem + ".tar.xz"@) == "cvfpJ"@,
        creation_options(stem + ".txz"@) == "cvfpJ"@,
        creation_options(stem + ".tar"@) == "cvfp"@,
{
    lemma_end_of_sum(stem, ".tar.gz"@);
    lemma_end_of_sum(stem, ".tgz"@);
    lemma_end_of_sum(stem, ".tar.bz2"@);
    lemma_end_of_sum(stem, ".tbz2"@);
    lemma_end_of_sum(stem, ".tar.xz"@);
    lemma_end_of_sum(stem, ".txz"@);
    lemma_end_of_sum(stem, ".tar"@);
    lemma_ends_differ(stem + ".tar.gz"@);
    lemma_ends_differ(stem + ".tgz"@);
    lemma_ends_differ(stem + ".tar.bz2"@);
    lemma_ends_differ(stem + ".tbz2"@);
    lemma_ends_differ(stem + ".tar.xz"@);
    lemma_ends_differ(stem + ".txz"@);
    lemma_ends_differ(stem + ".tar"@);
}

pub proof fn lemma_end_of_sum(stem: Seq<char>, end: Seq<char>)
    ensures
        end.is_suffix_of(stem + end),
{
    let name = stem + end;
    assert(name.subrange(name.len() - end.len(), name.len() as int) =~= end);
}

/// A name has an end where the end is a suffix of it.
pub proof fn lemma_end_is_suffix(name: Seq<char>, end: Seq<char>)
    ensures
        ends_with(name, end) == end.is_suffix_of(name),
{
    if name.len() >= end.len() {
        let at = name.len() - end.len();
        assert(name.skip(at) =~= name.subrange(at, name.len() as int));
    }
}

/// Two ends that differ in their last or last but one character are not both on a name.
proof fn lemma_last_characters(name: Seq<char>, end: Seq<char>)
    requires
        end.len() >= 2,
        end.is_suffix_of(name),
    ensures
        name.len() >= 2,
        name[name.len() - 1] == end[end.len() - 1],
        name[name.len() - 2] == end[end.len() - 2],
{
    let part = name.subrange(name.len() - end.len(), name.len() as int);
    assert(part[end.len() - 1] == name[name.len() - 1]);
    assert(part[end.len() - 2] == name[name.len() - 2]);
}

/// No name has the ends of two compressions, and a plain one has none of them.
pub proof fn lemma_ends_differ(name: Seq<char>)
    ensures
        ({
            let gzip = ".tar.gz"@.is_suffix_of(name) || ".tgz"@.is_suffix_of(name);
            let bzip2 = ".tar.bz2"@.is_suffix_of(name) || ".tbz2"@.is_suffix_of(name);
            let xz = ".tar.xz"@.is_suffix_of(name) || ".txz"@.is_suffix_of(name);
            &&& !(gzip && bzip2)
            &&& !(gzip && xz)
            &&& !(bzip2 && xz)
            &&& ".tar"@.is_suffix_of(name) ==> !gzip && !bzip2 && !xz
            &&& ends_with(name, ".tar.gz"@) == ".tar.gz"@.is_suffix_of(name)
            &&& ends_with(name, ".tgz"@) == ".tgz"@.is_suffix_of(name)
            &&& ends_with(name, ".tar.bz2"@) == ".tar.bz2"@.is_suffix_of(name)
            &&& ends_with(name, ".tbz2"@) == ".tbz2"@.is_suffix_of(name)
            &&& ends_with(name, ".tar.xz"@) == ".tar.xz"@.is_suffix_of(name)
            &&& ends_with(name, ".txz"@) == ".txz"@.is_suffix_of(name)
            &&& ends_with(name, ".tar"@) == ".tar"@.is_suffix_of(name)
        }),
{
    reveal_strlit(".tar.gz");
    reveal_strlit(".tgz");
    reveal_strlit(".tar.bz2");
    reveal_strlit(".tbz2");
    reveal_strlit(".tar.xz");
    reveal_strlit(".txz");
    reveal_strlit(".tar");
    lemma_end_is_suffix(name, ".tar.gz"@);
    lemma_end_is_suffix(name, ".tgz"@);
    lemma_end_is_suffix(name, ".tar.bz2"@);
    lemma_end_is_suffix(name, ".tbz2"@);
    lemma_end_is_suffix(name, ".tar.xz"@);
    lemma_end_is_suffix(name, ".txz"@);
    lemma_end_is_suffix(name, ".tar"@);
    if ".tar.gz"@.is_suffix_of(name) {
        lemma_last_characters(name, ".tar.gz"@);
    }
    if ".tgz"@.is_suffix_of(name) {
        lemma_last_characters(name, ".tgz"@);
    }
    if ".tar.bz2"@.is_suffix_of(name) {
        lemma_last_characters(name, ".tar.bz2"@);
    }
    if ".tbz2"@.is_suffix_of(name) {
        lemma_last_characters(name, ".tbz2"@);
    }
    if ".tar.xz"@.is_suffix_of(name) {
        lemma_last_characters(name, ".tar.xz"@);
    }
    if ".txz"@.is_suffix_of(name) {
        lemma_last_characters(name, ".txz"@);
    }
    if ".tar"@.is_suffix_of(name) {
        lemma_last_characters(name, ".tar"@);
    }
}

/// The letters of each set of options.
proof fn lemma_option_letters()
    ensures
        "xvfz"@ == seq!['x', 'v', 'f', 'z'],
        "xvfj"@ == seq!['x', 'v', 'f', 'j'],
        "xvfJ"@ == seq!['x', 'v', 'f', 'J'],
        "xvf"@ == seq!['x', 'v', 'f'],
        "tfz"@ == seq!['t', 'f', 'z'],
        "tfj"@ == seq!['t', 'f', 'j'],
        "tfJ"@ == seq!['t', 'f', 'J'],
        "tf"@ == seq!['t', 'f'],
        "cvfpz"@ == seq!['c', 'v', 'f', 'p', 'z'],
        "cvfpj"@ == seq!['c', 'v', 'f', 'p', 'j'],
        "cvfpJ"@ == seq!['c', 'v', 'f', 'p', 'J'],
        "cvfp"@ == seq!['c', 'v', 'f', 'p'],
{
    reveal_strlit("xvfz");
    reveal_strlit("xvfj");
    reveal_strlit("xvfJ");
    reveal_strlit("xvf");
    reveal_strlit("tfz");
    reveal_strlit("tfj");
    reveal_strlit("tfJ");
    reveal_strlit("tf");
    reveal_strlit("cvfpz");
    reveal_strlit("cvfpj");
    reveal_strlit("cvfpJ");
    reveal_strlit("cvfp");
}

/// The letters of a short text, one by one.
proof fn lemma_letters(s: Seq<char>, x: char)
    requires
        s.len() <= 5,
    ensures
        s.contains(x) <==> {
            ||| s.len() > 0 && s[0] == x
            ||| s.len() > 1 && s[1] == x
            ||| s.len() > 2 && s[2] == x
            ||| s.len() > 3 && s[3] == x
            ||| s.len() > 4 && s[4] == x
        },
{
    if s.contains(x) {
        let i = choose|i: int| 0 <= i < s.len() && s[i] == x;
        assert(s[i] == x);
    }
}

/// A path with a component `..` climbs, wherever it stands and whichever separator is used.
pub proof fn law_parent_component_climbs(before: Seq<u8>, after: Seq<u8>)
    requires
        before.len() == 0 || before.last() == '/' as u8 || before.last() == '\\' as u8,
        after.len() == 0 || after[0] == '/' as u8 || after[0] == '\\' as u8,
    ensures
        climbs(before + seq!['.' as u8, '.' as u8] + after),
{
    let entry = before + seq!['.' as u8, '.' as u8] + after;
    let at = before.len() as int;
    assert(entry[at] == '.' as u8 && entry[at + 1] == '.' as u8);
    if at > 0 {
        assert(entry[at - 1] == before.last());
    }
    if after.len() > 0 {
        assert(entry[at + 2] == after[0]);
    }
    assert(dot_dot_at(entry, at));
}

/// A path without two dots in a row does not climb, nor does one whose dots are part of a
/// longer component.
pub proof fn law_other_components_do_not_climb(entry: Seq<u8>)
    requires
        forall|i: int|
            0 <= i < entry.len() - 1 && (#[trigger] entry[i]) == '.' as u8 && entry[i + 1]
                == '.' as u8 ==> {
                ||| i > 0 && entry[i - 1] != '/' as u8 && entry[i - 1] != '\\' as u8
                ||| i + 2 < entry.len() && entry[i + 2] != '/' as u8 && entry[i + 2] != '\\' as u8
            },
    ensures
        !climbs(entry),
{
    assert forall|at: int| !(#[trigger] dot_dot_at(entry, at)) by {
        if dot_dot_at(entry, at) {
            assert(entry[at] == '.' as u8);
        }
    }
}

/// A path is absolute exactly where it begins with a separator or with a drive letter.
pub proof fn law_absolute_paths(entry: Seq<u8>)
    requires
        entry.len() >= 2,
    ensures
        entry[0] == '/' as u8 ==> is_absolute(entry),
        entry[0] == '\\' as u8 ==> is_absolute(entry),
        'A' as u8 <= entry[0] <= 'Z' as u8 && entry[1] == ':' as u8 ==> is_absolute(entry),
        'a' as u8 <= entry[0] <= 'z' as u8 && entry[1] == ':' as u8 ==> is_absolute(entry),
        entry[0] != '/' as u8 && entry[0] != '\\' as u8 && entry[1] != ':' as u8 ==> !is_absolute(
            entry,
        ),
        entry[0] == '.' as u8 ==> !is_absolute(entry),
{
}

/// A line ends behind its newline, and what follows is left for the next one.
pub proof fn law_line_ends_behind_its_newline(
    line: Seq<u8>,
    part: Seq<u8>,
    rest: Seq<u8>,
    max_bytes: int,
)
    requires
        forall|i: int| 0 <= i < part.len() ==> part[i] != '\n' as u8,
        line.len() + part.len() + 1 <= max_bytes,
        max_bytes <= usize::MAX,
    ensures
        ({
            let available = part + seq!['\n' as u8] + rest;
            &&& line_step(line, available, max_bytes) == LineStep::Finished {
                has_line: true,
                consumed: (part.len() + 1) as usize,
            }
            &&& line_after(line, available, max_bytes) == line + part + seq!['\n' as u8]
        }),
{
    let available = part + seq!['\n' as u8] + rest;
    let at = part.len() as int;
    assert forall|i: int| 0 <= i < at implies (#[trigger] available[i]) != 10 by {
        assert(available[i] == part[i]);
    }
    assert(available[at] == 10);
    lemma_line_end_at(available, at);
    assert(available.take(at + 1) =~= part + seq!['\n' as u8]);
    assert(line + available.take(at + 1) =~= line + part + seq!['\n' as u8]);
}

/// A line that would grow beyond its bound is refused and does not grow.
pub proof fn law_long_line_is_refused(line: Seq<u8>, part: Seq<u8>, max_bytes: int)
    requires
        part.len() > 0,
        forall|i: int| 0 <= i < part.len() ==> part[i] != '\n' as u8,
    ensures
        line.len() + part.len() > max_bytes <==> line_step(line, part, max_bytes) is TooLong,
        line.len() + part.len() > max_bytes ==> line_after(line, part, max_bytes) == line,
        line.len() + part.len() <= max_bytes ==> line_after(line, part, max_bytes) == line + part,
{
    assert forall|i: int| 0 <= i < part.len() implies (#[trigger] part[i]) != 10 by {}
    lemma_line_end_at(part, part.len() as int);
    assert(part.take(part.len() as int) =~= part);
}

} // verus!
