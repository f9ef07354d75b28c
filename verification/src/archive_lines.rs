//! What an archiver prints while it works: names of files that are done, and
//! error lines.

use crate::archive::{
    climbs, is_absolute, lossy_text, text_of_bytes, validate_archive_entry_path, MAX_ERROR_LINE,
    MAX_ERROR_LINES,
};
use crate::archive_names::{error_text, process_error_message};
use crate::progress::{message_views, MessageView, ProgressMessage};
use crate::text::{
    chars_of, concat2, concat3, occurs_at, same_text, slice_of, spaces_trimmed_end, stands_at,
    starts_with_text, string_of, trim_spaces_end, views,
};
use vstd::prelude::*;
use vstd::utf8::{decode_utf8, valid_utf8};

verus! {

/// The size of a file, by the name that the archiver prints.
#[derive(Debug)]
pub struct SizeEntry {
    pub path: String,
    pub size: u64,
}

/// The sizes of the files that go into an archive. No name occurs twice.
#[derive(Debug)]
pub struct TarSizes {
    pub entries: Vec<SizeEntry>,
    pub total: u64,
}

/// The size that is kept under a name.
pub open spec fn size_in(entries: Seq<SizeEntry>, path: Seq<char>) -> Option<u64>
    decreases entries.len(),
{
    if entries.len() == 0 {
        None
    } else if entries.last().path@ == path {
        Some(entries.last().size)
    } else {
        size_in(entries.drop_last(), path)
    }
}

/// Whether no name occurs twice.
pub open spec fn distinct(entries: Seq<SizeEntry>) -> bool {
    forall|i: int, j: int|
        0 <= i < j < entries.len() ==> (#[trigger] entries[i]).path@ != (#[trigger] entries[j]).path@
}

proof fn lemma_size_in_none(entries: Seq<SizeEntry>, path: Seq<char>)
    requires
        forall|i: int| 0 <= i < entries.len() ==> (#[trigger] entries[i]).path@ != path,
    ensures
        size_in(entries, path) is None,
    decreases entries.len(),
{
    if entries.len() > 0 {
        assert(entries[entries.len() - 1].path@ != path);
        assert forall|i: int| 0 <= i < entries.drop_last().len() implies (#[trigger]
        entries.drop_last()[i]).path@ != path by {
            assert(entries.drop_last()[i] == entries[i]);
        }
        lemma_size_in_none(entries.drop_last(), path);
    }
}

proof fn lemma_size_in_update(entries: Seq<SizeEntry>, at: int, entry: SizeEntry, path: Seq<char>)
    requires
        0 <= at < entries.len(),
        entries[at].path@ == entry.path@,
        distinct(entries),
    ensures
        size_in(entries.update(at, entry), path) == if path == entry.path@ {
            Some(entry.size)
        } else {
            size_in(entries, path)
        },
    decreases entries.len(),
{
    let after = entries.update(at, entry);
    let last = entries.len() - 1;
    if at == last {
        assert(after.drop_last() =~= entries.drop_last());
    } else {
        assert(after.drop_last() =~= entries.drop_last().update(at, entry));
        assert(entries[at].path@ != entries[last].path@);
        assert forall|i: int, j: int| 0 <= i < j < entries.drop_last().len() implies (#[trigger]
        entries.drop_last()[i]).path@ != (#[trigger] entries.drop_last()[j]).path@ by {
            assert(entries.drop_last()[i] == entries[i]);
            assert(entries.drop_last()[j] == entries[j]);
        }
        lemma_size_in_update(entries.drop_last(), at, entry, path);
    }
}

impl TarSizes {
    /// No name occurs twice.
    pub open spec fn wf(self) -> bool {
        distinct(self.entries@)
    }

    /// No sizes.
    pub fn new() -> (r: TarSizes)
        ensures
            r.wf(),
            r.entries@.len() == 0,
            r.total == 0,
    {
        TarSizes { entries: Vec::new(), total: 0 }
    }

    fn place_of(&self, path: &str) -> (r: Option<usize>)
        ensures
            match r {
                Some(i) => i < self.entries@.len() && self.entries@[i as int].path@ == path@,
                None => forall|i: int|
                    0 <= i < self.entries@.len() ==> (#[trigger] self.entries@[i]).path@ != path@,
            },
    {
        let mut i: usize = 0;
        while i < self.entries.len()
            invariant
                i <= self.entries@.len(),
                forall|k: int| 0 <= k < i ==> (#[trigger] self.entries@[k]).path@ != path@,
            decreases self.entries@.len() - i,
        {
            if same_text(self.entries[i].path.as_str(), path) {
                return Some(i);
            }
            i += 1;
        }
        None
    }

    /// Keeps the size of a file, or none of a directory, under a name; files count
    /// toward the total.
    pub fn record(&mut self, path: String, is_dir: bool, size: u64)
        requires
            old(self).wf(),
            is_dir || old(self).total + size <= u64::MAX,
        ensures
            final(self).wf(),
            final(self).total == if is_dir { old(self).total as int } else { old(self).total + size },
            forall|p: Seq<char>| #[trigger]
                size_in(final(self).entries@, p) == if p == path@ {
                    Some(if is_dir { 0 } else { size })
                } else {
                    size_in(old(self).entries@, p)
                },
            final(self).entries@.len() == old(self).entries@.len() + if size_in(
                old(self).entries@,
                path@,
            ) is None {
                1int
            } else {
                0int
            },
    {
        let kept: u64 = if is_dir { 0 } else { size };
        if !is_dir {
            self.total = self.total + size;
        }
        let ghost before = self.entries@;
        match self.place_of(path.as_str()) {
            Some(i) => {
                proof {
                    lemma_size_in_update(before, i as int, before[i as int], path@);
                    assert(before.update(i as int, before[i as int]) =~= before);
                    assert forall|p: Seq<char>| #[trigger]
                        size_in(
                            before.update(i as int, SizeEntry { path, size: kept }),
                            p,
                        ) == if p == path@ {
                            Some(kept)
                        } else {
                            size_in(before, p)
                        } by {
                        lemma_size_in_update(
                            before,
                            i as int,
                            SizeEntry { path, size: kept },
                            p,
                        );
                    }
                }
                self.entries[i] = SizeEntry { path, size: kept };
            },
            None => {
                proof {
                    lemma_size_in_none(before, path@);
                    let longer = before.push(SizeEntry { path, size: kept });
                    assert forall|p: Seq<char>| #[trigger]
                        size_in(longer, p) == if p == path@ {
                            Some(kept)
                        } else {
                            size_in(before, p)
                        } by {
                        assert(longer.drop_last() =~= before);
                    }
                }
                self.entries.push(SizeEntry { path, size: kept });
            },
        }
    }

    /// The size that is kept under a name.
    pub fn size_of(&self, path: &str) -> (r: Option<u64>)
        ensures
            r == size_in(self.entries@, path@),
    {
        let mut i: usize = self.entries.len();
        assert(self.entries@.take(i as int) =~= self.entries@);
        while i > 0
            invariant
                i <= self.entries@.len(),
                size_in(self.entries@, path@) == size_in(self.entries@.take(i as int), path@),
            decreases i,
        {
            let last: usize = i - 1;
            assert(self.entries@.take(i as int).drop_last() =~= self.entries@.take(last as int));
            if same_text(self.entries[last].path.as_str(), path) {
                return Some(self.entries[last].size);
            }
            i = last;
        }
        None
    }
}

/// The name that an archiver prints for a file that it was given.
pub fn tar_name(file: &str) -> (r: String)
    ensures
        r@ == "./"@ + file@,
{
    concat2("./", file)
}

/// The name that an archiver prints for an entry of a directory.
pub fn tar_child_name(parent: &str, name: &str) -> (r: String)
    ensures
        r@ == parent@ + "/"@ + name@,
{
    concat3(parent, "/", name)
}

/// Whether a line is one that an archiver prints on errors.
pub open spec fn is_error_line(name: Seq<char>) -> bool {
    occurs_at(name, "tar:"@, 0) || occurs_at(name, "gtar:"@, 0)
}

/// The start of a text.
pub open spec fn start_of(s: Seq<char>, n: int) -> Seq<char> {
    if s.len() <= n {
        s
    } else {
        s.take(n)
    }
}

/// The progress of an archiver, as its output tells.
#[derive(Debug)]
pub struct LineProgress {
    /// What the messages name where the whole work fails.
    pub label: String,
    pub total_files: usize,
    pub total_bytes: u64,
    pub completed_files: usize,
    pub completed_bytes: u64,
    pub error_lines: Vec<String>,
    pub sizes: TarSizes,
}

/// The error lines with one more, as long as there is room.
pub open spec fn with_error_line(lines: Seq<Seq<char>>, line: Seq<char>) -> Seq<Seq<char>> {
    if lines.len() < MAX_ERROR_LINES {
        lines.push(start_of(line, MAX_ERROR_LINE as int))
    } else {
        lines
    }
}

impl LineProgress {
    /// No progress yet.
    pub fn new(label: String) -> (r: LineProgress)
        ensures
            r.label == label,
            r.total_files == 0,
            r.total_bytes == 0,
            r.completed_files == 0,
            r.completed_bytes == 0,
            r.error_lines@.len() == 0,
            r.sizes.entries@.len() == 0,
            r.sizes.wf(),
    {
        LineProgress {
            label,
            total_files: 0,
            total_bytes: 0,
            completed_files: 0,
            completed_bytes: 0,
            error_lines: Vec::new(),
            sizes: TarSizes::new(),
        }
    }

    /// The bytes that are done once a file with this name is.
    pub open spec fn bytes_with(self, name: Seq<char>) -> int {
        match size_in(self.sizes.entries@, name) {
            Some(size) => self.completed_bytes + size,
            None => self.completed_bytes as int,
        }
    }

    /// Takes in a line of output: the name of a file that is done, an error line,
    /// or nothing.
    pub fn line(&mut self, text: &str) -> (r: Vec<ProgressMessage>)
        requires
            old(self).completed_files < usize::MAX,
            old(self).bytes_with(spaces_trimmed_end(text@)) <= u64::MAX,
        ensures
            ({
                let name = spaces_trimmed_end(text@);
                if is_error_line(name) {
                    &&& *final(self) == (LineProgress {
                        error_lines: final(self).error_lines,
                        ..*old(self)
                    })
                    &&& views(final(self).error_lines@) == with_error_line(
                        views(old(self).error_lines@),
                        name,
                    )
                    &&& r@.len() == 0
                } else if name.len() == 0 {
                    *final(self) == *old(self) && r@.len() == 0
                } else {
                    let done = (old(self).completed_files + 1) as usize;
                    let bytes = old(self).bytes_with(name) as u64;
                    &&& *final(self) == (LineProgress {
                        completed_files: done,
                        completed_bytes: bytes,
                        ..*old(self)
                    })
                    &&& message_views(r@) == seq![
                        MessageView::FileStarted(name),
                        MessageView::FileCompleted(name),
                        MessageView::TotalProgress(
                            done,
                            old(self).total_files,
                            bytes,
                            old(self).total_bytes,
                        ),
                    ]
                }
            }),
    {
        let name = trim_spaces_end(text);
        let mut messages: Vec<ProgressMessage> = Vec::new();
        if starts_with_text(name.as_str(), "tar:") || starts_with_text(name.as_str(), "gtar:") {
            if self.error_lines.len() < MAX_ERROR_LINES {
                let chars = chars_of(name.as_str());
                let n: usize = if chars.len() < MAX_ERROR_LINE {
                    chars.len()
                } else {
                    MAX_ERROR_LINE
                };
                let start = slice_of(&chars, 0, n);
                assert(start@ =~= start_of(name@, MAX_ERROR_LINE as int));
                let ghost held = self.error_lines@;
                self.error_lines.push(string_of(&start));
                assert(views(self.error_lines@) =~= views(held).push(
                    start_of(name@, MAX_ERROR_LINE as int),
                ));
            }
            assert(views(old(self).error_lines@).len() == old(self).error_lines@.len());
            return messages;
        }
        if name.as_str().is_empty() {
            return messages;
        }
        self.completed_files = self.completed_files + 1;
        if let Some(size) = self.sizes.size_of(name.as_str()) {
            self.completed_bytes = self.completed_bytes + size;
        }
        messages.push(ProgressMessage::FileStarted(name.clone()));
        messages.push(ProgressMessage::FileCompleted(name.clone()));
        messages.push(
            ProgressMessage::TotalProgress(
                self.completed_files,
                self.total_files,
                self.completed_bytes,
                self.total_bytes,
            ),
        );
        assert(message_views(messages@) =~= seq![
            MessageView::FileStarted(name@),
            MessageView::FileCompleted(name@),
            MessageView::TotalProgress(
                self.completed_files,
                self.total_files,
                self.completed_bytes,
                self.total_bytes,
            ),
        ]);
        messages
    }
}

/// A listing of an archive while it is read.
#[derive(Debug)]
pub struct ArchiveListing {
    pub total_files: usize,
    pub error_lines: Vec<String>,
}

/// A line without the characters that end it.
pub open spec fn line_content(line: Seq<u8>) -> Seq<u8> {
    let a = if line.len() > 0 && line.last() == 10 {
        line.drop_last()
    } else {
        line
    };
    if a.len() > 0 && a.last() == 13 {
        a.drop_last()
    } else {
        a
    }
}

/// Whether an entry name may be unpacked.
pub open spec fn safe_entry(entry: Seq<u8>) -> bool {
    entry.len() > 0 && !is_absolute(entry) && !climbs(entry)
}

/// Whether an entry name is a line that an archiver prints on errors.
pub open spec fn is_error_entry(entry: Seq<u8>) -> bool {
    ||| entry.len() >= 4 && entry.take(4) == seq![116u8, 97, 114, 58]
    ||| entry.len() >= 5 && entry.take(5) == seq![103u8, 116, 97, 114, 58]
}

fn error_entry(entry: &Vec<u8>) -> (r: bool)
    ensures
        r == is_error_entry(entry@),
{
    let n: usize = entry.len();
    let plain = n >= 4 && entry[0] == 116 && entry[1] == 97 && entry[2] == 114 && entry[3] == 58;
    let gnu = n >= 5 && entry[0] == 103 && entry[1] == 116 && entry[2] == 97 && entry[3] == 114
        && entry[4] == 58;
    proof {
        if plain {
            assert(entry@.take(4) =~= seq![116u8, 97, 114, 58]);
        }
        if gnu {
            assert(entry@.take(5) =~= seq![103u8, 116, 97, 114, 58]);
        }
        if n >= 4 && entry@.take(4) == seq![116u8, 97, 114, 58] {
            assert(entry@.take(4)[0] == 116 && entry@.take(4)[1] == 97 && entry@.take(4)[2] == 114
                && entry@.take(4)[3] == 58);
        }
        if n >= 5 && entry@.take(5) == seq![103u8, 116, 97, 114, 58] {
            assert(entry@.take(5)[0] == 103 && entry@.take(5)[1] == 116 && entry@.take(5)[2] == 97
                && entry@.take(5)[3] == 114 && entry@.take(5)[4] == 58);
        }
    }
    plain || gnu
}

fn start_bytes(entry: &Vec<u8>, n: usize) -> (r: Vec<u8>)
    requires
        n <= entry@.len(),
    ensures
        r@ == entry@.take(n as int),
{
    let mut r: Vec<u8> = Vec::new();
    let mut i: usize = 0;
    while i < n
        invariant
            i <= n <= entry@.len(),
            r@ == entry@.take(i as int),
        decreases n - i,
    {
        r.push(entry[i]);
        assert(entry@.take(i + 1) =~= entry@.take(i as int).push(entry@[i as int]));
        i += 1;
    }
    r
}

/// What taking in a line of a listing does.
pub open spec fn entry_taken(
    before: ArchiveListing,
    after: ArchiveListing,
    line: Seq<u8>,
    r: Result<(), String>,
) -> bool {
    let entry = line_content(line);
    let full = before.total_files == usize::MAX;
    &&& r is Ok <==> safe_entry(entry) && !full
    &&& match r {
        Ok(_) => {
            &&& after.total_files == before.total_files + 1
            &&& views(after.error_lines@) == if is_error_entry(entry)
                && before.error_lines@.len() < MAX_ERROR_LINES {
                views(before.error_lines@).push(
                    lossy_text(
                        if entry.len() <= MAX_ERROR_LINE {
                            entry
                        } else {
                            entry.take(MAX_ERROR_LINE as int)
                        },
                    ),
                )
            } else {
                views(before.error_lines@)
            }
        },
        Err(e) => {
            &&& after == before
            &&& e@ == if entry.len() == 0 {
                "Archive contains an empty entry name"@
            } else if is_absolute(entry) {
                "Archive contains an absolute path: "@ + lossy_text(entry)
            } else if climbs(entry) {
                "Archive contains a parent-directory path: "@ + lossy_text(entry)
            } else {
                "Archive contains too many entries"@
            }
        },
    }
    &&& (is_absolute(entry) || climbs(entry)) && valid_utf8(entry) ==> lossy_text(entry)
        == decode_utf8(entry)
    &&& after.error_lines@.len() > before.error_lines@.len() && entry.len()
        <= MAX_ERROR_LINE && valid_utf8(entry) ==> lossy_text(entry) == decode_utf8(
        entry,
    )
}

impl ArchiveListing {
    /// A listing of which nothing was read yet.
    pub fn new() -> (r: ArchiveListing)
        ensures
            r.total_files == 0,
            r.error_lines@.len() == 0,
    {
        ArchiveListing { total_files: 0, error_lines: Vec::new() }
    }

    /// Takes in a line of the listing. An entry that would be unpacked outside its
    /// directory ends the listing.
    pub fn entry(&mut self, line: &Vec<u8>) -> (r: Result<(), String>)
        ensures
            entry_taken(*old(self), *final(self), line@, r),
    {
        let mut n: usize = line.len();
        if n > 0 && line[n - 1] == 10 {
            n = n - 1;
        }
        assert(line@.take(n as int) =~= if line@.len() > 0 && line@.last() == 10 {
            line@.drop_last()
        } else {
            line@
        });
        if n > 0 && line[n - 1] == 13 {
            assert(line@.take(n as int).last() == 13);
            assert(line@.take(n as int).drop_last() =~= line@.take(n - 1));
            n = n - 1;
        } else {
            assert(n > 0 ==> line@.take(n as int).last() == line@[n - 1]);
        }
        let entry = start_bytes(line, n);
        assert(entry@ == line_content(line@));
        match validate_archive_entry_path(&entry) {
            Err(error) => {
                return Err(error);
            },
            Ok(_) => {},
        }
        if self.total_files == usize::MAX {
            return Err("Archive contains too many entries".to_owned());
        }
        self.total_files = self.total_files + 1;
        if error_entry(&entry) && self.error_lines.len() < MAX_ERROR_LINES {
            let ghost held = self.error_lines@;
            let m: usize = if entry.len() < MAX_ERROR_LINE { entry.len() } else { MAX_ERROR_LINE };
            let start = start_bytes(&entry, m);
            assert(entry@.len() <= MAX_ERROR_LINE ==> start@ =~= entry@);
            self.error_lines.push(text_of_bytes(&start));
            assert(views(self.error_lines@) =~= views(held).push(lossy_text(start@)));
        }
        Ok(())
    }
}

/// What a listing of an archive comes to.
pub open spec fn listing_ends(
    listing: ArchiveListing,
    cancelled: bool,
    parsed: Result<(), String>,
    status: Result<bool, String>,
    stderr: Seq<char>,
    r: Result<usize, String>,
) -> bool {
    let unsafe_name = contains_text(stderr, "Removing leading"@) || contains_text(
        stderr,
        "Member name contains"@,
    );
    if cancelled {
        r matches Err(e) && e@ == "Cancelled"@
    } else if parsed is Err {
        r matches Err(e) && e == parsed->Err_0
    } else {
        match status {
            Err(error) => r matches Err(e) && e@ == "Failed to list archive contents: "@
                + error@,
            Ok(success) => if !success {
                r matches Err(e) && e@ == error_text(
                    Some(stderr),
                    views(listing.error_lines@),
                    "Failed to read archive contents"@,
                )
            } else if unsafe_name {
                r matches Err(e) && e@
                    == "Archive contains an unsafe absolute or parent-directory path"@
            } else {
                r matches Ok(n) && n == listing.total_files
            },
        }
    }
}

/// What a listing comes to once the archiver has ended. `parsed` is what came of
/// its lines, `status` whether it said that all went well, and `stderr` what it
/// printed on errors.
pub fn listing_result(
    listing: &ArchiveListing,
    cancelled: bool,
    parsed: Result<(), String>,
    status: Result<bool, String>,
    stderr: &str,
) -> (r: Result<usize, String>)
    ensures
        listing_ends(*listing, cancelled, parsed, status, stderr@, r),
{
    if cancelled {
        return Err("Cancelled".to_owned());
    }
    if let Err(error) = parsed {
        return Err(error);
    }
    match status {
        Err(error) => Err(concat2("Failed to list archive contents: ", error.as_str())),
        Ok(success) => {
            if !success {
                return Err(
                    process_error_message(
                        Some(stderr),
                        &listing.error_lines,
                        "Failed to read archive contents",
                    ),
                );
            }
            if holds_text(stderr, "Removing leading") || holds_text(
                stderr,
                "Member name contains",
            ) {
                return Err(
                    "Archive contains an unsafe absolute or parent-directory path".to_owned(),
                );
            }
            Ok(listing.total_files)
        },
    }
}

/// Whether `needle` occurs in a text.
pub open spec fn contains_text(s: Seq<char>, needle: Seq<char>) -> bool {
    exists|at: int| #[trigger] occurs_at(s, needle, at)
}

/// Whether `needle` occurs in a text.
pub fn holds_text(s: &str, needle: &str) -> (r: bool)
    ensures
        r == contains_text(s@, needle@),
{
    let v = chars_of(s);
    let p = chars_of(needle);
    let n: usize = v.len();
    let mut at: usize = 0;
    while at < n
        invariant
            at <= n,
            n == v@.len(),
            v@ == s@,
            p@ == needle@,
            forall|k: int| 0 <= k < at ==> !(#[trigger] occurs_at(s@, needle@, k)),
        decreases n - at,
    {
        if stands_at(&v, &p, at) {
            assert(occurs_at(s@, needle@, at as int));
            return true;
        }
        at += 1;
    }
    let r = stands_at(&v, &p, n);
    assert(r ==> occurs_at(s@, needle@, n as int));
    r
}

/// The name of an entry is its line without the line end, of either kind.
pub proof fn law_line_end_is_no_part_of_the_name(name: Seq<u8>)
    requires
        name.len() > 0,
        name.last() != '\n' as u8,
        name.last() != '\r' as u8,
    ensures
        line_content(name) == name,
        line_content(name + seq!['\n' as u8]) == name,
        line_content(name + seq!['\r' as u8, '\n' as u8]) == name,
{
    assert((name + seq!['\n' as u8]).drop_last() =~= name);
    let both = name + seq!['\r' as u8, '\n' as u8];
    assert(both.drop_last() =~= name + seq!['\r' as u8]);
    assert((name + seq!['\r' as u8]).drop_last() =~= name);
}

/// What an archiver says of itself begins with its name; nothing else is taken for it.
pub proof fn law_errors_begin_with_the_archiver(rest: Seq<char>, name: Seq<char>)
    ensures
        is_error_line("tar:"@ + rest),
        is_error_line("gtar:"@ + rest),
        is_error_line(name) ==> name.len() >= 4 && (name[0] == 't' || name[0] == 'g') && name.contains(
            ':',
        ),
        name.len() > 0 && name[0] == '.' ==> !is_error_line(name),
{
    reveal_strlit("tar:");
    reveal_strlit("gtar:");
    let a = "tar:"@ + rest;
    let b = "gtar:"@ + rest;
    assert(a.subrange(0, 4) =~= "tar:"@);
    assert(b.subrange(0, 5) =~= "gtar:"@);
    if occurs_at(name, "tar:"@, 0) {
        assert(name.subrange(0, 4)[0] == name[0]);
        assert(name.subrange(0, 4)[3] == name[3]);
        assert("tar:"@[3] == ':');
    }
    if occurs_at(name, "gtar:"@, 0) {
        assert(name.subrange(0, 5)[0] == name[0]);
        assert(name.subrange(0, 5)[4] == name[4]);
        assert("gtar:"@[4] == ':');
    }
}

/// In a listing, too, what an archiver says of itself begins with its name.
pub proof fn law_error_entries_begin_with_the_archiver(rest: Seq<u8>)
    ensures
        is_error_entry(seq!['t' as u8, 'a' as u8, 'r' as u8, ':' as u8] + rest),
        is_error_entry(seq!['g' as u8, 't' as u8, 'a' as u8, 'r' as u8, ':' as u8] + rest),
        rest.len() > 0 && rest[0] != 't' as u8 && rest[0] != 'g' as u8 ==> !is_error_entry(rest),
{
    let a = seq!['t' as u8, 'a' as u8, 'r' as u8, ':' as u8] + rest;
    let b = seq!['g' as u8, 't' as u8, 'a' as u8, 'r' as u8, ':' as u8] + rest;
    assert(a.take(4) =~= seq![116u8, 97, 114, 58]);
    assert(b.take(5) =~= seq![103u8, 116, 97, 114, 58]);
    if rest.len() >= 4 {
        assert(rest.take(4)[0] == rest[0]);
    }
    if rest.len() >= 5 {
        assert(rest.take(5)[0] == rest[0]);
    }
}

/// Error lines are kept in the order in which they came, no more than the first sixteen, and
/// of each the beginning.
pub proof fn law_first_error_lines_are_kept(lines: Seq<Seq<char>>, line: Seq<char>)
    requires
        lines.len() <= 16,
    ensures
        with_error_line(lines, line).len() <= 16,
        lines.is_prefix_of(with_error_line(lines, line)),
        lines.len() < 16 && line.len() <= 4096 ==> with_error_line(lines, line) == lines.push(line),
        lines.len() < 16 ==> with_error_line(lines, line).last().is_prefix_of(line)
            && with_error_line(lines, line).last().len() <= 4096,
        lines.len() == 16 ==> with_error_line(lines, line) == lines,
{
    let now = with_error_line(lines, line);
    assert(now.subrange(0, lines.len() as int) =~= lines);
    if lines.len() < 16 {
        let kept = now.last();
        assert(line.subrange(0, kept.len() as int) =~= kept);
    }
}

/// What is done counts the size that was recorded under a name, and nothing for an unknown
/// name.
pub proof fn law_recorded_sizes_count(progress: LineProgress, name: Seq<char>)
    ensures
        size_in(progress.sizes.entries@, name) is None ==> progress.bytes_with(name)
            == progress.completed_bytes,
        size_in(progress.sizes.entries@, name) matches Some(size) ==> progress.bytes_with(name)
            == progress.completed_bytes + size,
        size_in(progress.sizes.entries@, name) is Some ==> exists|i: int|
            0 <= i < progress.sizes.entries@.len() && (#[trigger] progress.sizes.entries@[i]).path@
                == name && size_in(progress.sizes.entries@, name) == Some(
                progress.sizes.entries@[i].size,
            ),
{
    lemma_size_found(progress.sizes.entries@, name);
}

proof fn lemma_size_found(entries: Seq<SizeEntry>, name: Seq<char>)
    ensures
        size_in(entries, name) is Some ==> exists|i: int|
            0 <= i < entries.len() && (#[trigger] entries[i]).path@ == name && size_in(
                entries,
                name,
            ) == Some(entries[i].size),
    decreases entries.len(),
{
    if entries.len() > 0 {
        let rest = entries.drop_last();
        if entries.last().path@ == name {
            assert(entries[entries.len() - 1].path@ == name);
        } else {
            lemma_size_found(rest, name);
            if size_in(rest, name) is Some {
                let i = choose|i: int|
                    0 <= i < rest.len() && (#[trigger] rest[i]).path@ == name && size_in(rest, name)
                        == Some(rest[i].size);
                assert(entries[i] == rest[i]);
            }
        }
    }
}

/// An archive may be unpacked exactly where its listing was read to the end without a
/// refused entry, the archiver was content, and it complained of no unsafe name.
pub proof fn law_listing_is_accepted_only_whole(
    listing: ArchiveListing,
    cancelled: bool,
    parsed: Result<(), String>,
    status: Result<bool, String>,
    stderr: Seq<char>,
    r: Result<usize, String>,
)
    requires
        listing_ends(listing, cancelled, parsed, status, stderr, r),
    ensures
        r is Ok <==> {
            &&& !cancelled
            &&& parsed is Ok
            &&& status == Ok::<bool, String>(true)
            &&& !contains_text(stderr, "Removing leading"@)
            &&& !contains_text(stderr, "Member name contains"@)
        },
        r matches Ok(count) ==> count == listing.total_files,
        cancelled ==> r is Err && r->Err_0@ == "Cancelled"@,
{
}

/// A text holds another exactly where the other stands somewhere in it.
pub proof fn law_text_is_found_anywhere(before: Seq<char>, needle: Seq<char>, after: Seq<char>)
    ensures
        contains_text(before + needle + after, needle),
        contains_text(after, needle) ==> needle.len() <= after.len(),
{
    let whole = before + needle + after;
    let at = before.len() as int;
    assert(whole.subrange(at, at + needle.len()) =~= needle);
    assert(occurs_at(whole, needle, at));
}

/// An entry that would land outside of the directory ends the listing; any other counts.
pub proof fn law_unsafe_entry_ends_the_listing(
    before: ArchiveListing,
    after: ArchiveListing,
    line: Seq<u8>,
    r: Result<(), String>,
)
    requires
        entry_taken(before, after, line, r),
        before.total_files < usize::MAX,
    ensures
        r is Ok <==> {
            let entry = line_content(line);
            entry.len() > 0 && !is_absolute(entry) && !climbs(entry)
        },
        r is Ok ==> after.total_files == before.total_files + 1,
        r is Err ==> after == before,
{
}

/// The size that is kept under a name is one that was put there, and where there is none no
/// entry has the name.
pub proof fn law_size_is_found_under_its_name(entries: Seq<SizeEntry>, path: Seq<char>)
    ensures
        size_in(entries, path) matches Some(size) ==> exists|i: int|
            0 <= i < entries.len() && (#[trigger] entries[i]).path@ == path && entries[i].size
                == size,
        size_in(entries, path) is None <==> forall|i: int|
            0 <= i < entries.len() ==> (#[trigger] entries[i]).path@ != path,
    decreases entries.len(),
{
    if entries.len() > 0 {
        law_size_is_found_under_its_name(entries.drop_last(), path);
        let rest = entries.drop_last();
        assert(entries.last() == entries[entries.len() - 1]);
        if entries.last().path@ != path && size_in(rest, path) is Some {
            let i = choose|i: int|
                0 <= i < rest.len() && (#[trigger] rest[i]).path@ == path && Some(rest[i].size)
                    == size_in(rest, path);
            assert(entries[i] == rest[i]);
        }
        assert forall|i: int| 0 <= i < rest.len() implies #[trigger] rest[i] == entries[i] by {}
        if size_in(entries, path) is None {
            assert forall|i: int| 0 <= i < entries.len() implies (#[trigger] entries[i]).path@
                != path by {
                if i < rest.len() {
                    assert(rest[i] == entries[i]);
                }
            }
        }
    }
}

} // verus!
