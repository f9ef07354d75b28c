//! The rows of a directory comparison.

use crate::authorization::{MissingPathAuthorization, PathAuthorization};
use crate::diff_view::filter_name;
use crate::paths::{extension_of, name_extension};
use crate::ranking::{ints, ItemKey, Key};
use crate::sorting::{lowercase_text, SortBy};
use crate::text::{chars_of, same_text};
use vstd::prelude::*;

verus! {

/// How the two sides of a row compare.
#[derive(Debug, Clone, Copy, PartialEq, Eq, Structural)]
pub enum DiffStatus {
    Same,
    Modified,
    LeftOnly,
    RightOnly,
    DirModified,
    DirSame,
}

/// Whether the status tells of a difference.
pub open spec fn differs(status: DiffStatus) -> bool {
    status != DiffStatus::Same && status != DiffStatus::DirSame
}

/// Whether the status tells of a difference.
pub fn diff_status_has_difference(status: DiffStatus) -> (r: bool)
    ensures
        r == differs(status),
{
    match status {
        DiffStatus::Same | DiffStatus::DirSame => false,
        _ => true,
    }
}

/// A moment: seconds since the epoch, and nanoseconds.
#[derive(Debug, Clone, Copy, PartialEq, Eq, Structural)]
pub struct FileTime {
    pub secs: i64,
    pub nanos: u32,
}

/// One side of a row.
#[derive(Debug)]
pub struct DiffFileInfo {
    pub name: String,
    pub size: u64,
    pub modified: FileTime,
    pub is_directory: bool,
    pub is_symlink: bool,
    pub full_path: String,
    pub authorization: Option<PathAuthorization>,
}

impl Clone for DiffFileInfo {
    fn clone(&self) -> (r: Self)
        ensures
            r == *self,
    {
        DiffFileInfo {
            name: self.name.clone(),
            size: self.size,
            modified: self.modified,
            is_directory: self.is_directory,
            is_symlink: self.is_symlink,
            full_path: self.full_path.clone(),
            authorization: self.authorization,
        }
    }
}

/// A row of the comparison.
#[derive(Debug)]
pub struct DiffEntry {
    pub relative_path: String,
    pub left: Option<DiffFileInfo>,
    pub right: Option<DiffFileInfo>,
    pub status: DiffStatus,
    pub is_directory: bool,
    pub depth: usize,
    /// A directory of one side only whose children were not read yet.
    pub children_not_loaded: bool,
    pub left_missing: Option<MissingPathAuthorization>,
    pub right_missing: Option<MissingPathAuthorization>,
}

impl Clone for DiffEntry {
    fn clone(&self) -> (r: Self)
        ensures
            r == *self,
    {
        DiffEntry {
            relative_path: self.relative_path.clone(),
            left: match &self.left {
                Some(info) => Some(info.clone()),
                None => None,
            },
            right: match &self.right {
                Some(info) => Some(info.clone()),
                None => None,
            },
            status: self.status,
            is_directory: self.is_directory,
            depth: self.depth,
            children_not_loaded: self.children_not_loaded,
            left_missing: match &self.left_missing {
                Some(missing) => Some(missing.clone()),
                None => None,
            },
            right_missing: match &self.right_missing {
                Some(missing) => Some(missing.clone()),
                None => None,
            },
        }
    }
}

/// Which rows the comparison shows.
#[derive(Debug, Clone, Copy, PartialEq, Eq, Structural)]
pub enum DiffFilter {
    All,
    DifferentOnly,
    LeftOnly,
    RightOnly,
}

impl DiffFilter {
    /// The filter that follows.
    pub open spec fn following(self) -> DiffFilter {
        match self {
            DiffFilter::All => DiffFilter::DifferentOnly,
            DiffFilter::DifferentOnly => DiffFilter::LeftOnly,
            DiffFilter::LeftOnly => DiffFilter::RightOnly,
            DiffFilter::RightOnly => DiffFilter::All,
        }
    }

    /// Whether a row with this status passes the filter by itself.
    pub open spec fn admits(self, status: DiffStatus) -> bool {
        match self {
            DiffFilter::All => true,
            DiffFilter::DifferentOnly => differs(status),
            DiffFilter::LeftOnly => status == DiffStatus::LeftOnly,
            DiffFilter::RightOnly => status == DiffStatus::RightOnly,
        }
    }

    /// The filter that follows.
    pub fn next(&self) -> (r: DiffFilter)
        ensures
            r == self.following(),
    {
        match self {
            DiffFilter::All => DiffFilter::DifferentOnly,
            DiffFilter::DifferentOnly => DiffFilter::LeftOnly,
            DiffFilter::LeftOnly => DiffFilter::RightOnly,
            DiffFilter::RightOnly => DiffFilter::All,
        }
    }

    /// The name of the filter on the status bar.
    pub fn display_name(&self) -> (r: &str)
        ensures
            r@ == filter_name(*self),
    {
        match self {
            DiffFilter::All => "All",
            DiffFilter::DifferentOnly => "Different Only",
            DiffFilter::LeftOnly => "Left Only",
            DiffFilter::RightOnly => "Right Only",
        }
    }

    /// Whether a row with this status passes the filter by itself.
    pub fn matches_status(&self, status: DiffStatus) -> (r: bool)
        ensures
            r == self.admits(status),
    {
        match self {
            DiffFilter::All => true,
            DiffFilter::DifferentOnly => diff_status_has_difference(status),
            DiffFilter::LeftOnly => status == DiffStatus::LeftOnly,
            DiffFilter::RightOnly => status == DiffStatus::RightOnly,
        }
    }
}

/// Cycling through the filters visits all four and comes back.
pub proof fn law_filter_cycle(filter: DiffFilter)
    ensures
        filter.following().following().following().following() == filter,
        filter.following() != filter,
        filter.following().following() != filter,
        filter.following().following().following() != filter,
{
}

/// How two files are compared.
#[derive(Debug, Clone, Copy, PartialEq, Eq, Structural)]
pub enum CompareMethod {
    Content,
    ModifiedTime,
    ContentAndTime,
}

impl Default for CompareMethod {
    fn default() -> (r: Self)
        ensures
            r == CompareMethod::Content,
    {
        CompareMethod::Content
    }
}

impl CompareMethod {
    /// The name of the method on the status bar.
    pub fn display_name(&self) -> (r: &str)
        ensures
            r@ == method_name(*self),
    {
        match self {
            CompareMethod::Content => "Content",
            CompareMethod::ModifiedTime => "Modified Time",
            CompareMethod::ContentAndTime => "Content + Time",
        }
    }
}

/// The method that a lower-case word names; any other word means by content.
pub open spec fn method_word(word: Seq<char>) -> CompareMethod {
    if word == "time"@ || word == "modified"@ || word == "modifiedtime"@ || word
        == "modified_time"@ {
        CompareMethod::ModifiedTime
    } else if word == "contentandtime"@ || word == "content_and_time"@ || word == "contenttime"@ {
        CompareMethod::ContentAndTime
    } else {
        CompareMethod::Content
    }
}

/// The method that a lower-case word names.
pub fn compare_method_of_word(word: &str) -> (r: CompareMethod)
    ensures
        r == method_word(word@),
{
    if same_text(word, "time") || same_text(word, "modified") || same_text(word, "modifiedtime")
        || same_text(word, "modified_time") {
        CompareMethod::ModifiedTime
    } else if same_text(word, "contentandtime") || same_text(word, "content_and_time")
        || same_text(word, "contenttime") {
        CompareMethod::ContentAndTime
    } else {
        CompareMethod::Content
    }
}

/// The method that an argument or a setting names, in any case of letters.
pub fn parse_compare_method(s: &str) -> (r: CompareMethod)
    ensures
        r == method_word(lowercase_text(s@)),
{
    let lower = s.to_lowercase();
    compare_method_of_word(lower.as_str())
}

/// The characters of a text as numbers.
pub open spec fn codes(s: Seq<char>) -> Seq<int> {
    Seq::new(s.len(), |i: int| s[i] as u32 as int)
}

/// The characters of a text as numbers.
pub fn codes_of(s: &str) -> (r: Vec<i128>)
    ensures
        ints(r@) == codes(s@),
{
    let v = chars_of(s);
    let mut r: Vec<i128> = Vec::new();
    let mut i: usize = 0;
    while i < v.len()
        invariant
            i <= v@.len(),
            v@ == s@,
            ints(r@) == codes(s@).take(i as int),
        decreases v@.len() - i,
    {
        let c = v[i];
        let code: i128 = c as u32 as i128;
        let ghost before = r@;
        r.push(code);
        assert(ints(r@) == ints(before).push(code as int));
        assert(codes(s@).take(i + 1) == codes(s@).take(i as int).push(codes(s@)[i as int]));
        i += 1;
    }
    assert(codes(s@).take(i as int) == codes(s@));
    r
}

/// The extension of a file name in lower case; empty where it has none.
pub open spec fn lower_extension(name: Seq<char>) -> Seq<char> {
    match name_extension(name) {
        Some(ext) => lowercase_text(ext),
        None => Seq::empty(),
    }
}

/// The extension of a file name in lower case; empty where it has none.
pub fn get_extension(name: &str) -> (r: String)
    ensures
        r@ == lower_extension(name@),
{
    match extension_of(name) {
        Some(ext) => ext.as_str().to_lowercase(),
        None => String::new(),
    }
}

/// The side that a row is sorted by: the left one where it is there.
pub open spec fn sorting_side(e: DiffEntry) -> Option<DiffFileInfo> {
    match e.left {
        Some(info) => Some(info),
        None => e.right,
    }
}

/// What a row is arranged by.
pub open spec fn entry_key(e: DiffEntry, sort_by: SortBy) -> Key {
    let info = sorting_side(e);
    let name = match info {
        Some(i) => codes(lowercase_text(i.name@)),
        None => Seq::empty(),
    };
    Key {
        directory: e.is_directory,
        major: match sort_by {
            SortBy::Name => name,
            SortBy::Size => match info {
                Some(i) => seq![i.size as int],
                None => seq![0int],
            },
            SortBy::Modified => match info {
                Some(i) => seq![i.modified.secs as int, i.modified.nanos as int],
                None => Seq::empty(),
            },
            SortBy::Type => match info {
                Some(i) => codes(lower_extension(i.name@)),
                None => Seq::empty(),
            },
        },
        minor: if sort_by == SortBy::Type {
            name
        } else {
            Seq::empty()
        },
        path: codes(e.relative_path@),
    }
}

/// What a row is arranged by.
pub fn key_of_entry(e: &DiffEntry, sort_by: SortBy) -> (r: ItemKey)
    ensures
        r@ == entry_key(*e, sort_by),
{
    let info: Option<&DiffFileInfo> = match &e.left {
        Some(info) => Some(info),
        None => match &e.right {
            Some(info) => Some(info),
            None => None,
        },
    };
    let mut major: Vec<i128> = Vec::new();
    let mut minor: Vec<i128> = Vec::new();
    match info {
        None => {
            if sort_by == SortBy::Size {
                major.push(0);
            }
        },
        Some(i) => {
            match sort_by {
                SortBy::Name => {
                    let lower = i.name.as_str().to_lowercase();
                    major = codes_of(lower.as_str());
                },
                SortBy::Size => {
                    major.push(i.size as i128);
                },
                SortBy::Modified => {
                    major.push(i.modified.secs as i128);
                    major.push(i.modified.nanos as i128);
                },
                SortBy::Type => {
                    let ext = get_extension(i.name.as_str());
                    major = codes_of(ext.as_str());
                    let lower = i.name.as_str().to_lowercase();
                    minor = codes_of(lower.as_str());
                },
            }
        },
    }
    let path = codes_of(e.relative_path.as_str());
    let r = ItemKey { directory: e.is_directory, major, minor, path };
    assert(r@.major == entry_key(*e, sort_by).major);
    assert(r@.minor == entry_key(*e, sort_by).minor);
    r
}

/// Each filter shows what its name says: all rows; those that are not the same; those of
/// one side.
pub proof fn law_filter_shows_what_it_names(status: DiffStatus)
    ensures
        DiffFilter::All.admits(status),
        DiffFilter::DifferentOnly.admits(status) <==> !(status == DiffStatus::Same || status
            == DiffStatus::DirSame),
        DiffFilter::LeftOnly.admits(status) ==> DiffFilter::DifferentOnly.admits(status)
            && !DiffFilter::RightOnly.admits(status),
        DiffFilter::RightOnly.admits(status) ==> DiffFilter::DifferentOnly.admits(status),
        DiffFilter::LeftOnly.admits(DiffStatus::LeftOnly),
        DiffFilter::RightOnly.admits(DiffStatus::RightOnly),
        DiffFilter::LeftOnly.admits(status) ==> status == DiffStatus::LeftOnly,
        DiffFilter::RightOnly.admits(status) ==> status == DiffStatus::RightOnly,
        differs(status) == DiffFilter::DifferentOnly.admits(status),
{
}

/// The filters come in turn: all, what differs, the left side, the right side.
pub proof fn law_filters_narrow_in_turn(status: DiffStatus)
    ensures
        DiffFilter::All.following().admits(status) <==> !(status == DiffStatus::Same || status
            == DiffStatus::DirSame),
        DiffFilter::All.following().following().admits(status) <==> status == DiffStatus::LeftOnly,
        DiffFilter::All.following().following().following().admits(status) <==> status
            == DiffStatus::RightOnly,
{
}

/// A row is sorted by what it has on the left, and by what it has on the right only where
/// the left has nothing: name, size, time and type all come from that one side.
pub proof fn law_row_is_sorted_by_one_side(e: DiffEntry, other: DiffEntry, sort_by: SortBy)
    requires
        e.left is Some,
        other.left == e.left,
        other.is_directory == e.is_directory,
        other.relative_path@ == e.relative_path@,
    ensures
        sorting_side(e) == e.left,
        e.left is None ==> sorting_side(e) == e.right,
        entry_key(e, sort_by) == entry_key(other, sort_by),
{
}

/// A word for how files are compared means the way that it names; an unknown word means
/// that their contents are compared.
pub proof fn law_words_for_comparing(word: Seq<char>)
    ensures
        method_word("time"@) == CompareMethod::ModifiedTime,
        method_word("modified"@) == CompareMethod::ModifiedTime,
        method_word("modifiedtime"@) == CompareMethod::ModifiedTime,
        method_word("modified_time"@) == CompareMethod::ModifiedTime,
        method_word("contentandtime"@) == CompareMethod::ContentAndTime,
        method_word("content_and_time"@) == CompareMethod::ContentAndTime,
        method_word("contenttime"@) == CompareMethod::ContentAndTime,
        method_word("content"@) == CompareMethod::Content,
        word.len() > 0 && word[0] != 't' && word[0] != 'm' && word[0] != 'c' ==> method_word(word)
            == CompareMethod::Content,
{
    reveal_strlit("time");
    reveal_strlit("modified");
    reveal_strlit("modifiedtime");
    reveal_strlit("modified_time");
    reveal_strlit("contentandtime");
    reveal_strlit("content_and_time");
    reveal_strlit("contenttime");
    reveal_strlit("content");
    assert("time"@[0] == 't');
    assert("modified"@[0] == 'm');
    assert("modifiedtime"@[0] == 'm');
    assert("modified_time"@[0] == 'm');
    assert("contentandtime"@[0] == 'c');
    assert("content_and_time"@[0] == 'c');
    assert("contenttime"@[0] == 'c');
    assert("content"@.len() == 7);
}

/// The name of a method on the status bar.
pub open spec fn method_name(method: CompareMethod) -> Seq<char> {
    match method {
        CompareMethod::Content => "Content"@,
        CompareMethod::ModifiedTime => "Modified Time"@,
        CompareMethod::ContentAndTime => "Content + Time"@,
    }
}

/// Each filter and each method is shown by a name of its own, which says what it does: a
/// method by content names content, and one by time names time.
pub proof fn law_names_on_the_status_bar(f: DiffFilter, g: DiffFilter, m: CompareMethod)
    ensures
        f != g ==> filter_name(f) != filter_name(g),
        filter_name(DiffFilter::LeftOnly)[0] == 'L',
        filter_name(DiffFilter::RightOnly)[0] == 'R',
        filter_name(DiffFilter::DifferentOnly)[0] == 'D',
        filter_name(DiffFilter::All)[0] == 'A',
        "Content"@.is_prefix_of(method_name(m)) <==> m != CompareMethod::ModifiedTime,
        "Time"@.is_suffix_of(method_name(m)) <==> m != CompareMethod::Content,
        m == CompareMethod::ModifiedTime <==> method_name(m)[0] == 'M',
{
    reveal_strlit("All");
    reveal_strlit("Different Only");
    reveal_strlit("Left Only");
    reveal_strlit("Right Only");
    reveal_strlit("Content");
    reveal_strlit("Modified Time");
    reveal_strlit("Content + Time");
    reveal_strlit("Time");
    assert("All"@[0] == 'A');
    assert("Different Only"@[0] == 'D');
    assert("Left Only"@[0] == 'L');
    assert("Right Only"@[0] == 'R');
    assert("Content"@[0] == 'C');
    assert("Modified Time"@[0] == 'M');
    assert("Time"@[0] == 'T');
    assert("Content"@[6] == 't' && "Time"@[3] == 'e');
    assert("Content"@.is_prefix_of("Content"@));
    assert("Content"@ =~= "Content + Time"@.subrange(0, 7));
    assert("Time"@ =~= "Content + Time"@.subrange(10, 14));
    assert("Time"@ =~= "Modified Time"@.subrange(9, 13));
}

} // verus!
