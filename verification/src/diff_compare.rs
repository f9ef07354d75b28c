//! Whether two files count as the same, and the reading of a file in full
//! chunks.

use crate::diff_types::{CompareMethod, DiffFileInfo};
use vstd::prelude::*;

verus! {

/// What has to be looked at before two files can be told apart.
#[derive(Debug, Clone, Copy, PartialEq, Eq, Structural)]
pub enum CompareNeed {
    /// Nothing more: the answer is known.
    Decided(bool),
    /// The targets of the two links.
    LinkTargets,
    /// The bytes of the two files.
    Bytes,
}

/// What has to be looked at before the two files can be told apart.
pub open spec fn need_of(left: DiffFileInfo, right: DiffFileInfo, method: CompareMethod) -> CompareNeed {
    let same_time = left.modified.secs == right.modified.secs;
    if left.is_symlink != right.is_symlink {
        CompareNeed::Decided(false)
    } else if left.is_symlink {
        CompareNeed::LinkTargets
    } else {
        match method {
            CompareMethod::Content => if left.size == right.size {
                CompareNeed::Bytes
            } else {
                CompareNeed::Decided(false)
            },
            CompareMethod::ModifiedTime => CompareNeed::Decided(same_time),
            CompareMethod::ContentAndTime => if same_time && left.size == right.size {
                CompareNeed::Bytes
            } else {
                CompareNeed::Decided(false)
            },
        }
    }
}

/// What was found where it had to be looked at.
#[derive(Debug, Clone, Copy, PartialEq, Eq, Structural)]
pub struct CompareEvidence {
    /// Whether the two links name the same target.
    pub links_equal: bool,
    /// Whether the two files hold the same bytes.
    pub bytes_equal: bool,
}

/// Whether the two files count as the same.
pub open spec fn counts_as_same(
    left: DiffFileInfo,
    right: DiffFileInfo,
    method: CompareMethod,
    found: CompareEvidence,
) -> bool {
    match need_of(left, right, method) {
        CompareNeed::Decided(same) => same,
        CompareNeed::LinkTargets => found.links_equal,
        CompareNeed::Bytes => found.bytes_equal,
    }
}

/// What has to be looked at before the two files can be told apart. A link and
/// a file are never the same; times count by whole seconds.
pub fn compare_need(left: &DiffFileInfo, right: &DiffFileInfo, method: CompareMethod) -> (r:
    CompareNeed)
    ensures
        r == need_of(*left, *right, method),
{
    if left.is_symlink != right.is_symlink {
        return CompareNeed::Decided(false);
    }
    if left.is_symlink {
        return CompareNeed::LinkTargets;
    }
    let same_time = left.modified.secs == right.modified.secs;
    match method {
        CompareMethod::Content => if left.size != right.size {
            CompareNeed::Decided(false)
        } else {
            CompareNeed::Bytes
        },
        CompareMethod::ModifiedTime => CompareNeed::Decided(same_time),
        CompareMethod::ContentAndTime => if same_time && left.size == right.size {
            CompareNeed::Bytes
        } else {
            CompareNeed::Decided(false)
        },
    }
}

/// Whether the two files count as the same, given what was found where it had
/// to be looked at.
pub fn compare_files(
    left: &DiffFileInfo,
    right: &DiffFileInfo,
    method: CompareMethod,
    found: CompareEvidence,
) -> (r: bool)
    ensures
        r == counts_as_same(*left, *right, method, found),
{
    match compare_need(left, right, method) {
        CompareNeed::Decided(same) => same,
        CompareNeed::LinkTargets => found.links_equal,
        CompareNeed::Bytes => found.bytes_equal,
    }
}

/// Comparing the other way round gives the same answer.
pub proof fn law_comparison_is_symmetric(
    left: DiffFileInfo,
    right: DiffFileInfo,
    method: CompareMethod,
    found: CompareEvidence,
)
    ensures
        counts_as_same(left, right, method, found) == counts_as_same(right, left, method, found),
{
}

/// A link and a regular file are different under every method, whatever bytes
/// the link leads to.
pub proof fn law_link_is_not_a_file(
    left: DiffFileInfo,
    right: DiffFileInfo,
    method: CompareMethod,
    found: CompareEvidence,
)
    requires
        left.is_symlink != right.is_symlink,
    ensures
        !counts_as_same(left, right, method, found),
{
}

/// Two files are the same by their contents where they are equally long and hold the
/// same bytes, and by their times where these agree to the second. "Content and time"
/// asks for both.
pub proof fn law_content_and_time_asks_for_both(
    left: DiffFileInfo,
    right: DiffFileInfo,
    found: CompareEvidence,
)
    requires
        !left.is_symlink,
        !right.is_symlink,
    ensures
        counts_as_same(left, right, CompareMethod::Content, found) <==> left.size == right.size
            && found.bytes_equal,
        counts_as_same(left, right, CompareMethod::ModifiedTime, found) <==> left.modified.secs
            == right.modified.secs,
        counts_as_same(left, right, CompareMethod::ContentAndTime, found) <==> counts_as_same(
            left,
            right,
            CompareMethod::Content,
            found,
        ) && counts_as_same(left, right, CompareMethod::ModifiedTime, found),
{
}

/// Two links are the same where they name the same target, under every method and
/// whatever their sizes and times.
pub proof fn law_links_are_told_by_their_targets(
    left: DiffFileInfo,
    right: DiffFileInfo,
    method: CompareMethod,
    found: CompareEvidence,
)
    requires
        left.is_symlink,
        right.is_symlink,
    ensures
        counts_as_same(left, right, method, found) == found.links_equal,
{
}

/// Nothing is looked at that does not matter, and what matters is looked at: where no
/// bytes are asked for, they make no difference, and a file that is asked for its bytes
/// is the same exactly where they are. Links are never asked for bytes, nor files for
/// targets.
pub proof fn law_what_is_asked_for_decides(
    left: DiffFileInfo,
    right: DiffFileInfo,
    method: CompareMethod,
    found: CompareEvidence,
)
    ensures
        need_of(left, right, method) is Bytes ==> !left.is_symlink && !right.is_symlink && left.size
            == right.size && counts_as_same(left, right, method, found) == found.bytes_equal,
        need_of(left, right, method) is LinkTargets <==> left.is_symlink && right.is_symlink,
        method == CompareMethod::ModifiedTime ==> !(need_of(left, right, method) is Bytes),
        need_of(left, right, method) is Decided ==> counts_as_same(left, right, method, found)
            == counts_as_same(
            left,
            right,
            method,
            CompareEvidence { links_equal: !found.links_equal, bytes_equal: !found.bytes_equal },
        ),
{
}

/// What one read gave.
#[derive(Debug)]
pub enum ReadOutcome {
    Data(Vec<u8>),
    Eof,
    /// The read was interrupted and may be tried again.
    Interrupted,
    Failed(String),
}

/// What is to be done about a chunk that is being filled.
#[derive(Debug)]
pub enum FillStep {
    /// Read on.
    More,
    /// The chunk is full, or the file has ended.
    Done,
}

/// Takes in one read towards a chunk of `capacity` bytes: the chunk is done when
/// it is full or the file has ended; an interrupted read changes nothing; any
/// other failure is reported, never taken for the end.
pub fn read_exact_or_eof(chunk: &mut Vec<u8>, capacity: usize, outcome: ReadOutcome) -> (r: Result<
    FillStep,
    String,
>)
    requires
        old(chunk)@.len() < capacity,
        outcome matches ReadOutcome::Data(data) ==> 0 < data@.len() <= capacity
            - old(chunk)@.len(),
    ensures
        took_read(old(chunk)@, final(chunk)@, capacity as nat, outcome, r),
{
    match outcome {
        ReadOutcome::Failed(e) => Err(e),
        ReadOutcome::Interrupted => Ok(FillStep::More),
        ReadOutcome::Eof => Ok(FillStep::Done),
        ReadOutcome::Data(data) => {
            let mut data = data;
            chunk.append(&mut data);
            if chunk.len() == capacity {
                Ok(FillStep::Done)
            } else {
                Ok(FillStep::More)
            }
        },
    }
}

/// What two chunks say of two files that agreed so far.
#[derive(Debug, Clone, Copy, PartialEq, Eq, Structural)]
pub enum ChunkVerdict {
    /// The files differ.
    Different,
    /// Both files have ended: they are the same.
    Same,
    /// The chunks agree; the next ones decide.
    Undecided,
}

/// What two chunks say of two files that agreed so far. A chunk is empty at the
/// end of its file only.
pub open spec fn verdict_of(a: Seq<u8>, b: Seq<u8>) -> ChunkVerdict {
    if a != b {
        ChunkVerdict::Different
    } else if a.len() == 0 {
        ChunkVerdict::Same
    } else {
        ChunkVerdict::Undecided
    }
}

/// What two chunks say of two files that agreed so far.
pub fn compare_chunks(a: &Vec<u8>, b: &Vec<u8>) -> (r: ChunkVerdict)
    ensures
        r == verdict_of(a@, b@),
{
    if a.len() != b.len() {
        return ChunkVerdict::Different;
    }
    let mut i: usize = 0;
    while i < a.len()
        invariant
            i <= a@.len(),
            a@.len() == b@.len(),
            forall|k: int| 0 <= k < i ==> a@[k] == b@[k],
        decreases a@.len() - i,
    {
        if a[i] != b[i] {
            assert(a@[i as int] != b@[i as int]);
            return ChunkVerdict::Different;
        }
        i += 1;
    }
    assert(a@ == b@);
    if a.len() == 0 {
        ChunkVerdict::Same
    } else {
        ChunkVerdict::Undecided
    }
}

/// A chunk, or None where it could not be read.
pub open spec fn chunk_read(read: Result<Vec<u8>, String>) -> Option<Seq<u8>> {
    match read {
        Ok(chunk) => Some(chunk@),
        Err(_) => None,
    }
}

/// Whether two files are the same, by their next chunks; None where the chunks after
/// them decide. Files that cannot be read are not the same.
pub open spec fn decided(a: Option<Seq<u8>>, b: Option<Seq<u8>>) -> Option<bool> {
    if a is None || b is None {
        Some(false)
    } else {
        match verdict_of(a->0, b->0) {
            ChunkVerdict::Different => Some(false),
            ChunkVerdict::Same => Some(true),
            ChunkVerdict::Undecided => None,
        }
    }
}

/// Whether two files are the same, by their next chunks. None where the comparison
/// goes on with the chunks after them.
pub fn byte_compare(a: Result<Vec<u8>, String>, b: Result<Vec<u8>, String>) -> (r: Option<bool>)
    ensures
        r == decided(chunk_read(a), chunk_read(b)),
{
    match (a, b) {
        (Ok(a), Ok(b)) => match compare_chunks(&a, &b) {
            ChunkVerdict::Different => Some(false),
            ChunkVerdict::Same => Some(true),
            ChunkVerdict::Undecided => None,
        },
        _ => Some(false),
    }
}

/// The bytes of a file read in chunks.
pub open spec fn content(chunks: Seq<Seq<u8>>) -> Seq<u8>
    decreases chunks.len(),
{
    if chunks.len() == 0 {
        Seq::empty()
    } else {
        content(chunks.drop_last()) + chunks.last()
    }
}

/// Whether the chunks are those of a file: full ones, then at most one that is
/// not full, then the empty one at the end.
pub open spec fn chunks_of_file(chunks: Seq<Seq<u8>>, size: nat) -> bool {
    &&& size > 0
    &&& chunks.len() > 0
    &&& chunks.last().len() == 0
    &&& forall|i: int| 0 <= i < chunks.len() - 1 ==> 0 < (#[trigger] chunks[i]).len() <= size
    &&& forall|i: int| 0 <= i < chunks.len() - 2 ==> (#[trigger] chunks[i]).len() == size
}

proof fn lemma_content_prefix(chunks: Seq<Seq<u8>>, n: int)
    requires
        0 <= n <= chunks.len(),
    ensures
        content(chunks.take(n)).len() <= content(chunks).len(),
        content(chunks).take(content(chunks.take(n)).len() as int) == content(chunks.take(n)),
    decreases chunks.len() - n,
{
    if n == chunks.len() {
        assert(chunks.take(n) == chunks);
        assert(content(chunks).take(content(chunks).len() as int) == content(chunks));
    } else {
        lemma_content_prefix(chunks, n + 1);
        assert(chunks.take(n + 1).drop_last() == chunks.take(n));
        let a = content(chunks.take(n));
        let b = content(chunks.take(n + 1));
        assert(b.take(a.len() as int) == a);
        assert(content(chunks).take(a.len() as int) == content(chunks).take(b.len() as int).take(
            a.len() as int,
        ));
    }
}

proof fn lemma_full_chunks_length(chunks: Seq<Seq<u8>>, size: nat, n: int)
    requires
        0 <= n <= chunks.len(),
        forall|i: int| 0 <= i < n ==> (#[trigger] chunks[i]).len() == size,
    ensures
        content(chunks.take(n)).len() == size * n,
    decreases n,
{
    if n > 0 {
        lemma_full_chunks_length(chunks, size, n - 1);
        assert(chunks.take(n).drop_last() == chunks.take(n - 1));
        assert(chunks.take(n).last() == chunks[n - 1]);
        assert(size * n == size * (n - 1) + size) by (nonlinear_arith);
    } else {
        assert(chunks.take(0).len() == 0);
        assert(size * 0 == 0) by (nonlinear_arith);
    }
}

/// Two files read in chunks of one size hold the same bytes exactly where their
/// chunks agree one by one: stopping at the first pair that differs misses
/// nothing.
pub proof fn law_chunks_decide_equality(a: Seq<Seq<u8>>, b: Seq<Seq<u8>>, size: nat)
    requires
        chunks_of_file(a, size),
        chunks_of_file(b, size),
    ensures
        content(a) == content(b) <==> a == b,
    decreases a.len(),
{
    if content(a) == content(b) && a != b {
        let n = first_difference(a, b, 0);
        lemma_first_difference(a, b, 0);
        // Before position n all chunks agree, and none of them is the last one.
        assert(a.take(n) == b.take(n));
        lemma_content_prefix(a, n);
        lemma_content_prefix(b, n);
        let head = content(a.take(n)).len() as int;
        lemma_tail(a, size, n);
        lemma_tail(b, size, n);
        let rest_a = content(a).skip(head);
        let rest_b = content(b).skip(head);
        assert(a[n] == rest_a.take(a[n].len() as int));
        assert(b[n] == rest_b.take(b[n].len() as int));
        assert(rest_a == rest_b);
        assert(a[n].len() == b[n].len());
        assert(false);
    }
}

spec fn first_difference(a: Seq<Seq<u8>>, b: Seq<Seq<u8>>, from: int) -> int
    decreases a.len() - from,
{
    if from >= a.len() || from >= b.len() || a[from] != b[from] {
        from
    } else {
        first_difference(a, b, from + 1)
    }
}

proof fn lemma_first_difference(a: Seq<Seq<u8>>, b: Seq<Seq<u8>>, from: int)
    requires
        0 <= from,
        from <= a.len(),
        from <= b.len(),
        forall|i: int| 0 <= i < from ==> a[i] == b[i],
        a != b,
        a.len() > 0,
        b.len() > 0,
        a.last().len() == 0,
        b.last().len() == 0,
        forall|i: int| 0 <= i < a.len() - 1 ==> 0 < (#[trigger] a[i]).len(),
        forall|i: int| 0 <= i < b.len() - 1 ==> 0 < (#[trigger] b[i]).len(),
    ensures
        from <= first_difference(a, b, from) < a.len(),
        first_difference(a, b, from) < b.len(),
        a[first_difference(a, b, from)] != b[first_difference(a, b, from)],
        forall|i: int| 0 <= i < first_difference(a, b, from) ==> a[i] == b[i],
    decreases a.len() - from,
{
    if from >= a.len() || from >= b.len() {
        if from >= a.len() && from >= b.len() {
            assert(a == b);
        } else if from >= a.len() {
            assert(a[a.len() - 1] == b[a.len() - 1]);
            assert(0 < b[a.len() - 1].len());
        } else {
            assert(a[b.len() - 1] == b[b.len() - 1]);
            assert(0 < a[b.len() - 1].len());
        }
    } else if a[from] == b[from] {
        lemma_first_difference(a, b, from + 1);
    }
}

/// What follows the first `n` chunks begins with chunk `n`, which is as long as
/// what follows, up to the size of a chunk.
proof fn lemma_tail(chunks: Seq<Seq<u8>>, size: nat, n: int)
    requires
        chunks_of_file(chunks, size),
        0 <= n < chunks.len(),
    ensures
        ({
            let head = content(chunks.take(n)).len() as int;
            let rest = content(chunks).skip(head);
            &&& head <= content(chunks).len()
            &&& chunks[n].len() <= rest.len()
            &&& chunks[n] == rest.take(chunks[n].len() as int)
            &&& chunks[n].len() == if rest.len() < size { rest.len() } else { size }
        }),
{
    lemma_content_prefix(chunks, n);
    lemma_content_prefix(chunks, n + 1);
    assert(chunks.take(n + 1).drop_last() == chunks.take(n));
    assert(chunks.take(n + 1).last() == chunks[n]);
    let head = content(chunks.take(n)).len() as int;
    let rest = content(chunks).skip(head);
    let upto = content(chunks.take(n + 1));
    assert(upto == content(chunks.take(n)) + chunks[n]);
    assert(content(chunks).take(upto.len() as int) == upto);
    assert(rest.take(chunks[n].len() as int) == content(chunks).take(upto.len() as int).skip(head));
    assert(upto.skip(head) == chunks[n]);
    if n == chunks.len() - 1 {
        assert(chunks.take(n + 1) == chunks);
        assert(rest.len() == 0);
    } else if n == chunks.len() - 2 {
        assert(chunks.take(n + 2) == chunks);
        assert(chunks.drop_last() == chunks.take(n + 1));
        assert(content(chunks) == upto + chunks.last());
        assert(rest.len() == chunks[n].len());
    } else {
        assert(chunks[n].len() == size);
    }
}

/// The chunks that were read.
pub open spec fn chunks_read(reads: Seq<Option<Seq<u8>>>) -> Seq<Seq<u8>> {
    Seq::new(reads.len(), |i: int| reads[i]->0)
}

/// Whether a file was read to its end without an error.
pub open spec fn read_whole(reads: Seq<Option<Seq<u8>>>, size: nat) -> bool {
    &&& forall|i: int| 0 <= i < reads.len() ==> (#[trigger] reads[i]) is Some
    &&& chunks_of_file(chunks_read(reads), size)
}

/// Whether reading a file stopped with an error, behind chunks that are not its end.
pub open spec fn read_failed(reads: Seq<Option<Seq<u8>>>) -> bool {
    &&& reads.len() > 0
    &&& reads.last() is None
    &&& forall|i: int|
        0 <= i < reads.len() - 1 ==> (#[trigger] reads[i]) is Some && reads[i]->0.len() > 0
}

/// What comparing two files comes to, from their chunks with position `at` on: the
/// first chunks that decide.
pub open spec fn compared(
    a: Seq<Option<Seq<u8>>>,
    b: Seq<Option<Seq<u8>>>,
    at: int,
) -> Option<bool>
    decreases a.len() - at,
{
    if at >= a.len() || at >= b.len() {
        None
    } else {
        match decided(a[at], b[at]) {
            Some(same) => Some(same),
            None => compared(a, b, at + 1),
        }
    }
}

/// Whether only the last read can be an end or an error.
spec fn ends_last(reads: Seq<Option<Seq<u8>>>) -> bool {
    &&& reads.len() > 0
    &&& reads.last() is None || reads.last()->0.len() == 0
    &&& forall|i: int|
        0 <= i < reads.len() - 1 ==> (#[trigger] reads[i]) is Some && reads[i]->0.len() > 0
}

proof fn lemma_compared(a: Seq<Option<Seq<u8>>>, b: Seq<Option<Seq<u8>>>, at: int)
    requires
        ends_last(a),
        ends_last(b),
        0 <= at < a.len(),
        at < b.len(),
        forall|i: int| 0 <= i < at ==> #[trigger] a[i] == b[i],
    ensures
        compared(a, b, at) == Some(a == b && a.last() is Some),
    decreases a.len() - at,
{
    if a[at] is Some && b[at] is Some && a[at]->0 == b[at]->0 {
        assert(a[at] == b[at]);
        if a[at]->0.len() == 0 {
            assert(at == a.len() - 1);
            assert(at == b.len() - 1);
            assert(a =~= b);
        } else {
            assert(at < a.len() - 1);
            assert(at < b.len() - 1);
            lemma_compared(a, b, at + 1);
        }
    } else if a[at] is None {
        assert(at == a.len() - 1);
    } else {
        assert(a[at] != b[at]);
    }
}

/// Comparing two files chunk by chunk tells exactly whether both can be read to their
/// ends and hold the same bytes, however long they are. Which of the two comes first
/// does not matter.
pub proof fn law_comparing_bytes_decides_equality(
    a: Seq<Option<Seq<u8>>>,
    b: Seq<Option<Seq<u8>>>,
    size: nat,
)
    requires
        read_whole(a, size) || read_failed(a),
        read_whole(b, size) || read_failed(b),
    ensures
        compared(a, b, 0) == Some(
            read_whole(a, size) && read_whole(b, size) && content(chunks_read(a)) == content(
                chunks_read(b),
            ),
        ),
        compared(a, b, 0) == compared(b, a, 0),
{
    lemma_read_ends_last(a, size);
    lemma_read_ends_last(b, size);
    lemma_compared(a, b, 0);
    lemma_compared(b, a, 0);
    if read_whole(a, size) && read_whole(b, size) {
        law_chunks_decide_equality(chunks_read(a), chunks_read(b), size);
        if chunks_read(a) == chunks_read(b) {
            assert forall|i: int| 0 <= i < a.len() implies #[trigger] a[i] == b[i] by {
                assert(chunks_read(a)[i] == chunks_read(b)[i]);
                assert(b[i] is Some);
            }
            assert(a =~= b);
        }
        assert(a.last() is Some);
    } else if a == b {
        assert(a.last() is None);
    }
}

proof fn lemma_read_ends_last(reads: Seq<Option<Seq<u8>>>, size: nat)
    requires
        read_whole(reads, size) || read_failed(reads),
    ensures
        ends_last(reads),
        read_whole(reads, size) ==> reads.last() is Some,
{
    if read_whole(reads, size) {
        let chunks = chunks_read(reads);
        assert(chunks.last() == reads.last()->0);
        assert forall|i: int| 0 <= i < reads.len() - 1 implies (#[trigger] reads[i]) is Some
            && reads[i]->0.len() > 0 by {
            assert(chunks[i].len() > 0);
        }
    }
}

/// What one read towards a chunk comes to.
pub open spec fn took_read(
    before: Seq<u8>,
    after: Seq<u8>,
    capacity: nat,
    outcome: ReadOutcome,
    r: Result<FillStep, String>,
) -> bool {
    match outcome {
        ReadOutcome::Failed(e) => r == Err::<FillStep, String>(e) && after == before,
        ReadOutcome::Interrupted => r == Ok::<FillStep, String>(FillStep::More) && after == before,
        ReadOutcome::Eof => r == Ok::<FillStep, String>(FillStep::Done) && after == before,
        ReadOutcome::Data(data) => {
            &&& after == before + data@
            &&& r == Ok::<FillStep, String>(
                if after.len() == capacity { FillStep::Done } else { FillStep::More },
            )
        },
    }
}

/// A chunk only grows, by what was read; it ends where it is full or the file is, and a
/// failure is never taken for the end.
pub proof fn law_chunk_grows_by_what_was_read(
    before: Seq<u8>,
    after: Seq<u8>,
    capacity: nat,
    outcome: ReadOutcome,
    r: Result<FillStep, String>,
)
    requires
        before.len() < capacity,
        took_read(before, after, capacity, outcome, r),
    ensures
        before.is_prefix_of(after),
        outcome matches ReadOutcome::Data(data) ==> after.skip(before.len() as int) == data@,
        !(outcome is Data) ==> after == before,
        outcome is Failed <==> r is Err,
        r matches Ok(step) ==> (step is Done <==> outcome is Eof || after.len() == capacity),
{
}

/// Links are the same where their targets are, and files where what has to be looked at is:
/// each by its own evidence, whatever the other says.
pub proof fn law_evidence_decides(
    left: DiffFileInfo,
    right: DiffFileInfo,
    method: CompareMethod,
    found: CompareEvidence,
)
    ensures
        left.is_symlink && right.is_symlink ==> counts_as_same(left, right, method, found)
            == found.links_equal,
        left.is_symlink != right.is_symlink ==> !counts_as_same(left, right, method, found),
        !left.is_symlink && !right.is_symlink && method == CompareMethod::ModifiedTime
            ==> counts_as_same(left, right, method, found) == (left.modified.secs
            == right.modified.secs),
        !left.is_symlink && !right.is_symlink && method == CompareMethod::Content ==> counts_as_same(
            left,
            right,
            method,
            found,
        ) == (left.size == right.size && found.bytes_equal),
        !left.is_symlink && !right.is_symlink && method == CompareMethod::ContentAndTime
            ==> counts_as_same(left, right, method, found) == (left.size == right.size
            && left.modified.secs == right.modified.secs && found.bytes_equal),
        counts_as_same(left, right, method, found) == counts_as_same(right, left, method, found),
{
}

} // verus!
