//! Text as sequences of characters: the small vocabulary in which the rest of
//! the library states what it does to paths, names and messages.

use vstd::prelude::*;

verus! {

/// `String::push` appends one character at the end.
pub assume_specification[ String::push ](s: &mut String, ch: char)
    ensures
        final(s)@ == old(s)@.push(ch),
;

/// Every occurrence of `from` replaced by `to`.
pub open spec fn replaced(s: Seq<char>, from: char, to: char) -> Seq<char> {
    Seq::new(s.len(), |i: int| if s[i] == from { to } else { s[i] })
}

/// The text without the run of `c` at its end.
pub open spec fn trimmed_end(s: Seq<char>, c: char) -> Seq<char>
    decreases s.len(),
{
    if s.len() > 0 && s.last() == c {
        trimmed_end(s.drop_last(), c)
    } else {
        s
    }
}

/// The last position of `c`, or -1 where it does not occur.
pub open spec fn last_position(s: Seq<char>, c: char) -> int
    decreases s.len(),
{
    if s.len() == 0 {
        -1
    } else if s.last() == c {
        s.len() - 1
    } else {
        last_position(s.drop_last(), c)
    }
}

/// The pieces between the occurrences of `c`: one more than there are
/// occurrences, the empty ones included.
pub open spec fn split_on(s: Seq<char>, c: char) -> Seq<Seq<char>>
    decreases s.len(),
{
    if s.len() == 0 {
        seq![Seq::<char>::empty()]
    } else {
        let before = split_on(s.drop_last(), c);
        if s.last() == c {
            before.push(Seq::<char>::empty())
        } else {
            before.drop_last().push(before.last().push(s.last()))
        }
    }
}

/// The pieces joined with `sep` between neighbours.
pub open spec fn joined(parts: Seq<Seq<char>>, sep: Seq<char>) -> Seq<char>
    decreases parts.len(),
{
    if parts.len() == 0 {
        Seq::empty()
    } else if parts.len() == 1 {
        parts[0]
    } else {
        joined(parts.drop_last(), sep) + sep + parts.last()
    }
}

/// The decimal numeral of a natural number.
pub open spec fn decimal(n: nat) -> Seq<char>
    decreases n,
{
    if n < 10 {
        seq![digit_char(n)]
    } else {
        decimal(n / 10).push(digit_char(n % 10))
    }
}

pub open spec fn digit_char(d: nat) -> char {
    ('0' as u32 + d) as char
}

/// The views of a list of strings.
pub open spec fn views(v: Seq<String>) -> Seq<Seq<char>> {
    Seq::new(v.len(), |i: int| v[i]@)
}

/// Whether `needle` stands at position `at` of `s`.
pub open spec fn occurs_at(s: Seq<char>, needle: Seq<char>, at: int) -> bool {
    0 <= at && at + needle.len() <= s.len() && s.subrange(at, at + needle.len()) == needle
}

/// The characters of a string, in order.
pub fn chars_of(s: &str) -> (r: Vec<char>)
    ensures
        r@ == s@,
{
    let mut r: Vec<char> = Vec::new();
    for c in it: s.chars()
        invariant
            r@ == it.seq().take(it.index()),
            it.seq() == s@,
    {
        r.push(c);
        assert(it.seq().take(it.index() + 1) == it.seq().take(it.index()).push(c));
    }
    assert(s@.take(s@.len() as int) == s@);
    r
}

/// The string made of the given characters.
pub fn string_of(v: &Vec<char>) -> (r: String)
    ensures
        r@ == v@,
{
    let mut r = String::new();
    let mut i: usize = 0;
    while i < v.len()
        invariant
            i <= v.len(),
            r@ == v@.take(i as int),
        decreases v.len() - i,
    {
        r.push(v[i]);
        assert(v@.take(i + 1) == v@.take(i as int).push(v[i as int]));
        i += 1;
    }
    assert(v@.take(v@.len() as int) == v@);
    r
}

/// The characters from `from` to `to`, the end excluded.
pub fn slice_of(v: &Vec<char>, from: usize, to: usize) -> (r: Vec<char>)
    requires
        from <= to <= v@.len(),
    ensures
        r@ == v@.subrange(from as int, to as int),
{
    let mut r: Vec<char> = Vec::new();
    let mut i: usize = from;
    while i < to
        invariant
            from <= i <= to <= v@.len(),
            r@ == v@.subrange(from as int, i as int),
        decreases to - i,
    {
        r.push(v[i]);
        assert(v@.subrange(from as int, i + 1) == v@.subrange(from as int, i as int).push(v[i as int]));
        i += 1;
    }
    r
}

/// Whether two character lists are the same.
pub fn same_chars(a: &Vec<char>, b: &Vec<char>) -> (r: bool)
    ensures
        r == (a@ == b@),
{
    if a.len() != b.len() {
        return false;
    }
    let mut i: usize = 0;
    while i < a.len()
        invariant
            i <= a.len(),
            a.len() == b.len(),
            a@.take(i as int) == b@.take(i as int),
        decreases a.len() - i,
    {
        if a[i] != b[i] {
            assert(a@[i as int] != b@[i as int]);
            return false;
        }
        assert(a@.take(i + 1) == a@.take(i as int).push(a[i as int]));
        assert(b@.take(i + 1) == b@.take(i as int).push(b[i as int]));
        i += 1;
    }
    assert(a@.take(i as int) == a@);
    assert(b@.take(i as int) == b@);
    true
}

/// Whether two strings hold the same text.
pub fn same_text(a: &str, b: &str) -> (r: bool)
    ensures
        r == (a@ == b@),
{
    let x = a.to_owned();
    let y = b.to_owned();
    x == y
}

/// Whether `needle` stands at position `at` of `v`.
pub fn stands_at(v: &Vec<char>, needle: &Vec<char>, at: usize) -> (r: bool)
    ensures
        r == occurs_at(v@, needle@, at as int),
{
    if at > v.len() || needle.len() > v.len() - at {
        return false;
    }
    let piece = slice_of(v, at, at + needle.len());
    same_chars(&piece, needle)
}

/// Whether the text begins with `prefix`.
pub fn starts_with_text(s: &str, prefix: &str) -> (r: bool)
    ensures
        r == prefix@.is_prefix_of(s@),
{
    let v = chars_of(s);
    let p = chars_of(prefix);
    let r = stands_at(&v, &p, 0);
    proof {
        if r {
            assert(s@.subrange(0, prefix@.len() as int) == prefix@);
        }
    }
    r
}

/// Whether the text ends with `suffix`.
pub fn ends_with_text(s: &str, suffix: &str) -> (r: bool)
    ensures
        r == suffix@.is_suffix_of(s@),
{
    let v = chars_of(s);
    let p = chars_of(suffix);
    if p.len() > v.len() {
        return false;
    }
    stands_at(&v, &p, v.len() - p.len())
}

/// Whether the character occurs.
pub fn has_char(v: &Vec<char>, c: char) -> (r: bool)
    ensures
        r == v@.contains(c),
{
    let mut i: usize = 0;
    while i < v.len()
        invariant
            i <= v.len(),
            forall|j: int| 0 <= j < i ==> v@[j] != c,
        decreases v.len() - i,
    {
        if v[i] == c {
            assert(v@[i as int] == c);
            return true;
        }
        i += 1;
    }
    false
}

/// The last position of `c`, or `None`.
pub fn find_last(v: &Vec<char>, c: char) -> (r: Option<usize>)
    ensures
        match r {
            Some(i) => i == last_position(v@, c),
            None => last_position(v@, c) == -1,
        },
{
    let mut n: usize = v.len();
    assert(v@.take(n as int) == v@);
    while n > 0
        invariant
            n <= v.len(),
            last_position(v@, c) == last_position(v@.take(n as int), c),
        decreases n,
    {
        assert(v@.take(n as int).drop_last() == v@.take(n - 1));
        if v[n - 1] == c {
            return Some(n - 1);
        }
        n -= 1;
    }
    None
}

/// The text with every `from` replaced by `to`.
pub fn replace_char(v: &Vec<char>, from: char, to: char) -> (r: Vec<char>)
    ensures
        r@ == replaced(v@, from, to),
{
    let mut r: Vec<char> = Vec::new();
    let mut i: usize = 0;
    while i < v.len()
        invariant
            i <= v.len(),
            r@ == replaced(v@, from, to).take(i as int),
        decreases v.len() - i,
    {
        let c = if v[i] == from { to } else { v[i] };
        r.push(c);
        assert(replaced(v@, from, to).take(i + 1) == replaced(v@, from, to).take(i as int).push(c));
        i += 1;
    }
    assert(replaced(v@, from, to).take(i as int) == replaced(v@, from, to));
    r
}

/// The text without the run of `c` at its end.
pub fn trim_end(v: &Vec<char>, c: char) -> (r: Vec<char>)
    ensures
        r@ == trimmed_end(v@, c),
{
    let mut n: usize = v.len();
    assert(v@.take(n as int) == v@);
    while n > 0 && v[n - 1] == c
        invariant
            n <= v.len(),
            trimmed_end(v@, c) == trimmed_end(v@.take(n as int), c),
        decreases n,
    {
        assert(v@.take(n as int).drop_last() == v@.take(n - 1));
        n -= 1;
    }
    let r = slice_of(v, 0, n);
    assert(r@ == v@.take(n as int));
    r
}

/// The pieces between the occurrences of `c`.
pub fn split_text(v: &Vec<char>, c: char) -> (r: Vec<Vec<char>>)
    ensures
        r@.len() == split_on(v@, c).len(),
        forall|i: int| 0 <= i < r@.len() ==> (#[trigger] r@[i])@ == split_on(v@, c)[i],
{
    let mut r: Vec<Vec<char>> = Vec::new();
    let mut piece: Vec<char> = Vec::new();
    let mut i: usize = 0;
    assert(v@.take(0) == Seq::<char>::empty());
    while i < v.len()
        invariant
            i <= v.len(),
            split_on(v@.take(i as int), c).len() == r@.len() + 1,
            split_on(v@.take(i as int), c).last() == piece@,
            forall|j: int| 0 <= j < r@.len() ==> (#[trigger] r@[j])@ == split_on(v@.take(i as int), c)[j],
        decreases v.len() - i,
    {
        assert(v@.take(i + 1).drop_last() == v@.take(i as int));
        assert(v@.take(i + 1).last() == v@[i as int]);
        if v[i] == c {
            r.push(piece);
            piece = Vec::new();
        } else {
            piece.push(v[i]);
        }
        i += 1;
    }
    assert(v@.take(i as int) == v@);
    r.push(piece);
    r
}

/// Two texts, one after the other.
pub fn concat2(a: &str, b: &str) -> (r: String)
    ensures
        r@ == a@ + b@,
{
    let mut r = a.to_owned();
    r.append(b);
    r
}

/// Three texts, one after the other.
pub fn concat3(a: &str, b: &str, c: &str) -> (r: String)
    ensures
        r@ == a@ + b@ + c@,
{
    let mut r = a.to_owned();
    r.append(b);
    r.append(c);
    r
}

/// Four texts, one after the other.
pub fn concat4(a: &str, b: &str, c: &str, d: &str) -> (r: String)
    ensures
        r@ == a@ + b@ + c@ + d@,
{
    let mut r = a.to_owned();
    r.append(b);
    r.append(c);
    r.append(d);
    r
}

/// Five texts, one after the other.
pub fn concat5(a: &str, b: &str, c: &str, d: &str, e: &str) -> (r: String)
    ensures
        r@ == a@ + b@ + c@ + d@ + e@,
{
    let mut r = a.to_owned();
    r.append(b);
    r.append(c);
    r.append(d);
    r.append(e);
    r
}

/// The decimal numeral of a number.
pub fn number_text(n: u64) -> (r: String)
    ensures
        r@ == decimal(n as nat),
{
    let v = number_chars(n);
    string_of(&v)
}

fn number_chars(n: u64) -> (r: Vec<char>)
    ensures
        r@ == decimal(n as nat),
    decreases n,
{
    if n < 10 {
        let mut r: Vec<char> = Vec::new();
        r.push(digit_of(n));
        r
    } else {
        let mut r = number_chars(n / 10);
        r.push(digit_of(n % 10));
        r
    }
}

fn digit_of(d: u64) -> (r: char)
    requires
        d < 10,
    ensures
        r == digit_char(d as nat),
{
    match d {
        0 => '0',
        1 => '1',
        2 => '2',
        3 => '3',
        4 => '4',
        5 => '5',
        6 => '6',
        7 => '7',
        8 => '8',
        _ => '9',
    }
}

/// Whether a character is white space: those with the Unicode property
/// `White_Space`.
pub open spec fn is_space(c: char) -> bool {
    let n = c as u32;
    ||| 0x9 <= n <= 0xd
    ||| n == 0x20
    ||| n == 0x85
    ||| n == 0xa0
    ||| n == 0x1680
    ||| 0x2000 <= n <= 0x200a
    ||| n == 0x2028
    ||| n == 0x2029
    ||| n == 0x202f
    ||| n == 0x205f
    ||| n == 0x3000
}

/// Whether a character is white space.
pub fn space_char(c: char) -> (r: bool)
    ensures
        r == is_space(c),
{
    let n: u32 = c as u32;
    (0x9 <= n && n <= 0xd) || n == 0x20 || n == 0x85 || n == 0xa0 || n == 0x1680 || (0x2000 <= n && n
        <= 0x200a) || n == 0x2028 || n == 0x2029 || n == 0x202f || n == 0x205f || n == 0x3000
}

/// Whether a text holds nothing but white space.
pub open spec fn blank(s: Seq<char>) -> bool {
    forall|i: int| 0 <= i < s.len() ==> is_space(#[trigger] s[i])
}

/// A text without the white space at its end.
pub open spec fn spaces_trimmed_end(s: Seq<char>) -> Seq<char>
    decreases s.len(),
{
    if s.len() > 0 && is_space(s.last()) {
        spaces_trimmed_end(s.drop_last())
    } else {
        s
    }
}

/// Whether a text holds nothing but white space.
pub fn is_blank(s: &str) -> (r: bool)
    ensures
        r == blank(s@),
{
    let v = chars_of(s);
    let mut i: usize = 0;
    while i < v.len()
        invariant
            i <= v@.len(),
            v@ == s@,
            forall|k: int| 0 <= k < i ==> is_space(#[trigger] s@[k]),
        decreases v@.len() - i,
    {
        if !space_char(v[i]) {
            assert(!is_space(s@[i as int]));
            return false;
        }
        i += 1;
    }
    true
}

/// A text without the white space at its end.
pub fn trim_spaces_end(s: &str) -> (r: String)
    ensures
        r@ == spaces_trimmed_end(s@),
{
    let v = chars_of(s);
    let mut n: usize = v.len();
    assert(s@.take(n as int) =~= s@);
    while n > 0 && space_char(v[n - 1])
        invariant
            n <= v@.len(),
            v@ == s@,
            spaces_trimmed_end(s@) == spaces_trimmed_end(s@.take(n as int)),
        decreases n,
    {
        assert(s@.take(n as int).drop_last() =~= s@.take(n - 1));
        assert(s@.take(n as int).last() == s@[n - 1]);
        n -= 1;
    }
    assert(n > 0 ==> s@.take(n as int).last() == s@[n - 1]);
    let head = slice_of(&v, 0, n);
    assert(head@ =~= s@.take(n as int));
    string_of(&head)
}

/// The texts joined with `sep` between neighbours.
pub fn join_texts(parts: &Vec<String>, sep: &str) -> (r: String)
    ensures
        r@ == joined(views(parts@), sep@),
{
    let mut r = String::new();
    let mut i: usize = 0;
    assert(views(parts@).take(0) =~= Seq::<Seq<char>>::empty());
    while i < parts.len()
        invariant
            i <= parts@.len(),
            r@ == joined(views(parts@).take(i as int), sep@),
        decreases parts@.len() - i,
    {
        let ghost longer = views(parts@).take(i + 1);
        assert(longer.drop_last() =~= views(parts@).take(i as int));
        if i == 0 {
            r = parts[i].clone();
            assert(longer.len() == 1);
        } else {
            r = concat3(r.as_str(), sep, parts[i].as_str());
        }
        i += 1;
    }
    assert(views(parts@).take(i as int) =~= views(parts@));
    r
}

/// One more text in a list is one more in its set.
pub proof fn lemma_push_to_set(list: Seq<Seq<char>>, x: Seq<char>)
    ensures
        list.push(x).to_set() == list.to_set().insert(x),
{
    let longer = list.push(x);
    assert forall|y: Seq<char>| longer.contains(y) <==> (list.contains(y) || y == x) by {
        if list.contains(y) {
            let k = choose|k: int| 0 <= k < list.len() && list[k] == y;
            assert(longer[k] == y);
        }
        if y == x {
            assert(longer[list.len() as int] == y);
        }
        if longer.contains(y) && y != x {
            let k = choose|k: int| 0 <= k < longer.len() && longer[k] == y;
            assert(list[k] == y);
        }
    }
    assert(longer.to_set() =~= list.to_set().insert(x));
}

/// Splitting a text and joining the pieces gives the text back, and no piece holds what
/// it was split on.
pub proof fn law_pieces_make_the_text(s: Seq<char>, c: char)
    ensures
        joined(split_on(s, c), seq![c]) == s,
        split_on(s, c).len() > 0,
        forall|i: int|
            0 <= i < split_on(s, c).len() ==> !(#[trigger] split_on(s, c)[i]).contains(c),
    decreases s.len(),
{
    if s.len() == 0 {
        assert(s =~= Seq::empty());
    } else {
        law_pieces_make_the_text(s.drop_last(), c);
        let before = split_on(s.drop_last(), c);
        let now = split_on(s, c);
        assert(s =~= s.drop_last().push(s.last()));
        if s.last() == c {
            assert(now.drop_last() =~= before);
            assert(joined(before, seq![c]) + seq![c] + Seq::<char>::empty() =~= s);
        } else {
            assert(now.drop_last() =~= before.drop_last());
            let piece = before.last().push(s.last());
            assert(now.last() == piece);
            if before.len() == 1 {
                assert(before[0] == before.last());
            } else {
                assert(joined(before.drop_last(), seq![c]) + seq![c] + piece =~= (joined(
                    before.drop_last(),
                    seq![c],
                ) + seq![c] + before.last()).push(s.last()));
            }
        }
        assert forall|i: int| 0 <= i < now.len() implies !(#[trigger] now[i]).contains(c) by {
            if i < before.len() - 1 {
                assert(now[i] == before[i]);
            } else if s.last() != c {
                let last = before.last();
                assert(last == before[before.len() - 1]);
                assert(now[i] == last.push(s.last()));
                if now[i].contains(c) {
                    let k = choose|k: int| 0 <= k < now[i].len() && now[i][k] == c;
                    if k < last.len() {
                        assert(last[k] == c);
                    }
                }
            } else if i < before.len() {
                assert(now[i] == before[i]);
            }
        }
    }
}

/// A text without the separator is one piece, and what follows the last separator is the
/// last piece.
pub proof fn law_last_piece(s: Seq<char>, piece: Seq<char>, c: char)
    requires
        !piece.contains(c),
    ensures
        split_on(piece, c) == seq![piece],
        split_on(s + seq![c] + piece, c) == split_on(s, c).push(piece),
    decreases piece.len(),
{
    let whole = s + seq![c] + piece;
    if piece.len() == 0 {
        assert(piece =~= Seq::empty());
        assert(whole.drop_last() =~= s);
        assert(whole.last() == c);
    } else {
        let shorter = piece.drop_last();
        assert forall|i: int| 0 <= i < shorter.len() implies shorter[i] != c by {
            assert(piece[i] == shorter[i]);
        }
        law_last_piece(s, shorter, c);
        assert(piece[piece.len() - 1] != c);
        assert(whole.drop_last() =~= s + seq![c] + shorter);
        assert(whole.last() == piece.last());
        assert(shorter.push(piece.last()) =~= piece);
        let before = split_on(s, c);
        assert(before.push(shorter).drop_last() =~= before);
        assert(seq![shorter].drop_last() =~= Seq::empty());
        assert(split_on(piece, c) =~= seq![piece]);
        assert(split_on(whole, c) =~= before.push(piece));
    }
}

/// What stands before the first separator is the first piece.
pub proof fn law_first_piece(piece: Seq<char>, rest: Seq<char>, c: char)
    requires
        !piece.contains(c),
    ensures
        split_on(piece + seq![c] + rest, c).len() > 1,
        split_on(piece + seq![c] + rest, c)[0] == piece,
    decreases rest.len(),
{
    let whole = piece + seq![c] + rest;
    if rest.len() == 0 {
        assert(whole.drop_last() =~= piece);
        assert(whole.last() == c);
        law_last_piece(Seq::empty(), piece, c);
    } else {
        assert(whole.drop_last() =~= piece + seq![c] + rest.drop_last());
        law_first_piece(piece, rest.drop_last(), c);
    }
}

/// Replacing a character leaves none of it, changes no other, and keeps every place.
pub proof fn law_replacing_leaves_none(s: Seq<char>, from: char, to: char)
    ensures
        from != to ==> !replaced(s, from, to).contains(from),
        replaced(s, from, to).len() == s.len(),
        !s.contains(from) ==> replaced(s, from, to) == s,
        !s.contains(to) ==> replaced(replaced(s, from, to), to, from) == s,
{
    let r = replaced(s, from, to);
    if from != to && r.contains(from) {
        let k = choose|k: int| 0 <= k < r.len() && r[k] == from;
        assert(s[k] == from || s[k] != from);
    }
    if !s.contains(from) {
        assert forall|i: int| 0 <= i < s.len() implies s[i] != from by {
            assert(s.contains(s[i]));
        }
        assert(r =~= s);
    }
    if !s.contains(to) {
        assert forall|i: int| 0 <= i < s.len() implies s[i] != to by {
            assert(s.contains(s[i]));
        }
        assert(replaced(r, to, from) =~= s);
    }
}

/// Trimming takes every copy of the character off the end, and nothing else.
pub proof fn law_trimming_takes_the_end(s: Seq<char>, c: char, n: nat)
    requires
        s.len() == 0 || s.last() != c,
    ensures
        trimmed_end(s + Seq::new(n, |i: int| c), c) == s,
    decreases n,
{
    let tail = Seq::new(n, |i: int| c);
    if n == 0 {
        assert(s + tail =~= s);
    } else {
        let less = (n - 1) as nat;
        law_trimming_takes_the_end(s, c, less);
        assert((s + tail).drop_last() =~= s + Seq::new(less, |i: int| c));
        assert((s + tail).last() == c);
    }
}

/// Trimming spaces takes all of them off the end, and nothing else.
pub proof fn law_trimming_takes_the_spaces(s: Seq<char>, spaces: Seq<char>)
    requires
        s.len() == 0 || !is_space(s.last()),
        blank(spaces),
    ensures
        spaces_trimmed_end(s + spaces) == s,
    decreases spaces.len(),
{
    let whole = s + spaces;
    if spaces.len() == 0 {
        assert(whole =~= s);
    } else {
        let less = spaces.drop_last();
        assert forall|i: int| 0 <= i < less.len() implies is_space(#[trigger] less[i]) by {
            assert(less[i] == spaces[i]);
        }
        law_trimming_takes_the_spaces(s, less);
        assert(whole.drop_last() =~= s + less);
        assert(whole.last() == spaces[spaces.len() - 1]);
    }
}

/// The spaces among the characters of one byte: the blank, the tabs and the line ends.
pub proof fn law_spaces_of_plain_text(c: char)
    requires
        (c as u32) < 128,
    ensures
        is_space(c) <==> {
            ||| c == ' '
            ||| c == '\t'
            ||| c == '\n'
            ||| c == '\r'
            ||| c as u32 == 0xb
            ||| c as u32 == 0xc
        },
{
    assert(c as u32 == ' ' as u32 ==> c == ' ');
    assert(c as u32 == '\t' as u32 ==> c == '\t');
    assert(c as u32 == '\n' as u32 ==> c == '\n');
    assert(c as u32 == '\r' as u32 ==> c == '\r');
}

/// The number that a numeral stands for.
pub open spec fn number_of(s: Seq<char>) -> int
    decreases s.len(),
{
    if s.len() == 0 {
        0
    } else {
        10 * number_of(s.drop_last()) + (s.last() as u32 - '0' as u32)
    }
}

/// A numeral stands for its number, and is made of digits only.
pub proof fn law_numeral_stands_for_its_number(n: nat)
    ensures
        number_of(decimal(n)) == n,
        decimal(n).len() > 0,
        forall|i: int| 0 <= i < decimal(n).len() ==> '0' <= #[trigger] decimal(n)[i] <= '9',
        n > 0 ==> decimal(n)[0] != '0',
    decreases n,
{
    if n < 10 {
        assert(seq![digit_char(n)].drop_last() =~= Seq::empty());
        reveal_with_fuel(number_of, 2);
        assert(digit_char(n) as u32 == '0' as u32 + n);
    } else {
        law_numeral_stands_for_its_number(n / 10);
        let head = decimal(n / 10);
        assert(decimal(n).drop_last() =~= head);
        assert(digit_char(n % 10) as u32 == '0' as u32 + n % 10);
        assert(decimal(n)[0] == head[0]);
        assert forall|i: int| 0 <= i < decimal(n).len() implies '0' <= #[trigger] decimal(n)[i]
            <= '9' by {
            if i < head.len() {
                assert(decimal(n)[i] == head[i]);
            }
        }
    }
}

} // verus!
