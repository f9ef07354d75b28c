//! Paths on a remote host: normal form, parents, children, resolution of
//! relative input, and the name under which a remote file is cached locally.

use crate::paths::lemma_last_position;
use crate::text::{
    chars_of, find_last, has_char, joined, last_position, replace_char, replaced, slice_of,
    split_on, split_text, string_of, trim_end, trimmed_end,
};
use vstd::prelude::*;

verus! {

/// A remote path in normal form: forward slashes only, and rooted.
pub open spec fn normalized(path: Seq<char>) -> Seq<char> {
    let slashed = replaced(path, '\\', '/');
    if slashed.len() > 0 && slashed[0] == '/' {
        slashed
    } else {
        seq!['/'] + slashed
    }
}

/// The directory that holds a remote path; the root holds itself.
pub open spec fn parent(path: Seq<char>) -> Seq<char> {
    let trimmed = trimmed_end(normalized(path), '/');
    let slash = last_position(trimmed, '/');
    if slash <= 0 {
        seq!['/']
    } else {
        trimmed.take(slash)
    }
}

/// A name that stands for one entry of a directory, whatever the separator.
pub open spec fn plain_name(name: Seq<char>) -> bool {
    &&& name.len() > 0
    &&& name != seq!['.']
    &&& name != seq!['.', '.']
    &&& !name.contains('/')
    &&& !name.contains('\\')
}

/// The remote path of the entry `name` of the directory `dir`.
pub open spec fn child(dir: Seq<char>, name: Seq<char>) -> Seq<char> {
    trimmed_end(normalized(dir), '/') + seq!['/'] + name
}

/// The directories that remain when empty and `.` components are dropped and
/// `..` takes back the component before it.
pub open spec fn walked(parts: Seq<Seq<char>>) -> Seq<Seq<char>>
    decreases parts.len(),
{
    if parts.len() == 0 {
        Seq::empty()
    } else {
        let before = walked(parts.drop_last());
        let part = parts.last();
        if part.len() == 0 || part == seq!['.'] {
            before
        } else if part == seq!['.', '.'] {
            if before.len() == 0 {
                before
            } else {
                before.drop_last()
            }
        } else {
            before.push(part)
        }
    }
}

/// The path that `input` names when it is typed in the directory `base`, before
/// its components are walked.
pub open spec fn combined(base: Seq<char>, input: Seq<char>) -> Seq<char> {
    let slashed = replaced(input, '\\', '/');
    if slashed.len() > 0 && slashed[0] == '/' {
        slashed
    } else {
        trimmed_end(normalized(base), '/') + seq!['/'] + slashed
    }
}

/// The rooted path that `input` names when it is typed in the directory `base`.
pub open spec fn resolved(base: Seq<char>, input: Seq<char>) -> Seq<char> {
    seq!['/'] + joined(walked(split_on(combined(base, input), '/')), seq!['/'])
}

/// The path in normal form.
pub fn normalized_remote_path(path: &str) -> (r: String)
    ensures
        r@ == normalized(path@),
{
    let v = normalize(path);
    string_of(&v)
}

fn normalize(path: &str) -> (r: Vec<char>)
    ensures
        r@ == normalized(path@),
{
    let v = chars_of(path);
    let slashed = replace_char(&v, '\\', '/');
    if slashed.len() > 0 && slashed[0] == '/' {
        slashed
    } else {
        let mut r: Vec<char> = Vec::new();
        r.push('/');
        let mut tail = slashed;
        r.append(&mut tail);
        r
    }
}

/// The directory that holds the path.
pub fn remote_parent_path(path: &str) -> (r: String)
    ensures
        r@ == parent(path@),
{
    let full = normalize(path);
    let trimmed = trim_end(&full, '/');
    proof {
        reveal_strlit("/");
        assert("/"@ == seq!['/']);
        lemma_last_position(trimmed@, '/');
    }
    match find_last(&trimmed, '/') {
        None => "/".to_owned(),
        Some(i) => {
            if i == 0 {
                "/".to_owned()
            } else {
                let head = slice_of(&trimmed, 0, i);
                assert(head@ == trimmed@.take(i as int));
                string_of(&head)
            }
        },
    }
}

/// Whether the component is `.` or empty.
fn is_skipped(part: &Vec<char>) -> (r: bool)
    ensures
        r == (part@.len() == 0 || part@ == seq!['.']),
{
    if part.len() == 0 {
        return true;
    }
    let r = part.len() == 1 && part[0] == '.';
    assert(r ==> part@ == seq!['.']);
    r
}

/// Whether the component is `..`.
fn is_dot_dot(part: &Vec<char>) -> (r: bool)
    ensures
        r == (part@ == seq!['.', '.']),
{
    let r = part.len() == 2 && part[0] == '.' && part[1] == '.';
    assert(r ==> part@ == seq!['.', '.']);
    r
}

/// The rooted path that `input` names when it is typed in `base`. Input with a
/// NUL character is refused.
pub fn resolve_remote_path(base: &str, input: &str) -> (r: Result<String, String>)
    ensures
        match r {
            Ok(path) => !input@.contains('\0') && path@ == resolved(base@, input@),
            Err(e) => input@.contains('\0') && e@ == "Remote path contains a NUL byte"@,
        },
{
    let v = chars_of(input);
    if has_char(&v, '\0') {
        return Err("Remote path contains a NUL byte".to_owned());
    }
    let slashed = replace_char(&v, '\\', '/');
    let whole: Vec<char> = if slashed.len() > 0 && slashed[0] == '/' {
        slashed
    } else {
        let full = normalize(base);
        let mut head = trim_end(&full, '/');
        head.push('/');
        let mut tail = slashed;
        head.append(&mut tail);
        assert(head@ == combined(base@, input@));
        head
    };
    assert(whole@ == combined(base@, input@));
    let parts = split_text(&whole, '/');
    let ghost all = split_on(whole@, '/');
    let mut kept: Vec<Vec<char>> = Vec::new();
    let mut i: usize = 0;
    while i < parts.len()
        invariant
            i <= parts.len(),
            parts@.len() == all.len(),
            forall|j: int| 0 <= j < parts@.len() ==> (#[trigger] parts@[j])@ == all[j],
            kept@.len() == walked(all.take(i as int)).len(),
            forall|j: int| 0 <= j < kept@.len() ==> (#[trigger] kept@[j])@ == walked(all.take(i as int))[j],
        decreases parts.len() - i,
    {
        assert(all.take(i + 1).drop_last() == all.take(i as int));
        assert(all.take(i + 1).last() == all[i as int]);
        assert(parts@[i as int]@ == all[i as int]);
        if is_skipped(&parts[i]) {
        } else if is_dot_dot(&parts[i]) {
            if kept.len() > 0 {
                let _ = kept.pop();
            }
        } else {
            let part = slice_of(&parts[i], 0, parts[i].len());
            assert(part@ == parts@[i as int]@);
            kept.push(part);
        }
        i += 1;
    }
    assert(all.take(i as int) == all);
    let ghost walk = walked(all);
    let mut out: Vec<char> = Vec::new();
    out.push('/');
    let mut k: usize = 0;
    assert(walk.take(0) == Seq::<Seq<char>>::empty());
    while k < kept.len()
        invariant
            k <= kept.len(),
            kept@.len() == walk.len(),
            forall|j: int| 0 <= j < kept@.len() ==> (#[trigger] kept@[j])@ == walk[j],
            out@ == seq!['/'] + joined(walk.take(k as int), seq!['/']),
        decreases kept.len() - k,
    {
        assert(walk.take(k + 1).drop_last() == walk.take(k as int));
        assert(kept@[k as int]@ == walk[k as int]);
        if k > 0 {
            out.push('/');
        }
        let mut part = slice_of(&kept[k], 0, kept[k].len());
        assert(part@ == walk[k as int]);
        out.append(&mut part);
        assert(out@ == seq!['/'] + joined(walk.take(k + 1), seq!['/']));
        k += 1;
    }
    assert(walk.take(k as int) == walk);
    Ok(string_of(&out))
}

/// The remote path of the entry `file_name` of `parent`. A name that does not
/// stand for one entry is refused.
pub fn normalized_remote_child_path(parent: &str, file_name: &str) -> (r: Result<String, String>)
    ensures
        match r {
            Ok(path) => plain_name(file_name@) && path@ == child(parent@, file_name@),
            Err(e) => !plain_name(file_name@)
                && e@ == "Remote entry has an unsafe or ambiguous name"@,
        },
{
    let name = chars_of(file_name);
    if is_skipped(&name) || is_dot_dot(&name) || has_char(&name, '/') || has_char(&name, '\\') {
        return Err("Remote entry has an unsafe or ambiguous name".to_owned());
    }
    let full = normalize(parent);
    let mut path = trim_end(&full, '/');
    path.push('/');
    let mut tail = name;
    path.append(&mut tail);
    Ok(string_of(&path))
}

/// A component that a walk keeps: it names something, and no separator is in it.
pub open spec fn kept_component(part: Seq<char>) -> bool {
    &&& part.len() > 0
    &&& part != seq!['.']
    &&& part != seq!['.', '.']
    &&& !part.contains('/')
}

proof fn lemma_split_parts_have_no_separator(s: Seq<char>, c: char)
    ensures
        split_on(s, c).len() > 0,
        forall|i: int| 0 <= i < split_on(s, c).len() ==> !(#[trigger] split_on(s, c)[i]).contains(c),
    decreases s.len(),
{
    if s.len() > 0 {
        lemma_split_parts_have_no_separator(s.drop_last(), c);
        let before = split_on(s.drop_last(), c);
        if s.last() != c {
            assert forall|j: int| 0 <= j < before.last().push(s.last()).len() implies before.last().push(
                s.last(),
            )[j] != c by {
                if j < before.last().len() {
                    assert(before.last().contains(before.last()[j]));
                    assert(!before[before.len() - 1].contains(c));
                }
            }
        }
    }
}

proof fn lemma_walked_is_clean(parts: Seq<Seq<char>>)
    requires
        forall|i: int| 0 <= i < parts.len() ==> !(#[trigger] parts[i]).contains('/'),
    ensures
        forall|i: int| 0 <= i < walked(parts).len() ==> kept_component(#[trigger] walked(parts)[i]),
    decreases parts.len(),
{
    if parts.len() > 0 {
        assert forall|i: int| 0 <= i < parts.drop_last().len() implies !(
        #[trigger] parts.drop_last()[i]).contains('/') by {
            assert(parts.drop_last()[i] == parts[i]);
        }
        lemma_walked_is_clean(parts.drop_last());
        assert(!parts[parts.len() - 1].contains('/'));
        let before = walked(parts.drop_last());
        assert forall|i: int| 0 <= i < walked(parts).len() implies kept_component(
            #[trigger] walked(parts)[i],
        ) by {
            if i < before.len() {
                assert(walked(parts)[i] == before[i]);
            }
        }
    }
}

/// Every component of a resolved path names something: none is empty, `.` or
/// `..`, whatever was typed. A resolved path cannot climb above the root.
pub proof fn law_resolved_components_are_clean(base: Seq<char>, input: Seq<char>)
    ensures
        forall|i: int|
            0 <= i < walked(split_on(combined(base, input), '/')).len() ==> kept_component(
                #[trigger] walked(split_on(combined(base, input), '/'))[i],
            ),
{
    let whole = combined(base, input);
    lemma_split_parts_have_no_separator(whole, '/');
    lemma_walked_is_clean(split_on(whole, '/'));
}

proof fn lemma_split_snoc(s: Seq<char>, tail: Seq<char>, c: char)
    requires
        !tail.contains(c),
    ensures
        split_on(s + seq![c] + tail, c) == split_on(s, c).push(tail),
    decreases tail.len(),
{
    let whole = s + seq![c] + tail;
    if tail.len() == 0 {
        assert(whole.drop_last() == s);
        assert(tail == Seq::<char>::empty());
    } else {
        assert(whole.drop_last() == s + seq![c] + tail.drop_last());
        assert forall|j: int| 0 <= j < tail.drop_last().len() implies tail.drop_last()[j] != c by {
            assert(tail.contains(tail[j]));
        }
        lemma_split_snoc(s, tail.drop_last(), c);
        assert(tail.contains(tail.last()));
        assert(tail.drop_last().push(tail.last()) == tail);
        assert(split_on(whole, c) == split_on(s, c).push(tail));
    }
}

proof fn lemma_split_of_joined(parts: Seq<Seq<char>>)
    requires
        forall|i: int| 0 <= i < parts.len() ==> kept_component(#[trigger] parts[i]),
    ensures
        parts.len() > 0 ==> split_on(seq!['/'] + joined(parts, seq!['/']), '/') == seq![
            Seq::<char>::empty(),
        ] + parts,
    decreases parts.len(),
{
    if parts.len() > 0 {
        let rest = parts.drop_last();
        assert forall|i: int| 0 <= i < rest.len() implies kept_component(#[trigger] rest[i]) by {
            assert(rest[i] == parts[i]);
        }
        lemma_split_of_joined(rest);
        assert(kept_component(parts[parts.len() - 1]));
        let empty = Seq::<char>::empty();
        if parts.len() == 1 {
            lemma_split_snoc(empty, parts[0], '/');
            assert(empty + seq!['/'] + parts[0] == seq!['/'] + joined(parts, seq!['/']));
            assert(split_on(empty, '/') == seq![empty]);
            assert(seq![empty].push(parts[0]) == seq![empty] + parts);
        } else {
            let head = seq!['/'] + joined(rest, seq!['/']);
            lemma_split_snoc(head, parts.last(), '/');
            assert(head + seq!['/'] + parts.last() == seq!['/'] + joined(parts, seq!['/']));
            assert((seq![empty] + rest).push(parts.last()) == seq![empty] + parts);
        }
    }
}

proof fn lemma_walked_of_clean(parts: Seq<Seq<char>>)
    requires
        forall|i: int| 0 <= i < parts.len() ==> kept_component(#[trigger] parts[i]),
    ensures
        walked(seq![Seq::<char>::empty()] + parts) == parts,
    decreases parts.len(),
{
    let empty = Seq::<char>::empty();
    let all = seq![empty] + parts;
    if parts.len() == 0 {
        assert(all.drop_last() == Seq::<Seq<char>>::empty());
        assert(all.last() == empty);
        assert(walked(Seq::<Seq<char>>::empty()) == Seq::<Seq<char>>::empty());
        assert(walked(all) == Seq::<Seq<char>>::empty());
        assert(parts == Seq::<Seq<char>>::empty());
    } else {
        let rest = parts.drop_last();
        assert forall|i: int| 0 <= i < rest.len() implies kept_component(#[trigger] rest[i]) by {
            assert(rest[i] == parts[i]);
        }
        lemma_walked_of_clean(rest);
        assert(all.drop_last() == seq![empty] + rest);
        assert(kept_component(parts[parts.len() - 1]));
        assert(rest.push(parts.last()) == parts);
    }
}

/// A separator that a path does not hold before its components are joined is
/// not in the join either.
proof fn lemma_joined_avoids(parts: Seq<Seq<char>>, c: char)
    requires
        c != '/',
        forall|i: int| 0 <= i < parts.len() ==> !(#[trigger] parts[i]).contains(c),
    ensures
        !joined(parts, seq!['/']).contains(c),
    decreases parts.len(),
{
    if parts.len() > 0 {
        let rest = parts.drop_last();
        assert forall|i: int| 0 <= i < rest.len() implies !(#[trigger] rest[i]).contains(c) by {
            assert(rest[i] == parts[i]);
        }
        lemma_joined_avoids(rest, c);
        assert(!parts[parts.len() - 1].contains(c));
        assert(!parts[0].contains(c));
        if parts.len() > 1 {
            let whole = joined(rest, seq!['/']) + seq!['/'] + parts.last();
            if whole.contains(c) {
                let j = choose|j: int| 0 <= j < whole.len() && whole[j] == c;
                let n = joined(rest, seq!['/']).len();
                if j < n {
                    assert(joined(rest, seq!['/'])[j] == c);
                } else if j > n {
                    assert(parts.last()[j - n - 1] == c);
                }
                assert(false);
            }
        }
    }
}

proof fn lemma_split_avoids(s: Seq<char>, c: char, other: char)
    requires
        !s.contains(other),
    ensures
        forall|i: int| 0 <= i < split_on(s, c).len() ==> !(#[trigger] split_on(s, c)[i]).contains(other),
        split_on(s, c).len() > 0,
    decreases s.len(),
{
    if s.len() > 0 {
        assert forall|j: int| 0 <= j < s.drop_last().len() implies s.drop_last()[j] != other by {
            assert(s.contains(s[j]));
        }
        lemma_split_avoids(s.drop_last(), c, other);
        assert(s.contains(s.last()));
        let before = split_on(s.drop_last(), c);
        if s.last() != c {
            let last = before.last().push(s.last());
            assert(!before[before.len() - 1].contains(other));
            assert forall|j: int| 0 <= j < last.len() implies last[j] != other by {
                if j < before.last().len() {
                    assert(before.last().contains(before.last()[j]));
                }
            }
        }
    }
}

proof fn lemma_walked_subset(parts: Seq<Seq<char>>, other: char)
    requires
        forall|i: int| 0 <= i < parts.len() ==> !(#[trigger] parts[i]).contains(other),
    ensures
        forall|i: int| 0 <= i < walked(parts).len() ==> !(#[trigger] walked(parts)[i]).contains(other),
    decreases parts.len(),
{
    if parts.len() > 0 {
        assert forall|i: int| 0 <= i < parts.drop_last().len() implies !(
        #[trigger] parts.drop_last()[i]).contains(other) by {
            assert(parts.drop_last()[i] == parts[i]);
        }
        lemma_walked_subset(parts.drop_last(), other);
        assert(!parts[parts.len() - 1].contains(other));
        let before = walked(parts.drop_last());
        assert forall|i: int| 0 <= i < walked(parts).len() implies !(
        #[trigger] walked(parts)[i]).contains(other) by {
            if i < before.len() {
                assert(walked(parts)[i] == before[i]);
            }
        }
    }
}

proof fn lemma_combined_has_no_backslash(base: Seq<char>, input: Seq<char>)
    ensures
        !combined(base, input).contains('\\'),
{
    let slashed = replaced(input, '\\', '/');
    let head = trimmed_end(normalized(base), '/');
    lemma_trimmed_is_prefix(normalized(base), '/');
    let whole = combined(base, input);
    assert forall|j: int| 0 <= j < whole.len() implies whole[j] != '\\' by {
        if !(slashed.len() > 0 && slashed[0] == '/') {
            if j < head.len() {
                assert(head[j] == normalized(base)[j]);
            }
        }
    }
}

proof fn lemma_trimmed_is_prefix(s: Seq<char>, c: char)
    ensures
        trimmed_end(s, c).len() <= s.len(),
        trimmed_end(s, c) == s.take(trimmed_end(s, c).len() as int),
        trimmed_end(s, c).len() > 0 ==> trimmed_end(s, c).last() != c,
    decreases s.len(),
{
    if s.len() > 0 && s.last() == c {
        lemma_trimmed_is_prefix(s.drop_last(), c);
        let n = trimmed_end(s, c).len() as int;
        assert(s.drop_last().take(n) == s.take(n));
    } else {
        assert(s.take(s.len() as int) == s);
    }
}

/// Resolving a resolved path again, from anywhere, gives it back.
pub proof fn law_resolving_is_idempotent(base: Seq<char>, input: Seq<char>, elsewhere: Seq<char>)
    ensures
        resolved(elsewhere, resolved(base, input)) == resolved(base, input),
{
    let parts = walked(split_on(combined(base, input), '/'));
    let path = resolved(base, input);
    law_resolved_components_are_clean(base, input);
    lemma_combined_has_no_backslash(base, input);
    lemma_split_avoids(combined(base, input), '/', '\\');
    lemma_walked_subset(split_on(combined(base, input), '/'), '\\');
    lemma_joined_avoids(parts, '\\');
    let body = joined(parts, seq!['/']);
    assert(replaced(path, '\\', '/') == path) by {
        assert forall|j: int| 0 <= j < path.len() implies path[j] != '\\' by {
            if j > 0 {
                assert(path[j] == body[j - 1]);
                assert(body.contains(body[j - 1]));
            }
        }
    }
    assert(combined(elsewhere, path) == path);
    if parts.len() > 0 {
        lemma_split_of_joined(parts);
        lemma_walked_of_clean(parts);
    } else {
        assert(path == seq!['/']);
        let empty = Seq::<char>::empty();
        assert(path.drop_last() == empty);
        assert(split_on(path, '/') == seq![empty].push(empty)) by {
            assert(split_on(empty, '/') == seq![empty]);
        }
        let both = seq![empty].push(empty);
        assert(both.drop_last() == seq![empty]);
        assert(seq![empty].drop_last() == Seq::<Seq<char>>::empty());
        assert(seq![empty].last() == empty);
        assert(walked(Seq::<Seq<char>>::empty()) == Seq::<Seq<char>>::empty());
        assert(walked(seq![empty]) == Seq::<Seq<char>>::empty());
        assert(walked(both) == Seq::<Seq<char>>::empty());
        assert(parts == Seq::<Seq<char>>::empty());
    }
}

/// A path in normal form is its own normal form.
pub proof fn law_normalizing_is_idempotent(path: Seq<char>)
    ensures
        normalized(normalized(path)) == normalized(path),
        normalized(path).len() > 0,
        normalized(path)[0] == '/',
        !normalized(path).contains('\\'),
{
    let n = normalized(path);
    assert(replaced(n, '\\', '/') == n);
}

/// The parent of a directory's child is that directory in normal form, without
/// separators at its end; the root is its own.
pub proof fn law_parent_of_child(dir: Seq<char>, name: Seq<char>)
    requires
        plain_name(name),
    ensures
        parent(child(dir, name)) == if trimmed_end(normalized(dir), '/').len() == 0 {
            seq!['/']
        } else {
            trimmed_end(normalized(dir), '/')
        },
{
    let head = trimmed_end(normalized(dir), '/');
    let whole = child(dir, name);
    lemma_trimmed_is_prefix(normalized(dir), '/');
    law_normalizing_is_idempotent(dir);
    assert(whole[0] == '/') by {
        if head.len() > 0 {
            assert(whole[0] == head[0]);
            assert(head[0] == normalized(dir)[0]);
        }
    }
    assert(replaced(whole, '\\', '/') == whole) by {
        assert forall|j: int| 0 <= j < whole.len() implies whole[j] != '\\' by {
            if j < head.len() {
                assert(whole[j] == normalized(dir)[j]);
                assert(normalized(dir).contains(normalized(dir)[j]));
            } else if j > head.len() {
                assert(whole[j] == name[j - head.len() - 1]);
                assert(name.contains(name[j - head.len() - 1]));
            }
        }
    }
    assert(normalized(whole) == whole);
    assert(name.contains(name.last()));
    assert(whole.last() == name.last());
    assert(trimmed_end(whole, '/') == whole);
    lemma_last_position(whole, '/');
    let slash = last_position(whole, '/');
    assert(slash == head.len()) by {
        assert(whole[head.len() as int] == '/');
        if slash > head.len() {
            assert(whole[slash] == name[slash - head.len() - 1]);
            assert(name.contains(name[slash - head.len() - 1]));
        }
    }
    assert(whole.take(head.len() as int) == head);
}

/// A path in its usual form is kept; any other gets its separators turned round and one in
/// front.
pub proof fn law_usual_paths_are_kept(path: Seq<char>)
    requires
        !path.contains('\\'),
    ensures
        path.len() > 0 && path[0] == '/' ==> normalized(path) == path,
        path.len() == 0 || path[0] != '/' ==> normalized(path) == "/"@ + path,
{
    reveal_strlit("/");
    assert("/"@ =~= seq!['/']);
    assert forall|i: int| 0 <= i < path.len() implies path[i] != '\\' by {
        assert(path.contains(path[i]));
    }
    assert(replaced(path, '\\', '/') =~= path);
}

/// `..` takes back the component before it, `.` and nothing between separators are dropped,
/// and the root is above itself.
pub proof fn law_walking_along_components(parts: Seq<Seq<char>>, name: Seq<char>)
    ensures
        walked(parts.push("."@)) == walked(parts),
        walked(parts.push(Seq::empty())) == walked(parts),
        name.len() > 0 && name != "."@ && name != ".."@ ==> walked(parts.push(name)) == walked(
            parts,
        ).push(name),
        name.len() > 0 && name != "."@ && name != ".."@ ==> walked(parts.push(name).push(".."@))
            == walked(parts),
        walked(parts).len() == 0 ==> walked(parts.push(".."@)) == walked(parts),
{
    reveal_strlit(".");
    reveal_strlit("..");
    assert("."@ =~= seq!['.']);
    assert(".."@ =~= seq!['.', '.']);
    assert(".."@.len() == 2 && "."@.len() == 1);
    assert(parts.push("."@).drop_last() =~= parts);
    assert(parts.push(".."@).drop_last() =~= parts);
    assert(parts.push(Seq::empty()).drop_last() =~= parts);
    assert(parts.push(name).drop_last() =~= parts);
    assert(parts.push(name).push(".."@).drop_last() =~= parts.push(name));
    assert(walked(parts).push(name).drop_last() =~= walked(parts));
    let longer = parts.push(name);
    assert(longer.push(".."@).last() == ".."@);
    if name.len() > 0 && name != "."@ && name != ".."@ {
        assert(walked(longer) == walked(parts).push(name));
        assert(walked(longer.push(".."@)) == walked(longer).drop_last());
    }
}

/// An absolute path does not depend on where one is.
pub proof fn law_absolute_remote_path_stands_alone(
    base: Seq<char>,
    elsewhere: Seq<char>,
    input: Seq<char>,
)
    requires
        input.len() > 0,
        input[0] == '/' || input[0] == '\\',
    ensures
        resolved(base, input) == resolved(elsewhere, input),
{
}

/// The way to a child is that of its directory, a separator and its name.
pub proof fn law_child_is_below_its_directory(dir: Seq<char>, name: Seq<char>)
    requires
        dir.len() > 0,
        dir[0] == '/',
        !dir.contains('\\'),
    ensures
        dir.last() != '/' ==> child(dir, name) == dir + "/"@ + name,
        dir == "/"@ ==> child(dir, name) == "/"@ + name,
        dir == "/"@ ==> parent(dir) == "/"@,
{
    reveal_strlit("/");
    assert("/"@ =~= seq!['/']);
    law_usual_paths_are_kept(dir);
    if dir == "/"@ {
        reveal_with_fuel(trimmed_end, 2);
        assert(dir.drop_last() =~= Seq::empty());
        assert(child(dir, name) =~= "/"@ + name);
    }
}

} // verus!
