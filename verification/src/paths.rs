//! Local paths as text, read as Unix systems read them: `/` separates their
//! components, and a path that begins with it is absolute.

use crate::text::{
    chars_of, concat2, concat3, find_last, last_position, law_last_piece, same_chars, slice_of,
    split_on, split_text, string_of,
};
use vstd::prelude::*;

verus! {

/// `rel` placed below `base`: an absolute `rel` stands alone, and no separator
/// is doubled.
pub open spec fn joined_path(base: Seq<char>, rel: Seq<char>) -> Seq<char> {
    if rel.len() > 0 && rel[0] == '/' {
        rel
    } else if base.len() == 0 || base.last() == '/' {
        base + rel
    } else {
        base + seq!['/'] + rel
    }
}

/// What follows the last dot of a file name, or nothing where the name has no
/// dot but a leading one.
pub open spec fn name_extension(name: Seq<char>) -> Option<Seq<char>> {
    let dot = last_position(name, '.');
    if dot <= 0 || name == seq!['.', '.'] {
        None
    } else {
        Some(name.subrange(dot + 1, name.len() as int))
    }
}

/// What stands before the last separator of a relative path, if it has one.
pub open spec fn parent_key(path: Seq<char>) -> Option<Seq<char>> {
    let slash = last_position(path, '/');
    if slash < 0 {
        None
    } else {
        Some(path.take(slash))
    }
}

/// The position found by `last_position` holds the character, and nothing
/// behind it does.
pub proof fn lemma_last_position(s: Seq<char>, c: char)
    ensures
        -1 <= last_position(s, c) < s.len(),
        last_position(s, c) >= 0 ==> s[last_position(s, c)] == c,
        forall|j: int| last_position(s, c) < j < s.len() ==> s[j] != c,
    decreases s.len(),
{
    if s.len() > 0 && s.last() != c {
        lemma_last_position(s.drop_last(), c);
        assert forall|j: int| last_position(s, c) < j < s.len() implies s[j] != c by {
            if j < s.len() - 1 {
                assert(s.drop_last()[j] == s[j]);
            }
        }
    }
}

/// `rel` placed below `base`.
pub fn join_path(base: &str, rel: &str) -> (r: String)
    ensures
        r@ == joined_path(base@, rel@),
{
    let b = chars_of(base);
    let v = chars_of(rel);
    proof {
        reveal_strlit("/");
        assert("/"@ == seq!['/']);
    }
    if v.len() > 0 && v[0] == '/' {
        rel.to_owned()
    } else if b.len() == 0 || b[b.len() - 1] == '/' {
        concat2(base, rel)
    } else {
        concat3(base, "/", rel)
    }
}

/// What stands before the last separator of a relative path, if it has one.
pub fn parent_of_key(path: &str) -> (r: Option<String>)
    ensures
        match r {
            Some(p) => parent_key(path@) == Some(p@),
            None => parent_key(path@) is None,
        },
{
    let v = chars_of(path);
    match find_last(&v, '/') {
        None => None,
        Some(i) => {
            proof {
                lemma_last_position(path@, '/');
            }
            let head = slice_of(&v, 0, i);
            assert(head@ == path@.take(i as int));
            Some(string_of(&head))
        },
    }
}

/// What follows the last dot of a file name, if anything counts as such.
pub fn extension_of(name: &str) -> (r: Option<String>)
    ensures
        match r {
            Some(e) => name_extension(name@) == Some(e@),
            None => name_extension(name@) is None,
        },
{
    let v = chars_of(name);
    proof {
        lemma_last_position(name@, '.');
    }
    if v.len() == 2 && v[0] == '.' && v[1] == '.' {
        assert(name@ == seq!['.', '.']);
        return None;
    }
    match find_last(&v, '.') {
        None => None,
        Some(i) => {
            if i == 0 {
                None
            } else {
                assert(name@ != seq!['.', '.']);
                let tail = slice_of(&v, i + 1, v.len());
                Some(string_of(&tail))
            }
        },
    }
}

/// A local path without the separators and `.` components at its end; a `.` alone
/// stays.
pub open spec fn path_trimmed(path: Seq<char>) -> Seq<char>
    decreases path.len(),
{
    if path.len() > 0 && path.last() == '/' {
        path_trimmed(path.drop_last())
    } else if path.len() > 1 && path.last() == '.' && path[path.len() - 2] == '/' {
        path_trimmed(path.drop_last())
    } else {
        path
    }
}

fn trim_path(path: &Vec<char>) -> (r: Vec<char>)
    ensures
        r@ == path_trimmed(path@),
{
    let mut n: usize = path.len();
    assert(path@.take(n as int) =~= path@);
    while n > 0 && (path[n - 1] == '/' || (n > 1 && path[n - 1] == '.' && path[n - 2] == '/'))
        invariant
            n <= path@.len(),
            path_trimmed(path@) == path_trimmed(path@.take(n as int)),
        decreases n,
    {
        assert(path@.take(n as int).drop_last() =~= path@.take(n - 1));
        n = n - 1;
    }
    let r = slice_of(path, 0, n);
    assert(r@ =~= path@.take(n as int));
    r
}

/// The directory that holds a local path; the root and the empty path have
/// none.
pub open spec fn local_parent(path: Seq<char>) -> Option<Seq<char>> {
    let trimmed = path_trimmed(path);
    let slash = last_position(trimmed, '/');
    if trimmed.len() == 0 {
        None
    } else if slash < 0 {
        Some(Seq::empty())
    } else {
        let head = path_trimmed(trimmed.take(slash));
        if head.len() == 0 {
            Some(seq!['/'])
        } else {
            Some(head)
        }
    }
}

/// The last component of a local path, if it names something.
pub open spec fn local_name(path: Seq<char>) -> Option<Seq<char>> {
    let trimmed = path_trimmed(path);
    let name = trimmed.skip(last_position(trimmed, '/') + 1);
    if trimmed.len() == 0 || name == seq!['.', '.'] || name == seq!['.'] {
        None
    } else {
        Some(name)
    }
}

/// The directory that holds a local path.
pub fn parent_of_path(path: &str) -> (r: Option<String>)
    ensures
        match r {
            Some(p) => local_parent(path@) == Some(p@),
            None => local_parent(path@) is None,
        },
{
    let v = chars_of(path);
    let trimmed = trim_path(&v);
    if trimmed.len() == 0 {
        return None;
    }
    proof {
        lemma_last_position(trimmed@, '/');
        reveal_strlit("/");
        assert("/"@ == seq!['/']);
    }
    match find_last(&trimmed, '/') {
        None => Some(String::new()),
        Some(i) => {
            let head = slice_of(&trimmed, 0, i);
            assert(head@ == trimmed@.take(i as int));
            let head = trim_path(&head);
            if head.len() == 0 {
                Some("/".to_owned())
            } else {
                Some(string_of(&head))
            }
        },
    }
}

/// The last component of a local path, if it names something.
pub fn name_of_path(path: &str) -> (r: Option<String>)
    ensures
        match r {
            Some(p) => local_name(path@) == Some(p@),
            None => local_name(path@) is None,
        },
{
    let v = chars_of(path);
    let trimmed = trim_path(&v);
    let count: usize = trimmed.len();
    if count == 0 {
        return None;
    }
    proof {
        lemma_last_position(trimmed@, '/');
    }
    let start: usize = match find_last(&trimmed, '/') {
        None => 0,
        Some(i) => i + 1,
    };
    let name = slice_of(&trimmed, start, count);
    assert(name@ == trimmed@.skip(start as int));
    if name.len() == 2 && name[0] == '.' && name[1] == '.' {
        assert(name@ == seq!['.', '.']);
        return None;
    }
    if name.len() == 1 && name[0] == '.' {
        assert(name@ == seq!['.']);
        return None;
    }
    assert(name@ != seq!['.', '.']);
    assert(name@ == seq!['.'] ==> name@[0] == '.');
    Some(string_of(&name))
}

proof fn lemma_trimmed(s: Seq<char>)
    ensures
        path_trimmed(s).len() <= s.len(),
        path_trimmed(s).len() > 0 ==> path_trimmed(s).last() != '/',
    decreases s.len(),
{
    if s.len() > 0 && s.last() == '/' {
        lemma_trimmed(s.drop_last());
    } else if s.len() > 1 && s.last() == '.' && s[s.len() - 2] == '/' {
        lemma_trimmed(s.drop_last());
    }
}

/// A parent is shorter than its child: walking up ends.
pub proof fn law_parent_is_shorter(path: Seq<char>)
    ensures
        local_parent(path) matches Some(p) ==> p.len() < path.len(),
{
    let trimmed = path_trimmed(path);
    lemma_trimmed(path);
    lemma_last_position(trimmed, '/');
    let slash = last_position(trimmed, '/');
    if slash >= 0 {
        lemma_trimmed(trimmed.take(slash));
    }
}

/// The pieces that name something: neither empty nor `.`.
pub open spec fn named_pieces(pieces: Seq<Seq<char>>) -> Seq<Seq<char>>
    decreases pieces.len(),
{
    if pieces.len() == 0 {
        pieces
    } else {
        let before = named_pieces(pieces.drop_last());
        if pieces.last().len() == 0 || pieces.last() == seq!['.'] {
            before
        } else {
            before.push(pieces.last())
        }
    }
}

/// Whether a path begins with the component `.`.
pub open spec fn begins_here(path: Seq<char>) -> bool {
    path.len() > 0 && path[0] == '.' && (path.len() == 1 || path[1] == '/')
}

/// What a path begins with before its names: the root, `.`, or nothing.
pub open spec fn path_start(path: Seq<char>) -> Seq<Seq<char>> {
    if path.len() > 0 && path[0] == '/' {
        seq![seq!['/']]
    } else if begins_here(path) {
        seq![seq!['.']]
    } else {
        Seq::empty()
    }
}

/// The components of a local path: the root where it is absolute or a leading
/// `.`, then its names.
pub open spec fn components(path: Seq<char>) -> Seq<Seq<char>> {
    path_start(path) + named_pieces(split_on(path, '/'))
}

/// Whether the components of `path` begin with those of `base`.
pub open spec fn begins_with(path: Seq<char>, base: Seq<char>) -> bool {
    let whole = components(path);
    let head = components(base);
    head.len() <= whole.len() && whole.take(head.len() as int) == head
}

/// Lists of characters, as texts.
pub open spec fn char_views(parts: Seq<Vec<char>>) -> Seq<Seq<char>> {
    Seq::new(parts.len(), |i: int| parts[i]@)
}

/// The components of a local path.
pub fn path_components(path: &str) -> (r: Vec<Vec<char>>)
    ensures
        char_views(r@) == components(path@),
{
    let chars = chars_of(path);
    let pieces = split_text(&chars, '/');
    let ghost all = split_on(path@, '/');
    let mut r: Vec<Vec<char>> = Vec::new();
    let ghost head = path_start(path@);
    let here = chars.len() > 0 && chars[0] == '.' && (chars.len() == 1 || chars[1] == '/');
    if here || (chars.len() > 0 && chars[0] == '/') {
        let mut root: Vec<char> = Vec::new();
        root.push(chars[0]);
        assert(root@ =~= seq![path@[0]]);
        r.push(root);
    }
    assert(char_views(r@) =~= head);
    assert(all.take(0) =~= Seq::<Seq<char>>::empty());
    assert(head + named_pieces(all.take(0)) =~= head);
    let mut i: usize = 0;
    while i < pieces.len()
        invariant
            i <= pieces@.len(),
            pieces@.len() == all.len(),
            forall|k: int| 0 <= k < pieces@.len() ==> (#[trigger] pieces@[k])@ == all[k],
            char_views(r@) == head + named_pieces(all.take(i as int)),
        decreases pieces@.len() - i,
    {
        assert(all.take(i + 1).drop_last() =~= all.take(i as int));
        let ghost held = r@;
        let n: usize = pieces[i].len();
        if n == 0 || (n == 1 && pieces[i][0] == '.') {
            assert(n == 1 ==> all[i as int] =~= seq!['.']);
        } else {
            assert(all[i as int] == seq!['.'] ==> all[i as int][0] == '.');
            let piece = slice_of(&pieces[i], 0, n);
            assert(piece@ =~= all[i as int]);
            r.push(piece);
            assert(char_views(r@) =~= char_views(held).push(all[i as int]));
            assert(head + named_pieces(all.take(i + 1)) =~= (head + named_pieces(
                all.take(i as int),
            )).push(all[i as int]));
        }
        i += 1;
    }
    assert(all.take(i as int) =~= all);
    assert(char_views(r@) =~= components(path@));
    r
}

/// Whether the components of `path` begin with those of `base`.
pub fn path_starts_with(path: &str, base: &str) -> (r: bool)
    ensures
        r == begins_with(path@, base@),
{
    let whole = path_components(path);
    let head = path_components(base);
    assert(char_views(whole@).len() == whole@.len());
    assert(char_views(head@).len() == head@.len());
    if head.len() > whole.len() {
        return false;
    }
    let mut i: usize = 0;
    while i < head.len()
        invariant
            i <= head@.len() <= whole@.len(),
            char_views(whole@) == components(path@),
            char_views(head@) == components(base@),
            forall|k: int| 0 <= k < i ==> components(path@)[k] == #[trigger] components(base@)[k],
        decreases head@.len() - i,
    {
        assert(char_views(whole@)[i as int] == whole@[i as int]@);
        assert(char_views(head@)[i as int] == head@[i as int]@);
        if !same_chars(&whole[i], &head[i]) {
            assert(components(path@).take(head@.len() as int)[i as int] != components(
                base@,
            )[i as int]);
            return false;
        }
        i += 1;
    }
    assert(components(path@).take(head@.len() as int) =~= components(base@));
    true
}

/// Whether two local paths have the same components.
pub fn same_path(a: &str, b: &str) -> (r: bool)
    ensures
        r == (components(a@) == components(b@)),
{
    let forth = path_starts_with(a, b);
    let back = path_starts_with(b, a);
    proof {
        let x = components(a@);
        let y = components(b@);
        if forth && back {
            assert(x.take(y.len() as int) =~= x);
        }
        if x == y {
            assert(x.take(y.len() as int) =~= y);
            assert(y.take(x.len() as int) =~= x);
        }
    }
    forth && back
}

/// Whether a text can be the name of something: not empty, without a separator, and
/// neither the directory itself nor the one above.
pub open spec fn is_plain_name(name: Seq<char>) -> bool {
    &&& name.len() > 0
    &&& !name.contains('/')
    &&& name != seq!['.']
    &&& name != seq!['.', '.']
}

/// A name joined to a directory is that name again, in that directory.
pub proof fn law_joined_name_is_found_again(base: Seq<char>, name: Seq<char>)
    requires
        is_plain_name(name),
    ensures
        local_name(joined_path(base, name)) == Some(name),
        base.len() > 0 && base.last() != '/' && !(base.last() == '.' && base.len() > 1
            && base[base.len() - 2] == '/') ==> local_parent(joined_path(base, name)) == Some(base),
        local_parent(joined_path("/"@, name)) == Some("/"@),
        local_parent(name) == Some(Seq::<char>::empty()),
{
    reveal_strlit("/");
    lemma_name_characters(name);
    let path = joined_path(base, name);
    lemma_joined_tail(base, name);
    lemma_joined_tail("/"@, name);
    lemma_joined_tail(Seq::empty(), name);
    assert(joined_path(Seq::empty(), name) =~= name);
    assert(path.skip(last_position(path, '/') + 1) =~= name);
    let rooted = joined_path("/"@, name);
    assert(rooted.take(0) =~= Seq::empty());
    assert("/"@ =~= seq!['/']);
    if base.len() > 0 && base.last() != '/' {
        assert(path.take(base.len() as int) =~= base);
    }
}

proof fn lemma_name_characters(name: Seq<char>)
    requires
        is_plain_name(name),
    ensures
        forall|i: int| 0 <= i < name.len() ==> name[i] != '/',
        name.last() != '/',
        name.last() == '.' ==> name.len() > 1,
{
    assert forall|i: int| 0 <= i < name.len() implies name[i] != '/' by {
        assert(name.contains(name[i]));
    }
    if name.len() == 1 {
        assert(name =~= seq![name[0]]);
    }
}

/// Where a joined path is cut, and that its end stays.
proof fn lemma_joined_tail(base: Seq<char>, name: Seq<char>)
    requires
        is_plain_name(name),
    ensures
        ({
            let path = joined_path(base, name);
            &&& path_trimmed(path) == path
            &&& last_position(path, '/') == path.len() - name.len() - 1
        }),
{
    let path = joined_path(base, name);
    lemma_name_characters(name);
    assert(path.last() == name.last());
    if name.len() > 1 {
        assert(path[path.len() - 2] == name[name.len() - 2]);
    }
    lemma_last_position(path, '/');
    let at = last_position(path, '/');
    let cut = path.len() - name.len() - 1;
    if at > cut {
        assert(path[at] == name[at - cut - 1]);
    }
    if cut >= 0 {
        assert(path[cut] == '/');
    }
}

/// An absolute path replaces what it is joined to.
pub proof fn law_absolute_path_stands_alone(base: Seq<char>, rest: Seq<char>)
    ensures
        joined_path(base, "/"@ + rest) == "/"@ + rest,
{
    reveal_strlit("/");
    assert(("/"@ + rest)[0] == '/');
}

/// A name joined to a directory adds one component, and the path lies below the
/// directory.
pub proof fn law_joined_name_is_one_component(base: Seq<char>, name: Seq<char>)
    requires
        is_plain_name(name),
    ensures
        components(joined_path(base, name)) == components(base).push(name),
        begins_with(joined_path(base, name), base),
        !begins_with(base, joined_path(base, name)),
{
    let path = joined_path(base, name);
    lemma_name_characters(name);
    law_last_piece(base, name, '/');
    let ghost before = split_on(base, '/');
    assert(before.push(name).drop_last() =~= before);
    assert(seq![name].drop_last() =~= Seq::empty());
    if base.len() == 0 {
        assert(base =~= Seq::empty());
        assert(path =~= name);
        assert(seq![Seq::<char>::empty()].drop_last() =~= Seq::empty());
        reveal_with_fuel(named_pieces, 2);
        assert(components(base) =~= Seq::empty());
        assert(components(path) =~= seq![name]);
        assert(components(base).push(name) =~= seq![name]);
    } else if base.last() == '/' {
        let head = base.drop_last();
        law_last_piece(head, name, '/');
        assert(path =~= head + seq!['/'] + name);
        let pieces = split_on(head, '/');
        assert(split_on(base, '/') == pieces.push(Seq::empty()));
        assert(pieces.push(Seq::empty()).drop_last() =~= pieces);
        assert(pieces.push(name).drop_last() =~= pieces);
        assert(path[0] == base[0]);
        assert(base.len() > 1 ==> path[1] == base[1]);
        assert(path_start(path) == path_start(base));
        assert(components(path) =~= components(base).push(name));
    } else {
        assert(path[0] == base[0]);
        assert(base.len() > 1 ==> path[1] == base[1]);
        assert(base.len() == 1 ==> path[1] == '/');
        assert(path_start(path) == path_start(base));
        assert(components(path) =~= components(base).push(name));
    }
    assert(components(path).take(components(base).len() as int) =~= components(base));
}

/// Two paths that lie below each other are the same path.
pub proof fn law_paths_below_each_other_are_the_same(a: Seq<char>, b: Seq<char>)
    ensures
        begins_with(a, a),
        begins_with(a, b) && begins_with(b, a) ==> components(a) == components(b),
{
    assert(components(a).take(components(a).len() as int) =~= components(a));
    assert(components(b).take(components(b).len() as int) =~= components(b));
}

/// The extension is what follows the last dot; a name without a dot has none, nor has one
/// whose only dot comes first.
pub proof fn law_extension_follows_the_last_dot(stem: Seq<char>, ext: Seq<char>)
    requires
        !ext.contains('.'),
    ensures
        stem.len() > 0 && !(stem == "."@ && ext.len() == 0) ==> name_extension(stem + "."@ + ext)
            == Some(ext),
        name_extension("."@ + ext) is None,
        name_extension(ext) is None,
{
    reveal_strlit(".");
    assert("."@ =~= seq!['.']);
    assert forall|i: int| 0 <= i < ext.len() implies ext[i] != '.' by {
        assert(ext.contains(ext[i]));
    }
    let name = stem + "."@ + ext;
    lemma_last_position(name, '.');
    let at = last_position(name, '.');
    assert(name[stem.len() as int] == '.');
    if at > stem.len() {
        assert(name[at] == ext[at - stem.len() - 1]);
    }
    assert(name.subrange(at + 1, name.len() as int) =~= ext);
    if stem.len() > 0 && name == seq!['.', '.'] {
        assert(name.len() == 2);
        assert(ext.len() == 0);
        assert(stem =~= "."@) by {
            assert(stem.len() == 1);
            assert(name[0] == stem[0]);
        }
    }
    let hidden = "."@ + ext;
    lemma_last_position(hidden, '.');
    let first = last_position(hidden, '.');
    if first > 0 {
        assert(hidden[first] == ext[first - 1]);
    }
    lemma_last_position(ext, '.');
}

/// The directory of a row is what stands before the last separator of its path; a path
/// without one has none.
pub proof fn law_key_of_a_name_below(dir: Seq<char>, name: Seq<char>)
    requires
        !name.contains('/'),
    ensures
        parent_key(dir + "/"@ + name) == Some(dir),
        parent_key(name) is None,
{
    reveal_strlit("/");
    assert("/"@ =~= seq!['/']);
    assert forall|i: int| 0 <= i < name.len() implies name[i] != '/' by {
        assert(name.contains(name[i]));
    }
    let path = dir + "/"@ + name;
    lemma_last_position(path, '/');
    let at = last_position(path, '/');
    assert(path[dir.len() as int] == '/');
    if at > dir.len() {
        assert(path[at] == name[at - dir.len() - 1]);
    }
    assert(path.take(dir.len() as int) =~= dir);
    lemma_last_position(name, '/');
}

} // verus!
