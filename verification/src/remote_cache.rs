//! The local cache of remote files: a file is kept under a name derived from
//! the digest of its endpoint and path, never from their text.

use crate::paths::{join_path, joined_path, lemma_last_position};
use crate::remote_connect::{given_text, host_in_use, used_host, ProfileView, RemoteProfile};
use crate::text::{chars_of, concat2, find_last, last_position, slice_of, string_of};
use sha2::Digest;
use vstd::prelude::*;
use vstd::utf8::encode_utf8;

verus! {

/// The SHA-256 digest of a byte string.
pub uninterp spec fn sha256_digest(data: Seq<u8>) -> Seq<u8>;

/// `sha2::Sha256::digest`: the digest of the bytes, which is 32 bytes long.
#[verifier::external_body]
fn sha256(data: &Vec<u8>) -> (r: Vec<u8>)
    ensures
        r@ == sha256_digest(data@),
        r@.len() == 32,
{
    sha2::Sha256::digest(data).to_vec()
}

/// The eight bytes of a number, the most significant first.
pub open spec fn be64(n: u64) -> Seq<u8> {
    seq![
        ((n >> 56) & 0xff) as u8,
        ((n >> 48) & 0xff) as u8,
        ((n >> 40) & 0xff) as u8,
        ((n >> 32) & 0xff) as u8,
        ((n >> 24) & 0xff) as u8,
        ((n >> 16) & 0xff) as u8,
        ((n >> 8) & 0xff) as u8,
        (n & 0xff) as u8,
    ]
}

/// The two bytes of a port, the most significant first.
pub open spec fn be16(n: u16) -> Seq<u8> {
    seq![((n >> 8) & 0xff) as u8, (n & 0xff) as u8]
}

/// A field preceded by its length.
pub open spec fn framed(field: Seq<u8>) -> Seq<u8> {
    be64(field.len() as u64) + field
}

/// The bytes that identify a remote file: a tag, the length-prefixed user,
/// host and path, and the port.
pub open spec fn cache_identity(
    user: Seq<char>,
    host: Seq<char>,
    port: u16,
    remote_path: Seq<char>,
) -> Seq<u8> {
    encode_utf8("cokacdir-remote-cache-v1\0"@) + framed(encode_utf8(user)) + framed(
        encode_utf8(host),
    ) + framed(encode_utf8(remote_path)) + be16(port)
}

pub open spec fn hex_char(d: u8) -> char {
    if d < 10 {
        ('0' as u32 + d) as char
    } else {
        ('a' as u32 + d - 10) as char
    }
}

/// Two lower-case hexadecimal digits for each byte.
pub open spec fn hex(bytes: Seq<u8>) -> Seq<char> {
    Seq::new(
        2 * bytes.len(),
        |i: int| hex_char(if i % 2 == 0 { bytes[i / 2] / 16 } else { bytes[i / 2] % 16 }),
    )
}

pub open spec fn ascii_alphanumeric(c: char) -> bool {
    ('a' <= c && c <= 'z') || ('A' <= c && c <= 'Z') || ('0' <= c && c <= '9')
}

/// An extension that may be kept: one to sixteen ASCII letters and digits.
pub open spec fn safe_extension(ext: Seq<char>) -> bool {
    &&& 1 <= ext.len() <= 16
    &&& forall|i: int| 0 <= i < ext.len() ==> ascii_alphanumeric(#[trigger] ext[i])
}

/// The last component of a remote path.
pub open spec fn last_component(path: Seq<char>) -> Seq<char> {
    path.subrange(last_position(path, '/') + 1, path.len() as int)
}

/// The dot and the extension of the path where the extension is safe, else
/// nothing.
pub open spec fn cache_suffix(remote_path: Seq<char>) -> Seq<char> {
    let name = last_component(remote_path);
    let dot = last_position(name, '.');
    let ext = name.subrange(dot + 1, name.len() as int);
    if dot >= 0 && safe_extension(ext) {
        seq!['.'] + ext
    } else {
        Seq::empty()
    }
}

/// The name under which a file with this digest and path is cached.
pub open spec fn cache_key(digest: Seq<u8>, remote_path: Seq<char>) -> Seq<char> {
    hex(digest) + cache_suffix(remote_path)
}

fn is_alphanumeric(c: char) -> (r: bool)
    ensures
        r == ascii_alphanumeric(c),
{
    ('a' <= c && c <= 'z') || ('A' <= c && c <= 'Z') || ('0' <= c && c <= '9')
}

/// The suffix that keeps a safe extension of the remote path.
pub fn remote_cache_suffix(remote_path: &str) -> (r: String)
    ensures
        r@ == cache_suffix(remote_path@),
{
    let v = chars_of(remote_path);
    let len: usize = v.len();
    proof {
        lemma_last_position(remote_path@, '/');
    }
    let start: usize = match find_last(&v, '/') {
        Some(i) => i + 1,
        None => 0,
    };
    let name = slice_of(&v, start, len);
    assert(name@ == last_component(remote_path@));
    proof {
        lemma_last_position(name@, '.');
    }
    match find_last(&name, '.') {
        None => String::new(),
        Some(dot) => {
            let ext = slice_of(&name, dot + 1, name.len());
            if ext.len() == 0 || ext.len() > 16 {
                return String::new();
            }
            let mut i: usize = 0;
            while i < ext.len()
                invariant
                    i <= ext.len(),
                    ext@ == name@.subrange(dot + 1, name@.len() as int),
                    name@ == last_component(remote_path@),
                    dot == last_position(name@, '.'),
                    forall|j: int| 0 <= j < i ==> ascii_alphanumeric(#[trigger] ext@[j]),
                decreases ext.len() - i,
            {
                if !is_alphanumeric(ext[i]) {
                    assert(!ascii_alphanumeric(ext@[i as int]));
                    return String::new();
                }
                i += 1;
            }
            let mut out: Vec<char> = Vec::new();
            out.push('.');
            let mut tail = ext;
            out.append(&mut tail);
            string_of(&out)
        },
    }
}

fn push_be64(out: &mut Vec<u8>, n: u64)
    ensures
        final(out)@ == old(out)@ + be64(n),
{
    out.push(((n >> 56) & 0xff) as u8);
    out.push(((n >> 48) & 0xff) as u8);
    out.push(((n >> 40) & 0xff) as u8);
    out.push(((n >> 32) & 0xff) as u8);
    out.push(((n >> 24) & 0xff) as u8);
    out.push(((n >> 16) & 0xff) as u8);
    out.push(((n >> 8) & 0xff) as u8);
    out.push((n & 0xff) as u8);
}

fn push_field(out: &mut Vec<u8>, field: &str)
    ensures
        final(out)@ == old(out)@ + framed(encode_utf8(field@)),
{
    let bytes = field.as_bytes();
    push_be64(out, bytes.len() as u64);
    out.extend_from_slice(bytes);
    assert(out@ == old(out)@ + framed(encode_utf8(field@)));
}

fn identity_bytes(user: &str, host: &str, port: u16, remote_path: &str) -> (r: Vec<u8>)
    ensures
        r@ == cache_identity(user@, host@, port, remote_path@),
{
    let mut data: Vec<u8> = Vec::new();
    data.extend_from_slice("cokacdir-remote-cache-v1\0".as_bytes());
    assert(data@ == encode_utf8("cokacdir-remote-cache-v1\0"@));
    push_field(&mut data, user);
    push_field(&mut data, host);
    push_field(&mut data, remote_path);
    let ghost before = data@;
    data.push(((port >> 8) & 0xff) as u8);
    data.push((port & 0xff) as u8);
    assert(data@ == before + be16(port));
    data
}

fn hex_digit(d: u8) -> (r: char)
    requires
        d < 16,
    ensures
        r == hex_char(d),
{
    if d < 10 {
        ('0' as u8 + d) as char
    } else {
        ('a' as u8 + (d - 10)) as char
    }
}

fn hex_text(bytes: &Vec<u8>) -> (r: String)
    ensures
        r@ == hex(bytes@),
{
    let mut r = String::new();
    let mut i: usize = 0;
    while i < bytes.len()
        invariant
            i <= bytes.len(),
            r@ == hex(bytes@.take(i as int)),
        decreases bytes.len() - i,
    {
        r.push(hex_digit(bytes[i] / 16));
        r.push(hex_digit(bytes[i] % 16));
        assert(r@ == hex(bytes@.take(i + 1)));
        i += 1;
    }
    assert(bytes@.take(i as int) == bytes@);
    r
}

/// The name under which a file with this digest and path is cached.
pub fn remote_cache_key(digest: &Vec<u8>, remote_path: &str) -> (r: String)
    ensures
        r@ == cache_key(digest@, remote_path@),
{
    let key = hex_text(digest);
    let suffix = remote_cache_suffix(remote_path);
    concat2(key.as_str(), suffix.as_str())
}

/// Where a file of the given endpoint is cached below `cache_root`. `canonical` is the
/// host in canonical form, where it has one: hosts with the same form share a file.
pub fn remote_cache_path_for_endpoint(
    cache_root: &str,
    user: &str,
    host: &str,
    canonical: Option<&str>,
    port: u16,
    remote_path: &str,
) -> (r: String)
    ensures
        r@ == joined_path(
            cache_root@,
            cache_key(
                sha256_digest(
                    cache_identity(
                        user@,
                        host_in_use(host@, given_text(canonical)),
                        port,
                        remote_path@,
                    ),
                ),
                remote_path@,
            ),
        ),
{
    let host = used_host(host, canonical);
    let data = identity_bytes(user, host, port, remote_path);
    let digest = sha256(&data);
    let key = remote_cache_key(&digest, remote_path);
    join_path(cache_root, key.as_str())
}

/// Where a file of the profile's endpoint is cached below `cache_root`.
pub open spec fn cache_path(
    cache_root: Seq<char>,
    profile: ProfileView,
    canonical: Option<Seq<char>>,
    remote_path: Seq<char>,
) -> Seq<char> {
    joined_path(
        cache_root,
        cache_key(
            sha256_digest(
                cache_identity(
                    profile.user,
                    host_in_use(profile.host, canonical),
                    profile.port,
                    remote_path,
                ),
            ),
            remote_path,
        ),
    )
}

/// Where a file of the profile's endpoint is cached below `cache_root`. `canonical` is
/// the host in canonical form, where it has one.
pub fn remote_cache_path_in(
    cache_root: &str,
    profile: &RemoteProfile,
    canonical: Option<&str>,
    remote_path: &str,
) -> (r: String)
    ensures
        r@ == cache_path(cache_root@, profile@, given_text(canonical), remote_path@),
{
    remote_cache_path_for_endpoint(
        cache_root,
        profile.user.as_str(),
        profile.host.as_str(),
        canonical,
        profile.port,
        remote_path,
    )
}

/// A cache name is 64 hexadecimal digits, followed by nothing or by a dot and
/// up to sixteen letters and digits: it is one path component, and no byte of
/// the remote path reaches it but those of a safe extension.
pub proof fn law_cache_key_is_one_safe_component(digest: Seq<u8>, remote_path: Seq<char>)
    requires
        digest.len() == 32,
    ensures
        64 <= cache_key(digest, remote_path).len() <= 81,
        forall|i: int|
            0 <= i < 64 ==> {
                let c = #[trigger] cache_key(digest, remote_path)[i];
                ('0' <= c && c <= '9') || ('a' <= c && c <= 'f')
            },
        cache_key(digest, remote_path).len() > 64 ==> cache_key(digest, remote_path)[64] == '.',
        forall|i: int|
            64 < i < cache_key(digest, remote_path).len() ==> ascii_alphanumeric(
                #[trigger] cache_key(digest, remote_path)[i],
            ),
        !cache_key(digest, remote_path).contains('/'),
{
    let key = cache_key(digest, remote_path);
    let suffix = cache_suffix(remote_path);
    let name = last_component(remote_path);
    let dot = last_position(name, '.');
    lemma_last_position(name, '.');
    lemma_last_position(remote_path, '/');
    let ext = name.subrange(dot + 1, name.len() as int);
    assert forall|i: int| 0 <= i < 64 implies {
        let c = #[trigger] key[i];
        ('0' <= c && c <= '9') || ('a' <= c && c <= 'f')
    } by {
        assert(key[i] == hex(digest)[i]);
        let b = digest[i / 2];
        assert(b / 16 < 16 && b % 16 < 16);
    }
    assert forall|i: int| 64 < i < key.len() implies ascii_alphanumeric(#[trigger] key[i]) by {
        assert(key[i] == suffix[i - 64]);
        assert(suffix[i - 64] == ext[i - 65]);
    }
    if key.len() > 64 {
        assert(key[64] == suffix[0]);
    }
    assert forall|i: int| 0 <= i < key.len() implies key[i] != '/' by {
        if i < 64 {
        } else if i > 64 {
            assert(ascii_alphanumeric(key[i]));
        }
    }
}

proof fn lemma_be64_injective(a: u64, b: u64)
    requires
        be64(a) == be64(b),
    ensures
        a == b,
{
    let x = be64(a);
    let y = be64(b);
    assert(x[0] == y[0] && x[1] == y[1] && x[2] == y[2] && x[3] == y[3]);
    assert(x[4] == y[4] && x[5] == y[5] && x[6] == y[6] && x[7] == y[7]);
    assert(a == b) by (bit_vector)
        requires
            ((a >> 56) & 0xff) as u8 == ((b >> 56) & 0xff) as u8,
            ((a >> 48) & 0xff) as u8 == ((b >> 48) & 0xff) as u8,
            ((a >> 40) & 0xff) as u8 == ((b >> 40) & 0xff) as u8,
            ((a >> 32) & 0xff) as u8 == ((b >> 32) & 0xff) as u8,
            ((a >> 24) & 0xff) as u8 == ((b >> 24) & 0xff) as u8,
            ((a >> 16) & 0xff) as u8 == ((b >> 16) & 0xff) as u8,
            ((a >> 8) & 0xff) as u8 == ((b >> 8) & 0xff) as u8,
            (a & 0xff) as u8 == (b & 0xff) as u8,
    ;
}

proof fn lemma_be16_injective(a: u16, b: u16)
    requires
        be16(a) == be16(b),
    ensures
        a == b,
{
    let x = be16(a);
    let y = be16(b);
    assert(x[0] == y[0] && x[1] == y[1]);
    assert(a == b) by (bit_vector)
        requires
            ((a >> 8) & 0xff) as u8 == ((b >> 8) & 0xff) as u8,
            (a & 0xff) as u8 == (b & 0xff) as u8,
    ;
}

proof fn lemma_frame_splits(a: Seq<u8>, x: Seq<u8>, b: Seq<u8>, y: Seq<u8>)
    requires
        a.len() <= u64::MAX,
        b.len() <= u64::MAX,
        framed(a) + x == framed(b) + y,
    ensures
        a == b,
        x == y,
{
    let p = framed(a) + x;
    let q = framed(b) + y;
    assert(be64(a.len() as u64) == p.take(8));
    assert(be64(b.len() as u64) == q.take(8));
    lemma_be64_injective(a.len() as u64, b.len() as u64);
    let n = a.len() as int;
    assert(a == p.subrange(8, 8 + n));
    assert(b == q.subrange(8, 8 + n));
    assert(x == p.subrange(8 + n, p.len() as int));
    assert(y == q.subrange(8 + n, q.len() as int));
}

/// Two remote files have the same identity only where user, host, port and path
/// all agree: no two endpoints share what is digested.
pub proof fn law_cache_identity_separates_endpoints(
    user1: Seq<char>,
    host1: Seq<char>,
    port1: u16,
    path1: Seq<char>,
    user2: Seq<char>,
    host2: Seq<char>,
    port2: u16,
    path2: Seq<char>,
)
    requires
        encode_utf8(user1).len() <= u64::MAX,
        encode_utf8(user2).len() <= u64::MAX,
        encode_utf8(host1).len() <= u64::MAX,
        encode_utf8(host2).len() <= u64::MAX,
        encode_utf8(path1).len() <= u64::MAX,
        encode_utf8(path2).len() <= u64::MAX,
        cache_identity(user1, host1, port1, path1) == cache_identity(user2, host2, port2, path2),
    ensures
        user1 == user2,
        host1 == host2,
        port1 == port2,
        path1 == path2,
{
    broadcast use vstd::utf8::encode_utf8_decode_utf8;

    let tag = encode_utf8("cokacdir-remote-cache-v1\0"@);
    let u1 = encode_utf8(user1);
    let u2 = encode_utf8(user2);
    let h1 = encode_utf8(host1);
    let h2 = encode_utf8(host2);
    let p1 = encode_utf8(path1);
    let p2 = encode_utf8(path2);
    let c1 = framed(p1) + be16(port1);
    let c2 = framed(p2) + be16(port2);
    let b1 = framed(h1) + c1;
    let b2 = framed(h2) + c2;
    let a1 = framed(u1) + b1;
    let a2 = framed(u2) + b2;
    let w1 = cache_identity(user1, host1, port1, path1);
    let w2 = cache_identity(user2, host2, port2, path2);
    assert(w1 == tag + a1);
    assert(w2 == tag + a2);
    assert(a1 == w1.skip(tag.len() as int));
    assert(a2 == w2.skip(tag.len() as int));
    lemma_frame_splits(u1, b1, u2, b2);
    lemma_frame_splits(h1, c1, h2, c2);
    lemma_frame_splits(p1, be16(port1), p2, be16(port2));
    lemma_be16_injective(port1, port2);
    assert(vstd::utf8::decode_utf8(u1) == vstd::utf8::decode_utf8(u2));
    assert(vstd::utf8::decode_utf8(h1) == vstd::utf8::decode_utf8(h2));
    assert(vstd::utf8::decode_utf8(p1) == vstd::utf8::decode_utf8(p2));
}

/// A byte is written as two digits, the higher one first.
pub proof fn law_bytes_are_written_in_hex(bytes: Seq<u8>, i: int)
    requires
        0 <= i < bytes.len(),
    ensures
        hex(bytes).len() == 2 * bytes.len(),
        hex(bytes)[2 * i] == hex_char(bytes[i] / 16),
        hex(bytes)[2 * i + 1] == hex_char(bytes[i] % 16),
{
    assert((2 * i) / 2 == i && (2 * i) % 2 == 0);
    assert((2 * i + 1) / 2 == i && (2 * i + 1) % 2 == 1);
}

/// The digits in their order.
pub proof fn law_hex_digits(d: u8)
    requires
        d < 16,
    ensures
        d < 10 ==> hex_char(d) as u32 == '0' as u32 + d,
        d >= 10 ==> hex_char(d) as u32 == 'a' as u32 + d - 10,
        hex_char(0) == '0',
        hex_char(9) == '9',
        hex_char(10) == 'a',
        hex_char(15) == 'f',
{
}

/// A cached file keeps a short plain extension of the remote one, and no other.
pub proof fn law_cached_file_keeps_its_extension(dir: Seq<char>, stem: Seq<char>, ext: Seq<char>)
    requires
        !stem.contains('/'),
        !ext.contains('/'),
        !ext.contains('.'),
    ensures
        1 <= ext.len() <= 16 && (forall|i: int|
            0 <= i < ext.len() ==> {
                let c = #[trigger] ext[i];
                ('a' <= c && c <= 'z') || ('A' <= c && c <= 'Z') || ('0' <= c && c <= '9')
            }) ==> cache_suffix(dir + "/"@ + stem + "."@ + ext) == "."@ + ext,
        ext.len() > 16 || ext.len() == 0 ==> cache_suffix(dir + "/"@ + stem + "."@ + ext).len()
            == 0,
        cache_suffix(dir + "/"@ + ext).len() == 0,
{
    reveal_strlit("/");
    reveal_strlit(".");
    assert("."@ =~= seq!['.']);
    assert forall|i: int| 0 <= i < ext.len() implies ext[i] != '.' && ext[i] != '/' by {
        assert(ext.contains(ext[i]));
    }
    assert forall|i: int| 0 <= i < stem.len() implies stem[i] != '/' by {
        assert(stem.contains(stem[i]));
    }
    let path = dir + "/"@ + stem + "."@ + ext;
    let name = stem + "."@ + ext;
    assert(path =~= dir + seq!['/'] + name);
    lemma_cut_at(path, dir, name, '/');
    lemma_cut_at(name, stem, ext, '.');
    assert(path.subrange(dir.len() as int + 1, path.len() as int) =~= name);
    assert(name.subrange(stem.len() as int + 1, name.len() as int) =~= ext);
    let bare = dir + "/"@ + ext;
    assert(bare =~= dir + seq!['/'] + ext);
    lemma_cut_at(bare, dir, ext, '/');
    assert(bare.subrange(dir.len() as int + 1, bare.len() as int) =~= ext);
    lemma_no_position(ext, '.');
}

proof fn lemma_cut_at(whole: Seq<char>, head: Seq<char>, tail: Seq<char>, c: char)
    requires
        whole == head + seq![c] + tail,
        forall|i: int| 0 <= i < tail.len() ==> tail[i] != c,
    ensures
        last_position(whole, c) == head.len(),
    decreases tail.len(),
{
    if tail.len() == 0 {
        assert(whole.last() == c);
    } else {
        assert(whole.last() == tail.last());
        assert(whole.drop_last() =~= head + seq![c] + tail.drop_last());
        lemma_cut_at(whole.drop_last(), head, tail.drop_last(), c);
    }
}

proof fn lemma_no_position(s: Seq<char>, c: char)
    requires
        forall|i: int| 0 <= i < s.len() ==> s[i] != c,
    ensures
        last_position(s, c) == -1,
    decreases s.len(),
{
    if s.len() > 0 {
        lemma_no_position(s.drop_last(), c);
    }
}

} // verus!
