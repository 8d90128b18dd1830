//! The cache of compiled scripts.
//!
//! A compiled script is kept in a file named by a hash of all that its
//! validity depends on: the format, the platform, the page environment and
//! the source. This module says where the files lie, which of them go when
//! there are too many, and in what order a script is looked up, compiled,
//! stored and run.
use vstd::prelude::*;
use vstd::utf8::{encode_utf8, encode_utf8_decode_utf8};

use sha2::Digest;

use crate::json::{
    json_number, json_text_of, lemma_entry_at, no_entries, object, put, Json, JsonModel,
    NumberModel,
};
use crate::text::{char_bytes, chars_of, concat, has_suffix, parse_u64, read_u64, same, text_of};

verus! {

/// The version of the format of the files, as four bytes with the least
/// first.
pub const FORMAT_MARK: &'static str = "\u{1}\0\0\0";

/// How many bytes the cache may hold where nothing else is asked for.
pub const DEFAULT_MAX_TOTAL_BYTES: u64 = 524288000;

// ---------------------------------------------------------------------
// Paths
// ---------------------------------------------------------------------

/// A path with one more part, as `std::path::Path::join` makes it on Unix: a
/// part that starts at the root replaces the path, any other comes behind a
/// slash.
pub open spec fn joined_path(base: Seq<char>, part: Seq<char>) -> Seq<char> {
    if "/"@.is_prefix_of(part) {
        part
    } else if base.len() == 0 || "/"@.is_suffix_of(base) {
        base + part
    } else {
        base + "/"@ + part
    }
}

/// A path with one more part.
pub fn join_path(base: &str, part: &str) -> (r: String)
    ensures
        r@ == joined_path(base@, part@),
{
    if crate::text::has_prefix(part, "/") {
        part.to_owned()
    } else if base.unicode_len() == 0 || has_suffix(base, "/") {
        concat(base, part)
    } else {
        crate::text::concat3(base, "/", part)
    }
}

/// What a borrowed text that may be missing stands for.
pub open spec fn borrowed_model(s: Option<&str>) -> Option<Seq<char>> {
    match s {
        Some(t) => Some(t@),
        None => None,
    }
}

/// Where the cache lies: where it was asked for, or else below the home
/// directory, or else in the directory for temporary files.
pub open spec fn cache_root(asked: Option<Seq<char>>, home: Option<Seq<char>>) -> Seq<char> {
    match (asked, home) {
        (Some(p), _) => p,
        (None, Some(h)) => joined_path(joined_path(h, ".unbrowser"@), "bytecode"@),
        (None, None) => joined_path("/tmp"@, "unbrowser-bytecode"@),
    }
}

/// Where the cache lies, by what the environment says.
pub fn cache_dir(asked: Option<&str>, home: Option<&str>) -> (r: String)
    ensures
        r@ == cache_root(borrowed_model(asked), borrowed_model(home)),
{
    match asked {
        Some(p) => p.to_owned(),
        None => match home {
            Some(h) => join_path(join_path(h, ".unbrowser").as_str(), "bytecode"),
            None => join_path("/tmp", "unbrowser-bytecode"),
        },
    }
}

/// Whether the cache is switched off, by what the environment says.
pub fn is_disabled(value: Option<&str>) -> (r: bool)
    ensures
        r == (borrowed_model(value) == Some("1"@) || borrowed_model(value) == Some("true"@)),
{
    match value {
        Some(v) => same(v, "1") || same(v, "true"),
        None => false,
    }
}

/// How many bytes the cache may hold: so many megabytes as were asked for, if
/// that is a number.
pub open spec fn byte_cap(megabytes: Option<Seq<char>>) -> int {
    match megabytes {
        Some(s) => match read_u64(s) {
            Some(mb) => mb * 1024 * 1024,
            None => DEFAULT_MAX_TOTAL_BYTES as int,
        },
        None => DEFAULT_MAX_TOTAL_BYTES as int,
    }
}

/// How many bytes the cache may hold, by what the environment says.
pub fn max_total_bytes(megabytes: Option<&str>) -> (r: u64)
    requires
        byte_cap(borrowed_model(megabytes)) <= u64::MAX,
    ensures
        r == byte_cap(borrowed_model(megabytes)),
{
    match megabytes {
        Some(s) => match parse_u64(s) {
            Some(mb) => mb * 1024 * 1024,
            None => DEFAULT_MAX_TOTAL_BYTES,
        },
        None => DEFAULT_MAX_TOTAL_BYTES,
    }
}

// ---------------------------------------------------------------------
// Keys
// ---------------------------------------------------------------------

/// The hexadecimal digit of a number below sixteen.
pub open spec fn hex_digit(n: int) -> char {
    if n < 10 {
        (48 + n) as u8 as char
    } else {
        (87 + n) as u8 as char
    }
}

/// Bytes in hexadecimal, two digits each.
pub open spec fn hex_text(bytes: Seq<u8>) -> Seq<char> {
    Seq::new(
        2 * bytes.len(),
        |i: int|
            if i % 2 == 0 {
                hex_digit(bytes[i / 2] as int / 16)
            } else {
                hex_digit(bytes[i / 2] as int % 16)
            },
    )
}

/// The hexadecimal digit of a number below sixteen.
fn digit_of(n: u8) -> (r: char)
    requires
        n < 16,
    ensures
        r == hex_digit(n as int),
{
    if n < 10 {
        (48 + n) as char
    } else {
        (87 + n) as char
    }
}

/// Bytes in hexadecimal, two digits each.
pub fn hex_encode(bytes: &[u8]) -> (r: String)
    ensures
        r@ == hex_text(bytes@),
{
    let mut out = String::new();
    let ghost all = hex_text(bytes@);
    let mut i: usize = 0;
    while i < bytes.len()
        invariant
            i <= bytes@.len(),
            all == hex_text(bytes@),
            out@ =~= all.take(2 * i),
        decreases bytes@.len() - i,
    {
        let b: u8 = bytes[i];
        out.push(digit_of(b / 16));
        out.push(digit_of(b % 16));
        proof {
            assert((2 * i) / 2 == i);
            assert((2 * i + 1) / 2 == i);
            assert(all.take(2 * (i + 1)) =~= all.take(2 * i).push(all[2 * i]).push(all[2 * i + 1]));
        }
        i = i + 1;
    }
    assert(all.take(2 * i) =~= all);
    out
}

/// The SHA-256 hash of some bytes.
pub uninterp spec fn sha256_of(bytes: Seq<u8>) -> Seq<u8>;

/// Calls `sha2::Sha256::digest`: the hash depends on the bytes alone and is
/// 32 bytes long.
#[verifier::external_body]
fn sha256_digest(bytes: &[u8]) -> (r: Vec<u8>)
    ensures
        r@ == sha256_of(bytes@),
        r@.len() == 32,
{
    sha2::Sha256::digest(bytes).to_vec()
}

/// The hash of a text, in hexadecimal.
pub open spec fn text_hash(text: Seq<char>) -> Seq<char> {
    hex_text(sha256_of(encode_utf8(text)))
}

/// The hash of a text, in hexadecimal.
pub fn sha256(text: &str) -> (r: String)
    ensures
        r@ == text_hash(text@),
        r@.len() == 64,
{
    let digest = sha256_digest(text.as_bytes());
    hex_encode(digest.as_slice())
}

/// All that the validity of a compiled script depends on, one behind the
/// other.
pub open spec fn key_material(
    source: Seq<char>,
    shim_hash: Seq<char>,
    arch: Seq<char>,
    os: Seq<char>,
    engine: Seq<char>,
) -> Seq<char> {
    "unbrowser-bytecode\0"@ + FORMAT_MARK@ + (arch + "-"@ + os) + "\0"@ + engine + "\0"@ + shim_hash
        + "\0"@ + source
}

/// The key of a script in the cache: it depends on the source, the page
/// environment, the platform, and the version of the engine.
pub fn cache_key(source: &str, shim_hash: &str, arch: &str, os: &str, engine: &str) -> (r: String)
    ensures
        r@ == text_hash(key_material(source@, shim_hash@, arch@, os@, engine@)),
        r@.len() == 64,
{
    let mut platform = arch.to_owned();
    platform.append("-");
    platform.append(os);
    let mut m = "unbrowser-bytecode\0".to_owned();
    m.append(FORMAT_MARK);
    m.append(platform.as_str());
    m.append("\0");
    m.append(engine);
    m.append("\0");
    m.append(shim_hash);
    m.append("\0");
    m.append(source);
    sha256(m.as_str())
}

/// The hash of the page environment, which the scripts in it are made of.
pub fn shim_hash(dom: &str, shims: &str, blockmap: &str, interact: &str) -> (r: String)
    ensures
        r@ == text_hash(dom@ + "\0"@ + shims@ + "\0"@ + blockmap@ + "\0"@ + interact@),
        r@.len() == 64,
{
    let mut m = dom.to_owned();
    m.append("\0");
    m.append(shims);
    m.append("\0");
    m.append(blockmap);
    m.append("\0");
    m.append(interact);
    sha256(m.as_str())
}

/// The characters in the first two bytes of a key, or in the only one; nothing
/// where those bytes end inside a character.
pub open spec fn key_prefix(key: Seq<char>) -> Option<Seq<char>> {
    if key.len() == 0 {
        Some(key)
    } else if char_bytes(key[0]) == 2 {
        Some(key.take(1))
    } else if char_bytes(key[0]) > 2 {
        None
    } else if key.len() == 1 {
        Some(key)
    } else if char_bytes(key[1]) == 1 {
        Some(key.take(2))
    } else {
        None
    }
}

/// The file of a key: below the root, in a directory named by the first two
/// bytes of the key.
pub open spec fn key_path(root: Seq<char>, key: Seq<char>) -> Seq<char> {
    joined_path(joined_path(root, key_prefix(key)->0), key + ".qbc"@)
}

/// The file of a key.
pub fn key_to_path(root: &str, key: &str) -> (r: String)
    requires
        key_prefix(key@) is Some,
    ensures
        r@ == key_path(root@, key@),
{
    let cs = chars_of(key);
    let n: usize = if cs.len() == 0 {
        0
    } else if cs.len() == 1 || cs[0] as u32 >= 0x80 {
        1
    } else {
        2
    };
    let prefix = text_of(&cs, 0, n);
    assert(prefix@ =~= key_prefix(key@)->0);
    join_path(join_path(root, prefix.as_str()).as_str(), concat(key, ".qbc").as_str())
}

// ---------------------------------------------------------------------
// What holds of keys
// ---------------------------------------------------------------------

/// Different bytes have different hexadecimal forms.
pub proof fn law_hex_injective(a: Seq<u8>, b: Seq<u8>)
    requires
        hex_text(a) == hex_text(b),
    ensures
        a == b,
{
    assert(hex_text(a).len() == 2 * a.len());
    assert(hex_text(b).len() == 2 * b.len());
    assert forall|i: int| 0 <= i < a.len() implies a[i] == b[i] by {
        assert((2 * i) / 2 == i && (2 * i) % 2 == 0);
        assert((2 * i + 1) / 2 == i && (2 * i + 1) % 2 == 1);
        let (h, k) = (a[i] as int / 16, b[i] as int / 16);
        let (l, m) = (a[i] as int % 16, b[i] as int % 16);
        assert(hex_text(a)[2 * i] == hex_digit(h));
        assert(hex_text(b)[2 * i] == hex_digit(k));
        assert(hex_text(a)[2 * i + 1] == hex_digit(l));
        assert(hex_text(b)[2 * i + 1] == hex_digit(m));
        lemma_hex_digit_injective(h, k);
        lemma_hex_digit_injective(l, m);
    }
    assert(a =~= b);
}

proof fn lemma_hex_digit_injective(a: int, b: int)
    requires
        0 <= a < 16,
        0 <= b < 16,
        hex_digit(a) == hex_digit(b),
    ensures
        a == b,
{
    assert(hex_digit(a) as u32 == (if a < 10 {
        48 + a
    } else {
        87 + a
    }));
    assert(hex_digit(b) as u32 == (if b < 10 {
        48 + b
    } else {
        87 + b
    }));
}

/// Two texts around a mark that is not in the first are fixed by the whole.
proof fn lemma_split_at_mark(a: Seq<char>, b: Seq<char>, c: Seq<char>, d: Seq<char>, mark: char)
    requires
        a + seq![mark] + b == c + seq![mark] + d,
        !a.contains(mark),
        !c.contains(mark),
    ensures
        a == c,
        b == d,
{
    let left = a + seq![mark] + b;
    let right = c + seq![mark] + d;
    assert(left[a.len() as int] == mark);
    assert(right[c.len() as int] == mark);
    if a.len() < c.len() {
        assert(right[a.len() as int] == c[a.len() as int]);
        assert(c.contains(mark));
    }
    if c.len() < a.len() {
        assert(left[c.len() as int] == a[c.len() as int]);
        assert(a.contains(mark));
    }
    assert(left.take(a.len() as int) =~= a);
    assert(right.take(c.len() as int) =~= c);
    assert(left.skip(a.len() as int + 1) =~= b);
    assert(right.skip(c.len() as int + 1) =~= d);
}

/// A platform holds a mark only where one of its parts does.
proof fn lemma_platform_unmarked(arch: Seq<char>, os: Seq<char>)
    requires
        !arch.contains('\0'),
        !os.contains('\0'),
    ensures
        !(arch + seq!['-'] + os).contains('\0'),
{
    let p = arch + seq!['-'] + os;
    if p.contains('\0') {
        let i = choose|i: int| 0 <= i < p.len() && p[i] == '\0';
        if i < arch.len() {
            assert(arch[i] == '\0');
        } else if i > arch.len() {
            assert(os[i - arch.len() - 1] == '\0');
        }
    }
}

/// What stands behind the mark of the format in what is hashed for a key.
proof fn lemma_material_tail(
    source: Seq<char>,
    shim: Seq<char>,
    arch: Seq<char>,
    os: Seq<char>,
    engine: Seq<char>,
)
    ensures
        key_material(source, shim, arch, os, engine).skip(
            ("unbrowser-bytecode\0"@ + FORMAT_MARK@).len() as int,
        ) == (arch + seq!['-'] + os) + seq!['\0'] + (engine + seq!['\0'] + (shim + seq!['\0']
            + source)),
{
    reveal_strlit("\0");
    reveal_strlit("-");
    assert("\0"@ =~= seq!['\0']);
    assert("-"@ =~= seq!['-']);
    let head = "unbrowser-bytecode\0"@ + FORMAT_MARK@;
    let tail = (arch + seq!['-'] + os) + seq!['\0'] + (engine + seq!['\0'] + (shim + seq!['\0']
        + source));
    assert(key_material(source, shim, arch, os, engine) =~= head + tail);
    assert((head + tail).skip(head.len() as int) =~= tail);
}

/// The bytes that are hashed for a key fix the platform, the version of the
/// engine, the environment and the source: a script is never looked up under
/// the material of another source, environment, engine or platform.
pub proof fn law_key_material_injective(
    source1: Seq<char>,
    shim1: Seq<char>,
    arch1: Seq<char>,
    os1: Seq<char>,
    engine1: Seq<char>,
    source2: Seq<char>,
    shim2: Seq<char>,
    arch2: Seq<char>,
    os2: Seq<char>,
    engine2: Seq<char>,
)
    requires
        !shim1.contains('\0') && !shim2.contains('\0'),
        !arch1.contains('\0') && !arch2.contains('\0'),
        !os1.contains('\0') && !os2.contains('\0'),
        !engine1.contains('\0') && !engine2.contains('\0'),
        !arch1.contains('-') && !arch2.contains('-'),
        encode_utf8(key_material(source1, shim1, arch1, os1, engine1)) == encode_utf8(
            key_material(source2, shim2, arch2, os2, engine2),
        ),
    ensures
        source1 == source2,
        shim1 == shim2,
        arch1 == arch2,
        os1 == os2,
        engine1 == engine2,
{
    let m1 = key_material(source1, shim1, arch1, os1, engine1);
    let m2 = key_material(source2, shim2, arch2, os2, engine2);
    encode_utf8_decode_utf8(m1);
    encode_utf8_decode_utf8(m2);
    assert(m1 == m2);
    let (p1, p2) = (arch1 + seq!['-'] + os1, arch2 + seq!['-'] + os2);
    let (t1, t2) = (shim1 + seq!['\0'] + source1, shim2 + seq!['\0'] + source2);
    let (e1, e2) = (engine1 + seq!['\0'] + t1, engine2 + seq!['\0'] + t2);
    lemma_material_tail(source1, shim1, arch1, os1, engine1);
    lemma_material_tail(source2, shim2, arch2, os2, engine2);
    lemma_platform_unmarked(arch1, os1);
    lemma_platform_unmarked(arch2, os2);
    lemma_split_at_mark(p1, e1, p2, e2, '\0');
    lemma_split_at_mark(engine1, t1, engine2, t2, '\0');
    lemma_split_at_mark(shim1, source1, shim2, source2, '\0');
    lemma_split_at_mark(arch1, os1, arch2, os2, '-');
}

/// The file of a hash lies two levels below the root: in a directory named by
/// its first two digits, under a name that holds all of it.
pub proof fn law_hash_path(root: Seq<char>, bytes: Seq<u8>)
    requires
        bytes.len() == 32,
    ensures
        key_prefix(hex_text(bytes)) == Some(hex_text(bytes).take(2)),
        root.len() > 0 && !"/"@.is_suffix_of(root) ==> key_path(root, hex_text(bytes)) == root
            + "/"@ + hex_text(bytes).take(2) + "/"@ + hex_text(bytes) + ".qbc"@,
{
    let key = hex_text(bytes);
    assert forall|i: int| 0 <= i < key.len() implies key[i] as u32 != '/' as u32 && (key[i] as u32)
        < 0x80 by {
        lemma_hex_digit_range(bytes[i / 2] as int / 16);
        lemma_hex_digit_range(bytes[i / 2] as int % 16);
    }
    reveal_strlit("/");
    let p = key.take(2);
    assert(p[0] == key[0] && p[1] == key[1]);
    assert("/"@[0] == '/');
    if "/"@.is_prefix_of(p) {
        assert(p.subrange(0, 1)[0] == '/');
    }
    let name = key + ".qbc"@;
    if "/"@.is_prefix_of(name) {
        assert(name.subrange(0, 1)[0] == '/');
        assert(name[0] == key[0]);
    }
    let dir = root + "/"@ + p;
    if "/"@.is_suffix_of(dir) {
        assert(dir.subrange(dir.len() - 1, dir.len() as int)[0] == '/');
        assert(dir[dir.len() - 1] == p[1]);
    }
    if root.len() > 0 && !"/"@.is_suffix_of(root) {
        assert(joined_path(root, p) == dir);
        assert(key_path(root, key) =~= dir + "/"@ + name);
    }
}

proof fn lemma_hex_digit_range(n: int)
    requires
        0 <= n < 16,
    ensures
        48 <= hex_digit(n) as u32 <= 102,
{
}

// ---------------------------------------------------------------------
// Eviction
// ---------------------------------------------------------------------

/// A file of the cache: how long it is, and when it was last written, in
/// nanoseconds since 1970.
#[derive(Debug, Clone, Copy, PartialEq, Eq, Structural)]
pub struct CacheFile {
    pub len: u64,
    pub mtime: i128,
}

/// How long the files are together.
pub open spec fn total_len(files: Seq<CacheFile>) -> int
    decreases files.len(),
{
    if files.len() == 0 {
        0
    } else {
        total_len(files.drop_last()) + files.last().len
    }
}

/// The files in the order of these indices.
pub open spec fn arranged(files: Seq<CacheFile>, order: Seq<usize>) -> Seq<CacheFile> {
    Seq::new(order.len(), |i: int| files[order[i] as int])
}

/// Whether the file at `a` goes before the one at `b`: the older first, and
/// of two of one age the one that was found first.
pub open spec fn goes_before(files: Seq<CacheFile>, a: usize, b: usize) -> bool {
    files[a as int].mtime < files[b as int].mtime || (files[a as int].mtime
        == files[b as int].mtime && a < b)
}

/// Whether `order` holds the indices of the first `n` files, each once, in the
/// order in which they go.
pub open spec fn is_eviction_order(files: Seq<CacheFile>, order: Seq<usize>, n: int) -> bool {
    &&& order.len() == n
    &&& forall|i: int| 0 <= i < order.len() ==> (#[trigger] order[i]) < n
    &&& forall|k: usize| k < n ==> #[trigger] order.contains(k)
    &&& forall|i: int, j: int|
        0 <= i < j < order.len() ==> goes_before(files, #[trigger] order[i], #[trigger] order[j])
    &&& total_len(arranged(files, order)) == total_len(files.take(n))
}

/// One more file makes the total longer by its length, wherever it stands.
proof fn lemma_total_len_insert(files: Seq<CacheFile>, i: int, f: CacheFile)
    requires
        0 <= i <= files.len(),
    ensures
        total_len(files.insert(i, f)) == total_len(files) + f.len,
    decreases files.len(),
{
    let more = files.insert(i, f);
    if i == files.len() {
        assert(more.drop_last() =~= files);
    } else {
        lemma_total_len_insert(files.drop_last(), i, f);
        assert(more.drop_last() =~= files.drop_last().insert(i, f));
    }
}

/// The order in which files go.
fn eviction_order(files: &Vec<CacheFile>) -> (r: Vec<usize>)
    ensures
        is_eviction_order(files@, r@, files@.len() as int),
{
    let mut order: Vec<usize> = Vec::new();
    let mut n: usize = 0;
    assert(arranged(files@, order@) =~= files@.take(0));
    while n < files.len()
        invariant
            n <= files.len(),
            is_eviction_order(files@, order@, n as int),
        decreases files.len() - n,
    {
        let ghost before = order@;
        let mut i: usize = n;
        while i > 0 && files[n].mtime < files[order[i - 1]].mtime
            invariant
                i <= n < files.len(),
                order@ == before,
                is_eviction_order(files@, before, n as int),
                forall|j: int| i <= j < n ==> files@[n as int].mtime < files@[(#[trigger] before[j]) as int].mtime,
            decreases i,
        {
            i = i - 1;
        }
        proof {
            assert forall|j: int| 0 <= j < i implies goes_before(files@, #[trigger] before[j], n) by {
                assert(before[j] < n);
                if j < i - 1 {
                    assert(goes_before(files@, before[j], before[i - 1]));
                }
            }
        }
        order.insert(i, n);
        proof {
            let after = order@;
            assert(after =~= before.insert(i as int, n));
            assert forall|k: usize| k < n + 1 implies #[trigger] after.contains(k) by {
                if k == n {
                    assert(after[i as int] == n);
                } else {
                    assert(before.contains(k));
                    let j = choose|j: int| 0 <= j < before.len() && before[j] == k;
                    if j < i {
                        assert(after[j] == k);
                    } else {
                        assert(after[j + 1] == k);
                    }
                }
            }
            assert forall|a: int, b: int| 0 <= a < b < after.len() implies goes_before(
                files@,
                #[trigger] after[a],
                #[trigger] after[b],
            ) by {
                let x = if a < i { a } else { a - 1 };
                let y = if b < i { b } else { b - 1 };
                if a != i && b != i {
                    assert(goes_before(files@, before[x], before[y]));
                } else if a == i {
                    assert(after[b] == before[y]);
                } else {
                    assert(after[a] == before[x]);
                }
            }
            lemma_total_len_insert(arranged(files@, before), i as int, files@[n as int]);
            assert(arranged(files@, after) =~= arranged(files@, before).insert(i as int, files@[n as int]));
            assert(files@.take(n + 1).drop_last() =~= files@.take(n as int));
        }
        n = n + 1;
    }
    order
}

/// The total after files went, in this order, as far as they could be removed.
pub open spec fn total_after(files: Seq<CacheFile>, order: Seq<usize>, removed: Seq<bool>) -> int
    decreases removed.len(),
{
    if removed.len() == 0 {
        total_len(files)
    } else {
        let before = total_after(files, order, removed.drop_last());
        if removed.last() {
            before - files[order[removed.len() - 1] as int].len
        } else {
            before
        }
    }
}

/// What is gone is part of what was there.
proof fn lemma_total_after(files: Seq<CacheFile>, order: Seq<usize>, removed: Seq<bool>)
    requires
        is_eviction_order(files, order, files.len() as int),
        removed.len() <= order.len(),
    ensures
        total_after(files, order, removed) >= total_len(arranged(files, order).skip(removed.len() as int)),
        (forall|i: int| 0 <= i < removed.len() ==> removed[i]) ==> total_after(files, order, removed)
            == total_len(arranged(files, order).skip(removed.len() as int)),
    decreases removed.len(),
{
    let a = arranged(files, order);
    let n = removed.len() as int;
    if n == 0 {
        assert(a.skip(0) =~= a);
        assert(files.take(files.len() as int) =~= files);
    } else {
        lemma_total_after(files, order, removed.drop_last());
        lemma_total_len_insert(a.skip(n), 0, a[n - 1]);
        assert(a.skip(n).insert(0, a[n - 1]) =~= a.skip(n - 1));
        if forall|i: int| 0 <= i < removed.len() ==> removed[i] {
            assert forall|i: int| 0 <= i < removed.drop_last().len() implies removed.drop_last()[i] by {
                assert(removed[i]);
            }
        }
    }
}

/// A run that brings the cache under its cap. It names one file after the
/// other to remove and is told whether that went well.
pub struct Pruner {
    files: Vec<CacheFile>,
    order: Vec<usize>,
    next: usize,
    total: u64,
    cap: u64,
    removed: Ghost<Seq<bool>>,
}

impl Pruner {
    /// The files that were found.
    pub closed spec fn files(self) -> Seq<CacheFile> {
        self.files@
    }

    /// The order in which they go.
    pub closed spec fn order(self) -> Seq<usize> {
        self.order@
    }

    /// Which of the files tried so far could be removed.
    pub closed spec fn removed(self) -> Seq<bool> {
        self.removed@
    }

    /// The cap.
    pub closed spec fn cap(self) -> u64 {
        self.cap
    }

    /// Whether the run is in order.
    pub closed spec fn wf(self) -> bool {
        &&& is_eviction_order(self.files@, self.order@, self.files@.len() as int)
        &&& self.next == self.removed@.len()
        &&& self.next <= self.order@.len()
        &&& self.total == total_after(self.files@, self.order@, self.removed@)
    }

    /// Starts a run on these files.
    pub fn start(files: Vec<CacheFile>, cap: u64) -> (r: Pruner)
        requires
            total_len(files@) <= u64::MAX,
        ensures
            r.wf(),
            r.files() == files@,
            r.cap() == cap,
            r.removed() == Seq::<bool>::empty(),
            is_eviction_order(files@, r.order(), files@.len() as int),
    {
        let mut total: u64 = 0;
        let mut i: usize = 0;
        assert(files@.take(0) =~= Seq::empty());
        while i < files.len()
            invariant
                i <= files.len(),
                total == total_len(files@.take(i as int)),
                total_len(files@) <= u64::MAX,
            decreases files.len() - i,
        {
            proof {
                assert(files@.take(i + 1).drop_last() =~= files@.take(i as int));
                lemma_total_len_prefix(files@, i + 1);
            }
            total = total + files[i].len;
            i = i + 1;
        }
        assert(files@.take(i as int) =~= files@);
        let order = eviction_order(&files);
        Pruner { files, order, next: 0, total, cap, removed: Ghost(Seq::empty()) }
    }

    /// The file to remove next; nothing once the cache is under its cap or
    /// every file was tried.
    pub fn victim(&self) -> (r: Option<usize>)
        requires
            self.wf(),
        ensures
            r is Some <==> total_after(self.files(), self.order(), self.removed()) > self.cap()
                && self.removed().len() < self.files().len(),
            r matches Some(v) ==> v == self.order()[self.removed().len() as int] && v
                < self.files().len(),
    {
        if self.total <= self.cap || self.next >= self.order.len() {
            None
        } else {
            Some(self.order[self.next])
        }
    }

    /// Notes whether the file that was named could be removed.
    pub fn report(&mut self, removed: bool)
        requires
            old(self).wf(),
            old(self).removed().len() < old(self).files().len(),
        ensures
            final(self).wf(),
            final(self).files() == old(self).files(),
            final(self).order() == old(self).order(),
            final(self).cap() == old(self).cap(),
            final(self).removed() == old(self).removed().push(removed),
    {
        let ghost so_far = self.removed@.push(removed);
        proof {
            assert(so_far.drop_last() =~= self.removed@);
            lemma_total_after(self.files@, self.order@, so_far);
            lemma_total_len_nonnegative(
                arranged(self.files@, self.order@).skip(so_far.len() as int),
            );
        }
        if removed {
            let len: u64 = self.files[self.order[self.next]].len;
            self.total = self.total.saturating_sub(len);
        }
        assert(self.next < self.order.len());
        self.next = self.next + 1;
        self.removed = Ghost(so_far);
    }
}

proof fn lemma_total_len_nonnegative(files: Seq<CacheFile>)
    ensures
        total_len(files) >= 0,
    decreases files.len(),
{
    if files.len() > 0 {
        lemma_total_len_nonnegative(files.drop_last());
    }
}

proof fn lemma_total_len_prefix(files: Seq<CacheFile>, n: int)
    requires
        0 <= n <= files.len(),
    ensures
        total_len(files.take(n)) <= total_len(files),
    decreases files.len() - n,
{
    if n < files.len() {
        lemma_total_len_prefix(files, n + 1);
        assert(files.take(n + 1).drop_last() =~= files.take(n));
    } else {
        assert(files.take(n) =~= files);
    }
}

/// A file goes only after every older one was tried.
pub proof fn law_oldest_goes_first(files: Seq<CacheFile>, order: Seq<usize>, k: int, kept: usize)
    requires
        is_eviction_order(files, order, files.len() as int),
        0 <= k < order.len(),
        kept < files.len(),
        forall|i: int| 0 <= i <= k ==> order[i] != kept,
    ensures
        files[order[k] as int].mtime <= files[kept as int].mtime,
{
    assert(order.contains(kept));
    let j = choose|j: int| 0 <= j < order.len() && order[j] == kept;
    assert(j > k);
    assert(goes_before(files, order[k], order[j]));
}

/// If every file that is named can be removed, a run ends with the cache
/// under its cap.
pub proof fn law_prune_reaches_cap(
    files: Seq<CacheFile>,
    order: Seq<usize>,
    removed: Seq<bool>,
    cap: u64,
)
    requires
        is_eviction_order(files, order, files.len() as int),
        removed.len() <= files.len(),
        forall|i: int| 0 <= i < removed.len() ==> removed[i],
        !(total_after(files, order, removed) > cap && removed.len() < files.len()),
    ensures
        total_after(files, order, removed) <= cap,
{
    lemma_total_after(files, order, removed);
    if removed.len() == files.len() {
        assert(arranged(files, order).skip(removed.len() as int) =~= Seq::empty());
    }
}

/// A cache that is under its cap loses nothing.
pub proof fn law_small_cache_untouched(files: Seq<CacheFile>, order: Seq<usize>, cap: u64)
    requires
        total_len(files) <= cap,
    ensures
        !(total_after(files, order, Seq::empty()) > cap),
{
}

// ---------------------------------------------------------------------
// Running a script through the cache
// ---------------------------------------------------------------------

/// What a script threw.
#[derive(Debug)]
pub enum Thrown {
    /// Null or undefined.
    Nothing,
    /// An object, with its name and message as far as they are texts.
    Object { name: Option<String>, message: Option<String> },
    /// A text.
    Text(String),
    /// Anything else.
    Other,
}

/// The words for what a script threw.
pub open spec fn thrown_words(t: Thrown) -> Seq<char> {
    match t {
        Thrown::Object { name, message } => {
            let n = match name {
                Some(s) => s@,
                None => "Error"@,
            };
            match message {
                Some(m) => if m@.len() > 0 {
                    n + ": "@ + m@
                } else {
                    n
                },
                None => n,
            }
        },
        Thrown::Text(s) => s@,
        _ => "<unknown JS exception>"@,
    }
}

/// The words for what a script threw.
pub fn format_js_exception(t: &Thrown) -> (r: String)
    ensures
        r@ == thrown_words(*t),
{
    match t {
        Thrown::Object { name, message } => {
            let mut n = match name {
                Some(s) => s.clone(),
                None => "Error".to_owned(),
            };
            match message {
                Some(m) => {
                    if m.as_str().unicode_len() > 0 {
                        n.append(": ");
                        n.append(m.as_str());
                    }
                },
                None => {},
            }
            n
        },
        Thrown::Text(s) => s.clone(),
        _ => "<unknown JS exception>".to_owned(),
    }
}

/// How an evaluation ended.
#[derive(Debug)]
pub enum Evaluated {
    Fine,
    /// The script threw.
    Threw(Thrown),
    /// The engine failed.
    Failed(String),
}

/// What an evaluation without the cache comes to.
pub open spec fn plain_result(e: Evaluated) -> Result<(), Seq<char>> {
    match e {
        Evaluated::Fine => Ok(()),
        Evaluated::Threw(t) => Err(thrown_words(t)),
        Evaluated::Failed(m) => Err("js eval: "@ + m@),
    }
}

/// What an outcome with a message stands for.
pub open spec fn outcome_model(r: Result<(), String>) -> Result<(), Seq<char>> {
    match r {
        Ok(_) => Ok(()),
        Err(e) => Err(e@),
    }
}

/// What an evaluation without the cache comes to.
pub fn eval_result(e: &Evaluated) -> (r: Result<(), String>)
    ensures
        outcome_model(r) == plain_result(*e),
{
    match e {
        Evaluated::Fine => Ok(()),
        Evaluated::Threw(t) => Err(format_js_exception(t)),
        Evaluated::Failed(m) => Err(concat("js eval: ", m.as_str())),
    }
}

/// What to say where loaded code failed, by what it threw.
pub open spec fn loaded_words(t: Thrown) -> Seq<char> {
    if t is Nothing {
        "bytecode eval threw (no exception captured)"@
    } else {
        thrown_words(t)
    }
}

/// What is done next with a script.
#[derive(Debug, Clone, Copy, PartialEq, Eq, Structural)]
pub enum CacheStep {
    /// Evaluate the source.
    Evaluate,
    /// Read the file of the script.
    Read,
    /// Load the code that was read, and run it.
    RunCached,
    /// Compile the source, without running it.
    Compile,
    /// Write the code to the file of the script; load it and run it.
    RunCompiled,
}

/// What came of a step.
#[derive(Debug)]
pub enum CacheAnswer {
    Evaluated(Evaluated),
    /// There is no such file.
    Missing,
    /// The code that was read has so many bytes.
    Found(u64),
    /// The code ran to its end.
    Ran,
    /// The code threw, or was interrupted; with the words of the loader.
    Broke { loader: String, thrown: Thrown },
    /// The code could not be loaded, so that nothing ran; with the words of
    /// the loader.
    NotLoaded(String),
    /// The code that came of compiling has so many bytes.
    Compiled(u64),
    /// Compiling failed; with the words of the compiler.
    NotCompiled(String),
}

/// Whether the answer is one to the step.
pub open spec fn answers(step: CacheStep, answer: CacheAnswer) -> bool {
    match step {
        CacheStep::Evaluate => answer is Evaluated,
        CacheStep::Read => answer is Missing || answer is Found,
        CacheStep::RunCached => answer is Ran || answer is Broke || answer is NotLoaded,
        CacheStep::Compile => answer is Compiled || answer is NotCompiled,
        CacheStep::RunCompiled => answer is Ran || answer is Broke || answer is NotLoaded,
    }
}

/// Whether the watchdog is off during a step.
pub open spec fn watchdog_off(step: CacheStep) -> bool {
    step is Compile
}

/// Whether a step runs code of the page.
pub open spec fn runs_page_code(step: CacheStep) -> bool {
    step is Evaluate || step is RunCached || step is RunCompiled
}

/// The entries with which every report on the cache begins.
pub open spec fn report_head(hit: bool, name: Seq<char>) -> Seq<(Seq<char>, JsonModel)> {
    seq![
        ("schema_version"@, JsonModel::Number(NumberModel::Unsigned(1))),
        ("hit"@, JsonModel::Bool(hit)),
        ("name"@, JsonModel::Text(name)),
    ]
}

/// What follows on the answer to a step: what is reported, and the next step
/// or the outcome of the whole. `bytes` is how many bytes the code has that
/// was read or compiled.
pub open spec fn follows(
    step: CacheStep,
    answer: CacheAnswer,
    name: Seq<char>,
    bytes: u64,
) -> (Option<JsonModel>, Result<CacheStep, Result<(), Seq<char>>>) {
    let size = JsonModel::Number(NumberModel::Unsigned(bytes));
    match (step, answer) {
        (_, CacheAnswer::Evaluated(e)) => (None, Err(plain_result(e))),
        (_, CacheAnswer::Missing) => (None, Ok(CacheStep::Compile)),
        (_, CacheAnswer::Found(_)) => (None, Ok(CacheStep::RunCached)),
        (_, CacheAnswer::Compiled(_)) => (None, Ok(CacheStep::RunCompiled)),
        (_, CacheAnswer::NotCompiled(e)) => (
            Some(
                JsonModel::Object(
                    report_head(false, name).push(("compile_error"@, JsonModel::Text(e@))),
                ),
            ),
            Ok(CacheStep::Evaluate),
        ),
        (CacheStep::RunCached, CacheAnswer::Ran) => (
            Some(JsonModel::Object(report_head(true, name).push(("bytes"@, size)))),
            Err(Ok(())),
        ),
        (CacheStep::RunCached, CacheAnswer::Broke { loader, thrown }) => (
            Some(
                JsonModel::Object(
                    report_head(true, name).push(("load_error"@, JsonModel::Text(loader@))),
                ),
            ),
            Err(Err(loaded_words(thrown))),
        ),
        (CacheStep::RunCached, CacheAnswer::NotLoaded(e)) => (
            Some(
                JsonModel::Object(
                    report_head(true, name).push(("load_error"@, JsonModel::Text(e@))),
                ),
            ),
            Ok(CacheStep::Evaluate),
        ),
        (_, CacheAnswer::NotLoaded(_)) => (
            Some(JsonModel::Object(report_head(false, name).push(("compiled_bytes"@, size)))),
            Ok(CacheStep::Evaluate),
        ),
        (_, CacheAnswer::Ran) => (
            Some(JsonModel::Object(report_head(false, name).push(("compiled_bytes"@, size)))),
            Err(Ok(())),
        ),
        (_, CacheAnswer::Broke { loader, thrown }) => (
            Some(JsonModel::Object(report_head(false, name).push(("compiled_bytes"@, size)))),
            Err(Err(loaded_words(thrown))),
        ),
    }
}

/// What is reported, and the next step or the outcome of the whole.
pub struct CacheMove {
    pub report: Option<Json>,
    pub next: Result<CacheStep, Result<(), String>>,
}

/// What a [`CacheMove`] stands for.
pub open spec fn move_model(m: CacheMove) -> (
    Option<JsonModel>,
    Result<CacheStep, Result<(), Seq<char>>>,
) {
    (
        match m.report {
            Some(j) => Some(j@),
            None => None,
        },
        match m.next {
            Ok(s) => Ok(s),
            Err(r) => Err(outcome_model(r)),
        },
    )
}

/// The first step of running a script: the cache is asked unless it is
/// switched off.
pub fn first_step(disabled: bool) -> (r: CacheStep)
    ensures
        r == (if disabled {
            CacheStep::Evaluate
        } else {
            CacheStep::Read
        }),
{
    if disabled {
        CacheStep::Evaluate
    } else {
        CacheStep::Read
    }
}

/// Whether the watchdog is off during a step.
pub fn suspends_watchdog(step: CacheStep) -> (r: bool)
    ensures
        r == watchdog_off(step),
{
    match step {
        CacheStep::Compile => true,
        _ => false,
    }
}

/// The entries with which every report on the cache begins.
fn start_report(hit: bool, name: &str) -> (r: Vec<(String, Json)>)
    ensures
        crate::json::entries_model(r@) == report_head(hit, name@),
{
    let mut e = no_entries();
    put(&mut e, "schema_version", json_number(1));
    put(&mut e, "hit", Json::Bool(hit));
    put(&mut e, "name", json_text_of(name));
    assert(crate::json::entries_model(e@) =~= report_head(hit, name@));
    e
}

/// A report on the cache with one more entry.
fn report(hit: bool, name: &str, key: &str, value: Json) -> (r: Option<Json>)
    ensures
        r matches Some(j) && j@ == JsonModel::Object(report_head(hit, name@).push((key@, value@))),
{
    let mut e = start_report(hit, name);
    put(&mut e, key, value);
    Some(object(e))
}

/// What follows on the answer to a step.
pub fn next_step(step: CacheStep, answer: CacheAnswer, name: &str, bytes: u64) -> (r: CacheMove)
    requires
        answers(step, answer),
    ensures
        move_model(r) == follows(step, answer, name@, bytes),
{
    match answer {
        CacheAnswer::Evaluated(e) => CacheMove { report: None, next: Err(eval_result(&e)) },
        CacheAnswer::Missing => CacheMove { report: None, next: Ok(CacheStep::Compile) },
        CacheAnswer::Found(_) => CacheMove { report: None, next: Ok(CacheStep::RunCached) },
        CacheAnswer::Compiled(_) => CacheMove { report: None, next: Ok(CacheStep::RunCompiled) },
        CacheAnswer::NotCompiled(e) => CacheMove {
            report: report(false, name, "compile_error", Json::Text(e)),
            next: Ok(CacheStep::Evaluate),
        },
        CacheAnswer::Ran => {
            let said = match step {
                CacheStep::RunCached => report(true, name, "bytes", json_number(bytes)),
                _ => report(false, name, "compiled_bytes", json_number(bytes)),
            };
            CacheMove { report: said, next: Err(Ok(())) }
        },
        CacheAnswer::NotLoaded(e) => {
            let said = match step {
                CacheStep::RunCached => report(true, name, "load_error", Json::Text(e)),
                _ => report(false, name, "compiled_bytes", json_number(bytes)),
            };
            CacheMove { report: said, next: Ok(CacheStep::Evaluate) }
        },
        CacheAnswer::Broke { loader, thrown } => {
            let said = match step {
                CacheStep::RunCached => report(true, name, "load_error", Json::Text(loader)),
                _ => report(false, name, "compiled_bytes", json_number(bytes)),
            };
            let words = match thrown {
                Thrown::Nothing => "bytecode eval threw (no exception captured)".to_owned(),
                _ => format_js_exception(&thrown),
            };
            CacheMove { report: said, next: Err(Err(words)) }
        },
    }
}

/// The watchdog is never off while code of the page runs.
pub proof fn law_page_code_is_watched(step: CacheStep)
    ensures
        runs_page_code(step) ==> !watchdog_off(step),
{
}

/// Whether code of the page ran in a step that was answered so.
pub open spec fn page_code_ran(answer: CacheAnswer) -> bool {
    answer is Evaluated || answer is Ran || answer is Broke
}

/// The code of a script runs exactly once: the whole ends with the step in
/// which it ran, and with no other.
pub proof fn law_runs_once(step: CacheStep, answer: CacheAnswer, name: Seq<char>, bytes: u64)
    requires
        answers(step, answer),
    ensures
        page_code_ran(answer) <==> follows(step, answer, name, bytes).1 is Err,
        page_code_ran(answer) ==> runs_page_code(step),
{
}

/// How many steps may still come after a step.
pub open spec fn steps_left(step: CacheStep) -> nat {
    match step {
        CacheStep::Evaluate => 0,
        CacheStep::RunCached => 1,
        CacheStep::RunCompiled => 1,
        CacheStep::Compile => 2,
        CacheStep::Read => 3,
    }
}

/// Running a script comes to an end.
pub proof fn law_steps_end(step: CacheStep, answer: CacheAnswer, name: Seq<char>, bytes: u64)
    requires
        answers(step, answer),
    ensures
        follows(step, answer, name, bytes).1 matches Ok(next) ==> steps_left(next) < steps_left(
            step,
        ),
{
}

/// No failure of the cache keeps a script from running: where a file is
/// missing it is compiled, and where it cannot be compiled or loaded its
/// source is evaluated.
pub proof fn law_cache_failure_falls_back(
    step: CacheStep,
    answer: CacheAnswer,
    name: Seq<char>,
    bytes: u64,
)
    requires
        answers(step, answer),
    ensures
        answer is Missing ==> follows(step, answer, name, bytes).1 == Ok::<
            CacheStep,
            Result<(), Seq<char>>,
        >(CacheStep::Compile),
        answer is NotCompiled || answer is NotLoaded ==> follows(step, answer, name, bytes).1
            == Ok::<CacheStep, Result<(), Seq<char>>>(CacheStep::Evaluate),
{
}

// ---------------------------------------------------------------------
// What holds of where the cache lies and of what it says
// ---------------------------------------------------------------------

/// The cache lies where it is asked for; or else below the home directory, or
/// else with the temporary files.
pub proof fn law_where_the_cache_lies(asked: Option<&str>, home: Option<&str>, r: String)
    requires
        call_ensures(cache_dir, (asked, home), r),
    ensures
        asked matches Some(p) ==> r@ == p@,
        asked is None && home is None ==> r@ == "/tmp/unbrowser-bytecode"@,
        asked is None && home is Some && home->0@.len() > 0 && home->0@.last() != '/' ==> r@
            == home->0@ + "/.unbrowser/bytecode"@,
        asked is None && home is Some && (home->0@.len() == 0 || home->0@.last() == '/') ==> r@
            == home->0@ + ".unbrowser/bytecode"@,
{
    reveal_strlit("/");
    reveal_strlit("/tmp");
    reveal_strlit("unbrowser-bytecode");
    reveal_strlit("/tmp/unbrowser-bytecode");
    reveal_strlit(".unbrowser");
    reveal_strlit("bytecode");
    reveal_strlit("/.unbrowser/bytecode");
    reveal_strlit(".unbrowser/bytecode");
    assert(".unbrowser"@.len() == 10 && ".unbrowser"@[0] == '.' && ".unbrowser"@[9] == 'r');
    assert("bytecode"@.len() == 8 && "bytecode"@[0] == 'b');
    assert("unbrowser-bytecode"@.len() == 18 && "unbrowser-bytecode"@[0] == 'u');
    assert("/tmp"@.len() == 4 && "/tmp"@[3] == 'p');
    law_how_paths_are_joined("/tmp"@, "unbrowser-bytecode"@);
    assert("/tmp"@ + seq!['/'] + "unbrowser-bytecode"@ =~= "/tmp/unbrowser-bytecode"@);
    if asked is None {
        if let Some(h) = home {
            law_how_paths_are_joined(h@, ".unbrowser"@);
            let below = joined_path(h@, ".unbrowser"@);
            assert(below.last() == 'r');
            law_how_paths_are_joined(below, "bytecode"@);
            assert(h@ + seq!['/'] + ".unbrowser"@ + seq!['/'] + "bytecode"@ =~= h@
                + "/.unbrowser/bytecode"@);
            assert(h@ + ".unbrowser"@ + seq!['/'] + "bytecode"@ =~= h@ + ".unbrowser/bytecode"@);
        }
    }
}

/// A part comes behind the path with one slash between, unless it starts at the
/// root.
pub proof fn law_how_paths_are_joined(base: Seq<char>, part: Seq<char>)
    ensures
        part.len() > 0 && part[0] == '/' ==> joined_path(base, part) == part,
        !(part.len() > 0 && part[0] == '/') && (base.len() == 0 || base.last() == '/')
            ==> joined_path(base, part) == base + part,
        !(part.len() > 0 && part[0] == '/') && base.len() > 0 && base.last() != '/'
            ==> joined_path(base, part) == base + seq!['/'] + part,
{
    reveal_strlit("/");
    assert("/"@ =~= seq!['/']);
    if part.len() > 0 {
        assert(part.subrange(0, 1) =~= seq![part[0]]);
        assert(part.subrange(0, 1)[0] == part[0]);
    }
    if base.len() > 0 {
        let n = base.len() as int;
        assert(base.subrange(n - 1, n) =~= seq![base[n - 1]]);
        assert(base.subrange(n - 1, n)[0] == base[n - 1]);
    }
}

/// The cache is switched off by a one or by the word for it, and by nothing
/// else; it holds five hundred megabytes unless another number is asked for.
pub proof fn law_how_the_cache_is_set(
    off: Option<&str>,
    disabled: bool,
    megabytes: Option<&str>,
    cap: u64,
    step: CacheStep,
)
    requires
        call_ensures(is_disabled, (off,), disabled),
        call_ensures(max_total_bytes, (megabytes,), cap),
        call_ensures(first_step, (disabled,), step),
    ensures
        disabled <==> off is Some && (off->0@ == "1"@ || off->0@ == "true"@),
        megabytes is None ==> cap == 524_288_000,
        megabytes is Some && read_u64(megabytes->0@) is None ==> cap == 524_288_000,
        megabytes is Some && read_u64(megabytes->0@) is Some ==> cap == read_u64(megabytes->0@)->0
            * 1_048_576,
        disabled ==> step is Evaluate,
        !disabled ==> step is Read,
{
}

/// A byte is written as the digits of its two halves.
pub proof fn law_bytes_in_hexadecimal(bytes: Seq<u8>, i: int)
    requires
        0 <= i < bytes.len(),
    ensures
        hex_text(bytes).len() == 2 * bytes.len(),
        hex_text(bytes)[2 * i] == "0123456789abcdef"@[bytes[i] as int / 16],
        hex_text(bytes)[2 * i + 1] == "0123456789abcdef"@[bytes[i] as int % 16],
{
    assert((2 * i) / 2 == i && (2 * i) % 2 == 0);
    assert((2 * i + 1) / 2 == i && (2 * i + 1) % 2 == 1);
    lemma_hex_digits(bytes[i] as int / 16);
    lemma_hex_digits(bytes[i] as int % 16);
}

proof fn lemma_hex_digits(n: int)
    requires
        0 <= n < 16,
    ensures
        hex_digit(n) == "0123456789abcdef"@[n],
{
    reveal_strlit("0123456789abcdef");
    let d = "0123456789abcdef"@;
    assert(d[0] == '0' && d[1] == '1' && d[2] == '2' && d[3] == '3');
    assert(d[4] == '4' && d[5] == '5' && d[6] == '6' && d[7] == '7');
    assert(d[8] == '8' && d[9] == '9' && d[10] == 'a' && d[11] == 'b');
    assert(d[12] == 'c' && d[13] == 'd' && d[14] == 'e' && d[15] == 'f');
}

/// The key of a script is the hash of the mark of the format, the platform, the
/// engine, the environment and the source; that of the environment is the hash
/// of its four scripts.
pub proof fn law_what_is_hashed(
    source: &str,
    shim: &str,
    arch: &str,
    os: &str,
    engine: &str,
    key: String,
    dom: &str,
    shims: &str,
    blockmap: &str,
    interact: &str,
    environment: String,
)
    requires
        call_ensures(cache_key, (source, shim, arch, os, engine), key),
        call_ensures(shim_hash, (dom, shims, blockmap, interact), environment),
    ensures
        key@ == hex_text(
            sha256_of(
                encode_utf8(
                    "unbrowser-bytecode"@ + seq!['\0', '\u{1}', '\0', '\0', '\0'] + arch@ + seq![
                        '-',
                    ] + os@ + seq!['\0'] + engine@ + seq!['\0'] + shim@ + seq!['\0'] + source@,
                ),
            ),
        ),
        environment@ == hex_text(
            sha256_of(
                encode_utf8(
                    dom@ + seq!['\0'] + shims@ + seq!['\0'] + blockmap@ + seq!['\0'] + interact@,
                ),
            ),
        ),
{
    reveal_strlit("\0");
    reveal_strlit("-");
    reveal_strlit("unbrowser-bytecode");
    reveal_strlit("unbrowser-bytecode\0");
    reveal_strlit("\u{1}\0\0\0");
    assert("\0"@ =~= seq!['\0']);
    assert("-"@ =~= seq!['-']);
    assert(FORMAT_MARK@ =~= seq!['\u{1}', '\0', '\0', '\0']);
    assert("unbrowser-bytecode\0"@ =~= "unbrowser-bytecode"@ + seq!['\0']);
    assert(key_material(source@, shim@, arch@, os@, engine@) =~= "unbrowser-bytecode"@ + seq![
        '\0',
        '\u{1}',
        '\0',
        '\0',
        '\0',
    ] + arch@ + seq!['-'] + os@ + seq!['\0'] + engine@ + seq!['\0'] + shim@ + seq!['\0'] + source@);
}

/// The directory of a key is named by as many of its first characters as take
/// two bytes, or by the whole of a shorter key.
pub proof fn law_directory_of_a_key(root: &str, key: &str, r: String)
    requires
        call_ensures(key_to_path, (root, key), r),
        key_prefix(key@) is Some,
    ensures
        ({
            let p = key_prefix(key@)->0;
            let dir = joined_path(root@, p);
            &&& p.is_prefix_of(key@)
            &&& encode_utf8(p).len() == 2 || (p == key@ && encode_utf8(p).len() < 2)
            &&& r@ == joined_path(dir, key@ + ".qbc"@)
        }),
{
    let k = key@;
    let p = key_prefix(k)->0;
    crate::text::lemma_byte_len(p);
    assert(k.subrange(0, k.len() as int) =~= k);
    assert(p == k.take(p.len() as int)) by {
        assert(k.take(k.len() as int) =~= k);
    }
    reveal_with_fuel(crate::text::byte_len, 3);
    if k.len() > 0 {
        assert(k.take(1).drop_last() =~= Seq::<char>::empty());
        assert(k.take(1).last() == k[0]);
    }
    if k.len() > 1 {
        assert(k.take(2).drop_last() =~= k.take(1));
        assert(k.take(2).last() == k[1]);
    }
}

/// Files are as long together as each of them is.
pub proof fn law_lengths_add_up(a: Seq<CacheFile>, b: Seq<CacheFile>, f: CacheFile)
    ensures
        total_len(Seq::empty()) == 0,
        total_len(seq![f]) == f.len,
        total_len(a + b) == total_len(a) + total_len(b),
    decreases b.len(),
{
    assert(seq![f].drop_last() =~= Seq::empty());
    assert(seq![f].last() == f);
    assert(total_len(seq![f].drop_last()) == 0);
    if b.len() == 0 {
        assert(a + b =~= a);
    } else {
        assert((a + b).drop_last() =~= a + b.drop_last());
        assert((a + b).last() == b.last());
        law_lengths_add_up(a, b.drop_last(), f);
    }
}

/// A file that could be removed no longer counts, and one that could not still
/// does.
pub proof fn law_what_is_left(files: Seq<CacheFile>, order: Seq<usize>, removed: Seq<bool>)
    ensures
        total_after(files, order, Seq::empty()) == total_len(files),
        total_after(files, order, removed.push(false)) == total_after(files, order, removed),
        total_after(files, order, removed.push(true)) == total_after(files, order, removed)
            - files[order[removed.len() as int] as int].len,
{
    assert(removed.push(false).drop_last() =~= removed);
    assert(removed.push(true).drop_last() =~= removed);
}

/// The file that goes next is the oldest of those that were not tried yet, and
/// of those of one age the one that was found first; none goes once the rest is
/// within the cap, or all were tried.
pub proof fn law_which_file_goes(p: &Pruner, r: Option<usize>, kept: usize)
    requires
        p.wf(),
        call_ensures(Pruner::victim, (p,), r),
    ensures
        r is None <==> total_after(p.files(), p.order(), p.removed()) <= p.cap()
            || p.removed().len() >= p.files().len(),
        r matches Some(v) ==> {
            &&& v < p.files().len()
            &&& forall|i: int| 0 <= i < p.removed().len() ==> #[trigger] p.order()[i] != v
            &&& (kept < p.files().len() && kept != v && forall|i: int|
                0 <= i < p.removed().len() ==> #[trigger] p.order()[i] != kept) ==> {
                ||| p.files()[v as int].mtime < p.files()[kept as int].mtime
                ||| p.files()[v as int].mtime == p.files()[kept as int].mtime && v < kept
            }
        },
{
    if let Some(v) = r {
        let (files, order, n) = (p.files(), p.order(), p.removed().len() as int);
        assert(order[n] == v);
        assert forall|i: int| 0 <= i < n implies #[trigger] order[i] != v by {
            assert(goes_before(files, order[i], order[n]));
        }
        if kept < files.len() && kept != v && forall|i: int|
            0 <= i < n ==> #[trigger] order[i] != kept {
            assert(order.contains(kept));
            let j = choose|j: int| 0 <= j < order.len() && order[j] == kept;
            assert(j > n);
            assert(goes_before(files, order[n], order[j]));
        }
    }
}

/// What a script threw is told by its name and its message, as far as it has
/// them.
pub proof fn law_words_for_what_was_thrown(t: &Thrown, r: String)
    requires
        call_ensures(format_js_exception, (t,), r),
    ensures
        *t matches Thrown::Text(s) ==> r@ == s@,
        *t is Nothing || *t is Other ==> r@ == "<unknown JS exception>"@,
        *t matches Thrown::Object { name, message } ==> {
            let silent = message is None || message->0@ == Seq::<char>::empty();
            &&& name is Some && silent ==> r@ == name->0@
            &&& name is None && silent ==> r@ == "Error"@
            &&& name is Some && !silent ==> r@ == name->0@ + ": "@ + message->0@
            &&& name is None && !silent ==> r@ == "Error"@ + ": "@ + message->0@
        },
{
    if let Thrown::Object { name, message } = *t {
        if let Some(m) = message {
            if m@.len() == 0 {
                assert(m@ =~= Seq::<char>::empty());
            }
        }
    }
}

/// An evaluation fails exactly if the script threw or the engine failed, and
/// then with what was thrown or said.
pub proof fn law_how_evaluations_end(e: &Evaluated, r: Result<(), String>)
    requires
        call_ensures(eval_result, (e,), r),
    ensures
        r is Ok <==> *e is Fine,
        *e matches Evaluated::Threw(t) ==> r->Err_0@ == thrown_words(t),
        *e matches Evaluated::Failed(m) ==> r->Err_0@ == "js eval: "@ + m@,
{
}

/// What follows on each answer: a script that is missing is compiled, what was
/// read or compiled is run, and what cannot be compiled or loaded is evaluated;
/// code that ran is the end, well or not.
pub proof fn law_what_follows_on_an_answer(
    step: CacheStep,
    answer: CacheAnswer,
    name: &str,
    bytes: u64,
    r: CacheMove,
    off: bool,
)
    requires
        answers(step, answer),
        call_ensures(next_step, (step, answer, name, bytes), r),
        call_ensures(suspends_watchdog, (step,), off),
    ensures
        off <==> step is Compile,
        answer is Missing ==> r.next is Ok && r.next->Ok_0 is Compile,
        answer is Found ==> r.next is Ok && r.next->Ok_0 is RunCached,
        answer is Compiled ==> r.next is Ok && r.next->Ok_0 is RunCompiled,
        answer is NotCompiled || answer is NotLoaded ==> r.next is Ok && r.next->Ok_0 is Evaluate,
        answer is Ran ==> r.next is Err && r.next->Err_0 is Ok,
        answer matches CacheAnswer::Broke { loader, thrown } ==> {
            &&& r.next is Err && r.next->Err_0 is Err
            &&& thrown is Nothing ==> r.next->Err_0->Err_0@
                == "bytecode eval threw (no exception captured)"@
            &&& !(thrown is Nothing) ==> r.next->Err_0->Err_0@ == thrown_words(thrown)
        },
        answer matches CacheAnswer::Evaluated(e) ==> {
            &&& r.next is Err
            &&& r.next->Err_0 is Ok <==> e is Fine
            &&& e matches Evaluated::Threw(t) ==> r.next->Err_0->Err_0@ == thrown_words(t)
            &&& e matches Evaluated::Failed(m) ==> r.next->Err_0->Err_0@ == "js eval: "@ + m@
        },
{
}

/// What is told of the cache: nothing of a look, a compilation that went well or
/// an evaluation; and else whether the script was found, its name, and how many
/// bytes it has or what went wrong.
pub proof fn law_what_is_told_of_the_cache(
    step: CacheStep,
    answer: CacheAnswer,
    name: &str,
    bytes: u64,
    r: CacheMove,
)
    requires
        answers(step, answer),
        call_ensures(next_step, (step, answer, name, bytes), r),
    ensures
        r.report is None <==> answer is Evaluated || answer is Missing || answer is Found
            || answer is Compiled,
        r.report matches Some(j) ==> {
            let hit = step is RunCached;
            &&& j@.u64_at("schema_version"@) == Some(1u64)
            &&& j@.bool_at("hit"@) == Some(hit)
            &&& j@.text_at("name"@) == Some(name@)
            &&& answer matches CacheAnswer::NotCompiled(e) ==> j@.text_at("compile_error"@) == Some(
                e@,
            )
            &&& answer is Ran && hit ==> j@.u64_at("bytes"@) == Some(bytes)
            &&& !(answer is NotCompiled) && !hit ==> j@.u64_at("compiled_bytes"@) == Some(bytes)
            &&& answer is NotLoaded && hit ==> j@.text_at("load_error"@) == Some(
                answer->NotLoaded_0@,
            )
            &&& answer is Broke && hit ==> j@.text_at("load_error"@) == Some(answer->loader@)
        },
{
    if let Some(j) = r.report {
        reveal_strlit("schema_version");
        reveal_strlit("hit");
        reveal_strlit("name");
        reveal_strlit("compile_error");
        reveal_strlit("bytes");
        reveal_strlit("compiled_bytes");
        reveal_strlit("load_error");
        assert("schema_version"@.len() == 14);
        assert("hit"@.len() == 3);
        assert("name"@.len() == 4);
        assert("compile_error"@.len() == 13);
        assert("bytes"@.len() == 5);
        assert("compiled_bytes"@.len() == 14);
        assert("load_error"@.len() == 10);
        assert("schema_version"@[0] != "compiled_bytes"@[0]);
        let e = j@->Object_0;
        lemma_entry_at(e, "schema_version"@, 0);
        lemma_entry_at(e, "hit"@, 1);
        lemma_entry_at(e, "name"@, 2);
        lemma_entry_at(e, e[3].0, 3);
    }
}

/// A run starts with every file and with none tried, in the order in which they
/// go; what came of a file is noted behind the others.
pub proof fn law_how_a_run_goes()
    ensures
        forall|files: Vec<CacheFile>, cap: u64, p: Pruner| #[trigger]
            call_ensures(Pruner::start, (files, cap), p) ==> p.files() == files@ && p.cap() == cap
                && p.removed().len() == 0 && is_eviction_order(
                files@,
                p.order(),
                files@.len() as int,
            ),
        forall|p: &mut Pruner, removed: bool, r: ()| #[trigger]
            call_ensures(Pruner::report, (p, removed), r) ==> (*final(p)).removed()
                == (*p).removed().push(removed) && (*final(p)).files() == (*p).files()
                && (*final(p)).order() == (*p).order() && (*final(p)).cap() == (*p).cap(),
{
}

/// Paths, bytes and hashes are made as the laws on them say.
pub proof fn law_what_is_made_of_texts(
    base: &str,
    part: &str,
    path: String,
    bytes: &[u8],
    hex: String,
    text: &str,
    hash: String,
)
    requires
        call_ensures(join_path, (base, part), path),
        call_ensures(hex_encode, (bytes,), hex),
        call_ensures(sha256, (text,), hash),
    ensures
        path@ == joined_path(base@, part@),
        hex@ == hex_text(bytes@),
        hash@ == hex_text(sha256_of(encode_utf8(text@))),
{
}

} // verus!
