//! Content addressing: a short digest of a file's bytes, written in hex and
//! spliced into the file name before its extension.
use vstd::prelude::*;

use crate::text::{chars_of, push_char, push_chars};

verus! {

/// The first four bytes of the BLAKE3 extendable output of `content`.
pub uninterp spec fn blake3_prefix4(content: Seq<u8>) -> Seq<u8>;

/// Relies on `blake3::Hasher` (`update`, `finalize_xof`, `OutputReader::fill`):
/// the first four bytes of the extendable output of `content`.
#[verifier::external_body]
fn blake3_short(content: &[u8]) -> (r: Vec<u8>)
    ensures
        r@ == blake3_prefix4(content@),
        r@.len() == 4,
{
    let mut digest = [0u8; 4];
    blake3::Hasher::new().update(content).finalize_xof().fill(&mut digest);
    digest.to_vec()
}

/// The lowercase hex digit of a value below 16.
pub open spec fn hex_digit(n: int) -> char {
    seq!['0', '1', '2', '3', '4', '5', '6', '7', '8', '9', 'a', 'b', 'c', 'd', 'e', 'f'][n]
}

/// Lowercase hex of `bytes`: for each byte its high digit, then its low digit.
pub open spec fn hex_of(bytes: Seq<u8>) -> Seq<char>
    decreases bytes.len(),
{
    if bytes.len() == 0 {
        Seq::empty()
    } else {
        seq![hex_digit(bytes[0] as int / 16), hex_digit(bytes[0] as int % 16)] + hex_of(bytes.drop_first())
    }
}

/// Relies on `hex::encode`: lowercase hex, two digits per byte, high digit first.
#[verifier::external_body]
fn hex_encode(bytes: &[u8]) -> (r: String)
    ensures
        r@ == hex_of(bytes@),
{
    hex::encode(bytes)
}

/// The digest text of `content`: the hex of the first four bytes of its BLAKE3 output.
pub open spec fn digest_text(content: Seq<u8>) -> Seq<char> {
    hex_of(blake3_prefix4(content))
}

pub open spec fn is_hex_char(c: char) -> bool {
    ('0' <= c && c <= '9') || ('a' <= c && c <= 'f')
}

/// Text that can be spliced into a file name as a digest: non-empty hex.
pub open spec fn is_digest_text(d: Seq<char>) -> bool {
    &&& d.len() > 0
    &&& forall|i: int| 0 <= i < d.len() ==> is_hex_char(#[trigger] d[i])
}

proof fn lemma_hex_of(bytes: Seq<u8>)
    ensures
        hex_of(bytes).len() == 2 * bytes.len(),
        forall|i: int| 0 <= i < hex_of(bytes).len() ==> is_hex_char(#[trigger] hex_of(bytes)[i]),
    decreases bytes.len(),
{
    if bytes.len() > 0 {
        lemma_hex_of(bytes.drop_first());
        let h = seq![hex_digit(bytes[0] as int / 16), hex_digit(bytes[0] as int % 16)];
        assert forall|i: int| 0 <= i < h.len() implies is_hex_char(#[trigger] h[i]) by {
            let n = if i == 0 { bytes[0] as int / 16 } else { bytes[0] as int % 16 };
            assert(0 <= n < 16);
        }
        assert forall|i: int| 0 <= i < hex_of(bytes).len() implies is_hex_char(
            #[trigger] hex_of(bytes)[i],
        ) by {
            if i >= 2 {
                assert(hex_of(bytes)[i] == hex_of(bytes.drop_first())[i - 2]);
            } else {
                assert(hex_of(bytes)[i] == h[i]);
            }
        }
    }
}


/// The short content digest of `content`, as eight lowercase hex digits.
pub fn digest_hex(content: &[u8]) -> (r: String)
    ensures
        r@ == digest_text(content@),
        r@.len() == 8,
        is_digest_text(r@),
{
    let bytes = blake3_short(content);
    proof {
        lemma_hex_of(bytes@);
    }
    hex_encode(bytes.as_slice())
}

/// Index of the last `c` in `s`, or -1 when there is none.
pub open spec fn last_index_of(s: Seq<char>, c: char) -> int
    decreases s.len(),
{
    if s.len() == 0 {
        -1
    } else if s.last() == c {
        s.len() - 1
    } else {
        last_index_of(s.drop_last(), c)
    }
}

/// The extension of a file name: what follows its last dot, unless that dot
/// is the first character (`.profile` has no extension).
pub open spec fn file_extension(name: Seq<char>) -> Option<Seq<char>> {
    let i = last_index_of(name, '.');
    if i > 0 {
        Some(name.skip(i + 1))
    } else {
        None
    }
}

/// The file name without its extension and the dot before it.
pub open spec fn file_stem(name: Seq<char>) -> Seq<char> {
    let i = last_index_of(name, '.');
    if i > 0 {
        name.take(i)
    } else {
        name
    }
}

/// `name.ext` becomes `name-<digest>.ext`; a name without extension becomes
/// `name-<digest>`.
pub open spec fn hashed_file_name(name: Seq<char>, digest: Seq<char>) -> Seq<char> {
    match file_extension(name) {
        Some(ext) => file_stem(name) + seq!['-'] + digest + seq!['.'] + ext,
        None => file_stem(name) + seq!['-'] + digest,
    }
}

pub open spec fn is_separator(c: char) -> bool {
    c == '/' || c == '\\'
}

/// A single path component that names a file.
pub open spec fn valid_file_name(name: Seq<char>) -> bool {
    &&& name.len() > 0
    &&& name != seq!['.']
    &&& name != seq!['.', '.']
    &&& forall|i: int| 0 <= i < name.len() ==> !is_separator(#[trigger] name[i])
}

/// Position of the last `c` in `cs`, if there is one.
pub(crate) fn last_position(cs: &Vec<char>, c: char) -> (r: Option<usize>)
    ensures
        match r {
            Some(i) => i == last_index_of(cs@, c) && i < cs@.len(),
            None => last_index_of(cs@, c) < 0,
        },
{
    let mut i = cs.len();
    assert(cs@.take(i as int) == cs@);
    while i > 0
        invariant
            i <= cs@.len(),
            last_index_of(cs@, c) == last_index_of(cs@.take(i as int), c),
        decreases i,
    {
        assert(cs@.take(i as int).drop_last() == cs@.take(i - 1));
        if cs[i - 1] == c {
            proof {
                lemma_last_index_bounds(cs@.take(i as int), c);
            }
            return Some(i - 1);
        }
        i = i - 1;
    }
    None
}

/// Position of the dot that starts the extension of `cs`, if it has one.
fn extension_dot(cs: &Vec<char>) -> (r: Option<usize>)
    ensures
        match r {
            Some(i) => i == last_index_of(cs@, '.') && i > 0 && i < cs@.len(),
            None => last_index_of(cs@, '.') <= 0,
        },
{
    proof {
        lemma_last_index_bounds(cs@, '.');
    }
    match last_position(cs, '.') {
        Some(i) => if i > 0 {
            Some(i)
        } else {
            None
        },
        None => None,
    }
}

/// Splices `digest` into `filename` before its extension.
pub fn apply_digest(filename: &str, digest: &str) -> (r: String)
    requires
        valid_file_name(filename@),
    ensures
        r@ == hashed_file_name(filename@, digest@),
{
    let cs = chars_of(filename);
    let ds = chars_of(digest);
    let n = cs.len();
    let mut r = String::new();
    proof {
        lemma_last_index_bounds(cs@, '.');
    }
    match extension_dot(&cs) {
        Some(i) => {
            push_chars(&mut r, cs.as_slice(), 0, i);
            push_char(&mut r, '-');
            push_chars(&mut r, ds.as_slice(), 0, ds.len());
            push_char(&mut r, '.');
            push_chars(&mut r, cs.as_slice(), i + 1, n);
            assert(cs@.subrange(0, i as int) == cs@.take(i as int));
            assert(cs@.subrange(i + 1, n as int) == cs@.skip(i + 1));
        },
        None => {
            push_chars(&mut r, cs.as_slice(), 0, n);
            push_char(&mut r, '-');
            push_chars(&mut r, ds.as_slice(), 0, ds.len());
            assert(cs@.subrange(0, n as int) == cs@);
        },
    }
    assert(ds@.subrange(0, ds@.len() as int) == ds@);
    r
}

/// `filename` with the digest of `content` spliced in before its extension.
pub fn filename_with_hash(filename: &str, content: &[u8]) -> (r: String)
    requires
        valid_file_name(filename@),
    ensures
        r@ == hashed_file_name(filename@, digest_text(content@)),
        digest_text(content@).len() == 8,
        is_digest_text(digest_text(content@)),
{
    let digest = digest_hex(content);
    apply_digest(filename, digest.as_str())
}

pub(crate) proof fn lemma_last_index_bounds(s: Seq<char>, c: char)
    ensures
        -1 <= last_index_of(s, c) < s.len(),
        last_index_of(s, c) >= 0 ==> s[last_index_of(s, c)] == c,
        forall|j: int| last_index_of(s, c) < j < s.len() ==> s[j] != c,
    decreases s.len(),
{
    if s.len() > 0 && s.last() != c {
        lemma_last_index_bounds(s.drop_last(), c);
        assert forall|j: int| last_index_of(s, c) < j < s.len() implies s[j] != c by {
            if j < s.len() - 1 {
                assert(s[j] == s.drop_last()[j]);
            }
        }
    }
}

pub(crate) proof fn lemma_last_index_skips(a: Seq<char>, b: Seq<char>, c: char)
    requires
        forall|j: int| 0 <= j < b.len() ==> b[j] != c,
    ensures
        last_index_of(a + b, c) == last_index_of(a, c),
    decreases b.len(),
{
    if b.len() == 0 {
        assert(a + b == a);
    } else {
        assert((a + b).drop_last() == a + b.drop_last());
        lemma_last_index_skips(a, b.drop_last(), c);
    }
}

proof fn lemma_name_parts(name: Seq<char>)
    requires
        valid_file_name(name),
    ensures
        file_stem(name).len() > 0,
        forall|j: int| 0 <= j < file_stem(name).len() ==> !is_separator(#[trigger] file_stem(name)[j]),
        match file_extension(name) {
            Some(ext) => {
                &&& name == file_stem(name) + seq!['.'] + ext
                &&& forall|j: int| 0 <= j < ext.len() ==> #[trigger] ext[j] != '.' && !is_separator(ext[j])
            },
            None => name == file_stem(name),
        },
{
    lemma_last_index_bounds(name, '.');
    let i = last_index_of(name, '.');
    if i > 0 {
        assert(name == name.take(i) + seq!['.'] + name.skip(i + 1));
    }
}

proof fn lemma_hashed_parts(name: Seq<char>, digest: Seq<char>)
    requires
        valid_file_name(name),
        is_digest_text(digest),
    ensures
        file_extension(hashed_file_name(name, digest)) == file_extension(name),
        file_stem(hashed_file_name(name, digest)) == file_stem(name) + seq!['-'] + digest,
{
    lemma_name_parts(name);
    let stem = file_stem(name);
    let h = hashed_file_name(name, digest);
    let tail = seq!['-'] + digest;
    assert forall|j: int| 0 <= j < tail.len() implies tail[j] != '.' by {
        if j > 0 {
            assert(tail[j] == digest[j - 1]);
            assert(is_hex_char(digest[j - 1]));
        }
    }
    match file_extension(name) {
        Some(ext) => {
            let a = stem + tail;
            assert(h == a.push('.') + ext);
            lemma_last_index_skips(a.push('.'), ext, '.');
            assert(a.push('.').drop_last() == a);
            assert(h.skip(a.len() as int + 1) == ext);
            assert(h.take(a.len() as int) == a);
        },
        None => {
            assert(h == stem + tail);
            lemma_last_index_skips(stem, tail, '.');
        },
    }
}

/// Splicing a digest into a file name gives a file name again, with the same
/// extension and the digest appended to the stem, so a second splice is well
/// defined: `a.css` with `d1` then `d2` becomes `a-d1-d2.css`.
pub proof fn lemma_hashed_name_respliceable(name: Seq<char>, d1: Seq<char>, d2: Seq<char>)
    requires
        valid_file_name(name),
        is_digest_text(d1),
        is_digest_text(d2),
    ensures
        valid_file_name(hashed_file_name(name, d1)),
        file_extension(hashed_file_name(name, d1)) == file_extension(name),
        file_stem(hashed_file_name(name, d1)) == file_stem(name) + seq!['-'] + d1,
        file_stem(hashed_file_name(hashed_file_name(name, d1), d2)) == file_stem(name) + seq![
            '-',
        ] + d1 + seq!['-'] + d2,
        file_extension(hashed_file_name(hashed_file_name(name, d1), d2)) == file_extension(name),
{
    lemma_name_parts(name);
    lemma_hashed_parts(name, d1);
    let stem = file_stem(name);
    let h = hashed_file_name(name, d1);
    assert(h[stem.len() as int] == '-');
    assert(h.len() > stem.len());
    assert forall|j: int| 0 <= j < h.len() implies !is_separator(#[trigger] h[j]) by {
        if j < stem.len() {
            assert(h[j] == stem[j]);
        } else if j == stem.len() {
        } else if j < stem.len() + 1 + d1.len() {
            assert(h[j] == d1[j - stem.len() - 1]);
            assert(is_hex_char(d1[j - stem.len() - 1]));
        } else if j == stem.len() + 1 + d1.len() {
        } else {
            let ext = file_extension(name)->0;
            assert(h[j] == ext[j - stem.len() - 2 - d1.len()]);
        }
    }
    assert(h != seq!['.']);
    assert(h != seq!['.', '.']);
    lemma_hashed_parts(h, d2);
}

/// A spliced file name is never ambiguous: with digests of one length, the
/// spliced name determines both the original name and the digest.
pub proof fn lemma_hashed_name_unambiguous(
    n1: Seq<char>,
    d1: Seq<char>,
    n2: Seq<char>,
    d2: Seq<char>,
)
    requires
        valid_file_name(n1),
        valid_file_name(n2),
        is_digest_text(d1),
        is_digest_text(d2),
        d1.len() == d2.len(),
        hashed_file_name(n1, d1) == hashed_file_name(n2, d2),
    ensures
        n1 == n2,
        d1 == d2,
{
    lemma_name_parts(n1);
    lemma_name_parts(n2);
    lemma_hashed_parts(n1, d1);
    lemma_hashed_parts(n2, d2);
    let s1 = file_stem(n1) + seq!['-'] + d1;
    let s2 = file_stem(n2) + seq!['-'] + d2;
    assert(s1 == s2);
    assert(file_stem(n1).len() == file_stem(n2).len());
    assert(file_stem(n1) == s1.take(file_stem(n1).len() as int));
    assert(file_stem(n2) == s2.take(file_stem(n2).len() as int));
    assert(d1 == s1.skip(file_stem(n1).len() as int + 1));
    assert(d2 == s2.skip(file_stem(n2).len() as int + 1));
}

/// The digest is a function of the content alone: equal contents give equal
/// digests, and so equal hashed file names.
pub proof fn lemma_digest_deterministic(c1: Seq<u8>, c2: Seq<u8>, name: Seq<char>)
    requires
        c1 == c2,
    ensures
        digest_text(c1) == digest_text(c2),
        hashed_file_name(name, digest_text(c1)) == hashed_file_name(name, digest_text(c2)),
{
}

/// Whether `cs` is a single path component that names a file.
pub fn valid_name(cs: &Vec<char>) -> (r: bool)
    ensures
        r == valid_file_name(cs@),
{
    let n = cs.len();
    if n == 0 {
        return false;
    }
    if n == 1 && cs[0] == '.' {
        assert(cs@ =~= seq!['.']);
        return false;
    }
    if n == 2 && cs[0] == '.' && cs[1] == '.' {
        assert(cs@ =~= seq!['.', '.']);
        return false;
    }
    assert(cs@ != seq!['.']) by {
        if cs@ == seq!['.'] {
            assert(cs@[0] == '.');
        }
    }
    assert(cs@ != seq!['.', '.']) by {
        if cs@ == seq!['.', '.'] {
            assert(cs@[0] == '.' && cs@[1] == '.');
        }
    }
    for i in 0..n
        invariant
            n == cs@.len(),
            forall|j: int| 0 <= j < i ==> !is_separator(#[trigger] cs@[j]),
    {
        if cs[i] == '/' || cs[i] == '\\' {
            return false;
        }
    }
    true
}

} // verus!
