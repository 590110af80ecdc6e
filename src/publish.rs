//! Where a processed asset is published, relative to the output assets
//! directory.
use vstd::prelude::*;

use crate::digest::{digest_text, is_digest_text, valid_file_name, lemma_last_index_skips, lemma_hashed_name_respliceable, lemma_hashed_name_unambiguous, is_separator, filename_with_hash, hashed_file_name, last_index_of, last_position, lemma_last_index_bounds};
use crate::key::{key_dir, key_file_name};
use crate::text::{chars_of, push_chars};

verus! {

/// The published path of the asset with logical key `key` and final bytes
/// `content`: its file name, hashed when `hashed`, under the key's own
/// directory unless `flatten`.
pub open spec fn published_path(key: Seq<char>, content: Seq<u8>, hashed: bool, flatten: bool) -> Seq<char> {
    let i = last_index_of(key, '/');
    let name = key.skip(i + 1);
    let file = if hashed {
        hashed_file_name(name, digest_text(content))
    } else {
        name
    };
    if flatten {
        file
    } else {
        key.take(i + 1) + file
    }
}

/// The published path of the asset `key` with final bytes `content`.
pub fn publish_path(key: &str, content: &[u8], hashed: bool, flatten: bool) -> (r: String)
    requires
        valid_file_name(key_file_name(key@)),
    ensures
        r@ == published_path(key@, content@, hashed, flatten),
        hashed ==> digest_text(content@).len() == 8 && is_digest_text(digest_text(content@)),
{
    let cs = chars_of(key);
    let n = cs.len();
    proof {
        lemma_last_index_bounds(cs@, '/');
    }
    let start: usize = match last_position(&cs, '/') {
        Some(i) => i + 1,
        None => 0,
    };
    let mut name = String::new();
    push_chars(&mut name, cs.as_slice(), start, n);
    assert(cs@.subrange(start as int, n as int) == cs@.skip(start as int));
    assert(name@ == key_file_name(key@));
    let file = if hashed {
        filename_with_hash(name.as_str(), content)
    } else {
        name
    };
    if flatten {
        file
    } else {
        let mut r = String::new();
        push_chars(&mut r, cs.as_slice(), 0, start);
        assert(cs@.subrange(0, start as int) == cs@.take(start as int));
        r.append(file.as_str());
        r
    }
}

/// The published file name of a key, hashed or not.
pub open spec fn published_name(key: Seq<char>, content: Seq<u8>, hashed: bool) -> Seq<char> {
    if hashed {
        hashed_file_name(key_file_name(key), digest_text(content))
    } else {
        key_file_name(key)
    }
}

proof fn lemma_key_parts(key: Seq<char>)
    ensures
        key == key_dir(key) + key_file_name(key),
        last_index_of(key_dir(key), '/') == key_dir(key).len() - 1,
{
    lemma_last_index_bounds(key, '/');
    let i = last_index_of(key, '/');
    assert(key == key.take(i + 1) + key.skip(i + 1));
    if i >= 0 {
        assert(key_dir(key).last() == '/');
    } else {
        assert(key_dir(key).len() == 0);
    }
}

/// Without flattening, the published path determines the key: directories
/// are kept and a file name, hashed with an eight-digit digest or not,
/// determines the name it came from.
pub proof fn lemma_published_path_injective(
    k1: Seq<char>,
    c1: Seq<u8>,
    k2: Seq<char>,
    c2: Seq<u8>,
    hashed: bool,
)
    requires
        valid_file_name(key_file_name(k1)),
        valid_file_name(key_file_name(k2)),
        hashed ==> digest_text(c1).len() == 8 && is_digest_text(digest_text(c1)),
        hashed ==> digest_text(c2).len() == 8 && is_digest_text(digest_text(c2)),
        published_path(k1, c1, hashed, false) == published_path(k2, c2, hashed, false),
    ensures
        k1 == k2,
{
    let f1 = published_name(k1, c1, hashed);
    let f2 = published_name(k2, c2, hashed);
    if hashed {
        lemma_hashed_name_respliceable(key_file_name(k1), digest_text(c1), digest_text(c1));
        lemma_hashed_name_respliceable(key_file_name(k2), digest_text(c2), digest_text(c2));
    }
    assert(valid_file_name(f1) && valid_file_name(f2));
    assert forall|j: int| 0 <= j < f1.len() implies f1[j] != '/' by {
        assert(!is_separator(f1[j]));
    }
    assert forall|j: int| 0 <= j < f2.len() implies f2[j] != '/' by {
        assert(!is_separator(f2[j]));
    }
    lemma_key_parts(k1);
    lemma_key_parts(k2);
    let d1 = key_dir(k1);
    let d2 = key_dir(k2);
    let p = d1 + f1;
    assert(p == published_path(k1, c1, hashed, false));
    assert(d2 + f2 == published_path(k2, c2, hashed, false));
    lemma_last_index_skips(d1, f1, '/');
    lemma_last_index_skips(d2, f2, '/');
    assert(d1.len() == d2.len());
    assert(d1 == p.take(d1.len() as int));
    assert(d2 == p.take(d2.len() as int));
    assert(f1 == p.skip(d1.len() as int));
    assert(f2 == p.skip(d2.len() as int));
    if hashed {
        lemma_hashed_name_unambiguous(
            key_file_name(k1),
            digest_text(c1),
            key_file_name(k2),
            digest_text(c2),
        );
    }
}

/// With flattening, the published path determines the key's file name: a
/// file name, hashed with an eight-digit digest or not, determines the name
/// it came from.
pub proof fn lemma_published_name_injective(
    k1: Seq<char>,
    c1: Seq<u8>,
    k2: Seq<char>,
    c2: Seq<u8>,
    hashed: bool,
)
    requires
        valid_file_name(key_file_name(k1)),
        valid_file_name(key_file_name(k2)),
        hashed ==> digest_text(c1).len() == 8 && is_digest_text(digest_text(c1)),
        hashed ==> digest_text(c2).len() == 8 && is_digest_text(digest_text(c2)),
        published_path(k1, c1, hashed, true) == published_path(k2, c2, hashed, true),
    ensures
        key_file_name(k1) == key_file_name(k2),
{
    if hashed {
        lemma_hashed_name_unambiguous(
            key_file_name(k1),
            digest_text(c1),
            key_file_name(k2),
            digest_text(c2),
        );
    }
}

} // verus!
