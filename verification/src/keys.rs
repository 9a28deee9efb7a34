//! Names of things: worker session ids, in-memory cache keys and the file
//! names of the disk render cache.

use vstd::prelude::*;
use vstd::string::*;
use crate::decimal::{decimal, push_decimal, all_digits, is_digit, lemma_decimal_all_digits, lemma_decimal_injective};
use crate::text::string_push;
use std::hash::{Hash, Hasher};

verus! {

/// The id of the `n`-th session that a worker opens: `s` and `n` in decimal.
pub open spec fn spec_session_id(n: nat) -> Seq<char> {
    seq!['s'] + decimal(n)
}

/// The id that a worker gives the session it opens as its `n`-th.
pub fn session_id_for(n: u64) -> (r: String)
    ensures
        r@ == spec_session_id(n as nat),
{
    let mut s = String::new();
    string_push(&mut s, 's');
    push_decimal(&mut s, n);
    s
}

/// The key of a rendered page in the in-memory cache:
/// `session:page:width`, the numbers in decimal.
pub open spec fn spec_memory_cache_key(session_id: Seq<char>, page_number: nat, target_width: nat) -> Seq<char> {
    session_id + seq![':'] + decimal(page_number) + seq![':'] + decimal(target_width)
}

pub fn memory_cache_key(session_id: &str, page_number: u16, target_width: u16) -> (r: String)
    ensures
        r@ == spec_memory_cache_key(session_id@, page_number as nat, target_width as nat),
{
    let mut s = String::from_str(session_id);
    string_push(&mut s, ':');
    push_decimal(&mut s, page_number as u64);
    string_push(&mut s, ':');
    push_decimal(&mut s, target_width as u64);
    s
}

/// The name of the disk-cache file of a page: `p{page}_w{width}_{hash}.jpg`.
pub open spec fn spec_render_cache_file_name(page_number: nat, target_width: nat, hash: nat) -> Seq<char> {
    seq!['p'] + decimal(page_number) + seq!['_', 'w'] + decimal(target_width) + seq!['_']
        + decimal(hash) + seq!['.', 'j', 'p', 'g']
}

/// Builds the disk-cache file name from a page, a width and the hash of the
/// cache entry.
pub fn render_cache_file_name(page_number: u16, target_width: u16, hash: u64) -> (r: String)
    ensures
        r@ == spec_render_cache_file_name(page_number as nat, target_width as nat, hash as nat),
{
    let mut s = String::new();
    string_push(&mut s, 'p');
    push_decimal(&mut s, page_number as u64);
    string_push(&mut s, '_');
    string_push(&mut s, 'w');
    push_decimal(&mut s, target_width as u64);
    string_push(&mut s, '_');
    push_decimal(&mut s, hash);
    string_push(&mut s, '.');
    string_push(&mut s, 'j');
    string_push(&mut s, 'p');
    string_push(&mut s, 'g');
    s
}

/// What a fresh `std::collections::hash_map::DefaultHasher` finishes with
/// after hashing, in this order, a path, its modification stamp, a page
/// number and a width.
pub uninterp spec fn render_cache_hash_of(path: Seq<char>, stamp: u64, page_number: u16, target_width: u16) -> u64;

/// Hashes the identity of a rendered page for its disk-cache file name.
///
/// Trusted: feeds `path`, `stamp`, `page_number` and `target_width` through
/// `Hash::hash` into `DefaultHasher::new()` and returns `Hasher::finish`.
/// `DefaultHasher::new` starts from fixed keys, so within one build of the
/// standard library the result depends on these arguments alone; the
/// contract names it `render_cache_hash_of` and claims nothing else (the
/// algorithm itself is left unspecified by std and may change between its
/// releases).
#[verifier::external_body]
fn render_cache_hash(path: &str, stamp: u64, page_number: u16, target_width: u16) -> (r: u64)
    ensures
        r == render_cache_hash_of(path@, stamp, page_number, target_width),
{
    let mut hasher = std::collections::hash_map::DefaultHasher::new();
    path.hash(&mut hasher);
    stamp.hash(&mut hasher);
    page_number.hash(&mut hasher);
    target_width.hash(&mut hasher);
    hasher.finish()
}

/// The disk-cache file name of page `page_number` rendered at
/// `target_width` from the file at `path` whose modification stamp is
/// `stamp`.
pub fn render_cache_file_name_for(path: &str, stamp: u64, page_number: u16, target_width: u16) -> (r: String)
    ensures
        r@ == spec_render_cache_file_name(
            page_number as nat,
            target_width as nat,
            render_cache_hash_of(path@, stamp, page_number, target_width) as nat,
        ),
{
    let hash = render_cache_hash(path, stamp, page_number, target_width);
    render_cache_file_name(page_number, target_width, hash)
}

proof fn lemma_split_at_last_separator(a1: Seq<char>, d1: Seq<char>, a2: Seq<char>, d2: Seq<char>, sep: char)
    requires
        a1 + seq![sep] + d1 == a2 + seq![sep] + d2,
        !is_digit(sep),
        all_digits(d1),
        all_digits(d2),
    ensures
        a1 == a2,
        d1 == d2,
{
    let x = a1 + seq![sep] + d1;
    let y = a2 + seq![sep] + d2;
    let n = x.len();
    if d1.len() < d2.len() {
        let p = n - d1.len() - 1;
        assert(x[p] == sep);
        assert(y[p] == d2[p - a2.len() - 1]);
        assert(is_digit(d2[p - a2.len() - 1]));
        assert(false);
    } else if d2.len() < d1.len() {
        let p = n - d2.len() - 1;
        assert(y[p] == sep);
        assert(x[p] == d1[p - a1.len() - 1]);
        assert(is_digit(d1[p - a1.len() - 1]));
        assert(false);
    }
    assert(a1.len() == a2.len());
    assert(d1 =~= x.skip(a1.len() + 1int));
    assert(d2 =~= y.skip(a2.len() + 1int));
    assert(a1 =~= x.take(a1.len() as int));
    assert(a2 =~= y.take(a2.len() as int));
}

/// Distinct pages (by session, page number and width) have distinct keys in
/// the in-memory cache, whatever characters the session id holds.
pub proof fn lemma_memory_cache_key_injective(
    s1: Seq<char>,
    p1: nat,
    w1: nat,
    s2: Seq<char>,
    p2: nat,
    w2: nat,
)
    requires
        spec_memory_cache_key(s1, p1, w1) == spec_memory_cache_key(s2, p2, w2),
    ensures
        s1 == s2,
        p1 == p2,
        w1 == w2,
{
    lemma_decimal_all_digits(p1);
    lemma_decimal_all_digits(p2);
    lemma_decimal_all_digits(w1);
    lemma_decimal_all_digits(w2);
    assert(!is_digit(':'));
    lemma_split_at_last_separator(
        s1 + seq![':'] + decimal(p1),
        decimal(w1),
        s2 + seq![':'] + decimal(p2),
        decimal(w2),
        ':',
    );
    lemma_split_at_last_separator(s1, decimal(p1), s2, decimal(p2), ':');
    lemma_decimal_injective(p1, p2);
    lemma_decimal_injective(w1, w2);
}

/// Sessions opened as different numbers get different ids.
pub proof fn lemma_session_id_injective(a: nat, b: nat)
    requires
        spec_session_id(a) == spec_session_id(b),
    ensures
        a == b,
{
    assert(decimal(a) =~= spec_session_id(a).drop_first());
    assert(decimal(b) =~= spec_session_id(b).drop_first());
    lemma_decimal_injective(a, b);
}

/// A disk-cache file name gives back the page, the width and the hash it
/// was made of: pages or widths that differ never share a file.
pub proof fn lemma_render_cache_file_name_injective(p1: nat, w1: nat, h1: nat, p2: nat, w2: nat, h2: nat)
    requires
        spec_render_cache_file_name(p1, w1, h1) == spec_render_cache_file_name(p2, w2, h2),
    ensures
        p1 == p2,
        w1 == w2,
        h1 == h2,
{
    let suffix = seq!['.', 'j', 'p', 'g'];
    let x = spec_render_cache_file_name(p1, w1, h1);
    let y = spec_render_cache_file_name(p2, w2, h2);
    let a1 = seq!['p'] + decimal(p1) + seq!['_'];
    let a2 = seq!['p'] + decimal(p2) + seq!['_'];
    let b1 = a1 + seq!['w'] + decimal(w1) + seq!['_'] + decimal(h1);
    let b2 = a2 + seq!['w'] + decimal(w2) + seq!['_'] + decimal(h2);
    assert(x =~= b1 + suffix);
    assert(y =~= b2 + suffix);
    assert(b1 =~= x.take(x.len() - 4));
    assert(b2 =~= y.take(y.len() - 4));
    lemma_decimal_all_digits(p1);
    lemma_decimal_all_digits(p2);
    lemma_decimal_all_digits(w1);
    lemma_decimal_all_digits(w2);
    lemma_decimal_all_digits(h1);
    lemma_decimal_all_digits(h2);
    assert(!is_digit('_') && !is_digit('w'));
    lemma_split_at_last_separator(a1 + seq!['w'] + decimal(w1), decimal(h1), a2 + seq!['w'] + decimal(w2), decimal(h2), '_');
    lemma_split_at_last_separator(a1, decimal(w1), a2, decimal(w2), 'w');
    assert(decimal(p1) =~= a1.subrange(1, a1.len() - 1));
    assert(decimal(p2) =~= a2.subrange(1, a2.len() - 1));
    lemma_decimal_injective(p1, p2);
    lemma_decimal_injective(w1, w2);
    lemma_decimal_injective(h1, h2);
}

} // verus!
