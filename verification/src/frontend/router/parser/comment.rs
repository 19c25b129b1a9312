//! Shard hints in comments.
//!
//! A query can name its shard in a comment of the form
//! `/* pgdog_shard: 3 */`. Around the marker and the number any number of
//! spaces may stand, none is needed. The first comment of that form in the
//! query counts.

use crate::net::decimal::{is_digit, parse_i64, spec_parse_i64};
use vstd::prelude::*;
use vstd::slice::slice_subrange;

verus! {

/// `/*`
pub open spec fn opening() -> Seq<u8> {
    seq![0x2fu8, 0x2au8]
}

/// `*/`
pub open spec fn closing() -> Seq<u8> {
    seq![0x2au8, 0x2fu8]
}

/// `pgdog_shard:`
pub open spec fn marker() -> Seq<u8> {
    seq![
        0x70u8,
        0x67u8,
        0x64u8,
        0x6fu8,
        0x67u8,
        0x5fu8,
        0x73u8,
        0x68u8,
        0x61u8,
        0x72u8,
        0x64u8,
        0x3au8,
    ]
}

/// The bytes of `word` stand in `s` at position `i`.
pub open spec fn has_at(s: Seq<u8>, i: int, word: Seq<u8>) -> bool {
    0 <= i && i + word.len() <= s.len() && s.subrange(i, i + word.len()) == word
}

/// The first position from `i` on that holds no space.
pub open spec fn skip_spaces(s: Seq<u8>, i: int) -> int
    decreases s.len() - i,
{
    if 0 <= i < s.len() && s[i] == 0x20 {
        skip_spaces(s, i + 1)
    } else {
        i
    }
}

/// The first position from `i` on that holds no digit.
pub open spec fn skip_digits(s: Seq<u8>, i: int) -> int
    decreases s.len() - i,
{
    if 0 <= i < s.len() && is_digit(s[i]) {
        skip_digits(s, i + 1)
    } else {
        i
    }
}

/// The number in a shard comment that starts at position `i`, as text.
pub open spec fn comment_at(s: Seq<u8>, i: int) -> Option<Seq<u8>> {
    let a = skip_spaces(s, i + 2);
    let b = skip_spaces(s, a + 12);
    let c = skip_digits(s, b);
    let d = skip_spaces(s, c);
    if has_at(s, i, opening()) && has_at(s, a, marker()) && c > b && has_at(s, d, closing()) {
        Some(s.subrange(b, c))
    } else {
        None
    }
}

/// The number in the first shard comment at or after position `i`.
pub open spec fn first_comment(s: Seq<u8>, i: int) -> Option<Seq<u8>>
    decreases s.len() - i,
{
    if i < 0 || i >= s.len() {
        None
    } else {
        match comment_at(s, i) {
            Some(number) => Some(number),
            None => first_comment(s, i + 1),
        }
    }
}

/// The shard that a query asks for in a comment, where it asks for one
/// that the cluster has.
pub open spec fn spec_shard(s: Seq<u8>, shards: usize) -> Option<usize> {
    match first_comment(s, 0) {
        None => None,
        Some(number) => match spec_parse_i64(number) {
            Some(v) => if 0 <= v < shards {
                Some(v as usize)
            } else {
                None
            },
            None => None,
        },
    }
}

fn starts_with_at(s: &[u8], i: usize, word: &Vec<u8>) -> (b: bool)
    requires
        i <= s@.len(),
    ensures
        b == has_at(s@, i as int, word@),
{
    if word.len() > s.len() - i {
        return false;
    }
    let n = s.len();
    let mut k: usize = 0;
    while k < word.len()
        invariant
            k <= word@.len(),
            n == s@.len(),
            i + word@.len() <= s@.len(),
            forall|j: int| 0 <= j < k ==> s@[i + j] == word@[j],
        decreases word@.len() - k,
    {
        if s[i + k] != word[k] {
            assert(s@.subrange(i as int, i + word@.len())[k as int] != word@[k as int]);
            return false;
        }
        k = k + 1;
    }
    assert(s@.subrange(i as int, i + word@.len()) =~= word@);
    true
}

fn spaces_end(s: &[u8], i: usize) -> (r: usize)
    requires
        i <= s@.len(),
    ensures
        r == skip_spaces(s@, i as int),
        i <= r <= s@.len(),
{
    let mut r = i;
    while r < s.len() && s[r] == 0x20
        invariant
            i <= r <= s@.len(),
            skip_spaces(s@, i as int) == skip_spaces(s@, r as int),
        decreases s@.len() - r,
    {
        r = r + 1;
    }
    r
}

fn digits_end(s: &[u8], i: usize) -> (r: usize)
    requires
        i <= s@.len(),
    ensures
        r == skip_digits(s@, i as int),
        i <= r <= s@.len(),
{
    let mut r = i;
    while r < s.len() && s[r] >= 0x30 && s[r] <= 0x39
        invariant
            i <= r <= s@.len(),
            skip_digits(s@, i as int) == skip_digits(s@, r as int),
        decreases s@.len() - r,
    {
        r = r + 1;
    }
    r
}

fn words() -> (w: (Vec<u8>, Vec<u8>, Vec<u8>))
    ensures
        w.0@ == opening(),
        w.1@ == marker(),
        w.2@ == closing(),
{
    let mut open: Vec<u8> = Vec::new();
    open.push(0x2f);
    open.push(0x2a);
    let mut close: Vec<u8> = Vec::new();
    close.push(0x2a);
    close.push(0x2f);
    let mut mark: Vec<u8> = Vec::new();
    mark.push(0x70);
    mark.push(0x67);
    mark.push(0x64);
    mark.push(0x6f);
    mark.push(0x67);
    mark.push(0x5f);
    mark.push(0x73);
    mark.push(0x68);
    mark.push(0x61);
    mark.push(0x72);
    mark.push(0x64);
    mark.push(0x3a);
    assert(open@ =~= opening());
    assert(mark@ =~= marker());
    assert(close@ =~= closing());
    (open, mark, close)
}

/// The shard that a query asks for in a comment, given as bytes.
pub fn shard_in(s: &[u8], shards: usize) -> (r: Option<usize>)
    ensures
        r == spec_shard(s@, shards),
{
    let (open, mark, close) = words();
    let mut i: usize = 0;
    while i < s.len()
        invariant
            i <= s@.len(),
            open@ == opening(),
            mark@ == marker(),
            close@ == closing(),
            first_comment(s@, 0) == first_comment(s@, i as int),
        decreases s@.len() - i,
    {
        if starts_with_at(s, i, &open) {
            let a = spaces_end(s, i + 2);
            if starts_with_at(s, a, &mark) {
                let b = spaces_end(s, a + 12);
                let c = digits_end(s, b);
                let d = spaces_end(s, c);
                if c > b && starts_with_at(s, d, &close) {
                    let number = slice_subrange(s, b, c);
                    return match parse_i64(number) {
                        Some(v) => if v >= 0 && (v as u64) < shards as u64 {
                            Some(v as usize)
                        } else {
                            None
                        },
                        None => None,
                    };
                }
            }
        }
        i = i + 1;
    }
    None
}

/// The shard that a query asks for in a comment.
pub fn shard(query: &str, shards: usize) -> (r: Option<usize>)
    ensures
        r == spec_shard(vstd::utf8::encode_utf8(query@), shards),
{
    shard_in(query.as_bytes(), shards)
}

} // verus!
