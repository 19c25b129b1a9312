//! Which shard a value lives on.
//!
//! An integer lives on the shard whose number is its remainder when it is
//! divided by the number of shards, the remainder taken as a number from 0
//! up. Text lives where the integer lives that it spells; text that spells
//! none has no shard of its own. The rule depends on nothing but the value
//! and the number of shards, so that every process places a row alike.

use crate::net::decimal::{parse_i64, spec_parse_i64};
use vstd::arithmetic::div_mod::lemma_fundamental_div_mod_converse;
use vstd::prelude::*;

verus! {

/// The shard of an integer among `shards` shards.
pub open spec fn spec_shard_int(value: int, shards: int) -> int {
    value % shards
}

/// The shard of a value given as text, where it has one.
pub open spec fn spec_shard_text(text: Seq<u8>, shards: int) -> Option<usize> {
    if shards <= 0 {
        None
    } else {
        match spec_parse_i64(text) {
            Some(v) => Some(spec_shard_int(v, shards) as usize),
            None => None,
        }
    }
}

/// The shard of an integer.
pub fn shard_int(value: i64, shards: usize) -> (r: usize)
    requires
        shards > 0,
    ensures
        r == spec_shard_int(value as int, shards as int),
        r < shards,
{
    let n = shards as u64;
    if value >= 0 {
        ((value as u64) % n) as usize
    } else {
        // For a negative value count the remainder down from the top.
        let below: u64 = (-(value + 1)) as u64;
        let m = below % n;
        let r = n - 1 - m;
        proof {
            let q = (below / n) as int;
            assert(below as int == q * n + m) by {
                vstd::arithmetic::div_mod::lemma_fundamental_div_mod(below as int, n as int);
                assert(n * q == q * n) by (nonlinear_arith);
            }
            assert(value as int == (-q - 1) * n + r) by {
                assert((-q - 1) * n == -(q * n) - n) by (nonlinear_arith);
            }
            lemma_fundamental_div_mod_converse(value as int, n as int, -q - 1, r as int);
        }
        r as usize
    }
}

/// The shard of a value given as text.
pub fn shard_bytes(text: &[u8], shards: usize) -> (r: Option<usize>)
    ensures
        r == spec_shard_text(text@, shards as int),
        r matches Some(i) ==> i < shards,
{
    if shards == 0 {
        return None;
    }
    match parse_i64(text) {
        Some(v) => Some(shard_int(v, shards)),
        None => None,
    }
}

/// The shard of a value given as a string.
pub fn shard_str(value: &str, shards: usize) -> (r: Option<usize>)
    ensures
        r == spec_shard_text(vstd::utf8::encode_utf8(value@), shards as int),
        r matches Some(i) ==> i < shards,
{
    shard_bytes(value.as_bytes(), shards)
}

} // verus!
