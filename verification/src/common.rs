//! Shared constants and configuration values.

use vstd::prelude::*;

verus! {

/// Maximum number of call frames.
pub const FRAMES_MAX: usize = 256;

/// Maximum value-stack depth (frames × slots per frame).
pub const STACK_MAX: usize = 16384;

/// Initial collection threshold (bytes).
pub const GC_INITIAL_THRESHOLD: usize = 1048576;

/// Heap growth factor after a collection.
pub const GC_HEAP_GROW_FACTOR: usize = 2;

/// The hash table grows once `(count + 1) > capacity * TABLE_MAX_LOAD_NUM / TABLE_MAX_LOAD_DEN`,
/// a load factor of three quarters.
pub const TABLE_MAX_LOAD_NUM: usize = 3;

/// Denominator of the table's maximum load factor.
pub const TABLE_MAX_LOAD_DEN: usize = 4;

/// The capacity that follows `cap` when a growable buffer is enlarged.
pub open spec fn spec_grow_capacity(cap: nat) -> nat {
    if cap < 8 { 8 } else { cap * 2 }
}

/// Grow a capacity value: at least eight slots, doubling afterwards.
pub fn grow_capacity(cap: usize) -> (res: usize)
    requires
        cap < 8 || cap * 2 <= usize::MAX,
    ensures
        res == spec_grow_capacity(cap as nat),
{
    if cap < 8 {
        8
    } else {
        cap * 2
    }
}

/// The decimal digit for `d` (which is below ten).
pub open spec fn digit_char(d: nat) -> char {
    if d == 0 { '0' }
    else if d == 1 { '1' }
    else if d == 2 { '2' }
    else if d == 3 { '3' }
    else if d == 4 { '4' }
    else if d == 5 { '5' }
    else if d == 6 { '6' }
    else if d == 7 { '7' }
    else if d == 8 { '8' }
    else { '9' }
}

/// The decimal representation of `n`, without leading zeros.
pub open spec fn decimal_digits(n: nat) -> Seq<char>
    decreases n,
{
    if n < 10 {
        seq![digit_char(n)]
    } else {
        decimal_digits(n / 10).push(digit_char(n % 10))
    }
}

fn digit_str(d: u64) -> (s: &'static str)
    requires
        d < 10,
    ensures
        s@ == seq![digit_char(d as nat)],
{
    if d == 0 {
        proof { reveal_strlit("0"); }
        "0"
    } else if d == 1 {
        proof { reveal_strlit("1"); }
        "1"
    } else if d == 2 {
        proof { reveal_strlit("2"); }
        "2"
    } else if d == 3 {
        proof { reveal_strlit("3"); }
        "3"
    } else if d == 4 {
        proof { reveal_strlit("4"); }
        "4"
    } else if d == 5 {
        proof { reveal_strlit("5"); }
        "5"
    } else if d == 6 {
        proof { reveal_strlit("6"); }
        "6"
    } else if d == 7 {
        proof { reveal_strlit("7"); }
        "7"
    } else if d == 8 {
        proof { reveal_strlit("8"); }
        "8"
    } else {
        proof { reveal_strlit("9"); }
        "9"
    }
}

/// The decimal representation of `n`.
pub fn decimal_string(n: u64) -> (s: String)
    ensures
        s@ == decimal_digits(n as nat),
    decreases n,
{
    if n < 10 {
        digit_str(n).to_owned()
    } else {
        let mut s = decimal_string(n / 10);
        s.append(digit_str(n % 10));
        s
    }
}

} // verus!
