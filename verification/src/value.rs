//! Tagged values, heap objects, and the object heap.
//!
//! `Value` is a small tagged union (nil / bool / number / object handle).
//! Numbers are IEEE-754 doubles carried as their bit pattern; the arithmetic
//! on them is done by the embedder (see `vm::Action`).  Every heap object
//! lives in a `Heap` slot and carries a mark bit so the collector can walk the
//! heap uniformly.

use vstd::prelude::*;

use crate::chunk::Chunk;
use crate::common::{decimal_digits, decimal_string};
use vstd::arithmetic::power2::{pow2, lemma2_to64, lemma_pow2_adds, lemma_pow2_pos, lemma_pow2_strictly_increases};
use vstd::arithmetic::div_mod::{lemma_fundamental_div_mod, lemma_mod_pos_bound, lemma_small_mod, lemma_basic_div_specific_divisor};
use vstd::bits::{lemma_u64_shl_is_mul, lemma_u64_shr_is_div};

pub use crate::vm::{copy_string, new_function, new_native};

verus! {

/// Runtime type tag for a value.
#[derive(Debug, Clone, Copy, PartialEq, Eq, Structural)]
pub enum ValueType {
    Nil,
    Bool,
    Number,
    Obj,
}

/// Handle of a heap object: the index of its slot in the `Heap`.
pub type ObjRef = usize;

/// A tagged value that lives on the stack, in constant pools and in tables.
/// A number is the bit pattern of an IEEE-754 double (`f64::to_bits`).
#[derive(Debug, Clone, Copy)]
pub enum Value {
    Nil,
    Bool(bool),
    Number(u64),
    Obj(ObjRef),
}

impl Value {
    pub fn is_nil(&self) -> (b: bool)
        ensures
            b == (*self is Nil),
    {
        matches!(self, Value::Nil)
    }

    pub fn is_bool(&self) -> (b: bool)
        ensures
            b == (*self is Bool),
    {
        matches!(self, Value::Bool(_))
    }

    pub fn is_number(&self) -> (b: bool)
        ensures
            b == (*self is Number),
    {
        matches!(self, Value::Number(_))
    }

    pub fn is_obj(&self) -> (b: bool)
        ensures
            b == (*self is Obj),
    {
        matches!(self, Value::Obj(_))
    }

    pub fn as_bool(&self) -> (b: bool)
        requires
            *self is Bool,
        ensures
            b == self->Bool_0,
    {
        match self {
            Value::Bool(b) => *b,
            _ => false,
        }
    }

    /// The bit pattern of the number.
    pub fn as_number(&self) -> (n: u64)
        requires
            *self is Number,
        ensures
            n == self->Number_0,
    {
        match self {
            Value::Number(n) => *n,
            _ => 0,
        }
    }

    pub fn as_obj(&self) -> (o: ObjRef)
        requires
            *self is Obj,
        ensures
            o == self->Obj_0,
    {
        match self {
            Value::Obj(o) => *o,
            _ => 0,
        }
    }

    /// Whether the value is a handle of a live string object.
    pub fn is_string(&self, heap: &Heap) -> (b: bool)
        ensures
            b == value_is_string(heap@, *self),
    {
        match self {
            Value::Obj(o) => match heap.get(*o) {
                Some(Obj::String(_)) => true,
                _ => false,
            },
            _ => false,
        }
    }

    /// Whether the value is a handle of a live function object.
    pub fn is_function(&self, heap: &Heap) -> (b: bool)
        ensures
            b == (*self matches Value::Obj(o) && heap@.contains_key(o) && heap@[o] is Function),
    {
        match self {
            Value::Obj(o) => match heap.get(*o) {
                Some(Obj::Function(_)) => true,
                _ => false,
            },
            _ => false,
        }
    }

    /// Whether the value is a handle of a live native-function object.
    pub fn is_native(&self, heap: &Heap) -> (b: bool)
        ensures
            b == (*self matches Value::Obj(o) && heap@.contains_key(o) && heap@[o] is Native),
    {
        match self {
            Value::Obj(o) => match heap.get(*o) {
                Some(Obj::Native(_)) => true,
                _ => false,
            },
            _ => false,
        }
    }

    /// A copy of the string object the value refers to.
    pub fn as_string(&self, heap: &Heap) -> (s: ObjString)
        requires
            value_is_string(heap@, *self),
        ensures
            Obj::String(s) == heap@[self->Obj_0],
    {
        match self {
            Value::Obj(o) => match heap.get(*o) {
                Some(Obj::String(s)) => s.clone(),
                _ => ObjString::new(String::new(), 0),
            },
            _ => ObjString::new(String::new(), 0),
        }
    }

    /// The name of the value's runtime type.
    pub fn kind_name(&self, heap: &Heap) -> (name: &'static str)
        requires
            *self matches Value::Obj(o) ==> heap@.contains_key(o),
        ensures
            name@ == kind_name_of(heap@, *self)@,
    {
        match self {
            Value::Nil => "nil",
            Value::Bool(_) => "bool",
            Value::Number(_) => "number",
            Value::Obj(o) => match heap.get(*o) {
                Some(Obj::String(_)) => "string",
                Some(Obj::Function(_)) => "function",
                Some(Obj::Native(_)) => "native",
                None => "native",
            },
        }
    }
}

// ---------------------------------------------------------------------------
// Comparing numbers
// ---------------------------------------------------------------------------

/// The sign bit of an IEEE-754 double.
pub const F64_SIGN_BIT: u64 = 0x8000_0000_0000_0000;

/// Every bit of an IEEE-754 double but the sign.
pub const F64_MAGNITUDE_MASK: u64 = 0x7FFF_FFFF_FFFF_FFFF;

/// The exponent field of an IEEE-754 double.
pub const F64_EXPONENT_MASK: u64 = 0x7FF0_0000_0000_0000;

/// The fraction field of an IEEE-754 double.
pub const F64_FRACTION_MASK: u64 = 0x000F_FFFF_FFFF_FFFF;

/// Whether the double with bit pattern `b` is a NaN: every exponent bit is
/// set and the fraction is not zero.
pub open spec fn is_nan_bits(b: u64) -> bool {
    b & F64_EXPONENT_MASK == F64_EXPONENT_MASK && b & F64_FRACTION_MASK != 0
}

/// Where a double that is not a NaN lies on the number line, as an integer:
/// its magnitude bits, negated when the sign bit is set.  IEEE-754 lays out
/// doubles so that the magnitude bits grow with the absolute value, so two
/// doubles compare as their keys do, and both zeros have key 0.
pub open spec fn order_key(b: u64) -> int {
    if b & F64_SIGN_BIT != 0 {
        -((b & F64_MAGNITUDE_MASK) as int)
    } else {
        (b & F64_MAGNITUDE_MASK) as int
    }
}

/// IEEE-754 equality of two doubles given by their bit patterns: a NaN
/// equals nothing, and `-0` equals `+0`.
pub open spec fn num_equal(a: u64, b: u64) -> bool {
    !is_nan_bits(a) && !is_nan_bits(b) && order_key(a) == order_key(b)
}

/// IEEE-754 `<` of two doubles given by their bit patterns: false whenever
/// either is a NaN.
pub open spec fn num_less(a: u64, b: u64) -> bool {
    !is_nan_bits(a) && !is_nan_bits(b) && order_key(a) < order_key(b)
}

/// Whether the bit pattern `b` is a NaN.
pub fn number_is_nan(b: u64) -> (r: bool)
    ensures
        r == is_nan_bits(b),
{
    b & F64_EXPONENT_MASK == F64_EXPONENT_MASK && b & F64_FRACTION_MASK != 0
}

/// The order key of the bit pattern `b`.
fn number_order_key(b: u64) -> (k: i128)
    ensures
        k == order_key(b),
{
    let mag = b & F64_MAGNITUDE_MASK;
    if b & F64_SIGN_BIT != 0 {
        -(mag as i128)
    } else {
        mag as i128
    }
}

/// Whether two numbers (bit patterns) are equal as doubles.
pub fn numbers_equal(a: u64, b: u64) -> (r: bool)
    ensures
        r == num_equal(a, b),
{
    !number_is_nan(a) && !number_is_nan(b) && number_order_key(a) == number_order_key(b)
}

/// Whether the number `a` is less than the number `b` (bit patterns), as
/// doubles.
pub fn number_less(a: u64, b: u64) -> (r: bool)
    ensures
        r == num_less(a, b),
{
    !number_is_nan(a) && !number_is_nan(b) && number_order_key(a) < number_order_key(b)
}

/// IEEE-754 negation of the double with bit pattern `b`: the sign bit
/// flips and nothing else changes (a NaN stays a NaN).
pub open spec fn negated(b: u64) -> u64 {
    b ^ F64_SIGN_BIT
}

/// Negate a number (bit pattern) as a double.
pub fn number_negate(b: u64) -> (r: u64)
    ensures
        r == negated(b),
{
    b ^ F64_SIGN_BIT
}

/// The biased exponent field of the double `b`.
pub open spec fn exponent_field(b: u64) -> u64 {
    (b >> 52u64) & 0x7FFu64
}

/// The significand of a finite double: its fraction field, plus the
/// implicit leading one when the number is normal.
pub open spec fn significand(b: u64) -> nat {
    if exponent_field(b) == 0 {
        (b & F64_FRACTION_MASK) as nat
    } else {
        (b & F64_FRACTION_MASK) as nat + pow2(52)
    }
}

/// The power of two that scales the significand of a finite double: its
/// absolute value is `significand(b) * 2^scale(b)`.
pub open spec fn scale(b: u64) -> int {
    if exponent_field(b) == 0 {
        -1074
    } else {
        exponent_field(b) - 1075
    }
}

/// `print` writes a number without a fractional part when it is a whole
/// number of magnitude below this bound.
pub const WHOLE_PRINT_LIMIT: u64 = 1_000_000_000_000_000;

/// The absolute value of the double `b` when it is finite, a whole number,
/// and below `WHOLE_PRINT_LIMIT`.
pub open spec fn whole_magnitude(b: u64) -> Option<nat> {
    if exponent_field(b) == 0x7FF {
        None
    } else {
        let m = significand(b);
        let whole = scale(b) >= 0 || m % pow2((-scale(b)) as nat) == 0;
        let n: nat = if scale(b) >= 0 {
            m * pow2(scale(b) as nat)
        } else {
            m / pow2((-scale(b)) as nat)
        };
        if whole && n < WHOLE_PRINT_LIMIT {
            Some(n)
        } else {
            None
        }
    }
}

/// How `print` writes a double that is a whole number below the bound: its
/// decimal digits, after a minus sign when the sign bit is set (so negative
/// zero is `-0`).  `None` for every other double.
pub open spec fn whole_number_text(b: u64) -> Option<Seq<char>> {
    match whole_magnitude(b) {
        Some(n) => Some(
            if b & F64_SIGN_BIT != 0 {
                "-"@ + decimal_digits(n)
            } else {
                decimal_digits(n)
            },
        ),
        None => None,
    }
}

proof fn lemma_pow2_52_53()
    ensures
        pow2(52) == 0x0010_0000_0000_0000,
        pow2(53) == 0x0020_0000_0000_0000,
{
    lemma2_to64();
    lemma_pow2_adds(32, 20);
    lemma_pow2_adds(52, 1);
}

/// The text `print` writes for a number (bit pattern) that is a whole
/// number below the bound; `None` for any other number, whose rendering is
/// left to the host.
pub fn format_whole_number(b: u64) -> (t: Option<String>)
    ensures
        match whole_number_text(b) {
            Some(x) => t matches Some(s) && s@ == x,
            None => t is None,
        },
{
    let e = (b >> 52u64) & 0x7FFu64;
    if e == 0x7FF {
        return None;
    }
    let f = b & F64_FRACTION_MASK;
    proof {
        lemma_pow2_52_53();
        assert(f <= 0x000F_FFFF_FFFF_FFFFu64) by (bit_vector)
            requires
                f == b & 0x000F_FFFF_FFFF_FFFFu64,
        ;
        assert(e <= 0x7FF) by (bit_vector)
            requires
                e == (b >> 52u64) & 0x7FFu64,
        ;
    }
    if e >= 1075 {
        proof {
            let k = (e - 1075) as nat;
            let m = significand(b);
            assert(exponent_field(b) == e);
            assert(m >= pow2(52));
            lemma_pow2_pos(k);
            assert(m * pow2(k) >= m) by (nonlinear_arith)
                requires
                    pow2(k) >= 1,
            ;
        }
        return None;
    }
    let m: u64 = if e == 0 {
        f
    } else {
        f + 0x0010_0000_0000_0000u64
    };
    let s: u64 = if e == 0 {
        1074
    } else {
        1075 - e
    };
    assert(exponent_field(b) == e);
    assert(m as nat == significand(b));
    assert(s as int == -scale(b));
    let n: u64;
    if s >= 64 {
        proof {
            lemma_pow2_strictly_increases(53, s as nat);
            lemma_small_mod(m as nat, pow2(s as nat));
            lemma_basic_div_specific_divisor(pow2(s as nat) as int);
        }
        if m != 0 {
            return None;
        }
        n = 0;
    } else {
        let q = m >> s;
        proof {
            let d = pow2(s as nat) as int;
            lemma_u64_shr_is_div(m, s);
            lemma_pow2_pos(s as nat);
            lemma_fundamental_div_mod(m as int, d);
            lemma_mod_pos_bound(m as int, d);
            assert(q * d == d * q) by (nonlinear_arith);
            lemma_u64_shl_is_mul(q, s);
        }
        let back = q << s;
        if back != m {
            return None;
        }
        n = q;
    }
    if n >= WHOLE_PRINT_LIMIT {
        return None;
    }
    let digits = decimal_string(n);
    if b & F64_SIGN_BIT != 0 {
        let mut t = "-".to_owned();
        proof {
            reveal_strlit("-");
        }
        t.append(digits.as_str());
        Some(t)
    } else {
        Some(digits)
    }
}

/// Equality of values: `nil` equals `nil`, booleans by value, numbers as
/// doubles, objects by handle (strings are interned, so this compares their
/// contents); values of different kinds are unequal.
pub open spec fn values_equal(a: Value, b: Value) -> bool {
    match (a, b) {
        (Value::Nil, Value::Nil) => true,
        (Value::Bool(x), Value::Bool(y)) => x == y,
        (Value::Number(x), Value::Number(y)) => num_equal(x, y),
        (Value::Obj(x), Value::Obj(y)) => x == y,
        _ => false,
    }
}

impl PartialEq for Value {
    fn eq(&self, other: &Self) -> (r: bool) {
        match (self, other) {
            (Value::Nil, Value::Nil) => true,
            (Value::Bool(a), Value::Bool(b)) => *a == *b,
            (Value::Number(a), Value::Number(b)) => numbers_equal(*a, *b),
            (Value::Obj(a), Value::Obj(b)) => *a == *b,
            _ => false,
        }
    }
}

impl vstd::std_specs::cmp::PartialEqSpecImpl for Value {
    open spec fn obeys_eq_spec() -> bool {
        true
    }

    open spec fn eq_spec(&self, other: &Self) -> bool {
        values_equal(*self, *other)
    }
}

/// Whether `v` refers to a live string object.
pub open spec fn value_is_string(heap: Map<ObjRef, Obj>, v: Value) -> bool {
    v matches Value::Obj(o) && heap.contains_key(o) && heap[o] is String
}

/// The type name that `kind_name` reports.
pub open spec fn kind_name_of(heap: Map<ObjRef, Obj>, v: Value) -> &'static str {
    match v {
        Value::Nil => "nil",
        Value::Bool(_) => "bool",
        Value::Number(_) => "number",
        Value::Obj(o) => match heap[o] {
            Obj::String(_) => "string",
            Obj::Function(_) => "function",
            Obj::Native(_) => "native",
        },
    }
}

// ---------------------------------------------------------------------------
// Heap objects
// ---------------------------------------------------------------------------

/// Concrete heap object kinds.
#[derive(Debug)]
pub enum Obj {
    String(ObjString),
    Function(ObjFunction),
    Native(ObjNative),
}

/// The mark bit of an object.
pub open spec fn obj_marked(o: Obj) -> bool {
    match o {
        Obj::String(s) => s.is_marked,
        Obj::Function(f) => f.is_marked,
        Obj::Native(n) => n.is_marked,
    }
}

/// The object with its mark bit set to `m` and everything else unchanged.
pub open spec fn with_mark(o: Obj, m: bool) -> Obj {
    match o {
        Obj::String(s) => Obj::String(ObjString { is_marked: m, ..s }),
        Obj::Function(f) => Obj::Function(ObjFunction { is_marked: m, ..f }),
        Obj::Native(n) => Obj::Native(ObjNative { is_marked: m, ..n }),
    }
}

/// Whether object `o` holds a reference to object `c` (a function's name or
/// an object in its constant pool).
pub open spec fn points_to(o: Obj, c: ObjRef) -> bool {
    match o {
        Obj::Function(f) => f.name == Some(c) || exists|i: int|
            0 <= i < f.chunk.constants.values@.len() && #[trigger] f.chunk.constants.values@[i]
                == Value::Obj(c),
        _ => false,
    }
}

impl Obj {
    pub fn is_marked(&self) -> (b: bool)
        ensures
            b == obj_marked(*self),
    {
        match self {
            Obj::String(s) => s.is_marked,
            Obj::Function(f) => f.is_marked,
            Obj::Native(n) => n.is_marked,
        }
    }

    pub fn set_marked(&mut self, marked: bool)
        ensures
            *final(self) == with_mark(*old(self), marked),
    {
        match self {
            Obj::String(s) => s.is_marked = marked,
            Obj::Function(f) => f.is_marked = marked,
            Obj::Native(n) => n.is_marked = marked,
        }
    }

    pub fn as_string(&self) -> (s: &ObjString)
        requires
            *self is String,
        ensures
            *self == Obj::String(*s),
    {
        match self {
            Obj::String(s) => s,
            _ => unreached(),
        }
    }

    pub fn as_function(&self) -> (f: &ObjFunction)
        requires
            *self is Function,
        ensures
            *self == Obj::Function(*f),
    {
        match self {
            Obj::Function(f) => f,
            _ => unreached(),
        }
    }

    pub fn as_native(&self) -> (n: &ObjNative)
        requires
            *self is Native,
        ensures
            *self == Obj::Native(*n),
    {
        match self {
            Obj::Native(n) => n,
            _ => unreached(),
        }
    }
}

/// The byte length of the UTF-8 encoding of `s` (what `str::len` reports).
pub open spec fn utf8_len(s: Seq<char>) -> usize {
    vstd::utf8::encode_utf8(s).len() as usize
}

/// A string of `n` characters takes at most `4 * n` bytes in UTF-8.
pub proof fn lemma_utf8_len_bound(s: Seq<char>)
    ensures
        vstd::utf8::encode_utf8(s).len() <= 4 * s.len(),
    decreases s.len(),
{
    if s.len() > 0 {
        lemma_utf8_len_bound(s.drop_first());
        assert(vstd::utf8::encode_scalar(s[0] as u32).len() <= 4);
    }
}

/// Interned string object.  The characters live inside the object so the
/// collector can free the whole thing in one go.
#[derive(Debug)]
pub struct ObjString {
    pub is_marked: bool,
    /// Byte length of `chars`.
    pub length: usize,
    /// FNV-1a hash of the bytes of `chars`.
    pub hash: u32,
    pub chars: String,
}

impl ObjString {
    pub fn new(chars: String, hash: u32) -> (s: Self)
        ensures
            s.is_marked == false,
            s.length == utf8_len(chars@),
            s.hash == hash,
            s.chars@ == chars@,
    {
        let length = chars.as_str().len();
        ObjString { is_marked: false, length, hash, chars }
    }
}

impl Clone for ObjString {
    fn clone(&self) -> (s: Self)
        ensures
            s == *self,
    {
        ObjString {
            is_marked: self.is_marked,
            length: self.length,
            hash: self.hash,
            chars: self.chars.clone(),
        }
    }
}

/// Function object: arity, its own chunk, and an optional name.
#[derive(Debug)]
pub struct ObjFunction {
    pub is_marked: bool,
    pub arity: u8,
    pub chunk: Chunk,
    pub name: Option<ObjRef>,
}

impl ObjFunction {
    pub fn new() -> (f: Self)
        ensures
            f.is_marked == false,
            f.arity == 0,
            f.chunk.code@ == Seq::<u8>::empty(),
            f.chunk.lines@ == Seq::<i32>::empty(),
            f.chunk.constants.values@ == Seq::<Value>::empty(),
            f.name == None::<ObjRef>,
    {
        ObjFunction { is_marked: false, arity: 0, chunk: Chunk::new(), name: None }
    }
}

/// A native (host) function, identified by the number under which the
/// embedder registered it.
pub type NativeFn = usize;

/// Native (host) function wrapper.
#[derive(Debug)]
pub struct ObjNative {
    pub is_marked: bool,
    pub function: NativeFn,
    pub name: String,
}

impl ObjNative {
    pub fn new(function: NativeFn, name: String) -> (n: Self)
        ensures
            n.is_marked == false,
            n.function == function,
            n.name@ == name@,
    {
        ObjNative { is_marked: false, function, name }
    }
}

// ---------------------------------------------------------------------------
// Hashing
// ---------------------------------------------------------------------------

/// FNV-1a offset basis.
pub const FNV_OFFSET_BASIS: u32 = 2166136261;

/// FNV-1a prime.
pub const FNV_PRIME: u32 = 16777619;

/// The FNV-1a hash of a byte sequence.
pub open spec fn fnv1a(bytes: Seq<u8>) -> u32
    decreases bytes.len(),
{
    if bytes.len() == 0 {
        FNV_OFFSET_BASIS
    } else {
        (fnv1a(bytes.drop_last()) ^ (bytes.last() as u32)).wrapping_mul(FNV_PRIME)
    }
}

/// FNV-1a hash of the UTF-8 bytes of `key`.
pub fn hash_string(key: &str) -> (h: u32)
    ensures
        h == fnv1a(vstd::utf8::encode_utf8(key@)),
{
    let bytes = key.as_bytes();
    let mut hash: u32 = FNV_OFFSET_BASIS;
    let mut i: usize = 0;
    while i < bytes.len()
        invariant
            i <= bytes@.len(),
            bytes@ == vstd::utf8::encode_utf8(key@),
            hash == fnv1a(bytes@.subrange(0, i as int)),
        decreases bytes@.len() - i,
    {
        let b = bytes[i];
        assert(bytes@.subrange(0, i + 1).drop_last() =~= bytes@.subrange(0, i as int));
        hash = (hash ^ (b as u32)).wrapping_mul(FNV_PRIME);
        i = i + 1;
    }
    assert(bytes@.subrange(0, bytes@.len() as int) =~= bytes@);
    hash
}

/// Whether two strings have the same characters (compared byte by byte).
pub fn str_eq(a: &str, b: &str) -> (eq: bool)
    ensures
        eq == (a@ == b@),
{
    let x = a.as_bytes();
    let y = b.as_bytes();
    proof {
        vstd::utf8::encode_utf8_decode_utf8(a@);
        vstd::utf8::encode_utf8_decode_utf8(b@);
    }
    if x.len() != y.len() {
        return false;
    }
    let mut i: usize = 0;
    while i < x.len()
        invariant
            x@.len() == y@.len(),
            x@ == vstd::utf8::encode_utf8(a@),
            y@ == vstd::utf8::encode_utf8(b@),
            i <= x@.len(),
            forall|j: int| 0 <= j < i ==> x@[j] == y@[j],
        decreases x@.len() - i,
    {
        if x[i] != y[i] {
            return false;
        }
        i = i + 1;
    }
    assert(x@ =~= y@);
    true
}

// ---------------------------------------------------------------------------
// Byte costs charged to the allocator
// ---------------------------------------------------------------------------

/// Bytes charged for a string object, not counting its characters.
pub const STRING_OBJ_BYTES: usize = 96;

/// Bytes charged for a function object.
pub const FUNCTION_OBJ_BYTES: usize = 96;

/// Bytes charged for a native-function object.
pub const NATIVE_OBJ_BYTES: usize = 32;

/// The number of bytes the allocator charges for `o` (saturating at the top
/// of `usize`).
pub open spec fn obj_size(o: Obj) -> usize {
    match o {
        Obj::String(s) => if STRING_OBJ_BYTES + utf8_len(s.chars@) > usize::MAX {
            usize::MAX
        } else {
            (STRING_OBJ_BYTES + utf8_len(s.chars@)) as usize
        },
        Obj::Function(_) => FUNCTION_OBJ_BYTES,
        Obj::Native(_) => NATIVE_OBJ_BYTES,
    }
}

/// The number of bytes the allocator charges for `o`.
pub fn object_size(o: &Obj) -> (n: usize)
    ensures
        n == obj_size(*o),
{
    match o {
        Obj::String(s) => STRING_OBJ_BYTES.saturating_add(s.chars.as_str().len()),
        Obj::Function(_) => FUNCTION_OBJ_BYTES,
        Obj::Native(_) => NATIVE_OBJ_BYTES,
    }
}

// ---------------------------------------------------------------------------
// The heap
// ---------------------------------------------------------------------------

/// The object heap: a slot per object handle.  Handles are handed out in
/// increasing order and never reused, so a handle names one object for the
/// life of the heap, as a pointer to a live object would.
#[derive(Debug)]
pub struct Heap {
    slots: Vec<Option<Obj>>,
}

impl View for Heap {
    type V = Map<ObjRef, Obj>;

    /// The live objects, by handle.
    closed spec fn view(&self) -> Map<ObjRef, Obj> {
        Map::new(
            |r: ObjRef| r < self.slots@.len() && self.slots@[r as int] is Some,
            |r: ObjRef| self.slots@[r as int]->Some_0,
        )
    }
}

impl Heap {
    /// One more than the largest handle the heap has handed out.
    pub closed spec fn slot_bound(&self) -> nat {
        self.slots@.len()
    }

    /// Every live handle lies below the bound.
    pub proof fn lemma_handles_below_bound(&self)
        ensures
            forall|r: ObjRef| #[trigger] self@.contains_key(r) ==> r < self.slot_bound(),
    {
    }

    pub fn new() -> (h: Self)
        ensures
            h@ == Map::<ObjRef, Obj>::empty(),
            h.slot_bound() == 0,
    {
        let h = Heap { slots: Vec::new() };
        assert(h@ =~= Map::<ObjRef, Obj>::empty());
        h
    }

    /// The live object with handle `r`, if any.
    pub fn get(&self, r: ObjRef) -> (o: Option<&Obj>)
        ensures
            match o {
                Some(x) => self@.contains_key(r) && self@[r] == *x,
                None => !self@.contains_key(r),
            },
    {
        if r < self.slots.len() {
            match &self.slots[r] {
                Some(x) => Some(x),
                None => None,
            }
        } else {
            None
        }
    }

    /// Store a new object under the next handle, which was never handed out
    /// before.
    pub fn allocate(&mut self, o: Obj) -> (r: ObjRef)
        ensures
            r == old(self).slot_bound(),
            final(self).slot_bound() == old(self).slot_bound() + 1,
            !old(self)@.contains_key(r),
            final(self)@ == old(self)@.insert(r, o),
    {
        let ghost before = self@;
        let r = self.slots.len();
        self.slots.push(Some(o));
        assert(self@ =~= before.insert(r, o));
        r
    }

    /// Release the object `r`; its handle is not handed out again.
    pub fn free(&mut self, r: ObjRef)
        ensures
            final(self)@ == old(self)@.remove(r),
            final(self).slot_bound() == old(self).slot_bound(),
    {
        if r < self.slots.len() {
            let ghost before = self@;
            self.slots.set(r, None);
            assert(self@ =~= before.remove(r));
        } else {
            assert(self@ =~= old(self)@.remove(r));
        }
    }

    /// Set the mark bit of the live object `r`.
    pub fn set_marked(&mut self, r: ObjRef, marked: bool)
        requires
            old(self)@.contains_key(r),
        ensures
            final(self)@ == old(self)@.insert(r, with_mark(old(self)@[r], marked)),
            final(self).slot_bound() == old(self).slot_bound(),
    {
        let ghost before = self@;
        let mut slot = None;
        self.slots.set_and_swap(r, &mut slot);
        match slot {
            Some(mut o) => {
                o.set_marked(marked);
                self.slots.set(r, Some(o));
            }
            None => {}
        }
        assert(self@ =~= before.insert(r, with_mark(before[r], marked)));
    }

    /// Replace the live object `r` by `o`.
    pub fn replace(&mut self, r: ObjRef, o: Obj)
        requires
            old(self)@.contains_key(r),
        ensures
            final(self)@ == old(self)@.insert(r, o),
            final(self).slot_bound() == old(self).slot_bound(),
    {
        let ghost before = self@;
        self.slots.set(r, Some(o));
        assert(self@ =~= before.insert(r, o));
    }

    /// One more than the largest handle ever handed out.
    pub fn slot_count(&self) -> (n: usize)
        ensures
            n == self.slot_bound(),
            forall|r: ObjRef| self@.contains_key(r) ==> r < n,
    {
        self.slots.len()
    }
}

/// Growable array of values (used for constant pools).
#[derive(Debug)]
pub struct ValueArray {
    pub values: Vec<Value>,
}

impl ValueArray {
    pub fn new() -> (a: Self)
        ensures
            a.values@ == Seq::<Value>::empty(),
    {
        ValueArray { values: Vec::new() }
    }

    pub fn write(&mut self, value: Value) -> (idx: usize)
        requires
            old(self).values@.len() < usize::MAX,
        ensures
            idx == old(self).values@.len(),
            final(self).values@ == old(self).values@.push(value),
    {
        let idx = self.values.len();
        self.values.push(value);
        idx
    }

    pub fn len(&self) -> (n: usize)
        ensures
            n == self.values@.len(),
    {
        self.values.len()
    }

    pub fn is_empty(&self) -> (b: bool)
        ensures
            b == (self.values@.len() == 0),
    {
        self.values.len() == 0
    }
}

impl Default for ValueArray {
    fn default() -> (a: Self)
        ensures
            a.values@ == Seq::<Value>::empty(),
    {
        ValueArray::new()
    }
}

} // verus!
