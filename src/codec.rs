use vstd::prelude::*;

use vstd::arithmetic::div_mod::lemma_mod_breakdown;

use crate::errors::ModbusError;
use crate::register::{type_words, DataType};
use crate::types::{tag, RegisterValue};

verus! {

/// 65536 to the power `n`: the number of values `n` words can hold.
pub open spec fn word_pow(n: nat) -> nat
    decreases n,
{
    if n == 0 {
        1
    } else {
        65536 * word_pow((n - 1) as nat)
    }
}

/// The words read as one unsigned number, the first word most significant.
pub open spec fn word_value(s: Seq<u16>) -> nat
    decreases s.len(),
{
    if s.len() == 0 {
        0
    } else {
        word_value(s.drop_last()) * 65536 + s.last() as nat
    }
}

/// `n` words holding `v` modulo `65536^n`, the most significant word first.
pub open spec fn value_words(v: nat, n: nat) -> Seq<u16>
    decreases n,
{
    if n == 0 {
        seq![]
    } else {
        value_words(v / 65536, (n - 1) as nat).push((v % 65536) as u16)
    }
}

/// Each word as its big-endian byte pair, the words in the order given.
pub open spec fn be_bytes(s: Seq<u16>) -> Seq<u8> {
    Seq::new(
        2 * s.len(),
        |i: int|
            if i % 2 == 0 {
                (s[i / 2] / 256) as u8
            } else {
                (s[i / 2] % 256) as u8
            },
    )
}

/// The bytes that a decode reads as a little-endian value: the big-endian
/// bytes of the words, reversed as a whole.
pub open spec fn wire_bytes(s: Seq<u16>) -> Seq<u8> {
    be_bytes(s).reverse()
}

/// Consecutive byte pairs, each read as a big-endian word.
pub open spec fn pair_words(b: Seq<u8>) -> Seq<u16> {
    Seq::new(b.len() / 2, |j: int| (b[2 * j] as int * 256 + b[2 * j + 1] as int) as u16)
}

/// What decoding `raw` as `kind` gives; `None` where the words do not have
/// the width the type needs.
///
/// Single-word types read the first word alone. A boolean is true exactly
/// when the bitwise complement of its first word is zero.
pub open spec fn spec_decode(raw: Seq<u16>, kind: DataType) -> Option<RegisterValue> {
    match kind {
        DataType::UInt16 => if raw.len() >= 1 {
            Some(RegisterValue::U16(raw[0]))
        } else {
            None
        },
        DataType::Enum16 => if raw.len() >= 1 {
            Some(RegisterValue::Enum16(raw[0]))
        } else {
            None
        },
        DataType::Boolean => if raw.len() >= 1 {
            Some(RegisterValue::Boolean((!raw[0]) == 0u16))
        } else {
            None
        },
        DataType::Sized => if raw.len() == 33 {
            Some(RegisterValue::Sized(choose|a: [u8; 66]| a@ == wire_bytes(raw)))
        } else {
            None
        },
        DataType::UInt32 => if raw.len() == 2 {
            Some(RegisterValue::U32(word_value(raw) as u32))
        } else {
            None
        },
        DataType::UInt64 => if raw.len() == 4 {
            Some(RegisterValue::U64(word_value(raw) as u64))
        } else {
            None
        },
        DataType::UInt128 => if raw.len() == 8 {
            Some(RegisterValue::U128(word_value(raw) as u128))
        } else {
            None
        },
        DataType::Int32 => if raw.len() == 2 {
            Some(RegisterValue::S32((word_value(raw) as u32) as i32))
        } else {
            None
        },
        DataType::Float32 => if raw.len() == 2 {
            Some(RegisterValue::Float32(word_value(raw) as u32))
        } else {
            None
        },
    }
}

/// The words that encoding `v` gives, in ascending address order.
///
/// Numbers go most significant word first; a signed number as its two's
/// complement; a boolean as the word 1 or 0.
pub open spec fn spec_encode(v: RegisterValue) -> Seq<u16> {
    match v {
        RegisterValue::U16(x) => seq![x],
        RegisterValue::Enum16(x) => seq![x],
        RegisterValue::U32(x) => value_words(x as nat, 2),
        RegisterValue::U64(x) => value_words(x as nat, 4),
        RegisterValue::U128(x) => value_words(x as nat, 8),
        RegisterValue::S32(x) => value_words((x as u32) as nat, 2),
        RegisterValue::Float32(x) => value_words(x as nat, 2),
        RegisterValue::Sized(a) => pair_words(a@.reverse()),
        RegisterValue::Boolean(b) => seq![if b { 1u16 } else { 0u16 }],
    }
}

proof fn lemma_word_pow_mono(m: nat, n: nat)
    requires
        m <= n,
    ensures
        word_pow(m) <= word_pow(n),
    decreases n,
{
    if m < n {
        lemma_word_pow_mono(m, (n - 1) as nat);
    }
}

proof fn lemma_word_pow_values()
    ensures
        word_pow(2) == 0x1_0000_0000,
        word_pow(4) == 0x1_0000_0000_0000_0000,
        word_pow(8) == 0x1_0000_0000_0000_0000_0000_0000_0000_0000,
{
    reveal_with_fuel(word_pow, 9);
}

proof fn lemma_word_value_bound(s: Seq<u16>)
    ensures
        word_value(s) < word_pow(s.len()),
    decreases s.len(),
{
    if s.len() > 0 {
        let r = s.drop_last();
        lemma_word_value_bound(r);
        let a = word_value(r);
        let p = word_pow(r.len());
        let l = s.last() as nat;
        assert(a * 65536 + l < 65536 * p) by (nonlinear_arith)
            requires
                a < p,
                l < 65536,
        ;
    }
}

proof fn lemma_value_words_len(v: nat, n: nat)
    ensures
        value_words(v, n).len() == n,
    decreases n,
{
    if n > 0 {
        lemma_value_words_len(v / 65536, (n - 1) as nat);
    }
}

/// Reading back `n` words of `v` gives `v` modulo `65536^n`.
proof fn lemma_value_words_inverse(v: nat, n: nat)
    ensures
        word_value(value_words(v, n)) == v % word_pow(n),
    decreases n,
{
    if n > 0 {
        let m = (n - 1) as nat;
        lemma_value_words_inverse(v / 65536, m);
        let s = value_words(v, n);
        assert(s.drop_last() =~= value_words(v / 65536, m));
        assert(word_pow(m) > 0) by {
            lemma_word_pow_mono(0, m);
        }
        lemma_mod_breakdown(v as int, 65536, word_pow(m) as int);
    }
}

proof fn lemma_numeric_round_trip(x: nat, n: nat)
    requires
        x < word_pow(n),
    ensures
        value_words(x, n).len() == n,
        word_value(value_words(x, n)) == x,
{
    lemma_value_words_len(x, n);
    lemma_value_words_inverse(x, n);
    assert(x % word_pow(n) == x) by {
        vstd::arithmetic::div_mod::lemma_small_mod(x, word_pow(n));
    }
}

proof fn lemma_pair_bytes(b: Seq<u8>)
    requires
        b.len() % 2 == 0,
    ensures
        be_bytes(pair_words(b)) =~= b,
{
    let w = pair_words(b);
    assert(2 * w.len() == b.len());
    assert forall|i: int| 0 <= i < b.len() implies #[trigger] be_bytes(w)[i] == b[i] by {
        let j = i / 2;
        let hi = b[2 * j] as int;
        let lo = b[2 * j + 1] as int;
        assert(w[j] as int == hi * 256 + lo);
        assert((hi * 256 + lo) / 256 == hi && (hi * 256 + lo) % 256 == lo) by (nonlinear_arith)
            requires
                0 <= hi < 256,
                0 <= lo < 256,
        ;
        if i % 2 == 0 {
            assert(i == 2 * j);
        } else {
            assert(i == 2 * j + 1);
        }
    }
}

/// Decoding the encoding of a value gives the value back.
///
/// This holds for every value but `Boolean(true)`: it encodes as the word 1,
/// whose complement is not zero, so it decodes as false.
pub proof fn lemma_round_trip(v: RegisterValue)
    requires
        v != RegisterValue::Boolean(true),
    ensures
        spec_decode(spec_encode(v), tag(v)) == Some(v),
{
    lemma_word_pow_values();
    match v {
        RegisterValue::U32(x) => {
            lemma_numeric_round_trip(x as nat, 2);
        },
        RegisterValue::U64(x) => {
            lemma_numeric_round_trip(x as nat, 4);
        },
        RegisterValue::U128(x) => {
            lemma_numeric_round_trip(x as nat, 8);
        },
        RegisterValue::Float32(x) => {
            lemma_numeric_round_trip(x as nat, 2);
        },
        RegisterValue::S32(x) => {
            let u = x as u32;
            lemma_numeric_round_trip(u as nat, 2);
            assert((u as i32) == x) by (bit_vector)
                requires
                    u == x as u32,
            ;
        },
        RegisterValue::Boolean(b) => {
            assert(!b);
            assert((!0u16) != 0u16) by (bit_vector);
        },
        RegisterValue::Sized(a) => {
            let w = spec_encode(v);
            lemma_pair_bytes(a@.reverse());
            assert(wire_bytes(w) =~= a@);
            let c = choose|c: [u8; 66]| c@ == wire_bytes(w);
            assert(c =~= a);
        },
        _ => {},
    }
}

/// The words read as one unsigned number, the first word most significant.
fn fold_words(raw: &[u16]) -> (r: u128)
    requires
        raw@.len() <= 8,
    ensures
        r as nat == word_value(raw@),
{
    let mut acc: u128 = 0;
    let mut i: usize = 0;
    while i < raw.len()
        invariant
            i <= raw@.len() <= 8,
            acc as nat == word_value(raw@.take(i as int)),
        decreases raw@.len() - i,
    {
        let ghost prefix = raw@.take(i as int);
        proof {
            lemma_word_value_bound(prefix);
            lemma_word_pow_mono((i + 1) as nat, 8);
            lemma_word_pow_values();
            assert(raw@.take(i + 1).drop_last() =~= prefix);
            let a = acc as nat;
            let p = word_pow(i as nat);
            assert(a * 65536 + 65535 < 0x1_0000_0000_0000_0000_0000_0000_0000_0000)
                by (nonlinear_arith)
                requires
                    a < p,
                    65536 * p <= 0x1_0000_0000_0000_0000_0000_0000_0000_0000,
            ;
        }
        acc = acc * 65536 + raw[i] as u128;
        i = i + 1;
    }
    assert(raw@.take(i as int) =~= raw@);
    acc
}

/// `n` words holding `v` modulo `65536^n`, the most significant word first.
fn split_words(v: u128, n: usize) -> (r: Vec<u16>)
    requires
        n <= 8,
    ensures
        r@ == value_words(v as nat, n as nat),
{
    let mut r: Vec<u16> = Vec::new();
    let mut x: u128 = v;
    let mut k: usize = n;
    while k > 0
        invariant
            k <= n,
            value_words(x as nat, k as nat) + r@ == value_words(v as nat, n as nat),
        decreases k,
    {
        let ghost old_r = r@;
        let w = (x % 65536) as u16;
        r.insert(0, w);
        proof {
            let rest = value_words((x / 65536) as nat, (k - 1) as nat);
            assert(value_words(x as nat, k as nat) == rest.push(w));
            assert(rest + r@ =~= rest.push(w) + old_r);
        }
        x = x / 65536;
        k = k - 1;
    }
    assert(value_words(x as nat, 0) + r@ =~= r@);
    r
}

/// The 66 bytes of a sized value: the words' big-endian bytes, reversed.
fn sized_bytes(raw: &[u16]) -> (a: [u8; 66])
    requires
        raw@.len() == 33,
    ensures
        a@ == wire_bytes(raw@),
{
    let mut a = [0u8; 66];
    let mut j: usize = 0;
    while j < 66
        invariant
            raw@.len() == 33,
            j <= 66,
            a@.len() == 66,
            forall|m: int| 0 <= m < j ==> a@[m] == wire_bytes(raw@)[m],
        decreases 66 - j,
    {
        let k = 65 - j;
        let w = raw[k / 2];
        let b = if k % 2 == 0 {
            (w / 256) as u8
        } else {
            (w % 256) as u8
        };
        a[j] = b;
        j = j + 1;
    }
    assert(a@ =~= wire_bytes(raw@));
    a
}

/// Decodes the words of one register as a value of type `kind`.
///
/// Fails with `ConversionError` where the words do not have the width the
/// type needs (see `spec_decode`).
pub fn decode(raw: &[u16], kind: DataType) -> (r: Result<RegisterValue, ModbusError>)
    ensures
        match spec_decode(raw@, kind) {
            Some(v) => r == Ok::<RegisterValue, ModbusError>(v),
            None => r == Err::<RegisterValue, ModbusError>(ModbusError::ConversionError),
        },
{
    let n = raw.len();
    match kind {
        DataType::UInt16 => if n >= 1 {
            Ok(RegisterValue::U16(raw[0]))
        } else {
            Err(ModbusError::ConversionError)
        },
        DataType::Enum16 => if n >= 1 {
            Ok(RegisterValue::Enum16(raw[0]))
        } else {
            Err(ModbusError::ConversionError)
        },
        DataType::Boolean => if n >= 1 {
            Ok(RegisterValue::Boolean((!raw[0]) == 0u16))
        } else {
            Err(ModbusError::ConversionError)
        },
        DataType::Sized => if n == 33 {
            let a = sized_bytes(raw);
            proof {
                let c = choose|c: [u8; 66]| c@ == wire_bytes(raw@);
                assert(c =~= a);
            }
            Ok(RegisterValue::Sized(a))
        } else {
            Err(ModbusError::ConversionError)
        },
        DataType::UInt32 => if n == 2 {
            Ok(RegisterValue::U32(fold_words(raw) as u32))
        } else {
            Err(ModbusError::ConversionError)
        },
        DataType::UInt64 => if n == 4 {
            Ok(RegisterValue::U64(fold_words(raw) as u64))
        } else {
            Err(ModbusError::ConversionError)
        },
        DataType::UInt128 => if n == 8 {
            Ok(RegisterValue::U128(fold_words(raw)))
        } else {
            Err(ModbusError::ConversionError)
        },
        DataType::Int32 => if n == 2 {
            Ok(RegisterValue::S32((fold_words(raw) as u32) as i32))
        } else {
            Err(ModbusError::ConversionError)
        },
        DataType::Float32 => if n == 2 {
            Ok(RegisterValue::Float32(fold_words(raw) as u32))
        } else {
            Err(ModbusError::ConversionError)
        },
    }
}

/// Encodes a value as the words to write, in ascending address order.
///
/// Every value encodes; the number of words is the width of its type.
pub fn encode(value: &RegisterValue) -> (r: Vec<u16>)
    ensures
        r@ == spec_encode(*value),
        r@.len() == type_words(tag(*value)),
{
    proof {
        lemma_value_words_len(0, 0);
    }
    match *value {
        RegisterValue::U16(x) => vec![x],
        RegisterValue::Enum16(x) => vec![x],
        RegisterValue::U32(x) => {
            proof {
                lemma_value_words_len(x as nat, 2);
            }
            split_words(x as u128, 2)
        },
        RegisterValue::U64(x) => {
            proof {
                lemma_value_words_len(x as nat, 4);
            }
            split_words(x as u128, 4)
        },
        RegisterValue::U128(x) => {
            proof {
                lemma_value_words_len(x as nat, 8);
            }
            split_words(x, 8)
        },
        RegisterValue::S32(x) => {
            proof {
                lemma_value_words_len((x as u32) as nat, 2);
            }
            split_words((x as u32) as u128, 2)
        },
        RegisterValue::Float32(x) => {
            proof {
                lemma_value_words_len(x as nat, 2);
            }
            split_words(x as u128, 2)
        },
        RegisterValue::Sized(a) => {
            let mut r: Vec<u16> = Vec::new();
            let mut j: usize = 0;
            while j < 33
                invariant
                    j <= 33,
                    a@.len() == 66,
                    r@.len() == j,
                    forall|m: int| 0 <= m < j ==> r@[m] == pair_words(a@.reverse())[m],
                decreases 33 - j,
            {
                let hi = a[65 - 2 * j] as u16;
                let lo = a[64 - 2 * j] as u16;
                r.push(hi * 256 + lo);
                j = j + 1;
            }
            assert(r@ =~= pair_words(a@.reverse()));
            r
        },
        RegisterValue::Boolean(b) => vec![if b { 1u16 } else { 0u16 }],
    }
}

} // verus!
