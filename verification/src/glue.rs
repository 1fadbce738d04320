//! The schema-glue contract and the column-value scalar decoders.
//!
//! A separate code-generation step supplies, per table, the types that
//! implement these traits; the engine only ever goes through them. The
//! scalar decoders turn a single tagged column value into a typed value.

use vstd::prelude::*;
use vstd::string::StrSliceExecFns;
use crate::defs::{Error, ParseError, Selector};
use crate::pgoutput::{ColumnValue, TupleData};
use crate::time::{pg_text_secs, parse_pg_text_secs, Time};

verus! {

/// The static descriptor of one mirrored table.
pub trait TableMetadata: Sized {
    /// The SQL that loads the table into the mirror.
    fn query() -> &'static str;

    /// The names of the table's selector columns.
    fn selector_names() -> Vec<&'static str>;

    /// The names of the table's value columns.
    fn column_names() -> Vec<&'static str>;

    /// The table's name as the replication stream announces it.
    fn table_name() -> &'static str;
}

/// The runtime projection of one mirrored row.
pub trait TableValues<V: Copy>: Sized {
    /// The instant this row speaks of.
    fn time(&self) -> Time;

    /// The selector this row speaks of.
    fn selector(&self) -> Selector;

    /// The row's `(quantity name, value)` pairs.
    fn values(&self) -> Vec<(&'static str, V)>;
}

/// Decodes a replicated tuple into a typed row of a known table.
pub trait FromTupleData: Sized {
    /// Builds the row from the tuple's column values.
    fn from_tuple_data(tuple_data: &TupleData) -> Result<Self, Error>;
}

/// Decodes a replicated tuple into a typed row, dispatching on the
/// relation's name.
pub trait TableFromTupleData: Sized {
    /// Builds the row for `relation_name` from the tuple's column values.
    fn from_tuple_data(relation_name: &str, tuple_data: &TupleData) -> Result<Self, Error>;
}

/// An entity-typed selector component: a newtype around the entity's id.
pub trait EntityRef: Sized {
    /// The entity's name.
    fn entity_name() -> &'static str;

    /// The wrapped id.
    fn id(&self) -> i64;

    /// Wraps an id.
    fn from_entity_id(id: i64) -> Self;
}

/// Decodes one tagged column value into a typed scalar.
pub trait Decode: Sized {
    /// The decoded value, or the error the column value forces.
    fn decode(value: &ColumnValue) -> Result<Self, ParseError>;
}

/// Whether `b` is an ASCII decimal digit.
pub open spec fn is_dec_digit(b: u8) -> bool {
    48 <= b <= 57
}

/// Whether every byte is an ASCII decimal digit.
pub open spec fn all_dec_digits(s: Seq<u8>) -> bool {
    forall|i: int| 0 <= i < s.len() ==> is_dec_digit(#[trigger] s[i])
}

/// The value of an ASCII digit string.
pub open spec fn digits_val(s: Seq<u8>) -> int
    decreases s.len(),
{
    if s.len() == 0 {
        0
    } else {
        digits_val(s.drop_last()) * 10 + (s[s.len() - 1] - 48)
    }
}

/// A digit string's value is never negative.
pub proof fn lemma_digits_val_nonneg(s: Seq<u8>)
    requires
        all_dec_digits(s),
    ensures
        digits_val(s) >= 0,
    decreases s.len(),
{
    if s.len() > 0 {
        assert(all_dec_digits(s.drop_last())) by {
            assert forall|i: int| 0 <= i < s.len() - 1 implies is_dec_digit(
                #[trigger] s.drop_last()[i],
            ) by {
                assert(s.drop_last()[i] == s[i]);
            }
        }
        lemma_digits_val_nonneg(s.drop_last());
        assert(is_dec_digit(s[s.len() - 1]));
    }
}

/// Appending digits never shrinks the value.
pub proof fn lemma_digits_val_prefix(s: Seq<u8>, k: int)
    requires
        all_dec_digits(s),
        0 <= k <= s.len(),
    ensures
        digits_val(s) >= digits_val(s.subrange(0, k)),
    decreases s.len() - k,
{
    if k < s.len() {
        lemma_digits_val_prefix(s, k + 1);
        let p = s.subrange(0, k);
        let q = s.subrange(0, k + 1);
        assert(q.drop_last() =~= p);
        assert(q[q.len() - 1] == s[k]);
        assert(all_dec_digits(p)) by {
            assert forall|i: int| 0 <= i < p.len() implies is_dec_digit(#[trigger] p[i]) by {
                assert(p[i] == s[i]);
            }
        }
        lemma_digits_val_nonneg(p);
        assert(digits_val(q) == digits_val(p) * 10 + (s[k] - 48));
        assert(digits_val(q) >= digits_val(p));
    } else {
        assert(s.subrange(0, k) =~= s);
    }
}

/// What parsing an ASCII decimal signed 64-bit integer from bytes yields:
/// an optional sign, then at least one digit, nothing else, and a value in
/// range.
pub open spec fn dec_i64_of(s: Seq<u8>) -> Option<i64> {
    let neg = s.len() > 0 && s[0] == 45;
    let ds = if s.len() > 0 && (s[0] == 43 || s[0] == 45) {
        s.drop_first()
    } else {
        s
    };
    if ds.len() == 0 || !all_dec_digits(ds) {
        None
    } else {
        let v = if neg {
            -digits_val(ds)
        } else {
            digits_val(ds)
        };
        if i64::MIN <= v <= i64::MAX {
            Some(v as i64)
        } else {
            None
        }
    }
}

/// Parses an ASCII decimal signed 64-bit integer from bytes, as the text
/// form of an integer column holds it.
pub fn parse_dec_i64(bytes: &Vec<u8>) -> (r: Option<i64>)
    ensures
        r == dec_i64_of(bytes@),
{
    let n = bytes.len();
    let mut start: usize = 0;
    let mut neg = false;
    if n > 0 && (bytes[0] == 43 || bytes[0] == 45) {
        neg = bytes[0] == 45;
        start = 1;
    }
    let ghost ds = if bytes@.len() > 0 && (bytes@[0] == 43 || bytes@[0] == 45) {
        bytes@.drop_first()
    } else {
        bytes@
    };
    proof {
        assert(ds =~= bytes@.subrange(start as int, n as int));
    }
    if start == n {
        return None;
    }
    let limit: u64 = if neg {
        9223372036854775808u64
    } else {
        9223372036854775807u64
    };
    let mut acc: u64 = 0;
    let mut k: usize = start;
    while k < n
        invariant
            0 <= start <= k <= n,
            start < n,
            n == bytes@.len(),
            start as int == (if bytes@.len() > 0 && (bytes@[0] == 43 || bytes@[0] == 45) {
                1int
            } else {
                0int
            }),
            neg == (bytes@.len() > 0 && bytes@[0] == 45),
            ds == (if bytes@.len() > 0 && (bytes@[0] == 43 || bytes@[0] == 45) {
                bytes@.drop_first()
            } else {
                bytes@
            }),
            ds =~= bytes@.subrange(start as int, n as int),
            all_dec_digits(bytes@.subrange(start as int, k as int)),
            acc == digits_val(bytes@.subrange(start as int, k as int)),
            acc <= limit,
            limit == if neg {
                9223372036854775808u64
            } else {
                9223372036854775807u64
            },
        decreases n - k,
    {
        let b = bytes[k];
        if b < 48 || b > 57 {
            proof {
                assert(ds[k - start] == bytes@[k as int]);
                assert(!all_dec_digits(ds));
            }
            return None;
        }
        let d: u64 = (b - 48) as u64;
        proof {
            assert(bytes@.subrange(start as int, k + 1).drop_last() =~= bytes@.subrange(
                start as int,
                k as int,
            ));
            assert forall|i: int|
                0 <= i < k + 1 - start implies is_dec_digit(
                #[trigger] bytes@.subrange(start as int, k + 1)[i],
            ) by {
                if i < k - start {
                    assert(bytes@.subrange(start as int, k + 1)[i] == bytes@.subrange(
                        start as int,
                        k as int,
                    )[i]);
                } else {
                    assert(bytes@.subrange(start as int, k + 1)[i] == bytes@[k as int]);
                }
            }
        }
        if acc > (limit - d) / 10 {
            proof {
                let pref = bytes@.subrange(start as int, k + 1);
                assert(digits_val(pref) == acc * 10 + d);
                assert(digits_val(pref) > limit) by {
                    assert(acc >= (limit - d) / 10 + 1);
                    assert(((limit - d) / 10 + 1) * 10 >= (limit - d) + 1) by (nonlinear_arith)
                        requires acc >= 0 && d <= 9 && limit >= d,
                    ;
                    assert(acc * 10 >= ((limit - d) / 10 + 1) * 10) by (nonlinear_arith)
                        requires acc >= (limit - d) / 10 + 1,
                    ;
                }
                if all_dec_digits(ds) {
                    lemma_digits_val_prefix(ds, k + 1 - start);
                    assert(pref =~= ds.subrange(0, k + 1 - start));
                    assert(digits_val(ds) >= digits_val(pref));
                    assert(digits_val(ds) > limit);
                }
            }
            return None;
        }
        proof {
            assert(acc <= (limit - d) / 10);
            assert(acc * 10 <= ((limit - d) / 10) * 10) by (nonlinear_arith)
                requires acc <= (limit - d) / 10,
            ;
            assert(((limit - d) / 10) * 10 <= limit - d);
        }
        acc = acc * 10 + d;
        k = k + 1;
    }
    proof {
        assert(bytes@.subrange(start as int, n as int) =~= ds);
        assert(acc == digits_val(ds));
        lemma_digits_val_nonneg(ds);
    }
    if neg {
        if acc == 9223372036854775808u64 {
            Some(i64::MIN)
        } else {
            Some(-(acc as i64))
        }
    } else {
        Some(acc as i64)
    }
}

/// The value of a variable-width big-endian unsigned integer.
pub open spec fn be_uint(s: Seq<u8>) -> int
    decreases s.len(),
{
    if s.len() == 0 {
        0
    } else {
        be_uint(s.drop_last()) * 256 + s[s.len() - 1]
    }
}

/// `256^k`.
pub open spec fn p256(k: nat) -> int
    decreases k,
{
    if k == 0 {
        1
    } else {
        256 * p256((k - 1) as nat)
    }
}

/// The first nine powers of 256.
pub proof fn lemma_p256_values()
    ensures
        p256(0) == 1,
        p256(1) == 256,
        p256(2) == 65536,
        p256(3) == 16777216,
        p256(4) == 4294967296,
        p256(5) == 1099511627776,
        p256(6) == 281474976710656,
        p256(7) == 72057594037927936,
        p256(8) == 0x10000000000000000,
{
    reveal_with_fuel(p256, 9);
}

/// A `k`-byte big-endian unsigned integer is below `256^k`.
pub proof fn lemma_be_uint_bound(s: Seq<u8>)
    ensures
        0 <= be_uint(s) < p256(s.len()),
    decreases s.len(),
{
    if s.len() > 0 {
        lemma_be_uint_bound(s.drop_last());
        assert(p256(s.len()) == 256 * p256((s.len() - 1) as nat));
        assert(be_uint(s.drop_last()) * 256 <= (p256((s.len() - 1) as nat) - 1) * 256)
            by (nonlinear_arith)
            requires be_uint(s.drop_last()) <= p256((s.len() - 1) as nat) - 1,
        ;
        assert(be_uint(s.drop_last()) * 256 >= 0) by (nonlinear_arith)
            requires be_uint(s.drop_last()) >= 0,
        ;
    }
}

/// The value of a variable-width big-endian signed (two's complement)
/// integer of one to eight bytes, as the binary form of an integer column
/// holds it.
pub open spec fn be_int_signed(s: Seq<u8>) -> int {
    if s[0] >= 128 {
        be_uint(s) - p256(s.len())
    } else {
        be_uint(s)
    }
}

/// Parses a variable-width big-endian signed integer of one to eight
/// bytes.
pub fn parse_be_i64(bytes: &Vec<u8>) -> (r: Option<i64>)
    ensures
        1 <= bytes@.len() <= 8 ==> r == Some(be_int_signed(bytes@) as i64)
            && i64::MIN <= be_int_signed(bytes@) <= i64::MAX,
        !(1 <= bytes@.len() <= 8) ==> r is None,
{
    let n = bytes.len();
    if n < 1 || n > 8 {
        return None;
    }
    let mut acc: u64 = 0;
    let mut k: usize = 0;
    proof {
        lemma_p256_values();
        lemma_p256_monotone(0, 8);
        assert(bytes@.subrange(0, 0) =~= Seq::<u8>::empty());
    }
    while k < n
        invariant
            0 <= k <= n <= 8,
            n == bytes@.len(),
            acc == be_uint(bytes@.subrange(0, k as int)),
            acc < p256(k as nat),
            p256(k as nat) <= p256(8),
        decreases n - k,
    {
        proof {
            lemma_p256_values();
            assert(p256((k + 1) as nat) == 256 * p256(k as nat));
            assert(p256((k + 1) as nat) <= p256(8)) by {
                lemma_p256_monotone((k + 1) as nat, 8);
            }
            assert(bytes@.subrange(0, k + 1).drop_last() =~= bytes@.subrange(0, k as int));
            assert(acc * 256 <= (p256(k as nat) - 1) * 256) by (nonlinear_arith)
                requires acc <= p256(k as nat) - 1,
            ;
        }
        acc = acc * 256 + (bytes[k] as u64);
        k = k + 1;
    }
    proof {
        assert(bytes@.subrange(0, n as int) =~= bytes@);
        lemma_be_uint_bound(bytes@);
        lemma_p256_monotone(n as nat, 8);
        lemma_p256_values();
    }
    let first = bytes[0];
    if first >= 128 {
        let sub: u64 = match n {
            1 => 256u64,
            2 => 65536u64,
            3 => 16777216u64,
            4 => 4294967296u64,
            5 => 1099511627776u64,
            6 => 281474976710656u64,
            7 => 72057594037927936u64,
            _ => 0u64,
        };
        proof {
            lemma_p256_values();
            assert(be_uint(bytes@) >= be_uint(bytes@.drop_last()) * 256) by {
                lemma_be_uint_bound(bytes@.drop_last());
            }
        }
        if n == 8 {
            proof {
                assert(be_uint(bytes@) >= p256(7) * 128) by {
                    lemma_be_uint_hi(bytes@);
                }
                assert(p256(7) * 128 == 0x8000000000000000) by {
                    lemma_p256_values();
                }
            }
            let v = i64::MIN + ((acc - 9223372036854775808u64) as i64);
            Some(v)
        } else {
            proof {
                assert(be_uint(bytes@) >= p256((n - 1) as nat) * 128) by {
                    lemma_be_uint_hi(bytes@);
                }
                assert(p256((n - 1) as nat) * 128 * 2 == p256(n as nat)) by {
                    assert(p256(n as nat) == 256 * p256((n - 1) as nat));
                }
            }
            let v = (acc as i64) - (sub as i64);
            Some(v)
        }
    } else {
        proof {
            assert(be_uint(bytes@) < p256((n - 1) as nat) * 128) by {
                lemma_be_uint_hi(bytes@);
            }
            assert(p256((n - 1) as nat) * 128 <= p256(7) * 128) by {
                lemma_p256_monotone((n - 1) as nat, 7);
            }
            assert(p256(7) * 128 == 0x8000000000000000) by {
                lemma_p256_values();
            }
        }
        Some(acc as i64)
    }
}

/// `256^j <= 256^k` for `j <= k`.
pub proof fn lemma_p256_monotone(j: nat, k: nat)
    requires
        j <= k,
    ensures
        p256(j) <= p256(k),
        p256(j) >= 1,
    decreases k,
{
    if j < k {
        lemma_p256_monotone(j, (k - 1) as nat);
    } else if k > 0 {
        lemma_p256_monotone((j - 1) as nat, (k - 1) as nat);
    }
}

/// A big-endian integer is bounded below and above by its leading byte.
pub proof fn lemma_be_uint_hi(s: Seq<u8>)
    requires
        s.len() >= 1,
    ensures
        s[0] * p256((s.len() - 1) as nat) <= be_uint(s) < (s[0] + 1) * p256(
            (s.len() - 1) as nat,
        ),
    decreases s.len(),
{
    if s.len() == 1 {
        assert(be_uint(s) == be_uint(s.drop_last()) * 256 + s[0]);
        assert(be_uint(s.drop_last()) == 0);
    } else {
        let p = s.drop_last();
        lemma_be_uint_hi(p);
        assert(p[0] == s[0]);
        let m = (p.len() - 1) as nat;
        assert(p256((s.len() - 1) as nat) == 256 * p256(m));
        assert(be_uint(s) == be_uint(p) * 256 + s[s.len() - 1]);
        assert(be_uint(p) * 256 >= (s[0] * p256(m)) * 256) by (nonlinear_arith)
            requires be_uint(p) >= s[0] * p256(m),
        ;
        assert(be_uint(p) * 256 <= ((s[0] + 1) * p256(m) - 1) * 256) by (nonlinear_arith)
            requires be_uint(p) <= (s[0] + 1) * p256(m) - 1,
        ;
        assert((s[0] * p256(m)) * 256 == s[0] * (256 * p256(m))) by (nonlinear_arith);
        assert(((s[0] + 1) * p256(m)) * 256 == (s[0] + 1) * (256 * p256(m)))
            by (nonlinear_arith);
    }
}

/// Whether the string holds the character `c`.
fn str_contains_char(s: &str, c: char) -> (r: bool)
    ensures
        r == s@.contains(c),
{
    let n = s.unicode_len();
    let mut k: usize = 0;
    while k < n
        invariant
            n == s@.len(),
            0 <= k <= n,
            forall|j: int| 0 <= j < k ==> s@[j] != c,
        decreases n - k,
    {
        if s.get_char(k) == c {
            proof {
                assert(s@[k as int] == c);
            }
            return true;
        }
        k = k + 1;
    }
    proof {
        if s@.contains(c) {
            let j = choose|j: int| 0 <= j < s@.len() && (#[trigger] s@[j]) == c;
            assert(false);
        }
    }
    false
}

impl ColumnValue {
    /// The payload bytes of a text or binary column value; a null or
    /// unchanged-toast value has none to give.
    pub fn as_bytes(&self) -> (r: Result<&Vec<u8>, ParseError>)
        ensures
            match self {
                ColumnValue::Text { data, .. } => r == Ok::<&Vec<u8>, ParseError>(data),
                ColumnValue::Binary { data, .. } => r == Ok::<&Vec<u8>, ParseError>(data),
                _ => r == Err::<&Vec<u8>, ParseError>(ParseError::InvalidColumnKind),
            },
    {
        match self {
            ColumnValue::Text { data, .. } => Ok(data),
            ColumnValue::Binary { data, .. } => Ok(data),
            _ => Err(ParseError::InvalidColumnKind),
        }
    }

    /// The payload of a text or binary column value, decoded as UTF-8.
    pub fn as_str(&self) -> (r: Result<String, ParseError>)
        ensures
            match self {
                ColumnValue::Text { data, .. } => {
                    if vstd::utf8::valid_utf8(data@) {
                        r matches Ok(st) && st@ == vstd::utf8::decode_utf8(data@)
                    } else {
                        r == Err::<String, ParseError>(ParseError::Utf8Error)
                    }
                },
                ColumnValue::Binary { data, .. } => {
                    if vstd::utf8::valid_utf8(data@) {
                        r matches Ok(st) && st@ == vstd::utf8::decode_utf8(data@)
                    } else {
                        r == Err::<String, ParseError>(ParseError::Utf8Error)
                    }
                },
                _ => r == Err::<String, ParseError>(ParseError::InvalidColumnKind),
            },
    {
        let bytes = match self.as_bytes() {
            Ok(b) => b,
            Err(e) => {
                return Err(e);
            },
        };
        match crate::pgoutput::bytes_to_string(bytes) {
            Some(st) => Ok(st),
            None => Err(ParseError::Utf8Error),
        }
    }
}

/// Decodes an integer column value: the text form as ASCII decimal, the
/// binary form as a variable-width big-endian signed integer.
pub fn decode_i64(value: &ColumnValue) -> (r: Result<i64, ParseError>)
    ensures
        match value {
            ColumnValue::Text { data, .. } => {
                match dec_i64_of(data@) {
                    Some(v) => r == Ok::<i64, ParseError>(v),
                    None => {
                        if vstd::utf8::valid_utf8(data@) {
                            r == Err::<i64, ParseError>(ParseError::ParseIntError)
                        } else {
                            r == Err::<i64, ParseError>(ParseError::Utf8Error)
                        }
                    },
                }
            },
            ColumnValue::Binary { data, .. } => {
                if 1 <= data@.len() <= 8 {
                    r == Ok::<i64, ParseError>(be_int_signed(data@) as i64)
                } else {
                    r == Err::<i64, ParseError>(ParseError::InvalidWidth)
                }
            },
            _ => r == Err::<i64, ParseError>(ParseError::InvalidColumnKind),
        },
{
    match value {
        ColumnValue::Text { data, .. } => {
            match parse_dec_i64(data) {
                Some(v) => Ok(v),
                None => {
                    match crate::pgoutput::bytes_to_string(data) {
                        Some(_) => Err(ParseError::ParseIntError),
                        None => Err(ParseError::Utf8Error),
                    }
                },
            }
        },
        ColumnValue::Binary { data, .. } => {
            match parse_be_i64(data) {
                Some(v) => Ok(v),
                None => Err(ParseError::InvalidWidth),
            }
        },
        _ => Err(ParseError::InvalidColumnKind),
    }
}

/// Decodes a timestamp column value: the text form under one of two
/// patterns, chosen by the presence of a time-zone suffix; the binary form
/// as microseconds since the PostgreSQL epoch, taken at second precision.
pub fn decode_time(value: &ColumnValue) -> (r: Result<Time, ParseError>)
    ensures
        match value {
            ColumnValue::Text { data, .. } => {
                if vstd::utf8::valid_utf8(data@) {
                    ({
                        let chars = vstd::utf8::decode_utf8(data@);
                        match pg_text_secs(chars, chars.contains('+')) {
                            Some(secs) => r == Ok::<Time, ParseError>(Time(secs)),
                            None => r == Err::<Time, ParseError>(ParseError::ChronoParseError),
                        }
                    })
                } else {
                    r == Err::<Time, ParseError>(ParseError::Utf8Error)
                }
            },
            ColumnValue::Binary { data, .. } => {
                if 1 <= data@.len() <= 8 {
                    r matches Ok(t) && t.0 == crate::time::POSTGRES_EPOCH_SECS
                        + crate::time::trunc_div_million(be_int_signed(data@) as i64)
                } else {
                    r == Err::<Time, ParseError>(ParseError::InvalidWidth)
                }
            },
            _ => r == Err::<Time, ParseError>(ParseError::InvalidColumnKind),
        },
{
    match value {
        ColumnValue::Text { .. } => {
            let st = match value.as_str() {
                Ok(st) => st,
                Err(e) => {
                    return Err(e);
                },
            };
            let with_tz = str_contains_char(st.as_str(), '+');
            match parse_pg_text_secs(st.as_str(), with_tz) {
                Some(secs) => Ok(Time(secs)),
                None => Err(ParseError::ChronoParseError),
            }
        },
        ColumnValue::Binary { data, .. } => {
            match parse_be_i64(data) {
                Some(us) => Ok(Time::from_microseconds_since_postgres_epoch(us)),
                None => Err(ParseError::InvalidWidth),
            }
        },
        _ => Err(ParseError::InvalidColumnKind),
    }
}

/// Decodes an entity-typed column value: an integer id wrapped in the
/// entity's newtype. It succeeds exactly where the integer decoder does
/// and hands on exactly its error; what the wrapping yields is the
/// implementing type's business.
pub fn decode_entity<T: EntityRef>(value: &ColumnValue) -> (r: Result<T, ParseError>)
    ensures
        match value {
            ColumnValue::Text { data, .. } => {
                match dec_i64_of(data@) {
                    Some(_) => r is Ok,
                    None => {
                        if vstd::utf8::valid_utf8(data@) {
                            r == Err::<T, ParseError>(ParseError::ParseIntError)
                        } else {
                            r == Err::<T, ParseError>(ParseError::Utf8Error)
                        }
                    },
                }
            },
            ColumnValue::Binary { data, .. } => {
                if 1 <= data@.len() <= 8 {
                    r is Ok
                } else {
                    r == Err::<T, ParseError>(ParseError::InvalidWidth)
                }
            },
            _ => r == Err::<T, ParseError>(ParseError::InvalidColumnKind),
        },
{
    match decode_i64(value) {
        Ok(id) => Ok(T::from_entity_id(id)),
        Err(e) => Err(e),
    }
}

impl<T: EntityRef> Decode for T {
    fn decode(value: &ColumnValue) -> Result<T, ParseError> {
        decode_entity(value)
    }
}

impl Decode for i64 {
    fn decode(value: &ColumnValue) -> Result<i64, ParseError> {
        decode_i64(value)
    }
}

impl Decode for Time {
    fn decode(value: &ColumnValue) -> Result<Time, ParseError> {
        decode_time(value)
    }
}

} // verus!
