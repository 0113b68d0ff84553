use bigdecimal::num_bigint::{BigInt, Sign};
use bigdecimal::ToPrimitive;
use vstd::prelude::*;

verus! {

/// A PostgreSQL NUMERIC value decoded from the binary wire format: the sign,
/// the base-10 digits of the unscaled magnitude (most significant first) and
/// the declared scale. The value is `±digits / 10^scale`.
pub struct PgNumeric {
    pub negative: bool,
    pub digits: Vec<u8>,
    pub scale: u16,
}

/// Why a byte sequence is not a NUMERIC value.
#[derive(Debug, PartialEq, Eq)]
pub enum NumericError {
    /// The bytes are not a well-formed binary NUMERIC.
    FailedToParseBigDecimalFromPostgres { bytes: Vec<u8> },
}

pub const SIGN_POSITIVE: u16 = 0x0000;

pub const SIGN_NEGATIVE: u16 = 0x4000;

/// The `i`-th big-endian 16-bit word of `raw`.
pub open spec fn word_at(raw: Seq<u8>, i: int) -> u16 {
    (raw[2 * i] as nat * 256 + raw[2 * i + 1] as nat) as u16
}

/// `raw`, of even length, read as big-endian 16-bit words.
pub open spec fn be_words(raw: Seq<u8>) -> Seq<u16> {
    Seq::new(raw.len() / 2, |i: int| word_at(raw, i))
}

/// A 16-bit word read as a two's complement signed number.
pub open spec fn signed16(w: u16) -> int {
    if w < 32768 {
        w as int
    } else {
        w as int - 65536
    }
}

/// The four decimal digits of a base-10000 digit, zero-padded.
pub open spec fn four_digits(w: nat) -> Seq<u8> {
    seq![(w / 1000) as u8, ((w / 100) % 10) as u8, ((w / 10) % 10) as u8, (w % 10) as u8]
}

/// Base-10000 digits expanded into base-10 digits, four for each.
pub open spec fn expand(ws: Seq<u16>) -> Seq<u8>
    decreases ws.len(),
{
    if ws.len() == 0 {
        Seq::empty()
    } else {
        expand(ws.drop_last()) + four_digits(ws.last() as nat)
    }
}

/// `s` cut to length `n`, or padded on the right with zeros to it.
pub open spec fn resized(s: Seq<u8>, n: nat) -> Seq<u8> {
    if n <= s.len() {
        s.take(n as int)
    } else {
        s + Seq::new((n - s.len()) as nat, |i: int| 0u8)
    }
}

/// The number written by decimal digits, most significant first.
pub open spec fn digits_value(s: Seq<u8>) -> nat
    decreases s.len(),
{
    if s.len() == 0 {
        0
    } else {
        digits_value(s.drop_last()) * 10 + s.last() as nat
    }
}

/// The decoding of a binary NUMERIC: the sign, the unscaled digits and the
/// scale, or `None` where the bytes are malformed (not whole 16-bit words,
/// fewer than four header words, fewer digit words than announced, a digit above 9999, a sign word
/// other than `0x0000` or `0x4000`, or a weight that leaves fewer digits than none).
pub open spec fn numeric_decode(raw: Seq<u8>) -> Option<(bool, Seq<u8>, u16)> {
    let w = be_words(raw);
    if raw.len() % 2 != 0 || w.len() < 4 {
        None
    } else {
        let n = w[0] as int;
        let weight = signed16(w[1]);
        let sign = w[2];
        let dscale = w[3];
        let size = dscale + 4 * (weight + 1);
        if 4 + n > w.len() {
            None
        } else if exists|i: int| 4 <= i < 4 + n && w[i] > 9999 {
            None
        } else if sign != SIGN_POSITIVE && sign != SIGN_NEGATIVE {
            None
        } else if size < 0 {
            None
        } else {
            Some((sign == SIGN_NEGATIVE, resized(expand(w.subrange(4, 4 + n)), size as nat), dscale))
        }
    }
}

/// The number that a sign and decimal digits write.
pub open spec fn signed_value(negative: bool, digits: Seq<u8>) -> int {
    if negative {
        -(digits_value(digits) as int)
    } else {
        digits_value(digits) as int
    }
}

/// Every element is a decimal digit.
pub open spec fn all_decimal(digits: Seq<u8>) -> bool {
    forall|i: int| 0 <= i < digits.len() ==> digits[i] < 10
}

pub open spec fn fits_i128(v: int) -> bool {
    i128::MIN <= v <= i128::MAX
}

/// Relies on num-bigint's `BigInt::from_radix_be` (re-exported by bigdecimal),
/// which gives `None` when a digit is not below the radix and otherwise the
/// number that the digits write, with the sign; and on `ToPrimitive::to_i128`,
/// which gives that number when it fits in `i128`.
#[verifier::external_body]
fn digits_to_i128(negative: bool, digits: &Vec<u8>) -> (r: Option<i128>)
    ensures
        r == (if all_decimal(digits@) && fits_i128(signed_value(negative, digits@)) {
            Some(signed_value(negative, digits@) as i128)
        } else {
            None
        }),
{
    let sign = if negative { Sign::Minus } else { Sign::Plus };
    match BigInt::from_radix_be(sign, digits.as_slice(), 10) {
        Some(b) => b.to_i128(),
        None => None,
    }
}

impl PgNumeric {
    /// The unscaled value, with its sign.
    pub open spec fn unscaled(&self) -> int {
        signed_value(self.negative, self.digits@)
    }

    pub open spec fn wf(&self) -> bool {
        all_decimal(self.digits@)
    }

    /// The unscaled value as an `i128`, or `None` where it does not fit.
    pub fn to_decimal_128(&self) -> (r: Option<i128>)
        ensures
            r == (if self.wf() && fits_i128(self.unscaled()) {
                Some(self.unscaled() as i128)
            } else {
                None
            }),
    {
        digits_to_i128(self.negative, &self.digits)
    }

    /// NUMERIC is the one type this decoder reads.
    pub fn accepts(t: &crate::pg_types::PgType) -> (r: bool)
        ensures
            r == (*t is Numeric),
    {
        matches!(t, crate::pg_types::PgType::Numeric)
    }

    pub fn scale(&self) -> (r: u16)
        ensures
            r == self.scale,
    {
        self.scale
    }
}

fn read_words(raw: &Vec<u8>) -> (r: Vec<u16>)
    requires
        raw@.len() % 2 == 0,
    ensures
        r@ == be_words(raw@),
{
    let mut words: Vec<u16> = Vec::new();
    let mut b: usize = 0;
    while b + 1 < raw.len()
        invariant
            b % 2 == 0,
            b <= raw@.len(),
            words@.len() == b / 2,
            forall|j: int| 0 <= j < b / 2 ==> words@[j] == word_at(raw@, j),
        decreases raw@.len() - b,
    {
        let w: u16 = raw[b] as u16 * 256 + raw[b + 1] as u16;
        assert(w == word_at(raw@, b as int / 2));
        words.push(w);
        b = b + 2;
    }
    assert(words@ =~= be_words(raw@));
    words
}

fn push_four_digits(out: &mut Vec<u8>, w: u16)
    requires
        w <= 9999,
    ensures
        final(out)@ == old(out)@ + four_digits(w as nat),
{
    out.push((w / 1000) as u8);
    out.push(((w / 100) % 10) as u8);
    out.push(((w / 10) % 10) as u8);
    out.push((w % 10) as u8);
    assert(final(out)@ =~= old(out)@ + four_digits(w as nat));
}

impl PgNumeric {
    /// Decodes a PostgreSQL binary NUMERIC.
    pub fn from_sql(raw: &Vec<u8>) -> (r: Result<PgNumeric, NumericError>)
        ensures
            match r {
                Ok(v) => numeric_decode(raw@) == Some((v.negative, v.digits@, v.scale)) && v.wf(),
                Err(e) => numeric_decode(raw@) is None && match e {
                    NumericError::FailedToParseBigDecimalFromPostgres { bytes } => bytes@ == raw@,
                },
            },
    {
        if raw.len() % 2 != 0 {
            return Err(NumericError::FailedToParseBigDecimalFromPostgres { bytes: raw.clone() });
        }
        let words = read_words(raw);
        if words.len() < 4 {
            return Err(NumericError::FailedToParseBigDecimalFromPostgres { bytes: raw.clone() });
        }
        let n = words[0] as usize;
        let w1 = words[1];
        let weight: i64 = if w1 < 32768 {
            w1 as i64
        } else {
            w1 as i64 - 65536
        };
        let sign = words[2];
        let dscale = words[3];
        if words.len() < 4 + n {
            return Err(NumericError::FailedToParseBigDecimalFromPostgres { bytes: raw.clone() });
        }
        let ghost ws = words@.subrange(4, 4 + n as int);
        let mut expanded: Vec<u8> = Vec::new();
        let mut i: usize = 0;
        while i < n
            invariant
                words@ == be_words(raw@),
                n == words@[0] as usize,
                4 + n <= words@.len(),
                ws == words@.subrange(4, 4 + n as int),
                i <= n,
                expanded@ == expand(ws.take(i as int)),
                forall|j: int| 4 <= j < 4 + i ==> words@[j] <= 9999,
            decreases n - i,
        {
            assert(4 + i < words@.len());
            let d = words[4 + i];
            if d > 9999 {
                assert(be_words(raw@)[4 + i as int] > 9999);
                assert(exists|j: int| 4 <= j < 4 + n && be_words(raw@)[j] > 9999);
                return Err(NumericError::FailedToParseBigDecimalFromPostgres { bytes: raw.clone() });
            }
            push_four_digits(&mut expanded, d);
            proof {
                assert(ws.take(i + 1).drop_last() =~= ws.take(i as int));
            }
            i = i + 1;
        }
        assert(ws.take(n as int) =~= ws);
        proof {
            assert forall|j: int| 0 <= j < ws.len() implies ws[j] <= 9999 by {
                assert(ws[j] == words@[4 + j]);
            }
            lemma_expand(ws);
        }
        if sign != SIGN_POSITIVE && sign != SIGN_NEGATIVE {
            return Err(NumericError::FailedToParseBigDecimalFromPostgres { bytes: raw.clone() });
        }
        let size: i64 = dscale as i64 + 4 * (weight + 1);
        if size < 0 {
            return Err(NumericError::FailedToParseBigDecimalFromPostgres { bytes: raw.clone() });
        }
        let size = size as usize;
        let ghost full = expanded@;
        let mut digits: Vec<u8> = Vec::new();
        let mut k: usize = 0;
        while k < size
            invariant
                full == expanded@,
                k <= size,
                digits@ == resized(full, size as nat).take(k as int),
            decreases size - k,
        {
            if k < expanded.len() {
                digits.push(expanded[k]);
            } else {
                digits.push(0);
            }
            assert(digits@ =~= resized(full, size as nat).take(k + 1));
            k = k + 1;
        }
        assert(digits@ =~= resized(full, size as nat));
        assert forall|j: int| 0 <= j < digits@.len() implies digits@[j] < 10 by {
            if j < full.len() {
                assert(digits@[j] == full[j]);
            }
        }
        Ok(PgNumeric { negative: sign == SIGN_NEGATIVE, digits, scale: dscale })
    }
}

/// A NUMERIC whose sign word is neither `0x0000` nor `0x4000` does not decode.
pub proof fn lemma_numeric_sign_rejection(raw: Seq<u8>)
    requires
        be_words(raw).len() >= 4,
        be_words(raw)[2] != SIGN_POSITIVE,
        be_words(raw)[2] != SIGN_NEGATIVE,
    ensures
        numeric_decode(raw) is None,
{
}

pub open spec fn pow10(k: nat) -> nat
    decreases k,
{
    if k == 0 {
        1
    } else {
        10 * pow10((k - 1) as nat)
    }
}

/// The number written by base-10000 digits, most significant first.
pub open spec fn words_value(ws: Seq<u16>) -> nat
    decreases ws.len(),
{
    if ws.len() == 0 {
        0
    } else {
        words_value(ws.drop_last()) * 10000 + ws.last() as nat
    }
}

/// The base-10000 digits of `m`, most significant first, none for zero.
pub open spec fn base10000(m: nat) -> Seq<u16>
    decreases m,
{
    if m == 0 {
        Seq::empty()
    } else {
        base10000(m / 10000).push((m % 10000) as u16)
    }
}

/// Words laid out as big-endian bytes.
pub open spec fn words_to_bytes(ws: Seq<u16>) -> Seq<u8>
    decreases ws.len(),
{
    if ws.len() == 0 {
        Seq::empty()
    } else {
        words_to_bytes(ws.drop_last()) + seq![(ws.last() / 256) as u8, (ws.last() % 256) as u8]
    }
}

/// Words without their trailing zero words.
pub open spec fn strip_trailing_zeros(ws: Seq<u16>) -> Seq<u16>
    decreases ws.len(),
{
    if ws.len() > 0 && ws.last() == 0 {
        strip_trailing_zeros(ws.drop_last())
    } else {
        ws
    }
}

pub open spec fn abs(u: int) -> nat {
    if u < 0 {
        (-u) as nat
    } else {
        u as nat
    }
}

/// The binary NUMERIC that PostgreSQL sends for the decimal `u / 10^s`: the
/// magnitude is scaled up to a whole number of base-10000 fraction digits.
pub open spec fn numeric_encode(u: int, s: nat) -> Seq<u8> {
    let f = 4 * ((s + 3) / 4);
    let m = abs(u) * pow10((f - s) as nat);
    let ds = base10000(m);
    let weight: int = if m == 0 {
        0
    } else {
        ds.len() - 1 - f / 4
    };
    let weight_word: u16 = if weight < 0 {
        (weight + 65536) as u16
    } else {
        weight as u16
    };
    let sign: u16 = if u < 0 {
        SIGN_NEGATIVE
    } else {
        SIGN_POSITIVE
    };
    words_to_bytes(seq![ds.len() as u16, weight_word, sign, s as u16] + ds)
}

/// The binary NUMERIC as PostgreSQL sends it: as `numeric_encode`, but
/// without trailing zero base-10000 digits (10000 is the one digit 1 with
/// weight 1). The weight stays that of the first digit.
pub open spec fn numeric_encode_stripped(u: int, s: nat) -> Seq<u8> {
    let f = 4 * ((s + 3) / 4);
    let m = abs(u) * pow10((f - s) as nat);
    let ds = base10000(m);
    let st = strip_trailing_zeros(ds);
    let weight: int = if m == 0 {
        0
    } else {
        ds.len() - 1 - f / 4
    };
    let weight_word: u16 = if weight < 0 {
        (weight + 65536) as u16
    } else {
        weight as u16
    };
    let sign: u16 = if u < 0 {
        SIGN_NEGATIVE
    } else {
        SIGN_POSITIVE
    };
    words_to_bytes(seq![st.len() as u16, weight_word, sign, s as u16] + st)
}

proof fn lemma_strip_trailing_zeros(ws: Seq<u16>)
    ensures
        strip_trailing_zeros(ws).len() <= ws.len(),
        strip_trailing_zeros(ws) == ws.take(strip_trailing_zeros(ws).len() as int),
        words_value(ws) == words_value(strip_trailing_zeros(ws)) * pow10((4 * (ws.len() - strip_trailing_zeros(ws).len())) as nat),
    decreases ws.len(),
{
    let st = strip_trailing_zeros(ws);
    if ws.len() > 0 && ws.last() == 0 {
        let w1 = ws.drop_last();
        lemma_strip_trailing_zeros(w1);
        assert(st == strip_trailing_zeros(w1));
        assert(st =~= ws.take(st.len() as int)) by {
            assert forall|i: int| 0 <= i < st.len() implies st[i] == ws[i] by {
                assert(w1.take(st.len() as int)[i] == w1[i]);
            }
        }
        let z1 = (4 * (w1.len() - st.len())) as nat;
        lemma_pow10_add(z1, 4);
        lemma_pow10_four();
        assert((4 * (ws.len() - st.len())) as nat == z1 + 4);
        let a = words_value(st);
        let p = pow10(z1);
        assert(words_value(ws) == words_value(w1) * 10000);
        assert((a * p) * 10000 == a * (p * 10000)) by (nonlinear_arith);
    } else {
        assert(ws.take(ws.len() as int) =~= ws);
        assert(pow10(0) == 1);
        assert(words_value(ws) * 1 == words_value(ws));
    }
}

/// Decoding what PostgreSQL actually sends, with trailing zero digit words
/// left out, also gives the decimal back.
pub proof fn lemma_numeric_round_trip_stripped(u: int, s: nat)
    requires
        abs(u) < pow10(131000),
        s <= 16383,
    ensures
        match numeric_decode(numeric_encode_stripped(u, s)) {
            Some((negative, digits, scale)) => signed_value(negative, digits) == u && scale == s
                && all_decimal(digits),
            None => false,
        },
{
    let f = 4 * ((s + 3) / 4);
    let k = (f - s) as nat;
    assert(0 <= f - s <= 3);
    let m = abs(u) * pow10(k);
    let ds = base10000(m);
    let st = strip_trailing_zeros(ds);
    lemma_strip_trailing_zeros(ds);
    if st == ds {
        assert(numeric_encode_stripped(u, s) == numeric_encode(u, s));
        lemma_numeric_round_trip(u, s);
        return;
    }
    lemma_pow10_positive(k);
    lemma_pow10_add(131000, k);
    lemma_pow10_add(131000 + k, (131004 - 131000 - k) as nat);
    lemma_pow10_positive((131004 - 131000 - k) as nat);
    assert(m < pow10(4 * 32751)) by (nonlinear_arith)
        requires
            abs(u) < pow10(131000),
            m == abs(u) * pow10(k),
            pow10(131000 + k) == pow10(131000) * pow10(k),
            pow10(131004) == pow10(131000 + k) * pow10((131004 - 131000 - k) as nat),
            pow10((131004 - 131000 - k) as nat) >= 1,
            pow10(k) >= 1,
    ;
    lemma_base10000(m, 32751);
    let n = ds.len();
    let p = st.len();
    assert(ds.take(n as int) =~= ds);
    assert(p < n);
    // m > 0: base10000 of zero is empty, and then nothing is stripped.
    assert(m != 0);
    let weight: int = n - 1 - f / 4;
    let weight_word: u16 = if weight < 0 {
        (weight + 65536) as u16
    } else {
        weight as u16
    };
    let sign: u16 = if u < 0 {
        SIGN_NEGATIVE
    } else {
        SIGN_POSITIVE
    };
    let header = seq![p as u16, weight_word, sign, s as u16];
    let ws = header + st;
    lemma_be_words_of_bytes(ws);
    assert(numeric_encode_stripped(u, s) == words_to_bytes(ws));
    let w = be_words(numeric_encode_stripped(u, s));
    assert(w == ws);
    assert(w[0] == p);
    assert(signed16(w[1]) == weight);
    assert(w[2] == sign);
    assert(w[3] == s);
    assert(w.subrange(4, 4 + p as int) =~= st);
    assert forall|i: int| 0 <= i < st.len() implies st[i] <= 9999 by {
        assert(st[i] == ds[i]);
    }
    assert forall|i: int| 4 <= i < 4 + p implies !(w[i] > 9999) by {
        assert(w[i] == st[i - 4]);
    }
    lemma_expand(st);
    let e = expand(st);
    let size = s + 4 * (weight + 1);
    assert(size == 4 * n - k);
    let z = (n - p) as nat;
    let pad = (size - 4 * p) as nat;
    assert(pad == 4 * z - k);
    assert(resized(e, size as nat) == e + Seq::new(pad, |i: int| 0u8));
    lemma_digits_concat(e, Seq::new(pad, |i: int| 0u8));
    lemma_zeros(pad);
    let big_w = words_value(st);
    lemma_pow10_add(pad, k);
    assert(pad + k == 4 * z);
    lemma_pow10_positive(k);
    assert(big_w * pow10(pad) == abs(u)) by (nonlinear_arith)
        requires
            m == big_w * pow10(4 * z),
            m == abs(u) * pow10(k),
            pow10(4 * z) == pow10(pad) * pow10(k),
            pow10(k) >= 1,
    ;
    let digits = resized(e, size as nat);
    assert(all_decimal(digits)) by {
        assert forall|i: int| 0 <= i < digits.len() implies digits[i] < 10 by {
            if i < e.len() {
                assert(digits[i] == e[i]);
            }
        }
    }
}

pub proof fn lemma_pow10_add(a: nat, b: nat)
    ensures
        pow10(a + b) == pow10(a) * pow10(b),
    decreases b,
{
    if b == 0 {
        assert(pow10(0) == 1);
        assert(a + b == a);
    } else {
        let b1 = (b - 1) as nat;
        let c = a + b1;
        lemma_pow10_add(a, b1);
        assert(a + b == c + 1);
        assert(pow10(c + 1) == 10 * pow10(c));
        assert(pow10(b) == 10 * pow10(b1));
        let pa = pow10(a);
        let pb1 = pow10(b1);
        assert(10 * (pa * pb1) == pa * (10 * pb1)) by (nonlinear_arith);
    }
}

proof fn lemma_pow10_four()
    ensures
        pow10(4) == 10000,
{
    assert(pow10(0) == 1);
    assert(pow10(1) == 10);
    assert(pow10(2) == 100);
    assert(pow10(3) == 1000);
}

proof fn lemma_pow10_positive(k: nat)
    ensures
        pow10(k) >= 1,
    decreases k,
{
    if k > 0 {
        lemma_pow10_positive((k - 1) as nat);
    }
}

proof fn lemma_words_to_bytes(ws: Seq<u16>)
    ensures
        words_to_bytes(ws).len() == 2 * ws.len(),
        forall|j: int|
            0 <= j < 2 * ws.len() ==> #[trigger] words_to_bytes(ws)[j] == if j % 2 == 0 {
                (ws[j / 2] / 256) as u8
            } else {
                (ws[j / 2] % 256) as u8
            },
    decreases ws.len(),
{
    if ws.len() > 0 {
        let w1 = ws.drop_last();
        lemma_words_to_bytes(w1);
        let b1 = words_to_bytes(w1);
        let b = words_to_bytes(ws);
        let tail = seq![(ws.last() / 256) as u8, (ws.last() % 256) as u8];
        assert(b == b1 + tail);
        assert forall|j: int| 0 <= j < 2 * ws.len() implies #[trigger] b[j] == if j % 2 == 0 {
            (ws[j / 2] / 256) as u8
        } else {
            (ws[j / 2] % 256) as u8
        } by {
            if j < 2 * w1.len() {
                assert(b[j] == b1[j]);
                assert(w1[j / 2] == ws[j / 2]);
            } else {
                assert(b[j] == tail[j - 2 * w1.len()]);
                assert(j / 2 == ws.len() - 1);
            }
        }
    }
}

proof fn lemma_be_words_of_bytes(ws: Seq<u16>)
    ensures
        be_words(words_to_bytes(ws)) == ws,
        words_to_bytes(ws).len() % 2 == 0,
{
    lemma_words_to_bytes(ws);
    let b = words_to_bytes(ws);
    assert forall|i: int| 0 <= i < ws.len() implies #[trigger] be_words(b)[i] == ws[i] by {
        let w = ws[i];
        assert(b[2 * i] == (w / 256) as u8);
        assert(b[2 * i + 1] == (w % 256) as u8);
        assert(((w / 256) as u8) as nat * 256 + ((w % 256) as u8) as nat == w as nat) by (bit_vector);
    }
    assert(be_words(b) =~= ws);
}

proof fn lemma_digits_concat(a: Seq<u8>, b: Seq<u8>)
    ensures
        digits_value(a + b) == digits_value(a) * pow10(b.len()) + digits_value(b),
    decreases b.len(),
{
    if b.len() == 0 {
        assert(a + b =~= a);
        assert(pow10(0) == 1);
        assert(digits_value(b) == 0);
        assert(digits_value(a) * 1 == digits_value(a));
    } else {
        let b1 = b.drop_last();
        assert((a + b).drop_last() =~= a + b1);
        assert((a + b).last() == b.last());
        assert(b1.len() == (b.len() - 1) as nat);
        lemma_digits_concat(a, b1);
        let x = digits_value(a);
        let y = digits_value(b1);
        let p = pow10(b1.len());
        let l = b.last() as nat;
        assert(digits_value(a + b) == (x * p + y) * 10 + l);
        assert(pow10(b.len()) == 10 * p);
        assert((x * p + y) * 10 + l == x * (10 * p) + (y * 10 + l)) by (nonlinear_arith);
    }
}

proof fn lemma_digits_bound(s: Seq<u8>)
    requires
        all_decimal(s),
    ensures
        digits_value(s) < pow10(s.len()),
    decreases s.len(),
{
    if s.len() > 0 {
        let s1 = s.drop_last();
        assert(all_decimal(s1)) by {
            assert forall|i: int| 0 <= i < s1.len() implies s1[i] < 10 by {
                assert(s1[i] == s[i]);
            }
        }
        lemma_digits_bound(s1);
        let x = digits_value(s1);
        let p = pow10(s1.len());
        let l = s.last() as nat;
        assert(l < 10);
        assert(x * 10 + l < 10 * p) by (nonlinear_arith)
            requires
                x < p,
                l < 10,
        ;
    }
}

proof fn lemma_zeros(n: nat)
    ensures
        digits_value(Seq::new(n, |i: int| 0u8)) == 0,
    decreases n,
{
    if n > 0 {
        lemma_zeros((n - 1) as nat);
        assert(Seq::new(n, |i: int| 0u8).drop_last() =~= Seq::new((n - 1) as nat, |i: int| 0u8));
    }
}

proof fn lemma_four_digits(w: u16)
    requires
        w <= 9999,
    ensures
        digits_value(four_digits(w as nat)) == w,
        all_decimal(four_digits(w as nat)),
{
    let f = four_digits(w as nat);
    reveal_with_fuel(digits_value, 5);
    assert(f.drop_last().drop_last().drop_last().drop_last() =~= Seq::<u8>::empty());
    assert(f.drop_last().drop_last().drop_last() =~= seq![(w / 1000) as u8]);
    assert(f.drop_last().drop_last() =~= seq![(w / 1000) as u8, ((w / 100) % 10) as u8]);
    assert(f.drop_last() =~= seq![(w / 1000) as u8, ((w / 100) % 10) as u8, ((w / 10) % 10) as u8]);
    assert(((((w / 1000) as u8) as nat * 10 + (((w / 100) % 10) as u8) as nat) * 10 + (((w / 10) % 10) as u8) as nat) * 10
        + ((w % 10) as u8) as nat == w as nat) by (bit_vector)
        requires
            w <= 9999,
    ;
    assert(((w / 1000) as u8) < 10 && (((w / 100) % 10) as u8) < 10 && (((w / 10) % 10) as u8) < 10 && ((w % 10) as u8) < 10) by (bit_vector)
        requires
            w <= 9999,
    ;
}

proof fn lemma_expand(ws: Seq<u16>)
    requires
        forall|i: int| 0 <= i < ws.len() ==> ws[i] <= 9999,
    ensures
        expand(ws).len() == 4 * ws.len(),
        digits_value(expand(ws)) == words_value(ws),
        all_decimal(expand(ws)),
    decreases ws.len(),
{
    if ws.len() > 0 {
        let w1 = ws.drop_last();
        assert forall|i: int| 0 <= i < w1.len() implies w1[i] <= 9999 by {
            assert(w1[i] == ws[i]);
        }
        lemma_expand(w1);
        lemma_four_digits(ws.last());
        lemma_digits_concat(expand(w1), four_digits(ws.last() as nat));
        lemma_pow10_four();
        let e = expand(ws);
        assert forall|i: int| 0 <= i < e.len() implies e[i] < 10 by {
            if i < expand(w1).len() {
                assert(e[i] == expand(w1)[i]);
            } else {
                assert(e[i] == four_digits(ws.last() as nat)[i - expand(w1).len()]);
            }
        }
    }
}

proof fn lemma_base10000(m: nat, k: nat)
    requires
        m < pow10(4 * k),
    ensures
        words_value(base10000(m)) == m,
        forall|i: int| 0 <= i < base10000(m).len() ==> base10000(m)[i] <= 9999,
        base10000(m).len() <= k,
        m > 0 ==> base10000(m).len() >= 1,
    decreases m,
{
    if m > 0 {
        let q = m / 10000;
        assert(k > 0) by {
            if k == 0 {
                assert(pow10(0) == 1);
            }
        }
        lemma_pow10_add(4, (4 * (k - 1)) as nat);
        lemma_pow10_four();
        assert(q < pow10((4 * (k - 1)) as nat)) by (nonlinear_arith)
            requires
                m < pow10(4 * k),
                pow10(4 * k) == 10000 * pow10((4 * (k - 1)) as nat),
                q == m / 10000,
        ;
        lemma_base10000(q, (k - 1) as nat);
        let ds = base10000(m);
        assert(ds.drop_last() == base10000(q));
        assert forall|i: int| 0 <= i < ds.len() implies ds[i] <= 9999 by {
            if i < ds.len() - 1 {
                assert(ds[i] == base10000(q)[i]);
            }
        }
    }
}

/// Decoding what PostgreSQL sends for a decimal gives that decimal back: for
/// an unscaled value `u` of fewer than 131000 digits (which every decimal
/// below 10^100000 has at any scale PostgreSQL allows) and a scale `s` within
/// PostgreSQL's limit, the decoder yields the sign and digits of `u` and the
/// scale `s`.
pub proof fn lemma_numeric_round_trip(u: int, s: nat)
    requires
        abs(u) < pow10(131000),
        s <= 16383,
    ensures
        match numeric_decode(numeric_encode(u, s)) {
            Some((negative, digits, scale)) => signed_value(negative, digits) == u && scale == s
                && all_decimal(digits),
            None => false,
        },
{
    let f = 4 * ((s + 3) / 4);
    let k = (f - s) as nat;
    assert(0 <= f - s <= 3);
    let m = abs(u) * pow10(k);
    let ds = base10000(m);
    lemma_pow10_positive(k);
    lemma_pow10_add(131000, k);
    lemma_pow10_add(131000 + k, (131004 - 131000 - k) as nat);
    lemma_pow10_positive((131004 - 131000 - k) as nat);
    assert(m < pow10(4 * 32751)) by (nonlinear_arith)
        requires
            abs(u) < pow10(131000),
            m == abs(u) * pow10(k),
            pow10(131000 + k) == pow10(131000) * pow10(k),
            pow10(131004) == pow10(131000 + k) * pow10((131004 - 131000 - k) as nat),
            pow10((131004 - 131000 - k) as nat) >= 1,
            pow10(k) >= 1,
    ;
    lemma_base10000(m, 32751);
    let n = ds.len();
    let weight: int = if m == 0 {
        0
    } else {
        n - 1 - f / 4
    };
    let weight_word: u16 = if weight < 0 {
        (weight + 65536) as u16
    } else {
        weight as u16
    };
    let sign: u16 = if u < 0 {
        SIGN_NEGATIVE
    } else {
        SIGN_POSITIVE
    };
    let header = seq![n as u16, weight_word, sign, s as u16];
    let ws = header + ds;
    lemma_be_words_of_bytes(ws);
    assert(numeric_encode(u, s) == words_to_bytes(ws));
    let w = be_words(numeric_encode(u, s));
    assert(w == ws);
    assert(w[0] == n);
    assert(signed16(w[1]) == weight);
    assert(w[2] == sign);
    assert(w[3] == s);
    assert(w.subrange(4, 4 + n as int) =~= ds);
    assert forall|i: int| 4 <= i < 4 + n implies !(w[i] > 9999) by {
        assert(w[i] == ds[i - 4]);
    }
    lemma_expand(ds);
    let e = expand(ds);
    let size = s + 4 * (weight + 1);
    if m == 0 {
        assert(u == 0) by (nonlinear_arith)
            requires
                m == abs(u) * pow10(k),
                pow10(k) >= 1,
                m == 0,
        ;
        assert(ds.len() == 0);
        assert(e.len() == 0);
        assert(resized(e, size as nat) =~= Seq::new(size as nat, |i: int| 0u8));
        lemma_zeros(size as nat);
    } else {
        assert(size == 4 * n - k);
        let t = e.take(size);
        assert(resized(e, size as nat) == t);
        assert(e =~= t + e.skip(size));
        lemma_digits_concat(t, e.skip(size));
        assert(all_decimal(e.skip(size))) by {
            assert forall|i: int| 0 <= i < e.skip(size).len() implies e.skip(size)[i] < 10 by {
                assert(e.skip(size)[i] == e[size + i]);
            }
        }
        lemma_digits_bound(e.skip(size));
        assert(e.skip(size).len() == k);
        let x = digits_value(t);
        let y = digits_value(e.skip(size));
        assert(x == abs(u)) by (nonlinear_arith)
            requires
                x * pow10(k) + y == abs(u) * pow10(k),
                y < pow10(k),
        ;
        assert(all_decimal(t)) by {
            assert forall|i: int| 0 <= i < t.len() implies t[i] < 10 by {
                assert(t[i] == e[i]);
            }
        }
    }
}

} // verus!
