//! Amounts of BZZ: 256-bit numbers of base units, sixteen decimals to a token.

use vstd::arithmetic::power2::pow2;
use vstd::prelude::*;
use vstd::string::StringSliceAdditionalSpecFns;
use vstd::utf8::is_char_boundary;

use crate::text::{dec, join2, repeated, shortfall};

verus! {

/// The number of decimals of BZZ.
pub const BZZ_DECIMALS: u8 = 16;

/// A number of base units below 2^256, in four words, the least significant
/// first.
#[derive(Clone, Copy, Debug, PartialEq, Eq)]
pub struct Amount {
    pub limbs: [u64; 4],
}

impl View for Amount {
    type V = nat;

    open spec fn view(&self) -> nat {
        self.limbs@[0] as nat + self.limbs@[1] as nat * pow2(64) + self.limbs@[2] as nat * pow2(128)
            + self.limbs@[3] as nat * pow2(192)
    }
}

/// `text` filled up on the left with zeros to `width` digits.
pub open spec fn zero_padded(text: Seq<char>, width: nat) -> Seq<char> {
    repeated('0', shortfall(text, width)) + text
}

/// The number of base units in a token.
pub open spec fn one_bzz() -> nat {
    10_000_000_000_000_000
}

/// An amount in tokens: the whole part, a point and sixteen decimals.
pub open spec fn bzz_text(v: nat) -> Seq<char> {
    dec(v / one_bzz()) + "."@ + zero_padded(dec(v % one_bzz()), 16)
}

/// The position of the first point in `b` from `i` on, or the length of `b`.
pub open spec fn point_from(b: Seq<u8>, i: nat) -> nat
    decreases b.len() - i,
{
    if i >= b.len() {
        b.len()
    } else if b[i as int] == 46 {
        i
    } else {
        point_from(b, i + 1)
    }
}

/// What stands before the first point.
pub open spec fn whole_part(b: Seq<u8>) -> Seq<u8> {
    b.take(point_from(b, 0) as int)
}

/// What stands behind the first point.
pub open spec fn decimals(b: Seq<u8>) -> Seq<u8> {
    if point_from(b, 0) < b.len() {
        b.skip(point_from(b, 0) as int + 1)
    } else {
        Seq::empty()
    }
}

/// Whether `b` consists of decimal digits, with underscores among them.
pub open spec fn is_number(b: Seq<u8>) -> bool {
    forall|i: int| 0 <= i < b.len() ==> 48 <= #[trigger] b[i] <= 57 || b[i] == 95
}

/// The number that the digits of `b` spell.
pub open spec fn number_value(b: Seq<u8>) -> nat
    decreases b.len(),
{
    if b.len() == 0 {
        0
    } else if b.last() == 95 {
        number_value(b.drop_last())
    } else {
        number_value(b.drop_last()) * 10 + (b.last() - 48) as nat
    }
}

/// Ten to the power of `n`.
pub open spec fn ten_to(n: nat) -> nat
    decreases n,
{
    if n == 0 {
        1
    } else {
        10 * ten_to((n - 1) as nat)
    }
}

/// The decimals that count: the first sixteen.
pub open spec fn kept_decimals(b: Seq<u8>) -> Seq<u8> {
    if decimals(b).len() > 16 {
        decimals(b).take(16)
    } else {
        decimals(b)
    }
}

/// Whether a text starts with a minus sign.
pub open spec fn is_signed(b: Seq<u8>) -> bool {
    b.len() > 0 && b[0] == 45
}

/// The digits of an amount: what stands before its point, and the decimals that
/// count, without a sign in front.
pub open spec fn amount_digits(b: Seq<u8>) -> Seq<u8> {
    let text = whole_part(b) + kept_decimals(b);
    if is_signed(b) {
        text.skip(1)
    } else {
        text
    }
}

/// The base units that an amount's digits stand for, its sign aside.
pub open spec fn amount_units(b: Seq<u8>) -> nat {
    number_value(amount_digits(b)) * ten_to((16 - kept_decimals(b).len()) as nat)
}

/// The base units in the text of an amount: a decimal number of tokens, whose
/// further decimals are dropped. What is no number, or does not fit in 256 bits,
/// has none. One with a minus sign stands for its two's complement.
pub open spec fn units_of(b: Seq<u8>) -> Option<nat> {
    let units = amount_units(b);
    if !is_number(amount_digits(b)) {
        None
    } else if !is_signed(b) {
        if units < pow2(256) {
            Some(units)
        } else {
            None
        }
    } else if units == 0 {
        Some(0)
    } else if units <= pow2(255) {
        Some((pow2(256) - units) as nat)
    } else {
        None
    }
}

/// Whether the text can be cut behind its sixteenth decimal without cutting a
/// character in two.
pub open spec fn can_cut(b: Seq<u8>) -> bool {
    decimals(b).len() > 16 ==> is_char_boundary(b, point_from(b, 0) as int + 17)
}

/// `alloy_primitives::utils::ParseUnits::parse_units` with sixteen decimals,
/// and the result's base units.
///
/// Trusted: the text's first point is taken out and its decimals behind the
/// sixteenth are dropped; what is left is a number in digits and underscores,
/// scaled to base units, and refused where it is none or does not fit. A
/// negative number comes out as its two's complement. A text that would be cut
/// within a character panics and is left out.
#[verifier::external_body]
fn parse_units(text: &str, decimals: u8) -> (r: Option<Amount>)
    requires
        decimals == 16,
        can_cut(text.spec_bytes()),
    ensures
        (match r {
            Some(a) => Some(a@),
            None => None,
        }) == units_of(text.spec_bytes()),
{
    let unit = alloy_primitives::utils::Unit::new(decimals).expect("a valid unit");
    let parsed = alloy_primitives::utils::ParseUnits::parse_units(text, unit).ok()?;
    let value: alloy_primitives::U256 = parsed.into();
    Some(Amount { limbs: value.into_limbs() })
}

/// `alloy_primitives::utils::ParseUnits::format_units` with sixteen decimals.
///
/// Trusted: the text is the whole part, a point and the sixteen decimals.
#[verifier::external_body]
fn format_units(a: &Amount, decimals: u8) -> (s: String)
    requires
        decimals == 16,
    ensures
        s@ == bzz_text(a@),
{
    let unit = alloy_primitives::utils::Unit::new(decimals).expect("a valid unit");
    let value = alloy_primitives::U256::from_limbs(a.limbs);
    alloy_primitives::utils::ParseUnits::from(value).format_units(unit)
}

/// The product of two `alloy_primitives::U256`, by `*`.
///
/// Trusted: it wraps at 2^256.
#[verifier::external_body]
fn product(a: &Amount, b: &Amount) -> (r: Amount)
    ensures
        r@ == (a@ * b@) % pow2(256),
{
    let x = alloy_primitives::U256::from_limbs(a.limbs);
    let y = alloy_primitives::U256::from_limbs(b.limbs);
    Amount { limbs: (x * y).into_limbs() }
}

/// `alloy_primitives::U256::from(1u8) << n`.
///
/// Trusted: it is 2^`n`, which fits for every `n` up to 255.
#[verifier::external_body]
fn power_of_two(n: u8) -> (r: Amount)
    ensures
        r@ == pow2(n as nat),
{
    Amount { limbs: (alloy_primitives::U256::from(1u8) << n).into_limbs() }
}

/// The order of two `alloy_primitives::U256`, by `>=`.
#[verifier::external_body]
pub(crate) fn at_least(a: &Amount, b: &Amount) -> (r: bool)
    ensures
        r == (a@ >= b@),
{
    alloy_primitives::U256::from_limbs(a.limbs) >= alloy_primitives::U256::from_limbs(b.limbs)
}

/// The text of an `alloy_primitives::U256`.
///
/// Trusted: it is the number in decimal, without leading zeros.
#[verifier::external_body]
pub(crate) fn decimal_amount(a: &Amount) -> (s: String)
    ensures
        s@ == dec(a@),
{
    alloy_primitives::U256::from_limbs(a.limbs).to_string()
}

/// An amount that could not be read.
#[derive(Clone, Debug)]
pub struct AmountError {
    pub text: String,
}

/// Reads an amount of BZZ, given as a decimal number of tokens.
pub fn parse_bzz(text: &str) -> (r: Result<Amount, AmountError>)
    requires
        can_cut(text.spec_bytes()),
    ensures
        match r {
            Ok(a) => units_of(text.spec_bytes()) == Some(a@),
            Err(e) => units_of(text.spec_bytes()) is None && e.text@ == text@,
        },
{
    match parse_units(text, BZZ_DECIMALS) {
        Some(a) => Ok(a),
        None => Err(AmountError { text: String::from_str(text) }),
    }
}

/// Whether the text of an amount can be read without cutting a character in
/// two.
pub fn is_cuttable(text: &str) -> (r: bool)
    ensures
        r == can_cut(text.spec_bytes()),
{
    let b = text.as_bytes();
    let mut i: usize = 0;
    while i < b.len() && b[i] != 46
        invariant
            i <= b.len(),
            b@ == text.spec_bytes(),
            point_from(b@, 0) == point_from(b@, i as nat),
        decreases b.len() - i,
    {
        i = i + 1;
    }
    if i < b.len() && b.len() - i > 17 {
        text.is_char_boundary(i + 17)
    } else {
        true
    }
}

/// Shows an amount in tokens, with all sixteen decimals.
pub fn format_bzz(a: &Amount) -> (s: String)
    ensures
        s@ == bzz_text(a@),
{
    format_units(a, BZZ_DECIMALS)
}

/// What a batch costs: the balance of one chunk times the number of chunks,
/// 2^`depth`, in the 256-bit arithmetic of the contract.
pub fn total_amount(per_chunk: &Amount, depth: u8) -> (r: Amount)
    ensures
        r@ == (per_chunk@ * pow2(depth as nat)) % pow2(256),
{
    product(per_chunk, &power_of_two(depth))
}

impl AmountError {
    /// The words for the error.
    pub fn message(&self) -> (s: String)
        ensures
            s@ == "invalid BZZ amount: "@ + self.text@,
    {
        join2("invalid BZZ amount: ", self.text.as_str())
    }
}

/// The characters of ASCII text as bytes.
spec fn ascii(text: Seq<char>) -> Seq<u8> {
    Seq::new(text.len(), |i: int| text[i] as u8)
}

/// Whether `b` consists of decimal digits.
spec fn all_digits(b: Seq<u8>) -> bool {
    forall|i: int| 0 <= i < b.len() ==> 48 <= #[trigger] b[i] <= 57
}

proof fn lemma_value_concat(a: Seq<u8>, b: Seq<u8>)
    requires
        all_digits(b),
    ensures
        number_value(a + b) == number_value(a) * ten_to(b.len()) + number_value(b),
    decreases b.len(),
{
    let x = number_value(a);
    let p = ten_to(b.len());
    if b.len() == 0 {
        assert(a + b =~= a);
        assert(x * p == x) by (nonlinear_arith)
            requires
                p == 1,
        ;
    } else {
        assert((a + b).drop_last() =~= a + b.drop_last());
        assert((a + b).last() == b.last());
        assert(b.last() == b[b.len() - 1]);
        assert(all_digits(b.drop_last()));
        lemma_value_concat(a, b.drop_last());
        let t = ten_to(b.drop_last().len());
        assert(x * p == 10 * (x * t)) by (nonlinear_arith)
            requires
                p == 10 * t,
        ;
    }
}

proof fn lemma_dec_value(n: nat)
    ensures
        all_digits(ascii(dec(n))),
        number_value(ascii(dec(n))) == n,
        dec(n).len() >= 1,
        vstd::utf8::is_ascii_chars(dec(n)),
    decreases n,
{
    let text = dec(n);
    let b = ascii(text);
    if n < 10 {
        assert(b.drop_last() =~= Seq::empty());
        assert(b.last() == (48 + n) as u8);
        assert(number_value(b.drop_last()) == 0);
    } else {
        lemma_dec_value(n / 10);
        assert(b.drop_last() =~= ascii(dec(n / 10)));
        assert(b.last() == (48 + n % 10) as u8);
        assert forall|i: int| 0 <= i < b.len() implies 48 <= #[trigger] b[i] <= 57 by {
            if i < b.len() - 1 {
                assert(ascii(dec(n / 10))[i] == b[i]);
            }
        }
    }
}

proof fn lemma_dec_len(n: nat, k: nat)
    requires
        k >= 1,
        n < ten_to(k),
    ensures
        dec(n).len() <= k,
    decreases n,
{
    if n >= 10 {
        if k == 1 {
            assert(ten_to(1) == 10 * ten_to(0));
        } else {
            assert(n / 10 < ten_to((k - 1) as nat));
            lemma_dec_len(n / 10, (k - 1) as nat);
        }
    }
}

proof fn lemma_zeros_value(k: nat)
    ensures
        number_value(ascii(repeated('0', k))) == 0,
    decreases k,
{
    let b = ascii(repeated('0', k));
    if k > 0 {
        assert(b.drop_last() =~= ascii(repeated('0', (k - 1) as nat)));
        lemma_zeros_value((k - 1) as nat);
    }
}

proof fn lemma_point_at(b: Seq<u8>, i: nat, d: nat)
    requires
        i <= d < b.len(),
        b[d as int] == 46,
        forall|j: int| i <= j < d ==> #[trigger] b[j] != 46,
    ensures
        point_from(b, i) == d,
    decreases d - i,
{
    if i < d {
        lemma_point_at(b, i + 1, d);
    }
}

/// An amount that was shown can be read, and gives the amount back.
pub proof fn shown_amount_reads_back(v: nat)
    requires
        v < pow2(256),
    ensures
        can_cut(vstd::utf8::encode_utf8(bzz_text(v))),
        units_of(vstd::utf8::encode_utf8(bzz_text(v))) == Some(v),
{
    let whole = dec(v / one_bzz());
    let low = dec(v % one_bzz());
    let frac = zero_padded(low, 16);
    let b = ascii(bzz_text(v));
    reveal_strlit(".");
    lemma_dec_value(v / one_bzz());
    lemma_dec_value(v % one_bzz());
    assert(vstd::utf8::encode_utf8(bzz_text(v)) =~= b) by {
        assert(vstd::utf8::is_ascii_chars(bzz_text(v)));
        vstd::utf8::is_ascii_chars_encode_utf8(bzz_text(v));
    }
    assert(ten_to(16) == one_bzz()) by {
        reveal_with_fuel(ten_to, 17);
    }
    lemma_dec_len(v % one_bzz(), 16);
    assert(frac.len() == 16);
    let d = whole.len();
    assert(b =~= ascii(whole) + ascii("."@) + ascii(frac));
    assert(b[d as int] == 46);
    assert forall|j: int| 0 <= j < d implies #[trigger] b[j] != 46 by {
        assert(b[j] == ascii(whole)[j]);
    }
    lemma_point_at(b, 0, d);
    assert(whole_part(b) =~= ascii(whole));
    assert(decimals(b) =~= ascii(frac));
    assert(b[0] == ascii(whole)[0]);
    assert(!is_signed(b));
    let pad = repeated('0', shortfall(low, 16));
    assert(ascii(frac) =~= ascii(pad) + ascii(low));
    assert forall|i: int| 0 <= i < ascii(frac).len() implies 48 <= #[trigger] ascii(frac)[i] <= 57 by {
        if i >= pad.len() {
            assert(ascii(frac)[i] == ascii(low)[i - pad.len()]);
        }
    }
    lemma_zeros_value(shortfall(low, 16));
    lemma_value_concat(ascii(pad), ascii(low));
    assert(number_value(ascii(frac)) == v % one_bzz());
    lemma_value_concat(ascii(whole), ascii(frac));
    let digits = ascii(whole) + ascii(frac);
    assert(kept_decimals(b) == ascii(frac));
    assert(amount_digits(b) == digits);
    assert forall|i: int| 0 <= i < digits.len() implies 48 <= #[trigger] digits[i] <= 57 by {
        if i < d {
            assert(digits[i] == ascii(whole)[i]);
        } else {
            assert(digits[i] == ascii(frac)[i - d]);
        }
    }
    assert(number_value(digits) * ten_to(0) == number_value(digits)) by (nonlinear_arith)
        requires
            ten_to(0) == 1,
    ;
}

/// A batch of depth zero costs the balance of its one chunk, and each further depth
/// doubles the cost, in 256 bits.
pub proof fn cost_doubles_with_depth(
    per_chunk: Amount,
    depth: u8,
    next: u8,
    at_zero: Amount,
    cost: Amount,
    doubled: Amount,
)
    requires
        next == depth + 1,
        call_ensures(total_amount, (&per_chunk, 0), at_zero),
        call_ensures(total_amount, (&per_chunk, depth), cost),
        call_ensures(total_amount, (&per_chunk, next), doubled),
    ensures
        at_zero@ == per_chunk@ % pow2(256),
        doubled@ == (2 * cost@) % pow2(256),
{
    vstd::arithmetic::power2::lemma2_to64();
    vstd::arithmetic::power2::lemma_pow2_pos(256);
    vstd::arithmetic::power2::lemma_pow2_unfold(next as nat);
    let p = per_chunk@ as int;
    let m = pow2(256) as int;
    let x = p * pow2(depth as nat);
    assert(p * pow2(0) == p) by (nonlinear_arith)
        requires
            pow2(0) == 1,
    ;
    assert(p * pow2(next as nat) == 2 * x) by (nonlinear_arith)
        requires
            pow2(next as nat) == 2 * pow2(depth as nat),
            x == p * pow2(depth as nat),
    ;
    vstd::arithmetic::div_mod::lemma_mul_mod_noop_right(2, x, m);
}

/// An amount that is shown and read again is the same.
pub proof fn amount_survives_the_terminal(
    a: Amount,
    shown: String,
    text: &str,
    r: Result<Amount, AmountError>,
)
    requires
        a@ < pow2(256),
        call_ensures(format_bzz, (&a,), shown),
        text@ == shown@,
        call_ensures(parse_bzz, (text,), r),
    ensures
        r matches Ok(b) && b@ == a@,
{
    shown_amount_reads_back(a@);
}

/// A text without a point, or with sixteen decimals or fewer, can always be read.
pub proof fn ordinary_text_can_be_cut(text: &str, r: bool)
    requires
        call_ensures(is_cuttable, (text,), r),
        decimals(text.spec_bytes()).len() <= 16,
    ensures
        r,
{
}

/// An amount that was refused is shown as it was given.
pub proof fn refused_amounts_are_shown(text: &str, e: AmountError, shown: String)
    requires
        call_ensures(parse_bzz, (text,), Err(e)),
        call_ensures(AmountError::message, (&e,), shown),
    ensures
        shown@ == "invalid BZZ amount: "@ + text@,
        units_of(text.spec_bytes()) is None,
{
}

} // verus!
