//! Hexadecimal text: what `0x…` arguments mean and how values are shown.

use vstd::prelude::*;
use vstd::string::StringSliceAdditionalSpecFns;

use crate::bytes::{read32, Bytes20, Bytes32};
use crate::text::{dec, decimal, join2, join3};

verus! {

/// The character of the hexadecimal digit `n`, in lower case.
pub open spec fn hex_digit(n: nat) -> char {
    if n < 10 {
        (48 + n) as char
    } else {
        (87 + n) as char
    }
}

/// `b` in lower-case hexadecimal, two characters to a byte.
pub open spec fn hex_text(b: Seq<u8>) -> Seq<char> {
    Seq::new(
        2 * b.len(),
        |i: int|
            hex_digit(
                if i % 2 == 0 {
                    b[i / 2] as nat / 16
                } else {
                    b[i / 2] as nat % 16
                },
            ),
    )
}

/// `b` in lower-case hexadecimal with its `0x` prefix.
pub open spec fn hex_0x(b: Seq<u8>) -> Seq<char> {
    "0x"@ + hex_text(b)
}

/// Whether a byte of text is a hexadecimal digit, in either case.
pub open spec fn is_hex_digit(c: u8) -> bool {
    48 <= c <= 57 || 65 <= c <= 70 || 97 <= c <= 102
}

/// The value of a hexadecimal digit.
pub open spec fn hex_digit_value(c: u8) -> nat {
    if c <= 57 {
        (c - 48) as nat
    } else if c <= 70 {
        (c - 55) as nat
    } else {
        (c - 87) as nat
    }
}

/// Whether `s` consists of hexadecimal digits.
pub open spec fn all_hex(s: Seq<u8>) -> bool {
    forall|i: int| 0 <= i < s.len() ==> is_hex_digit(#[trigger] s[i])
}

/// The bytes that the digits of `s` spell, two digits to a byte.
pub open spec fn hex_bytes(s: Seq<u8>) -> Seq<u8> {
    Seq::new(
        s.len() / 2,
        |i: int| (hex_digit_value(s[2 * i]) * 16 + hex_digit_value(s[2 * i + 1])) as u8,
    )
}

/// `index` is the position of the first byte of `s` that is no hexadecimal
/// digit.
pub open spec fn first_bad(s: Seq<u8>, index: int) -> bool {
    0 <= index < s.len() && !is_hex_digit(s[index]) && all_hex(s.take(index))
}

/// Why hexadecimal text was refused.
#[derive(Clone, Copy, Debug, PartialEq, Eq, Structural)]
pub enum HexFault {
    /// The number of digits is odd.
    Odd,
    /// A byte at `index` is no hexadecimal digit.
    BadByte { byte: u8, index: usize },
    /// The text does not have the length that was asked for.
    Length,
}

/// `hex::decode` on the bytes of a text.
///
/// Trusted: an odd length is refused first; then the first byte that is no
/// digit, with its position; otherwise each pair of digits gives one byte.
/// The error for a wrong length never comes from this function.
#[verifier::external_body]
fn decode_hex(text: &[u8]) -> (r: Result<Vec<u8>, HexFault>)
    ensures
        match r {
            Ok(v) => text@.len() % 2 == 0 && all_hex(text@) && v@ == hex_bytes(text@),
            Err(HexFault::Odd) => text@.len() % 2 == 1,
            Err(HexFault::BadByte { byte, index }) => text@.len() % 2 == 0 && first_bad(
                text@,
                index as int,
            ) && byte == text@[index as int],
            Err(HexFault::Length) => false,
        },
{
    hex::decode(text).map_err(
        |e| match e {
            hex::FromHexError::OddLength => HexFault::Odd,
            hex::FromHexError::InvalidHexCharacter { c, index } => {
                HexFault::BadByte { byte: c as u8, index }
            },
            hex::FromHexError::InvalidStringLength => HexFault::Length,
        },
    )
}

/// `hex::encode`: lower-case hexadecimal, two characters to a byte.
#[verifier::external_body]
pub(crate) fn encode_hex(b: &[u8]) -> (s: String)
    ensures
        s@ == hex_text(b@),
{
    hex::encode(b)
}

/// The text of an account address without its `0x` or `0X`, where it has one.
pub open spec fn strip_either(b: Seq<u8>) -> Seq<u8> {
    if b.len() >= 2 && b[0] == 48 && (b[1] == 120 || b[1] == 88) {
        b.skip(2)
    } else {
        b
    }
}

/// `<alloy_primitives::Address as FromStr>::from_str`.
///
/// Trusted: an odd length of the whole text is refused first; then, without a
/// `0x` or `0X`, a length other than 40; then the first byte that is no digit,
/// with its position behind the prefix; otherwise the 40 digits give the
/// address.
#[verifier::external_body]
fn decode_account(text: &str) -> (r: Result<Bytes20, HexFault>)
    ensures
        ({
            let whole = text.spec_bytes();
            let digits = strip_either(whole);
            match r {
                Ok(a) => whole.len() % 2 == 0 && digits.len() == 40 && all_hex(digits) && a@
                    == hex_bytes(digits),
                Err(HexFault::Odd) => whole.len() % 2 == 1,
                Err(HexFault::Length) => whole.len() % 2 == 0 && digits.len() != 40,
                Err(HexFault::BadByte { byte, index }) => whole.len() % 2 == 0 && digits.len() == 40
                    && first_bad(digits, index as int) && byte == digits[index as int],
            }
        }),
{
    let parsed = text.parse::<alloy_primitives::Address>();
    parsed.map(|a| Bytes20 { bytes: a.into_array() }).map_err(
        |e| match e {
            alloy_primitives::hex::FromHexError::OddLength => HexFault::Odd,
            alloy_primitives::hex::FromHexError::InvalidHexCharacter { c, index } => {
                HexFault::BadByte { byte: c as u8, index }
            },
            alloy_primitives::hex::FromHexError::InvalidStringLength => HexFault::Length,
        },
    )
}

/// The text without its `0x`, where it has one.
pub open spec fn strip_0x(b: Seq<u8>) -> Seq<u8> {
    if b.len() >= 2 && b[0] == 48 && b[1] == 120 {
        b.skip(2)
    } else {
        b
    }
}

/// Why a fixed-length value was refused.
#[derive(Clone, Copy, Debug, PartialEq, Eq, Structural)]
pub enum ParseFault {
    /// The text is not hexadecimal.
    NotHex(HexFault),
    /// The text spells another number of bytes than 32.
    WrongLength(usize),
}

/// A refused value, with the words for what it was to be.
#[derive(Clone, Debug)]
pub struct ParseError {
    /// What was being read.
    pub what: String,
    /// What was wrong with it.
    pub fault: ParseFault,
}

/// What reading 32 bytes out of the text `b` gives: the value where `b`, less
/// a `0x`, is 64 hexadecimal digits, and else the first thing wrong with it.
pub open spec fn reads32(b: Seq<u8>, r: Result<Seq<u8>, ParseFault>) -> bool {
    let digits = strip_0x(b);
    match r {
        Ok(v) => digits.len() == 64 && all_hex(digits) && v == hex_bytes(digits),
        Err(ParseFault::NotHex(HexFault::Odd)) => digits.len() % 2 == 1,
        Err(ParseFault::NotHex(HexFault::BadByte { byte, index })) => digits.len() % 2 == 0
            && first_bad(digits, index as int) && byte == digits[index as int],
        Err(ParseFault::NotHex(HexFault::Length)) => false,
        Err(ParseFault::WrongLength(n)) => digits.len() == 2 * n && n != 32 && all_hex(digits),
    }
}

/// Reads 32 bytes of hexadecimal; a leading `0x` is optional.
pub fn read_hex32(s: &str) -> (r: Result<Bytes32, ParseFault>)
    ensures
        match r {
            Ok(v) => reads32(s.spec_bytes(), Ok(v@)),
            Err(e) => reads32(s.spec_bytes(), Err(e)),
        },
{
    let b = s.as_bytes();
    let prefixed = b.len() >= 2 && b[0] == 48 && b[1] == 120;
    let digits = if prefixed {
        let rest = vstd::slice::slice_subrange(b, 2, b.len());
        assert(rest@ =~= b@.skip(2));
        rest
    } else {
        b
    };
    match decode_hex(digits) {
        Err(e) => Err(ParseFault::NotHex(e)),
        Ok(v) => {
            if v.len() != 32 {
                return Err(ParseFault::WrongLength(v.len()));
            }
            let r = read32(v.as_slice(), 0);
            assert(r@ =~= v@);
            Ok(r)
        },
    }
}

/// Reads a 32-byte value given in hexadecimal, `0x` optional, naming it `what`
/// where it is refused.
pub fn parse_b256(s: &str, what: &str) -> (r: Result<Bytes32, ParseError>)
    ensures
        match r {
            Ok(v) => reads32(s.spec_bytes(), Ok(v@)),
            Err(e) => reads32(s.spec_bytes(), Err(e.fault)) && e.what@ == what@,
        },
{
    match read_hex32(s) {
        Ok(v) => Ok(v),
        Err(fault) => Err(ParseError { what: String::from_str(what), fault }),
    }
}

/// Reads a batch id: 32 bytes of hexadecimal, `0x` optional.
pub fn parse_batch_id(s: &str) -> (r: Result<Bytes32, ParseError>)
    ensures
        match r {
            Ok(v) => reads32(s.spec_bytes(), Ok(v@)),
            Err(e) => reads32(s.spec_bytes(), Err(e.fault)) && e.what@ == "batch id"@,
        },
{
    parse_b256(s, "batch id")
}

/// Reads a chunk address: 32 bytes of hexadecimal, `0x` optional.
pub fn parse_address(s: &str) -> (r: Result<Bytes32, ParseError>)
    ensures
        match r {
            Ok(v) => reads32(s.spec_bytes(), Ok(v@)),
            Err(e) => reads32(s.spec_bytes(), Err(e.fault)) && e.what@ == "chunk address"@,
        },
{
    parse_b256(s, "chunk address")
}

/// What reading an account address out of the text `b` gives.
pub open spec fn reads_account(b: Seq<u8>, r: Result<Seq<u8>, HexFault>) -> bool {
    let digits = strip_either(b);
    match r {
        Ok(a) => b.len() % 2 == 0 && digits.len() == 40 && all_hex(digits) && a == hex_bytes(
            digits,
        ),
        Err(HexFault::Odd) => b.len() % 2 == 1,
        Err(HexFault::Length) => b.len() % 2 == 0 && digits.len() != 40,
        Err(HexFault::BadByte { byte, index }) => b.len() % 2 == 0 && digits.len() == 40
            && first_bad(digits, index as int) && byte == digits[index as int],
    }
}

/// Reads an account address: 20 bytes of hexadecimal, `0x` or `0X` optional.
pub fn parse_account(s: &str) -> (r: Result<Bytes20, HexFault>)
    ensures
        match r {
            Ok(a) => reads_account(s.spec_bytes(), Ok(a@)),
            Err(e) => reads_account(s.spec_bytes(), Err(e)),
        },
{
    decode_account(s)
}

/// Lower-case hexadecimal of an address, without a prefix.
pub fn address_hex(address: &Bytes32) -> (s: String)
    ensures
        s@ == hex_text(address@),
{
    encode_hex(address.bytes.as_slice())
}

/// Lower-case hexadecimal with a `0x` prefix.
pub fn show_0x(b: &[u8]) -> (s: String)
    ensures
        s@ == hex_0x(b@),
{
    join2("0x", encode_hex(b).as_str())
}

/// The words for a refused 32-byte value.
pub open spec fn parse_message(what: Seq<char>, fault: ParseFault) -> Seq<char> {
    match fault {
        ParseFault::NotHex(_) => what + " is not valid hex"@,
        ParseFault::WrongLength(n) => what + " must be 32 bytes (64 hex chars), got "@ + dec(
            n as nat,
        ),
    }
}

impl ParseError {
    /// The words for the error.
    pub fn message(&self) -> (s: String)
        ensures
            s@ == parse_message(self.what@, self.fault),
    {
        match self.fault {
            ParseFault::NotHex(_) => join2(self.what.as_str(), " is not valid hex"),
            ParseFault::WrongLength(n) => join3(
                self.what.as_str(),
                " must be 32 bytes (64 hex chars), got ",
                decimal(n as u64).as_str(),
            ),
        }
    }
}

proof fn lemma_digit_back(n: nat)
    requires
        n < 16,
    ensures
        is_hex_digit(hex_digit(n) as u8),
        hex_digit_value(hex_digit(n) as u8) == n,
        (hex_digit(n) as int) < 128,
{
}

proof fn lemma_hex_ascii(v: Seq<u8>)
    ensures
        vstd::utf8::is_ascii_chars(hex_text(v)),
        vstd::utf8::encode_utf8(hex_text(v)) == Seq::new(
            2 * v.len(),
            |i: int| hex_text(v)[i] as u8,
        ),
{
    let shown = hex_text(v);
    assert forall|i: int| 0 <= i < shown.len() implies 0 <= #[trigger] shown[i] as nat <= 127 by {
        lemma_digit_back(v[i / 2] as nat / 16);
        lemma_digit_back(v[i / 2] as nat % 16);
    }
    assert(vstd::utf8::is_ascii_chars(shown));
    vstd::utf8::is_ascii_chars_encode_utf8(shown);
}

/// Showing 32 bytes in hexadecimal and reading the text back gives the same
/// 32 bytes, with the `0x` and without it.
pub proof fn hex_round_trip(v: Seq<u8>)
    requires
        v.len() == 32,
    ensures
        reads32(vstd::utf8::encode_utf8(hex_text(v)), Ok(v)),
        reads32(vstd::utf8::encode_utf8(hex_0x(v)), Ok(v)),
{
    reveal_strlit("0x");
    lemma_hex_ascii(v);
    let digits = vstd::utf8::encode_utf8(hex_text(v));
    let prefixed = vstd::utf8::encode_utf8(hex_0x(v));
    assert forall|i: int| 0 <= i < 64 implies is_hex_digit(#[trigger] digits[i]) by {
        lemma_digit_back(v[i / 2] as nat / 16);
        lemma_digit_back(v[i / 2] as nat % 16);
    }
    assert forall|i: int| 0 <= i < 32 implies hex_bytes(digits)[i] == v[i] by {
        lemma_digit_back(v[i] as nat / 16);
        lemma_digit_back(v[i] as nat % 16);
        assert((2 * i) / 2 == i && (2 * i) % 2 == 0);
        assert((2 * i + 1) / 2 == i && (2 * i + 1) % 2 == 1);
        assert(v[i] as nat == (v[i] as nat / 16) * 16 + v[i] as nat % 16);
    }
    assert(hex_bytes(digits) =~= v);
    assert(is_hex_digit(digits[1]));
    assert(strip_0x(digits) == digits);
    assert(vstd::utf8::is_ascii_chars(hex_0x(v)));
    vstd::utf8::is_ascii_chars_encode_utf8(hex_0x(v));
    assert(prefixed[0] == 48 && prefixed[1] == 120);
    assert(prefixed.skip(2) =~= digits);
}

/// The number that a hexadecimal digit stands for: `0` to `9`, `a` to `f` and `A`
/// to `F`.
pub open spec fn digit_meaning(c: u8) -> Option<nat> {
    if 48 <= c && c < 58 {
        Some((c - 48) as nat)
    } else if 97 <= c && c < 103 {
        Some((c - 97 + 10) as nat)
    } else if 65 <= c && c < 71 {
        Some((c - 65 + 10) as nat)
    } else {
        None
    }
}

/// Whether digits spell bytes: two digits to a byte, the higher half first.
pub open spec fn spells(digits: Seq<u8>, v: Seq<u8>) -> bool {
    &&& digits.len() == 2 * v.len()
    &&& forall|i: int|
        0 <= i < v.len() ==> {
            &&& digit_meaning(digits[2 * i]) == Some((#[trigger] v[i]) as nat / 16)
            &&& digit_meaning(digits[2 * i + 1]) == Some(v[i] as nat % 16)
        }
}

/// Whether every byte of `s` is a digit.
pub open spec fn only_digits(s: Seq<u8>) -> bool {
    forall|i: int| 0 <= i < s.len() ==> digit_meaning(#[trigger] s[i]) is Some
}

proof fn lemma_spelled(digits: Seq<u8>)
    requires
        digits.len() % 2 == 0,
        all_hex(digits),
    ensures
        spells(digits, hex_bytes(digits)),
{
    let v = hex_bytes(digits);
    assert forall|i: int| 0 <= i < v.len() implies {
        &&& digit_meaning(digits[2 * i]) == Some((#[trigger] v[i]) as nat / 16)
        &&& digit_meaning(digits[2 * i + 1]) == Some(v[i] as nat % 16)
    } by {
        let hi = hex_digit_value(digits[2 * i]);
        let lo = hex_digit_value(digits[2 * i + 1]);
        assert(is_hex_digit(digits[2 * i]) && is_hex_digit(digits[2 * i + 1]));
        assert(hi < 16 && lo < 16);
        assert((hi * 16 + lo) / 16 == hi && (hi * 16 + lo) % 16 == lo);
    }
}

proof fn lemma_only_digits(s: Seq<u8>)
    ensures
        all_hex(s) == only_digits(s),
{
    if all_hex(s) {
        assert forall|i: int| 0 <= i < s.len() implies digit_meaning(#[trigger] s[i]) is Some by {
            assert(is_hex_digit(s[i]));
        }
    }
    if only_digits(s) {
        assert forall|i: int| 0 <= i < s.len() implies is_hex_digit(#[trigger] s[i]) by {
            assert(digit_meaning(s[i]) is Some);
        }
    }
}

proof fn lemma_spelling_is_unique(digits: Seq<u8>, v: Seq<u8>, w: Seq<u8>)
    requires
        spells(digits, v),
        spells(digits, w),
    ensures
        v == w,
{
    assert forall|i: int| 0 <= i < v.len() implies v[i] == w[i] by {
        assert(v[i] as nat == 16 * (v[i] as nat / 16) + v[i] as nat % 16);
        assert(w[i] as nat == 16 * (w[i] as nat / 16) + w[i] as nat % 16);
    }
    assert(v =~= w);
}

/// What spells bytes is made of digits.
pub proof fn lemma_spelled_is_digits(digits: Seq<u8>, v: Seq<u8>)
    requires
        spells(digits, v),
    ensures
        only_digits(digits),
{
    assert forall|i: int| 0 <= i < digits.len() implies digit_meaning(
        #[trigger] digits[i],
    ) is Some by {
        let k = i / 2;
        assert(0 <= k < v.len());
        assert(digit_meaning(digits[2 * k]) == Some(v[k] as nat / 16));
        assert(digit_meaning(digits[2 * k + 1]) == Some(v[k] as nat % 16));
        assert(i == 2 * k || i == 2 * k + 1);
    }
}

/// Reading 32 bytes: 64 digits, in either case, give the bytes that they spell, and
/// so they do behind a `0x`. Nothing else gives any bytes.
pub proof fn digits_read_as_they_spell(digits: Seq<u8>, v: Seq<u8>, got: Seq<u8>)
    requires
        spells(digits, v),
    ensures
        v.len() == 32 ==> reads32(digits, Ok(v)),
        v.len() == 32 ==> reads32(seq![48u8, 120u8] + digits, Ok(v)),
        reads32(digits, Ok(got)) ==> got == v && v.len() == 32,
        reads32(seq![48u8, 120u8] + digits, Ok(got)) ==> got == v && v.len() == 32,
{
    lemma_spelled_is_digits(digits, v);
    lemma_only_digits(digits);
    lemma_spelled(digits);
    lemma_spelling_is_unique(digits, v, hex_bytes(digits));
    let prefixed = seq![48u8, 120u8] + digits;
    assert(prefixed.skip(2) =~= digits);
    assert(strip_0x(prefixed) == digits);
    if digits.len() >= 2 {
        assert(digit_meaning(digits[1]) is Some);
    }
    assert(strip_0x(digits) == digits);
}

/// Bytes that are read were spelled: where a text is read as 32 bytes, it is their
/// 64 digits, or `0x` and their 64 digits. One that is refused is neither.
pub proof fn read_bytes_were_spelled(b: Seq<u8>, got: Seq<u8>, fault: ParseFault)
    ensures
        reads32(b, Ok(got)) ==> got.len() == 32 && (spells(b, got) || (b.len() == 66 && b[0] == 48
            && b[1] == 120 && spells(b.skip(2), got))),
        reads32(b, Err(fault)) ==> !(b.len() == 64 && only_digits(b)) && !(b.len() == 66 && b[0]
            == 48 && b[1] == 120 && only_digits(b.skip(2))),
{
    lemma_only_digits(b);
    lemma_only_digits(b.skip(2));
    if reads32(b, Ok(got)) {
        lemma_spelled(strip_0x(b));
    }
    if reads32(b, Err(fault)) {
        if b.len() == 64 && only_digits(b) {
            assert(digit_meaning(b[1]) is Some);
            assert(strip_0x(b) == b);
        }
        let digits = strip_0x(b);
        if digits.len() == 64 && only_digits(digits) {
            match fault {
                ParseFault::NotHex(HexFault::BadByte { byte, index }) => {
                    assert(is_hex_digit(digits[index as int]));
                },
                _ => {},
            }
        }
    }
}

/// Reading an account: 40 digits, in either case, give the 20 bytes that they spell,
/// and so they do behind a `0x` or a `0X`. Such a text is never refused.
pub proof fn accounts_read_as_they_spell(
    digits: Seq<u8>,
    v: Seq<u8>,
    got: Seq<u8>,
    x: u8,
    fault: HexFault,
)
    requires
        spells(digits, v),
        v.len() == 20,
        x == 120 || x == 88,
    ensures
        reads_account(digits, Ok(v)),
        reads_account(seq![48u8, x] + digits, Ok(v)),
        reads_account(digits, Ok(got)) ==> got == v,
        reads_account(seq![48u8, x] + digits, Ok(got)) ==> got == v,
        !reads_account(digits, Err(fault)),
        !reads_account(seq![48u8, x] + digits, Err(fault)),
{
    lemma_spelled_is_digits(digits, v);
    lemma_only_digits(digits);
    lemma_spelled(digits);
    lemma_spelling_is_unique(digits, v, hex_bytes(digits));
    let prefixed = seq![48u8, x] + digits;
    assert(prefixed.skip(2) =~= digits);
    assert(strip_either(prefixed) == digits);
    assert(digit_meaning(digits[1]) is Some);
    assert(strip_either(digits) == digits);
}

/// An account that is read was spelled: the text is its 40 digits, with or without a
/// prefix of two bytes.
pub proof fn read_account_was_spelled(b: Seq<u8>, got: Seq<u8>)
    requires
        reads_account(b, Ok(got)),
    ensures
        got.len() == 20,
        spells(b, got) || (b.len() == 42 && b[0] == 48 && (b[1] == 120 || b[1] == 88) && spells(
            b.skip(2),
            got,
        )),
{
    lemma_spelled(strip_either(b));
}

/// Shown bytes are spelled, in lower case: each digit that is shown stands for its
/// half of a byte, and none is in upper case. With the prefix, `0x` stands in front.
pub proof fn shown_bytes_are_spelled(v: Seq<u8>)
    ensures
        hex_text(v).len() == 2 * v.len(),
        spells(Seq::new(hex_text(v).len(), |i: int| hex_text(v)[i] as u8), v),
        forall|i: int|
            0 <= i < hex_text(v).len() ==> '0' <= #[trigger] hex_text(v)[i] <= '9' || 'a'
                <= hex_text(v)[i] <= 'f',
        hex_0x(v).len() == 2 + 2 * v.len(),
        hex_0x(v)[0] == '0',
        hex_0x(v)[1] == 'x',
        hex_0x(v).skip(2) == hex_text(v),
{
    reveal_strlit("0x");
    let shown = hex_text(v);
    let digits = Seq::new(shown.len(), |i: int| shown[i] as u8);
    assert forall|i: int| 0 <= i < v.len() implies {
        &&& digit_meaning(digits[2 * i]) == Some((#[trigger] v[i]) as nat / 16)
        &&& digit_meaning(digits[2 * i + 1]) == Some(v[i] as nat % 16)
    } by {
        assert((2 * i) / 2 == i && (2 * i) % 2 == 0);
        assert((2 * i + 1) / 2 == i && (2 * i + 1) % 2 == 1);
        assert(v[i] as nat / 16 < 16 && v[i] as nat % 16 < 16);
    }
    assert forall|i: int| 0 <= i < shown.len() implies '0' <= #[trigger] shown[i] <= '9' || 'a'
        <= shown[i] <= 'f' by {
        assert(v[i / 2] as nat / 16 < 16 && v[i / 2] as nat % 16 < 16);
    }
    assert(hex_0x(v).skip(2) =~= shown);
}

/// What is wrong with a text that is not 32 bytes in digits is told apart: behind a
/// `0x`, an odd number of digits; then the first byte that is no digit, with its
/// position; then the number of bytes that the digits spell.
pub proof fn refused_digits_are_told_apart(digits: Seq<u8>, r: Result<Seq<u8>, ParseFault>)
    requires
        reads32(seq![48u8, 120u8] + digits, r),
    ensures
        digits.len() % 2 == 1 ==> r == Err::<Seq<u8>, ParseFault>(
            ParseFault::NotHex(HexFault::Odd),
        ),
        digits.len() % 2 == 0 && !only_digits(digits) ==> {
            &&& r matches Err(ParseFault::NotHex(HexFault::BadByte { byte, index }))
            &&& index < digits.len()
            &&& byte == digits[index as int]
            &&& digit_meaning(byte) is None
            &&& only_digits(digits.take(index as int))
        },
        digits.len() % 2 == 0 && only_digits(digits) && digits.len() != 64 ==> {
            &&& r matches Err(ParseFault::WrongLength(n))
            &&& 2 * n == digits.len()
        },
        digits.len() == 64 && only_digits(digits) ==> r is Ok,
{
    assert((seq![48u8, 120u8] + digits).skip(2) =~= digits);
    lemma_only_digits(digits);
    if let Err(ParseFault::NotHex(HexFault::BadByte { byte, index })) = r {
        lemma_only_digits(digits.take(index as int));
        assert(!is_hex_digit(digits[index as int]));
        if only_digits(digits) {
            assert(digit_meaning(digits[index as int]) is Some);
        }
    }
}

/// A refused value is named, with the number of its bytes where that is what is
/// wrong.
pub proof fn parse_errors_say_what(what: Seq<char>, h: HexFault, n: usize)
    ensures
        parse_message(what, ParseFault::NotHex(h)) == what + " is not valid hex"@,
        parse_message(what, ParseFault::WrongLength(n)) == what
            + " must be 32 bytes (64 hex chars), got "@ + dec(n as nat),
{
}

proof fn lemma_shown_as_bytes(v: Seq<u8>)
    ensures
        vstd::utf8::encode_utf8(hex_text(v)) == Seq::new(
            hex_text(v).len(),
            |i: int| hex_text(v)[i] as u8,
        ),
        vstd::utf8::encode_utf8(hex_0x(v)) == seq![48u8, 120u8] + Seq::new(
            hex_text(v).len(),
            |i: int| hex_text(v)[i] as u8,
        ),
{
    reveal_strlit("0x");
    shown_bytes_are_spelled(v);
    let shown = hex_text(v);
    assert forall|i: int| 0 <= i < shown.len() implies (#[trigger] shown[i]) as u32 <= 127 by {
        assert('0' <= shown[i] <= '9' || 'a' <= shown[i] <= 'f');
    }
    assert(vstd::utf8::is_ascii_chars(shown));
    vstd::utf8::is_ascii_chars_encode_utf8(shown);
    assert(vstd::utf8::is_ascii_chars(hex_0x(v))) by {
        assert forall|i: int| 0 <= i < hex_0x(v).len() implies (#[trigger] hex_0x(v)[i]) as u32
            <= 127 by {
            if i >= 2 {
                assert(hex_0x(v)[i] == shown[i - 2]);
            }
        }
    }
    vstd::utf8::is_ascii_chars_encode_utf8(hex_0x(v));
    assert(vstd::utf8::encode_utf8(shown) =~= Seq::new(shown.len(), |i: int| shown[i] as u8));
    assert(vstd::utf8::encode_utf8(hex_0x(v)) =~= seq![48u8, 120u8] + Seq::new(
        shown.len(),
        |i: int| shown[i] as u8,
    ));
}

/// What was shown can be read: 32 bytes, shown with or without their `0x`, give
/// themselves back as a batch id, as a chunk address and as any other such value.
pub proof fn shown_value_reads_back(
    b: &[u8],
    v: Bytes32,
    long: String,
    short: String,
    with: &str,
    without: &str,
    what: &str,
    batch: Result<Bytes32, ParseError>,
    address: Result<Bytes32, ParseError>,
    other: Result<Bytes32, ParseError>,
)
    requires
        b@ == v@,
        call_ensures(show_0x, (b,), long),
        call_ensures(address_hex, (&v,), short),
        with@ == long@,
        without@ == short@,
        call_ensures(parse_batch_id, (with,), batch),
        call_ensures(parse_address, (without,), address),
        call_ensures(parse_b256, (with, what), other),
    ensures
        batch matches Ok(x) && x@ == v@,
        address matches Ok(x) && x@ == v@,
        other matches Ok(x) && x@ == v@,
{
    shown_bytes_are_spelled(v@);
    lemma_shown_as_bytes(v@);
    let digits = Seq::new(hex_text(v@).len(), |i: int| hex_text(v@)[i] as u8);
    lemma_spelled_is_digits(digits, v@);
    digits_read_as_they_spell(digits, v@, batch->Ok_0@);
    digits_read_as_they_spell(digits, v@, address->Ok_0@);
    digits_read_as_they_spell(digits, v@, other->Ok_0@);
    read_bytes_were_spelled(with.spec_bytes(), v@, batch->Err_0.fault);
    read_bytes_were_spelled(without.spec_bytes(), v@, address->Err_0.fault);
    read_bytes_were_spelled(with.spec_bytes(), v@, other->Err_0.fault);
    assert((seq![48u8, 120u8] + digits).skip(2) =~= digits);
}

/// A value that is refused is named for what it was to be, with what is wrong with it;
/// one that is taken is 64 digits behind its `0x`, if it has one.
pub proof fn refused_values_are_named(
    text: &str,
    what: &str,
    batch: Result<Bytes32, ParseError>,
    address: Result<Bytes32, ParseError>,
    other: Result<Bytes32, ParseError>,
)
    requires
        call_ensures(parse_batch_id, (text,), batch),
        call_ensures(parse_address, (text,), address),
        call_ensures(parse_b256, (text, what), other),
    ensures
        batch matches Err(e) ==> e.what@ == "batch id"@,
        address matches Err(e) ==> e.what@ == "chunk address"@,
        other matches Err(e) ==> e.what@ == what@,
        batch matches Err(e) ==> reads32(text.spec_bytes(), Err(e.fault)),
        address matches Err(e) ==> reads32(text.spec_bytes(), Err(e.fault)),
        other matches Err(e) ==> reads32(text.spec_bytes(), Err(e.fault)),
        batch is Ok ==> text.spec_bytes().len() == 64 || text.spec_bytes().len() == 66,
{
    if let Ok(v) = batch {
        read_bytes_were_spelled(text.spec_bytes(), v@, ParseFault::WrongLength(0));
    }
}

/// An account that was shown can be read.
pub proof fn shown_account_reads_back(
    b: &[u8],
    shown: String,
    text: &str,
    r: Result<Bytes20, HexFault>,
)
    requires
        b@.len() == 20,
        call_ensures(show_0x, (b,), shown),
        text@ == shown@,
        call_ensures(parse_account, (text,), r),
    ensures
        r matches Ok(a) && a@ == b@,
{
    shown_bytes_are_spelled(b@);
    lemma_shown_as_bytes(b@);
    let digits = Seq::new(hex_text(b@).len(), |i: int| hex_text(b@)[i] as u8);
    accounts_read_as_they_spell(digits, b@, r->Ok_0@, 120, r->Err_0);
}

/// A refused value's words are its own, and 32 bytes are read as any value is.
pub proof fn refused_values_are_shown(
    e: ParseError,
    shown: String,
    text: &str,
    r: Result<Bytes32, ParseFault>,
)
    requires
        call_ensures(ParseError::message, (&e,), shown),
        call_ensures(read_hex32, (text,), r),
    ensures
        shown@ == parse_message(e.what@, e.fault),
        r matches Ok(v) ==> reads32(text.spec_bytes(), Ok(v@)),
        r matches Err(fault) ==> reads32(text.spec_bytes(), Err(fault)),
{
}

} // verus!
