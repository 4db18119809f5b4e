//! Signing keys: where a command takes its key from, which keys are valid, and
//! the account that a key belongs to.

use vstd::prelude::*;
use vstd::string::StringSliceAdditionalSpecFns;

use crate::bytes::{be_value, Bytes20, Bytes32};
use crate::hashing::keccak;
use crate::hexes::{
    all_hex, first_bad, hex_bytes, hex_text, read_hex32, strip_0x, HexFault, ParseFault,
};
use crate::text::{dec, decimal, join2};

verus! {

/// The order of the secp256k1 group.
pub open spec fn group_order() -> nat {
    115792089237316195423570985008687907852837564279074904382605163141518161494337nat
}

/// Whether 32 bytes are a private key: a number above zero and below the order
/// of the group.
pub open spec fn is_key(b: Seq<u8>) -> bool {
    b.len() == 32 && 0 < be_value(b) < group_order()
}

/// A private key.
#[derive(Clone, Copy)]
pub struct SigningKey {
    pub secret: Bytes32,
}

impl View for SigningKey {
    type V = Seq<u8>;

    open spec fn view(&self) -> Seq<u8> {
        self.secret@
    }
}

impl SigningKey {
    /// The key is valid.
    pub open spec fn wf(self) -> bool {
        is_key(self@)
    }
}

/// The account address of a private key.
pub uninterp spec fn account_of(key: Seq<u8>) -> Seq<u8>;

/// `alloy_signer_local::PrivateKeySigner::from_bytes`.
///
/// Trusted: the bytes are accepted if and only if, read with the most
/// significant byte first, they are above zero and below the order of the
/// secp256k1 group.
#[verifier::external_body]
fn accepted_as_key(secret: &Bytes32) -> (ok: bool)
    ensures
        ok == is_key(secret@),
{
    let bytes = alloy_primitives::B256::from(secret.bytes);
    alloy_signer_local::PrivateKeySigner::from_bytes(&bytes).is_ok()
}

/// `alloy_signer_local::PrivateKeySigner::address`.
///
/// Trusted: the account address is a function of the key alone.
#[verifier::external_body]
pub(crate) fn account_of_key(key: &SigningKey) -> (a: Bytes20)
    requires
        key.wf(),
    ensures
        a@ == account_of(key@),
{
    let bytes = alloy_primitives::B256::from(key.secret.bytes);
    let signer = alloy_signer_local::PrivateKeySigner::from_bytes(&bytes);
    Bytes20 { bytes: signer.expect("a valid key").address().into_array() }
}

/// The four bits at position `i` of a byte string.
pub open spec fn nibble(b: Seq<u8>, i: int) -> nat {
    if i % 2 == 0 {
        b[i / 2] as nat / 16
    } else {
        b[i / 2] as nat % 16
    }
}

/// The checksummed text of an account address (EIP-55): `0x` and its 40
/// hexadecimal digits, where a letter is in upper case if the digit at its
/// place in the hash of the lower-case digits is 8 or more.
pub open spec fn checksummed(account: Seq<u8>) -> Seq<char> {
    let digits = hex_text(account);
    let hash = keccak(Seq::new(digits.len(), |i: int| digits[i] as u8));
    "0x"@ + Seq::new(
        digits.len(),
        |i: int|
            if 'a' <= digits[i] <= 'f' && nibble(hash, i) >= 8 {
                (digits[i] as int - 32) as char
            } else {
                digits[i]
            },
    )
}

/// `alloy_primitives::Address::to_checksum` without a chain id.
///
/// Trusted: the text is the EIP-55 form of the address.
#[verifier::external_body]
fn checksum_text(account: &Bytes20) -> (s: String)
    ensures
        s@ == checksummed(account@),
{
    alloy_primitives::Address::from(account.bytes).to_checksum(None)
}

/// Why no key could be had.
#[derive(Clone, Copy, Debug, PartialEq, Eq, Structural)]
pub enum KeyError {
    /// The private key is not hexadecimal.
    NotHex(HexFault),
    /// The private key is not 32 bytes long.
    WrongLength(usize),
    /// The number is no private key of the curve.
    NotAKey,
    /// Neither a private key nor a keystore was given.
    NoSource,
}

/// What reading a private key out of the text `b` gives.
pub open spec fn reads_key(b: Seq<u8>, r: Result<Seq<u8>, KeyError>) -> bool {
    let digits = strip_0x(b);
    match r {
        Ok(k) => digits.len() == 64 && all_hex(digits) && k == hex_bytes(digits) && is_key(k),
        Err(KeyError::NotHex(HexFault::Odd)) => digits.len() % 2 == 1,
        Err(KeyError::NotHex(HexFault::BadByte { byte, index })) => digits.len() % 2 == 0
            && first_bad(digits, index as int) && byte == digits[index as int],
        Err(KeyError::NotHex(HexFault::Length)) => false,
        Err(KeyError::WrongLength(n)) => digits.len() == 2 * n && n != 32 && all_hex(digits),
        Err(KeyError::NotAKey) => digits.len() == 64 && all_hex(digits) && !is_key(
            hex_bytes(digits),
        ),
        Err(KeyError::NoSource) => false,
    }
}

/// Takes 32 bytes as a private key, where they are one.
pub fn key_from_bytes(secret: Bytes32) -> (r: Option<SigningKey>)
    ensures
        match r {
            Some(k) => k@ == secret@ && k.wf(),
            None => !is_key(secret@),
        },
{
    if accepted_as_key(&secret) {
        Some(SigningKey { secret })
    } else {
        None
    }
}

/// Reads a private key given in hexadecimal, `0x` optional.
pub fn signer_from_private_key(pk: &str) -> (r: Result<SigningKey, KeyError>)
    ensures
        match r {
            Ok(k) => k.wf() && reads_key(pk.spec_bytes(), Ok(k@)),
            Err(e) => reads_key(pk.spec_bytes(), Err(e)),
        },
{
    match read_hex32(pk) {
        Err(ParseFault::NotHex(h)) => Err(KeyError::NotHex(h)),
        Err(ParseFault::WrongLength(n)) => Err(KeyError::WrongLength(n)),
        Ok(secret) => match key_from_bytes(secret) {
            Some(k) => Ok(k),
            None => Err(KeyError::NotAKey),
        },
    }
}

/// A keystore's password.
#[derive(Clone, Debug)]
pub enum Password {
    /// It was given.
    Given(String),
    /// It is to be asked for.
    Prompt,
}

/// Where a command's key comes from.
pub enum KeyPlan {
    /// The key itself was given.
    Ready(SigningKey),
    /// The key is in a keystore, to be decrypted.
    Decrypt { path: String, password: Password },
}

/// The password for a keystore: the one on the command line, else the one in
/// the environment, else the one that the user is asked for.
pub fn resolve_keystore_password(flag: Option<&str>, environment: Option<&str>) -> (p: Password)
    ensures
        match p {
            Password::Given(s) => match (flag, environment) {
                (Some(f), _) => s@ == f@,
                (None, Some(e)) => s@ == e@,
                (None, None) => false,
            },
            Password::Prompt => flag is None && environment is None,
        },
{
    match flag {
        Some(f) => Password::Given(String::from_str(f)),
        None => match environment {
            Some(e) => Password::Given(String::from_str(e)),
            None => Password::Prompt,
        },
    }
}

/// Where to take the key from: a private key on the command line comes first,
/// then a keystore; without either there is none.
pub fn load_signer(
    private_key: Option<&str>,
    keystore: Option<&str>,
    password: Option<&str>,
    environment: Option<&str>,
) -> (r: Result<KeyPlan, KeyError>)
    ensures
        match private_key {
            Some(pk) => match r {
                Ok(KeyPlan::Ready(k)) => k.wf() && reads_key(pk.spec_bytes(), Ok(k@)),
                Ok(KeyPlan::Decrypt { .. }) => false,
                Err(e) => reads_key(pk.spec_bytes(), Err(e)),
            },
            None => match keystore {
                Some(file) => match r {
                    Ok(KeyPlan::Decrypt { path, password: p }) => path@ == file@ && match p {
                        Password::Given(s) => match (password, environment) {
                            (Some(f), _) => s@ == f@,
                            (None, Some(e)) => s@ == e@,
                            (None, None) => false,
                        },
                        Password::Prompt => password is None && environment is None,
                    },
                    _ => false,
                },
                None => r matches Err(KeyError::NoSource),
            },
        },
{
    match private_key {
        Some(pk) => match signer_from_private_key(pk) {
            Ok(k) => Ok(KeyPlan::Ready(k)),
            Err(e) => Err(e),
        },
        None => match keystore {
            Some(file) => Ok(
                KeyPlan::Decrypt {
                    path: String::from_str(file),
                    password: resolve_keystore_password(password, environment),
                },
            ),
            None => Err(KeyError::NoSource),
        },
    }
}

/// The account that a key belongs to.
pub fn address_of(key: &SigningKey) -> (a: Bytes20)
    requires
        key.wf(),
    ensures
        a@ == account_of(key@),
{
    account_of_key(key)
}

/// The line that shows an account: its checksummed address.
pub fn account_line(account: &Bytes20) -> (s: String)
    ensures
        s@ == checksummed(account@),
{
    checksum_text(account)
}

/// The words for a key that could not be had.
pub open spec fn key_message(e: KeyError) -> Seq<char> {
    match e {
        KeyError::NotHex(_) => "private key is not valid hex"@,
        KeyError::WrongLength(n) => "private key must be 32 bytes, got "@ + dec(n as nat),
        KeyError::NotAKey => "invalid secp256k1 private key"@,
        KeyError::NoSource => "no key source provided: pass --private-key or --keystore"@,
    }
}

impl KeyError {
    /// The words for the error.
    pub fn message(&self) -> (s: String)
        ensures
            s@ == key_message(*self),
    {
        match *self {
            KeyError::NotHex(_) => String::from_str("private key is not valid hex"),
            KeyError::WrongLength(n) => join2(
                "private key must be 32 bytes, got ",
                decimal(n as u64).as_str(),
            ),
            KeyError::NotAKey => String::from_str("invalid secp256k1 private key"),
            KeyError::NoSource => String::from_str(
                "no key source provided: pass --private-key or --keystore",
            ),
        }
    }
}

/// A private key is read as it is spelled: 64 digits, in either case, with or without
/// a `0x`, give the 32 bytes that they spell, where their number is above zero and
/// below the order of the group, and else are refused as no key.
pub proof fn keys_are_read_as_spelled(
    digits: Seq<u8>,
    secret: Seq<u8>,
    prefixed: bool,
    r: Result<Seq<u8>, KeyError>,
)
    requires
        crate::hexes::spells(digits, secret),
        secret.len() == 32,
        reads_key(
            if prefixed {
                seq![48u8, 120u8] + digits
            } else {
                digits
            },
            r,
        ),
    ensures
        0 < be_value(secret)
            < 115792089237316195423570985008687907852837564279074904382605163141518161494337nat
            ==> r == Ok::<Seq<u8>, KeyError>(secret),
        !(0 < be_value(secret)
            < 115792089237316195423570985008687907852837564279074904382605163141518161494337nat)
            ==> r == Err::<Seq<u8>, KeyError>(KeyError::NotAKey),
{
    let b = if prefixed {
        seq![48u8, 120u8] + digits
    } else {
        digits
    };
    crate::hexes::digits_read_as_they_spell(digits, secret, secret);
    crate::hexes::lemma_spelled_is_digits(digits, secret);
    assert(crate::hexes::reads32(b, Ok(secret)));
    let stripped = strip_0x(b);
    assert(stripped.len() == 64 && all_hex(stripped) && hex_bytes(stripped) == secret);
    if let Err(KeyError::NotHex(HexFault::BadByte { byte, index })) = r {
        assert(crate::hexes::is_hex_digit(stripped[index as int]));
    }
}

/// Text that is not 64 digits, with or without a `0x`, gives no key.
pub proof fn other_text_is_no_key(b: Seq<u8>, key: Seq<u8>)
    requires
        reads_key(b, Ok(key)),
    ensures
        key.len() == 32,
        0 < be_value(key)
            < 115792089237316195423570985008687907852837564279074904382605163141518161494337nat,
        crate::hexes::spells(b, key) || (b.len() == 66 && b[0] == 48 && b[1] == 120
            && crate::hexes::spells(b.skip(2), key)),
{
    crate::hexes::read_bytes_were_spelled(b, key, ParseFault::WrongLength(0));
}

/// The words for a key that could not be had: each cause has words of its own, and a
/// wrong length is named.
pub proof fn key_errors_say_why(h: HexFault, n: usize)
    ensures
        key_message(KeyError::NotHex(h)) == "private key is not valid hex"@,
        key_message(KeyError::WrongLength(n)) == "private key must be 32 bytes, got "@ + dec(
            n as nat,
        ),
        key_message(KeyError::NotAKey) == "invalid secp256k1 private key"@,
        key_message(KeyError::NoSource)
            == "no key source provided: pass --private-key or --keystore"@,
{
}

/// An account is shown with its own digits: `0x` and 40 digits that spell it, some of
/// them in upper case.
pub proof fn shown_account_is_spelled(account: Seq<u8>)
    requires
        account.len() == 20,
    ensures
        checksummed(account).len() == 42,
        checksummed(account)[0] == '0',
        checksummed(account)[1] == 'x',
        crate::hexes::spells(Seq::new(40, |i: int| checksummed(account)[i + 2] as u8), account),
{
    reveal_strlit("0x");
    crate::hexes::shown_bytes_are_spelled(account);
    let shown = hex_text(account);
    let digits = Seq::new(40, |i: int| checksummed(account)[i + 2] as u8);
    let lower = Seq::new(shown.len(), |i: int| shown[i] as u8);
    assert(crate::hexes::spells(lower, account));
    assert forall|i: int| 0 <= i < 40 implies crate::hexes::digit_meaning(#[trigger] digits[i])
        == crate::hexes::digit_meaning(lower[i]) by {
        assert('0' <= shown[i] <= '9' || 'a' <= shown[i] <= 'f');
    }
    assert forall|i: int| 0 <= i < account.len() implies {
        &&& crate::hexes::digit_meaning(digits[2 * i]) == Some((#[trigger] account[i]) as nat / 16)
        &&& crate::hexes::digit_meaning(digits[2 * i + 1]) == Some(account[i] as nat % 16)
    } by {
        assert(crate::hexes::digit_meaning(lower[2 * i]) == Some(account[i] as nat / 16));
        assert(crate::hexes::digit_meaning(digits[2 * i]) == crate::hexes::digit_meaning(
            lower[2 * i],
        ));
        assert(crate::hexes::digit_meaning(digits[2 * i + 1]) == crate::hexes::digit_meaning(
            lower[2 * i + 1],
        ));
    }
}

/// Where a key comes from: one on the command line is read, whatever else is given, and
/// where it cannot be read that is the error; without it a keystore is opened, with the
/// password of the command line, or else of the environment, or else of the user;
/// without either there is no key.
pub proof fn keys_are_looked_for_in_order(
    private_key: Option<&str>,
    keystore: Option<&str>,
    password: Option<&str>,
    environment: Option<&str>,
    r: Result<KeyPlan, KeyError>,
)
    requires
        call_ensures(load_signer, (private_key, keystore, password, environment), r),
    ensures
        private_key is Some ==> !(r matches Ok(KeyPlan::Decrypt { .. })),
        private_key matches Some(t) ==> (r matches Ok(KeyPlan::Ready(k)) ==> reads_key(
            t.spec_bytes(),
            Ok(k@),
        )),
        private_key matches Some(t) ==> (r matches Err(e) ==> reads_key(t.spec_bytes(), Err(e))),
        private_key is None && keystore is None ==> r matches Err(KeyError::NoSource),
        private_key is None ==> (keystore matches Some(file) ==> r matches Ok(
            KeyPlan::Decrypt { path, password: p },
        ) && path@ == file@ && (p is Prompt <==> password is None && environment is None) && (
        password matches Some(f) ==> p matches Password::Given(s) && s@ == f@) && (password is None
            ==> (environment matches Some(e) ==> p matches Password::Given(s) && s@ == e@))),
{
}

/// A private key's text gives the key that it spells, and 32 bytes are taken as a key
/// where they are one, and as they are.
pub proof fn keys_are_taken_as_they_are(
    text: &str,
    secret: Bytes32,
    taken: Option<SigningKey>,
    read: Result<SigningKey, KeyError>,
)
    requires
        call_ensures(key_from_bytes, (secret,), taken),
        call_ensures(signer_from_private_key, (text,), read),
    ensures
        taken is Some <==> 0 < be_value(secret@)
            < 115792089237316195423570985008687907852837564279074904382605163141518161494337nat,
        taken matches Some(k) ==> k@ == secret@,
        crate::hexes::spells(text.spec_bytes(), secret@) && taken is Some ==> (read matches Ok(k)
            && k@ == secret@),
        crate::hexes::spells(text.spec_bytes(), secret@) && taken is None ==> read matches Err(
            KeyError::NotAKey,
        ),
{
    if crate::hexes::spells(text.spec_bytes(), secret@) {
        let r: Result<Seq<u8>, KeyError> = match read {
            Ok(k) => Ok(k@),
            Err(e) => Err(e),
        };
        keys_are_read_as_spelled(text.spec_bytes(), secret@, false, r);
    }
}

/// The words for a key that could not be had are its error's; an account is shown by its
/// checksummed address, which belongs to the key.
pub proof fn key_errors_are_shown(
    e: KeyError,
    shown: String,
    key: SigningKey,
    account: Bytes20,
    line: String,
)
    requires
        call_ensures(KeyError::message, (&e,), shown),
        call_ensures(address_of, (&key,), account),
        call_ensures(account_line, (&account,), line),
    ensures
        shown@ == key_message(e),
        account@ == account_of(key@),
        line@ == checksummed(account@),
{
}

} // verus!
