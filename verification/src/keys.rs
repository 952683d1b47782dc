//! The key that an attestation vouches for: made, recovered, and tried out.

use crate::crypto::{
    hex_bytes, hex_decode, hex_digit, hex_encode, hex_text, hex_value, public_point,
    public_point_of, random_secret_key, secret_key_from_bytes, sign, signature_of, signature_valid,
    valid_secret_key, verify,
};
use crate::wire::same_bytes;
use vstd::prelude::*;
use vstd::string::{is_ascii, is_ascii_spec_bytes, StringSliceAdditionalSpecFns};

verus! {

broadcast use {vstd::string::group_string_axioms, vstd::slice::group_slice_axioms};

/// What a key is tried out on.
pub open spec fn trial_message() -> Seq<u8> {
    "I am OKX".spec_bytes()
}

/// The trial message: eight ASCII characters.
pub fn trial_text() -> (r: &'static [u8])
    ensures
        r@ == trial_message(),
        r@ == seq![73u8, 32, 97, 109, 32, 79, 75, 88],
{
    proof {
        lemma_trial_message();
    }
    "I am OKX".as_bytes()
}

/// The trial message, byte by byte.
pub proof fn lemma_trial_message()
    ensures
        trial_message() == seq![73u8, 32, 97, 109, 32, 79, 75, 88],
{
    reveal_strlit("I am OKX");
    assert(is_ascii("I am OKX"));
    is_ascii_spec_bytes("I am OKX");
    assert(trial_message() =~= seq![73u8, 32, 97, 109, 32, 79, 75, 88]);
}

/// A key that stood its trial, with what there is to log of it.
#[derive(Debug)]
pub struct KeyReport {
    pub secret_key: Vec<u8>,
    pub secret_key_hex: String,
    pub public_key: Vec<u8>,
    pub public_key_hex: String,
    pub message_hex: String,
    pub signature: Vec<u8>,
    pub signature_hex: String,
}

/// How a key can fail its trial.
#[derive(Clone, Copy, Debug, PartialEq, Eq, Structural)]
pub enum KeyFault {
    /// The key cannot be read back from its hexadecimal text.
    Recovery,
    /// The key that was read back is another one.
    Mismatch,
    /// The key cannot sign.
    Signing,
    /// The signature does not verify.
    Verification,
}

/// The report tells of this key, this public key and this signature.
pub open spec fn reports(
    report: KeyReport,
    secret_key: Seq<u8>,
    public_key: Seq<u8>,
    signature: Seq<u8>,
) -> bool {
    &&& report.secret_key@ == secret_key
    &&& report.secret_key_hex@ == hex_text(secret_key)
    &&& report.public_key@ == public_key
    &&& report.public_key_hex@ == hex_text(public_key)
    &&& report.message_hex@ == hex_text(trial_message())
    &&& report.signature@ == signature
    &&& report.signature_hex@ == hex_text(signature)
}

/// The first step of a trial that fails, if one does.
pub open spec fn trial_fault(
    secret_key: Seq<u8>,
    recovered: Option<Seq<u8>>,
    signature: Option<Seq<u8>>,
    verified: bool,
) -> Option<KeyFault> {
    match (recovered, signature) {
        (None, _) => Some(KeyFault::Recovery),
        (Some(k), _) if k != secret_key => Some(KeyFault::Mismatch),
        (_, None) => Some(KeyFault::Signing),
        _ => if verified {
            None
        } else {
            Some(KeyFault::Verification)
        },
    }
}

/// The bytes of an optional list.
pub open spec fn opt_bytes(v: Option<Vec<u8>>) -> Option<Seq<u8>> {
    match v {
        Some(b) => Some(b@),
        None => None,
    }
}

/// Judges a trial by what came of its steps.
pub fn judge_trial(
    secret_key: Vec<u8>,
    recovered: Option<Vec<u8>>,
    public_key: Vec<u8>,
    signature: Option<Vec<u8>>,
    verified: bool,
) -> (r: Result<KeyReport, KeyFault>)
    requires
        2 * secret_key@.len() <= isize::MAX,
        2 * public_key@.len() <= isize::MAX,
        signature matches Some(s) ==> 2 * s@.len() <= isize::MAX,
    ensures
        match r {
            Ok(report) => {
                &&& trial_fault(
                    secret_key@,
                    opt_bytes(recovered),
                    opt_bytes(signature),
                    verified,
                ) is None
                &&& reports(report, secret_key@, public_key@, signature->0@)
                &&& recovered matches Some(k) && k@ == secret_key@
                &&& signature is Some && verified
                &&& report.secret_key@ == secret_key@
                &&& report.public_key@ == public_key@
                &&& report.signature@ == signature->0@
                &&& report.secret_key_hex@ == hex_text(secret_key@)
                &&& report.public_key_hex@ == hex_text(public_key@)
                &&& report.message_hex@ == "4920616d204f4b58"@
                &&& report.signature_hex@ == hex_text(signature->0@)
            },
            Err(fault) => trial_fault(
                secret_key@,
                opt_bytes(recovered),
                opt_bytes(signature),
                verified,
            ) == Some(fault),
        },
        r == Err::<KeyReport, KeyFault>(KeyFault::Recovery) <==> recovered is None,
        r == Err::<KeyReport, KeyFault>(KeyFault::Mismatch) <==> (recovered matches Some(k) && k@
            != secret_key@),
        r == Err::<KeyReport, KeyFault>(KeyFault::Signing) <==> (recovered matches Some(k) && k@
            == secret_key@ && signature is None),
        r == Err::<KeyReport, KeyFault>(KeyFault::Verification) <==> (recovered matches Some(k)
            && k@ == secret_key@ && signature is Some && !verified),
{
    match recovered {
        None => {
            return Err(KeyFault::Recovery);
        },
        Some(key) => {
            if !same_bytes(key.as_slice(), secret_key.as_slice()) {
                return Err(KeyFault::Mismatch);
            }
        },
    }
    match signature {
        None => Err(KeyFault::Signing),
        Some(signature) => {
            if !verified {
                return Err(KeyFault::Verification);
            }
            let message: &[u8] = trial_text();
            proof {
                reveal_strlit("4920616d204f4b58");
                assert(hex_text(message@) =~= "4920616d204f4b58"@);
            }
            let secret_key_hex = hex_encode(secret_key.as_slice());
            let public_key_hex = hex_encode(public_key.as_slice());
            let message_hex = hex_encode(message);
            let signature_hex = hex_encode(signature.as_slice());
            Ok(
                KeyReport {
                    secret_key,
                    secret_key_hex,
                    public_key,
                    public_key_hex,
                    message_hex,
                    signature,
                    signature_hex,
                },
            )
        },
    }
}

/// The secret key that a hexadecimal text spells, if it spells a valid one.
pub open spec fn key_in_hex(text: Seq<char>) -> Option<Seq<u8>> {
    match hex_bytes(text) {
        Some(b) if valid_secret_key(b) => Some(b),
        _ => None,
    }
}

/// Reads a secret key back from its hexadecimal text.
pub fn recover_secret_key(text: &str) -> (r: Option<Vec<u8>>)
    ensures
        opt_bytes(r) == key_in_hex(text@),
{
    match hex_decode(text) {
        None => None,
        Some(bytes) => if bytes.len() == 32 {
            secret_key_from_bytes(bytes.as_slice())
        } else {
            None
        },
    }
}

/// Tries a secret key out: reads it back from its hexadecimal text, signs with it and
/// verifies the signature. Only signing can fail.
pub fn try_key(secret_key: Vec<u8>) -> (r: Result<KeyReport, KeyFault>)
    requires
        valid_secret_key(secret_key@),
    ensures
        match r {
            Ok(report) => {
                &&& signature_of(secret_key@, trial_message()) is Some
                &&& reports(
                    report,
                    secret_key@,
                    public_point(secret_key@),
                    signature_of(secret_key@, trial_message())->0,
                )
                &&& report.secret_key@ == secret_key@
                &&& report.public_key@ == public_point(secret_key@)
                &&& report.public_key@.len() == 65
                &&& report.signature@.len() == 64
                &&& signature_of(secret_key@, seq![73u8, 32, 97, 109, 32, 79, 75, 88]) == Some(
                    report.signature@,
                )
                &&& signature_valid(
                    report.public_key@,
                    seq![73u8, 32, 97, 109, 32, 79, 75, 88],
                    report.signature@,
                )
            },
            Err(fault) => fault == KeyFault::Signing && signature_of(
                secret_key@,
                trial_message(),
            ) is None,
        },
{
    let text = hex_encode(secret_key.as_slice());
    proof {
        law_hex_reads_back(secret_key@);
    }
    let recovered = recover_secret_key(text.as_str());
    let public_key = public_point_of(secret_key.as_slice());
    let message: &[u8] = trial_text();
    let signature = sign(secret_key.as_slice(), message);
    let verified: bool = match &signature {
        Some(s) => verify(public_key.as_slice(), message, s.as_slice()),
        None => false,
    };
    judge_trial(secret_key, recovered, public_key, signature, verified)
}

/// Makes a key at random and tries it out. Whichever key came up, the report is that
/// of a valid key.
pub fn new_key() -> (r: Result<KeyReport, KeyFault>)
    ensures
        match r {
            Ok(report) => {
                let key = report.secret_key@;
                &&& valid_secret_key(key)
                &&& signature_of(key, trial_message()) is Some
                &&& reports(
                    report,
                    key,
                    public_point(key),
                    signature_of(key, trial_message())->0,
                )
                &&& report.public_key@ == public_point(key)
                &&& report.public_key@.len() == 65
                &&& signature_valid(
                    report.public_key@,
                    seq![73u8, 32, 97, 109, 32, 79, 75, 88],
                    report.signature@,
                )
            },
            Err(fault) => fault == KeyFault::Signing && exists|key: Seq<u8>|
                valid_secret_key(key) && #[trigger] signature_of(key, trial_message()) is None,
        },
{
    let secret_key = random_secret_key();
    try_key(secret_key)
}

/// What is written in hexadecimal reads back as it was.
pub proof fn law_hex_reads_back(data: Seq<u8>)
    ensures
        hex_text(data).len() == 2 * data.len(),
        hex_bytes(hex_text(data)) == Some(data),
{
    let s = hex_text(data);
    assert forall|d: nat| d < 16 implies #[trigger] hex_value(hex_digit(d)) == Some(d) by {}
    assert forall|i: int| 0 <= i < s.len() implies hex_value(#[trigger] s[i]) is Some by {
        let d = if i % 2 == 0 {
            (data[i / 2] / 16) as nat
        } else {
            (data[i / 2] % 16) as nat
        };
        assert(s[i] == hex_digit(d));
        assert(hex_value(hex_digit(d)) == Some(d));
    }
    let back = hex_bytes(s)->0;
    assert forall|i: int| 0 <= i < data.len() implies back[i] == data[i] by {
        assert((2 * i) / 2 == i && (2 * i) % 2 == 0 && (2 * i + 1) / 2 == i && (2 * i + 1) % 2
            == 1);
        assert(s[2 * i] == hex_digit((data[i] / 16) as nat));
        assert(s[2 * i + 1] == hex_digit((data[i] % 16) as nat));
        assert(hex_value(hex_digit((data[i] / 16) as nat)) == Some((data[i] / 16) as nat));
        assert(hex_value(hex_digit((data[i] % 16) as nat)) == Some((data[i] % 16) as nat));
    }
    assert(back =~= data);
}

/// A valid secret key is recovered from its hexadecimal text.
pub proof fn law_key_recovers(key: Seq<u8>)
    requires
        valid_secret_key(key),
    ensures
        key_in_hex(hex_text(key)) == Some(key),
{
    law_hex_reads_back(key);
}

/// A text spells a key exactly if it is the hexadecimal of one, in digits of either case:
/// 64 digits of a number above zero and below the order of the curve.
pub proof fn law_key_in_hex(text: Seq<char>)
    ensures
        match key_in_hex(text) {
            Some(key) => {
                &&& hex_bytes(text) == Some(key)
                &&& text.len() == 64
                &&& valid_secret_key(key)
            },
            None => match hex_bytes(text) {
                Some(b) => !valid_secret_key(b),
                None => true,
            },
        },
{
}

} // verus!
