//! What this crate takes on trust: the PEM, X.509, digest and JSON routines of
//! `sozu_command_lib` and `serde_json`. The contract of each call into them is
//! believed, not proved; it states what the routine's source shows.

use vstd::prelude::*;

verus! {

/// The error type of `sozu_command_lib`'s certificate routines, carried as is.
#[verifier::external_type_specification]
#[verifier::external_body]
pub struct ExCertificateError(sozu_command_lib::certificate::CertificateError);

/// The certificates that `split_certificate_chain` finds in a text, in order.
pub uninterp spec fn chain_certificates(text: Seq<char>) -> Seq<Seq<char>>;

/// The bytes that `parse_pem` decodes from the first PEM block of a text, or
/// `None` where it reports an error.
pub uninterp spec fn pem_contents(text: Seq<char>) -> Option<Seq<u8>>;

/// The common names and DNS alternative names that `get_cn_and_san_attributes`
/// lists for the certificate that `parse_x509` reads from DER bytes, or `None`
/// where `parse_x509` reports an error.
pub uninterp spec fn x509_names(der: Seq<u8>) -> Option<Seq<Seq<char>>>;

/// The digest that `calculate_fingerprint` computes for a PEM text, or `None`
/// where it reports an error.
pub uninterp spec fn pem_fingerprint(text: Seq<char>) -> Option<Seq<u8>>;

/// The integers that `serde_json::from_str` reads from a text as a
/// `Vec<i32>`, or `None` where it reports an error.
pub uninterp spec fn json_versions(text: Seq<char>) -> Option<Seq<i32>>;

/// The lower-case hexadecimal digit for a value below sixteen.
pub open spec fn hex_digit(nibble: int) -> char {
    if nibble < 10 {
        (48 + nibble) as char
    } else {
        (87 + nibble) as char
    }
}

/// Two lower-case hexadecimal digits for each byte, high digit first.
pub open spec fn hex(bytes: Seq<u8>) -> Seq<char> {
    Seq::new(
        2 * bytes.len(),
        |i: int|
            if i % 2 == 0 {
                hex_digit(bytes[i / 2] as int / 16)
            } else {
                hex_digit(bytes[i / 2] as int % 16)
            },
    )
}

/// One byte is written as its high digit, then its low digit.
pub proof fn lemma_hex_of_one(byte: u8)
    ensures
        hex(seq![byte]) == seq![hex_digit(byte as int / 16), hex_digit(byte as int % 16)],
{
    assert(hex(seq![byte]) =~= seq![hex_digit(byte as int / 16), hex_digit(byte as int % 16)]);
}

/// Calls `sozu_command_lib::certificate::split_certificate_chain`, which cuts
/// the text after each end-of-certificate marker and trims each piece. The
/// result is named, not described.
#[verifier::external_body]
pub(crate) fn split_chain(text: String) -> (certificates: Vec<String>)
    ensures
        certificates.deep_view() == chain_certificates(text@),
{
    sozu_command_lib::certificate::split_certificate_chain(text)
}

/// Calls `sozu_command_lib::certificate::parse_pem` on the text's bytes and
/// keeps the decoded contents. The result is named, not described; the error
/// is handed on untouched.
#[verifier::external_body]
pub(crate) fn decode_pem(text: &String) -> (contents: Result<
    Vec<u8>,
    sozu_command_lib::certificate::CertificateError,
>)
    ensures
        contents is Ok == pem_contents(text@) is Some,
        contents is Ok ==> contents->Ok_0@ == pem_contents(text@)->0,
{
    match sozu_command_lib::certificate::parse_pem(text.as_bytes()) {
        Ok(pem) => Ok(pem.contents),
        Err(err) => Err(err),
    }
}

/// Calls `sozu_command_lib::certificate::parse_x509` on DER bytes and, on the
/// certificate it returns, `get_cn_and_san_attributes`. The parsed certificate
/// borrows from the bytes and never leaves this function. The result is named,
/// not described; the error is handed on untouched.
#[verifier::external_body]
pub(crate) fn subject_names(der: &Vec<u8>) -> (names: Result<
    Vec<String>,
    sozu_command_lib::certificate::CertificateError,
>)
    ensures
        names is Ok == x509_names(der@) is Some,
        names is Ok ==> names->Ok_0.deep_view() == x509_names(der@)->0,
{
    match sozu_command_lib::certificate::parse_x509(der) {
        Ok(x509) => Ok(sozu_command_lib::certificate::get_cn_and_san_attributes(&x509)),
        Err(err) => Err(err),
    }
}

/// Calls `sozu_command_lib::certificate::calculate_fingerprint` on the text's
/// bytes: the SHA-256 digest of the decoded PEM contents. The result is named,
/// not described; the error is handed on untouched. The routine decodes the
/// text with `parse_pem` and fails where that fails, and nowhere else.
#[verifier::external_body]
pub(crate) fn fingerprint_of(text: &String) -> (digest: Result<
    Vec<u8>,
    sozu_command_lib::certificate::CertificateError,
>)
    ensures
        digest is Ok == pem_fingerprint(text@) is Some,
        digest is Ok == pem_contents(text@) is Some,
        digest is Ok ==> digest->Ok_0@ == pem_fingerprint(text@)->0,
{
    sozu_command_lib::certificate::calculate_fingerprint(text.as_bytes())
}

/// Formats the bytes as `sozu_command_lib::certificate::Fingerprint` displays
/// them: through `hex::encode`, two lower-case digits per byte.
#[verifier::external_body]
pub(crate) fn fingerprint_text(fingerprint: &Vec<u8>) -> (text: String)
    ensures
        text@ == hex(fingerprint@),
{
    sozu_command_lib::certificate::Fingerprint(fingerprint.clone()).to_string()
}

/// Calls `serde_json::from_str` for a `Vec<i32>` and drops the error's
/// detail. The result is named, not described.
#[verifier::external_body]
pub(crate) fn versions_from_json(text: &String) -> (versions: Option<Vec<i32>>)
    ensures
        versions is Some == json_versions(text@) is Some,
        versions is Some ==> versions->0@ == json_versions(text@)->0,
{
    serde_json::from_str(text).ok()
}

} // verus!
