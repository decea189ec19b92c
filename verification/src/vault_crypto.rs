//! The ansible-vault cipher: what the `ansible_vault` crate computes, and the facts about it
//! that the library relies on.

use crate::text::{split_on, trim};
use vstd::prelude::*;
use vstd::utf8::{decode_utf8, encode_utf8, valid_utf8};

verus! {

broadcast use vstd::string::group_string_axioms;

/// The error that the `ansible_vault` crate reports.
#[verifier::external_type_specification]
#[verifier::external_body]
pub struct ExVaultError(ansible_vault::VaultError);

/// The header line of a vault in the 1.1 format.
pub open spec fn standard_header() -> Seq<char> {
    "$ANSIBLE_VAULT;1.1;AES256"@
}

/// The text that a list of lines carries: each line trimmed, all joined.
pub open spec fn lines_payload(lines: Seq<Seq<char>>) -> Seq<char>
    decreases lines.len(),
{
    if lines.len() == 0 {
        seq![]
    } else {
        trim(lines[0]) + lines_payload(lines.drop_first())
    }
}

/// The payload of the text that follows a vault header: its lines, trimmed and joined.
pub open spec fn vault_payload(body: Seq<char>) -> Seq<char> {
    lines_payload(split_on(body, '\n'))
}

/// A lower-case hexadecimal digit.
pub open spec fn is_hex_digit(c: char) -> bool {
    ('0' <= c && c <= '9') || ('a' <= c && c <= 'f')
}

/// The body of an encrypted vault: lines of hexadecimal digits, each closed by a line feed.
pub open spec fn is_vault_body(b: Seq<char>) -> bool {
    &&& b.len() > 0
    &&& is_hex_digit(b[0])
    &&& b.last() == '\n'
    &&& forall|i: int| 0 <= i < b.len() ==> is_hex_digit(#[trigger] b[i]) || b[i] == '\n'
}

/// The plain bytes that the vault `text` holds under `password`, if it decrypts:
/// what `ansible_vault::decrypt_vault` computes from the bytes of `text`.
pub uninterp spec fn vault_decryption(text: Seq<char>, password: Seq<char>) -> Option<Seq<u8>>;

/// `text` is a vault, with the standard header, that holds `plain` under `password`: any text
/// made of the standard header line and lines that, trimmed and joined, give the payload of
/// its body decrypts to the UTF-8 bytes of `plain`.
pub open spec fn seals(text: Seq<char>, plain: Seq<char>, password: Seq<char>) -> bool {
    let h = standard_header().len() as int;
    &&& text.len() > h + 1
    &&& text.take(h) == standard_header()
    &&& text[h] == '\n'
    &&& is_vault_body(text.skip(h + 1))
    &&& forall|y: Seq<char>|
        vault_payload(y) == vault_payload(text.skip(h + 1)) ==> #[trigger] vault_decryption(
            standard_header() + seq!['\n'] + y,
            password,
        ) == Some(encode_utf8(plain))
}

/// Decrypts a vault by `ansible_vault::decrypt_vault`, on the bytes of `text`.
///
/// Trusted: the plain bytes, or the failure, are those that `vault_decryption` names for
/// the text and the password.
#[verifier::external_body]
pub(crate) fn decrypt_vault_text(text: &str, password: &str) -> (r: Result<Vec<u8>, ansible_vault::VaultError>)
    ensures
        match vault_decryption(text@, password@) {
            Some(b) => r matches Ok(x) && x@ == b,
            None => r is Err,
        },
{
    ansible_vault::decrypt_vault(text.as_bytes(), password)
}

/// Encrypts the UTF-8 bytes of `plain` by `ansible_vault::encrypt_vault`.
///
/// Trusted: the salt is random, so the text is not named; what is claimed, from the crate's
/// source, is that it succeeds (reading from a byte slice, padding into a buffer sized for
/// it, a cipher and a MAC keyed with fixed-length keys, and hexadecimal text cannot fail),
/// the shape of the text (the standard header line, then lines of hexadecimal digits each
/// closed by a line feed) and that `decrypt_vault` gives the bytes back from any text with
/// that header whose further lines, trimmed and joined, are those of the body (which is what
/// `decrypt_vault` reads of a vault).
#[verifier::external_body]
pub(crate) fn encrypt_vault_text(plain: &str, password: &str) -> (r: Result<String, ansible_vault::VaultError>)
    ensures
        r is Ok,
        r matches Ok(t) ==> seals(t@, plain@, password@),
{
    ansible_vault::encrypt_vault(plain.as_bytes(), password)
}

/// The text that the bytes `b` encode, if they are UTF-8, by `String::from_utf8`; else the
/// message of its error.
///
/// Trusted: valid UTF-8 decodes to the characters it encodes, and anything else fails, as
/// the documentation of `String::from_utf8` states. Nothing is claimed of the message.
#[verifier::external_body]
pub(crate) fn text_from_utf8(b: Vec<u8>) -> (r: Result<String, String>)
    ensures
        match r {
            Ok(s) => valid_utf8(b@) && s@ == decode_utf8(b@),
            Err(_) => !valid_utf8(b@),
        },
{
    String::from_utf8(b).map_err(|e| e.to_string())
}

/// The message of an error of the `ansible_vault` crate, by its `Display`.
///
/// Trusted: nothing is claimed of the text.
#[verifier::external_body]
pub(crate) fn vault_error_message(e: &ansible_vault::VaultError) -> String {
    e.to_string()
}

} // verus!
