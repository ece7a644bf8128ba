//! The cryptographic envelope: long-term keys, and payloads sealed to a set
//! of recipients for transport as text.
//!
//! A payload is serialised as CBOR, encrypted with age to the X25519 keys of
//! its recipients, and written as unpadded base64.

use crate::errors::BmailError;
use crate::text::{clone_texts, text_same, texts};
use age::secrecy::ExposeSecret;
use base64::Engine;
use std::collections::BTreeMap;
use std::io::Read;
use std::io::Write;
use std::str::FromStr;
use vstd::prelude::*;
use vstd::string::*;

verus! {

/// The error of `base64`'s decoder.
#[verifier::external_type_specification]
#[verifier::external_body]
pub struct ExBase64DecodeError(base64::DecodeError);

/// The error of age's encryptor.
#[verifier::external_type_specification]
#[verifier::external_body]
pub struct ExAgeEncryptError(age::EncryptError);

/// The error of age's decryptor.
#[verifier::external_type_specification]
#[verifier::external_body]
pub struct ExAgeDecryptError(age::DecryptError);

/// The text that unpadded standard base64 writes for `bytes`.
pub uninterp spec fn base64_text(bytes: Seq<u8>) -> Seq<char>;

/// The bytes that unpadded standard base64 reads from `text`, if it reads any.
pub uninterp spec fn base64_bytes(text: Seq<char>) -> Option<Seq<u8>>;

/// Whether `text` is an X25519 secret key as age writes one.
pub uninterp spec fn identity_text_valid(text: Seq<char>) -> bool;

/// The public key that belongs to the secret key `secret`, as age writes it.
pub uninterp spec fn public_key_text(secret: Seq<char>) -> Seq<char>;

/// The public key that age reads from `text`, written back by age; `None`
/// where age reads none.
pub uninterp spec fn recipient_text(text: Seq<char>) -> Option<Seq<char>>;

/// What age recovers from `sealed` with the secret key `secret`, if anything.
pub uninterp spec fn age_plaintext(secret: Seq<char>, sealed: Seq<u8>) -> Option<Seq<u8>>;

/// The base64 of `len` bytes has a length that fits the machine.
pub open spec fn base64_input_fits(len: nat) -> bool {
    len / 3 * 4 + 3 <= usize::MAX
}

/// `base64::engine::general_purpose::STANDARD_NO_PAD.encode`: the text is the
/// unpadded standard base64 of the bytes, which the decoder reads back as
/// those bytes. The encoder aborts when the length of the text would not
/// fit the machine; such inputs are left out.
#[verifier::external_body]
fn base64_encode(bytes: &[u8]) -> (text: String)
    requires
        base64_input_fits(bytes@.len()),
    ensures
        text@ == base64_text(bytes@),
        base64_bytes(text@) == Some(bytes@),
{
    base64::engine::general_purpose::STANDARD_NO_PAD.encode(bytes)
}

/// `base64::engine::general_purpose::STANDARD_NO_PAD.decode`: succeeds on
/// exactly the texts that are unpadded standard base64, with the bytes they
/// stand for.
#[verifier::external_body]
fn base64_decode(text: &str) -> (r: Result<Vec<u8>, base64::DecodeError>)
    ensures
        r.is_ok() == base64_bytes(text@).is_some(),
        r.is_ok() ==> r.unwrap()@ == base64_bytes(text@).unwrap(),
{
    base64::engine::general_purpose::STANDARD_NO_PAD.decode(text)
}

/// `age::x25519::Identity::from_str`: tells whether age accepts the text as
/// a secret key. It accepts no empty text.
#[verifier::external_body]
fn age_identity_parses(text: &str) -> (ok: bool)
    ensures
        ok == identity_text_valid(text@),
        ok ==> text@.len() > 0,
{
    age::x25519::Identity::from_str(text).is_ok()
}

/// `age::x25519::Identity::generate` and `to_string`: a fresh secret key in
/// age's own notation, which age reads back. age aborts where the operating
/// system hands out no randomness.
#[verifier::external_body]
fn age_generate_identity() -> (secret: String)
    ensures
        identity_text_valid(secret@),
        secret@.len() > 0,
{
    age::x25519::Identity::generate().to_string().expose_secret().clone()
}

/// `age::x25519::Identity::from_str`, `to_public` and the `Display` of the
/// recipient: the public key of a secret key, in age's own notation, which
/// age reads back as it stands.
#[verifier::external_body]
fn age_public_key(secret: &str) -> (key: String)
    requires
        identity_text_valid(secret@),
    ensures
        key@ == public_key_text(secret@),
        recipient_text(key@) == Some(key@),
{
    age::x25519::Identity::from_str(secret).unwrap().to_public().to_string()
}

/// `age::x25519::Recipient::from_str` and its `Display`: the public key
/// read from a text, in age's own notation, which age reads back as it
/// stands.
#[verifier::external_body]
fn age_recipient_text(text: &str) -> (key: Option<String>)
    ensures
        key.is_some() == recipient_text(text@).is_some(),
        key.is_some() ==> key.unwrap()@ == recipient_text(text@).unwrap(),
        key.is_some() ==> recipient_text(key.unwrap()@) == Some(key.unwrap()@),
{
    age::x25519::Recipient::from_str(text).ok().map(|r| r.to_string())
}

/// `age::x25519::Identity::from_str`, `age::Decryptor::new`,
/// `RecipientsDecryptor::decrypt` and the reader it returns: the plaintext
/// of a file sealed to the given secret key, which depends on the key and
/// the file alone. Of a file sealed with a passphrase nothing is opened:
/// the wrapper hands back `None` for it, and the caller decides.
#[verifier::external_body]
fn age_decrypt(secret: &str, sealed: &[u8]) -> (r: Result<Option<Vec<u8>>, age::DecryptError>)
    requires
        identity_text_valid(secret@),
    ensures
        match r {
            Ok(Some(plain)) => age_plaintext(secret@, sealed@) == Some(plain@),
            _ => age_plaintext(secret@, sealed@).is_none(),
        },
{
    let identity = age::x25519::Identity::from_str(secret).unwrap();
    let decryptor = match age::Decryptor::new(sealed)? {
        age::Decryptor::Recipients(d) => d,
        age::Decryptor::Passphrase(_) => return Ok(None),
    };
    let mut reader = decryptor.decrypt(std::iter::once(&identity as &dyn age::Identity))?;
    let mut plain = Vec::new();
    reader.read_to_end(&mut plain)?;
    Ok(Some(plain))
}

/// The error of ciborium's serialiser.
#[verifier::external_type_specification]
#[verifier::external_body]
#[verifier::reject_recursive_types(T)]
pub struct ExCborSerError<T>(ciborium::ser::Error<T>);

/// The error of ciborium's deserialiser.
#[verifier::external_type_specification]
#[verifier::external_body]
#[verifier::reject_recursive_types(T)]
pub struct ExCborDeError<T>(ciborium::de::Error<T>);

/// The error of the standard library's readers and writers.
#[verifier::external_type_specification]
#[verifier::external_body]
pub struct ExIoError(std::io::Error);

/// The CBOR that ciborium writes for a list of bytes, if it writes any.
pub uninterp spec fn cbor_of_bytes(payload: Seq<u8>) -> Option<Seq<u8>>;

/// The list of bytes that ciborium reads from CBOR, if it reads one.
pub uninterp spec fn bytes_of_cbor(cbor: Seq<u8>) -> Option<Seq<u8>>;

/// `ciborium::ser::into_writer` on a list of bytes: the CBOR written, which
/// `from_reader` reads back as that list.
#[verifier::external_body]
fn cbor_encode_bytes(
    payload: &Vec<u8>,
) -> (r: Result<Vec<u8>, ciborium::ser::Error<std::io::Error>>)
    ensures
        r.is_ok() == cbor_of_bytes(payload@).is_some(),
        r.is_ok() ==> r.unwrap()@ == cbor_of_bytes(payload@).unwrap(),
        r.is_ok() ==> bytes_of_cbor(r.unwrap()@) == Some(payload@),
{
    let mut buffer: Vec<u8> = Vec::new();
    ciborium::ser::into_writer(payload, &mut buffer)?;
    Ok(buffer)
}

/// `ciborium::de::from_reader` for a list of bytes.
#[verifier::external_body]
fn cbor_decode_bytes(cbor: &[u8]) -> (r: Result<Vec<u8>, ciborium::de::Error<std::io::Error>>)
    ensures
        r.is_ok() == bytes_of_cbor(cbor@).is_some(),
        r.is_ok() ==> r.unwrap()@ == bytes_of_cbor(cbor@).unwrap(),
{
    ciborium::de::from_reader(cbor)
}

/// The entries of a directory as they are written: the participants of a
/// conversation and the text of its identifier.
pub open spec fn wire_view(
    entries: Seq<(Vec<String>, String)>,
) -> Seq<(Seq<Seq<char>>, Seq<char>)> {
    Seq::new(entries.len(), |i: int| (texts(entries[i].0@), entries[i].1@))
}

/// A line of a directory as it is read: each of its two fields, where the
/// line holds it and it has the right shape.
pub type ReadLine = (Option<Seq<Seq<char>>>, Option<Seq<char>>);

/// The name of the field that holds the participants of a line.
pub open spec fn participants_field() -> Seq<char> {
    "participants"@
}

/// The name of the field that holds the identifier of a line.
pub open spec fn conversation_id_field() -> Seq<char> {
    "conversation_id"@
}

/// The lines read, as mathematical values.
pub open spec fn read_view(lines: Seq<(Option<Vec<String>>, Option<String>)>) -> Seq<ReadLine> {
    Seq::new(
        lines.len(),
        |i: int|
            (
                match lines[i].0 {
                    Some(p) => Some(texts(p@)),
                    None => None,
                },
                match lines[i].1 {
                    Some(t) => Some(t@),
                    None => None,
                },
            ),
    )
}

/// The lines `entries` as they are read where nothing is missing.
pub open spec fn complete(entries: Seq<(Seq<Seq<char>>, Seq<char>)>) -> Seq<ReadLine> {
    Seq::new(entries.len(), |i: int| (Some(entries[i].0), Some(entries[i].1)))
}

/// Every line holds both fields.
pub open spec fn all_present(lines: Seq<ReadLine>) -> bool {
    forall|i: int| 0 <= i < lines.len() ==> (#[trigger] lines[i]).0.is_some() && lines[i].1.is_some()
}

/// The fields of the lines, where every line holds both.
pub open spec fn present(lines: Seq<ReadLine>) -> Seq<(Seq<Seq<char>>, Seq<char>)> {
    Seq::new(lines.len(), |i: int| (lines[i].0.unwrap(), lines[i].1.unwrap()))
}

/// The CBOR that ciborium writes for a directory whose lines are maps with
/// the two fields named, if it writes any.
pub uninterp spec fn cbor_of_directory(
    entries: Seq<(Seq<Seq<char>>, Seq<char>)>,
    participants: Seq<char>,
    conversation_id: Seq<char>,
) -> Option<Seq<u8>>;

/// The lines that ciborium reads from CBOR, if it reads a list of maps:
/// of each map the two fields named, where the map holds them as a list of
/// texts and as a text.
pub uninterp spec fn directory_of_cbor(
    cbor: Seq<u8>,
    participants: Seq<char>,
    conversation_id: Seq<char>,
) -> Option<Seq<ReadLine>>;

/// `ciborium::value::Value::serialized` on the fields of each line, and
/// `ciborium::ser::into_writer` on the lines as maps from the names of the
/// fields: the CBOR written, which `from_reader` reads back as those lines
/// with nothing missing. The names must differ.
#[verifier::external_body]
fn cbor_encode_directory(
    entries: &Vec<(Vec<String>, String)>,
    participants: &str,
    conversation_id: &str,
) -> (r: Result<Vec<u8>, ciborium::ser::Error<std::io::Error>>)
    requires
        participants@ != conversation_id@,
    ensures
        r.is_ok() == cbor_of_directory(wire_view(entries@), participants@, conversation_id@).is_some(),
        r.is_ok() ==> r.unwrap()@ == cbor_of_directory(
            wire_view(entries@),
            participants@,
            conversation_id@,
        ).unwrap(),
        r.is_ok() ==> directory_of_cbor(r.unwrap()@, participants@, conversation_id@) == Some(
            complete(wire_view(entries@)),
        ),
{
    let lines: Vec<BTreeMap<&str, ciborium::Value>> = entries.iter().map(
        |(p, id)| BTreeMap::from([
            (participants, ciborium::Value::serialized(p).unwrap()),
            (conversation_id, ciborium::Value::serialized(id).unwrap()),
        ]),
    ).collect();
    let mut buffer: Vec<u8> = Vec::new();
    ciborium::ser::into_writer(&lines, &mut buffer)?;
    Ok(buffer)
}

/// `ciborium::de::from_reader` for a list of maps, and
/// `ciborium::value::Value::deserialized` on the two fields named of each
/// map: the fields, where the map holds them. Other fields are passed over.
#[verifier::external_body]
fn cbor_decode_directory(cbor: &[u8], participants: &str, conversation_id: &str) -> (r: Result<
    Vec<(Option<Vec<String>>, Option<String>)>,
    ciborium::de::Error<std::io::Error>,
>)
    ensures
        r.is_ok() == directory_of_cbor(cbor@, participants@, conversation_id@).is_some(),
        r.is_ok() ==> read_view(r.unwrap()@) == directory_of_cbor(
            cbor@,
            participants@,
            conversation_id@,
        ).unwrap(),
{
    let lines: Vec<BTreeMap<String, ciborium::Value>> = ciborium::de::from_reader(cbor)?;
    Ok(
        lines.iter().map(
            |m| (
                m.get(participants).and_then(|v| v.deserialized().ok()),
                m.get(conversation_id).and_then(|v| v.deserialized().ok()),
            ),
        ).collect(),
    )
}

/// The public keys to which age cannot seal: the points of low order, in
/// age's notation, with and without the unused high bit.
pub open spec fn is_low_order_key(key: Seq<char>) -> bool {
    ||| key == "age1qqqqqqqqqqqqqqqqqqqqqqqqqqqqqqqqqqqqqqqqqqqqqqqqqqqq5cu47z"@
    ||| key == "age1qqqqqqqqqqqqqqqqqqqqqqqqqqqqqqqqqqqqqqqqqqqqqqqqqzqqsuwj9m"@
    ||| key == "age1qyqqqqqqqqqqqqqqqqqqqqqqqqqqqqqqqqqqqqqqqqqqqqqqqqqqj7vrya"@
    ||| key == "age1qyqqqqqqqqqqqqqqqqqqqqqqqqqqqqqqqqqqqqqqqqqqqqqqqzqqk67yly"@
    ||| key == "age1ur4h5lpmgxu2u9jku0a0r87ydtdqnr0tnsetrlvxvgz3vh6fhqqqzyt4v9"@
    ||| key == "age1ur4h5lpmgxu2u9jku0a0r87ydtdqnr0tnsetrlvxvgz3vh6fhzqqxqejhu"@
    ||| key == "age1t7wft09r2zxzfvwsk92eeql0tvzyghxytqwgapkcyf8dm5ylz9ts6wm9s8"@
    ||| key == "age1t7wft09r2zxzfvwsk92eeql0tvzyghxytqwgapkcyf8dm5ylz8ts72fzt7"@
    ||| key == "age1anlllllllllllllllllllllllllllllllllllllllllllllllals4n2t7m"@
    ||| key == "age1anllllllllllllllllllllllllllllllllllllllllllllllllls3hcv9z"@
    ||| key == "age1ahlllllllllllllllllllllllllllllllllllllllllllllllalsn46ayy"@
    ||| key == "age1ahlllllllllllllllllllllllllllllllllllllllllllllllllsh3g6la"@
    ||| key == "age1amlllllllllllllllllllllllllllllllllllllllllllllllalselrwrv"@
    ||| key == "age1amlllllllllllllllllllllllllllllllllllllllllllllllllsam3fc4"@
}

/// Whether age can seal to the key `key`.
pub open spec fn key_usable(key: Seq<char>) -> bool {
    recipient_text(key) == Some(key) && !is_low_order_key(key)
}

/// The secret key `secret` belongs to one of the public keys `keys`.
pub open spec fn opens_for(keys: Seq<Seq<char>>, secret: Seq<char>) -> bool {
    identity_text_valid(secret) && keys.contains(public_key_text(secret))
}

/// `sealed` is `plain` sealed to `keys`: every secret key that belongs to
/// one of them opens it to `plain`.
pub open spec fn sealed_to(sealed: Seq<u8>, keys: Seq<Seq<char>>, plain: Seq<u8>) -> bool {
    forall|secret: Seq<char>| #[trigger]
        opens_for(keys, secret) ==> age_plaintext(secret, sealed) == Some(plain)
}

/// `age::x25519::Recipient::from_str`, `age::Encryptor::with_recipients`,
/// `wrap_output`, and `write_all` and `finish` of the writer it returns: the
/// payload sealed to the keys. age draws a fresh file key on every call, so
/// nothing is said of the bytes. It refuses an empty list, and aborts on a
/// key of low order, whose shared secret is zero: both are left out. It
/// also aborts where the operating system hands out no randomness. Whatever
/// bytes come back, the file holds a stanza for every key, and the secret
/// key of each opens it to the payload.
#[verifier::external_body]
fn age_encrypt(keys: &Vec<String>, payload: &[u8]) -> (r: Result<Vec<u8>, age::EncryptError>)
    requires
        keys@.len() > 0,
        forall|i: int| 0 <= i < keys@.len() ==> key_usable(#[trigger] keys@[i]@),
    ensures
        r.is_ok() ==> sealed_to(r.unwrap()@, texts(keys@), payload@),
{
    let mut sealed: Vec<u8> = Vec::new();
    let recipients = keys.iter().map(
        |k| Box::new(age::x25519::Recipient::from_str(k).unwrap()) as Box<dyn age::Recipient + Send>,
    ).collect();
    let mut writer = age::Encryptor::with_recipients(recipients).unwrap().wrap_output(&mut sealed)?;
    writer.write_all(payload)?;
    writer.finish()?;
    Ok(sealed)
}

/// The long-term secret key of the local user.
pub struct Identity {
    secret: String,
}

/// The public key of an account, to which messages are sealed.
pub struct Recipient {
    key: String,
}

impl Recipient {
    #[verifier::type_invariant]
    spec fn well_formed(self) -> bool {
        recipient_text(self.key@) == Some(self.key@)
    }

    /// The key in age's notation.
    pub closed spec fn key(&self) -> Seq<char> {
        self.key@
    }

    /// Reads a public key. Fails with `ParseRecipientError` on a text that
    /// age does not accept.
    pub fn parse(text: &str) -> (r: Result<Recipient, BmailError>)
        ensures
            match recipient_text(text@) {
                Some(key) => r matches Ok(recipient) && recipient.key() == key,
                None => r matches Err(e) && e == BmailError::ParseRecipientError,
            },
    {
        match age_recipient_text(text) {
            Some(key) => Ok(Recipient { key }),
            None => Err(BmailError::ParseRecipientError),
        }
    }

    /// The key in age's notation.
    pub fn to_text(&self) -> (text: String)
        ensures
            text@ == self.key(),
            recipient_text(text@) == Some(text@),
    {
        proof {
            use_type_invariant(self);
        }
        self.key.clone()
    }

    /// Whether the key is a point of low order, to which nothing can be sealed.
    pub fn is_low_order(&self) -> (b: bool)
        ensures
            b == is_low_order_key(self.key()),
    {
        let k = self.key.as_str();
        text_same(k, "age1qqqqqqqqqqqqqqqqqqqqqqqqqqqqqqqqqqqqqqqqqqqqqqqqqqqq5cu47z")
            || text_same(k, "age1qqqqqqqqqqqqqqqqqqqqqqqqqqqqqqqqqqqqqqqqqqqqqqqqqzqqsuwj9m")
            || text_same(k, "age1qyqqqqqqqqqqqqqqqqqqqqqqqqqqqqqqqqqqqqqqqqqqqqqqqqqqj7vrya")
            || text_same(k, "age1qyqqqqqqqqqqqqqqqqqqqqqqqqqqqqqqqqqqqqqqqqqqqqqqqzqqk67yly")
            || text_same(k, "age1ur4h5lpmgxu2u9jku0a0r87ydtdqnr0tnsetrlvxvgz3vh6fhqqqzyt4v9")
            || text_same(k, "age1ur4h5lpmgxu2u9jku0a0r87ydtdqnr0tnsetrlvxvgz3vh6fhzqqxqejhu")
            || text_same(k, "age1t7wft09r2zxzfvwsk92eeql0tvzyghxytqwgapkcyf8dm5ylz9ts6wm9s8")
            || text_same(k, "age1t7wft09r2zxzfvwsk92eeql0tvzyghxytqwgapkcyf8dm5ylz8ts72fzt7")
            || text_same(k, "age1anlllllllllllllllllllllllllllllllllllllllllllllllals4n2t7m")
            || text_same(k, "age1anllllllllllllllllllllllllllllllllllllllllllllllllls3hcv9z")
            || text_same(k, "age1ahlllllllllllllllllllllllllllllllllllllllllllllllalsn46ayy")
            || text_same(k, "age1ahlllllllllllllllllllllllllllllllllllllllllllllllllsh3g6la")
            || text_same(k, "age1amlllllllllllllllllllllllllllllllllllllllllllllllalselrwrv")
            || text_same(k, "age1amlllllllllllllllllllllllllllllllllllllllllllllllllsam3fc4")
    }
}

impl Identity {
    #[verifier::type_invariant]
    spec fn well_formed(self) -> bool {
        identity_text_valid(self.secret@) && self.secret@.len() > 0
    }

    /// The secret key in age's notation.
    pub closed spec fn secret(&self) -> Seq<char> {
        self.secret@
    }

    /// A fresh identity.
    pub fn generate() -> (identity: Identity)
        ensures
            identity_text_valid(identity.secret()),
            identity.secret().len() > 0,
    {
        Identity { secret: age_generate_identity() }
    }

    /// Reads a secret key. Fails with `ParseIdentityError` on a text that age
    /// does not accept.
    pub fn from_text(text: &str) -> (r: Result<Identity, BmailError>)
        ensures
            match r {
                Ok(identity) => identity_text_valid(text@) && identity.secret() == text@
                    && text@.len() > 0,
                Err(e) => !identity_text_valid(text@) && e == BmailError::ParseIdentityError,
            },
    {
        if age_identity_parses(text) {
            Ok(Identity { secret: text.to_owned() })
        } else {
            Err(BmailError::ParseIdentityError)
        }
    }

    /// The secret key in age's notation.
    pub fn to_text(&self) -> (text: String)
        ensures
            text@ == self.secret(),
            identity_text_valid(text@),
            text@.len() > 0,
    {
        proof {
            use_type_invariant(self);
        }
        self.secret.clone()
    }

    /// The public key that others seal to.
    pub fn to_public(&self) -> (recipient: Recipient)
        ensures
            recipient.key() == public_key_text(self.secret()),
    {
        proof {
            use_type_invariant(self);
        }
        Recipient { key: age_public_key(self.secret.as_str()) }
    }
}

impl Clone for Identity {
    fn clone(&self) -> (r: Self)
        ensures
            r.secret() == self.secret(),
    {
        proof {
            use_type_invariant(self);
        }
        Identity { secret: self.secret.clone() }
    }
}

impl Clone for Recipient {
    fn clone(&self) -> (r: Self)
        ensures
            r.key() == self.key(),
    {
        proof {
            use_type_invariant(self);
        }
        Recipient { key: self.key.clone() }
    }
}

/// The identity that the contents of the identity file stand for. An empty
/// file yields a fresh identity, and the flag tells the caller to store it;
/// any other contents must be a secret key.
pub fn get_identity(contents: &str) -> (r: Result<(Identity, bool), BmailError>)
    ensures
        match r {
            Ok((identity, fresh)) => if contents@.len() == 0 {
                fresh && identity_text_valid(identity.secret()) && identity.secret().len() > 0
            } else {
                !fresh && identity_text_valid(contents@) && identity.secret() == contents@
            },
            Err(e) => contents@.len() > 0 && !identity_text_valid(contents@) && e
                == BmailError::ParseIdentityError,
        },
{
    if contents.is_empty() {
        Ok((Identity::generate(), true))
    } else {
        match Identity::from_text(contents) {
            Ok(identity) => Ok((identity, false)),
            Err(e) => Err(e),
        }
    }
}

/// The keys of a list of recipients.
pub open spec fn keys_of(recipients: Seq<Recipient>) -> Seq<Seq<char>> {
    Seq::new(recipients.len(), |i: int| recipients[i].key())
}

/// Whether age can seal to all of the keys, of which there is at least one.
pub open spec fn can_seal_to(keys: Seq<Seq<char>>) -> bool {
    keys.len() > 0 && forall|i: int| 0 <= i < keys.len() ==> !is_low_order_key(#[trigger] keys[i])
}

/// What a payload opens to under the secret key `secret`: the error of the
/// first step that fails, or the bytes that were sealed.
pub open spec fn opened(secret: Seq<char>, payload: Seq<char>) -> Result<Seq<u8>, BmailError> {
    match base64_bytes(payload) {
        None => Err(BmailError::Base64DecodeError),
        Some(sealed) => match age_plaintext(secret, sealed) {
            None => Err(BmailError::DecryptError),
            Some(cbor) => match bytes_of_cbor(cbor) {
                None => Err(BmailError::CborDecodeError),
                Some(bytes) => Ok(bytes),
            },
        },
    }
}

/// The text under which sealed bytes travel: their base64, or
/// `EncryptError` where nothing was sealed or the text would not fit the
/// machine.
pub open spec fn transport_text(sealed: Option<Seq<u8>>) -> Result<Seq<char>, BmailError> {
    match sealed {
        Some(bytes) => if base64_input_fits(bytes.len()) {
            Ok(base64_text(bytes))
        } else {
            Err(BmailError::EncryptError)
        },
        None => Err(BmailError::EncryptError),
    }
}

/// `text` is `payload` sealed to `keys` and written for transport: the
/// base64 of bytes that open, for every secret key belonging to one of
/// `keys`, to the CBOR of `payload`; and reading the text yields those
/// bytes, and reading that CBOR yields `payload`.
pub open spec fn is_sealing(text: Seq<char>, keys: Seq<Seq<char>>, payload: Seq<u8>) -> bool {
    exists|sealed: Seq<u8>| #[trigger] seals(sealed, text, keys, payload)
}

/// `sealed` are the bytes by which `text` is `payload` sealed to `keys`.
pub open spec fn seals(
    sealed: Seq<u8>,
    text: Seq<char>,
    keys: Seq<Seq<char>>,
    payload: Seq<u8>,
) -> bool {
    &&& cbor_of_bytes(payload).is_some()
    &&& transport_text(Some(sealed)) == Ok::<Seq<char>, BmailError>(text)
    &&& base64_bytes(text) == Some(sealed)
    &&& sealed_to(sealed, keys, cbor_of_bytes(payload).unwrap())
    &&& bytes_of_cbor(cbor_of_bytes(payload).unwrap()) == Some(payload)
}

/// What was sealed to a set of recipients opens again, for each of them, to
/// the payload: where `text` is `payload` sealed to `keys` and `secret`
/// belongs to one of the keys, opening `text` with `secret` gives `payload`.
pub proof fn lemma_round_trip(
    text: Seq<char>,
    keys: Seq<Seq<char>>,
    payload: Seq<u8>,
    secret: Seq<char>,
)
    requires
        is_sealing(text, keys, payload),
        opens_for(keys, secret),
    ensures
        opened(secret, text) == Ok::<Seq<u8>, BmailError>(payload),
{
    let sealed = choose|sealed: Seq<u8>| #[trigger] seals(sealed, text, keys, payload);
    assert(opens_for(keys, secret));
}

/// The bytes of a vector that may be absent.
pub open spec fn bytes_view(bytes: Option<Vec<u8>>) -> Option<Seq<u8>> {
    match bytes {
        Some(b) => Some(b@),
        None => None,
    }
}

/// Turns what the encryptor handed back into the text that is published,
/// from which the bytes can be read back.
pub fn sealed_text(sealed: Option<Vec<u8>>) -> (r: Result<String, BmailError>)
    ensures
        match (r, transport_text(bytes_view(sealed))) {
            (Ok(text), Ok(expected)) => text@ == expected && base64_bytes(text@) == bytes_view(
                sealed,
            ),
            (Err(e), Err(expected)) => e == expected,
            _ => false,
        },
{
    match sealed {
        Some(bytes) => {
            if bytes.len() / 3 <= (usize::MAX - 3) / 4 {
                Ok(base64_encode(bytes.as_slice()))
            } else {
                Err(BmailError::EncryptError)
            }
        },
        None => Err(BmailError::EncryptError),
    }
}

/// Seals `payload` to `recipients` and writes the result as text.
///
/// Fails with `CborEncodeError` where the payload cannot be serialised, and
/// with `EncryptError` where there is no recipient, a recipient's key is of
/// low order, or the encryptor fails. Every text returned is the payload
/// sealed to the keys of the recipients: each of them opens it to the
/// payload.
pub fn encrypt_and_encode(recipients: &Vec<Recipient>, payload: &Vec<u8>) -> (r: Result<
    String,
    BmailError,
>)
    ensures
        match r {
            Ok(text) => cbor_of_bytes(payload@).is_some() && can_seal_to(keys_of(recipients@))
                && is_sealing(text@, keys_of(recipients@), payload@),
            Err(e) => if cbor_of_bytes(payload@).is_none() {
                e == BmailError::CborEncodeError
            } else {
                e == BmailError::EncryptError
            },
        },
{
    let cbor = match cbor_encode_bytes(payload) {
        Ok(cbor) => cbor,
        Err(_) => {
            return Err(BmailError::CborEncodeError);
        },
    };
    if recipients.len() == 0 {
        return Err(BmailError::EncryptError);
    }
    let mut keys: Vec<String> = Vec::new();
    let mut i: usize = 0;
    while i < recipients.len()
        invariant
            i <= recipients.len(),
            keys@.len() == i,
            cbor_of_bytes(payload@) == Some(cbor@),
            bytes_of_cbor(cbor@) == Some(payload@),
            forall|j: int| 0 <= j < i ==> key_usable(#[trigger] keys@[j]@),
            forall|j: int| 0 <= j < i ==> keys@[j]@ == #[trigger] recipients@[j].key(),
        decreases recipients.len() - i,
    {
        if recipients[i].is_low_order() {
            proof {
                assert(is_low_order_key(keys_of(recipients@)[i as int]));
            }
            return Err(BmailError::EncryptError);
        }
        keys.push(recipients[i].to_text());
        i += 1;
    }
    proof {
        assert forall|j: int| 0 <= j < keys_of(recipients@).len() implies !is_low_order_key(
            #[trigger] keys_of(recipients@)[j],
        ) by {
            assert(keys@[j]@ == recipients@[j].key());
            assert(key_usable(keys@[j]@));
        }
    }
    let sealed = match age_encrypt(&keys, cbor.as_slice()) {
        Ok(sealed) => Some(sealed),
        Err(_) => None,
    };
    let ghost handed = bytes_view(sealed);
    let r = sealed_text(sealed);
    proof {
        if r.is_ok() {
            assert(texts(keys@) =~= keys_of(recipients@));
            assert(seals(handed.unwrap(), r.unwrap()@, keys_of(recipients@), payload@));
        }
    }
    r
}

/// Opens a payload with the local identity: reads the base64, decrypts, and
/// reads the CBOR. Fails with `Base64DecodeError`, `DecryptError` or
/// `CborDecodeError`, whichever step fails first.
pub fn decrypt_and_decode(identity: &Identity, payload: &str) -> (r: Result<Vec<u8>, BmailError>)
    ensures
        match (r, opened(identity.secret(), payload@)) {
            (Ok(bytes), Ok(expected)) => bytes@ == expected,
            (Err(e), Err(expected)) => e == expected,
            _ => false,
        },
{
    proof {
        use_type_invariant(identity);
    }
    let sealed = match base64_decode(payload) {
        Ok(sealed) => sealed,
        Err(_) => {
            return Err(BmailError::Base64DecodeError);
        },
    };
    let cbor = match age_decrypt(identity.secret.as_str(), sealed.as_slice()) {
        Ok(Some(cbor)) => cbor,
        Ok(None) => {
            return Err(BmailError::DecryptError);
        },
        Err(_) => {
            return Err(BmailError::DecryptError);
        },
    };
    match cbor_decode_bytes(cbor.as_slice()) {
        Ok(bytes) => Ok(bytes),
        Err(_) => Err(BmailError::CborDecodeError),
    }
}

/// The text under which a directory travels: the base64 of its CBOR, in
/// which every line is a map with the fields `participants` and
/// `conversation_id`.
pub open spec fn encoded(entries: Seq<(Seq<Seq<char>>, Seq<char>)>) -> Result<Seq<char>, BmailError> {
    match cbor_of_directory(entries, participants_field(), conversation_id_field()) {
        None => Err(BmailError::CborEncodeError),
        Some(cbor) => if base64_input_fits(cbor.len()) {
            Ok(base64_text(cbor))
        } else {
            Err(BmailError::CborEncodeError)
        },
    }
}

/// The directory that a text stands for: the fields `participants` and
/// `conversation_id` of every line. A line that lacks one of them makes
/// the text malformed; what else a line holds is passed over.
pub open spec fn decoded(text: Seq<char>) -> Result<Seq<(Seq<Seq<char>>, Seq<char>)>, BmailError> {
    match base64_bytes(text) {
        None => Err(BmailError::Base64DecodeError),
        Some(cbor) => match directory_of_cbor(cbor, participants_field(), conversation_id_field()) {
            None => Err(BmailError::CborDecodeError),
            Some(lines) => if all_present(lines) {
                Ok(present(lines))
            } else {
                Err(BmailError::MalformedBmail)
            },
        },
    }
}

/// Writes the entries of a directory as text, without encryption. Reading
/// the text yields the entries again.
pub fn encode(entries: &Vec<(Vec<String>, String)>) -> (r: Result<String, BmailError>)
    ensures
        match (r, encoded(wire_view(entries@))) {
            (Ok(text), Ok(expected)) => text@ == expected && decoded(text@) == Ok::<
                Seq<(Seq<Seq<char>>, Seq<char>)>,
                BmailError,
            >(wire_view(entries@)),
            (Err(e), Err(expected)) => e == expected,
            _ => false,
        },
{
    proof {
        reveal_strlit("participants");
        reveal_strlit("conversation_id");
        assert("participants"@.len() != "conversation_id"@.len());
    }
    match cbor_encode_directory(entries, "participants", "conversation_id") {
        Ok(cbor) => {
            if cbor.len() / 3 <= (usize::MAX - 3) / 4 {
                proof {
                    assert(present(complete(wire_view(entries@))) =~= wire_view(entries@));
                }
                Ok(base64_encode(cbor.as_slice()))
            } else {
                Err(BmailError::CborEncodeError)
            }
        },
        Err(_) => Err(BmailError::CborEncodeError),
    }
}

/// Reads the entries of a directory from text. Fails with
/// `Base64DecodeError` or `CborDecodeError`, whichever step fails first,
/// and with `MalformedBmail` where a line lacks a field.
pub fn decode(text: &str) -> (r: Result<Vec<(Vec<String>, String)>, BmailError>)
    ensures
        match (r, decoded(text@)) {
            (Ok(entries), Ok(expected)) => wire_view(entries@) == expected,
            (Err(e), Err(expected)) => e == expected,
            _ => false,
        },
{
    let cbor = match base64_decode(text) {
        Ok(cbor) => cbor,
        Err(_) => {
            return Err(BmailError::Base64DecodeError);
        },
    };
    let lines = match cbor_decode_directory(cbor.as_slice(), "participants", "conversation_id") {
        Ok(lines) => lines,
        Err(_) => {
            return Err(BmailError::CborDecodeError);
        },
    };
    let mut entries: Vec<(Vec<String>, String)> = Vec::new();
    let mut i: usize = 0;
    while i < lines.len()
        invariant
            i <= lines@.len(),
            entries@.len() == i,
            base64_bytes(text@) == Some(cbor@),
            directory_of_cbor(cbor@, participants_field(), conversation_id_field()) == Some(
                read_view(lines@),
            ),
            forall|j: int|
                0 <= j < i ==> (#[trigger] read_view(lines@)[j]).0.is_some() && read_view(
                    lines@,
                )[j].1.is_some(),
            forall|j: int|
                0 <= j < i ==> (#[trigger] wire_view(entries@)[j]) == present(read_view(lines@))[j],
        decreases lines@.len() - i,
    {
        let ghost prev = entries@;
        match (&lines[i].0, &lines[i].1) {
            (Some(participants), Some(id)) => {
                entries.push((clone_texts(participants), id.clone()));
            },
            _ => {
                proof {
                    assert(!(read_view(lines@)[i as int].0.is_some() && read_view(
                        lines@,
                    )[i as int].1.is_some()));
                }
                return Err(BmailError::MalformedBmail);
            },
        }
        proof {
            assert forall|j: int| 0 <= j < i + 1 implies (#[trigger] wire_view(entries@)[j])
                == present(read_view(lines@))[j] by {
                if j < i {
                    assert(entries@[j] == prev[j]);
                    assert(wire_view(prev)[j] == present(read_view(lines@))[j]);
                }
            }
        }
        i += 1;
    }
    proof {
        assert(wire_view(entries@) =~= present(read_view(lines@)));
    }
    Ok(entries)
}

} // verus!
