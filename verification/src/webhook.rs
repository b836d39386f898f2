//! The deployment hook: whether a delivery is signed with the shared secret,
//! and what it asks to deploy.

use crate::text::{find_last, last_index_of, starts_with, to_chars};
use hmac::Mac;
use vstd::prelude::*;
use vstd::string::{StrSliceExecFns, StringExecFns, StringSliceAdditionalSpecFns};

verus! {

/// What a signature begins with.
pub const SIGNATURE_PREFIX: &'static str = "sha256=";

/// The only event that is acted on.
pub const PACKAGE_EVENT: &'static str = "package";

/// The HMAC-SHA256 tag of `message` under `key`.
pub uninterp spec fn hmac_sha256(key: Seq<u8>, message: Seq<u8>) -> Seq<u8>;

/// The value of a hexadecimal digit, in either case; `None` for any other
/// character.
pub open spec fn hex_value(c: char) -> Option<int> {
    if '0' <= c <= '9' {
        Some(c as int - '0' as int)
    } else if 'a' <= c <= 'f' {
        Some(c as int - 'a' as int + 10)
    } else if 'A' <= c <= 'F' {
        Some(c as int - 'A' as int + 10)
    } else {
        None
    }
}

/// The bytes that a text of hexadecimal digits stands for, two digits to a
/// byte, the high one first; `None` where the text has an odd number of
/// characters or holds anything but hexadecimal digits.
pub open spec fn hex_decoded(text: Seq<char>) -> Option<Seq<u8>> {
    if text.len() % 2 == 0 && forall|i: int| 0 <= i < text.len() ==> hex_value(#[trigger] text[i])
        is Some {
        Some(
            Seq::new(
                text.len() / 2,
                |i: int| (hex_value(text[2 * i]).unwrap() * 16 + hex_value(text[2 * i + 1]).unwrap()) as u8,
            ),
        )
    } else {
        None
    }
}

/// `hex::decode` of the crate hex: the bytes that the text stands for, or
/// `None` for its error, which it gives for a text of odd length and for
/// one that holds anything but hexadecimal digits, of either case.
#[verifier::external_body]
fn decode_hex(text: &str) -> (r: Option<Vec<u8>>)
    ensures
        match r {
            Some(bytes) => hex_decoded(text@) == Some(bytes@),
            None => hex_decoded(text@) is None,
        },
{
    hex::decode(text).ok()
}

/// `Hmac::<Sha256>::new_from_slice`, `Mac::update` and `Mac::verify_slice`
/// of the crates hmac and sha2: whether `tag` is the HMAC-SHA256 tag of
/// `message` under `key`, all of its bytes and no more. A key of any length
/// is taken.
#[verifier::external_body]
fn hmac_sha256_is(key: &[u8], message: &[u8], tag: &[u8]) -> (r: bool)
    ensures
        r == (hmac_sha256(key@, message@) == tag@),
{
    match hmac::Hmac::<sha2::Sha256>::new_from_slice(key) {
        Ok(mut mac) => {
            mac.update(message);
            mac.verify_slice(tag).is_ok()
        },
        Err(_) => false,
    }
}

/// The signature is the prefix, then, in hexadecimal digits, the
/// HMAC-SHA256 tag of the payload under the secret.
pub open spec fn signature_valid(secret: Seq<u8>, payload: Seq<u8>, signature: Seq<char>) -> bool {
    &&& SIGNATURE_PREFIX@.is_prefix_of(signature)
    &&& hex_decoded(signature.subrange(SIGNATURE_PREFIX@.len() as int, signature.len() as int))
        == Some(hmac_sha256(secret, payload))
}

/// What stands behind the prefix of a signature, or `None` where the
/// signature does not begin with the prefix.
pub fn signature_digits(signature: &str) -> (r: Option<String>)
    ensures
        r is Some <==> SIGNATURE_PREFIX@.is_prefix_of(signature@),
        r is Some ==> r.unwrap()@ == signature@.subrange(
            SIGNATURE_PREFIX@.len() as int,
            signature@.len() as int,
        ),
{
    let chars = to_chars(signature);
    let prefix = to_chars(SIGNATURE_PREFIX);
    if !starts_with(&chars, &prefix) {
        return None;
    }
    Some(String::from_str(signature.substring_char(prefix.len(), chars.len())))
}

/// Whether `signature` signs `payload` with `secret`.
pub fn verify_signature(secret: &str, payload: &[u8], signature: &str) -> (r: bool)
    ensures
        r == signature_valid(secret.spec_bytes(), payload@, signature@),
{
    let digits = match signature_digits(signature) {
        Some(digits) => digits,
        None => {
            return false;
        },
    };
    match decode_hex(digits.as_str()) {
        Some(expected) => hmac_sha256_is(secret.as_bytes(), payload, expected.as_slice()),
        None => false,
    }
}

/// The name of a repository: what stands behind the last slash of its full
/// name, or the whole of it where it holds no slash.
pub open spec fn repository_name_of(full_name: Seq<char>) -> Seq<char> {
    match last_index_of(full_name, '/', full_name.len() as int) {
        Some(i) => full_name.subrange(i + 1, full_name.len() as int),
        None => full_name,
    }
}

/// The name of a repository, out of its full name.
pub fn repository_name(full_name: &str) -> (r: String)
    ensures
        r@ == repository_name_of(full_name@),
{
    let chars = to_chars(full_name);
    let n = chars.len();
    match find_last(&chars, '/') {
        Some(i) => String::from_str(full_name.substring_char(i + 1, n)),
        None => String::from_str(full_name),
    }
}

/// The image to deploy: the registry, the full name of the repository, a
/// colon, the tag.
pub open spec fn image_of(full_name: Seq<char>, tag: Seq<char>) -> Seq<char> {
    "ghcr.io/"@ + full_name + ":"@ + tag
}

/// The service to update: named after the repository.
pub open spec fn service_of(repository: Seq<char>) -> Seq<char> {
    "homelab_"@ + repository
}

/// What a delivery asks for.
#[derive(Debug, Clone, PartialEq, Eq)]
pub enum Delivery {
    /// The signature does not sign the payload.
    Unauthorized,
    /// The event is none that is acted on.
    Ignored,
    /// The full name of the repository gives no repository name.
    NoRepository,
    /// The payload names no image tag.
    NoImageTag,
    /// Update `service` to `image`.
    Update { image: String, service: String },
}

/// What a delivery asks for, in the order in which it is looked at: the
/// signature, the event, the name of the repository, the tag.
pub open spec fn delivery_of(
    signed: bool,
    event: Seq<char>,
    full_name: Seq<char>,
    tag: Option<Seq<char>>,
    r: Delivery,
) -> bool {
    if !signed {
        r == Delivery::Unauthorized
    } else if event != PACKAGE_EVENT@ {
        r == Delivery::Ignored
    } else if repository_name_of(full_name).len() == 0 {
        r == Delivery::NoRepository
    } else if tag is None || tag.unwrap().len() == 0 {
        r == Delivery::NoImageTag
    } else {
        &&& r is Update
        &&& r->image@ == image_of(full_name, tag.unwrap())
        &&& r->service@ == service_of(repository_name_of(full_name))
    }
}

/// Whether two texts are the same.
fn same_text(a: &str, b: &str) -> (r: bool)
    ensures
        r == (a@ == b@),
{
    let x = to_chars(a);
    let y = to_chars(b);
    let r = x.len() == y.len() && starts_with(&x, &y);
    proof {
        if r {
            assert(y@ =~= x@.subrange(0, y@.len() as int));
            assert(x@.subrange(0, x@.len() as int) =~= x@);
        }
    }
    r
}

/// What a delivery asks for, given whether it is signed, its event, and the
/// full name of the repository and the image tag that its payload holds.
pub fn plan_delivery(signed: bool, event: &str, full_name: &str, tag: Option<&str>) -> (r: Delivery)
    ensures
        delivery_of(
            signed,
            event@,
            full_name@,
            match tag {
                Some(t) => Some(t@),
                None => None,
            },
            r,
        ),
{
    if !signed {
        return Delivery::Unauthorized;
    }
    if !same_text(event, PACKAGE_EVENT) {
        return Delivery::Ignored;
    }
    let repository = repository_name(full_name);
    if repository.as_str().unicode_len() == 0 {
        return Delivery::NoRepository;
    }
    let tag = match tag {
        Some(t) => t,
        None => {
            return Delivery::NoImageTag;
        },
    };
    if tag.unicode_len() == 0 {
        return Delivery::NoImageTag;
    }
    let mut image = String::from_str("ghcr.io/");
    image.append(full_name);
    image.append(":");
    image.append(tag);
    let mut service = String::from_str("homelab_");
    service.append(repository.as_str());
    Delivery::Update { image, service }
}

} // verus!
