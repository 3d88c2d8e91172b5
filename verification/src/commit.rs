//! Commit payloads: the tree, the parents, who wrote and who committed, and
//! the message.

use crate::bytes::{append_bytes, decimal, has_byte, is_digit, lacks, spec_decimal};
use crate::error::GitError;
use crate::hex_text::hex_encoded;
use crate::object::{spec_oid_of, ObjectKind};
use crate::oid::Oid;
use crate::store::{spec_write, ObjectStore};
use vstd::prelude::*;
use vstd::string::StringSliceAdditionalSpecFns;
use vstd::utf8::encode_utf8;

verus! {

/// Who wrote or committed, and when.
#[derive(Clone, Debug, PartialEq, Eq)]
pub struct Signature {
    /// The person's name.
    pub name: String,
    /// The person's e-mail address.
    pub email: String,
    /// Seconds since the Unix epoch.
    pub seconds: u64,
    /// The time zone, as a sign and four digits: `+0000`, `-0530`.
    pub tz: String,
}

/// A signature as the contracts see it: text as UTF-8 bytes.
pub struct SignatureView {
    /// The person's name.
    pub name: Seq<u8>,
    /// The person's e-mail address.
    pub email: Seq<u8>,
    /// Seconds since the Unix epoch.
    pub seconds: nat,
    /// The time zone.
    pub tz: Seq<u8>,
}

impl View for Signature {
    type V = SignatureView;

    open spec fn view(&self) -> SignatureView {
        SignatureView {
            name: encode_utf8(self.name@),
            email: encode_utf8(self.email@),
            seconds: self.seconds as nat,
            tz: encode_utf8(self.tz@),
        }
    }
}

/// Whether a name or an address may stand in a commit: it holds none of `<`,
/// `>` and the line feed.
pub open spec fn valid_person(text: Seq<u8>) -> bool {
    lacks(text, 60u8) && lacks(text, 62u8) && lacks(text, 10u8)
}

/// Whether `tz` is a sign followed by four digits.
pub open spec fn valid_tz(tz: Seq<u8>) -> bool {
    &&& tz.len() == 5
    &&& (tz[0] == 43u8 || tz[0] == 45u8)
    &&& is_digit(tz[1])
    &&& is_digit(tz[2])
    &&& is_digit(tz[3])
    &&& is_digit(tz[4])
}

/// Whether a signature may stand in a commit.
pub open spec fn valid_signature(signature: SignatureView) -> bool {
    valid_person(signature.name) && valid_person(signature.email) && valid_tz(signature.tz)
}

/// The forty hexadecimal digits of an identifier, as bytes.
pub open spec fn hex_bytes(oid: Seq<u8>) -> Seq<u8> {
    encode_utf8(hex_encoded(oid))
}

/// What follows `author` or `committer` on its line:
/// `<name> <<email>> <seconds> <tz>`.
pub open spec fn signature_text(signature: SignatureView) -> Seq<u8> {
    signature.name + " <".spec_bytes() + signature.email + "> ".spec_bytes() + spec_decimal(
        signature.seconds,
    ) + " ".spec_bytes() + signature.tz
}

/// One `parent <hex-oid>` line for each parent, in the order given.
pub open spec fn parent_lines(parents: Seq<Seq<u8>>) -> Seq<u8>
    decreases parents.len(),
{
    if parents.len() == 0 {
        Seq::empty()
    } else {
        parent_lines(parents.drop_last()) + "parent ".spec_bytes() + hex_bytes(parents.last())
            + "\n".spec_bytes()
    }
}

/// The commit payload: the `tree` line, the `parent` lines, the `author` and
/// `committer` lines, an empty line, and the message as it is.
pub open spec fn spec_commit_payload(
    tree: Seq<u8>,
    parents: Seq<Seq<u8>>,
    author: SignatureView,
    committer: SignatureView,
    message: Seq<u8>,
) -> Seq<u8> {
    "tree ".spec_bytes() + hex_bytes(tree) + "\n".spec_bytes() + parent_lines(parents)
        + "author ".spec_bytes() + signature_text(author) + "\n".spec_bytes()
        + "committer ".spec_bytes() + signature_text(committer) + "\n".spec_bytes()
        + "\n".spec_bytes() + message
}

impl Signature {
    /// Whether the signature may stand in a commit.
    pub fn is_valid(&self) -> (r: bool)
        ensures
            r == valid_signature(self@),
    {
        let name = self.name.as_str().as_bytes();
        let email = self.email.as_str().as_bytes();
        let tz = self.tz.as_str().as_bytes();
        !has_byte(name, 60u8) && !has_byte(name, 62u8) && !has_byte(name, 10u8) && !has_byte(
            email,
            60u8,
        ) && !has_byte(email, 62u8) && !has_byte(email, 10u8) && tz.len() == 5 && (tz[0] == 43u8
            || tz[0] == 45u8) && 48u8 <= tz[1] && tz[1] <= 57u8 && 48u8 <= tz[2] && tz[2] <= 57u8
            && 48u8 <= tz[3] && tz[3] <= 57u8 && 48u8 <= tz[4] && tz[4] <= 57u8
    }

    fn write_to(&self, out: &mut Vec<u8>)
        ensures
            final(out)@ == old(out)@ + signature_text(self@),
    {
        append_bytes(out, self.name.as_str().as_bytes());
        append_bytes(out, " <".as_bytes());
        append_bytes(out, self.email.as_str().as_bytes());
        append_bytes(out, "> ".as_bytes());
        let seconds = decimal(self.seconds);
        append_bytes(out, seconds.as_slice());
        append_bytes(out, " ".as_bytes());
        append_bytes(out, self.tz.as_str().as_bytes());
    }
}

/// Builds the payload of a commit. A signature whose name or address holds
/// `<`, `>` or a line feed, or whose time zone is not a sign and four digits,
/// is `Malformed`.
pub fn commit_payload(
    tree: &Oid,
    parents: &Vec<Oid>,
    author: &Signature,
    committer: &Signature,
    message: &str,
) -> (res: Result<Vec<u8>, GitError>)
    ensures
        if valid_signature(author@) && valid_signature(committer@) {
            res matches Ok(payload) && payload@ == spec_commit_payload(
                tree@,
                parents.deep_view(),
                author@,
                committer@,
                message.spec_bytes(),
            )
        } else {
            res matches Err(e) && e == GitError::Malformed
        },
{
    if !author.is_valid() || !committer.is_valid() {
        return Err(GitError::Malformed);
    }
    let mut out: Vec<u8> = Vec::new();
    append_bytes(&mut out, "tree ".as_bytes());
    append_bytes(&mut out, tree.to_hex().as_str().as_bytes());
    append_bytes(&mut out, "\n".as_bytes());
    let ghost head = out@;
    let ghost all = parents.deep_view();
    let mut i: usize = 0;
    while i < parents.len()
        invariant
            i <= parents.len(),
            all == parents.deep_view(),
            out@ == head + parent_lines(all.take(i as int)),
        decreases parents.len() - i,
    {
        proof {
            assert(all.take(i + 1).drop_last() =~= all.take(i as int));
        }
        append_bytes(&mut out, "parent ".as_bytes());
        append_bytes(&mut out, parents[i].to_hex().as_str().as_bytes());
        append_bytes(&mut out, "\n".as_bytes());
        i += 1;
    }
    assert(all.take(parents.len() as int) =~= all);
    append_bytes(&mut out, "author ".as_bytes());
    author.write_to(&mut out);
    append_bytes(&mut out, "\n".as_bytes());
    append_bytes(&mut out, "committer ".as_bytes());
    committer.write_to(&mut out);
    append_bytes(&mut out, "\n".as_bytes());
    append_bytes(&mut out, "\n".as_bytes());
    append_bytes(&mut out, message.as_bytes());
    Ok(out)
}

/// Writes a commit into the store and gives its identifier. Nothing is
/// written where a signature is `Malformed`.
pub fn write_commit(
    store: &mut ObjectStore,
    tree: &Oid,
    parents: &Vec<Oid>,
    author: &Signature,
    committer: &Signature,
    message: &str,
) -> (res: Result<Oid, GitError>)
    ensures
        if valid_signature(author@) && valid_signature(committer@) {
            let payload = spec_commit_payload(
                tree@,
                parents.deep_view(),
                author@,
                committer@,
                message.spec_bytes(),
            );
            res matches Ok(oid) && oid@ == spec_oid_of(ObjectKind::Commit, payload) && final(store)@
                == spec_write(old(store)@, ObjectKind::Commit, payload)
        } else {
            res matches Err(e) && e == GitError::Malformed && final(store)@ == old(store)@
        },
{
    match commit_payload(tree, parents, author, committer, message) {
        Ok(payload) => Ok(store.write(ObjectKind::Commit, payload.as_slice())),
        Err(error) => Err(error),
    }
}

} // verus!
