//! Identifiers of stored tool outputs.
//!
//! An identifier is `out_` followed by the SHA-256 digest of the stored bytes in lower-case
//! hexadecimal, so equal outputs have equal identifiers.

use vstd::prelude::*;
use vstd::string::*;
use vstd::utf8::*;

use crate::json::hex_digit;
use crate::text::{chars_of, same_text, text_of};

verus! {

/// The number of hexadecimal digits in a digest.
pub const DIGEST_CHARS: usize = 64;

/// Whether `c` is a lower-case hexadecimal digit.
pub open spec fn is_hex(c: char) -> bool {
    '0' <= c <= '9' || 'a' <= c <= 'f'
}

/// Whether `s` has the form of an artifact identifier.
pub open spec fn is_artifact_id(s: Seq<char>) -> bool {
    &&& s.len() == 68
    &&& s[0] == 'o' && s[1] == 'u' && s[2] == 't' && s[3] == '_'
    &&& forall|i: int| 4 <= i < 68 ==> is_hex(#[trigger] s[i])
}

/// The SHA-256 digest of a byte sequence.
pub uninterp spec fn sha256(bytes: Seq<u8>) -> Seq<u8>;

/// The 64 lower-case hexadecimal digits of a digest of 32 bytes.
pub open spec fn digest_hex(digest: Seq<u8>) -> Seq<char> {
    Seq::new(
        64,
        |i: int|
            hex_digit(
                if i % 2 == 0 {
                    (digest[i / 2] / 16) as nat
                } else {
                    (digest[i / 2] % 16) as nat
                },
            ),
    )
}

/// The identifier of the artifact that stores `text`.
pub open spec fn artifact_id_of(text: Seq<char>) -> Seq<char> {
    seq!['o', 'u', 't', '_'] + digest_hex(sha256(encode_utf8(text)))
}

/// Every text has a well-formed identifier.
pub proof fn artifact_id_is_well_formed(text: Seq<char>)
    ensures
        is_artifact_id(artifact_id_of(text)),
{
    let id = artifact_id_of(text);
    let digits = digest_hex(sha256(encode_utf8(text)));
    assert forall|i: int| 4 <= i < 68 implies is_hex(#[trigger] id[i]) by {
        assert(id[i] == digits[i - 4]);
    }
}

/// Digests bytes with SHA-256.
///
/// Trusted: `sha2::Sha256::digest` returns the 32-byte SHA-256 digest of its argument, named
/// [`sha256`].
#[verifier::external_body]
fn sha256_digest(bytes: &[u8]) -> (r: Vec<u8>)
    ensures
        r@ == sha256(bytes@),
        r@.len() == 32,
{
    <sha2::Sha256 as sha2::Digest>::digest(bytes).to_vec()
}

/// The identifier of a stored tool output.
#[derive(Debug)]
pub struct OutputArtifactId {
    id: String,
}

impl OutputArtifactId {
    /// The identifier as text.
    pub closed spec fn view(&self) -> Seq<char> {
        self.id@
    }

    /// Identifiers have the form `out_` and a digest.
    #[verifier::type_invariant]
    pub open spec fn well_formed(self) -> bool {
        is_artifact_id(self.view())
    }

    /// Reads an identifier; any other text is refused.
    pub fn parse(text: &str) -> (r: Option<OutputArtifactId>)
        ensures
            r is Some == is_artifact_id(text@),
            r matches Some(id) ==> id@ == text@,
    {
        let chars = chars_of(text);
        if chars.len() != 68 || chars[0] != 'o' || chars[1] != 'u' || chars[2] != 't' || chars[3]
            != '_' {
            return None;
        }
        let mut i: usize = 4;
        while i < 68
            invariant
                4 <= i <= 68,
                chars@.len() == 68,
                chars@ == text@,
                forall|j: int| 4 <= j < i ==> is_hex(#[trigger] chars@[j]),
            decreases 68 - i,
        {
            let c = chars[i];
            if !((c >= '0' && c <= '9') || (c >= 'a' && c <= 'f')) {
                return None;
            }
            i += 1;
        }
        Some(OutputArtifactId { id: text.to_owned() })
    }

    /// The identifier of the artifact that stores `text`.
    pub fn for_text(text: &str) -> (r: OutputArtifactId)
        ensures
            r@ == artifact_id_of(text@),
    {
        let digest = sha256_digest(text.as_bytes());
        let mut id = String::from_str("out_");
        proof {
            reveal_strlit("out_");
            assert(id@ =~= seq!['o', 'u', 't', '_']);
        }
        let mut i: usize = 0;
        while i < digest.len()
            invariant
                i <= digest@.len(),
                digest@.len() == 32,
                id@.len() == 4 + 2 * i,
                forall|j: int|
                    4 <= j < id@.len() ==> #[trigger] id@[j] == digest_hex(digest@)[j - 4],
                id@[0] == 'o' && id@[1] == 'u' && id@[2] == 't' && id@[3] == '_',
            decreases digest@.len() - i,
        {
            let byte: u8 = digest[i];
            let high = hex_char(byte / 16);
            let low = hex_char(byte % 16);
            id.push(high);
            id.push(low);
            i += 1;
        }
        proof {
            assert(id@ =~= artifact_id_of(text@));
            artifact_id_is_well_formed(text@);
        }
        OutputArtifactId { id }
    }

    /// The identifier as text.
    pub fn as_str(&self) -> (r: &str)
        ensures
            r@ == self@,
            is_artifact_id(r@),
    {
        proof {
            use_type_invariant(self);
        }
        self.id.as_str()
    }

    /// The digest in hexadecimal: the identifier without its prefix.
    pub fn digest(&self) -> (r: String)
        ensures
            r@ == self@.skip(4),
            r@.len() == DIGEST_CHARS,
    {
        proof {
            use_type_invariant(self);
            assert(self@.subrange(4, 68) =~= self@.skip(4));
        }
        let chars = chars_of(self.id.as_str());
        text_of(&chars, 4, 68)
    }

    /// Whether two identifiers are the same.
    pub fn same(&self, other: &OutputArtifactId) -> (r: bool)
        ensures
            r == (self@ == other@),
    {
        same_text(self.id.as_str(), other.id.as_str())
    }
}

impl Clone for OutputArtifactId {
    fn clone(&self) -> (r: Self)
        ensures
            r@ == self@,
            r == *self,
    {
        proof {
            use_type_invariant(self);
        }
        OutputArtifactId { id: self.id.clone() }
    }
}

fn hex_char(d: u8) -> (c: char)
    requires
        d < 16,
    ensures
        c == hex_digit(d as nat),
        is_hex(c),
{
    if d < 10 {
        (48u8 + d) as char
    } else {
        (97u8 + (d - 10)) as char
    }
}

} // verus!
