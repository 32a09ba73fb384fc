//! Keys of the `gpg` engine.

use crate::config::encrypt;
use crate::config::encrypt::utils::{format_fingerprint, normal_fingerprint};
use crate::text::{join, joined};
use vstd::prelude::*;
use vstd::string::*;
use vstd::utf8::*;

verus! {

/// How many bytes the short form of a fingerprint holds.
pub const SHORT_FINGERPRINT_LEN: usize = 16;

/// Whether the text `fingerprint` has a short form: its last 16 bytes are
/// whole characters.
pub open spec fn has_short_form(fingerprint: Seq<char>) -> bool {
    let bytes = encode_utf8(fingerprint);
    bytes.len() >= 16 && is_char_boundary(bytes, bytes.len() - 16)
}

/// The text that the last 16 bytes of `fingerprint` hold.
pub open spec fn short_form(fingerprint: Seq<char>) -> Seq<char> {
    let bytes = encode_utf8(fingerprint);
    decode_utf8(bytes.subrange(bytes.len() - 16, bytes.len() as int))
}

/// A `gpg` key: its fingerprint and the users it names.
#[derive(Debug)]
pub struct Key {
    /// The fingerprint, as the keychain wrote it.
    pub fingerprint: String,
    /// The user ids, as texts.
    pub user_ids: Vec<String>,
}

impl Key {
    /// This key as a key of any engine.
    pub fn into_key(self) -> (key: encrypt::Key)
        ensures
            key == encrypt::Key::Gpg(self),
    {
        encrypt::Key::Gpg(self)
    }

    /// The user ids, separated by `; `.
    pub fn display_user(&self) -> (shown: String)
        ensures
            shown@ == joined(self.user_ids.deep_view(), "; "@),
    {
        join(&self.user_ids, "; ")
    }

    /// Whether the short form of the fingerprint can be taken.
    pub fn has_short_fingerprint(&self) -> (held: bool)
        ensures
            held == has_short_form(self.fingerprint@),
    {
        let text = self.fingerprint.as_str();
        let n = text.as_bytes().len();
        n >= SHORT_FINGERPRINT_LEN && text.is_char_boundary(n - SHORT_FINGERPRINT_LEN)
    }

    /// The fingerprint in its normal form, trimmed and in upper case: of the
    /// whole text, or of its last 16 bytes where `short` is set.
    pub fn fingerprint(&self, short: bool) -> (shown: String)
        requires
            short ==> has_short_form(self.fingerprint@),
        ensures
            shown@ == normal_fingerprint(
                if short {
                    short_form(self.fingerprint@)
                } else {
                    self.fingerprint@
                },
            ),
    {
        let text = self.fingerprint.as_str();
        if short {
            let n = text.as_bytes().len();
            let (_, tail) = text.split_at(n - SHORT_FINGERPRINT_LEN);
            proof {
                encode_utf8_decode_utf8(tail@);
            }
            format_fingerprint(tail)
        } else {
            format_fingerprint(text)
        }
    }
}

impl Clone for Key {
    /// A key with the same fingerprint and the same users.
    fn clone(&self) -> (copy: Self)
        ensures
            copy.fingerprint@ == self.fingerprint@,
            copy.user_ids.deep_view() == self.user_ids.deep_view(),
    {
        let mut user_ids: Vec<String> = Vec::new();
        let mut i: usize = 0;
        while i < self.user_ids.len()
            invariant
                i <= self.user_ids.len(),
                user_ids.len() == i,
                forall|j: int| 0 <= j < i ==> user_ids@[j]@ == self.user_ids@[j]@,
            decreases self.user_ids.len() - i,
        {
            user_ids.push(self.user_ids[i].clone());
            i += 1;
        }
        assert(user_ids.deep_view() =~= self.user_ids.deep_view());
        Key { fingerprint: self.fingerprint.clone(), user_ids }
    }
}

impl PartialEq for Key {
    /// Two keys are the same where their fingerprints have one normal form.
    fn eq(&self, key: &Self) -> (same: bool) {
        let mine = format_fingerprint(self.fingerprint.as_str());
        let theirs = format_fingerprint(key.fingerprint.as_str());
        mine == theirs
    }
}

impl vstd::std_specs::cmp::PartialEqSpecImpl for Key {
    open spec fn obeys_eq_spec() -> bool {
        true
    }

    open spec fn eq_spec(&self, other: &Self) -> bool {
        normal_fingerprint(self.fingerprint@) == normal_fingerprint(other.fingerprint@)
    }
}

} // verus!
