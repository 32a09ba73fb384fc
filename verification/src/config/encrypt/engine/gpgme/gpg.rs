//! Keys and users as the keychain of GPGME describes them.

use crate::config::encrypt::protocol;
use crate::config::encrypt::Key;
use crate::text::{contains_text, join, joined, occurs, trim, trimmed};
use vstd::prelude::*;
use vstd::string::*;

verus! {

/// A key as the keychain names it: its fingerprint and its users, each as a
/// text.
#[derive(Clone, Debug)]
pub struct KeyId(pub String, pub Vec<String>);

/// A user of a key, as the keychain describes it. A part that the keychain
/// cannot give as text is missing.
#[derive(Clone, Debug)]
pub struct UserId {
    /// The name.
    pub name: Option<String>,
    /// The comment.
    pub comment: Option<String>,
    /// The e-mail address.
    pub email: Option<String>,
}

/// Whether the part `part` of a user is there and not blank.
pub open spec fn present(part: Option<String>) -> bool {
    part is Some && trimmed(part->0@).len() > 0
}

/// The parts of the user `user` that are shown: the name, the comment in
/// round brackets, the e-mail address in angle brackets; each only where it
/// is there and not blank.
pub open spec fn user_parts(user: UserId) -> Seq<Seq<char>> {
    let name = if present(user.name) {
        seq![user.name->0@]
    } else {
        Seq::empty()
    };
    let comment = if present(user.comment) {
        seq!["("@ + user.comment->0@ + ")"@]
    } else {
        Seq::empty()
    };
    let email = if present(user.email) {
        seq!["<"@ + user.email->0@ + ">"@]
    } else {
        Seq::empty()
    };
    name + comment + email
}

/// Whether `part` is there and not blank.
fn is_present(part: &Option<String>) -> (held: bool)
    ensures
        held == present(*part),
{
    match part {
        Some(text) => trim(text.as_str()).unicode_len() > 0,
        None => false,
    }
}

impl UserId {
    /// The user as one text: the shown parts with a space between them.
    pub fn label(&self) -> (shown: String)
        ensures
            shown@ == joined(user_parts(*self), " "@),
    {
        let mut parts: Vec<String> = Vec::new();
        assert(parts.deep_view() =~= Seq::<Seq<char>>::empty());
        if is_present(&self.name) {
            let ghost before = parts.deep_view();
            match &self.name {
                Some(name) => {
                    parts.push(name.clone());
                    assert(parts.deep_view() =~= before + seq![name@]);
                },
                None => {},
            }
        }
        if is_present(&self.comment) {
            let ghost before = parts.deep_view();
            match &self.comment {
                Some(comment) => {
                    let mut shown = String::from_str("(");
                    shown.append(comment.as_str());
                    shown.append(")");
                    parts.push(shown);
                    assert(parts.deep_view() =~= before + seq!["("@ + comment@ + ")"@]);
                },
                None => {},
            }
        }
        if is_present(&self.email) {
            let ghost before = parts.deep_view();
            match &self.email {
                Some(email) => {
                    let mut shown = String::from_str("<");
                    shown.append(email.as_str());
                    shown.append(">");
                    parts.push(shown);
                    assert(parts.deep_view() =~= before + seq!["<"@ + email@ + ">"@]);
                },
                None => {},
            }
        }
        assert(parts.deep_view() =~= user_parts(*self));
        join(&parts, " ")
    }
}

/// The labels of `users`, in order.
pub open spec fn labels(users: Seq<UserId>) -> Seq<Seq<char>> {
    Seq::new(users.len(), |i: int| joined(user_parts(users[i]), " "@))
}

/// The e-mail addresses of `users` that are there and not blank, in order.
pub open spec fn emails_of(users: Seq<UserId>) -> Seq<Seq<char>>
    decreases users.len(),
{
    if users.len() == 0 {
        Seq::empty()
    } else if present(users.last().email) {
        emails_of(users.drop_last()).push(users.last().email->0@)
    } else {
        emails_of(users.drop_last())
    }
}

impl KeyId {
    /// The key with the fingerprint `fingerprint` and the users `users`, each
    /// as its label.
    pub fn from(fingerprint: String, users: &Vec<UserId>) -> (made: Self)
        ensures
            made.0 == fingerprint,
            made.1.deep_view() == labels(users@),
    {
        let mut shown: Vec<String> = Vec::new();
        let mut i: usize = 0;
        while i < users.len()
            invariant
                i <= users.len(),
                shown@.len() == i,
                forall|j: int| 0 <= j < i ==> shown@[j]@ == joined(user_parts(users@[j]), " "@),
            decreases users.len() - i,
        {
            shown.push(users[i].label());
            i += 1;
        }
        assert(shown.deep_view() =~= labels(users@));
        KeyId(fingerprint, shown)
    }

    /// This key as a key of the `gpg` engine.
    pub fn into_key(self) -> (key: Key)
        ensures
            key == Key::Gpg(protocol::gpg::Key { fingerprint: self.0, user_ids: self.1 }),
    {
        Key::Gpg(protocol::gpg::Key { fingerprint: self.0, user_ids: self.1 })
    }
}

/// The e-mail addresses of `users` that are there and not blank, in order.
pub fn user_emails(users: &Vec<UserId>) -> (emails: Vec<String>)
    ensures
        emails.deep_view() == emails_of(users@),
{
    let mut emails: Vec<String> = Vec::new();
    let mut i: usize = 0;
    assert(users@.take(0) =~= Seq::<UserId>::empty());
    assert(emails.deep_view() =~= Seq::<Seq<char>>::empty());
    while i < users.len()
        invariant
            i <= users.len(),
            emails.deep_view() == emails_of(users@.take(i as int)),
        decreases users.len() - i,
    {
        let ghost before = emails.deep_view();
        let ghost prefix = users@.take(i as int + 1);
        assert(prefix.drop_last() =~= users@.take(i as int));
        assert(prefix.last() == users@[i as int]);
        if is_present(&users[i].email) {
            match &users[i].email {
                Some(email) => {
                    emails.push(email.clone());
                    assert(emails.deep_view() =~= before.push(email@));
                },
                None => {},
            }
        }
        i += 1;
    }
    assert(users@.take(i as int) =~= users@);
    emails
}

/// Whether the text of a key is that of a public key and of no private one:
/// it says `PUBLIC KEY` and does not say `PRIVATE KEY`.
pub open spec fn public_key_text(text: Seq<char>) -> bool {
    occurs(text, "PUBLIC KEY"@) && !occurs(text, "PRIVATE KEY"@)
}

/// Whether the text of a key may be imported or exported: it is that of a
/// public key and of no private one.
pub fn is_public_key(text: &str) -> (held: bool)
    ensures
        held == public_key_text(text@),
{
    contains_text(text, "PUBLIC KEY") && !contains_text(text, "PRIVATE KEY")
}

/// Whether a secret can be decrypted, given what the attempt came to:
/// whether it failed, and whether it failed for want of the secret key. Any
/// other failure counts as success.
pub fn can_decrypt(failed: bool, no_secret_key: bool) -> (able: bool)
    ensures
        able == !(failed && no_secret_key),
{
    !(failed && no_secret_key)
}

} // verus!
