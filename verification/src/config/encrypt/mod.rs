//! Keys and recipients of encrypted hoards.

pub mod engine;
pub mod fortress;
pub mod protocol;
pub mod recipients;
pub mod selection;
pub mod utils;

pub use recipients::Recipients;
use utils::normal_fingerprint;
use vstd::prelude::*;
use vstd::string::*;

verus! {

/// An engine that encrypts.
#[non_exhaustive]
#[derive(Copy, Clone, Debug, PartialEq, Eq, Hash, Structural)]
pub enum Engine {
    /// GnuPG.
    Gpg,
}

impl Engine {
    /// The engine's name, for people to read.
    pub fn name(&self) -> (name: &'static str)
        ensures
            name@ == "GPG"@,
    {
        match self {
            Self::Gpg => "GPG",
        }
    }
}

/// How to encrypt.
#[derive(Debug, Clone)]
pub struct Config {
    /// The engine to use.
    pub engine: Engine,
    /// Whether the engine asks for passwords on the terminal.
    pub gpg_tty: bool,
    /// Whether the output is ASCII-armoured.
    pub armor: bool,
}

impl Default for Config {
    fn default() -> (config: Self)
        ensures
            config.engine == Engine::Gpg,
            !config.gpg_tty,
            config.armor,
    {
        Self { engine: Engine::Gpg, gpg_tty: false, armor: true }
    }
}

impl Config {
    /// The default configuration for `engine`.
    pub fn from(engine: Engine) -> (config: Self)
        ensures
            config.engine == engine,
            !config.gpg_tty,
            config.armor,
    {
        Self { engine, gpg_tty: false, armor: true }
    }
}

/// A key of one of the engines.
#[non_exhaustive]
#[derive(Debug)]
pub enum Key {
    /// A `gpg` key.
    Gpg(protocol::gpg::Key),
}

impl Key {
    /// The fingerprint as the keychain wrote it.
    pub open spec fn fingerprint_text(&self) -> Seq<char> {
        match self {
            Self::Gpg(key) => key.fingerprint@,
        }
    }

    /// The users that the key names.
    pub open spec fn users(&self) -> Seq<Seq<char>> {
        match self {
            Self::Gpg(key) => key.user_ids.deep_view(),
        }
    }

    /// The users that the key names, for people to read.
    pub fn user_id(&self) -> (shown: String)
        ensures
            shown@ == crate::text::joined(self.users(), "; "@),
    {
        match self {
            Self::Gpg(key) => key.display_user(),
        }
    }

    /// The engine that the key belongs to.
    pub open spec fn protocol_of(&self) -> Engine {
        match self {
            Self::Gpg(_) => Engine::Gpg,
        }
    }

    /// Whether `self` and `other` are one key: their fingerprints have one
    /// normal form.
    pub open spec fn same_key(&self, other: &Self) -> bool {
        normal_fingerprint(self.fingerprint_text()) == normal_fingerprint(other.fingerprint_text())
    }

    /// The key as a line for people to read: the engine in brackets, the
    /// short fingerprint, a dash, the users, and a line break.
    pub fn display(&self) -> (line: String)
        requires
            protocol::gpg::has_short_form(self.fingerprint_text()),
        ensures
            line@ == "["@ + "GPG"@ + "] "@ + normal_fingerprint(
                protocol::gpg::short_form(self.fingerprint_text()),
            ) + " - "@ + crate::text::joined(self.users(), "; "@) + "\n"@,
    {
        let mut line = String::from_str("[");
        line.append(self.protocol().name());
        line.append("] ");
        line.append(self.fingerprint(true).as_str());
        line.append(" - ");
        line.append(self.user_id().as_str());
        line.append("\n");
        line
    }

    /// The engine that the key belongs to.
    pub fn protocol(&self) -> (engine: Engine)
        ensures
            engine == self.protocol_of(),
    {
        match self {
            Self::Gpg(_) => Engine::Gpg,
        }
    }

    /// Whether the short form of the fingerprint can be taken.
    pub fn has_short_fingerprint(&self) -> (held: bool)
        ensures
            held == protocol::gpg::has_short_form(self.fingerprint_text()),
    {
        match self {
            Self::Gpg(key) => key.has_short_fingerprint(),
        }
    }

    /// The fingerprint in its normal form: of the whole text, or of its last
    /// 16 bytes where `short` is set.
    pub fn fingerprint(&self, short: bool) -> (shown: String)
        requires
            short ==> protocol::gpg::has_short_form(self.fingerprint_text()),
        ensures
            shown@ == normal_fingerprint(
                if short {
                    protocol::gpg::short_form(self.fingerprint_text())
                } else {
                    self.fingerprint_text()
                },
            ),
    {
        match self {
            Self::Gpg(key) => key.fingerprint(short),
        }
    }
}

impl Clone for Key {
    /// A key of the same engine, with the same fingerprint and the same
    /// users.
    fn clone(&self) -> (copy: Self)
        ensures
            copy.protocol_of() == self.protocol_of(),
            copy.fingerprint_text() == self.fingerprint_text(),
            copy.users() == self.users(),
    {
        match self {
            Self::Gpg(key) => Self::Gpg(key.clone()),
        }
    }
}

impl PartialEq for Key {
    /// Two keys are the same where they belong to one engine and are the
    /// same key there.
    fn eq(&self, other: &Self) -> (same: bool) {
        match (self, other) {
            (Self::Gpg(mine), Self::Gpg(theirs)) => mine == theirs,
        }
    }
}

impl vstd::std_specs::cmp::PartialEqSpecImpl for Key {
    open spec fn obeys_eq_spec() -> bool {
        true
    }

    open spec fn eq_spec(&self, other: &Self) -> bool {
        self.same_key(other)
    }
}

} // verus!
