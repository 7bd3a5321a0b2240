//! Verification of the credentials that a request presents.
//!
//! The table holds, for each user, the SHA-256 digest of the password. A
//! request presents a user name and a password; it is accepted where the
//! digest of that password is the one in the table.

use crate::text::{chars_of, same_text};
use sha2::{Digest, Sha256};
use vstd::prelude::*;
use vstd::string::*;
use vstd::utf8::encode_utf8;

verus! {

/// The request presented no credentials, or none that the table confirms.
#[derive(Clone, Copy, Debug, PartialEq, Eq, Structural)]
pub struct Unauthorized;

/// The SHA-256 digest of a string of bytes.
pub uninterp spec fn sha256(data: Seq<u8>) -> Seq<u8>;

/// The digest under which a password is stored: the SHA-256 digest of its
/// UTF-8 encoding.
pub open spec fn digest_of(password: Seq<char>) -> Seq<u8> {
    sha256(encode_utf8(password))
}

/// Calls `Sha256::digest` of the crate `sha2` (the method `digest` of its
/// trait `Digest`), which hashes the whole input in one go. The result is
/// taken to be a function of the input bytes alone; nothing else is
/// claimed of it.
#[verifier::external_body]
fn sha256_of(data: &[u8]) -> (r: Vec<u8>)
    ensures
        r@ == sha256(data@),
{
    Sha256::digest(data).to_vec()
}

/// The digest under which a password is stored.
pub fn password_digest(password: &str) -> (r: Vec<u8>)
    ensures
        r@ == digest_of(password@),
{
    sha256_of(password.as_bytes())
}

/// An entry of the credential table: a user name with the digest of the
/// user's password.
#[derive(Clone, Debug)]
pub struct Credentials {
    pub user: String,
    pub digest: Vec<u8>,
}

impl Credentials {
    /// The entry of `user` with the given digest.
    pub fn new(user: &str, digest: Vec<u8>) -> (r: Credentials)
        ensures
            r.user@ == user@,
            r.digest@ == digest@,
    {
        Credentials { user: user.to_owned(), digest }
    }

    /// The entry of `user` with the digest of the given password.
    pub fn with_password(user: &str, password: &str) -> (r: Credentials)
        ensures
            r.user@ == user@,
            r.digest@ == digest_of(password@),
    {
        Credentials { user: user.to_owned(), digest: password_digest(password) }
    }
}

/// What a request presents: a user name and a password.
#[derive(Clone, Debug)]
pub struct Login {
    pub user: String,
    pub password: String,
}

impl Login {
    /// The login written as `user:password`: the user name ends at the
    /// first colon, the password is everything behind it. A text without
    /// colon is no login.
    pub fn from_pair(pair: &str) -> (r: Option<Login>)
        ensures
            match r {
                Some(login) => pair@ == login.user@.push(':') + login.password@
                    && !login.user@.contains(':'),
                None => !pair@.contains(':'),
            },
    {
        let chars = chars_of(pair);
        let n = chars.len();
        let mut i: usize = 0;
        while i < n
            invariant
                chars@ == pair@,
                n == chars.len(),
                i <= n,
                forall|j: int| 0 <= j < i ==> pair@[j] != ':',
            decreases n - i,
        {
            if chars[i] == ':' {
                let user = pair.substring_char(0, i).to_owned();
                let password = pair.substring_char(i + 1, n).to_owned();
                assert(pair@ =~= user@.push(':') + password@);
                return Some(Login { user, password });
            }
            i += 1;
        }
        None
    }

    /// The login of `user` with `password`.
    pub fn new(user: &str, password: &str) -> (r: Login)
        ensures
            r.user@ == user@,
            r.password@ == password@,
    {
        Login { user: user.to_owned(), password: password.to_owned() }
    }
}

/// The table that a list of entries makes: keyed by user, a later entry
/// replacing an earlier one of the same user.
pub open spec fn digest_map(entries: Seq<Credentials>) -> Map<Seq<char>, Seq<u8>>
    decreases entries.len(),
{
    if entries.len() == 0 {
        Map::empty()
    } else {
        digest_map(entries.drop_last()).insert(entries.last().user@, entries.last().digest@)
    }
}

/// What a request presents, as plain values: nothing, or a user name and
/// a password.
pub open spec fn presented(credentials: Option<&Login>) -> Option<(Seq<char>, Seq<char>)> {
    match credentials {
        Some(c) => Some((c.user@, c.password@)),
        None => None,
    }
}

/// What an [`Authenticator`] holds.
pub struct AuthenticatorView {
    /// Whether requests have to authenticate at all.
    pub required: bool,
    /// The stored digest of each known user.
    pub digests: Map<Seq<char>, Seq<u8>>,
}

impl AuthenticatorView {
    /// Whom a user presenting a digest is accepted as. Without required
    /// authentication everyone is accepted as anonymous. With it, the
    /// user is accepted under their name exactly where the table knows
    /// them and holds that digest.
    pub open spec fn accepted(self, user: Seq<char>, digest: Seq<u8>) -> Result<
        Option<Seq<char>>,
        Unauthorized,
    > {
        if !self.required {
            Ok(None)
        } else if self.digests.contains_key(user) && self.digests[user] == digest {
            Ok(Some(user))
        } else {
            Err(Unauthorized)
        }
    }

    /// Whom a request is accepted as. Without required authentication
    /// every request is accepted as anonymous, whatever it presents. With
    /// it, a request without credentials is refused, and one with
    /// credentials is accepted as the user it names exactly where the
    /// table knows that user and holds the digest of the password
    /// presented.
    pub open spec fn verified(self, credentials: Option<(Seq<char>, Seq<char>)>) -> Result<
        Option<Seq<char>>,
        Unauthorized,
    > {
        if !self.required {
            Ok(None)
        } else {
            match credentials {
                Some((user, password)) => self.accepted(user, digest_of(password)),
                None => Err(Unauthorized),
            }
        }
    }
}

/// Whether two digests are equal. Digests of equal length are compared
/// byte by byte to the end, so that the time taken does not tell where
/// they first differ.
pub fn digests_match(a: &[u8], b: &[u8]) -> (r: bool)
    ensures
        r == (a@ == b@),
{
    if a.len() != b.len() {
        return false;
    }
    let n = a.len();
    let mut difference: u8 = 0;
    let mut i: usize = 0;
    while i < n
        invariant
            n == a.len(),
            n == b.len(),
            i <= n,
            difference == 0 <==> forall|j: int| 0 <= j < i ==> a[j] == b[j],
        decreases n - i,
    {
        let x = a[i];
        let y = b[i];
        assert((difference | (x ^ y)) == 0 <==> difference == 0 && x == y) by (bit_vector);
        difference = difference | (x ^ y);
        i += 1;
    }
    if difference == 0 {
        assert(a@ =~= b@);
    }
    difference == 0
}

/// The credential table, and whether authentication is required. Built
/// once; there is no way to change it afterwards.
#[derive(Debug)]
pub struct Authenticator {
    required: bool,
    entries: Vec<Credentials>,
}

impl View for Authenticator {
    type V = AuthenticatorView;

    closed spec fn view(&self) -> AuthenticatorView {
        AuthenticatorView { required: self.required, digests: digest_map(self.entries@) }
    }
}

impl Authenticator {
    /// The authenticator over the given entries. Of two entries for one
    /// user the later one counts.
    pub fn new(required: bool, entries: Vec<Credentials>) -> (r: Authenticator)
        ensures
            r@.required == required,
            r@.digests == digest_map(entries@),
    {
        Authenticator { required, entries }
    }

    /// Whether requests have to authenticate.
    pub fn required(&self) -> (r: bool)
        ensures
            r == self@.required,
    {
        self.required
    }

    /// The digest stored for `user`, if the table knows the user.
    pub fn stored_digest(&self, user: &str) -> (r: Option<&Vec<u8>>)
        ensures
            match r {
                Some(d) => self@.digests.contains_key(user@) && self@.digests[user@] == d@,
                None => !self@.digests.contains_key(user@),
            },
    {
        let mut i: usize = self.entries.len();
        assert(self.entries@.take(i as int) =~= self.entries@);
        while i > 0
            invariant
                i <= self.entries.len(),
                digest_map(self.entries@).contains_key(user@) == digest_map(
                    self.entries@.take(i as int),
                ).contains_key(user@),
                digest_map(self.entries@).contains_key(user@) ==> digest_map(self.entries@)[user@]
                    == digest_map(self.entries@.take(i as int))[user@],
            decreases i,
        {
            let ghost upto = self.entries@.take(i as int);
            assert(upto.drop_last() =~= self.entries@.take(i - 1));
            assert(upto.last() == self.entries@[i - 1]);
            i -= 1;
            let entry = &self.entries[i];
            if same_text(entry.user.as_str(), user) {
                return Some(&entry.digest);
            }
        }
        None
    }

    /// Says whom a user presenting a digest is accepted as: `None` is
    /// the anonymous user.
    pub fn accept(&self, user: &str, digest: &[u8]) -> (r: Result<Option<String>, Unauthorized>)
        ensures
            match r {
                Ok(Some(name)) => self@.accepted(user@, digest@) == Ok::<
                    Option<Seq<char>>,
                    Unauthorized,
                >(Some(name@)),
                Ok(None) => self@.accepted(user@, digest@) == Ok::<Option<Seq<char>>, Unauthorized>(
                    None,
                ),
                Err(_) => self@.accepted(user@, digest@) is Err,
            },
    {
        if !self.required {
            return Ok(None);
        }
        match self.stored_digest(user) {
            Some(stored) => if digests_match(stored.as_slice(), digest) {
                Ok(Some(user.to_owned()))
            } else {
                Err(Unauthorized)
            },
            None => Err(Unauthorized),
        }
    }

    /// Verifies what a request presents, and says whom it is accepted as:
    /// `None` is the anonymous user.
    pub fn verify(&self, credentials: Option<&Login>) -> (r: Result<Option<String>, Unauthorized>)
        ensures
            match r {
                Ok(Some(name)) => self@.verified(presented(credentials)) == Ok::<
                    Option<Seq<char>>,
                    Unauthorized,
                >(Some(name@)),
                Ok(None) => self@.verified(presented(credentials)) == Ok::<
                    Option<Seq<char>>,
                    Unauthorized,
                >(None),
                Err(_) => self@.verified(presented(credentials)) is Err,
            },
    {
        if !self.required {
            return Ok(None);
        }
        match credentials {
            Some(login) => {
                let digest = password_digest(login.password.as_str());
                self.accept(login.user.as_str(), digest.as_slice())
            },
            None => Err(Unauthorized),
        }
    }
}

} // verus!
