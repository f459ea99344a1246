//! The TURN long-term credential store.
//!
//! Installing a credential derives the authentication key from
//! `username:realm:password` (the MD5 digest RFC 5389 §15.4 prescribes)
//! and stores only the key; the plaintext password is not retained. The
//! TURN engine's authentication callback answers each request by looking
//! the key up under (username, realm); the caller's source address is
//! informational only and cannot affect the result.

use vstd::prelude::*;

verus! {

/// The digest the long-term credential mechanism derives from the key
/// material `username:realm:password`: its MD5, a function of the material
/// alone.
pub uninterp spec fn auth_key_digest(material: Seq<char>) -> Seq<u8>;

/// The key material `username:realm:password`.
pub open spec fn key_material(username: Seq<char>, realm: Seq<char>, password: Seq<char>) -> Seq<
    char,
> {
    username + seq![':'] + realm + seq![':'] + password
}

/// Relies on `webrtc_turn::auth::generate_auth_key`: the MD5 digest of
/// `"{username}:{realm}:{password}"`, 16 bytes, computed from those three
/// arguments alone.
#[verifier::external_body]
fn generate_key(username: &str, realm: &str, password: &str) -> (r: Vec<u8>)
    ensures
        r@ == auth_key_digest(key_material(username@, realm@, password@)),
        r@.len() == 16,
{
    webrtc_turn::auth::generate_auth_key(username, realm, password)
}

/// One installed credential: the pair it is keyed under and the derived
/// authentication key.
pub struct Credential {
    pub username: String,
    pub realm: String,
    pub key: Vec<u8>,
}

/// Mathematical model of a [`Credential`].
#[verifier::ext_equal]
pub struct CredentialModel {
    pub username: Seq<char>,
    pub realm: Seq<char>,
    pub key: Seq<u8>,
}

impl View for Credential {
    type V = CredentialModel;

    open spec fn view(&self) -> CredentialModel {
        CredentialModel { username: self.username@, realm: self.realm@, key: self.key@ }
    }
}

/// Some entry is keyed under (username, realm).
pub open spec fn has_cred(s: Seq<CredentialModel>, username: Seq<char>, realm: Seq<char>) -> bool {
    exists|i: int| 0 <= i < s.len() && s[i].username == username && s[i].realm == realm
}

/// Index of the entry keyed under (username, realm), unique under
/// [`creds_wf`].
pub open spec fn cred_index(s: Seq<CredentialModel>, username: Seq<char>, realm: Seq<char>) -> int {
    choose|i: int| 0 <= i < s.len() && s[i].username == username && s[i].realm == realm
}

/// The stored key for (username, realm), if installed.
pub open spec fn cred_lookup(
    s: Seq<CredentialModel>,
    username: Seq<char>,
    realm: Seq<char>,
) -> Option<Seq<u8>> {
    if has_cred(s, username, realm) {
        Some(s[cred_index(s, username, realm)].key)
    } else {
        None
    }
}

/// Well-formedness: (username, realm) pairs are distinct across entries.
pub open spec fn creds_wf(s: Seq<CredentialModel>) -> bool {
    forall|i: int, j: int|
        0 <= i < s.len() && 0 <= j < s.len() && i != j ==> !(s[i].username == s[j].username
            && s[i].realm == s[j].realm)
}

/// Install: store `key` under (username, realm), replacing a prior entry
/// for the same pair.
pub open spec fn install_t(
    s: Seq<CredentialModel>,
    username: Seq<char>,
    realm: Seq<char>,
    key: Seq<u8>,
) -> Seq<CredentialModel> {
    let entry = CredentialModel { username, realm, key };
    if has_cred(s, username, realm) {
        s.update(cred_index(s, username, realm), entry)
    } else {
        s.push(entry)
    }
}

/// The credential table handed to the TURN engine's authentication
/// callback.
pub struct SimpleAuthHandler {
    credentials: Vec<Credential>,
}

impl View for SimpleAuthHandler {
    type V = Seq<CredentialModel>;

    closed spec fn view(&self) -> Seq<CredentialModel> {
        self.credentials@.map_values(|c: Credential| c@)
    }
}

impl SimpleAuthHandler {
    /// An empty credential table.
    pub fn new() -> (r: SimpleAuthHandler)
        ensures
            r@ == Seq::<CredentialModel>::empty(),
            creds_wf(r@),
    {
        let r = SimpleAuthHandler { credentials: Vec::new() };
        proof {
            assert(r@ =~= Seq::<CredentialModel>::empty());
        }
        r
    }

    /// Index of the entry keyed under (username, realm), if any.
    fn find(&self, username: &str, realm: &str) -> (r: Option<usize>)
        requires
            creds_wf(self@),
        ensures
            match r {
                Some(i) => i < self@.len() && self@[i as int].username == username@
                    && self@[i as int].realm == realm@ && has_cred(self@, username@, realm@)
                    && cred_index(self@, username@, realm@) == i as int,
                None => !has_cred(self@, username@, realm@),
            },
    {
        let u: String = username.to_owned();
        let re: String = realm.to_owned();
        let mut i: usize = 0;
        while i < self.credentials.len()
            invariant
                creds_wf(self@),
                u@ == username@,
                re@ == realm@,
                i <= self.credentials.len(),
                self@.len() == self.credentials.len(),
                forall|j: int|
                    0 <= j < i ==> !(self@[j].username == username@ && self@[j].realm == realm@),
            decreases self.credentials.len() - i,
        {
            if self.credentials[i].username == u && self.credentials[i].realm == re {
                proof {
                    assert(self@[i as int].username == username@ && self@[i as int].realm
                        == realm@);
                    assert(has_cred(self@, username@, realm@));
                    let k = cred_index(self@, username@, realm@);
                    assert(0 <= k < self@.len() && self@[k].username == username@ && self@[k].realm
                        == realm@);
                    assert(k == i as int);
                }
                return Some(i);
            }
            i = i + 1;
        }
        None
    }

    /// Derive the authentication key for (username, realm, password) and
    /// store it, replacing a prior entry for the same pair; the password
    /// itself is not kept.
    pub fn add_credential(&mut self, username: String, realm: String, password: String)
        requires
            creds_wf(old(self)@),
        ensures
            final(self)@ == install_t(
                old(self)@,
                username@,
                realm@,
                auth_key_digest(key_material(username@, realm@, password@)),
            ),
            creds_wf(final(self)@),
    {
        let key = generate_key(username.as_str(), realm.as_str(), password.as_str());
        let entry = Credential { username, realm, key };
        match self.find(entry.username.as_str(), entry.realm.as_str()) {
            Some(i) => {
                let _ = self.credentials.remove(i);
                self.credentials.insert(i, entry);
                proof {
                    assert(final(self)@ =~~= install_t(
                        old(self)@,
                        entry.username@,
                        entry.realm@,
                        entry.key@,
                    ));
                }
            },
            None => {
                self.credentials.push(entry);
                proof {
                    assert(final(self)@ =~~= install_t(
                        old(self)@,
                        entry.username@,
                        entry.realm@,
                        entry.key@,
                    ));
                }
            },
        }
        proof {
            let s2 = final(self)@;
            assert forall|i: int, j: int|
                0 <= i < s2.len() && 0 <= j < s2.len() && i != j implies !(s2[i].username
                == s2[j].username && s2[i].realm == s2[j].realm) by {}
        }
    }

    /// The stored key for (username, realm), or `None` when no such
    /// credential is installed. The source address is informational and
    /// does not influence the result, as the contract shows.
    pub fn lookup(&self, username: &str, realm: &str, source_address: &str) -> (r: Option<Vec<u8>>)
        requires
            creds_wf(self@),
        ensures
            match r {
                Some(k) => cred_lookup(self@, username@, realm@) == Some(k@),
                None => cred_lookup(self@, username@, realm@) is None,
            },
    {
        match self.find(username, realm) {
            Some(i) => Some(crate::bytes::copy_bytes(&self.credentials[i].key)),
            None => None,
        }
    }
}

/// TURN credential round-trip: installing (username, realm, password)
/// stores exactly the long-term-credential digest of
/// `username:realm:password`, a later lookup of that pair returns it, and
/// every other pair's answer is unchanged — a request authenticates iff
/// its pair is installed.
pub proof fn lemma_credential_round_trip(
    s: Seq<CredentialModel>,
    username: Seq<char>,
    realm: Seq<char>,
    password: Seq<char>,
)
    requires
        creds_wf(s),
    ensures
        ({
            let k = auth_key_digest(key_material(username, realm, password));
            let s2 = install_t(s, username, realm, k);
            &&& cred_lookup(s2, username, realm) == Some(k)
            &&& forall|u2: Seq<char>, r2: Seq<char>|
                !(u2 == username && r2 == realm) ==> #[trigger] cred_lookup(s2, u2, r2)
                    == cred_lookup(s, u2, r2)
        }),
{
    let k = auth_key_digest(key_material(username, realm, password));
    let s2 = install_t(s, username, realm, k);
    assert(creds_wf(s2)) by {
        assert forall|i: int, j: int|
            0 <= i < s2.len() && 0 <= j < s2.len() && i != j implies !(s2[i].username
            == s2[j].username && s2[i].realm == s2[j].realm) by {}
    }
    assert(has_cred(s2, username, realm)) by {
        if has_cred(s, username, realm) {
            let i = cred_index(s, username, realm);
            assert(s2[i].username == username && s2[i].realm == realm);
        } else {
            assert(s2[s.len() as int].username == username);
        }
    }
    let i2 = cred_index(s2, username, realm);
    if has_cred(s, username, realm) {
        let i = cred_index(s, username, realm);
        assert(s2[i].username == username && s2[i].realm == realm);
        assert(i2 == i);
    } else {
        assert(s2[s.len() as int].username == username && s2[s.len() as int].realm == realm);
        assert(i2 == s.len());
    }
    assert(cred_lookup(s2, username, realm) == Some(k));
    assert forall|u2: Seq<char>, r2: Seq<char>| !(u2 == username && r2 == realm) implies #[trigger]
        cred_lookup(s2, u2, r2) == cred_lookup(s, u2, r2) by {
        if has_cred(s, u2, r2) {
            let j = cred_index(s, u2, r2);
            assert(j != (if has_cred(s, username, realm) {
                cred_index(s, username, realm)
            } else {
                -1
            }) || !(s[j].username == username && s[j].realm == realm));
            assert(s2[j].username == u2 && s2[j].realm == r2);
            assert(has_cred(s2, u2, r2));
            let j2 = cred_index(s2, u2, r2);
            assert(j2 == j);
            assert(cred_lookup(s2, u2, r2) == Some(s[j].key));
        }
        if has_cred(s2, u2, r2) {
            let j2 = cred_index(s2, u2, r2);
            if has_cred(s, username, realm) {
                assert(s[j2].username == u2 && s[j2].realm == r2);
                assert(has_cred(s, u2, r2));
            } else {
                assert(j2 != s.len());
                assert(s[j2].username == u2 && s[j2].realm == r2);
                assert(has_cred(s, u2, r2));
            }
        }
    }
}

} // verus!
