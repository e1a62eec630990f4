//! User registration and session tokens: passwords are stored as
//! one-way hex digests, and logging in issues a fresh random session
//! token that later calls validate against.

use vstd::prelude::*;
use vstd::string::StringSliceAdditionalSpecFns;
use crate::crypto::sha256;
use crate::crypto::sha256_of;
use crate::platform::random_alphanumeric_30;
use crate::textform::bytes_to_hex;
use crate::textform::hex_of;
use crate::textform::str_equal;

verus! {

/// One registered user.
pub struct User {
    pub user_id: String,
    pub password_hash: String,
    pub token: Option<String>,
}

/// The mathematical content of a `User`.
#[verifier::ext_equal]
pub struct UserV {
    pub user_id: Seq<char>,
    pub password_hash: Seq<char>,
    pub token: Option<Seq<char>>,
}

impl View for User {
    type V = UserV;

    open spec fn view(&self) -> UserV {
        UserV {
            user_id: self.user_id@,
            password_hash: self.password_hash@,
            token: match self.token {
                None => None,
                Some(ref t) => Some(t@),
            },
        }
    }
}

/// The stored rendering of a password: hex of its one-way digest.
pub open spec fn password_hash_of(password: Seq<u8>) -> Seq<char> {
    hex_of(sha256_of(password))
}

/// The position of the first user with an identifier, if any.
pub open spec fn user_index_of(s: Seq<UserV>, id: Seq<char>) -> Option<int>
    decreases s.len(),
{
    if s.len() == 0 {
        None
    } else if s[0].user_id == id {
        Some(0)
    } else {
        match user_index_of(s.drop_first(), id) {
            None => None,
            Some(i) => Some(i + 1),
        }
    }
}

/// The first user with an identifier, if any.
pub open spec fn user_find(s: Seq<UserV>, id: Seq<char>) -> Option<UserV> {
    match user_index_of(s, id) {
        None => None,
        Some(i) => Some(s[i]),
    }
}

/// The user directory and session state.
pub struct AuthSystem {
    users: Vec<User>,
}

impl View for AuthSystem {
    type V = Seq<UserV>;

    closed spec fn view(&self) -> Seq<UserV> {
        Seq::new(self.users@.len(), |i: int| self.users@[i]@)
    }
}

/// Hashes a password for storage.
fn hash_password(password: &str) -> (r: String)
    ensures
        r@ == password_hash_of(password.spec_bytes()),
{
    let digest = sha256(password.as_bytes());
    bytes_to_hex(&digest)
}

impl AuthSystem {
    /// An empty directory.
    pub fn new() -> (r: AuthSystem)
        ensures
            r@ == Seq::<UserV>::empty(),
    {
        let r = AuthSystem { users: Vec::new() };
        proof {
            assert(r@ =~= Seq::<UserV>::empty());
        }
        r
    }

    /// The position of the user with the given identifier, if any.
    fn user_pos(&self, user_id: &str) -> (r: Option<usize>)
        ensures
            match r {
                Some(i) => user_index_of(self@, user_id@) == Some(i as int) && i < self@.len(),
                None => user_index_of(self@, user_id@) is None,
            },
    {
        let ghost s = self@;
        proof {
            assert(s.skip(0) =~= s);
        }
        let mut i: usize = 0;
        while i < self.users.len()
            invariant
                i <= s.len(),
                s == self@,
                s.len() == self.users@.len(),
                match user_index_of(s.skip(i as int), user_id@) {
                    None => user_index_of(s, user_id@) is None,
                    Some(k) => user_index_of(s, user_id@) == Some(k + i),
                },
            decreases s.len() - i,
        {
            proof {
                assert(s.skip(i as int)[0] == s[i as int]);
                assert(s[i as int] == self.users@[i as int]@);
                assert(s.skip(i as int).drop_first() =~= s.skip(i as int + 1));
            }
            if str_equal(self.users[i].user_id.as_str(), user_id) {
                return Some(i);
            }
            i = i + 1;
        }
        proof {
            assert(s.skip(s.len() as int) =~= Seq::<UserV>::empty());
        }
        None
    }

    /// Registers a user; an already-taken identifier is refused. The
    /// stored hash is the password's one-way digest, never the password.
    pub fn register_user(&mut self, user_id: &str, password: &str) -> (r: bool)
        ensures
            r <==> user_index_of(old(self)@, user_id@) is None,
            !r ==> final(self)@ == old(self)@,
            r ==> final(self)@ == old(self)@.push(
                UserV {
                    user_id: user_id@,
                    password_hash: password_hash_of(password.spec_bytes()),
                    token: None,
                },
            ),
    {
        if let Some(_) = self.user_pos(user_id) {
            return false;
        }
        let ghost oldv = self@;
        let user = User {
            user_id: user_id.to_owned(),
            password_hash: hash_password(password),
            token: None,
        };
        let ghost uv = user@;
        self.users.push(user);
        proof {
            assert(self@ =~= oldv.push(uv));
        }
        true
    }

    /// Logs a user in: with the right password a fresh thirty-character
    /// session token is stored and returned; otherwise nothing changes.
    pub fn login(&mut self, user_id: &str, password: &str) -> (r: Option<String>)
        ensures
            r is Some <==> (user_find(old(self)@, user_id@) matches Some(u) && u.password_hash
                == password_hash_of(password.spec_bytes())),
            r is None ==> final(self)@ == old(self)@,
            r matches Some(t) ==> t@.len() == 30 && (user_index_of(old(self)@, user_id@)
                matches Some(i) && final(self)@ == old(self)@.update(
                i,
                UserV { token: Some(t@), ..old(self)@[i] },
            )),
    {
        let i = match self.user_pos(user_id) {
            None => {
                return None;
            },
            Some(i) => i,
        };
        let expected = hash_password(password);
        if !str_equal(self.users[i].password_hash.as_str(), expected.as_str()) {
            return None;
        }
        let token = random_alphanumeric_30();
        let ghost oldv = self@;
        let copy = token.clone();
        let user_ref = &mut self.users[i];
        user_ref.token = Some(token);
        proof {
            assert(self@ =~= oldv.update(i as int, UserV { token: Some(copy@), ..oldv[i as int] }));
        }
        Some(copy)
    }

    /// Logs a user out, clearing any session token; an unknown
    /// identifier reports failure.
    pub fn logout(&mut self, user_id: &str) -> (r: bool)
        ensures
            r <==> user_index_of(old(self)@, user_id@) is Some,
            !r ==> final(self)@ == old(self)@,
            r ==> (user_index_of(old(self)@, user_id@) matches Some(i) && final(self)@ == old(
                self,
            )@.update(i, UserV { token: None, ..old(self)@[i] })),
    {
        let i = match self.user_pos(user_id) {
            None => {
                return false;
            },
            Some(i) => i,
        };
        let ghost oldv = self@;
        let user_ref = &mut self.users[i];
        user_ref.token = None;
        proof {
            assert(self@ =~= oldv.update(i as int, UserV { token: None, ..oldv[i as int] }));
        }
        true
    }

    /// Whether the token is the user's current session token.
    pub fn validate_token(&self, user_id: &str, token: &str) -> (r: bool)
        ensures
            r <==> (user_find(self@, user_id@) matches Some(u) && u.token == Some(token@)),
    {
        let i = match self.user_pos(user_id) {
            None => {
                return false;
            },
            Some(i) => i,
        };
        match &self.users[i].token {
            None => false,
            Some(t) => str_equal(t.as_str(), token),
        }
    }
}

} // verus!
