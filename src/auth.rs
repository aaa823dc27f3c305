use vstd::prelude::*;

verus! {

#[verifier::external_type_specification]
#[verifier::external_body]
pub struct ExBcryptError(bcrypt::BcryptError);

/// What `bcrypt::verify` returns for a password and a stored hash: `None` where it fails (a hash
/// that is not in bcrypt's format), else whether the password matches.
pub uninterp spec fn bcrypt_verdict(password: Seq<char>, hash: Seq<char>) -> Option<bool>;

/// Relies on `bcrypt::hash` with `bcrypt::DEFAULT_COST`: it salts at random, but `bcrypt::verify`
/// re-hashes with the salt and cost it reads from the hash, so it accepts the hashed password.
#[verifier::external_body]
fn hash_password(password: &str) -> (r: Result<String, bcrypt::BcryptError>)
    ensures
        r matches Ok(h) ==> bcrypt_verdict(password@, h@) == Some(true),
{
    bcrypt::hash(password, bcrypt::DEFAULT_COST)
}

/// Relies on `bcrypt::verify`: a function of the password and the stored hash alone.
#[verifier::external_body]
fn verify_password(password: &str, hash: &str) -> (r: Result<bool, bcrypt::BcryptError>)
    ensures
        r is Ok <==> bcrypt_verdict(password@, hash@) is Some,
        r matches Ok(b) ==> bcrypt_verdict(password@, hash@) == Some(b),
{
    bcrypt::verify(password, hash)
}

/// Authentication errors
#[derive(Debug)]
pub enum AuthError {
    /// bcrypt could not hash or check a password.
    HashingError(bcrypt::BcryptError),
    /// No such user, or the password does not match.
    AuthenticationFailed,
}

/// The index of the first entry whose user name is `name`, if any.
pub open spec fn index_of_user(entries: Seq<(Seq<char>, Seq<char>)>, name: Seq<char>) -> Option<int>
    decreases entries.len(),
{
    if entries.len() == 0 {
        None
    } else if entries.last().0 == name && index_of_user(entries.drop_last(), name) is None {
        Some(entries.len() - 1)
    } else {
        index_of_user(entries.drop_last(), name)
    }
}

/// The user names of `entries`, as a set.
pub open spec fn names_of(entries: Seq<(Seq<char>, Seq<char>)>) -> Set<Seq<char>> {
    Set::new(|n: Seq<char>| exists|i: int| 0 <= i < entries.len() && #[trigger] entries[i].0 == n)
}

/// The user names among the first `k` of a list of `(user, password)` pairs.
pub open spec fn configured_names(users: Seq<(String, String)>, k: int) -> Set<Seq<char>> {
    Set::new(|n: Seq<char>| exists|i: int| 0 <= i < k && #[trigger] users[i].0@ == n)
}

/// True when entry `i` of `users` is the last among the first `k` with its user name.
pub open spec fn last_among(users: Seq<(String, String)>, i: int, k: int) -> bool {
    forall|j: int| i < j < k ==> #[trigger] users[j].0@ != users[i].0@
}

/// True when some entry of `hashed` has user name `name` and a hash that bcrypt accepts
/// `password` against.
pub open spec fn holds_hash_for(hashed: Seq<(String, String)>, name: Seq<char>, password: Seq<char>) -> bool {
    exists|m: int|
        0 <= m < hashed.len() && #[trigger] hashed[m].0@ == name && bcrypt_verdict(
            password,
            hashed[m].1@,
        ) == Some(true)
}

/// The first components of a list of pairs of strings, as a set.
pub open spec fn pair_names(pairs: Seq<(String, String)>) -> Set<Seq<char>> {
    Set::new(|n: Seq<char>| exists|i: int| 0 <= i < pairs.len() && #[trigger] pairs[i].0@ == n)
}

/// What an outcome of bcrypt's check means for a login.
pub open spec fn verdict_outcome(verdict: Option<bool>, r: Result<bool, AuthError>) -> bool {
    match verdict {
        Some(true) => r == Ok::<bool, AuthError>(true),
        Some(false) => r matches Err(AuthError::AuthenticationFailed),
        None => r matches Err(AuthError::HashingError(_)),
    }
}

/// Authentication manager: user names with the bcrypt hashes of their passwords.
pub struct AuthManager {
    /// `(user name, password hash)`, each user name once.
    users: Vec<(String, String)>,
}

impl AuthManager {
    /// `(user name, password hash)` for each configured user.
    pub closed spec fn entries(&self) -> Seq<(Seq<char>, Seq<char>)> {
        self.users@.map_values(|e: (String, String)| (e.0@, e.1@))
    }

    /// The stored hash of user `name`, if there is such a user.
    pub open spec fn hash_of(&self, name: Seq<char>) -> Option<Seq<char>> {
        match index_of_user(self.entries(), name) {
            Some(i) => Some(self.entries()[i].1),
            None => None,
        }
    }

    /// Every user name occurs once.
    pub closed spec fn wf(&self) -> bool {
        forall|i: int, j: int|
            0 <= i < j < self.users@.len() ==> #[trigger] self.users@[i].0@ != #[trigger] self.users@[j].0@
    }

    proof fn lemma_index_of_user(entries: Seq<(Seq<char>, Seq<char>)>, name: Seq<char>)
        ensures
            index_of_user(entries, name) matches Some(i) ==> 0 <= i < entries.len() && entries[i].0
                == name && forall|k: int| 0 <= k < i ==> #[trigger] entries[k].0 != name,
            index_of_user(entries, name) is None <==> forall|i: int|
                0 <= i < entries.len() ==> #[trigger] entries[i].0 != name,
        decreases entries.len(),
    {
        if entries.len() > 0 {
            Self::lemma_index_of_user(entries.drop_last(), name);
            if index_of_user(entries.drop_last(), name) is Some {
                let i = index_of_user(entries.drop_last(), name)->0;
                assert forall|k: int| 0 <= k < i implies #[trigger] entries[k].0 != name by {
                    assert(entries.drop_last()[k] == entries[k]);
                }
            } else {
                assert forall|k: int| 0 <= k < entries.len() - 1 implies #[trigger] entries[k].0 != name by {
                    assert(entries.drop_last()[k] == entries[k]);
                }
            }
            if index_of_user(entries, name) is None {
                assert forall|i: int| 0 <= i < entries.len() implies #[trigger] entries[i].0 != name by {
                    if i < entries.len() - 1 {
                        assert(entries.drop_last()[i] == entries[i]);
                    }
                }
            }
        }
    }

    /// Hashes each configured password. A user name that occurs twice keeps its last password.
    pub fn new(users: &Vec<(String, String)>) -> (r: Result<Self, AuthError>)
        ensures
            r matches Ok(m) ==> m.wf() && names_of(m.entries()) == configured_names(users@, users@.len() as int),
            r matches Ok(m) ==> forall|i: int|
                0 <= i < users@.len() && last_among(users@, i, users@.len() as int) ==> (m.hash_of(
                    users@[i].0@,
                ) matches Some(h) && bcrypt_verdict(users@[i].1@, h) == Some(true)),
            users@.len() == 0 ==> r is Ok,
            r is Err ==> r matches Err(AuthError::HashingError(_)),
    {
        let mut hashed: Vec<(String, String)> = Vec::new();
        let mut k: usize = 0;
        assert(pair_names(hashed@) =~= configured_names(users@, 0));
        while k < users.len()
            invariant
                k <= users@.len(),
                forall|i: int, j: int|
                    0 <= i < j < hashed@.len() ==> #[trigger] hashed@[i].0@ != #[trigger] hashed@[j].0@,
                pair_names(hashed@) == configured_names(users@, k as int),
                forall|i: int|
                    0 <= i < k && #[trigger] last_among(users@, i, k as int) ==> holds_hash_for(
                        hashed@,
                        users@[i].0@,
                        users@[i].1@,
                    ),
            decreases users@.len() - k,
        {
            let name = &users[k].0;
            let hashed_password = match hash_password(users[k].1.as_str()) {
                Ok(h) => h,
                Err(e) => {
                    return Err(AuthError::HashingError(e));
                },
            };
            let ghost before = hashed@;
            let mut found = false;
            let mut idx: usize = 0;
            while idx < hashed.len()
                invariant
                    idx <= hashed@.len(),
                    hashed@ == before,
                    !found ==> forall|i: int| 0 <= i < idx ==> #[trigger] hashed@[i].0@ != name@,
                    found ==> idx < hashed@.len() && hashed@[idx as int].0@ == name@,
                ensures
                    !found ==> forall|i: int| 0 <= i < hashed@.len() ==> #[trigger] hashed@[i].0@ != name@,
                    found ==> idx < hashed@.len() && hashed@[idx as int].0@ == name@,
                decreases hashed@.len() - idx,
            {
                if hashed[idx].0 == *name {
                    found = true;
                    break;
                }
                idx = idx + 1;
            }
            if found {
                let entry = (hashed[idx].0.clone(), hashed_password);
                hashed.set(idx, entry);
                assert(pair_names(hashed@) =~= pair_names(before)) by {
                    assert forall|n: Seq<char>| #[trigger] pair_names(hashed@).contains(n) implies pair_names(
                        before,
                    ).contains(n) by {
                        let i = choose|i: int| 0 <= i < hashed@.len() && #[trigger] hashed@[i].0@ == n;
                        assert(before[i].0@ == n);
                    }
                    assert forall|n: Seq<char>| #[trigger] pair_names(before).contains(n) implies pair_names(
                        hashed@,
                    ).contains(n) by {
                        let i = choose|i: int| 0 <= i < before.len() && #[trigger] before[i].0@ == n;
                        assert(hashed@[i].0@ == n);
                    }
                }
            } else {
                hashed.push((name.clone(), hashed_password));
                assert(pair_names(hashed@) =~= pair_names(before).insert(name@)) by {
                    assert forall|n: Seq<char>| #[trigger] pair_names(hashed@).contains(n) implies pair_names(
                        before,
                    ).insert(name@).contains(n) by {
                        let i = choose|i: int| 0 <= i < hashed@.len() && #[trigger] hashed@[i].0@ == n;
                        if i < before.len() {
                            assert(before[i].0@ == n);
                        }
                    }
                    assert forall|n: Seq<char>| #[trigger] pair_names(before).insert(name@).contains(n) implies pair_names(
                        hashed@,
                    ).contains(n) by {
                        if n == name@ {
                            assert(hashed@[before.len() as int].0@ == n);
                        } else {
                            let i = choose|i: int| 0 <= i < before.len() && #[trigger] before[i].0@ == n;
                            assert(hashed@[i].0@ == n);
                        }
                    }
                }
            }
            proof {
                assert(users@[k as int].0@ == name@);
                assert forall|i: int|
                    0 <= i < k + 1 && #[trigger] last_among(users@, i, k + 1) implies holds_hash_for(
                        hashed@,
                        users@[i].0@,
                        users@[i].1@,
                    ) by {
                    if i == k {
                        if found {
                            assert(hashed@[idx as int].0@ == name@);
                        } else {
                            assert(hashed@[before.len() as int].0@ == name@);
                        }
                    } else {
                        assert(users@[k as int].0@ != users@[i].0@);
                        assert(last_among(users@, i, k as int));
                        let m = choose|m: int|
                            0 <= m < before.len() && #[trigger] before[m].0@ == users@[i].0@
                                && bcrypt_verdict(users@[i].1@, before[m].1@) == Some(true);
                        assert(hashed@[m] == before[m]);
                    }
                }
            }
            assert(configured_names(users@, k + 1) =~= configured_names(users@, k as int).insert(name@)) by {
                assert forall|n: Seq<char>| #[trigger] configured_names(users@, k + 1).contains(n) implies configured_names(
                    users@,
                    k as int,
                ).insert(name@).contains(n) by {
                    let i = choose|i: int| 0 <= i < k + 1 && #[trigger] users@[i].0@ == n;
                    if i < k {
                    }
                }
                assert(users@[k as int].0@ == name@);
            }
            k = k + 1;
        }
        let m = AuthManager { users: hashed };
        proof {
            let e = m.entries();
            assert(e.len() == hashed@.len());
            assert forall|i: int|
                0 <= i < users@.len() && last_among(users@, i, users@.len() as int) implies (m.hash_of(
                    users@[i].0@,
                ) matches Some(h) && bcrypt_verdict(users@[i].1@, h) == Some(true)) by {
                let name = users@[i].0@;
                assert(holds_hash_for(hashed@, name, users@[i].1@));
                let mm = choose|mm: int|
                    0 <= mm < hashed@.len() && #[trigger] hashed@[mm].0@ == name && bcrypt_verdict(
                        users@[i].1@,
                        hashed@[mm].1@,
                    ) == Some(true);
                Self::lemma_index_of_user(e, name);
                assert(e[mm].0 == name);
                let j = index_of_user(e, name)->0;
                assert(e[j].0 == hashed@[j].0@);
                if j != mm {
                    if j < mm {
                        assert(hashed@[j].0@ != hashed@[mm].0@);
                    } else {
                        assert(hashed@[mm].0@ != hashed@[j].0@);
                    }
                }
            }
            assert(names_of(m.entries()) =~= pair_names(hashed@)) by {
                assert forall|n: Seq<char>| #[trigger] names_of(m.entries()).contains(n) implies pair_names(
                    hashed@,
                ).contains(n) by {
                    let i = choose|i: int| 0 <= i < m.entries().len() && #[trigger] m.entries()[i].0 == n;
                    assert(hashed@[i].0@ == n);
                }
                assert forall|n: Seq<char>| #[trigger] pair_names(hashed@).contains(n) implies names_of(
                    m.entries(),
                ).contains(n) by {
                    let i = choose|i: int| 0 <= i < hashed@.len() && #[trigger] hashed@[i].0@ == n;
                    assert(m.entries()[i].0 == n);
                }
            }
        }
        Ok(m)
    }

    /// True iff some user is configured.
    pub fn has_users(&self) -> (r: bool)
        ensures
            r == (self.entries().len() > 0),
    {
        self.users.len() > 0
    }

    /// Maps the outcome of bcrypt's check of a password to the outcome of a login.
    pub fn outcome_of_verification(verdict: Result<bool, bcrypt::BcryptError>) -> (r: Result<bool, AuthError>)
        ensures
            verdict_outcome(
                match verdict {
                    Ok(b) => Some(b),
                    Err(_) => None,
                },
                r,
            ),
    {
        match verdict {
            Ok(true) => Ok(true),
            Ok(false) => Err(AuthError::AuthenticationFailed),
            Err(e) => Err(AuthError::HashingError(e)),
        }
    }

    /// Checks a user name and password: `Ok(true)` only when the user exists and bcrypt finds
    /// that the password matches the stored hash.
    pub fn authenticate(&self, username: &str, password: &str) -> (r: Result<bool, AuthError>)
        ensures
            self.hash_of(username@) is None ==> r matches Err(AuthError::AuthenticationFailed),
            self.hash_of(username@) matches Some(h) ==> verdict_outcome(bcrypt_verdict(password@, h), r),
            r matches Ok(b) ==> b,
    {
        let name = username.to_owned();
        let mut idx: usize = 0;
        while idx < self.users.len()
            invariant
                idx <= self.users@.len(),
                name@ == username@,
                forall|i: int| 0 <= i < idx ==> #[trigger] self.users@[i].0@ != username@,
            decreases self.users@.len() - idx,
        {
            if self.users[idx].0 == name {
                proof {
                    Self::lemma_index_of_user(self.entries(), username@);
                    let e = self.entries();
                    if index_of_user(e, username@) is None {
                        assert(e[idx as int].0 == username@);
                    }
                    let j = index_of_user(e, username@)->0;
                    assert(e.len() == self.users@.len());
                    assert(e[j].0 == self.users@[j].0@);
                    if j != idx {
                        if j < idx {
                            assert(self.users@[j].0@ == e[j].0);
                        } else {
                            assert(e[idx as int].0 == self.users@[idx as int].0@);
                        }
                    }
                }
                let verdict = verify_password(password, self.users[idx].1.as_str());
                return Self::outcome_of_verification(verdict);
            }
            idx = idx + 1;
        }
        proof {
            Self::lemma_index_of_user(self.entries(), username@);
            assert forall|i: int| 0 <= i < self.entries().len() implies #[trigger] self.entries()[i].0
                != username@ by {
                assert(self.users@[i].0@ != username@);
            }
        }
        Err(AuthError::AuthenticationFailed)
    }
}

impl AuthManager {
    /// True only when user `username` exists and bcrypt finds that `password` matches the stored
    /// hash.
    pub fn check(&self, username: &str, password: &str) -> (r: bool)
        ensures
            r == (self.hash_of(username@) matches Some(h) && bcrypt_verdict(password@, h) == Some(
                true,
            )),
    {
        match self.authenticate(username, password) {
            Ok(b) => b,
            Err(_) => false,
        }
    }
}

/// Authentication result
pub enum AuthResult {
    /// Authentication successful
    Success,
    /// Authentication failed
    Failed,
    /// Need more data
    NeedMoreData,
}

/// Supported authentication types
pub enum AuthType {
    /// No authentication
    NoAuth,
    /// Basic authentication (username + password)
    Basic,
    /// SOCKS5 authentication
    Socks5,
}

} // verus!
