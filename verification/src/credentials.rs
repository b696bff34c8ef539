use crate::text::{owned, str_equal};
use crate::translations::{distinct_keys, lemma_lookup_distinct, lookup, pair_models};
use vstd::prelude::*;

verus! {

/// Where a provider is and which model it serves; never its secret.
#[derive(Clone, Debug, PartialEq, Eq)]
pub struct ProviderConfiguration {
    pub id: String,
    pub base_url: String,
    pub model: String,
}

/// Why a credential backend refused a request, with its message.
#[derive(Clone, Debug)]
pub struct CredentialError(String);

impl CredentialError {
    pub closed spec fn spec_message(&self) -> Seq<char> {
        self.0@
    }

    pub fn new(message: String) -> (e: CredentialError)
        ensures
            e.spec_message() == message@,
    {
        CredentialError(message)
    }

    pub fn message(&self) -> (m: &str)
        ensures
            m@ == self.spec_message(),
    {
        self.0.as_str()
    }
}

/// A read of a store as a value: the secret, none, or the error's message.
pub open spec fn answer_model(r: Result<Option<String>, CredentialError>) -> Result<
    Option<Seq<char>>,
    Seq<char>,
> {
    match r {
        Ok(Some(s)) => Ok(Some(s@)),
        Ok(None) => Ok(None),
        Err(e) => Err(e.spec_message()),
    }
}

/// A place that keeps provider secrets out of project configuration.
pub trait CredentialStore {
    /// Whether the store, asked for the secret under `key`, may answer `answer`.
    spec fn answers(&self, key: Seq<char>, answer: Result<Option<Seq<char>>, Seq<char>>) -> bool;

    /// Stores a secret under a provider id.
    fn set(&mut self, provider_id: &str, secret: &str) -> Result<(), CredentialError>;

    /// Reads the secret stored under a provider id, if any.
    fn get(&self, provider_id: &str) -> (r: Result<Option<String>, CredentialError>)
        ensures
            self.answers(provider_id@, answer_model(r)),
    ;

    /// Removes the secret stored under a provider id.
    fn delete(&mut self, provider_id: &str) -> Result<(), CredentialError>;
}

/// Secrets kept in memory, one per provider id.
pub struct InMemoryCredentialStore {
    credentials: Vec<(String, String)>,
}

impl InMemoryCredentialStore {
    #[verifier::type_invariant]
    spec fn keys_distinct(self) -> bool {
        distinct_keys(pair_models(self.credentials@))
    }

    /// The secret stored under `id`.
    pub closed spec fn secret(&self, id: Seq<char>) -> Option<Seq<char>> {
        lookup(pair_models(self.credentials@), id)
    }

    /// An empty store.
    pub fn new() -> (s: InMemoryCredentialStore)
        ensures
            forall|id: Seq<char>| s.secret(id) is None,
    {
        let s = InMemoryCredentialStore { credentials: Vec::new() };
        assert(pair_models(s.credentials@) =~= Seq::<(Seq<char>, Seq<char>)>::empty());
        s
    }

    fn position(&self, provider_id: &str) -> (r: Option<usize>)
        ensures
            match r {
                Some(i) => i < self.credentials.len() && self.credentials@[i as int].0@
                    == provider_id@,
                None => forall|i: int|
                    0 <= i < self.credentials.len() ==> #[trigger] self.credentials@[i].0@
                        != provider_id@,
            },
    {
        let mut i: usize = 0;
        while i < self.credentials.len()
            invariant
                i <= self.credentials.len(),
                forall|j: int| 0 <= j < i ==> #[trigger] self.credentials@[j].0@ != provider_id@,
            decreases self.credentials.len() - i,
        {
            if str_equal(self.credentials[i].0.as_str(), provider_id) {
                return Some(i);
            }
            i = i + 1;
        }
        None
    }
}

impl Default for InMemoryCredentialStore {
    fn default() -> (s: InMemoryCredentialStore)
        ensures
            forall|id: Seq<char>| s.secret(id) is None,
    {
        InMemoryCredentialStore::new()
    }
}

impl CredentialStore for InMemoryCredentialStore {
    /// The secret kept under the key, or none; never an error.
    open spec fn answers(&self, key: Seq<char>, answer: Result<Option<Seq<char>>, Seq<char>>) -> bool {
        answer == Ok::<Option<Seq<char>>, Seq<char>>(self.secret(key))
    }

    fn set(&mut self, provider_id: &str, secret: &str) -> (r: Result<(), CredentialError>)
        ensures
            r is Ok,
            final(self).secret(provider_id@) == Some(secret@),
            forall|id: Seq<char>|
                id != provider_id@ ==> #[trigger] final(self).secret(id) == old(self).secret(id),
    {
        proof {
            use_type_invariant(&*self);
        }
        let ghost before = pair_models(self.credentials@);
        let entry = (owned(provider_id), owned(secret));
        let ghost e = (provider_id@, secret@);
        match self.position(provider_id) {
            Some(i) => {
                let mut v: Vec<(String, String)> = Vec::new();
                std::mem::swap(&mut v, &mut self.credentials);
                v.set(i, entry);
                proof {
                    let after = pair_models(v@);
                    assert(after =~= before.update(i as int, e));
                    assert forall|a: int, b: int|
                        0 <= a < b < after.len() implies #[trigger] after[a].0 != #[trigger] after[b].0 by {
                        assert(before[a].0 != before[b].0);
                    }
                    lemma_lookup_distinct(after, provider_id@);
                    assert(after[i as int].0 == provider_id@);
                    assert forall|id: Seq<char>| id != provider_id@ implies lookup(after, id)
                        == lookup(before, id) by {
                        lemma_lookup_distinct(after, id);
                        lemma_lookup_distinct(before, id);
                        if exists|j: int| 0 <= j < before.len() && #[trigger] before[j].0 == id {
                            let j = choose|j: int| 0 <= j < before.len() && #[trigger] before[j].0 == id;
                            assert(after[j] == before[j]);
                        } else {
                            assert forall|j: int| 0 <= j < after.len() implies #[trigger] after[j].0
                                != id by {
                                if j != i {
                                    assert(after[j] == before[j]);
                                }
                            }
                        }
                    }
                }
                self.credentials = v;
            },
            None => {
                let mut v: Vec<(String, String)> = Vec::new();
                std::mem::swap(&mut v, &mut self.credentials);
                v.push(entry);
                proof {
                    let after = pair_models(v@);
                    assert(after =~= before.push(e));
                    assert(after[before.len() as int].0 == provider_id@);
                    assert forall|a: int, b: int|
                        0 <= a < b < after.len() implies #[trigger] after[a].0 != #[trigger] after[b].0 by {
                        if b == before.len() {
                            assert(before[a].0 != provider_id@);
                        }
                    }
                    lemma_lookup_distinct(after, provider_id@);
                    assert forall|id: Seq<char>| id != provider_id@ implies lookup(after, id)
                        == lookup(before, id) by {
                        lemma_lookup_distinct(after, id);
                        lemma_lookup_distinct(before, id);
                        if exists|j: int| 0 <= j < before.len() && #[trigger] before[j].0 == id {
                            let j = choose|j: int| 0 <= j < before.len() && #[trigger] before[j].0 == id;
                            assert(after[j] == before[j]);
                        } else {
                            assert forall|j: int| 0 <= j < after.len() implies #[trigger] after[j].0
                                != id by {
                                if j < before.len() {
                                    assert(after[j] == before[j]);
                                }
                            }
                        }
                    }
                }
                self.credentials = v;
            },
        }
        Ok(())
    }

    fn get(&self, provider_id: &str) -> (r: Result<Option<String>, CredentialError>)
        ensures
            match r {
                Ok(Some(s)) => self.secret(provider_id@) == Some(s@),
                Ok(None) => self.secret(provider_id@) is None,
                Err(_) => false,
            },
    {
        proof {
            use_type_invariant(self);
            lemma_lookup_distinct(pair_models(self.credentials@), provider_id@);
        }
        match self.position(provider_id) {
            Some(i) => {
                assert(pair_models(self.credentials@)[i as int].0 == provider_id@);
                Ok(Some(owned(self.credentials[i].1.as_str())))
            },
            None => {
                assert forall|j: int| 0 <= j < self.credentials.len() implies #[trigger] pair_models(
                    self.credentials@,
                )[j].0 != provider_id@ by {
                    assert(self.credentials@[j].0@ != provider_id@);
                }
                Ok(None)
            },
        }
    }

    fn delete(&mut self, provider_id: &str) -> (r: Result<(), CredentialError>)
        ensures
            r is Ok,
            final(self).secret(provider_id@) is None,
            forall|id: Seq<char>|
                id != provider_id@ ==> #[trigger] final(self).secret(id) == old(self).secret(id),
    {
        proof {
            use_type_invariant(&*self);
        }
        let ghost before = pair_models(self.credentials@);
        match self.position(provider_id) {
            Some(i) => {
                let mut v: Vec<(String, String)> = Vec::new();
                std::mem::swap(&mut v, &mut self.credentials);
                v.remove(i);
                proof {
                    let after = pair_models(v@);
                    assert(after =~= before.remove(i as int));
                    assert forall|a: int, b: int|
                        0 <= a < b < after.len() implies #[trigger] after[a].0 != #[trigger] after[b].0 by {
                        let a0 = if a < i { a } else { a + 1 };
                        let b0 = if b < i { b } else { b + 1 };
                        assert(after[a] == before[a0]);
                        assert(after[b] == before[b0]);
                        assert(before[a0].0 != before[b0].0);
                    }
                    assert forall|j: int| 0 <= j < after.len() implies #[trigger] after[j].0
                        != provider_id@ by {
                        if j < i {
                            assert(after[j] == before[j]);
                            assert(before[j].0 != before[i as int].0);
                        } else {
                            assert(after[j] == before[j + 1]);
                            assert(before[i as int].0 != before[j + 1].0);
                        }
                    }
                    lemma_lookup_distinct(after, provider_id@);
                    assert forall|id: Seq<char>| id != provider_id@ implies lookup(after, id)
                        == lookup(before, id) by {
                        lemma_lookup_distinct(after, id);
                        lemma_lookup_distinct(before, id);
                        if exists|j: int| 0 <= j < before.len() && #[trigger] before[j].0 == id {
                            let j = choose|j: int| 0 <= j < before.len() && #[trigger] before[j].0 == id;
                            if j < i {
                                assert(after[j] == before[j]);
                            } else {
                                assert(j != i);
                                assert(after[j - 1] == before[j]);
                            }
                        } else {
                            assert forall|j: int| 0 <= j < after.len() implies #[trigger] after[j].0
                                != id by {
                                if j < i {
                                    assert(after[j] == before[j]);
                                } else {
                                    assert(after[j] == before[j + 1]);
                                }
                            }
                        }
                    }
                }
                self.credentials = v;
            },
            None => {
                proof {
                    assert forall|j: int| 0 <= j < before.len() implies #[trigger] before[j].0
                        != provider_id@ by {
                        assert(self.credentials@[j].0@ != provider_id@);
                    }
                    lemma_lookup_distinct(before, provider_id@);
                }
            },
        }
        Ok(())
    }
}

/// The outcome of reading a password from the platform store.
pub enum PasswordRead {
    Found(String),
    NoEntry,
    Failed(String),
}

/// The outcome of deleting a password from the platform store.
pub enum PasswordDelete {
    Deleted,
    NoEntry,
    Failed(String),
}

/// What reading the platform store answers: the secret; no secret for a
/// missing entry; the error otherwise.
pub fn read_answer(read: PasswordRead) -> (r: Result<Option<String>, CredentialError>)
    ensures
        match read {
            PasswordRead::Found(s) => r matches Ok(Some(t)) && t@ == s@,
            PasswordRead::NoEntry => r matches Ok(None),
            PasswordRead::Failed(m) => r matches Err(e) && e.spec_message() == m@,
        },
{
    match read {
        PasswordRead::Found(secret) => Ok(Some(secret)),
        PasswordRead::NoEntry => Ok(None),
        PasswordRead::Failed(m) => Err(CredentialError(m)),
    }
}

/// What deleting from the platform store answers: success, also for a
/// missing entry; the error otherwise.
pub fn delete_answer(deleted: PasswordDelete) -> (r: Result<(), CredentialError>)
    ensures
        match deleted {
            PasswordDelete::Failed(m) => r matches Err(e) && e.spec_message() == m@,
            _ => r is Ok,
        },
{
    match deleted {
        PasswordDelete::Deleted => Ok(()),
        PasswordDelete::NoEntry => Ok(()),
        PasswordDelete::Failed(m) => Err(CredentialError(m)),
    }
}

#[verifier::external_type_specification]
#[verifier::external_body]
pub struct ExKeyringEntry(keyring::Entry);

/// What writing to the platform store answers: success, or the error.
pub fn write_answer(written: Result<(), String>) -> (r: Result<(), CredentialError>)
    ensures
        match written {
            Ok(()) => r is Ok,
            Err(m) => r matches Err(e) && e.spec_message() == m@,
        },
{
    match written {
        Ok(()) => Ok(()),
        Err(m) => Err(CredentialError(m)),
    }
}

/// What opening a platform entry answers: the entry, or the error.
pub fn entry_answer(opened: Result<keyring::Entry, String>) -> (r: Result<keyring::Entry, CredentialError>)
    ensures
        match opened {
            Ok(e) => r == Ok::<keyring::Entry, CredentialError>(e),
            Err(m) => r matches Err(x) && x.spec_message() == m@,
        },
{
    match opened {
        Ok(e) => Ok(e),
        Err(m) => Err(CredentialError(m)),
    }
}

/// Opens the platform credential entry of `user` under `service`
/// (`keyring::Entry::new`), or reports its error's message. Nothing is claimed
/// of the outcome: it depends on the platform's credential store.
#[verifier::external_body]
fn keyring_entry(service: &str, user: &str) -> Result<keyring::Entry, String> {
    keyring::Entry::new(service, user).map_err(|e| e.to_string())
}

/// Stores a password in an entry (`keyring::Entry::set_password`). Nothing is
/// claimed of the outcome: it depends on the platform's credential store.
#[verifier::external_body]
fn keyring_set(entry: &keyring::Entry, password: &str) -> Result<(), String> {
    entry.set_password(password).map_err(|e| e.to_string())
}

/// Reads the password of an entry (`keyring::Entry::get_password`), telling a
/// missing entry (`keyring::Error::NoEntry`) from other errors. Nothing is
/// claimed of the outcome: it depends on the platform's credential store.
#[verifier::external_body]
fn keyring_get(entry: &keyring::Entry) -> PasswordRead {
    match entry.get_password() {
        Ok(secret) => PasswordRead::Found(secret),
        Err(keyring::Error::NoEntry) => PasswordRead::NoEntry,
        Err(e) => PasswordRead::Failed(e.to_string()),
    }
}

/// Deletes the password of an entry (`keyring::Entry::delete_credential`),
/// telling a missing entry from other errors. Nothing is claimed of the
/// outcome: it depends on the platform's credential store.
#[verifier::external_body]
fn keyring_delete(entry: &keyring::Entry) -> PasswordDelete {
    match entry.delete_credential() {
        Ok(()) => PasswordDelete::Deleted,
        Err(keyring::Error::NoEntry) => PasswordDelete::NoEntry,
        Err(e) => PasswordDelete::Failed(e.to_string()),
    }
}

/// Secrets kept in the platform's credential store under one service name.
pub struct WindowsCredentialStore {
    service: String,
}

impl WindowsCredentialStore {
    pub closed spec fn service(&self) -> Seq<char> {
        self.service@
    }

    pub fn new(service: String) -> (s: WindowsCredentialStore)
        ensures
            s.service() == service@,
    {
        WindowsCredentialStore { service }
    }

    fn entry(&self, provider_id: &str) -> Result<keyring::Entry, CredentialError> {
        entry_answer(keyring_entry(self.service.as_str(), provider_id))
    }
}

impl CredentialStore for WindowsCredentialStore {
    /// What the platform store holds is not modelled: it may answer anything.
    open spec fn answers(&self, key: Seq<char>, answer: Result<Option<Seq<char>>, Seq<char>>) -> bool {
        true
    }

    /// The store keeps its service; the secret goes to the platform store.
    fn set(&mut self, provider_id: &str, secret: &str) -> (r: Result<(), CredentialError>)
        ensures
            final(self).service() == old(self).service(),
    {
        let entry = match self.entry(provider_id) {
            Ok(e) => e,
            Err(e) => {
                return Err(e);
            },
        };
        write_answer(keyring_set(&entry, secret))
    }

    /// A missing entry reads as no secret.
    fn get(&self, provider_id: &str) -> (r: Result<Option<String>, CredentialError>) {
        let entry = match self.entry(provider_id) {
            Ok(e) => e,
            Err(e) => {
                return Err(e);
            },
        };
        read_answer(keyring_get(&entry))
    }

    /// Deleting a missing entry succeeds. The store keeps its service.
    fn delete(&mut self, provider_id: &str) -> (r: Result<(), CredentialError>)
        ensures
            final(self).service() == old(self).service(),
    {
        let entry = match self.entry(provider_id) {
            Ok(e) => e,
            Err(e) => {
                return Err(e);
            },
        };
        delete_answer(keyring_delete(&entry))
    }
}

} // verus!
