use vstd::prelude::*;

verus! {

/// Genre of a user, persisted as a single-character code: 'M' or 'F'.
#[derive(Clone, Copy, Debug, PartialEq, Eq, Structural)]
pub enum Genre {
    Male,
    Female,
}

impl Genre {
    /// The single-character code this genre is stored under.
    pub open spec fn code_spec(self) -> char {
        match self {
            Genre::Male => 'M',
            Genre::Female => 'F',
        }
    }

    /// What decoding a stored code yields: only 'M' and 'F' are recognized;
    /// every other code is a decode failure.
    pub open spec fn decode_spec(c: char) -> Option<Genre> {
        if c == 'M' {
            Some(Genre::Male)
        } else if c == 'F' {
            Some(Genre::Female)
        } else {
            None
        }
    }

    pub fn code(self) -> (c: char)
        ensures
            c == self.code_spec(),
    {
        match self {
            Genre::Male => 'M',
            Genre::Female => 'F',
        }
    }

    pub fn from_code(c: char) -> (r: Option<Genre>)
        ensures
            r == Genre::decode_spec(c),
    {
        if c == 'M' {
            Some(Genre::Male)
        } else if c == 'F' {
            Some(Genre::Female)
        } else {
            None
        }
    }
}

/// Encoding a genre and decoding the code gives the genre back.
pub proof fn lemma_genre_encode_decode(g: Genre)
    ensures
        Genre::decode_spec(g.code_spec()) == Some(g),
{
}

/// Decoding a recognized code and re-encoding gives the code back, and a
/// code is rejected exactly when it is neither 'M' nor 'F'.
pub proof fn lemma_genre_decode_encode(c: char)
    ensures
        Genre::decode_spec(c) is Some ==> (Genre::decode_spec(c)->Some_0).code_spec() == c,
        Genre::decode_spec(c) is None <==> c != 'M' && c != 'F',
{
}

/// A stored user row. The id is generated by the creator, not the store.
#[derive(Clone, Debug, PartialEq, Eq)]
pub struct User {
    pub id: u128,
    pub name: String,
    pub genre: Genre,
}

/// A stored contact row, referencing exactly one user by id.
#[derive(Clone, Debug, PartialEq, Eq)]
pub struct Contact {
    pub id: u128,
    pub email: String,
    pub user_id: u128,
}

/// Request body for creating a user together with its contact.
#[derive(Clone, Debug, PartialEq, Eq)]
pub struct CreateUserWithContact {
    pub name: String,
    pub genre: Genre,
    pub email: String,
}

/// Partial update for the combined user-and-contact workflow: only present
/// fields are modified; absent fields keep their prior values.
#[derive(Clone, Debug, PartialEq, Eq)]
pub struct UpdateUserPayload {
    pub name: Option<String>,
    pub genre: Option<Genre>,
    pub email: Option<String>,
}

/// Partial update for a contact alone.
#[derive(Clone, Debug, PartialEq, Eq)]
pub struct UpdateContact {
    pub email: Option<String>,
}

/// A user enriched with its contact's email, as the joined read returns it.
#[derive(Clone, Debug, PartialEq, Eq)]
pub struct UserWithContactResponse {
    pub id: u128,
    pub name: String,
    pub genre: Genre,
    pub email: String,
}

/// The error taxonomy of the data layer.
#[derive(Clone, Copy, Debug, PartialEq, Eq, Structural)]
pub enum StoreError {
    /// No row with the requested id.
    NotFound,
    /// Constraint violation: a row with this id already exists.
    DuplicateId,
    /// Constraint violation: the referenced user already has a contact.
    DuplicateLink,
    /// A user row exists without its contact row; this inconsistency is
    /// reported, never silently repaired.
    MissingContact,
}

impl StoreError {
    /// The status a failure maps to: not-found is 404, everything else 500.
    pub open spec fn status_spec(self) -> u16 {
        match self {
            StoreError::NotFound => 404,
            _ => 500,
        }
    }

    pub fn status_code(self) -> (s: u16)
        ensures
            s == self.status_spec(),
    {
        match self {
            StoreError::NotFound => 404,
            _ => 500,
        }
    }
}

/// The user record after a partial update: present fields replace the old
/// ones, absent fields stay.
pub open spec fn patched_user(u: User, p: UpdateUserPayload) -> User {
    User {
        id: u.id,
        name: if p.name is Some {
            p.name->Some_0
        } else {
            u.name
        },
        genre: if p.genre is Some {
            p.genre->Some_0
        } else {
            u.genre
        },
    }
}

/// The contact record after the combined workflow's partial update: only the
/// email can change; id and user link always stay.
pub open spec fn patched_contact(c: Contact, p: UpdateUserPayload) -> Contact {
    Contact {
        id: c.id,
        email: if p.email is Some {
            p.email->Some_0
        } else {
            c.email
        },
        user_id: c.user_id,
    }
}

/// The contact record after a contact-only partial update.
pub open spec fn patched_contact_email(c: Contact, p: UpdateContact) -> Contact {
    Contact {
        id: c.id,
        email: if p.email is Some {
            p.email->Some_0
        } else {
            c.email
        },
        user_id: c.user_id,
    }
}

impl User {
    /// An exact copy, written out because the verifier learns nothing from a
    /// derived clone.
    pub fn duplicate(&self) -> (r: User)
        ensures
            r == *self,
    {
        User { id: self.id, name: self.name.clone(), genre: self.genre }
    }

    /// Apply a partial update to this user record.
    pub fn apply_patch(&self, p: &UpdateUserPayload) -> (r: User)
        ensures
            r == patched_user(*self, *p),
    {
        let name: String = match &p.name {
            Some(n) => n.clone(),
            None => self.name.clone(),
        };
        let genre: Genre = match &p.genre {
            Some(g) => *g,
            None => self.genre,
        };
        User { id: self.id, name, genre }
    }
}

impl Contact {
    /// An exact copy, written out because the verifier learns nothing from a
    /// derived clone.
    pub fn duplicate(&self) -> (r: Contact)
        ensures
            r == *self,
    {
        Contact { id: self.id, email: self.email.clone(), user_id: self.user_id }
    }

    /// Apply the combined workflow's partial update to this contact record.
    pub fn apply_user_patch(&self, p: &UpdateUserPayload) -> (r: Contact)
        ensures
            r == patched_contact(*self, *p),
    {
        let email: String = match &p.email {
            Some(e) => e.clone(),
            None => self.email.clone(),
        };
        Contact { id: self.id, email, user_id: self.user_id }
    }

    /// Apply a contact-only partial update to this contact record.
    pub fn apply_patch(&self, p: &UpdateContact) -> (r: Contact)
        ensures
            r == patched_contact_email(*self, *p),
    {
        let email: String = match &p.email {
            Some(e) => e.clone(),
            None => self.email.clone(),
        };
        Contact { id: self.id, email, user_id: self.user_id }
    }
}

/// Compose the joined-read response from a user and its contact.
pub fn joined_response(u: &User, c: &Contact) -> (r: UserWithContactResponse)
    ensures
        r.id == u.id,
        r.name == u.name,
        r.genre == u.genre,
        r.email == c.email,
{
    UserWithContactResponse {
        id: u.id,
        name: u.name.clone(),
        genre: u.genre,
        email: c.email.clone(),
    }
}

/// A partial update that sets neither name nor genre leaves the user record
/// unchanged; in particular an email-only update never touches the user.
pub proof fn lemma_patch_without_user_fields_keeps_user(u: User, p: UpdateUserPayload)
    requires
        p.name is None,
        p.genre is None,
    ensures
        patched_user(u, p) == u,
{
}

/// A partial update that sets no email leaves the contact record unchanged;
/// in particular a name-or-genre-only update never touches the contact.
pub proof fn lemma_patch_without_email_keeps_contact(c: Contact, p: UpdateUserPayload)
    requires
        p.email is None,
    ensures
        patched_contact(c, p) == c,
{
}

/// A contact-only partial update with no field set leaves the record unchanged.
pub proof fn lemma_empty_contact_patch_keeps_contact(c: Contact, p: UpdateContact)
    requires
        p.email is None,
    ensures
        patched_contact_email(c, p) == c,
{
}

} // verus!
