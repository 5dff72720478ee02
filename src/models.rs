use vstd::prelude::*;

verus! {

/// The kind of a stored punch event.
#[derive(Clone, Copy, Debug, PartialEq, Eq, Structural)]
pub enum EventType {
    In,
    Out,
    Note,
}

/// The direction of a punch: the subset of `EventType` that opens or closes a session.
#[derive(Clone, Copy, Debug, PartialEq, Eq, Structural)]
pub enum PunchDirection {
    In,
    Out,
}

/// The event type that a punch in the given direction records.
pub open spec fn event_type_of(direction: PunchDirection) -> EventType {
    match direction {
        PunchDirection::In => EventType::In,
        PunchDirection::Out => EventType::Out,
    }
}

impl From<PunchDirection> for EventType {
    fn from(direction: PunchDirection) -> (r: EventType)
        ensures
            r == event_type_of(direction),
    {
        match direction {
            PunchDirection::In => EventType::In,
            PunchDirection::Out => EventType::Out,
        }
    }
}

impl vstd::std_specs::convert::FromSpecImpl<PunchDirection> for EventType {
    open spec fn obeys_from_spec() -> bool {
        true
    }

    open spec fn from_spec(direction: PunchDirection) -> EventType {
        event_type_of(direction)
    }
}

/// A stored punch event; `clock` is the UTC instant, in seconds.
#[derive(Clone, Copy, Debug, PartialEq, Eq, Structural)]
pub struct Event {
    pub id: i64,
    pub project_id: i64,
    pub event_type: EventType,
    pub clock: i64,
}

/// An event about to be stored; the store assigns its id.
#[derive(Clone, Copy, Debug, PartialEq, Eq, Structural)]
pub struct NewEvent {
    pub project_id: i64,
    pub event_type: EventType,
    pub clock: i64,
}

/// The failures that the engine reports to its caller.
#[derive(Clone, Copy, Debug, PartialEq, Eq, Structural)]
pub enum DatabaseError {
    /// A punch disagrees with the direction that the last stored punch calls for.
    BadState,
    /// A local wall-clock time maps to no UTC instant, or to more than one.
    BadTime,
    /// The project asked for does not exist.
    BadProject,
}

/// The id of the one configuration row.
pub const CONFIG_FIXED_ID: i64 = 1;

/// The length of the secret key, in bytes.
pub const SECRET_KEY_SIZE: usize = 32;

/// The stored configuration: a row that holds the secret key as bytes.
pub struct ConfigRow {
    pub id: i64,
    pub secret: Vec<u8>,
}

/// Relies on rand's `random`, which fills an array of bytes from the thread's
/// generator; nothing is known of the bytes.
#[verifier::external_body]
fn random_key() -> (r: [u8; SECRET_KEY_SIZE]) {
    rand::random()
}

impl ConfigRow {
    /// A fresh configuration row with a newly drawn secret key.
    pub fn new() -> (r: ConfigRow)
        ensures
            r.id == CONFIG_FIXED_ID,
            r.secret@.len() == SECRET_KEY_SIZE,
    {
        let secret = Secret::generate();
        ConfigRow { id: CONFIG_FIXED_ID, secret: Vec::from(secret) }
    }

    /// Overwrites the secret bytes with zeros, keeping their number.
    pub fn sanitize(&mut self)
        ensures
            final(self).id == old(self).id,
            final(self).secret@ == Seq::new(old(self).secret@.len(), |i: int| 0u8),
    {
        let n = self.secret.len();
        let mut i: usize = 0;
        while i < n
            invariant
                self.id == old(self).id,
                self.secret@.len() == n,
                n == old(self).secret@.len(),
                i <= n,
                forall|j: int| 0 <= j < i ==> self.secret@[j] == 0u8,
            decreases n - i,
        {
            self.secret.set(i, 0);
            i = i + 1;
        }
        assert(self.secret@ =~= Seq::new(n as nat, |i: int| 0u8));
    }
}

/// The configuration in use.
pub struct Config {
    pub secret: Secret,
}

impl Config {
    /// Reads a configuration row: its secret must be exactly `SECRET_KEY_SIZE` bytes.
    pub fn parse_row(config_row: &ConfigRow) -> (r: Result<Config, ()>)
        ensures
            r is Ok <==> config_row.secret@.len() == SECRET_KEY_SIZE,
            r matches Ok(c) ==> c.secret.data@ == config_row.secret@,
    {
        if config_row.secret.len() != SECRET_KEY_SIZE {
            return Err(());
        }
        let mut secret_key: [u8; SECRET_KEY_SIZE] = [0; SECRET_KEY_SIZE];
        let mut i: usize = 0;
        while i < SECRET_KEY_SIZE
            invariant
                config_row.secret@.len() == SECRET_KEY_SIZE,
                secret_key@.len() == SECRET_KEY_SIZE,
                i <= SECRET_KEY_SIZE,
                forall|j: int| 0 <= j < i ==> secret_key@[j] == config_row.secret@[j],
            decreases SECRET_KEY_SIZE - i,
        {
            secret_key[i] = config_row.secret[i];
            i = i + 1;
        }
        assert(secret_key@ =~= config_row.secret@);
        Ok(Config { secret: Secret { data: secret_key } })
    }
}

/// A secret key. Wipe it with `wipe` once it is no longer needed.
pub struct Secret {
    pub data: [u8; SECRET_KEY_SIZE],
}

impl Secret {
    /// A newly drawn random key.
    pub fn generate() -> (r: Secret)
        ensures
            r.data@.len() == SECRET_KEY_SIZE,
    {
        Secret { data: random_key() }
    }

    /// Overwrites the key with zeros.
    pub fn wipe(&mut self)
        ensures
            forall|j: int| 0 <= j < SECRET_KEY_SIZE ==> final(self).data@[j] == 0u8,
    {
        let mut i: usize = 0;
        while i < SECRET_KEY_SIZE
            invariant
                i <= SECRET_KEY_SIZE,
                self.data@.len() == SECRET_KEY_SIZE,
                forall|j: int| 0 <= j < i ==> self.data@[j] == 0u8,
            decreases SECRET_KEY_SIZE - i,
        {
            self.data[i] = 0;
            i = i + 1;
        }
    }
}

impl From<Secret> for Vec<u8> {
    fn from(secret: Secret) -> (r: Vec<u8>)
        ensures
            r@ == secret.data@,
    {
        let mut v: Vec<u8> = Vec::new();
        let mut i: usize = 0;
        while i < SECRET_KEY_SIZE
            invariant
                i <= SECRET_KEY_SIZE,
                secret.data@.len() == SECRET_KEY_SIZE,
                v@ == secret.data@.take(i as int),
            decreases SECRET_KEY_SIZE - i,
        {
            v.push(secret.data[i]);
            i = i + 1;
            assert(v@ =~= secret.data@.take(i as int));
        }
        assert(secret.data@.take(SECRET_KEY_SIZE as int) =~= secret.data@);
        v
    }
}

impl vstd::std_specs::convert::FromSpecImpl<Secret> for Vec<u8> {
    open spec fn obeys_from_spec() -> bool {
        false
    }

    open spec fn from_spec(secret: Secret) -> Vec<u8> {
        arbitrary()
    }
}

/// A user account; `password` holds a password hash.
pub struct User {
    pub id: i64,
    pub name: String,
    pub password: Option<String>,
    pub admin: bool,
}

/// A user account about to be stored.
pub struct NewUser<'a> {
    pub name: &'a str,
    pub password: Option<&'a str>,
    pub admin: bool,
}

/// A project of a user; `overhead` is the ramp-up time, in minutes, deducted from each
/// work session.
pub struct Project {
    pub id: i64,
    pub user_id: i64,
    pub name: String,
    pub overhead: i32,
}

/// A project about to be stored.
pub struct NewProject<'a> {
    pub user_id: i64,
    pub name: &'a str,
    pub overhead: i32,
}

} // verus!
