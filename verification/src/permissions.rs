//! Which clients a room knows.

use crate::collections::StrMap;
use vstd::prelude::*;
use vstd::string::*;

verus! {

/// The identity of a client in a room.
pub struct RoomClientIdentity {
    /// What the application knows the client by.
    pub id: String,
    /// A name for people to read; it proves nothing.
    pub display_name: String,
}

pub ghost struct IdentityView {
    pub id: Seq<char>,
    pub display_name: Seq<char>,
}

impl View for RoomClientIdentity {
    type V = IdentityView;

    open spec fn view(&self) -> IdentityView {
        IdentityView { id: self.id@, display_name: self.display_name@ }
    }
}

/// The claims of a client's token. Times are in seconds since the epoch.
pub struct ClientJwt {
    pub exp: u64,
    pub iat: u64,
    pub nbf: u64,
    pub aud: String,
    pub iss: String,
    /// The identifier of the client.
    pub sub: String,
    /// The room that the client asks for.
    pub room: String,
    pub role: String,
    /// Whether the client may send commands.
    pub has_command_queue: bool,
}

/// The identities that a room knows, by their identifiers.
pub struct RoomPermissions {
    pub identities: StrMap<RoomClientIdentity>,
}

impl View for RoomPermissions {
    type V = Map<Seq<char>, IdentityView>;

    open spec fn view(&self) -> Map<Seq<char>, IdentityView> {
        self.identities@
    }
}

/// Whether every identity stands under its own identifier.
pub open spec fn well_keyed(identities: Map<Seq<char>, IdentityView>) -> bool {
    forall|id: Seq<char>| #[trigger] identities.contains_key(id) ==> identities[id].id == id
}

impl RoomPermissions {
    /// Permissions that know no one.
    pub fn new() -> (r: RoomPermissions)
        ensures
            r@ == Map::<Seq<char>, IdentityView>::empty(),
            well_keyed(r@),
    {
        RoomPermissions { identities: StrMap::new() }
    }

    /// Adds an identity, in place of one with the same identifier.
    pub fn add_identity(&mut self, identity: RoomClientIdentity)
        ensures
            final(self)@ == old(self)@.insert(identity.id@, identity@),
            well_keyed(old(self)@) ==> well_keyed(final(self)@),
    {
        let id: String = identity.id.clone();
        self.identities.insert(id.as_str(), identity);
    }

    /// The identity with an identifier, if there is one.
    pub fn get_identity(&self, id: &str) -> (r: Option<&RoomClientIdentity>)
        ensures
            match r {
                Some(identity) => self@.contains_key(id@) && identity@ == self@[id@],
                None => !self@.contains_key(id@),
            },
    {
        self.identities.get(id)
    }

    /// Takes the identity with an identifier out.
    pub fn remove_identity(&mut self, id: &str)
        ensures
            final(self)@ == old(self)@.remove(id@),
            well_keyed(old(self)@) ==> well_keyed(final(self)@),
    {
        self.identities.remove(id);
    }

    /// Whether the subject of a token is known.
    pub fn verify_jwt(&self, jwt: &ClientJwt) -> (r: bool)
        ensures
            r == self@.contains_key(jwt.sub@),
    {
        self.identities.contains(jwt.sub.as_str())
    }
}

/// The permissions of all rooms, by the names of the rooms.
pub struct Permissions {
    pub rooms: StrMap<RoomPermissions>,
}

} // verus!
