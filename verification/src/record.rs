//! The presence record: the last-known state snapshot for one identity,
//! plus the freshness timestamp the registry stamps on it.

use vstd::prelude::*;

verus! {

/// The state a client pushes about itself. All numeric fields are opaque to
/// the registry: copied verbatim, never interpreted.
pub struct PresenceUpdate {
    /// Unique identifier of the client; also the registry key.
    pub name: String,
    /// Numeric identifier supplied by the caller; informational only.
    pub id: i32,
    pub x: i32,
    pub y: i32,
    pub z: i32,
    pub world: i32,
    pub region: i32,
    pub current_hitpoints: i32,
    pub max_hitpoints: i32,
    pub current_mana_resource: i32,
    pub max_mana_resource: i32,
}

/// Mathematical image of a `PresenceUpdate`.
pub ghost struct UpdateView {
    pub name: Seq<char>,
    pub id: int,
    pub x: int,
    pub y: int,
    pub z: int,
    pub world: int,
    pub region: int,
    pub current_hitpoints: int,
    pub max_hitpoints: int,
    pub current_mana_resource: int,
    pub max_mana_resource: int,
}

impl View for PresenceUpdate {
    type V = UpdateView;

    open spec fn view(&self) -> UpdateView {
        UpdateView {
            name: self.name@,
            id: self.id as int,
            x: self.x as int,
            y: self.y as int,
            z: self.z as int,
            world: self.world as int,
            region: self.region as int,
            current_hitpoints: self.current_hitpoints as int,
            max_hitpoints: self.max_hitpoints as int,
            current_mana_resource: self.current_mana_resource as int,
            max_mana_resource: self.max_mana_resource as int,
        }
    }
}

/// One identity's stored presence: the update's fields plus `last_seen`,
/// the server-side timestamp of the most recent upsert for this identity.
/// `last_seen` is never supplied by the caller.
#[derive(Debug)]
pub struct PresenceRecord {
    pub name: String,
    pub id: i32,
    pub x: i32,
    pub y: i32,
    pub z: i32,
    pub world: i32,
    pub region: i32,
    pub current_hitpoints: i32,
    pub max_hitpoints: i32,
    pub current_mana_resource: i32,
    pub max_mana_resource: i32,
    /// Seconds since the Unix epoch, read from the server clock at upsert.
    pub last_seen: i64,
}

/// Mathematical image of a `PresenceRecord`.
pub ghost struct RecordView {
    pub name: Seq<char>,
    pub id: int,
    pub x: int,
    pub y: int,
    pub z: int,
    pub world: int,
    pub region: int,
    pub current_hitpoints: int,
    pub max_hitpoints: int,
    pub current_mana_resource: int,
    pub max_mana_resource: int,
    pub last_seen: int,
}

impl View for PresenceRecord {
    type V = RecordView;

    open spec fn view(&self) -> RecordView {
        RecordView {
            name: self.name@,
            id: self.id as int,
            x: self.x as int,
            y: self.y as int,
            z: self.z as int,
            world: self.world as int,
            region: self.region as int,
            current_hitpoints: self.current_hitpoints as int,
            max_hitpoints: self.max_hitpoints as int,
            current_mana_resource: self.current_mana_resource as int,
            max_mana_resource: self.max_mana_resource as int,
            last_seen: self.last_seen as int,
        }
    }
}

/// The record that an upsert of `u` at server time `now` stores.
pub open spec fn record_of(u: UpdateView, now: int) -> RecordView {
    RecordView {
        name: u.name,
        id: u.id,
        x: u.x,
        y: u.y,
        z: u.z,
        world: u.world,
        region: u.region,
        current_hitpoints: u.current_hitpoints,
        max_hitpoints: u.max_hitpoints,
        current_mana_resource: u.current_mana_resource,
        max_mana_resource: u.max_mana_resource,
        last_seen: now,
    }
}

impl Clone for PresenceRecord {
    fn clone(&self) -> (r: Self)
        ensures
            r == *self,
    {
        PresenceRecord {
            name: self.name.clone(),
            id: self.id,
            x: self.x,
            y: self.y,
            z: self.z,
            world: self.world,
            region: self.region,
            current_hitpoints: self.current_hitpoints,
            max_hitpoints: self.max_hitpoints,
            current_mana_resource: self.current_mana_resource,
            max_mana_resource: self.max_mana_resource,
            last_seen: self.last_seen,
        }
    }
}

impl PresenceRecord {
    /// Builds the stored record for `update` stamped with server time `now`.
    pub fn from_update(update: &PresenceUpdate, now: i64) -> (r: PresenceRecord)
        ensures
            r@ == record_of(update@, now as int),
    {
        PresenceRecord {
            name: update.name.clone(),
            id: update.id,
            x: update.x,
            y: update.y,
            z: update.z,
            world: update.world,
            region: update.region,
            current_hitpoints: update.current_hitpoints,
            max_hitpoints: update.max_hitpoints,
            current_mana_resource: update.current_mana_resource,
            max_mana_resource: update.max_mana_resource,
            last_seen: now,
        }
    }
}

} // verus!
