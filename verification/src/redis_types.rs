//! A notification as it is read from a client's Redis stream.

use vstd::prelude::*;
use crate::types::{NotificationId, StreamEntry, Timestamp, Ttl};

verus! {

/// The entity a notification is about (a search request, say), as JSON text.
#[derive(Debug, PartialEq, Eq)]
pub struct EntityData {
    pub id: String,
    pub _type: String,
    pub data: String,
}

impl Clone for EntityData {
    fn clone(&self) -> (r: Self)
        ensures
            r == *self,
    {
        EntityData { id: self.id.clone(), _type: self._type.clone(), data: self.data.clone() }
    }
}

#[derive(Debug, PartialEq, Eq)]
pub struct NotificationData {
    /// The entry of the client's stream that holds the notification.
    pub stream_id: StreamEntry,
    pub id: NotificationId,
    pub category: String,
    pub title: String,
    pub body: String,
    pub show: bool,
    pub created_at: Timestamp,
    pub ttl: Ttl,
    pub entity: EntityData,
}

impl Clone for NotificationData {
    fn clone(&self) -> (r: Self)
        ensures
            r == *self,
    {
        NotificationData {
            stream_id: self.stream_id.clone(),
            id: self.id.clone(),
            category: self.category.clone(),
            title: self.title.clone(),
            body: self.body.clone(),
            show: self.show,
            created_at: self.created_at,
            ttl: self.ttl,
            entity: self.entity.clone(),
        }
    }
}

} // verus!
