//! The per-request context: server identity, the active principal, and the
//! two stores.

use vstd::prelude::*;

use crate::entity::User;
use crate::queue::MemoryQueue;
use crate::store::MemoryStore;

verus! {

/// The server's static configuration.
pub struct ServerConfig {
    pub domain: String,
    pub name: String,
    pub description: String,
    pub instance_id: u32,
    pub admins: Vec<String>,
}

/// Everything a request handler works against.
pub struct Context {
    pub server_base: String,
    pub name: String,
    pub description: String,
    pub instance_id: u32,
    pub user: User,
    pub entity_store: MemoryStore,
    pub queue_store: MemoryQueue,
}

impl Context {
    /// Both stores are well formed.
    pub open spec fn wf(&self) -> bool {
        self.entity_store.wf() && self.queue_store.wf()
    }

    /// A fresh context over empty stores.
    pub fn new(config: &ServerConfig, user: User) -> (r: Context)
        ensures
            r.wf(),
            r.server_base@ == config.domain@,
            r.instance_id == config.instance_id,
            r.user@ == user@,
            r.entity_store.contents() == Map::<Seq<char>, crate::entity::StoreItemV>::empty(),
            r.queue_store.elems().len() == 0,
    {
        Context {
            server_base: config.domain.clone(),
            name: config.name.clone(),
            description: config.description.clone(),
            instance_id: config.instance_id,
            user,
            entity_store: MemoryStore::new(),
            queue_store: MemoryQueue::new(),
        }
    }
}

} // verus!
