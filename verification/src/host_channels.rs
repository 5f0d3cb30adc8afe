//! What an isolate asks of its host, and the stores the host installs once.
use vstd::prelude::*;
#[allow(unused_imports)]
use vstd::string::*;

use crate::engine_api::QueueBatch;
use crate::generation::GenerationId;
use crate::r2_store;

verus! {

/// One leased message of a batch, as its settlement names it.
pub struct QueueLeaseRef {
    pub message_id: String,
    pub seq: i64,
    pub generation: u64,
}

/// A leased batch on its way to the script that consumes it.
pub struct QueueDispatchReq<M> {
    pub scope: String,
    pub generation: GenerationId,
    pub script: String,
    pub lease_id: String,
    pub leases: Vec<QueueLeaseRef>,
    pub batch: QueueBatch<M>,
}

/// The stores a process is given when it starts; each is given once.
pub struct HostStores<B> {
    kv_blob: Option<B>,
    r2: Option<B>,
}

impl<B> HostStores<B> {
    pub closed spec fn kv_blob(&self) -> Option<B> {
        self.kv_blob
    }

    pub closed spec fn r2(&self) -> Option<B> {
        self.r2
    }

    pub fn new() -> (r: Self)
        ensures
            r.kv_blob() is None,
            r.r2() is None,
    {
        HostStores { kv_blob: None, r2: None }
    }

    /// The store of R2 objects; where there is none, every operation says so.
    pub fn r2_store(&self) -> (r: Result<&B, String>)
        ensures
            match r {
                Ok(store) => self.r2() == Some(*store),
                Err(error) => self.r2() is None && error@ == r2_store::no_store_words(),
            },
    {
        match &self.r2 {
            Some(store) => Ok(store),
            None => Err(r2_store::no_store()),
        }
    }
}

/// Installs the store of large KV values; the first one stands.
pub fn set_kv_blob_store<B>(stores: &mut HostStores<B>, store: B)
    ensures
        final(stores).kv_blob() == (if old(stores).kv_blob() is Some {
            old(stores).kv_blob()
        } else {
            Some(store)
        }),
        final(stores).r2() == old(stores).r2(),
{
    if stores.kv_blob.is_none() {
        stores.kv_blob = Some(store);
    }
}

/// Installs the store of R2 objects; the first one stands.
pub fn set_r2_store<B>(stores: &mut HostStores<B>, store: B)
    ensures
        final(stores).r2() == (if old(stores).r2() is Some {
            old(stores).r2()
        } else {
            Some(store)
        }),
        final(stores).kv_blob() == old(stores).kv_blob(),
{
    if stores.r2.is_none() {
        stores.r2 = Some(store);
    }
}

/// The store of large KV values.
pub fn kv_blob_store<B>(stores: &HostStores<B>) -> (r: Result<&B, String>)
    ensures
        match r {
            Ok(store) => stores.kv_blob() == Some(*store),
            Err(error) => stores.kv_blob() is None && error@
                == "KV large values need a fleet bucket"@,
        },
{
    match &stores.kv_blob {
        Some(store) => Ok(store),
        None => Err(String::from_str("KV large values need a fleet bucket")),
    }
}

} // verus!
