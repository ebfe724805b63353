//! One search hit as the API layer reports it: the external identity it
//! came from, the catalog key it resolved to (if any), and whatever
//! information the service supplied about it.

use vstd::prelude::*;
use crate::ids::{Entity, ExternalId, LibraryId};

verus! {

/// A search hit for one entity.
#[derive(Debug)]
pub struct SearchResult<E: Entity, T> {
    pub library_id: Option<LibraryId<E>>,
    pub external_id: ExternalId<E>,
    pub info: T,
}

} // verus!
