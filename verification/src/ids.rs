//! Identities for the entities the server addresses: tracks, albums,
//! artists and playlists, each either a catalog primary key or an
//! identifier scoped to a named external service. The canonical text form
//! and its round trip are specified in [`crate::idtext`].

use core::marker::PhantomData;
use vstd::prelude::*;
use crate::idtext::{
    first_colon, id_text, lemma_first_colon_is, lemma_id_text_roundtrip, parse_id_text,
    valid_id_view, IdView,
};
use crate::numtext::{format_i64, int_text, parse_i64};
use crate::services::ServiceId;
use vstd::string::{StrSliceExecFns, StringExecFns};

verus! {

/// A kind of entity an identity can refer to.
pub trait Entity {

}

#[derive(PartialEq, Eq, Structural, Clone, Copy, Hash, Debug)]
pub struct Track {}

#[derive(PartialEq, Eq, Structural, Clone, Copy, Hash, Debug)]
pub struct Album {}

#[derive(PartialEq, Eq, Structural, Clone, Copy, Hash, Debug)]
pub struct Artist {}

#[derive(PartialEq, Eq, Structural, Clone, Copy, Hash, Debug)]
pub struct Playlist {}

impl Entity for Track {

}

impl Entity for Album {

}

impl Entity for Artist {

}

impl Entity for Playlist {

}

/// Why a piece of text denotes no identity.
#[derive(PartialEq, Eq, Structural, Clone, Copy, Debug)]
pub enum ParseIdError {
    /// The text has no colon and is not a decimal integer that fits an `i64`.
    InvalidNumber,
    /// The text has a colon, but the service or the identifier segment is
    /// empty.
    EmptySegment,
}

/// A primary key into the catalog.
#[derive(Debug, Hash)]
pub struct LibraryId<E: Entity>(pub i64, pub PhantomData<E>);

impl<E: Entity> LibraryId<E> {
    pub fn new(id: i64) -> (r: Self)
        ensures
            r.0 == id,
    {
        LibraryId(id, PhantomData)
    }

    /// The canonical text of the key: its decimal digits.
    pub fn to_string(&self) -> (r: String)
        ensures
            r@ == int_text(self.0 as int),
    {
        format_i64(self.0)
    }
}

impl<E: Entity> Clone for LibraryId<E> {
    fn clone(&self) -> (r: Self)
        ensures
            r == *self,
    {
        LibraryId(self.0, PhantomData)
    }
}

impl<E: Entity> PartialEq for LibraryId<E> {
    fn eq(&self, other: &Self) -> (r: bool) {
        self.0 == other.0
    }
}

impl<E: Entity> vstd::std_specs::cmp::PartialEqSpecImpl for LibraryId<E> {
    open spec fn obeys_eq_spec() -> bool {
        true
    }

    open spec fn eq_spec(&self, other: &Self) -> bool {
        self.0 == other.0
    }
}

impl<E: Entity> Eq for LibraryId<E> {

}

/// An identifier issued by an external service, opaque to this server.
#[derive(Debug)]
pub struct IdString<E: Entity>(pub String, pub PhantomData<E>);

impl<E: Entity> IdString<E> {
    pub fn new(id: String) -> (r: Self)
        ensures
            r.0 == id,
    {
        IdString(id, PhantomData)
    }
}

impl<E: Entity> View for IdString<E> {
    type V = Seq<char>;

    open spec fn view(&self) -> Seq<char> {
        self.0@
    }
}

impl<E: Entity> Clone for IdString<E> {
    fn clone(&self) -> (r: Self)
        ensures
            r == *self,
    {
        IdString(self.0.clone(), PhantomData)
    }
}

impl<E: Entity> PartialEq for IdString<E> {
    fn eq(&self, other: &Self) -> (r: bool) {
        self.0 == other.0
    }
}

impl<E: Entity> vstd::std_specs::cmp::PartialEqSpecImpl for IdString<E> {
    open spec fn obeys_eq_spec() -> bool {
        true
    }

    open spec fn eq_spec(&self, other: &Self) -> bool {
        self@ == other@
    }
}

impl<E: Entity> Eq for IdString<E> {

}

/// An identity scoped to a named external service.
#[derive(Debug)]
pub struct ExternalId<E: Entity> {
    pub service: ServiceId,
    pub id: IdString<E>,
}

impl<E: Entity> Clone for ExternalId<E> {
    fn clone(&self) -> (r: Self)
        ensures
            r == *self,
    {
        ExternalId { service: self.service.clone(), id: self.id.clone() }
    }
}

impl<E: Entity> PartialEq for ExternalId<E> {
    fn eq(&self, other: &Self) -> (r: bool) {
        self.service == other.service && self.id == other.id
    }
}

impl<E: Entity> vstd::std_specs::cmp::PartialEqSpecImpl for ExternalId<E> {
    open spec fn obeys_eq_spec() -> bool {
        true
    }

    open spec fn eq_spec(&self, other: &Self) -> bool {
        self.service@ == other.service@ && self.id@ == other.id@
    }
}

impl<E: Entity> Eq for ExternalId<E> {

}

/// An identity: a catalog key or a service-scoped identifier.
#[derive(Debug)]
pub enum Id<E: Entity> {
    Library(LibraryId<E>),
    External(ExternalId<E>),
}

impl<E: Entity> View for Id<E> {
    type V = IdView;

    open spec fn view(&self) -> IdView {
        match self {
            Id::Library(l) => IdView::Library { n: l.0 as int },
            Id::External(e) => IdView::External { service: e.service@, id: e.id@ },
        }
    }
}

impl<E: Entity> Clone for Id<E> {
    fn clone(&self) -> (r: Self)
        ensures
            r == *self,
    {
        match self {
            Id::Library(l) => Id::Library(l.clone()),
            Id::External(e) => Id::External(e.clone()),
        }
    }
}

impl<E: Entity> PartialEq for Id<E> {
    fn eq(&self, other: &Self) -> (r: bool) {
        match (self, other) {
            (Id::Library(a), Id::Library(b)) => a == b,
            (Id::External(a), Id::External(b)) => a == b,
            _ => false,
        }
    }
}

impl<E: Entity> vstd::std_specs::cmp::PartialEqSpecImpl for Id<E> {
    open spec fn obeys_eq_spec() -> bool {
        true
    }

    open spec fn eq_spec(&self, other: &Self) -> bool {
        self@ == other@
    }
}

impl<E: Entity> Eq for Id<E> {

}

impl<E: Entity> Id<E> {
    /// Whether the canonical text of this identity reads back as the same
    /// identity.
    pub open spec fn is_valid(&self) -> bool {
        valid_id_view(self@)
    }

    /// Reads an identity from its canonical text: a bare integer is a
    /// catalog key; `service:identifier`, split at the first colon, names
    /// an external entry. Both segments must be non-empty.
    pub fn parse(s: &str) -> (r: Result<Id<E>, ParseIdError>)
        ensures
            match r {
                Ok(id) => parse_id_text(s@) == Some(id@) && id.is_valid(),
                Err(e) => parse_id_text(s@) is None && e == (if first_colon(s@) < s@.len() {
                    ParseIdError::EmptySegment
                } else {
                    ParseIdError::InvalidNumber
                }),
            },
    {
        let len = s.unicode_len();
        let mut k: usize = 0;
        loop
            invariant
                0 <= k <= len,
                len == s@.len(),
                forall|j: int| 0 <= j < k ==> #[trigger] s@[j] != ':',
            ensures
                0 <= k <= len,
                forall|j: int| 0 <= j < k ==> #[trigger] s@[j] != ':',
                k < len ==> s@[k as int] == ':',
            decreases len - k,
        {
            if k == len {
                break;
            }
            let c = s.get_char(k);
            if c as u32 == 58 {
                proof {
                    assert(s@[k as int] == ':');
                }
                break;
            }
            k += 1;
        }
        proof {
            lemma_first_colon_is(s@, k as int);
        }
        if k == len {
            match parse_i64(s) {
                Some(v) => Ok(Id::Library(LibraryId::new(v))),
                None => Err(ParseIdError::InvalidNumber),
            }
        } else if k == 0 || k + 1 == len {
            proof {
                if k == 0 {
                    assert(s@.take(0).len() == 0);
                } else {
                    assert(s@.skip(k + 1).len() == 0);
                }
            }
            Err(ParseIdError::EmptySegment)
        } else {
            let service_part = s.substring_char(0, k);
            let id_part = s.substring_char(k + 1, len);
            proof {
                assert(service_part@ =~= s@.take(k as int));
                assert(id_part@ =~= s@.skip(k + 1));
            }
            Ok(
                Id::External(
                    ExternalId {
                        service: ServiceId(String::from_str(service_part)),
                        id: IdString::new(String::from_str(id_part)),
                    },
                ),
            )
        }
    }

    /// The canonical text of this identity.
    pub fn to_string(&self) -> (r: String)
        ensures
            r@ == id_text(self@),
    {
        match self {
            Id::Library(l) => l.to_string(),
            Id::External(e) => {
                let mut out = e.service.0.clone();
                out.append(":");
                out.append(e.id.0.as_str());
                proof {
                    reveal_strlit(":");
                    assert(out@ =~= id_text(self@));
                }
                out
            },
        }
    }
}

/// Identity round trip: the canonical text of any valid identity parses
/// back to an equal identity.
pub proof fn lemma_id_roundtrip<E: Entity>(id: Id<E>)
    requires
        id.is_valid(),
    ensures
        parse_id_text(id_text(id@)) == Some(id@),
{
    lemma_id_text_roundtrip(id@);
}

} // verus!
