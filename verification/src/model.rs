//! The engine-facing data model: the concrete track identity the queue
//! stores, the simple catalog key types the API layer hands around, and the
//! read-only playback-state snapshot.

use vstd::prelude::*;
use crate::idtext::{
    first_colon, id_text, lemma_first_colon_is, parse_id_text, valid_id_view, IdView,
};
use crate::ids::ParseIdError;
use crate::numtext::{format_i64, int_text, parse_i64};
use crate::services::ServiceId;
use vstd::string::{StrSliceExecFns, StringExecFns};

verus! {

/// A track's catalog primary key.
#[derive(PartialEq, Eq, Structural, Clone, Copy, Hash, Debug)]
pub struct LibraryTrackId(pub i64);

/// A track identity issued by a named external service.
#[derive(Debug)]
pub struct ExternalTrackId {
    pub service_id: ServiceId,
    pub track_id: String,
}

impl Clone for ExternalTrackId {
    fn clone(&self) -> (r: Self)
        ensures
            r == *self,
    {
        ExternalTrackId { service_id: self.service_id.clone(), track_id: self.track_id.clone() }
    }
}

impl PartialEq for ExternalTrackId {
    fn eq(&self, other: &Self) -> (r: bool) {
        self.service_id == other.service_id && self.track_id == other.track_id
    }
}

impl vstd::std_specs::cmp::PartialEqSpecImpl for ExternalTrackId {
    open spec fn obeys_eq_spec() -> bool {
        true
    }

    open spec fn eq_spec(&self, other: &Self) -> bool {
        self.service_id@ == other.service_id@ && self.track_id@ == other.track_id@
    }
}

impl Eq for ExternalTrackId {

}

/// The identity of a track the queue can play: a catalog entry or an entry
/// of an external service. Its canonical text form is specified in
/// [`crate::idtext`].
#[derive(Debug)]
pub enum TrackId {
    Library(LibraryTrackId),
    External(ExternalTrackId),
}

impl View for TrackId {
    type V = IdView;

    open spec fn view(&self) -> IdView {
        match self {
            TrackId::Library(l) => IdView::Library { n: l.0 as int },
            TrackId::External(e) => IdView::External {
                service: e.service_id@,
                id: e.track_id@,
            },
        }
    }
}

impl Clone for TrackId {
    fn clone(&self) -> (r: Self)
        ensures
            r == *self,
    {
        match self {
            TrackId::Library(l) => TrackId::Library(*l),
            TrackId::External(e) => TrackId::External(e.clone()),
        }
    }
}

impl PartialEq for TrackId {
    fn eq(&self, other: &Self) -> (r: bool) {
        match (self, other) {
            (TrackId::Library(a), TrackId::Library(b)) => a == b,
            (TrackId::External(a), TrackId::External(b)) => a == b,
            _ => false,
        }
    }
}

impl vstd::std_specs::cmp::PartialEqSpecImpl for TrackId {
    open spec fn obeys_eq_spec() -> bool {
        true
    }

    open spec fn eq_spec(&self, other: &Self) -> bool {
        self@ == other@
    }
}

impl Eq for TrackId {

}

impl TrackId {
    /// Whether the canonical text of this identity reads back as the same
    /// identity.
    pub open spec fn is_valid(&self) -> bool {
        valid_id_view(self@)
    }

    /// Reads a track identity from its canonical text; the same grammar as
    /// [`crate::ids::Id::parse`].
    pub fn parse(s: &str) -> (r: Result<TrackId, ParseIdError>)
        ensures
            match r {
                Ok(id) => parse_id_text(s@) == Some(id@) && id.is_valid(),
                Err(e) => parse_id_text(s@) is None && e == (if first_colon(s@) < s@.len() {
                    ParseIdError::EmptySegment
                } else {
                    ParseIdError::InvalidNumber
                }),
            },
    {
        let len = s.unicode_len();
        let mut k: usize = 0;
        loop
            invariant
                0 <= k <= len,
                len == s@.len(),
                forall|j: int| 0 <= j < k ==> #[trigger] s@[j] != ':',
            ensures
                0 <= k <= len,
                forall|j: int| 0 <= j < k ==> #[trigger] s@[j] != ':',
                k < len ==> s@[k as int] == ':',
            decreases len - k,
        {
            if k == len {
                break;
            }
            let c = s.get_char(k);
            if c as u32 == 58 {
                proof {
                    assert(s@[k as int] == ':');
                }
                break;
            }
            k += 1;
        }
        proof {
            lemma_first_colon_is(s@, k as int);
        }
        if k == len {
            match parse_i64(s) {
                Some(v) => Ok(TrackId::Library(LibraryTrackId(v))),
                None => Err(ParseIdError::InvalidNumber),
            }
        } else if k == 0 || k + 1 == len {
            proof {
                if k == 0 {
                    assert(s@.take(0).len() == 0);
                } else {
                    assert(s@.skip(k + 1).len() == 0);
                }
            }
            Err(ParseIdError::EmptySegment)
        } else {
            let service_part = s.substring_char(0, k);
            let id_part = s.substring_char(k + 1, len);
            proof {
                assert(service_part@ =~= s@.take(k as int));
                assert(id_part@ =~= s@.skip(k + 1));
            }
            Ok(
                TrackId::External(
                    ExternalTrackId {
                        service_id: ServiceId(String::from_str(service_part)),
                        track_id: String::from_str(id_part),
                    },
                ),
            )
        }
    }

    /// The canonical text of this identity.
    pub fn to_string(&self) -> (r: String)
        ensures
            r@ == id_text(self@),
    {
        match self {
            TrackId::Library(l) => format_i64(l.0),
            TrackId::External(e) => {
                let mut out = e.service_id.0.clone();
                out.append(":");
                out.append(e.track_id.as_str());
                proof {
                    reveal_strlit(":");
                    assert(out@ =~= id_text(self@));
                }
                out
            },
        }
    }
}

/// The read-only snapshot the API layer serves for "get playback state"
/// queries.
#[derive(Debug)]
pub struct PlaybackState {
    pub muted: bool,
    pub volume: u32,
    pub paused: bool,
    pub current_track: Option<crate::queue::CurrentTrack>,
}

/// An album's catalog primary key.
#[derive(PartialEq, Eq, Structural, Clone, Copy, Hash, Debug)]
pub struct AlbumId(pub i64);

/// An artist's catalog primary key.
#[derive(PartialEq, Eq, Structural, Clone, Copy, Hash, Debug)]
pub struct ArtistId(pub i64);

/// A playlist's catalog primary key.
#[derive(PartialEq, Eq, Structural, Clone, Copy, Hash, Debug)]
pub struct PlaylistId(pub i64);

impl AlbumId {
    /// Reads the key from its decimal text.
    pub fn parse(s: &str) -> (r: Option<AlbumId>)
        ensures
            match r {
                Some(v) => crate::numtext::i64_text_val(s@) == Some(v.0 as int),
                None => crate::numtext::i64_text_val(s@) is None,
            },
    {
        match parse_i64(s) {
            Some(v) => Some(AlbumId(v)),
            None => None,
        }
    }

    /// The decimal text of the key.
    pub fn to_string(&self) -> (r: String)
        ensures
            r@ == int_text(self.0 as int),
    {
        format_i64(self.0)
    }
}

impl ArtistId {
    /// Reads the key from its decimal text.
    pub fn parse(s: &str) -> (r: Option<ArtistId>)
        ensures
            match r {
                Some(v) => crate::numtext::i64_text_val(s@) == Some(v.0 as int),
                None => crate::numtext::i64_text_val(s@) is None,
            },
    {
        match parse_i64(s) {
            Some(v) => Some(ArtistId(v)),
            None => None,
        }
    }

    /// The decimal text of the key.
    pub fn to_string(&self) -> (r: String)
        ensures
            r@ == int_text(self.0 as int),
    {
        format_i64(self.0)
    }
}

impl PlaylistId {
    /// Reads the key from its decimal text.
    pub fn parse(s: &str) -> (r: Option<PlaylistId>)
        ensures
            match r {
                Some(v) => crate::numtext::i64_text_val(s@) == Some(v.0 as int),
                None => crate::numtext::i64_text_val(s@) is None,
            },
    {
        match parse_i64(s) {
            Some(v) => Some(PlaylistId(v)),
            None => None,
        }
    }

    /// The decimal text of the key.
    pub fn to_string(&self) -> (r: String)
        ensures
            r@ == int_text(self.0 as int),
    {
        format_i64(self.0)
    }
}

} // verus!
