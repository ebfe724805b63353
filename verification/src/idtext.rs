//! The canonical text form shared by every track-addressing identity: a bare
//! integer denotes a catalog entry, and `service:identifier` (split at the
//! first colon) denotes an entry of a named external service.

use vstd::prelude::*;
use crate::numtext::{
    i64_text_val, int_text, lemma_int_text_no_colon, lemma_int_text_roundtrip,
};

verus! {

/// The abstract value of an identity: either a catalog primary key or a
/// service-scoped identifier.
pub enum IdView {
    Library { n: int },
    External { service: Seq<char>, id: Seq<char> },
}

/// The index of the first colon in the text, or its length when it has none.
pub open spec fn first_colon(s: Seq<char>) -> int
    decreases s.len(),
{
    if s.len() == 0 {
        0
    } else if s[0] == ':' {
        0
    } else {
        1 + first_colon(s.skip(1))
    }
}

/// The identity denoted by a piece of text, if any: with a colon, the two
/// segments around the first one, both required non-empty; without one, a
/// decimal integer.
pub open spec fn parse_id_text(s: Seq<char>) -> Option<IdView> {
    let k = first_colon(s);
    if k == s.len() {
        match i64_text_val(s) {
            Some(v) => Some(IdView::Library { n: v }),
            None => None,
        }
    } else {
        let service = s.take(k);
        let ident = s.skip(k + 1);
        if service.len() > 0 && ident.len() > 0 {
            Some(IdView::External { service, id: ident })
        } else {
            None
        }
    }
}

/// The canonical text of an identity.
pub open spec fn id_text(v: IdView) -> Seq<char> {
    match v {
        IdView::Library { n } => int_text(n),
        IdView::External { service, id } => service + seq![':'] + id,
    }
}

/// The identities whose canonical text reads back as the same value: the
/// catalog key fits an `i64`, and an external identity has a non-empty,
/// colon-free service name and a non-empty identifier.
pub open spec fn valid_id_view(v: IdView) -> bool {
    match v {
        IdView::Library { n } => i64::MIN <= n <= i64::MAX,
        IdView::External { service, id } => service.len() > 0 && id.len() > 0 && forall|i: int|
            0 <= i < service.len() ==> #[trigger] service[i] != ':',
    }
}

/// A scan that finds no colon before `k`, and a colon (or the end) at `k`,
/// has found the first colon.
pub proof fn lemma_first_colon_is(s: Seq<char>, k: int)
    requires
        0 <= k <= s.len(),
        forall|i: int| 0 <= i < k ==> #[trigger] s[i] != ':',
        k < s.len() ==> s[k] == ':',
    ensures
        first_colon(s) == k,
    decreases k,
{
    if k == 0 {
        if s.len() > 0 {
            assert(s[0] == ':');
        }
    } else {
        assert(s[0] != ':');
        assert(forall|i: int| 1 <= i < s.len() ==> #[trigger] s.skip(1)[i - 1] == s[i]);
        lemma_first_colon_is(s.skip(1), k - 1);
    }
}

/// The canonical text of a valid identity parses back to that identity.
pub proof fn lemma_id_text_roundtrip(v: IdView)
    requires
        valid_id_view(v),
    ensures
        parse_id_text(id_text(v)) == Some(v),
{
    match v {
        IdView::Library { n } => {
            lemma_int_text_no_colon(n);
            lemma_first_colon_is(int_text(n), int_text(n).len() as int);
            lemma_int_text_roundtrip(n);
        },
        IdView::External { service, id } => {
            let s = service + seq![':'] + id;
            let k = service.len() as int;
            assert(forall|i: int| 0 <= i < k ==> #[trigger] s[i] == service[i]);
            assert(s[k] == ':');
            lemma_first_colon_is(s, k);
            assert(s.take(k) =~= service);
            assert(s.skip(k + 1) =~= id);
        },
    }
}

} // verus!
