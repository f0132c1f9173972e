use crate::name::{internal_key, strip_uri, token_fields, uuid_hash, uuid_hash_of, ExternalFileName};
use crate::operations::{added, extends, is_get, loaded_data, succeeded};
use crate::settings::AvatarSettings;
use crate::storage::{Backend, prefix_of, BackendCall, Loader, SizeClass};
use crate::visibility::{allows, may_view, rank, str_eq, Display};
use vstd::prelude::*;

verus! {

/// Why a picture is not served. Undecodable tokens, refused access and missing objects all
/// look the same to the caller.
#[derive(Clone, Copy, Debug, PartialEq, Eq, Structural)]
pub enum RetrieveError {
    NotFound,
}

/// The characters of an optional string.
pub open spec fn opt_view(u: Option<String>) -> Option<Seq<char>> {
    match u {
        Some(s) => Some(s@),
        None => None,
    }
}

/// The level a requester is granted: its owner sees everything.
pub open spec fn effective_scope(hash: Seq<char>, scope: Option<Display>, uuid: Option<Seq<char>>) -> Option<Display> {
    match uuid {
        Some(u) => if uuid_hash_of(u) == hash {
            Some(Display::Private)
        } else {
            scope
        },
        None => scope,
    }
}

/// Whether the requester may see a picture of owner `hash` stored at level `stored`.
/// Without a scope no level is checked.
pub open spec fn authorized(hash: Seq<char>, stored: Display, scope: Option<Display>, uuid: Option<Seq<char>>) -> bool {
    match effective_scope(hash, scope, uuid) {
        Some(s) => may_view(s, stored),
        None => true,
    }
}

/// What a fetch returns given the loads `gets` it made: the requested size, or for the optional
/// 528 size the 264 one when the first load failed.
pub open spec fn fetched(gets: Seq<BackendCall>, key: Seq<char>, size: Seq<char>, bucket: Seq<char>) -> Result<Seq<u8>, RetrieveError> {
    if gets.len() >= 1 && is_get(gets[0], key, size, bucket) && succeeded(gets[0]) && gets.len() == 1 {
        Ok(loaded_data(gets[0]))
    } else if size == prefix_of(SizeClass::X528) && gets.len() == 2 && is_get(gets[0], key, size, bucket)
        && !succeeded(gets[0]) && is_get(gets[1], key, prefix_of(SizeClass::X264), bucket) && succeeded(gets[1]) {
        Ok(loaded_data(gets[1]))
    } else {
        Err(RetrieveError::NotFound)
    }
}

/// Loads that a fetch of `size` makes: one, and a second for 264 when a 528 load failed.
pub open spec fn fetch_loads(gets: Seq<BackendCall>, key: Seq<char>, size: Seq<char>, bucket: Seq<char>) -> bool {
    &&& gets.len() >= 1
    &&& is_get(gets[0], key, size, bucket)
    &&& if !succeeded(gets[0]) && size == prefix_of(SizeClass::X528) {
        gets.len() == 2 && is_get(gets[1], key, prefix_of(SizeClass::X264), bucket)
    } else {
        gets.len() == 1
    }
}

/// Serves a picture by its token if the requester may see it. A token whose level is unknown
/// does not decode, so it is reported as not found like any other unreadable token.
pub fn retrieve_avatar_from_store<L: Loader>(
    settings: &AvatarSettings,
    loader: &mut Backend<L>,
    picture: &str,
    size: &str,
    scope: Option<Display>,
    uuid: Option<String>,
) -> (r: Result<Vec<u8>, RetrieveError>)
    ensures
        extends(old(loader).calls(), final(loader).calls()),
        match token_fields(strip_uri(picture@)) {
            Err(_) => r == Err::<Vec<u8>, RetrieveError>(RetrieveError::NotFound) && final(loader).calls()
                == old(loader).calls(),
            Ok((hash, stored, _)) => if !authorized(hash, stored, scope, opt_view(uuid)) {
                r == Err::<Vec<u8>, RetrieveError>(RetrieveError::NotFound) && final(loader).calls()
                    == old(loader).calls()
            } else {
                let gets = added(old(loader).calls(), final(loader).calls());
                let key = internal_key(hash, stored);
                &&& fetch_loads(gets, key, size@, settings.s3_bucket@)
                &&& match r {
                    Ok(v) => fetched(gets, key, size@, settings.s3_bucket@) == Ok::<Seq<u8>, RetrieveError>(v@),
                    Err(e) => fetched(gets, key, size@, settings.s3_bucket@) == Err::<Seq<u8>, RetrieveError>(e),
                }
            },
        },
{
    let ghost l0 = loader.calls();
    assert(l0.subrange(0, l0.len() as int) =~= l0);
    let external = match ExternalFileName::from_uri(picture) {
        Ok(n) => n,
        Err(_) => return Err(RetrieveError::NotFound),
    };
    let internal = external.internal;
    let is_owner = match &uuid {
        Some(u) => str_eq(uuid_hash(u.as_str()).as_str(), internal.uuid_hash.as_str()),
        None => false,
    };
    let scope = if is_owner {
        Some(Display::Private)
    } else {
        scope
    };
    match scope {
        Some(s) => {
            if !allows(s, internal.display) {
                return Err(RetrieveError::NotFound);
            }
        },
        None => {},
    }
    let key = internal.to_string();
    let bucket = settings.s3_bucket.as_str();
    let first = loader.load(key.as_str(), size, bucket);
    let ghost l1 = loader.calls();
    proof {
        assert(l1.subrange(0, l0.len() as int) =~= l0);
        assert(added(l0, l1) =~= seq![l1.last()]);
    }
    match first {
        Ok(data) => Ok(data),
        Err(_) => {
            if str_eq(size, SizeClass::X528.prefix()) {
                let second = loader.load(key.as_str(), SizeClass::X264.prefix(), bucket);
                proof {
                    assert(loader.calls().subrange(0, l0.len() as int) =~= l0);
                    assert(added(l0, loader.calls()) =~= seq![l1.last(), loader.calls().last()]);
                }
                match second {
                    Ok(data) => Ok(data),
                    Err(_) => Err(RetrieveError::NotFound),
                }
            } else {
                Err(RetrieveError::NotFound)
            }
        },
    }
}

/// Size served when a request names none.
pub fn default_size() -> (r: String)
    ensures
        r@ == prefix_of(SizeClass::X264),
{
    let s = SizeClass::X264.prefix();
    s.to_owned()
}

/// The access scope that a request carries.
pub struct Scope {
    pub scope: String,
}

/// Staff may see pictures at level Vouched; Public may not see those at level Staff; the owner
/// sees a picture at any level, whatever scope the request carries.
pub proof fn lemma_authorization(hash: Seq<char>, stored: Display, scope: Option<Display>, uuid: Seq<char>)
    ensures
        authorized(hash, Display::Vouched, Some(Display::Staff), None),
        !authorized(hash, Display::Staff, Some(Display::Public), None),
        uuid_hash_of(uuid) != hash ==> !authorized(hash, Display::Staff, Some(Display::Public), Some(uuid)),
        uuid_hash_of(uuid) == hash ==> authorized(hash, stored, scope, Some(uuid)),
{
    assert(rank(stored) <= 5);
}

/// A fetch of the 528 size whose load failed serves the 264 size when that load worked; a failed
/// load of any other size is reported as not found.
pub proof fn lemma_fetch_fallback(gets: Seq<BackendCall>, key: Seq<char>, size: Seq<char>, bucket: Seq<char>)
    requires
        fetch_loads(gets, key, size, bucket),
        !succeeded(gets[0]),
    ensures
        size == prefix_of(SizeClass::X528) && succeeded(gets[1]) ==> fetched(gets, key, size, bucket)
            == Ok::<Seq<u8>, RetrieveError>(loaded_data(gets[1])),
        size != prefix_of(SizeClass::X528) ==> fetched(gets, key, size, bucket) == Err::<
            Seq<u8>,
            RetrieveError,
        >(RetrieveError::NotFound),
{
}

} // verus!
