use crate::name::{
    internal_key, lemma_uuid_hash_chars, payload, png_ending, strip_uri, token_fields,
    url_b64_encoded, uuid_hash_of, ExternalFileName, InternalFileName, NameError,
};
use crate::operations::{
    added, delete, delete_many, deletes_all, extends, is_get, is_put, loaded_data, mandatory_ok,
    rename, renamed, save, succeeded,
};
use crate::storage::{class_at, prefix_of, BackendCall};
use crate::resize::{upload_error, variant, AvatarError, Avatars};
use crate::settings::AvatarSettings;
use crate::storage::{Backend, Loader, Saver, StorageError};
use crate::visibility::{str_eq, Display};
use vstd::prelude::*;
use vstd::utf8::encode_utf8;

verus! {

/// Why an upload or a change of level failed.
#[derive(Clone, Copy, Debug, PartialEq, Eq, Structural)]
pub enum SaveError {
    /// The old picture belongs to someone else.
    UuidMismatch,
    /// The old picture's token could not be read.
    InvalidName(NameError),
    /// The upload was refused.
    Avatar(AvatarError),
    /// A mandatory storage operation failed.
    Storage(StorageError),
}

/// The URL under which a stored picture is served.
pub struct PictureUrl {
    pub url: String,
}

/// Request to store an upload that was kept as an intermediate object.
pub struct Save {
    pub intermediate: String,
    pub display: Display,
    pub old_url: Option<String>,
}

/// Request to store a picture given as a data URI.
pub struct Avatar {
    pub data_uri: String,
    pub display: Display,
    pub old_url: Option<String>,
}

/// Request to move a stored picture to another level.
pub struct ChangeDisplay {
    pub display: Display,
    pub old_url: String,
}

/// The URL of the picture of owner `hash` at level `d`, saved at time `ts`.
pub open spec fn picture_url(settings: AvatarSettings, hash: Seq<char>, d: Display, ts: i64) -> Seq<char> {
    settings.picture_api_url@ + settings.retrieve_by_id_path@ + url_b64_encoded(
        encode_utf8(payload(hash, d, ts)),
    ) + png_ending()
}

/// Storage key of the picture that `old_url` names, if it names one.
pub open spec fn previous_key(old_url: Option<String>) -> Option<Seq<char>> {
    match old_url {
        Some(u) => match token_fields(strip_uri(u@)) {
            Ok((h, d, _)) => Some(internal_key(h, d)),
            Err(_) => None,
        },
        None => None,
    }
}

/// The bytes stored for the `k`-th size class of an upload: the upload itself, then its variants.
pub open spec fn upload_variant(buf: Seq<u8>, k: int) -> Seq<u8> {
    if k == 0 {
        buf
    } else if k == 1 {
        variant(buf, 528)
    } else if k == 2 {
        variant(buf, 264)
    } else if k == 3 {
        variant(buf, 100)
    } else {
        variant(buf, 40)
    }
}

/// The five calls `cs` write the variants of the upload `buf` under `key`, one per size class.
pub open spec fn puts_upload(cs: Seq<BackendCall>, key: Seq<char>, bucket: Seq<char>, buf: Seq<u8>) -> bool {
    cs.len() == 5 && forall|k: int|
        0 <= k < 5 ==> is_put(
            #[trigger] cs[k],
            key,
            prefix_of(class_at(k)),
            bucket,
            upload_variant(buf, k),
        )
}

/// What storing the upload `buf` under `key` did to the saver's calls (from `s0` to `s1`) and
/// what it returned. A refused upload makes no call. Otherwise the picture at `prev`, if any, is
/// removed first; only when its mandatory variants are gone are the five variants written, and
/// the store succeeds when the mandatory ones were written.
pub open spec fn stored_upload(
    s0: Seq<BackendCall>,
    s1: Seq<BackendCall>,
    buf: Seq<u8>,
    key: Seq<char>,
    prev: Option<Seq<char>>,
    bucket: Seq<char>,
    r: Result<PictureUrl, SaveError>,
) -> bool {
    match upload_error(buf) {
        Some(e) => r == Err::<PictureUrl, SaveError>(SaveError::Avatar(e)) && s1 == s0,
        None => {
            let cs = added(s0, s1);
            &&& extends(s0, s1)
            &&& (r matches Err(e) ==> e is Storage)
            &&& match prev {
                Some(k) => {
                    &&& cs.len() >= 5
                    &&& deletes_all(cs.subrange(0, 5), k, bucket)
                    &&& if mandatory_ok(cs.subrange(0, 5), true) {
                        &&& cs.len() == 10
                        &&& puts_upload(cs.subrange(5, 10), key, bucket, buf)
                        &&& (r is Ok <==> mandatory_ok(cs.subrange(5, 10), false))
                    } else {
                        cs.len() == 5 && r is Err
                    }
                },
                None => puts_upload(cs, key, bucket, buf) && (r is Ok <==> mandatory_ok(cs, false)),
            }
        },
    }
}

/// The URL under which `file_name` is served.
fn picture_url_of(settings: &AvatarSettings, file_name: &ExternalFileName) -> (r: PictureUrl)
    ensures
        r.url@ == picture_url(
            *settings,
            file_name.internal.uuid_hash@,
            file_name.internal.display,
            file_name.ts,
        ),
{
    let mut url = settings.picture_api_url.clone();
    url.append(settings.retrieve_by_id_path.as_str());
    let f = file_name.filename();
    url.append(f.as_str());
    PictureUrl { url }
}

/// Moves the picture at `change_display.old_url` to the requested level under a fresh token.
/// A token of another owner is refused before any storage call.
pub fn change_display_level<S: Saver, L: Loader>(
    settings: &AvatarSettings,
    loader: &mut Backend<L>,
    saver: &mut Backend<S>,
    uuid: &str,
    change_display: &ChangeDisplay,
) -> (r: Result<PictureUrl, SaveError>)
    ensures
        match token_fields(strip_uri(change_display.old_url@)) {
            Err(e) => r == Err::<PictureUrl, SaveError>(SaveError::InvalidName(e))
                && final(saver).calls() == old(saver).calls() && final(loader).calls() == old(
                loader,
            ).calls(),
            Ok((hash, level, _)) => if hash != uuid_hash_of(uuid@) {
                r == Err::<PictureUrl, SaveError>(SaveError::UuidMismatch) && final(saver).calls()
                    == old(saver).calls() && final(loader).calls() == old(loader).calls()
            } else {
                &&& renamed(
                    old(saver).calls(),
                    final(saver).calls(),
                    old(loader).calls(),
                    final(loader).calls(),
                    internal_key(hash, level),
                    internal_key(hash, change_display.display),
                    settings.s3_bucket@,
                    r is Ok,
                )
                &&& r matches Ok(p) ==> exists|ts: i64|
                    p.url@ == #[trigger] picture_url(
                        *settings,
                        uuid_hash_of(uuid@),
                        change_display.display,
                        ts,
                    )
                &&& r matches Err(e) ==> e is Storage
            },
        },
{
    let old_file_name = match ExternalFileName::from_uri(change_display.old_url.as_str()) {
        Ok(n) => n,
        Err(e) => return Err(SaveError::InvalidName(e)),
    };
    let file_name = ExternalFileName::from_uuid_and_display(uuid, &change_display.display);
    let result = picture_url_of(settings, &file_name);
    if !str_eq(old_file_name.internal.uuid_hash.as_str(), file_name.internal.uuid_hash.as_str()) {
        return Err(SaveError::UuidMismatch);
    }
    let old_key = old_file_name.internal.to_string();
    let new_key = file_name.internal.to_string();
    match rename(old_key.as_str(), new_key.as_str(), settings.s3_bucket.as_str(), saver, loader) {
        Ok(_) => Ok(result),
        Err(e) => Err(SaveError::Storage(e)),
    }
}

/// Validates and resizes an upload, removes the owner's previous picture if `old_url` names one,
/// and stores the variants under a fresh token.
pub fn check_resize_store<S: Saver>(
    settings: &AvatarSettings,
    saver: &mut Backend<S>,
    uuid: &str,
    buf: Vec<u8>,
    display: &Display,
    old_url: &Option<String>,
) -> (r: Result<PictureUrl, SaveError>)
    ensures
        r matches Ok(p) ==> exists|ts: i64|
            p.url@ == #[trigger] picture_url(*settings, uuid_hash_of(uuid@), *display, ts),
        stored_upload(
            old(saver).calls(),
            final(saver).calls(),
            buf@,
            internal_key(uuid_hash_of(uuid@), *display),
            previous_key(*old_url),
            settings.s3_bucket@,
            r,
        ),
        r matches Err(e) ==> e is Avatar || e is Storage,
{
    let ghost s0 = saver.calls();
    assert(s0.subrange(0, s0.len() as int) =~= s0);
    let file_name = ExternalFileName::from_uuid_and_display(uuid, display);
    let avatars = match Avatars::new(buf) {
        Ok(a) => a,
        Err(e) => return Err(SaveError::Avatar(e)),
    };
    let result = picture_url_of(settings, &file_name);
    let bucket = settings.s3_bucket.as_str();
    match old_url {
        Some(u) => {
            match ExternalFileName::from_uri(u.as_str()) {
                Ok(name) => {
                    let key = name.internal.to_string();
                    let removed = delete(key.as_str(), bucket, saver);
                    proof {
                        let s1 = saver.calls();
                        assert(added(s0, s1).subrange(0, 5) =~= added(s0, s1));
                    }
                    match removed {
                        Ok(_) => {},
                        Err(e) => return Err(SaveError::Storage(e)),
                    }
                },
                Err(_) => {},
            }
        },
        None => {},
    }
    let key = file_name.internal.to_string();
    let ghost mid = saver.calls();
    let saved = save(avatars, key.as_str(), bucket, saver);
    proof {
        let s1 = saver.calls();
        assert(s1.subrange(0, s0.len() as int) =~= s0);
        assert(added(s0, s1) =~= added(s0, mid) + added(mid, s1));
        assert(added(s0, s1).subrange(added(s0, mid).len() as int, added(s0, s1).len() as int) =~= added(mid, s1));
        assert(added(s0, s1).subrange(0, added(s0, mid).len() as int) =~= added(s0, mid));
    }
    match saved {
        Ok(_) => Ok(result),
        Err(e) => Err(SaveError::Storage(e)),
    }
}

/// Stores an upload kept as an intermediate object, as `check_resize_store` does.
pub fn check_resize_store_intermediate<S: Saver, L: Loader>(
    settings: &AvatarSettings,
    saver: &mut Backend<S>,
    loader: &mut Backend<L>,
    uuid: &str,
    save: Save,
) -> (r: Result<PictureUrl, SaveError>)
    ensures
        extends(old(loader).calls(), final(loader).calls()),
        added(old(loader).calls(), final(loader).calls()).len() == 1,
        is_get(
            added(old(loader).calls(), final(loader).calls())[0],
            save.intermediate@,
            seq!['t', 'm', 'p'],
            settings.s3_bucket@,
        ),
        !succeeded(added(old(loader).calls(), final(loader).calls())[0]) ==> (r matches Err(
            SaveError::Storage(_),
        )) && final(saver).calls() == old(saver).calls(),
        succeeded(added(old(loader).calls(), final(loader).calls())[0]) ==> stored_upload(
            old(saver).calls(),
            final(saver).calls(),
            loaded_data(added(old(loader).calls(), final(loader).calls())[0]),
            internal_key(uuid_hash_of(uuid@), save.display),
            previous_key(save.old_url),
            settings.s3_bucket@,
            r,
        ),
        r matches Ok(p) ==> exists|ts: i64|
            p.url@ == #[trigger] picture_url(*settings, uuid_hash_of(uuid@), save.display, ts),
{
    let ghost l0 = loader.calls();
    let tmp = "tmp";
    proof {
        reveal_strlit("tmp");
        assert(tmp@ =~= seq!['t', 'm', 'p']);
    }
    let buf = match loader.load(save.intermediate.as_str(), tmp, settings.s3_bucket.as_str()) {
        Ok(b) => b,
        Err(e) => {
            proof {
                assert(loader.calls().subrange(0, l0.len() as int) =~= l0);
            }
            return Err(SaveError::Storage(e));
        },
    };
    proof {
        assert(loader.calls().subrange(0, l0.len() as int) =~= l0);
    }
    check_resize_store(settings, saver, uuid, buf, &save.display, &save.old_url)
}

/// Keeps an upload as an intermediate object and returns its name.
pub fn store_intermediate<S: Saver>(bucket: String, saver: &mut Backend<S>, buf: Vec<u8>) -> (r: Result<String, StorageError>)
    ensures
        final(saver).calls() == old(saver).calls().push(
            crate::storage::BackendCall::PutTmp {
                bucket: bucket@,
                data: buf@,
                outcome: crate::storage::outcome_of(r),
            },
        ),
{
    saver.save_tmp(bucket.as_str(), buf)
}

/// Storage keys of an owner's picture at every level.
pub open spec fn all_level_keys(uuid: Seq<char>) -> Seq<Seq<char>> {
    seq![
        internal_key(uuid_hash_of(uuid), Display::Public),
        internal_key(uuid_hash_of(uuid), Display::Authenticated),
        internal_key(uuid_hash_of(uuid), Display::Vouched),
        internal_key(uuid_hash_of(uuid), Display::Ndaed),
        internal_key(uuid_hash_of(uuid), Display::Staff),
        internal_key(uuid_hash_of(uuid), Display::Private),
    ]
}

/// Removes an owner's picture at every level it may have been stored under.
pub fn delete_avatar<S: Saver>(settings: &AvatarSettings, saver: &mut Backend<S>, uuid: &str) -> (r: Result<(), StorageError>)
    ensures
        crate::operations::extends(old(saver).calls(), final(saver).calls()),
        crate::operations::added(old(saver).calls(), final(saver).calls()).len() == 5,
        forall|k: int|
            0 <= k < 5 ==> crate::operations::is_delete_many(
                #[trigger] crate::operations::added(old(saver).calls(), final(saver).calls())[k],
                all_level_keys(uuid@),
                crate::storage::prefix_of(crate::storage::class_at(k)),
                settings.s3_bucket@,
            ),
        r is Ok <==> crate::operations::mandatory_ok(
            crate::operations::added(old(saver).calls(), final(saver).calls()),
            true,
        ),
{
    let levels = [
        Display::Public,
        Display::Authenticated,
        Display::Vouched,
        Display::Ndaed,
        Display::Staff,
        Display::Private,
    ];
    let mut names: Vec<String> = Vec::new();
    let mut i: usize = 0;
    while i < 6
        invariant
            0 <= i <= 6,
            levels@ == seq![
                Display::Public,
                Display::Authenticated,
                Display::Vouched,
                Display::Ndaed,
                Display::Staff,
                Display::Private,
            ],
            names@.len() == i,
            forall|j: int| 0 <= j < i ==> (#[trigger] names@[j])@ == all_level_keys(uuid@)[j],
        decreases 6 - i,
    {
        let key = InternalFileName::from_uuid_and_display(uuid, &levels[i]).to_string();
        names.push(key);
        i = i + 1;
    }
    assert(names@.map_values(|s: String| s@) =~= all_level_keys(uuid@));
    delete_many(names.as_slice(), settings.s3_bucket.as_str(), saver)
}

} // verus!
