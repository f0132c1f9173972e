use vstd::prelude::*;

verus! {

/// Where pictures are stored and under which URL they are served.
#[derive(Clone, Debug)]
pub struct AvatarSettings {
    pub s3_bucket: String,
    pub retrieve_by_id_path: String,
    pub picture_api_url: String,
}

} // verus!
