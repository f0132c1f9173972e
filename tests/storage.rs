use dino_park_fossil::name::{uuid_hash, ExternalFileName, InternalFileName};
use dino_park_fossil::operations::{delete, rename, save};
use dino_park_fossil::resize::Avatars;
use dino_park_fossil::retriever::{
    default_size, retrieve_avatar_from_store, RetrieveError,
};
use dino_park_fossil::sender::{
    change_display_level, check_resize_store, delete_avatar, store_intermediate, ChangeDisplay,
    SaveError,
};
use dino_park_fossil::settings::AvatarSettings;
use dino_park_fossil::storage::{Backend, Loader, Saver, SizeClass, StorageError};
use dino_park_fossil::visibility::Display;
use std::cell::RefCell;
use std::collections::HashMap;
use std::rc::Rc;

fn settings() -> AvatarSettings {
    AvatarSettings {
        s3_bucket: String::from("testing"),
        retrieve_by_id_path: String::from("/api/v666"),
        picture_api_url: String::from("https://localhost"),
    }
}

fn png(w: u32, h: u32) -> Vec<u8> {
    let img = image::DynamicImage::ImageRgba8(image::RgbaImage::from_pixel(
        w,
        h,
        image::Rgba([200, 100, 0, 255]),
    ));
    let mut out = std::io::Cursor::new(Vec::new());
    img.write_to(&mut out, image::ImageOutputFormat::Png).unwrap();
    out.into_inner()
}

struct DummyLoader {
    retrieve_528: bool,
    name: String,
}

impl Loader for DummyLoader {
    fn load(&mut self, name: &str, size: &str, _: &str) -> Result<Vec<u8>, StorageError> {
        if name != self.name {
            Err(StorageError::NotFound)
        } else {
            match size {
                "528" => {
                    if self.retrieve_528 {
                        Ok(vec![0; 528])
                    } else {
                        Err(StorageError::NotFound)
                    }
                }
                "264" => Ok(vec![0; 264]),
                _ => Err(StorageError::Failed),
            }
        }
    }
}

struct DummySaver {
    delete: bool,
    save: bool,
}

impl Saver for DummySaver {
    fn save(&mut self, _: &str, _: &str, _: &str, _: Vec<u8>) -> Result<(), StorageError> {
        if self.save { Ok(()) } else { Err(StorageError::Failed) }
    }
    fn delete(&mut self, _: &str, _: &str, _: &str) -> Result<(), StorageError> {
        if self.delete { Ok(()) } else { Err(StorageError::Failed) }
    }
    fn delete_many(&mut self, _: &[String], _: &str, _: &str) -> Result<(), StorageError> {
        if self.delete { Ok(()) } else { Err(StorageError::Failed) }
    }
    fn save_tmp(&mut self, _: &str, _: Vec<u8>) -> Result<String, StorageError> {
        Ok(String::from("936DA01F9ABD4d9d80C702AF85C822A8"))
    }
}

/// Objects by `bucket/prefix/name`, shared by a saver and a loader, with a count of calls.
#[derive(Default)]
struct Objects {
    map: HashMap<String, Vec<u8>>,
    calls: usize,
    failing_prefix: Option<String>,
    names_deleted: Vec<String>,
}

#[derive(Clone, Default)]
struct MemStore(Rc<RefCell<Objects>>);

fn key(bucket: &str, prefix: &str, name: &str) -> String {
    format!("{}/{}/{}", bucket, prefix, name)
}

impl MemStore {
    fn calls(&self) -> usize {
        self.0.borrow().calls
    }
    fn fails(&self, prefix: &str) -> bool {
        self.0.borrow().failing_prefix.as_deref() == Some(prefix)
    }
    fn get(&self, bucket: &str, prefix: &str, name: &str) -> Option<Vec<u8>> {
        self.0.borrow().map.get(&key(bucket, prefix, name)).cloned()
    }
    fn put(&self, bucket: &str, prefix: &str, name: &str, v: Vec<u8>) {
        self.0.borrow_mut().map.insert(key(bucket, prefix, name), v);
    }
}

impl Saver for MemStore {
    fn save(&mut self, name: &str, prefix: &str, bucket: &str, buf: Vec<u8>) -> Result<(), StorageError> {
        self.0.borrow_mut().calls += 1;
        if self.fails(prefix) {
            return Err(StorageError::Failed);
        }
        self.put(bucket, prefix, name, buf);
        Ok(())
    }
    fn delete(&mut self, name: &str, prefix: &str, bucket: &str) -> Result<(), StorageError> {
        self.0.borrow_mut().calls += 1;
        if self.fails(prefix) {
            return Err(StorageError::Failed);
        }
        match self.0.borrow_mut().map.remove(&key(bucket, prefix, name)) {
            Some(_) => Ok(()),
            None => Err(StorageError::NotFound),
        }
    }
    fn delete_many(&mut self, names: &[String], prefix: &str, bucket: &str) -> Result<(), StorageError> {
        self.0.borrow_mut().calls += 1;
        for n in names {
            self.0.borrow_mut().map.remove(&key(bucket, prefix, n));
            self.0.borrow_mut().names_deleted.push(n.clone());
        }
        Ok(())
    }
    fn save_tmp(&mut self, bucket: &str, buf: Vec<u8>) -> Result<String, StorageError> {
        self.0.borrow_mut().calls += 1;
        self.put(bucket, "tmp", "upload", buf);
        Ok(String::from("upload"))
    }
}

impl Loader for MemStore {
    fn load(&mut self, name: &str, prefix: &str, bucket: &str) -> Result<Vec<u8>, StorageError> {
        self.0.borrow_mut().calls += 1;
        if self.fails(prefix) {
            return Err(StorageError::Failed);
        }
        self.get(bucket, prefix, name).ok_or(StorageError::NotFound)
    }
}

fn avatars() -> Avatars {
    Avatars { raw: vec![1], x528: vec![2], x264: vec![3], x100: vec![4], x40: vec![5] }
}

#[test]
fn test_264_retrieved_when_528_fails() {
    let uuid = "9e697947-2990-4182-b080-533c16af4799";
    let picture = ExternalFileName::from_uuid_and_display(uuid, &Display::Public);
    let size = String::from("528");
    let mut loader = Backend::new(DummyLoader { retrieve_528: false, name: picture.internal.to_string() });
    let avatar =
        retrieve_avatar_from_store(&settings(), &mut loader, &picture.filename(), &size, None, None)
            .unwrap();
    assert_eq!(avatar.len(), 264);
}

#[test]
fn test_528_retrieved_when_available() {
    let uuid = "9e697947-2990-4182-b080-533c16af4799";
    let picture = ExternalFileName::from_uuid_and_display(uuid, &Display::Public);
    let mut loader = Backend::new(DummyLoader { retrieve_528: true, name: picture.internal.to_string() });
    let size = String::from("528");
    let avatar =
        retrieve_avatar_from_store(&settings(), &mut loader, &picture.filename(), &size, None, None)
            .unwrap();
    assert_eq!(avatar.len(), 528);
}

#[test]
fn test_own_fails_for_wrong_uuid() {
    let uuid = "9e697947-2990-4182-b080-533c16af4799";
    let wrong_uuid = "9e697947-2990-4182-b080-533c16af4790";
    let picture = ExternalFileName::from_uuid_and_display(uuid, &Display::Staff);
    let mut loader = Backend::new(DummyLoader { retrieve_528: true, name: picture.internal.to_string() });
    let size = String::from("528");
    let res = retrieve_avatar_from_store(
        &settings(),
        &mut loader,
        &picture.filename(),
        &size,
        Some(Display::Public),
        Some(wrong_uuid.to_owned()),
    );
    assert_eq!(res.err().unwrap(), RetrieveError::NotFound);
}

#[test]
fn test_own_works() {
    let uuid = "9e697947-2990-4182-b080-533c16af4799";
    let picture = ExternalFileName::from_uuid_and_display(uuid, &Display::Staff);
    let mut loader = Backend::new(DummyLoader { retrieve_528: true, name: picture.internal.to_string() });
    let size = String::from("528");
    let avatar = retrieve_avatar_from_store(
        &settings(),
        &mut loader,
        &picture.filename(),
        &size,
        Some(Display::Public),
        Some(uuid.to_owned()),
    )
    .unwrap();
    assert_eq!(avatar.len(), 528);
}

#[test]
fn staff_sees_vouched_public_does_not_see_staff() {
    let uuid = "someone";
    let vouched = ExternalFileName::from_uuid_and_display(uuid, &Display::Vouched);
    let mut loader = Backend::new(DummyLoader { retrieve_528: true, name: vouched.internal.to_string() });
    let ok = retrieve_avatar_from_store(&settings(), &mut loader, &vouched.filename(), "264", Some(Display::Staff), None);
    assert_eq!(ok.unwrap().len(), 264);
    let staff = ExternalFileName::from_uuid_and_display(uuid, &Display::Staff);
    let mut loader = Backend::new(DummyLoader { retrieve_528: true, name: staff.internal.to_string() });
    let denied = retrieve_avatar_from_store(&settings(), &mut loader, &staff.filename(), "264", Some(Display::Public), None);
    assert_eq!(denied.err(), Some(RetrieveError::NotFound));
}

#[test]
fn missing_sizes_other_than_528_are_not_found() {
    let picture = ExternalFileName::from_uuid_and_display("someone", &Display::Public);
    let mut loader = Backend::new(DummyLoader { retrieve_528: false, name: picture.internal.to_string() });
    let r = retrieve_avatar_from_store(&settings(), &mut loader, &picture.filename(), "100", None, None);
    assert_eq!(r.err(), Some(RetrieveError::NotFound));
    let r = retrieve_avatar_from_store(&settings(), &mut loader, "garbage!.png", "264", None, None);
    assert_eq!(r.err(), Some(RetrieveError::NotFound));
}

#[test]
fn fallback_reads_the_264_object() {
    let store = MemStore::default();
    let picture = ExternalFileName::from_uuid_and_display("someone", &Display::Public);
    store.put("testing", "264", &picture.internal.to_string(), vec![7; 264]);
    let mut loader = Backend::new(store.clone());
    let r = retrieve_avatar_from_store(&settings(), &mut loader, &picture.filename(), "528", Some(Display::Public), None);
    assert_eq!(r.unwrap(), vec![7; 264]);
    assert_eq!(store.calls(), 2);
}

#[test]
fn test_check_resize_store_without_old() {
    let mut saver = Backend::new(DummySaver { delete: true, save: true });
    let uuid = "9e697947-2990-4182-b080-533c16af4799";
    let url = check_resize_store(&settings(), &mut saver, uuid, png(64, 64), &Display::Private, &None)
        .unwrap();
    assert!(url.url.starts_with("https://localhost/api/v666"));
    assert!(url.url.ends_with(".png"));
}

#[test]
fn test_check_resize_store_with_old() {
    let mut saver = Backend::new(DummySaver { delete: true, save: true });
    let uuid = "9e697947-2990-4182-b080-533c16af4799";
    let old_url = Some(String::from(
        "MmU5ODFiODZkNWY3N2Y1NDY2ZWM1NmUyYjQwM2RlYWUyOTI3MGYwMDllOGFmZGE1ODNjZjEyNzQ3YjQ0NzQyNiNzdGFmZiMxNTU0MDQ1OTgz.png",
    ));
    check_resize_store(&settings(), &mut saver, uuid, png(64, 64), &Display::Private, &old_url).unwrap();
}

#[test]
fn upload_replaces_old_picture() {
    let store = MemStore::default();
    let uuid = "owner";
    let old = ExternalFileName::from_uuid_and_display(uuid, &Display::Staff);
    let old_key = old.internal.to_string();
    for p in ["raw", "528", "264", "100", "40"] {
        store.put("testing", p, &old_key, vec![9]);
    }
    let mut saver = Backend::new(store.clone());
    let url = check_resize_store(&settings(), &mut saver, uuid, png(64, 64), &Display::Public, &Some(old.filename()))
        .unwrap();
    assert!(store.get("testing", "264", &old_key).is_none());
    let new = ExternalFileName::from_uri(&url.url["https://localhost/api/v666".len()..]).unwrap();
    assert_eq!(new.internal.uuid_hash, uuid_hash(uuid));
    assert_eq!(new.internal.display, Display::Public);
    let stored = store.get("testing", "40", &new.internal.to_string()).unwrap();
    let img = image::load_from_memory(&stored).unwrap();
    assert_eq!((img.width(), img.height()), (40, 40));
}

#[test]
fn bad_upload_makes_no_calls() {
    let store = MemStore::default();
    let mut saver = Backend::new(store.clone());
    let r = check_resize_store(&settings(), &mut saver, "owner", png(64, 20), &Display::Public, &None);
    assert!(matches!(r, Err(SaveError::Avatar(_))));
    assert_eq!(store.calls(), 0);
}

#[test]
fn save_swallows_best_effort_failures() {
    let store = MemStore::default();
    store.0.borrow_mut().failing_prefix = Some(String::from("528"));
    let mut saver = Backend::new(store.clone());
    assert!(save(avatars(), "pic", "b", &mut saver).is_ok());
    assert_eq!(store.calls(), 5);
    assert_eq!(store.get("b", "40", "pic"), Some(vec![5]));
    assert_eq!(store.get("b", "raw", "pic"), Some(vec![1]));
}

#[test]
fn save_fails_on_mandatory_failure() {
    let store = MemStore::default();
    store.0.borrow_mut().failing_prefix = Some(String::from("100"));
    let mut saver = Backend::new(store.clone());
    assert_eq!(save(avatars(), "pic", "b", &mut saver), Err(StorageError::Failed));
}

#[test]
fn delete_of_absent_variants_succeeds() {
    let store = MemStore::default();
    store.put("b", "264", "pic", vec![1]);
    let mut saver = Backend::new(store.clone());
    assert_eq!(delete("pic", "b", &mut saver), Ok(()));
    assert_eq!(delete("pic", "b", &mut saver), Ok(()));
    assert_eq!(store.calls(), 10);
}

#[test]
fn delete_fails_on_mandatory_failure() {
    let store = MemStore::default();
    store.0.borrow_mut().failing_prefix = Some(String::from("40"));
    let mut saver = Backend::new(store.clone());
    assert_eq!(delete("pic", "b", &mut saver), Err(StorageError::Failed));
    store.0.borrow_mut().failing_prefix = Some(String::from("raw"));
    assert_eq!(delete("pic", "b", &mut saver), Ok(()));
}

#[test]
fn rename_to_same_name_makes_no_calls() {
    let store = MemStore::default();
    let (mut saver, mut loader) = (Backend::new(store.clone()), Backend::new(store.clone()));
    assert_eq!(rename("a", "a", "b", &mut saver, &mut loader), Ok(()));
    assert_eq!(store.calls(), 0);
}

#[test]
fn rename_moves_every_variant() {
    let store = MemStore::default();
    for (i, p) in ["raw", "528", "264", "100", "40"].iter().enumerate() {
        store.put("b", p, "old", vec![i as u8]);
    }
    let (mut saver, mut loader) = (Backend::new(store.clone()), Backend::new(store.clone()));
    assert_eq!(rename("old", "new", "b", &mut saver, &mut loader), Ok(()));
    assert_eq!(store.get("b", "100", "new"), Some(vec![3]));
    assert_eq!(store.get("b", "100", "old"), None);
    assert_eq!(store.calls(), 15);
}

#[test]
fn rename_tolerates_missing_optional_variants() {
    let store = MemStore::default();
    for p in ["264", "100", "40"] {
        store.put("b", p, "old", vec![1]);
    }
    let (mut saver, mut loader) = (Backend::new(store.clone()), Backend::new(store.clone()));
    assert_eq!(rename("old", "new", "b", &mut saver, &mut loader), Ok(()));
    store.put("b", "264", "other", vec![1]);
    assert_eq!(rename("other", "x", "b", &mut saver, &mut loader), Err(StorageError::Failed));
}

#[test]
fn change_level_of_someone_elses_picture_is_refused() {
    let store = MemStore::default();
    let (mut saver, mut loader) = (Backend::new(store.clone()), Backend::new(store.clone()));
    let theirs = ExternalFileName::from_uuid_and_display("them", &Display::Staff);
    let change = ChangeDisplay { display: Display::Public, old_url: theirs.filename() };
    let r = change_display_level(&settings(), &mut loader, &mut saver, "me", &change);
    assert!(matches!(r, Err(SaveError::UuidMismatch)));
    assert_eq!(store.calls(), 0);
}

#[test]
fn change_level_renames_the_variants() {
    let store = MemStore::default();
    let mine = ExternalFileName::from_uuid_and_display("me", &Display::Staff);
    for p in ["raw", "528", "264", "100", "40"] {
        store.put("testing", p, &mine.internal.to_string(), vec![4]);
    }
    let (mut saver, mut loader) = (Backend::new(store.clone()), Backend::new(store.clone()));
    let change = ChangeDisplay { display: Display::Public, old_url: mine.filename() };
    let url = change_display_level(&settings(), &mut loader, &mut saver, "me", &change).unwrap();
    let moved = InternalFileName::from_uuid_and_display("me", &Display::Public).to_string();
    assert_eq!(store.get("testing", "264", &moved), Some(vec![4]));
    let n = ExternalFileName::from_uri(&url.url["https://localhost/api/v666".len()..]).unwrap();
    assert_eq!(n.internal.display, Display::Public);
    let bad = ChangeDisplay { display: Display::Public, old_url: String::from("***") };
    assert!(matches!(
        change_display_level(&settings(), &mut loader, &mut saver, "me", &bad),
        Err(SaveError::InvalidName(_))
    ));
}

#[test]
fn delete_avatar_names_every_level() {
    let store = MemStore::default();
    let mut saver = Backend::new(store.clone());
    assert_eq!(delete_avatar(&settings(), &mut saver, "me"), Ok(()));
    let h = uuid_hash("me");
    let names = store.0.borrow().names_deleted.clone();
    assert_eq!(names.len(), 30);
    assert_eq!(names[0], format!("{}_public.png", h));
    assert_eq!(names[5], format!("{}_private.png", h));
}

#[test]
fn intermediate_upload_is_stored() {
    let store = MemStore::default();
    let mut saver = Backend::new(store.clone());
    assert_eq!(store_intermediate(String::from("b"), &mut saver, vec![1, 2]), Ok(String::from("upload")));
    assert_eq!(store.get("b", "tmp", "upload"), Some(vec![1, 2]));
}

#[test]
fn size_selectors() {
    assert_eq!(default_size(), "264");
    assert_eq!(SizeClass::from_selector("528"), Some(SizeClass::X528));
    assert_eq!(SizeClass::from_selector("raw"), Some(SizeClass::Raw));
    assert_eq!(SizeClass::from_selector("40"), Some(SizeClass::X40));
    assert_eq!(SizeClass::from_selector("41"), None);
    assert!(SizeClass::X100.is_mandatory());
    assert!(!SizeClass::X528.is_mandatory());
}
