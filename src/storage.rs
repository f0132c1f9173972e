use vstd::prelude::*;

verus! {

/// Failure reported by a storage backend.
#[derive(Clone, Copy, Debug, PartialEq, Eq, Structural)]
pub enum StorageError {
    /// No object under that key.
    NotFound,
    /// Any other failure.
    Failed,
}

/// How a backend call ended.
pub enum Outcome {
    Done,
    Missing,
    Failed,
}

pub open spec fn outcome_of<T>(r: Result<T, StorageError>) -> Outcome {
    match r {
        Ok(_) => Outcome::Done,
        Err(StorageError::NotFound) => Outcome::Missing,
        Err(StorageError::Failed) => Outcome::Failed,
    }
}

/// The bytes that a load returned; nothing when it failed.
pub open spec fn loaded_view(r: Result<Vec<u8>, StorageError>) -> Seq<u8> {
    match r {
        Ok(v) => v@,
        Err(_) => Seq::empty(),
    }
}

/// One call made on a backend, with its arguments and how it ended.
pub enum BackendCall {
    Put { name: Seq<char>, prefix: Seq<char>, bucket: Seq<char>, data: Seq<u8>, outcome: Outcome },
    Get { name: Seq<char>, prefix: Seq<char>, bucket: Seq<char>, data: Seq<u8>, outcome: Outcome },
    Delete { name: Seq<char>, prefix: Seq<char>, bucket: Seq<char>, outcome: Outcome },
    DeleteMany {
        names: Seq<Seq<char>>,
        prefix: Seq<char>,
        bucket: Seq<char>,
        outcome: Outcome,
    },
    PutTmp { bucket: Seq<char>, data: Seq<u8>, outcome: Outcome },
}

/// Writes and removes objects, each under a bucket, a size prefix and a name.
pub trait Saver {
    fn save(&mut self, name: &str, prefix: &str, bucket: &str, buf: Vec<u8>) -> Result<(), StorageError>;

    fn delete(&mut self, name: &str, prefix: &str, bucket: &str) -> Result<(), StorageError>;

    fn delete_many(&mut self, names: &[String], prefix: &str, bucket: &str) -> Result<(), StorageError>;

    /// Stores an upload under a fresh name, which it returns.
    fn save_tmp(&mut self, bucket: &str, buf: Vec<u8>) -> Result<String, StorageError>;
}

/// Reads objects, each under a bucket, a size prefix and a name.
pub trait Loader {
    fn load(&mut self, name: &str, prefix: &str, bucket: &str) -> Result<Vec<u8>, StorageError>;
}

/// A storage backend together with the record of every call made through it.
pub struct Backend<B> {
    pub inner: B,
    pub history: Ghost<Seq<BackendCall>>,
}

impl<B> Backend<B> {
    /// Every call made through this backend so far, oldest first.
    pub open spec fn calls(&self) -> Seq<BackendCall> {
        self.history@
    }

    pub fn new(inner: B) -> (r: Self)
        ensures
            r.inner == inner,
            r.calls() == Seq::<BackendCall>::empty(),
    {
        Backend { inner, history: Ghost(Seq::empty()) }
    }
}

impl<B: Saver> Backend<B> {
    pub fn save(&mut self, name: &str, prefix: &str, bucket: &str, buf: Vec<u8>) -> (r: Result<
        (),
        StorageError,
    >)
        ensures
            final(self).calls() == old(self).calls().push(
                BackendCall::Put {
                    name: name@,
                    prefix: prefix@,
                    bucket: bucket@,
                    data: buf@,
                    outcome: outcome_of(r),
                },
            ),
    {
        let ghost data = buf@;
        let r = self.inner.save(name, prefix, bucket, buf);
        self.history = Ghost(
            self.history@.push(
                BackendCall::Put {
                    name: name@,
                    prefix: prefix@,
                    bucket: bucket@,
                    data: data,
                    outcome: outcome_of(r),
                },
            ),
        );
        r
    }

    pub fn delete(&mut self, name: &str, prefix: &str, bucket: &str) -> (r: Result<(), StorageError>)
        ensures
            final(self).calls() == old(self).calls().push(
                BackendCall::Delete {
                    name: name@,
                    prefix: prefix@,
                    bucket: bucket@,
                    outcome: outcome_of(r),
                },
            ),
    {
        let r = self.inner.delete(name, prefix, bucket);
        self.history = Ghost(
            self.history@.push(
                BackendCall::Delete {
                    name: name@,
                    prefix: prefix@,
                    bucket: bucket@,
                    outcome: outcome_of(r),
                },
            ),
        );
        r
    }

    pub fn delete_many(&mut self, names: &[String], prefix: &str, bucket: &str) -> (r: Result<
        (),
        StorageError,
    >)
        ensures
            final(self).calls() == old(self).calls().push(
                BackendCall::DeleteMany {
                    names: names@.map_values(|s: String| s@),
                    prefix: prefix@,
                    bucket: bucket@,
                    outcome: outcome_of(r),
                },
            ),
    {
        let r = self.inner.delete_many(names, prefix, bucket);
        self.history = Ghost(
            self.history@.push(
                BackendCall::DeleteMany {
                    names: names@.map_values(|s: String| s@),
                    prefix: prefix@,
                    bucket: bucket@,
                    outcome: outcome_of(r),
                },
            ),
        );
        r
    }

    pub fn save_tmp(&mut self, bucket: &str, buf: Vec<u8>) -> (r: Result<String, StorageError>)
        ensures
            final(self).calls() == old(self).calls().push(
                BackendCall::PutTmp { bucket: bucket@, data: buf@, outcome: outcome_of(r) },
            ),
    {
        let ghost data = buf@;
        let r = self.inner.save_tmp(bucket, buf);
        self.history = Ghost(
            self.history@.push(BackendCall::PutTmp { bucket: bucket@, data: data, outcome: outcome_of(r) }),
        );
        r
    }
}

impl<B: Loader> Backend<B> {
    pub fn load(&mut self, name: &str, prefix: &str, bucket: &str) -> (r: Result<Vec<u8>, StorageError>)
        ensures
            final(self).calls() == old(self).calls().push(
                BackendCall::Get {
                    name: name@,
                    prefix: prefix@,
                    bucket: bucket@,
                    data: loaded_view(r),
                    outcome: outcome_of(r),
                },
            ),
    {
        let r = self.inner.load(name, prefix, bucket);
        self.history = Ghost(
            self.history@.push(
                BackendCall::Get {
                    name: name@,
                    prefix: prefix@,
                    bucket: bucket@,
                    data: loaded_view(r),
                    outcome: outcome_of(r),
                },
            ),
        );
        r
    }
}

/// The size classes under which each picture is stored.
#[derive(Clone, Copy, Debug, PartialEq, Eq, Structural)]
pub enum SizeClass {
    Raw,
    X528,
    X264,
    X100,
    X40,
}

/// Storage prefix of a size class, which is also its selector on the wire.
pub open spec fn prefix_of(c: SizeClass) -> Seq<char> {
    match c {
        SizeClass::Raw => seq!['r', 'a', 'w'],
        SizeClass::X528 => seq!['5', '2', '8'],
        SizeClass::X264 => seq!['2', '6', '4'],
        SizeClass::X100 => seq!['1', '0', '0'],
        SizeClass::X40 => seq!['4', '0'],
    }
}

/// The three core sizes must be written; the uploaded file and the largest size are best effort.
pub open spec fn mandatory(c: SizeClass) -> bool {
    c == SizeClass::X264 || c == SizeClass::X100 || c == SizeClass::X40
}

/// The order in which size classes are handled.
pub open spec fn class_at(k: int) -> SizeClass {
    if k == 0 {
        SizeClass::Raw
    } else if k == 1 {
        SizeClass::X528
    } else if k == 2 {
        SizeClass::X264
    } else if k == 3 {
        SizeClass::X100
    } else {
        SizeClass::X40
    }
}

/// The size class whose selector is `s`, if any.
pub open spec fn class_of_selector(s: Seq<char>) -> Option<SizeClass> {
    if s == prefix_of(SizeClass::Raw) {
        Some(SizeClass::Raw)
    } else if s == prefix_of(SizeClass::X528) {
        Some(SizeClass::X528)
    } else if s == prefix_of(SizeClass::X264) {
        Some(SizeClass::X264)
    } else if s == prefix_of(SizeClass::X100) {
        Some(SizeClass::X100)
    } else if s == prefix_of(SizeClass::X40) {
        Some(SizeClass::X40)
    } else {
        None
    }
}

/// Distinct size classes have distinct prefixes.
pub proof fn lemma_prefixes_distinct(a: SizeClass, b: SizeClass)
    ensures
        prefix_of(a) == prefix_of(b) ==> a == b,
{
    let pa = prefix_of(a);
    let pb = prefix_of(b);
    if pa == pb {
        assert(pa.len() == pb.len());
        assert(pa[0] == pb[0]);
        assert(pa[1] == pb[1]);
    }
}

impl SizeClass {
    pub fn class_at(k: usize) -> (r: SizeClass)
        requires
            k < 5,
        ensures
            r == class_at(k as int),
    {
        if k == 0 {
            SizeClass::Raw
        } else if k == 1 {
            SizeClass::X528
        } else if k == 2 {
            SizeClass::X264
        } else if k == 3 {
            SizeClass::X100
        } else {
            SizeClass::X40
        }
    }

    /// Storage prefix and wire selector of the class.
    pub fn prefix(&self) -> (r: &'static str)
        ensures
            r@ == prefix_of(*self),
    {
        proof {
            reveal_strlit("raw");
            reveal_strlit("528");
            reveal_strlit("264");
            reveal_strlit("100");
            reveal_strlit("40");
        }
        match self {
            SizeClass::Raw => "raw",
            SizeClass::X528 => "528",
            SizeClass::X264 => "264",
            SizeClass::X100 => "100",
            SizeClass::X40 => "40",
        }
    }

    pub fn is_mandatory(&self) -> (r: bool)
        ensures
            r == mandatory(*self),
    {
        match self {
            SizeClass::X264 | SizeClass::X100 | SizeClass::X40 => true,
            _ => false,
        }
    }

    /// The class selected by `s` on the wire: `"raw"`, `"528"`, `"264"`, `"100"` or `"40"`.
    pub fn from_selector(s: &str) -> (r: Option<SizeClass>)
        ensures
            r == class_of_selector(s@),
    {
        let mut k: usize = 0;
        while k < 5
            invariant
                0 <= k <= 5,
                forall|j: int| 0 <= j < k ==> s@ != prefix_of(#[trigger] class_at(j)),
            decreases 5 - k,
        {
            let c = SizeClass::class_at(k);
            if crate::visibility::str_eq(s, c.prefix()) {
                proof {
                    assert(prefix_of(class_at(0)) != prefix_of(class_at(1))) by {
                        lemma_prefixes_distinct(class_at(0), class_at(1));
                    }
                    lemma_prefixes_distinct(c, SizeClass::Raw);
                    lemma_prefixes_distinct(c, SizeClass::X528);
                    lemma_prefixes_distinct(c, SizeClass::X264);
                    lemma_prefixes_distinct(c, SizeClass::X100);
                }
                return Some(c);
            }
            k = k + 1;
        }
        proof {
            assert(s@ != prefix_of(class_at(0)));
            assert(s@ != prefix_of(class_at(1)));
            assert(s@ != prefix_of(class_at(2)));
            assert(s@ != prefix_of(class_at(3)));
            assert(s@ != prefix_of(class_at(4)));
        }
        None
    }
}

} // verus!
