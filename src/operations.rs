use crate::resize::Avatars;
use crate::storage::{
    class_at, mandatory, outcome_of, prefix_of, BackendCall, Loader, Outcome, Saver, SizeClass,
    StorageError, Backend,
};
use vstd::prelude::*;

verus! {

/// `after` is `before` with calls appended.
pub open spec fn extends(before: Seq<BackendCall>, after: Seq<BackendCall>) -> bool {
    before.len() <= after.len() && after.subrange(0, before.len() as int) == before
}

/// The calls appended to `before` to reach `after`.
pub open spec fn added(before: Seq<BackendCall>, after: Seq<BackendCall>) -> Seq<BackendCall> {
    after.subrange(before.len() as int, after.len() as int)
}

pub open spec fn outcome_of_call(c: BackendCall) -> Outcome {
    match c {
        BackendCall::Put { outcome, .. } => outcome,
        BackendCall::Get { outcome, .. } => outcome,
        BackendCall::Delete { outcome, .. } => outcome,
        BackendCall::DeleteMany { outcome, .. } => outcome,
        BackendCall::PutTmp { outcome, .. } => outcome,
    }
}

/// The call ended well.
pub open spec fn succeeded(c: BackendCall) -> bool {
    outcome_of_call(c) is Done
}

/// A removal that found nothing to remove counts as done.
pub open spec fn tolerated(c: BackendCall) -> bool {
    !(outcome_of_call(c) is Failed)
}

pub open spec fn is_put(c: BackendCall, name: Seq<char>, prefix: Seq<char>, bucket: Seq<char>, data: Seq<u8>) -> bool {
    match c {
        BackendCall::Put { name: n, prefix: p, bucket: b, data: d, .. } => n == name && p == prefix
            && b == bucket && d == data,
        _ => false,
    }
}

pub open spec fn is_get(c: BackendCall, name: Seq<char>, prefix: Seq<char>, bucket: Seq<char>) -> bool {
    match c {
        BackendCall::Get { name: n, prefix: p, bucket: b, .. } => n == name && p == prefix && b
            == bucket,
        _ => false,
    }
}

pub open spec fn is_delete(c: BackendCall, name: Seq<char>, prefix: Seq<char>, bucket: Seq<char>) -> bool {
    match c {
        BackendCall::Delete { name: n, prefix: p, bucket: b, .. } => n == name && p == prefix && b
            == bucket,
        _ => false,
    }
}

pub open spec fn is_delete_many(
    c: BackendCall,
    names: Seq<Seq<char>>,
    prefix: Seq<char>,
    bucket: Seq<char>,
) -> bool {
    match c {
        BackendCall::DeleteMany { names: n, prefix: p, bucket: b, .. } => n == names && p == prefix
            && b == bucket,
        _ => false,
    }
}

/// Bytes carried by a write.
pub open spec fn put_data(c: BackendCall) -> Seq<u8> {
    match c {
        BackendCall::Put { data, .. } => data,
        _ => Seq::empty(),
    }
}

/// The five calls `cs` remove `name`, one per size class in order.
pub open spec fn deletes_all(cs: Seq<BackendCall>, name: Seq<char>, bucket: Seq<char>) -> bool {
    cs.len() == 5 && forall|k: int|
        0 <= k < 5 ==> is_delete(#[trigger] cs[k], name, prefix_of(class_at(k)), bucket)
}

/// Bytes read by a load.
pub open spec fn loaded_data(c: BackendCall) -> Seq<u8> {
    match c {
        BackendCall::Get { data, .. } => data,
        _ => Seq::empty(),
    }
}

/// The bytes of the variant stored under the `k`-th size class.
pub open spec fn variant_at(a: Avatars, k: int) -> Seq<u8> {
    if k == 0 {
        a.raw@
    } else if k == 1 {
        a.x528@
    } else if k == 2 {
        a.x264@
    } else if k == 3 {
        a.x100@
    } else {
        a.x40@
    }
}

/// Every mandatory size class among the five calls `cs` passes `ok`.
pub open spec fn mandatory_ok(cs: Seq<BackendCall>, tolerate_missing: bool) -> bool {
    forall|k: int|
        0 <= k < 5 && mandatory(class_at(k)) ==> if tolerate_missing {
            tolerated(#[trigger] cs[k])
        } else {
            succeeded(#[trigger] cs[k])
        }
}

/// What is removed: one name, or several at once.
pub enum Removal<'a> {
    One(&'a str),
    Many(&'a [String]),
}

/// `c` is the removal of `target` under `prefix`.
pub open spec fn removes(c: BackendCall, target: Removal, prefix: Seq<char>, bucket: Seq<char>) -> bool {
    match target {
        Removal::One(name) => is_delete(c, name@, prefix, bucket),
        Removal::Many(names) => is_delete_many(c, names@.map_values(|s: String| s@), prefix, bucket),
    }
}

/// Removes `target` under each size class, one after the other; fails only when a mandatory size
/// class could not be cleared. What is already gone counts as removed.
fn remove_each<S: Saver>(target: Removal, bucket: &str, saver: &mut Backend<S>) -> (r: Result<(), StorageError>)
    ensures
        extends(old(saver).calls(), final(saver).calls()),
        added(old(saver).calls(), final(saver).calls()).len() == 5,
        forall|k: int|
            0 <= k < 5 ==> removes(
                #[trigger] added(old(saver).calls(), final(saver).calls())[k],
                target,
                prefix_of(class_at(k)),
                bucket@,
            ),
        r is Ok <==> mandatory_ok(added(old(saver).calls(), final(saver).calls()), true),
{
    let ghost start = saver.calls();
    let mut result: Result<(), StorageError> = Ok(());
    let mut k: usize = 0;
    assert(start.subrange(0, start.len() as int) =~= start);
    while k < 5
        invariant
            0 <= k <= 5,
            extends(start, saver.calls()),
            added(start, saver.calls()).len() == k,
            forall|j: int|
                0 <= j < k ==> removes(
                    #[trigger] added(start, saver.calls())[j],
                    target,
                    prefix_of(class_at(j)),
                    bucket@,
                ),
            result is Ok <==> forall|j: int|
                0 <= j < k && mandatory(class_at(j)) ==> tolerated(
                    #[trigger] added(start, saver.calls())[j],
                ),
        decreases 5 - k,
    {
        let c = SizeClass::class_at(k);
        let ghost before = saver.calls();
        let res = match target {
            Removal::One(name) => saver.delete(name, c.prefix(), bucket),
            Removal::Many(names) => saver.delete_many(names, c.prefix(), bucket),
        };
        proof {
            assert(added(start, saver.calls()) =~= added(start, before).push(saver.calls().last()));
            assert(saver.calls().subrange(0, start.len() as int) =~= start);
        }
        let failed = match res {
            Err(StorageError::Failed) => true,
            _ => false,
        };
        let ghost prev_ok = result is Ok;
        if failed && c.is_mandatory() {
            result = Err(StorageError::Failed);
        }
        proof {
            let cs = added(start, saver.calls());
            assert(tolerated(cs[k as int]) == !failed);
            assert(forall|j: int| 0 <= j < k ==> cs[j] == added(start, before)[j]);
            if result is Ok {
                assert forall|j: int| 0 <= j < k + 1 && mandatory(class_at(j)) implies tolerated(
                    #[trigger] cs[j],
                ) by {
                    if j < k {
                        assert(cs[j] == added(start, before)[j]);
                    }
                }
            } else {
                if prev_ok {
                    assert(mandatory(class_at(k as int)) && !tolerated(cs[k as int]));
                } else {
                    let j0 = choose|j: int|
                        0 <= j < k && mandatory(class_at(j)) && !tolerated(
                            #[trigger] added(start, before)[j],
                        );
                    assert(cs[j0] == added(start, before)[j0]);
                }
            }
        }
        k = k + 1;
    }
    result
}

/// Removes the five variants of `name`, one size class after the other; fails only when a
/// mandatory one could not be removed. A variant that is already gone counts as removed.
pub fn delete<S: Saver>(name: &str, bucket: &str, saver: &mut Backend<S>) -> (r: Result<(), StorageError>)
    ensures
        extends(old(saver).calls(), final(saver).calls()),
        added(old(saver).calls(), final(saver).calls()).len() == 5,
        forall|k: int|
            0 <= k < 5 ==> is_delete(
                #[trigger] added(old(saver).calls(), final(saver).calls())[k],
                name@,
                prefix_of(class_at(k)),
                bucket@,
            ),
        r is Ok <==> mandatory_ok(added(old(saver).calls(), final(saver).calls()), true),
{
    remove_each(Removal::One(name), bucket, saver)
}

/// Removes every name in `names` under each size class; fails only when a mandatory size class
/// could not be cleared.
pub fn delete_many<S: Saver>(names: &[String], bucket: &str, saver: &mut Backend<S>) -> (r: Result<(), StorageError>)
    ensures
        extends(old(saver).calls(), final(saver).calls()),
        added(old(saver).calls(), final(saver).calls()).len() == 5,
        forall|k: int|
            0 <= k < 5 ==> is_delete_many(
                #[trigger] added(old(saver).calls(), final(saver).calls())[k],
                names@.map_values(|s: String| s@),
                prefix_of(class_at(k)),
                bucket@,
            ),
        r is Ok <==> mandatory_ok(added(old(saver).calls(), final(saver).calls()), true),
{
    remove_each(Removal::Many(names), bucket, saver)
}

/// Writes the five variants under `name`; fails only when a mandatory one could not be written.
pub fn save<S: Saver>(avatars: Avatars, name: &str, bucket: &str, saver: &mut Backend<S>) -> (r: Result<(), StorageError>)
    ensures
        extends(old(saver).calls(), final(saver).calls()),
        added(old(saver).calls(), final(saver).calls()).len() == 5,
        forall|k: int|
            0 <= k < 5 ==> is_put(
                #[trigger] added(old(saver).calls(), final(saver).calls())[k],
                name@,
                prefix_of(class_at(k)),
                bucket@,
                variant_at(avatars, k),
            ),
        r is Ok <==> mandatory_ok(added(old(saver).calls(), final(saver).calls()), false),
{
    let ghost start = saver.calls();
    let ghost a = avatars;
    let Avatars { raw, x528, x264, x100, x40 } = avatars;
    let r0 = saver.save(name, SizeClass::Raw.prefix(), bucket, raw);
    let r1 = saver.save(name, SizeClass::X528.prefix(), bucket, x528);
    let r2 = saver.save(name, SizeClass::X264.prefix(), bucket, x264);
    let r3 = saver.save(name, SizeClass::X100.prefix(), bucket, x100);
    let r4 = saver.save(name, SizeClass::X40.prefix(), bucket, x40);
    let ghost cs = added(start, saver.calls());
    proof {
        assert(saver.calls().subrange(0, start.len() as int) =~= start);
        assert(cs.len() == 5);
        assert(cs[2] == saver.calls()[start.len() as int + 2]);
        assert(succeeded(cs[2]) == r2.is_ok());
        assert(succeeded(cs[3]) == r3.is_ok());
        assert(succeeded(cs[4]) == r4.is_ok());
        assert(is_put(cs[0], name@, prefix_of(class_at(0)), bucket@, variant_at(a, 0)));
        assert(is_put(cs[1], name@, prefix_of(class_at(1)), bucket@, variant_at(a, 1)));
        assert(is_put(cs[2], name@, prefix_of(class_at(2)), bucket@, variant_at(a, 2)));
        assert(is_put(cs[3], name@, prefix_of(class_at(3)), bucket@, variant_at(a, 3)));
        assert(is_put(cs[4], name@, prefix_of(class_at(4)), bucket@, variant_at(a, 4)));
    }
    if r2.is_ok() && r3.is_ok() && r4.is_ok() {
        Ok(())
    } else {
        Err(StorageError::Failed)
    }
}

/// All the groups of calls, one after the other.
pub open spec fn concat_all(parts: Seq<Seq<BackendCall>>) -> Seq<BackendCall>
    decreases parts.len(),
{
    if parts.len() == 0 {
        Seq::empty()
    } else {
        concat_all(parts.drop_last()) + parts.last()
    }
}

/// Moving one size class: load under the old name; if that worked, write under the new name;
/// if that worked too, remove the old object. `ns` are the writes and removals.
pub open spec fn moved_one(
    get: BackendCall,
    ns: Seq<BackendCall>,
    old_name: Seq<char>,
    new_name: Seq<char>,
    prefix: Seq<char>,
    bucket: Seq<char>,
) -> bool {
    &&& is_get(get, old_name, prefix, bucket)
    &&& if !succeeded(get) {
        ns.len() == 0
    } else {
        &&& ns.len() >= 1
        &&& is_put(ns[0], new_name, prefix, bucket, loaded_data(get))
        &&& if !succeeded(ns[0]) {
            ns.len() == 1
        } else {
            ns.len() == 2 && is_delete(ns[1], old_name, prefix, bucket)
        }
    }
}

/// The load and the write worked, and the old object is gone.
pub open spec fn move_succeeded(get: BackendCall, ns: Seq<BackendCall>) -> bool {
    succeeded(get) && ns.len() == 2 && succeeded(ns[0]) && tolerated(ns[1])
}

/// Moves one size class of a picture from `old_name` to `new_name`.
pub fn rename_one<S: Saver, L: Loader>(
    old_name: &str,
    new_name: &str,
    size: SizeClass,
    bucket: &str,
    saver: &mut Backend<S>,
    loader: &mut Backend<L>,
) -> (r: Result<(), StorageError>)
    ensures
        extends(old(loader).calls(), final(loader).calls()),
        added(old(loader).calls(), final(loader).calls()).len() == 1,
        extends(old(saver).calls(), final(saver).calls()),
        moved_one(
            added(old(loader).calls(), final(loader).calls())[0],
            added(old(saver).calls(), final(saver).calls()),
            old_name@,
            new_name@,
            prefix_of(size),
            bucket@,
        ),
        r is Ok <==> move_succeeded(
            added(old(loader).calls(), final(loader).calls())[0],
            added(old(saver).calls(), final(saver).calls()),
        ),
{
    let ghost s0 = saver.calls();
    let ghost l0 = loader.calls();
    let prefix = size.prefix();
    let loaded = loader.load(old_name, prefix, bucket);
    proof {
        assert(loader.calls().subrange(0, l0.len() as int) =~= l0);
        assert(added(l0, loader.calls())[0] == loader.calls().last());
        assert(s0.subrange(0, s0.len() as int) =~= s0);
        assert(added(s0, saver.calls()) =~= Seq::<BackendCall>::empty());
    }
    let buf = match loaded {
        Ok(b) => b,
        Err(e) => return Err(e),
    };
    let ghost data = buf@;
    let saved = saver.save(new_name, prefix, bucket, buf);
    proof {
        assert(saver.calls().subrange(0, s0.len() as int) =~= s0);
        assert(added(s0, saver.calls()) =~= seq![saver.calls().last()]);
    }
    match saved {
        Ok(_) => {},
        Err(e) => return Err(e),
    }
    let ghost s1 = saver.calls();
    let removed = saver.delete(old_name, prefix, bucket);
    proof {
        assert(saver.calls().subrange(0, s0.len() as int) =~= s0);
        assert(added(s0, saver.calls()) =~= seq![s1.last(), saver.calls().last()]);
    }
    match removed {
        Err(StorageError::Failed) => Err(StorageError::Failed),
        _ => Ok(()),
    }
}

/// What moving a picture from `old_name` to `new_name` did to the saver's calls (from `s0` to
/// `s1`) and the loader's (from `l0` to `l1`), and whether it succeeded (`ok`): nothing at all for
/// equal names; otherwise one load per size class, and per size class the moves of `moved_one`.
/// It succeeded when every mandatory size class was moved.
pub open spec fn renamed(
    s0: Seq<BackendCall>,
    s1: Seq<BackendCall>,
    l0: Seq<BackendCall>,
    l1: Seq<BackendCall>,
    old_name: Seq<char>,
    new_name: Seq<char>,
    bucket: Seq<char>,
    ok: bool,
) -> bool {
    if old_name == new_name {
        ok && s1 == s0 && l1 == l0
    } else {
        let gets = added(l0, l1);
        &&& extends(l0, l1)
        &&& extends(s0, s1)
        &&& gets.len() == 5
        &&& exists|parts: Seq<Seq<BackendCall>>|
            {
                &&& parts.len() == 5
                &&& added(s0, s1) == #[trigger] concat_all(parts)
                &&& forall|k: int|
                    0 <= k < 5 ==> moved_one(
                        gets[k],
                        #[trigger] parts[k],
                        old_name,
                        new_name,
                        prefix_of(class_at(k)),
                        bucket,
                    )
                &&& (ok <==> forall|k: int|
                    0 <= k < 5 && mandatory(class_at(k)) ==> move_succeeded(
                        gets[k],
                        #[trigger] parts[k],
                    ))
            }
    }
}

/// Moves all five variants of a picture from `old_name` to `new_name`; nothing happens when the
/// names are equal. Fails only when a mandatory variant could not be moved.
pub fn rename<S: Saver, L: Loader>(
    old_name: &str,
    new_name: &str,
    bucket: &str,
    saver: &mut Backend<S>,
    loader: &mut Backend<L>,
) -> (r: Result<(), StorageError>)
    ensures
        renamed(
            old(saver).calls(),
            final(saver).calls(),
            old(loader).calls(),
            final(loader).calls(),
            old_name@,
            new_name@,
            bucket@,
            r is Ok,
        ),
{
    if crate::visibility::str_eq(old_name, new_name) {
        return Ok(());
    }
    let ghost s0 = saver.calls();
    let ghost l0 = loader.calls();
    let ghost mut parts: Seq<Seq<BackendCall>> = Seq::empty();
    let mut result: Result<(), StorageError> = Ok(());
    let mut k: usize = 0;
    assert(s0.subrange(0, s0.len() as int) =~= s0);
    assert(l0.subrange(0, l0.len() as int) =~= l0);
    assert(added(s0, s0) =~= concat_all(parts));
    while k < 5
        invariant
            0 <= k <= 5,
            extends(s0, saver.calls()),
            extends(l0, loader.calls()),
            added(l0, loader.calls()).len() == k,
            parts.len() == k,
            added(s0, saver.calls()) == concat_all(parts),
            forall|j: int|
                0 <= j < k ==> moved_one(
                    added(l0, loader.calls())[j],
                    #[trigger] parts[j],
                    old_name@,
                    new_name@,
                    prefix_of(class_at(j)),
                    bucket@,
                ),
            result is Ok <==> forall|j: int|
                0 <= j < k && mandatory(class_at(j)) ==> move_succeeded(
                    added(l0, loader.calls())[j],
                    #[trigger] parts[j],
                ),
        decreases 5 - k,
    {
        let c = SizeClass::class_at(k);
        let ghost sb = saver.calls();
        let ghost lb = loader.calls();
        let ghost pb = parts;
        let res = rename_one(old_name, new_name, c, bucket, saver, loader);
        let ghost part = added(sb, saver.calls());
        proof {
            parts = parts.push(part);
            assert(parts.drop_last() =~= pb);
            assert(saver.calls().subrange(0, s0.len() as int) =~= s0);
            assert(loader.calls().subrange(0, l0.len() as int) =~= l0);
            assert(added(s0, saver.calls()) =~= added(s0, sb) + part);
            assert(added(l0, loader.calls()) =~= added(l0, lb).push(added(lb, loader.calls())[0]));
        }
        let ghost prev_ok = result is Ok;
        if res.is_err() && c.is_mandatory() {
            result = Err(StorageError::Failed);
        }
        proof {
            let gets = added(l0, loader.calls());
            assert(forall|j: int| 0 <= j < k ==> gets[j] == added(l0, lb)[j]);
            assert(forall|j: int| 0 <= j < k ==> parts[j] == pb[j]);
            assert(parts[k as int] == part);
            if result is Ok {
                assert forall|j: int| 0 <= j < k + 1 && mandatory(class_at(j)) implies move_succeeded(
                    gets[j],
                    #[trigger] parts[j],
                ) by {
                    if j < k {
                        assert(gets[j] == added(l0, lb)[j]);
                        assert(parts[j] == pb[j]);
                    }
                }
            } else {
                if prev_ok {
                    assert(mandatory(class_at(k as int)) && !move_succeeded(gets[k as int], parts[k as int]));
                } else {
                    let j0 = choose|j: int|
                        0 <= j < k && mandatory(class_at(j)) && !move_succeeded(
                            added(l0, lb)[j],
                            #[trigger] pb[j],
                        );
                    assert(gets[j0] == added(l0, lb)[j0]);
                    assert(parts[j0] == pb[j0]);
                }
            }
        }
        k = k + 1;
    }
    result
}

} // verus!
