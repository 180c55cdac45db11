//! A map that holds at most one value of each type and hands out references
//! to several of its values at once.
//!
//! What a value is, and which type it has, is known only at run time: the
//! boxes and the std calls that make and open them are trusted items below.
use std::any::TypeId;
use std::collections::HashMap;
use vstd::prelude::*;

verus! {

#[verifier::external_type_specification]
#[verifier::external_body]
pub struct ExTypeId(std::any::TypeId);

/// A value of a type known only at run time: a `Box<dyn Any>`, which Verus
/// cannot name.
#[verifier::external_body]
pub struct AnyBox(Box<dyn std::any::Any>);

/// std's `TypeId::of`.
#[verifier::external_body]
fn type_id_of<T: 'static>() -> TypeId {
    TypeId::of::<T>()
}

/// std's `Box::new`, boxing a value of type `T` as a `dyn Any`.
#[verifier::external_body]
fn box_any<T: 'static>(v: T) -> AnyBox {
    AnyBox(Box::new(v))
}

/// std's `Box::<dyn Any>::downcast`: the value if it has type `T`.
#[verifier::external_body]
fn unbox<T: 'static>(b: AnyBox) -> Option<T> {
    b.0.downcast::<T>().ok().map(|v| *v)
}

/// std's `<dyn Any>::downcast_ref`: the value if it has type `T`.
#[verifier::external_body]
fn as_ref_of<'m, T: 'static>(b: &'m mut AnyBox) -> Option<&'m T> {
    let b: &'m AnyBox = b;
    b.0.downcast_ref::<T>()
}

/// std's `<dyn Any>::downcast_mut`: the value if it has type `T`.
#[verifier::external_body]
fn as_mut_of<'m, T: 'static>(b: &'m mut AnyBox) -> Option<&'m mut T> {
    b.0.downcast_mut::<T>()
}

/// std's `TypeId` equality: whether two ids are of the same type, which is
/// when they are the same value.
#[verifier::external_body]
fn same_type(a: &TypeId, b: &TypeId) -> (r: bool)
    ensures
        r == (*a == *b),
{
    *a == *b
}

/// std's `HashMap::get_disjoint_mut` for 1 key. It hands out references to
/// values only, so the keys the map holds stay as they were.
#[verifier::external_body]
fn slots1<'m>(m: &'m mut HashMap<TypeId, AnyBox>, k0: TypeId) -> (r: (Option<&'m mut AnyBox>,))
    ensures
        type_keys(*final(m)) == type_keys(*old(m)),
{
    let [s0] = m.get_disjoint_mut([&k0]);
    (s0,)
}

/// std's `HashMap::get_disjoint_mut` for 2 keys, which are all different:
/// it panics when two keys are the same. It hands out references to values
/// only, so the keys the map holds stay as they were.
#[verifier::external_body]
fn slots2<'m>(m: &'m mut HashMap<TypeId, AnyBox>, k0: TypeId, k1: TypeId) -> (r: (Option<&'m mut AnyBox>, Option<&'m mut AnyBox>))
    requires
        k0 != k1,
    ensures
        type_keys(*final(m)) == type_keys(*old(m)),
{
    let [s0, s1] = m.get_disjoint_mut([&k0, &k1]);
    (s0, s1)
}

/// std's `HashMap::get_disjoint_mut` for 3 keys, which are all different:
/// it panics when two keys are the same. It hands out references to values
/// only, so the keys the map holds stay as they were.
#[verifier::external_body]
fn slots3<'m>(m: &'m mut HashMap<TypeId, AnyBox>, k0: TypeId, k1: TypeId, k2: TypeId) -> (r: (Option<&'m mut AnyBox>, Option<&'m mut AnyBox>, Option<&'m mut AnyBox>))
    requires
        k0 != k1,
        k0 != k2,
        k1 != k2,
    ensures
        type_keys(*final(m)) == type_keys(*old(m)),
{
    let [s0, s1, s2] = m.get_disjoint_mut([&k0, &k1, &k2]);
    (s0, s1, s2)
}

/// std's `HashMap::get_disjoint_mut` for 4 keys, which are all different:
/// it panics when two keys are the same. It hands out references to values
/// only, so the keys the map holds stay as they were.
#[verifier::external_body]
fn slots4<'m>(m: &'m mut HashMap<TypeId, AnyBox>, k0: TypeId, k1: TypeId, k2: TypeId, k3: TypeId) -> (r: (Option<&'m mut AnyBox>, Option<&'m mut AnyBox>, Option<&'m mut AnyBox>, Option<&'m mut AnyBox>))
    requires
        k0 != k1,
        k0 != k2,
        k0 != k3,
        k1 != k2,
        k1 != k3,
        k2 != k3,
    ensures
        type_keys(*final(m)) == type_keys(*old(m)),
{
    let [s0, s1, s2, s3] = m.get_disjoint_mut([&k0, &k1, &k2, &k3]);
    (s0, s1, s2, s3)
}

/// std's `HashMap::get_disjoint_mut` for 5 keys, which are all different:
/// it panics when two keys are the same. It hands out references to values
/// only, so the keys the map holds stay as they were.
#[verifier::external_body]
fn slots5<'m>(m: &'m mut HashMap<TypeId, AnyBox>, k0: TypeId, k1: TypeId, k2: TypeId, k3: TypeId, k4: TypeId) -> (r: (Option<&'m mut AnyBox>, Option<&'m mut AnyBox>, Option<&'m mut AnyBox>, Option<&'m mut AnyBox>, Option<&'m mut AnyBox>))
    requires
        k0 != k1,
        k0 != k2,
        k0 != k3,
        k0 != k4,
        k1 != k2,
        k1 != k3,
        k1 != k4,
        k2 != k3,
        k2 != k4,
        k3 != k4,
    ensures
        type_keys(*final(m)) == type_keys(*old(m)),
{
    let [s0, s1, s2, s3, s4] = m.get_disjoint_mut([&k0, &k1, &k2, &k3, &k4]);
    (s0, s1, s2, s3, s4)
}

/// std's `HashMap::get_disjoint_mut` for 6 keys, which are all different:
/// it panics when two keys are the same. It hands out references to values
/// only, so the keys the map holds stay as they were.
#[verifier::external_body]
fn slots6<'m>(m: &'m mut HashMap<TypeId, AnyBox>, k0: TypeId, k1: TypeId, k2: TypeId, k3: TypeId, k4: TypeId, k5: TypeId) -> (r: (Option<&'m mut AnyBox>, Option<&'m mut AnyBox>, Option<&'m mut AnyBox>, Option<&'m mut AnyBox>, Option<&'m mut AnyBox>, Option<&'m mut AnyBox>))
    requires
        k0 != k1,
        k0 != k2,
        k0 != k3,
        k0 != k4,
        k0 != k5,
        k1 != k2,
        k1 != k3,
        k1 != k4,
        k1 != k5,
        k2 != k3,
        k2 != k4,
        k2 != k5,
        k3 != k4,
        k3 != k5,
        k4 != k5,
    ensures
        type_keys(*final(m)) == type_keys(*old(m)),
{
    let [s0, s1, s2, s3, s4, s5] = m.get_disjoint_mut([&k0, &k1, &k2, &k3, &k4, &k5]);
    (s0, s1, s2, s3, s4, s5)
}

/// std's `HashMap::get_disjoint_mut` for 7 keys, which are all different:
/// it panics when two keys are the same. It hands out references to values
/// only, so the keys the map holds stay as they were.
#[verifier::external_body]
fn slots7<'m>(m: &'m mut HashMap<TypeId, AnyBox>, k0: TypeId, k1: TypeId, k2: TypeId, k3: TypeId, k4: TypeId, k5: TypeId, k6: TypeId) -> (r: (Option<&'m mut AnyBox>, Option<&'m mut AnyBox>, Option<&'m mut AnyBox>, Option<&'m mut AnyBox>, Option<&'m mut AnyBox>, Option<&'m mut AnyBox>, Option<&'m mut AnyBox>))
    requires
        k0 != k1,
        k0 != k2,
        k0 != k3,
        k0 != k4,
        k0 != k5,
        k0 != k6,
        k1 != k2,
        k1 != k3,
        k1 != k4,
        k1 != k5,
        k1 != k6,
        k2 != k3,
        k2 != k4,
        k2 != k5,
        k2 != k6,
        k3 != k4,
        k3 != k5,
        k3 != k6,
        k4 != k5,
        k4 != k6,
        k5 != k6,
    ensures
        type_keys(*final(m)) == type_keys(*old(m)),
{
    let [s0, s1, s2, s3, s4, s5, s6] = m.get_disjoint_mut([&k0, &k1, &k2, &k3, &k4, &k5, &k6]);
    (s0, s1, s2, s3, s4, s5, s6)
}

/// std's `HashMap::get_disjoint_mut` for 8 keys, which are all different:
/// it panics when two keys are the same. It hands out references to values
/// only, so the keys the map holds stay as they were.
#[verifier::external_body]
fn slots8<'m>(m: &'m mut HashMap<TypeId, AnyBox>, k0: TypeId, k1: TypeId, k2: TypeId, k3: TypeId, k4: TypeId, k5: TypeId, k6: TypeId, k7: TypeId) -> (r: (Option<&'m mut AnyBox>, Option<&'m mut AnyBox>, Option<&'m mut AnyBox>, Option<&'m mut AnyBox>, Option<&'m mut AnyBox>, Option<&'m mut AnyBox>, Option<&'m mut AnyBox>, Option<&'m mut AnyBox>))
    requires
        k0 != k1,
        k0 != k2,
        k0 != k3,
        k0 != k4,
        k0 != k5,
        k0 != k6,
        k0 != k7,
        k1 != k2,
        k1 != k3,
        k1 != k4,
        k1 != k5,
        k1 != k6,
        k1 != k7,
        k2 != k3,
        k2 != k4,
        k2 != k5,
        k2 != k6,
        k2 != k7,
        k3 != k4,
        k3 != k5,
        k3 != k6,
        k3 != k7,
        k4 != k5,
        k4 != k6,
        k4 != k7,
        k5 != k6,
        k5 != k7,
        k6 != k7,
    ensures
        type_keys(*final(m)) == type_keys(*old(m)),
{
    let [s0, s1, s2, s3, s4, s5, s6, s7] = m.get_disjoint_mut([&k0, &k1, &k2, &k3, &k4, &k5, &k6, &k7]);
    (s0, s1, s2, s3, s4, s5, s6, s7)
}

/// The types whose values a map of boxes holds, by their ids.
pub uninterp spec fn type_keys(m: HashMap<TypeId, AnyBox>) -> Set<TypeId>;

/// std's `HashMap::new`: a map that holds nothing.
#[verifier::external_body]
fn map_new() -> (m: HashMap<TypeId, AnyBox>)
    ensures
        type_keys(m) == Set::<TypeId>::empty(),
{
    HashMap::new()
}

/// std's `HashMap::insert`: the key is held afterwards, with the new value
/// in place of any before.
#[verifier::external_body]
fn map_insert(m: &mut HashMap<TypeId, AnyBox>, k: TypeId, v: AnyBox)
    ensures
        type_keys(*final(m)) == type_keys(*old(m)).insert(k),
{
    m.insert(k, v);
}

/// std's `HashMap::remove`: the value of the key if the map held one; the
/// key is not held afterwards.
#[verifier::external_body]
fn map_remove(m: &mut HashMap<TypeId, AnyBox>, k: &TypeId) -> (r: Option<AnyBox>)
    ensures
        type_keys(*final(m)) == type_keys(*old(m)).remove(*k),
        r is Some == type_keys(*old(m)).contains(*k),
{
    m.remove(k)
}

pub struct TypeMap {
    map: HashMap<TypeId, AnyBox>,
}

impl TypeMap {
    /// The types whose values the map holds, by their ids. Which id a type
    /// has is known only at run time.
    pub closed spec fn keys(&self) -> Set<TypeId> {
        type_keys(self.map)
    }

    pub fn new() -> (m: Self)
        ensures
            m.keys() == Set::<TypeId>::empty(),
    {
        TypeMap { map: map_new() }
    }

    /// Keeps `value` as the value of its type, in place of any before: the
    /// map holds one type more, or the same types when it held this one.
    pub fn insert<T: 'static>(&mut self, value: T)
        ensures
            exists|k: TypeId| final(self).keys() == old(self).keys().insert(k),
    {
        let key = type_id_of::<T>();
        let boxed = box_any(value);
        map_insert(&mut self.map, key, boxed);
        assert(self.keys() == old(self).keys().insert(key));
    }

    /// Takes out the value of type `T`; `None` when there is none. A value
    /// that comes out is one type fewer in the map; an empty map gives
    /// `None`.
    pub fn remove<T: 'static>(&mut self) -> (r: Option<T>)
        ensures
            exists|k: TypeId| final(self).keys() == old(self).keys().remove(k) && (r is Some ==> old(
                self,
            ).keys().contains(k)),
            old(self).keys() == Set::<TypeId>::empty() ==> r is None && final(self).keys() == old(
                self,
            ).keys(),
    {
        let key = type_id_of::<T>();
        let ghost before = self.keys();
        let removed = map_remove(&mut self.map, &key);
        proof {
            if before == Set::<TypeId>::empty() {
                assert(before.remove(key) =~= before);
            }
        }
        match removed {
            Some(b) => unbox::<T>(b),
            None => None,
        }
    }

    /// References to the values that `F` names: one type, or a tuple of
    /// different types; `None` when one of them is missing or when the tuple
    /// names a type twice. The map keeps the types it holds.
    pub fn get<'m, F: Fetch<'m>>(&'m mut self) -> (r: Option<F>)
        ensures
            final(self).keys() == old(self).keys(),
    {
        F::fetch(self)
    }
}

/// Something that can be taken from a type map: a reference to one value, or
/// a tuple of them. Taking it leaves the types the map holds as they were.
pub trait Fetch<'m>: Sized {
    fn fetch(map: &'m mut TypeMap) -> (r: Option<Self>)
        ensures
            final(map).keys() == old(map).keys(),
    ;
}

/// A reference to one value of a type map.
pub trait FetchItem<'m>: Sized {
    fn key() -> TypeId;

    fn from_slot(slot: &'m mut AnyBox) -> Option<Self>;
}

impl<'m, T: 'static> FetchItem<'m> for &'m T {
    fn key() -> TypeId {
        type_id_of::<T>()
    }

    fn from_slot(slot: &'m mut AnyBox) -> Option<Self> {
        as_ref_of::<T>(slot)
    }
}

impl<'m, T: 'static> FetchItem<'m> for &'m mut T {
    fn key() -> TypeId {
        type_id_of::<T>()
    }

    fn from_slot(slot: &'m mut AnyBox) -> Option<Self> {
        as_mut_of::<T>(slot)
    }
}

impl<'m, A: FetchItem<'m>> Fetch<'m> for A {
    fn fetch(map: &'m mut TypeMap) -> Option<Self> {
        let (s0,) = slots1(&mut map.map, A::key());
        match s0 {
            Some(s) => A::from_slot(s),
            None => None,
        }
    }
}

impl<'m, A: FetchItem<'m>> Fetch<'m> for (A,) {
    fn fetch(map: &'m mut TypeMap) -> Option<Self> {
        let (s0,) = slots1(&mut map.map, A::key());
        let v0 = match s0 {
            Some(s) => match A::from_slot(s) {
                Some(v) => v,
                None => return None,
            },
            None => return None,
        };
        Some((v0,))
    }
}

impl<'m, A: FetchItem<'m>, B: FetchItem<'m>> Fetch<'m> for (A, B) {
    fn fetch(map: &'m mut TypeMap) -> Option<Self> {
        let k0 = A::key();
        let k1 = B::key();
        if same_type(&k0, &k1) {
            return None;
        }
        let (s0, s1) = slots2(&mut map.map, k0, k1);
        let v0 = match s0 {
            Some(s) => match A::from_slot(s) {
                Some(v) => v,
                None => return None,
            },
            None => return None,
        };
        let v1 = match s1 {
            Some(s) => match B::from_slot(s) {
                Some(v) => v,
                None => return None,
            },
            None => return None,
        };
        Some((v0, v1))
    }
}

impl<'m, A: FetchItem<'m>, B: FetchItem<'m>, C: FetchItem<'m>> Fetch<'m> for (A, B, C) {
    fn fetch(map: &'m mut TypeMap) -> Option<Self> {
        let k0 = A::key();
        let k1 = B::key();
        let k2 = C::key();
        if same_type(&k0, &k1) || same_type(&k0, &k2) || same_type(&k1, &k2) {
            return None;
        }
        let (s0, s1, s2) = slots3(&mut map.map, k0, k1, k2);
        let v0 = match s0 {
            Some(s) => match A::from_slot(s) {
                Some(v) => v,
                None => return None,
            },
            None => return None,
        };
        let v1 = match s1 {
            Some(s) => match B::from_slot(s) {
                Some(v) => v,
                None => return None,
            },
            None => return None,
        };
        let v2 = match s2 {
            Some(s) => match C::from_slot(s) {
                Some(v) => v,
                None => return None,
            },
            None => return None,
        };
        Some((v0, v1, v2))
    }
}

impl<'m, A: FetchItem<'m>, B: FetchItem<'m>, C: FetchItem<'m>, D: FetchItem<'m>> Fetch<'m> for (A, B, C, D) {
    fn fetch(map: &'m mut TypeMap) -> Option<Self> {
        let k0 = A::key();
        let k1 = B::key();
        let k2 = C::key();
        let k3 = D::key();
        if same_type(&k0, &k1) || same_type(&k0, &k2) || same_type(&k0, &k3) || same_type(&k1, &k2) || same_type(&k1, &k3) || same_type(&k2, &k3) {
            return None;
        }
        let (s0, s1, s2, s3) = slots4(&mut map.map, k0, k1, k2, k3);
        let v0 = match s0 {
            Some(s) => match A::from_slot(s) {
                Some(v) => v,
                None => return None,
            },
            None => return None,
        };
        let v1 = match s1 {
            Some(s) => match B::from_slot(s) {
                Some(v) => v,
                None => return None,
            },
            None => return None,
        };
        let v2 = match s2 {
            Some(s) => match C::from_slot(s) {
                Some(v) => v,
                None => return None,
            },
            None => return None,
        };
        let v3 = match s3 {
            Some(s) => match D::from_slot(s) {
                Some(v) => v,
                None => return None,
            },
            None => return None,
        };
        Some((v0, v1, v2, v3))
    }
}

impl<'m, A: FetchItem<'m>, B: FetchItem<'m>, C: FetchItem<'m>, D: FetchItem<'m>, E: FetchItem<'m>> Fetch<'m> for (A, B, C, D, E) {
    fn fetch(map: &'m mut TypeMap) -> Option<Self> {
        let k0 = A::key();
        let k1 = B::key();
        let k2 = C::key();
        let k3 = D::key();
        let k4 = E::key();
        if same_type(&k0, &k1) || same_type(&k0, &k2) || same_type(&k0, &k3) || same_type(&k0, &k4) || same_type(&k1, &k2) || same_type(&k1, &k3) || same_type(&k1, &k4) || same_type(&k2, &k3) || same_type(&k2, &k4) || same_type(&k3, &k4) {
            return None;
        }
        let (s0, s1, s2, s3, s4) = slots5(&mut map.map, k0, k1, k2, k3, k4);
        let v0 = match s0 {
            Some(s) => match A::from_slot(s) {
                Some(v) => v,
                None => return None,
            },
            None => return None,
        };
        let v1 = match s1 {
            Some(s) => match B::from_slot(s) {
                Some(v) => v,
                None => return None,
            },
            None => return None,
        };
        let v2 = match s2 {
            Some(s) => match C::from_slot(s) {
                Some(v) => v,
                None => return None,
            },
            None => return None,
        };
        let v3 = match s3 {
            Some(s) => match D::from_slot(s) {
                Some(v) => v,
                None => return None,
            },
            None => return None,
        };
        let v4 = match s4 {
            Some(s) => match E::from_slot(s) {
                Some(v) => v,
                None => return None,
            },
            None => return None,
        };
        Some((v0, v1, v2, v3, v4))
    }
}

impl<'m, A: FetchItem<'m>, B: FetchItem<'m>, C: FetchItem<'m>, D: FetchItem<'m>, E: FetchItem<'m>, F: FetchItem<'m>> Fetch<'m> for (A, B, C, D, E, F) {
    fn fetch(map: &'m mut TypeMap) -> Option<Self> {
        let k0 = A::key();
        let k1 = B::key();
        let k2 = C::key();
        let k3 = D::key();
        let k4 = E::key();
        let k5 = F::key();
        if same_type(&k0, &k1) || same_type(&k0, &k2) || same_type(&k0, &k3) || same_type(&k0, &k4) || same_type(&k0, &k5) || same_type(&k1, &k2) || same_type(&k1, &k3) || same_type(&k1, &k4) || same_type(&k1, &k5) || same_type(&k2, &k3) || same_type(&k2, &k4) || same_type(&k2, &k5) || same_type(&k3, &k4) || same_type(&k3, &k5) || same_type(&k4, &k5) {
            return None;
        }
        let (s0, s1, s2, s3, s4, s5) = slots6(&mut map.map, k0, k1, k2, k3, k4, k5);
        let v0 = match s0 {
            Some(s) => match A::from_slot(s) {
                Some(v) => v,
                None => return None,
            },
            None => return None,
        };
        let v1 = match s1 {
            Some(s) => match B::from_slot(s) {
                Some(v) => v,
                None => return None,
            },
            None => return None,
        };
        let v2 = match s2 {
            Some(s) => match C::from_slot(s) {
                Some(v) => v,
                None => return None,
            },
            None => return None,
        };
        let v3 = match s3 {
            Some(s) => match D::from_slot(s) {
                Some(v) => v,
                None => return None,
            },
            None => return None,
        };
        let v4 = match s4 {
            Some(s) => match E::from_slot(s) {
                Some(v) => v,
                None => return None,
            },
            None => return None,
        };
        let v5 = match s5 {
            Some(s) => match F::from_slot(s) {
                Some(v) => v,
                None => return None,
            },
            None => return None,
        };
        Some((v0, v1, v2, v3, v4, v5))
    }
}

impl<'m, A: FetchItem<'m>, B: FetchItem<'m>, C: FetchItem<'m>, D: FetchItem<'m>, E: FetchItem<'m>, F: FetchItem<'m>, G: FetchItem<'m>> Fetch<'m> for (A, B, C, D, E, F, G) {
    fn fetch(map: &'m mut TypeMap) -> Option<Self> {
        let k0 = A::key();
        let k1 = B::key();
        let k2 = C::key();
        let k3 = D::key();
        let k4 = E::key();
        let k5 = F::key();
        let k6 = G::key();
        if same_type(&k0, &k1) || same_type(&k0, &k2) || same_type(&k0, &k3) || same_type(&k0, &k4) || same_type(&k0, &k5) || same_type(&k0, &k6) || same_type(&k1, &k2) || same_type(&k1, &k3) || same_type(&k1, &k4) || same_type(&k1, &k5) || same_type(&k1, &k6) || same_type(&k2, &k3) || same_type(&k2, &k4) || same_type(&k2, &k5) || same_type(&k2, &k6) || same_type(&k3, &k4) || same_type(&k3, &k5) || same_type(&k3, &k6) || same_type(&k4, &k5) || same_type(&k4, &k6) || same_type(&k5, &k6) {
            return None;
        }
        let (s0, s1, s2, s3, s4, s5, s6) = slots7(&mut map.map, k0, k1, k2, k3, k4, k5, k6);
        let v0 = match s0 {
            Some(s) => match A::from_slot(s) {
                Some(v) => v,
                None => return None,
            },
            None => return None,
        };
        let v1 = match s1 {
            Some(s) => match B::from_slot(s) {
                Some(v) => v,
                None => return None,
            },
            None => return None,
        };
        let v2 = match s2 {
            Some(s) => match C::from_slot(s) {
                Some(v) => v,
                None => return None,
            },
            None => return None,
        };
        let v3 = match s3 {
            Some(s) => match D::from_slot(s) {
                Some(v) => v,
                None => return None,
            },
            None => return None,
        };
        let v4 = match s4 {
            Some(s) => match E::from_slot(s) {
                Some(v) => v,
                None => return None,
            },
            None => return None,
        };
        let v5 = match s5 {
            Some(s) => match F::from_slot(s) {
                Some(v) => v,
                None => return None,
            },
            None => return None,
        };
        let v6 = match s6 {
            Some(s) => match G::from_slot(s) {
                Some(v) => v,
                None => return None,
            },
            None => return None,
        };
        Some((v0, v1, v2, v3, v4, v5, v6))
    }
}

impl<'m, A: FetchItem<'m>, B: FetchItem<'m>, C: FetchItem<'m>, D: FetchItem<'m>, E: FetchItem<'m>, F: FetchItem<'m>, G: FetchItem<'m>, H: FetchItem<'m>> Fetch<'m> for (A, B, C, D, E, F, G, H) {
    fn fetch(map: &'m mut TypeMap) -> Option<Self> {
        let k0 = A::key();
        let k1 = B::key();
        let k2 = C::key();
        let k3 = D::key();
        let k4 = E::key();
        let k5 = F::key();
        let k6 = G::key();
        let k7 = H::key();
        if same_type(&k0, &k1) || same_type(&k0, &k2) || same_type(&k0, &k3) || same_type(&k0, &k4) || same_type(&k0, &k5) || same_type(&k0, &k6) || same_type(&k0, &k7) || same_type(&k1, &k2) || same_type(&k1, &k3) || same_type(&k1, &k4) || same_type(&k1, &k5) || same_type(&k1, &k6) || same_type(&k1, &k7) || same_type(&k2, &k3) || same_type(&k2, &k4) || same_type(&k2, &k5) || same_type(&k2, &k6) || same_type(&k2, &k7) || same_type(&k3, &k4) || same_type(&k3, &k5) || same_type(&k3, &k6) || same_type(&k3, &k7) || same_type(&k4, &k5) || same_type(&k4, &k6) || same_type(&k4, &k7) || same_type(&k5, &k6) || same_type(&k5, &k7) || same_type(&k6, &k7) {
            return None;
        }
        let (s0, s1, s2, s3, s4, s5, s6, s7) = slots8(&mut map.map, k0, k1, k2, k3, k4, k5, k6, k7);
        let v0 = match s0 {
            Some(s) => match A::from_slot(s) {
                Some(v) => v,
                None => return None,
            },
            None => return None,
        };
        let v1 = match s1 {
            Some(s) => match B::from_slot(s) {
                Some(v) => v,
                None => return None,
            },
            None => return None,
        };
        let v2 = match s2 {
            Some(s) => match C::from_slot(s) {
                Some(v) => v,
                None => return None,
            },
            None => return None,
        };
        let v3 = match s3 {
            Some(s) => match D::from_slot(s) {
                Some(v) => v,
                None => return None,
            },
            None => return None,
        };
        let v4 = match s4 {
            Some(s) => match E::from_slot(s) {
                Some(v) => v,
                None => return None,
            },
            None => return None,
        };
        let v5 = match s5 {
            Some(s) => match F::from_slot(s) {
                Some(v) => v,
                None => return None,
            },
            None => return None,
        };
        let v6 = match s6 {
            Some(s) => match G::from_slot(s) {
                Some(v) => v,
                None => return None,
            },
            None => return None,
        };
        let v7 = match s7 {
            Some(s) => match H::from_slot(s) {
                Some(v) => v,
                None => return None,
            },
            None => return None,
        };
        Some((v0, v1, v2, v3, v4, v5, v6, v7))
    }
}

} // verus!
