//! Owned offsets: a subtable held by value in place of a raw offset, with
//! the width of the field it will be written to.
use vstd::prelude::*;

use crate::compile::{Table, TableWriter};
use crate::scalar::{be_bytes, Offset};
use crate::subset::{Error, Plan, Subset};

verus! {

/// A subtable behind an offset of width `W`. It should be present, but
/// input may be malformed, so it can be missing.
pub struct OffsetMarker<W, T> {
    width: std::marker::PhantomData<W>,
    obj: Option<T>,
}

/// A subtable behind an offset of width `W` that the format allows to be
/// null.
pub struct NullableOffsetMarker<W, T> {
    width: std::marker::PhantomData<W>,
    obj: Option<T>,
}

impl<W, T> OffsetMarker<W, T> {
    pub closed spec fn obj(&self) -> Option<T> {
        self.obj
    }

    /// The subtable, if present.
    pub fn get(&self) -> (r: Option<&T>)
        ensures
            r == match self.obj() {
                Some(t) => Some(&t),
                None => None::<&T>,
            },
    {
        match &self.obj {
            Some(t) => Some(t),
            None => None,
        }
    }

    /// The subtable, mutably, if present.
    pub fn get_mut(&mut self) -> (r: Option<&mut T>)
        ensures
            old(self).obj() is Some <==> r is Some,
            r matches Some(t) ==> *t == old(self).obj()->0 && final(self).obj() == Some(*final(t)),
            r is None ==> final(self).obj() == old(self).obj(),
    {
        match &mut self.obj {
            Some(t) => Some(t),
            None => None,
        }
    }

    pub fn set(&mut self, obj: T)
        ensures
            final(self).obj() == Some(obj),
    {
        self.obj = Some(obj);
    }

    pub fn clear(&mut self)
        ensures
            final(self).obj() == None::<T>,
    {
        self.obj = None;
    }

    /// A marker holding `obj`.
    pub fn new(obj: T) -> (r: Self)
        ensures
            r.obj() == Some(obj),
    {
        OffsetMarker { width: std::marker::PhantomData, obj: Some(obj) }
    }

    /// A marker whose subtable may be missing.
    pub fn new_maybe_null(obj: Option<T>) -> (r: Self)
        ensures
            r.obj() == obj,
    {
        OffsetMarker { width: std::marker::PhantomData, obj }
    }
}

impl<W, T> NullableOffsetMarker<W, T> {
    pub closed spec fn obj(&self) -> Option<T> {
        self.obj
    }

    /// The subtable, if there is one.
    pub fn get(&self) -> (r: Option<&T>)
        ensures
            r == match self.obj() {
                Some(t) => Some(&t),
                None => None::<&T>,
            },
    {
        match &self.obj {
            Some(t) => Some(t),
            None => None,
        }
    }

    pub fn new(obj: Option<T>) -> (r: Self)
        ensures
            r.obj() == obj,
    {
        NullableOffsetMarker { width: std::marker::PhantomData, obj }
    }
}

impl<W, T> Default for OffsetMarker<W, T> {
    /// A marker with no subtable.
    fn default() -> (r: Self)
        ensures
            r.obj() == None::<T>,
    {
        OffsetMarker { width: std::marker::PhantomData, obj: None }
    }
}

impl<W, T> Default for NullableOffsetMarker<W, T> {
    /// A null marker.
    fn default() -> (r: Self)
        ensures
            r.obj() == None::<T>,
    {
        NullableOffsetMarker { width: std::marker::PhantomData, obj: None }
    }
}

impl<W: Offset, T: Table> OffsetMarker<W, T> {
    /// Writes the offset field: to the serialized subtable, or, when it is
    /// missing, a null offset that the writer counts (a present-but-empty
    /// offset is usually a mistake of the caller, but it is written rather
    /// than refused).
    pub fn write_into(&self, writer: &mut TableWriter)
        requires
            old(writer).wf(),
        ensures
            final(writer).wf(),
            final(writer).finished() >= old(writer).finished(),
            final(writer).keeps(*old(writer)),
            self.obj() is None ==> {
                &&& final(writer).current() == old(writer).current() + be_bytes(
                    0,
                    W::spec_width().spec_byte_len(),
                )
                &&& final(writer).top().offsets@ == old(writer).top().offsets@
                &&& final(writer).depth() == old(writer).depth()
                &&& final(writer).store() == old(writer).store()
                &&& final(writer).missing_count() as int == (if old(writer).missing_count() < usize::MAX {
                    (old(writer).missing_count() + 1) as int
                } else {
                    old(writer).missing_count() as int
                })
            },
    {
        match &self.obj {
            Some(obj) => writer.write_offset0::<W, T>(obj),
            None => writer.write_missing_offset(W::width()),
        }
    }
}

impl<W: Offset, T: Table> NullableOffsetMarker<W, T> {
    /// Writes the offset field: to the serialized subtable, or a null
    /// offset.
    pub fn write_into(&self, writer: &mut TableWriter)
        requires
            old(writer).wf(),
        ensures
            final(writer).wf(),
            final(writer).finished() >= old(writer).finished(),
            final(writer).keeps(*old(writer)),
            self.obj() is None ==> {
                &&& final(writer).current() == old(writer).current() + be_bytes(
                    0,
                    W::spec_width().spec_byte_len(),
                )
                &&& final(writer).top().offsets@ == old(writer).top().offsets@
                &&& final(writer).depth() == old(writer).depth()
                &&& final(writer).store() == old(writer).store()
                &&& final(writer).missing_count() == old(writer).missing_count()
            },
    {
        match &self.obj {
            Some(obj) => writer.write_offset0::<W, T>(obj),
            None => writer.write_null_offset(W::width()),
        }
    }
}

impl<W, T: Subset> OffsetMarker<W, T> {
    /// Subsets the subtable and drops it when it is missing or emptied; on
    /// an error from the subtable the marker keeps it as the error left it.
    pub fn subset_marker(&mut self, plan: &Plan) -> (r: Result<bool, Error>)
        requires
            plan.wf(),
        ensures
            Self::marker_post(*old(self), *final(self), *plan, r),
    {
        let ghost mut inner: Option<T> = None;
        let retain = match &mut self.obj {
            Some(t) => {
                let res = t.subset(plan);
                proof {
                    inner = Some(*t);
                }
                match res {
                    Ok(keep) => keep,
                    Err(e) => return Err(e),
                }
            },
            None => false,
        };
        if !retain {
            self.obj = None;
        }
        Ok(retain)
    }

    /// What subsetting a marker does: a missing subtable gives `Ok(false)`;
    /// otherwise the subtable is subset, kept when it is still worth keeping
    /// and dropped when not.
    pub open spec fn marker_post(old: Self, new: Self, plan: Plan, r: Result<bool, Error>) -> bool {
        &&& (old.obj() is None ==> r == Ok::<bool, Error>(false) && new.obj() is None)
        &&& (r == Ok::<bool, Error>(false) ==> new.obj() is None)
        &&& (r == Ok::<bool, Error>(true) ==> (new.obj() matches Some(t) && t.kept()))
        &&& (r matches Ok(k) ==> k == (new.obj() is Some))
        &&& (old.obj() matches Some(o) ==> exists|n: T|
            #[trigger] T::subset_post(o, n, plan, r) && (r is Err || r == Ok::<bool, Error>(true)
                ==> new.obj() == Some(n)) && (r is Ok ==> r == Ok::<bool, Error>(n.kept())))
    }
}

impl<W, T: Subset> Subset for OffsetMarker<W, T> {
    open spec fn kept(&self) -> bool {
        self.obj() is Some
    }

    open spec fn subset_post(old: Self, new: Self, plan: Plan, r: Result<bool, Error>) -> bool {
        Self::marker_post(old, new, plan, r)
    }

    /// Subsets the subtable; a missing or emptied subtable is dropped.
    fn subset(&mut self, plan: &Plan) -> (r: Result<bool, Error>) {
        self.subset_marker(plan)
    }
}

/// A copy of a table's bytes, owned so that it can be edited in place
/// while the buffer it was read from stays untouched.
pub struct OwnedTable {
    data: Vec<u8>,
}

impl OwnedTable {
    pub closed spec fn bytes(&self) -> Seq<u8> {
        self.data@
    }

    /// Copies the bytes of a table.
    pub fn new(data: &[u8]) -> (r: OwnedTable)
        ensures
            r.bytes() == data@,
    {
        let mut v: Vec<u8> = Vec::new();
        let mut i: usize = 0;
        while i < data.len()
            invariant
                i <= data@.len(),
                v@ == data@.subrange(0, i as int),
            decreases data@.len() - i,
        {
            v.push(data[i]);
            i = i + 1;
            assert(v@ =~= data@.subrange(0, i as int));
        }
        assert(data@.subrange(0, i as int) =~= data@);
        OwnedTable { data: v }
    }

    /// The bytes, for reading.
    pub fn table_ref(&self) -> (r: &[u8])
        ensures
            r@ == self.bytes(),
    {
        self.data.as_slice()
    }

    /// The bytes, for editing.
    pub fn as_mut(&mut self) -> (r: &mut Vec<u8>)
        ensures
            r@ == old(self).bytes(),
            final(self).bytes() == final(r)@,
    {
        &mut self.data
    }
}

} // verus!
