//! Zero-copy, reference-counted, read-only views of contiguous typed buffers,
//! the run-time check behind buffers that are shared mutably, and two
//! spin-based rendezvous primitives.
pub mod borrow;
pub mod layout;
pub mod sync;

use std::marker::PhantomData;
use std::ops::Deref;
use std::sync::Arc;
use vstd::prelude::*;
use vstd::slice::slice_subrange;

verus! {

/// Dereferenced, `store` may give `elements`.
pub open spec fn derefs_to<T, B: Deref<Target = [T]>>(store: &B, elements: Seq<T>) -> bool {
    exists|given: &[T]| #[trigger] call_ensures(B::deref, (store,), given) && given@ == elements
}

/// Whenever it is dereferenced, `store` gives the same elements.
///
/// A view reads its store anew each time it is read itself, so only a store
/// that neither moves nor changes what it holds can be wrapped in one.
pub open spec fn is_stable<T, B: Deref<Target = [T]>>(store: &B) -> bool {
    forall|first: &[T], second: &[T]|
        #[trigger] call_ensures(B::deref, (store,), first) && #[trigger] call_ensures(
            B::deref,
            (store,),
            second,
        ) ==> first@ == second@
}

/// The elements of a store that is stable and gives any elements at all.
spec fn contents<T, B: Deref<Target = [T]>>(store: &B) -> Seq<T> {
    choose|elements: Seq<T>| derefs_to(store, elements)
}

/// Another handle to the store behind `handle`.
///
/// Trusted: `Arc::clone` hands back a pointer to the allocation that `handle`
/// points to, so both point to one and the same store.
#[verifier::external_body]
fn share<B>(handle: &Arc<B>) -> (shared: Arc<B>)
    ensures
        shared == *handle,
{
    Arc::clone(handle)
}

/// A read-only view of the elements `[offset, offset + len)` of a backing
/// store, which lives for as long as any view of it does.
///
/// A backing store is any owner of contiguous storage that dereferences to a
/// slice of its elements: a vector, a mapped file, another view. Nothing of
/// a view can be changed, so views may be cloned, sliced again, and handed
/// to other threads freely.
#[verifier::reject_recursive_types(T)]
pub struct SharedSlice<T, B: Deref<Target = [T]> = Vec<T>> {
    start: usize,
    len: usize,
    buf: Arc<B>,
    marker: PhantomData<T>,
}

impl<T, B: Deref<Target = [T]>> View for SharedSlice<T, B> {
    type V = Seq<T>;

    /// The elements that the view shows.
    closed spec fn view(&self) -> Seq<T> {
        contents(&*self.buf).subrange(self.start as int, self.start + self.len)
    }
}

impl<T, B: Deref<Target = [T]>> SharedSlice<T, B> {
    /// The store is stable, and the view lies inside it.
    #[verifier::type_invariant]
    pub closed spec fn wf(&self) -> bool {
        &&& is_stable(&*self.buf)
        &&& derefs_to(&*self.buf, contents(&*self.buf))
        &&& self.start + self.len <= contents(&*self.buf).len() <= usize::MAX
    }

    /// All the elements of the backing store, which this view keeps alive.
    pub closed spec fn backing(&self) -> Seq<T> {
        contents(&*self.buf)
    }

    /// The index in the backing store of this view's first element.
    pub closed spec fn offset(&self) -> nat {
        self.start as nat
    }

    /// The view of the elements `[start, end)` of this view.
    pub closed spec fn sliced(&self, start: int, end: int) -> SharedSlice<T, B>
        recommends
            0 <= start <= end <= self@.len(),
    {
        SharedSlice {
            start: (self.start + start) as usize,
            len: (end - start) as usize,
            buf: self.buf,
            marker: PhantomData,
        }
    }

    /// Wraps a store in a view of all its elements.
    ///
    /// The store must not change what it holds from then on.
    pub fn new(buf: B) -> (s: SharedSlice<T, B>)
        requires
            is_stable(&buf),
        ensures
            derefs_to(&buf, s@),
            s.backing() == s@,
            s.offset() == 0,
    {
        let all: &[T] = buf.deref();
        let len: usize = all.len();
        proof {
            assert(derefs_to(&buf, all@));
            assert(contents(&buf).subrange(0, len as int) =~= contents(&buf));
        }
        SharedSlice { start: 0, len, buf: Arc::new(buf), marker: PhantomData }
    }

    /// The number of elements in view.
    pub fn len(&self) -> (n: usize)
        ensures
            n == self@.len(),
    {
        proof {
            use_type_invariant(self);
        }
        self.len
    }

    /// The elements in view, borrowed from the store without a copy.
    pub fn as_slice(&self) -> (elements: &[T])
        ensures
            elements@ == self@,
    {
        proof {
            use_type_invariant(self);
        }
        let store: &B = &self.buf;
        let all: &[T] = store.deref();
        slice_subrange(all, self.start, self.start + self.len)
    }

    /// A view of the elements `[start, end)` of this view, on the same store.
    pub fn shared_slice(&self, start: usize, end: usize) -> (r: SharedSlice<T, B>)
        requires
            start <= end <= self@.len(),
        ensures
            r == self.sliced(start as int, end as int),
            r@ == self@.subrange(start as int, end as int),
            r.backing() == self.backing(),
            r.offset() == self.offset() + start,
    {
        proof {
            use_type_invariant(self);
        }
        SharedSlice {
            start: self.start + start,
            len: end - start,
            buf: share(&self.buf),
            marker: PhantomData,
        }
    }

    /// A view of the elements `[start, end)` of this view, or `None` where
    /// the range does not lie inside this view. No range is ever clamped.
    pub fn try_shared_slice(&self, start: usize, end: usize) -> (r: Option<SharedSlice<T, B>>)
        ensures
            r.is_some() <==> start <= end <= self@.len(),
            r matches Some(s) ==> {
                &&& s == self.sliced(start as int, end as int)
                &&& s@ == self@.subrange(start as int, end as int)
                &&& s.backing() == self.backing()
                &&& s.offset() == self.offset() + start
            },
    {
        proof {
            use_type_invariant(self);
        }
        if start <= end && end <= self.len {
            Some(self.shared_slice(start, end))
        } else {
            None
        }
    }
}

impl<T, B: Deref<Target = [T]>> Clone for SharedSlice<T, B> {
    /// Another view of the same elements of the same store. Neither view
    /// depends on the other being kept.
    fn clone(&self) -> (c: Self)
        ensures
            c == *self,
            c@ == self@,
    {
        proof {
            use_type_invariant(self);
        }
        SharedSlice {
            start: self.start,
            len: self.len,
            buf: share(&self.buf),
            marker: PhantomData,
        }
    }
}

impl<T, B: Deref<Target = [T]>> Deref for SharedSlice<T, B> {
    type Target = [T];

    fn deref(&self) -> (elements: &[T])
        ensures
            elements@ == self@,
    {
        self.as_slice()
    }
}

impl<T, B: Deref<Target = [T]>> AsRef<[T]> for SharedSlice<T, B> {
    fn as_ref(&self) -> (elements: &[T])
        ensures
            elements@ == self@,
    {
        self.as_slice()
    }
}

/// A slice of a view shows the elements of the range, sits on the same store,
/// and starts where the range starts.
pub proof fn lemma_sliced<T, B: Deref<Target = [T]>>(s: SharedSlice<T, B>, start: int, end: int)
    requires
        s.wf(),
        0 <= start <= end <= s@.len(),
    ensures
        s.sliced(start, end).wf(),
        s.sliced(start, end)@ == s@.subrange(start, end),
        s.sliced(start, end).backing() == s.backing(),
        s.sliced(start, end).offset() == s.offset() + start,
{
}

/// Slicing `[a, b)` and then `[c, d)` of the result is slicing
/// `[a + c, a + d)` at once: the same elements of the same store.
pub proof fn lemma_slice_composition<T, B: Deref<Target = [T]>>(
    s: SharedSlice<T, B>,
    a: int,
    b: int,
    c: int,
    d: int,
)
    requires
        s.wf(),
        0 <= a <= b <= s@.len(),
        0 <= c <= d <= b - a,
    ensures
        a + c <= a + d <= s@.len(),
        s.sliced(a, b).sliced(c, d) == s.sliced(a + c, a + d),
        s.sliced(a, b).sliced(c, d)@ == s@.subrange(a + c, a + d),
{
}

} // verus!
