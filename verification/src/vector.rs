//! The vector itself: a buffer that grows only by asking, and that says so
//! when the answer is no.

use vstd::prelude::*;
use vstd::layout::size_of;
use vstd::std_specs::iter::IteratorSpec;
use crate::error::AllocError;
use crate::accumulate::{
    is_refused, kept, lemma_kept_all, lemma_kept_len, lemma_kept_order, lemma_kept_same_answers,
    lemma_kept_step, lemma_refusals_every_kth, lemma_slot_increases, refusals, slot,
};

verus! {

/// `Vec::capacity`: the number of elements the buffer has room for. The
/// contract claims only what std documents of every vector, that this is
/// never less than its length.
#[verifier::external_body]
fn buffer_capacity<T>(buf: &Vec<T>) -> (c: usize)
    ensures
        c >= buf@.len(),
{
    buf.capacity()
}

/// A growable, contiguous sequence of `T` that owns its buffer and never
/// grows it behind the caller's back.
///
/// Its view is the sequence of its elements. Beside the buffer it keeps
/// the capacity that the buffer reported when it last grew: the room that
/// it knows it has. While an append fits in that room the allocator is not
/// asked; when it does not, the allocator is asked, and may refuse.
#[derive(Debug)]
pub struct MyVec<T> {
    buf: Vec<T>,
    cap: usize,
}

impl<T> View for MyVec<T> {
    type V = Seq<T>;

    closed spec fn view(&self) -> Seq<T> {
        self.buf@
    }
}

impl<T> MyVec<T> {
    /// The number of elements that fit without asking for more room.
    pub closed spec fn spec_capacity(&self) -> nat {
        self.cap as nat
    }

    /// The invariant of every vector: what it holds fits in what it has.
    pub closed spec fn wf(&self) -> bool {
        self.buf@.len() <= self.cap
    }

    /// From the invariant, as callers may use it.
    pub proof fn lemma_len_within_capacity(&self)
        requires
            self.wf(),
        ensures
            self@.len() <= self.spec_capacity() <= usize::MAX,
    {
    }

    /// An empty vector. Nothing is asked of the allocator: it has no room
    /// at all until something is reserved or appended.
    pub fn new() -> (v: Self)
        ensures
            v.wf(),
            v@ == Seq::<T>::empty(),
            v.spec_capacity() == 0,
    {
        MyVec { buf: Vec::new(), cap: 0 }
    }

    /// An empty vector with room for `capacity` elements, had in one
    /// request. Room for no element is there without asking; for more,
    /// whether the request is granted is the allocator's to say. Either
    /// way nothing but the result is left behind.
    pub fn with_capacity(capacity: usize) -> (r: Result<Self, AllocError>)
        ensures
            capacity == 0 ==> r is Ok,
            match r {
                Ok(v) => v.wf() && v@ == Seq::<T>::empty() && v.spec_capacity() >= capacity,
                Err(e) => e == AllocError::OutOfMemory,
            },
    {
        let mut v = Self::new();
        match v.try_reserve(capacity) {
            Ok(()) => Ok(v),
            Err(e) => Err(e),
        }
    }

    /// An empty vector given the allocator's answer to the one request for
    /// room for `capacity` elements: whether it was `granted`, and the
    /// capacity `observed` afterwards. Without the room there is no vector.
    pub fn with_capacity_given(capacity: usize, granted: bool, observed: usize) -> (r: Result<
        Self,
        AllocError,
    >)
        ensures
            r is Ok <==> granted && observed >= capacity,
            match r {
                Ok(v) => v.wf() && v@ == Seq::<T>::empty() && v.spec_capacity() == observed,
                Err(e) => e == AllocError::OutOfMemory,
            },
    {
        let mut v = Self::new();
        match v.reserve_given(capacity, granted, observed) {
            Ok(()) => Ok(v),
            Err(e) => Err(e),
        }
    }

    /// Makes sure of room for `additional` more elements. Where the room is
    /// there already, nothing happens and nothing is asked. Where it is
    /// not, the allocator is asked once, and its refusal is reported. The
    /// elements stay as they are, the capacity never shrinks, and on a
    /// refusal it is what it was.
    pub fn try_reserve(&mut self, additional: usize) -> (r: Result<(), AllocError>)
        requires
            old(self).wf(),
        ensures
            final(self).wf(),
            final(self)@ == old(self)@,
            old(self)@.len() + additional <= old(self).spec_capacity() ==> r is Ok
                && final(self).spec_capacity() == old(self).spec_capacity(),
            match r {
                Ok(()) => final(self).spec_capacity() >= old(self)@.len() + additional
                    && final(self).spec_capacity() >= old(self).spec_capacity(),
                Err(e) => e == AllocError::OutOfMemory
                    && final(self).spec_capacity() == old(self).spec_capacity(),
            },
    {
        if additional <= self.cap - self.buf.len() {
            return Ok(());
        }
        let granted = self.buf.try_reserve(additional).is_ok();
        let observed = buffer_capacity(&self.buf);
        self.reserve_given(additional, granted, observed)
    }

    /// Takes note of the allocator's answer to a request for room for
    /// `additional` more elements: whether it was `granted`, and the
    /// capacity `observed` afterwards. The request counts as met only if
    /// the room is really there.
    pub fn reserve_given(&mut self, additional: usize, granted: bool, observed: usize) -> (r:
        Result<(), AllocError>)
        requires
            old(self).wf(),
        ensures
            final(self).wf(),
            final(self)@ == old(self)@,
            r is Ok <==> granted && observed >= old(self)@.len() + additional,
            match r {
                Ok(()) => final(self).spec_capacity() == observed,
                Err(e) => e == AllocError::OutOfMemory && *final(self) == *old(self),
            },
    {
        if granted && observed >= additional && self.buf.len() <= observed - additional {
            self.cap = observed;
            Ok(())
        } else {
            Err(AllocError::OutOfMemory)
        }
    }

    /// Appends `value` if there is room for it. Where the vector has room
    /// to spare the append cannot fail. Where it is full the allocator is
    /// asked for room for one more element; on its refusal, which is
    /// reported, the value is dropped and the vector holds what it held,
    /// with the capacity it had.
    pub fn try_push(&mut self, value: T) -> (r: Result<(), AllocError>)
        requires
            old(self).wf(),
        ensures
            final(self).wf(),
            old(self)@.len() < old(self).spec_capacity() ==> r is Ok,
            match r {
                Ok(()) => final(self)@ == old(self)@.push(value) && final(self).spec_capacity()
                    >= old(self).spec_capacity(),
                Err(e) => e == AllocError::OutOfMemory && final(self)@ == old(self)@
                    && final(self).spec_capacity() == old(self).spec_capacity(),
            },
    {
        let granted = self.buf.len() < self.cap || self.buf.try_reserve(1).is_ok();
        self.push_given(granted, value)
    }

    /// Appends `value` given the allocator's answer to the request for
    /// room for it: with the room `granted` the value goes to the end, and
    /// without it the value is dropped and the refusal reported. Whoever
    /// passes `granted` vouches for it; the allocator is not asked again.
    pub fn push_given(&mut self, granted: bool, value: T) -> (r: Result<(), AllocError>)
        requires
            old(self).wf(),
        ensures
            final(self).wf(),
            r is Ok <==> granted,
            match r {
                Ok(()) => final(self)@ == old(self)@.push(value)
                    && final(self).spec_capacity() >= old(self).spec_capacity(),
                Err(e) => e == AllocError::OutOfMemory && *final(self) == *old(self),
            },
    {
        if granted {
            self.buf.push(value);
            let observed = buffer_capacity(&self.buf);
            if observed > self.cap {
                self.cap = observed;
            }
            Ok(())
        } else {
            Err(AllocError::OutOfMemory)
        }
    }

    /// The number of elements.
    pub fn len(&self) -> (n: usize)
        ensures
            n == self@.len(),
    {
        self.buf.len()
    }

    /// Whether there is no element.
    pub fn is_empty(&self) -> (b: bool)
        ensures
            b <==> self@.len() == 0,
    {
        self.buf.len() == 0
    }

    /// The number of elements that fit without asking for more room.
    pub fn capacity(&self) -> (c: usize)
        ensures
            c == self.spec_capacity(),
    {
        self.cap
    }

    /// The element at `index`, if there is one.
    pub fn get(&self, index: usize) -> (r: Option<&T>)
        ensures
            match r {
                Some(e) => index < self@.len() && *e == self@[index as int],
                None => index >= self@.len(),
            },
    {
        if index < self.buf.len() {
            Some(&self.buf[index])
        } else {
            None
        }
    }

    /// The first element, if there is one.
    pub fn first(&self) -> (r: Option<&T>)
        ensures
            match r {
                Some(e) => self@.len() > 0 && *e == self@[0],
                None => self@.len() == 0,
            },
    {
        self.get(0)
    }

    /// Puts `value` in the place of the element at `index`. Nothing grows.
    pub fn set(&mut self, index: usize, value: T)
        requires
            old(self).wf(),
            index < old(self)@.len(),
        ensures
            final(self).wf(),
            final(self)@ == old(self)@.update(index as int, value),
            final(self).spec_capacity() == old(self).spec_capacity(),
    {
        self.buf[index] = value;
    }

    /// Takes the last element off, if there is one. The room stays.
    pub fn pop(&mut self) -> (r: Option<T>)
        requires
            old(self).wf(),
        ensures
            final(self).wf(),
            final(self).spec_capacity() == old(self).spec_capacity(),
            match r {
                Some(e) => old(self)@.len() > 0 && e == old(self)@.last()
                    && final(self)@ == old(self)@.drop_last(),
                None => old(self)@.len() == 0 && final(self)@ == old(self)@,
            },
    {
        self.buf.pop()
    }

    /// Drops every element. The room stays.
    pub fn clear(&mut self)
        requires
            old(self).wf(),
        ensures
            final(self).wf(),
            final(self)@ == Seq::<T>::empty(),
            final(self).spec_capacity() == old(self).spec_capacity(),
    {
        self.buf.clear();
    }

    /// The elements as a slice that can be written through: what is in a
    /// place may change, the number of places may not.
    pub fn as_mut_slice(&mut self) -> (s: &mut [T])
        requires
            old(self).wf(),
        ensures
            s@ == old(self)@,
            final(self)@ == final(s)@,
            final(self).spec_capacity() == old(self).spec_capacity(),
            final(s)@.len() == old(self)@.len() ==> final(self).wf(),
    {
        self.buf.as_mut_slice()
    }

    /// The elements as a slice.
    pub fn as_slice(&self) -> (s: &[T])
        ensures
            s@ == self@,
    {
        self.buf.as_slice()
    }

    /// The number of bytes that the elements occupy: their number times the
    /// size of one. This is the length of a view of the occupied storage
    /// as raw bytes.
    pub fn byte_len(&self) -> (n: usize)
        ensures
            n == self@.len() * size_of::<T>(),
    {
        broadcast use vstd::layout::layout_of_slices;

        core::mem::size_of_val(self.buf.as_slice())
    }
}

impl MyVec<u8> {
    /// The elements of a vector of bytes are its byte view: nothing is
    /// reinterpreted, and an empty vector gives an empty view.
    pub fn as_bytes(&self) -> (bytes: &[u8])
        ensures
            bytes@ == self@,
            bytes@.len() == self@.len() * size_of::<u8>(),
    {
        broadcast use vstd::layout::layout_of_primitives;

        self.buf.as_slice()
    }
}

impl<T> core::ops::Deref for MyVec<T> {
    type Target = Vec<T>;

    /// The buffer, for reading: whatever a `Vec` offers through `&self`.
    fn deref(&self) -> (buf: &Vec<T>)
        ensures
            buf@ == self@,
    {
        &self.buf
    }
}

/// Whether append number `i` is refused by the recorded answers.
fn refused_at(refused: &[bool], i: usize) -> (b: bool)
    ensures
        b == is_refused(refused@, i as int),
{
    i < refused.len() && refused[i]
}

impl<T> MyVec<T> {
    /// Builds a vector from what `iter` yields, offering each item in
    /// order. An item for which the allocator grants no room is dropped and
    /// the next one is tried: the result holds the items that were granted
    /// room, in their order, and no refusal is reported.
    ///
    /// The iterator must be one that ends: it yields finitely many items
    /// and then `None`.
    pub fn from_iter<I: Iterator<Item = T>>(iter: I) -> (v: Self)
        requires
            iter.obeys_prophetic_iter_laws(),
            iter.decrease() is Some,
            iter.initial_value_relation(&iter),
        ensures
            v.wf(),
            v@.len() <= iter.remaining().len(),
            exists|refused: Seq<bool>| v@ == kept(iter.remaining(), refused),
    {
        let ghost all = iter.remaining();
        let ghost mut answers: Seq<bool> = Seq::empty();
        let mut out = Self::new();
        for item in it: iter
            invariant
                it.iter.obeys_prophetic_iter_laws(),
                it.iter.decrease() is Some,
                it.seq() == all,
                out.wf(),
                answers.len() == it.index(),
                out@ == kept(all.take(it.index() as int), answers),
        {
            let ghost before = answers;
            let ghost i = it.index() as int;
            let ghost offered = item;
            let refused = out.try_push(item).is_err();
            proof {
                answers = answers.push(refused);
                lemma_kept_same_answers(all.take(i), before, answers);
                lemma_kept_step(all.take(i), answers, offered);
                assert(all.take(i + 1) =~= all.take(i).push(offered));
            }
        }
        proof {
            assert(all.take(all.len() as int) =~= all);
            lemma_kept_len(all, answers);
        }
        out
    }

    /// Builds a vector from what `iter` yields given the allocator's
    /// answers, one per item in order: exactly the items whose append was
    /// not refused, in their order.
    ///
    /// The iterator must be one that ends, as for `from_iter`.
    pub fn from_iter_given<I: Iterator<Item = T>>(iter: I, refused: &[bool]) -> (v: Self)
        requires
            iter.obeys_prophetic_iter_laws(),
            iter.decrease() is Some,
            iter.initial_value_relation(&iter),
        ensures
            v.wf(),
            v@ == kept(iter.remaining(), refused@),
    {
        let ghost all = iter.remaining();
        let mut out = Self::new();
        let mut i: usize = 0;
        for item in it: iter
            invariant
                it.iter.obeys_prophetic_iter_laws(),
                it.iter.decrease() is Some,
                it.seq() == all,
                out.wf(),
                i <= refused@.len(),
                i == it.index() || (i == refused@.len() && i < it.index()),
                out@ == kept(all.take(it.index() as int), refused@),
        {
            let ghost at = it.index() as int;
            let granted = !refused_at(refused, i);
            proof {
                lemma_kept_step(all.take(at), refused@, item);
                assert(all.take(at + 1) =~= all.take(at).push(item));
            }
            let _ = out.push_given(granted, item);
            if i < refused.len() {
                i = i + 1;
            }
        }
        proof {
            assert(all.take(all.len() as int) =~= all);
        }
        out
    }
}

/// Whether `copies` holds, place by place, a clone of what `items` holds.
pub open spec fn clones_of<T: Clone>(items: Seq<T>, copies: Seq<T>) -> bool {
    &&& copies.len() == items.len()
    &&& forall|i: int| 0 <= i < items.len() ==> cloned(items[i], #[trigger] copies[i])
}

impl<T: Clone> MyVec<T> {
    /// A new vector with a clone of every element, in order. Room for all
    /// of them is made sure of first, in one request, and a refusal of that
    /// request is reported. After that each element is cloned and appended
    /// in turn; with the room reserved none of these appends can be
    /// refused, so the clone is complete.
    pub fn try_clone(&self) -> (r: Result<Self, AllocError>)
        requires
            self.wf(),
        ensures
            self@.len() == 0 ==> r is Ok,
            match r {
                Ok(c) => c.wf() && clones_of(self@, c@) && c.spec_capacity() >= self@.len(),
                Err(e) => e == AllocError::OutOfMemory,
            },
    {
        let count = self.buf.len();
        let mut out = Self::new();
        match out.try_reserve(count) {
            Ok(()) => {},
            Err(e) => {
                return Err(e);
            },
        }
        let mut i: usize = 0;
        while i < count
            invariant
                i <= count,
                count == self@.len(),
                out.wf(),
                out.spec_capacity() >= count,
                clones_of(self@.take(i as int), out@),
            decreases count - i,
        {
            let copy = self.buf[i].clone();
            let _ = out.try_push(copy);
            i = i + 1;
        }
        proof {
            assert(self@.take(count as int) =~= self@);
        }
        Ok(out)
    }

    /// The clone given the allocator's answers: whether the first request,
    /// for room for all elements, was `reserved`, and which of the appends
    /// were `refused`. Without the reservation there is no clone. With it
    /// the clone holds a clone of each element whose append was not
    /// refused, in order.
    pub fn clone_given(&self, reserved: bool, refused: &[bool]) -> (r: Result<Self, AllocError>)
        requires
            self.wf(),
        ensures
            r is Ok <==> reserved,
            match r {
                Ok(c) => c.wf() && clones_of(kept(self@, refused@), c@),
                Err(e) => e == AllocError::OutOfMemory,
            },
    {
        if !reserved {
            return Err(AllocError::OutOfMemory);
        }
        let count = self.buf.len();
        let mut out = Self::new();
        let mut i: usize = 0;
        while i < count
            invariant
                i <= count,
                count == self@.len(),
                out.wf(),
                clones_of(kept(self@.take(i as int), refused@), out@),
            decreases count - i,
        {
            let copy = self.buf[i].clone();
            let granted = !refused_at(refused, i);
            proof {
                lemma_kept_step(self@.take(i as int), refused@, self@[i as int]);
                assert(self@.take(i + 1) =~= self@.take(i as int).push(self@[i as int]));
            }
            let _ = out.push_given(granted, copy);
            i = i + 1;
        }
        proof {
            assert(self@.take(count as int) =~= self@);
        }
        Ok(out)
    }
}

/// Cloning without pressure loses nothing: where none of the appends is
/// refused, a clone has the length of its source and holds, place by
/// place, a clone of what the source holds.
pub proof fn lemma_clone_without_pressure<T: Clone>(
    source: Seq<T>,
    refused: Seq<bool>,
    copies: Seq<T>,
)
    requires
        clones_of(kept(source, refused), copies),
        forall|i: int| 0 <= i < source.len() ==> !is_refused(refused, i),
    ensures
        clones_of(source, copies),
{
    lemma_kept_all(source, refused);
}

/// Cloning under pressure loses exactly what was refused: the clone is
/// shorter than its source by the number of refused appends, each element
/// whose append was granted has its clone in it, and these clones stand in
/// the order of the elements they were made from.
pub proof fn lemma_clone_under_pressure<T: Clone>(
    source: Seq<T>,
    refused: Seq<bool>,
    copies: Seq<T>,
)
    requires
        clones_of(kept(source, refused), copies),
    ensures
        copies.len() == source.len() - refusals(refused, source.len()),
        forall|i: nat|
            i < source.len() && !is_refused(refused, i as int) ==> 0 <= #[trigger] slot(refused, i)
                < copies.len() && cloned(source[i as int], copies[slot(refused, i)]),
        forall|i: nat, j: nat|
            i < j && !is_refused(refused, i as int) ==> #[trigger] slot(refused, i)
                < #[trigger] slot(refused, j),
{
    lemma_kept_len(source, refused);
    assert forall|i: nat| i < source.len() && !is_refused(refused, i as int) implies 0
        <= #[trigger] slot(refused, i) < copies.len() && cloned(
        source[i as int],
        copies[slot(refused, i)],
    ) by {
        lemma_kept_order(source, refused, i);
    }
    assert forall|i: nat, j: nat| i < j && !is_refused(refused, i as int) implies #[trigger] slot(
        refused,
        i,
    ) < #[trigger] slot(refused, j) by {
        lemma_slot_increases(refused, i, j);
    }
}

/// Cloning where exactly every `k`-th append is refused (the `k`-th, the
/// `2k`-th and so on): of `n` elements the clone holds `n - n / k`.
pub proof fn lemma_clone_every_kth_refused<T: Clone>(
    source: Seq<T>,
    refused: Seq<bool>,
    copies: Seq<T>,
    k: nat,
)
    requires
        k > 0,
        clones_of(kept(source, refused), copies),
        forall|i: int|
            0 <= i < source.len() ==> (is_refused(refused, i) <==> (i + 1) % (k as int) == 0),
    ensures
        copies.len() == source.len() - source.len() / k,
{
    lemma_kept_len(source, refused);
    lemma_refusals_every_kth(refused, k, source.len());
}

} // verus!
