//! The bounded window of outstanding block-hash computations.
use vstd::prelude::*;

verus! {

/// Outstanding computations (handles of any kind), oldest first, at most
/// `limit` of them. Results are taken strictly in submission order.
pub struct Window<H> {
    pending: Vec<H>,
    limit: usize,
}

impl<H> View for Window<H> {
    type V = Seq<H>;

    /// The outstanding handles, oldest first.
    closed spec fn view(&self) -> Seq<H> {
        self.pending@
    }
}

impl<H> Window<H> {
    /// The most handles that may be outstanding at once.
    pub closed spec fn limit(&self) -> nat {
        self.limit as nat
    }

    /// The limit is positive and respected.
    pub open spec fn wf(&self) -> bool {
        0 < self.limit() && self@.len() <= self.limit()
    }

    /// An empty window admitting `limit` outstanding handles.
    pub fn new(limit: usize) -> (r: Window<H>)
        requires
            limit > 0,
        ensures
            r.wf(),
            r@ == Seq::<H>::empty(),
            r.limit() == limit,
    {
        Window { pending: Vec::new(), limit }
    }

    /// The number of outstanding handles.
    pub fn len(&self) -> (r: usize)
        ensures
            r == self@.len(),
    {
        self.pending.len()
    }

    /// Whether a new computation must wait for the oldest one.
    pub fn is_full(&self) -> (r: bool)
        ensures
            r == (self@.len() >= self.limit()),
    {
        self.pending.len() >= self.limit
    }

    /// Adds a newly dispatched computation behind all others.
    pub fn submit(&mut self, handle: H)
        requires
            old(self).wf(),
            old(self)@.len() < old(self).limit(),
        ensures
            final(self).wf(),
            final(self)@ == old(self)@.push(handle),
            final(self).limit() == old(self).limit(),
    {
        self.pending.push(handle);
    }

    /// Takes the oldest outstanding handle, if any.
    pub fn take_oldest(&mut self) -> (r: Option<H>)
        requires
            old(self).wf(),
        ensures
            final(self).wf(),
            final(self).limit() == old(self).limit(),
            old(self)@.len() == 0 ==> r is None && final(self)@ == old(self)@,
            old(self)@.len() > 0 ==> r == Some(old(self)@[0]) && final(self)@ == old(self)@.drop_first(),
    {
        if self.pending.len() == 0 {
            None
        } else {
            Some(self.pending.remove(0))
        }
    }

    /// Takes the oldest handle only when the window is full, so that a new
    /// computation can be dispatched after it has been awaited.
    pub fn take_if_full(&mut self) -> (r: Option<H>)
        requires
            old(self).wf(),
        ensures
            final(self).wf(),
            final(self).limit() == old(self).limit(),
            final(self)@.len() < final(self).limit(),
            old(self)@.len() >= old(self).limit() ==> r == Some(old(self)@[0]) && final(self)@
                == old(self)@.drop_first(),
            old(self)@.len() < old(self).limit() ==> r is None && final(self)@ == old(self)@,
    {
        if self.pending.len() >= self.limit {
            Some(self.pending.remove(0))
        } else {
            None
        }
    }
}

} // verus!
