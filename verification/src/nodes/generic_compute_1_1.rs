//! A worker over one input channel and one output channel.

use core::marker::PhantomData;
use vstd::prelude::*;

use crate::mpmc::receiver::Receiver;
use crate::mpmc::sender::Sender;

verus! {

/// Relies on `core::marker::PhantomData`'s `Clone`: the type is a unit
/// struct, so cloning yields the same (only) value. Needed because the
/// derived `Clone` of the node below clones its marker field.
pub assume_specification<T>[ <PhantomData<T> as Clone>::clone ](v: &PhantomData<T>) -> (r:
    PhantomData<T>)
    where
        T: core::marker::PointeeSized,
    ensures
        r == *v,
;

/// A 1-in / 1-out worker: the function it applies, the receiver it reads
/// from, and the sender it writes to.
///
/// The driving loop — receive until the input reports end-of-stream, apply
/// the function, send what it yields — blocks on the channel, so it runs in
/// the harness that owns the shared buffers, not in this crate.
#[allow(non_camel_case_types)]
#[derive(Clone)]
#[verifier::reject_recursive_types(I1)]
#[verifier::reject_recursive_types(O1)]
pub struct GenericComputeNode_1_1<I1, O1, F> where F: Fn(Option<I1>) -> Option<O1> {
    /// f will always be called with at least one `Some` value and will
    /// only start passing `None` values once that input is exhausted.
    f: F,
    rx1: Receiver,
    tx1: Sender,
    name: String,
    io: PhantomData<(I1, O1)>,
}

impl<I1, O1, F> GenericComputeNode_1_1<I1, O1, F> where F: Fn(Option<I1>) -> Option<O1> {
    /// The node's name, for debugging.
    pub closed spec fn name_spec(self) -> Seq<char> {
        self.name@
    }

    /// The (buffer id, cursor id) of the input end and the buffer id of
    /// the output end.
    pub closed spec fn channels(self) -> ((int, int), int) {
        (self.rx1@, self.tx1@)
    }

    /// Get the name of this node for debugging.
    pub fn name(&self) -> (r: &str)
        ensures
            r@ == self.name_spec(),
    {
        self.name.as_str()
    }

    /// Build a node from its name, its channel ends and its function.
    pub fn new(name: String, rx: Receiver, tx: Sender, f: F) -> (n: GenericComputeNode_1_1<
        I1,
        O1,
        F,
    >)
        ensures
            n.name_spec() == name@,
            n.channels() == (rx@, tx@),
    {
        let rx1 = rx;
        let tx1 = tx;
        GenericComputeNode_1_1 { f, tx1, rx1, name, io: PhantomData }
    }
}

} // verus!
