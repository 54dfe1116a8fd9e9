//! Execution contexts: the pin buffer of one circuit instance, the place of
//! each child's pins in it, and the contexts of composite children.
use super::definition::{FIRST_CHILD_UID, SELF_UID, UID};
use vstd::prelude::*;

verus! {

/// The mathematical content of an execution context.
pub struct ContextModel {
    /// The pins of the circuit itself, followed by the pins of its children.
    pub pins: Seq<bool>,
    /// For each child, the index in `pins` at which its pins begin.
    pub offsets: Seq<u32>,
    /// For each child, the context in which it was last evaluated, if it is
    /// a composite that has been evaluated.
    pub nested: Seq<Option<ContextModel>>,
}

impl ContextModel {
    /// Where the pins of instance `uid` begin. A circuit's own pins come first.
    pub open spec fn instance_base(self, uid: UID) -> Option<nat> {
        if uid == SELF_UID {
            Some(0)
        } else if uid >= FIRST_CHILD_UID && uid - FIRST_CHILD_UID < self.offsets.len() {
            Some(self.offsets[uid - FIRST_CHILD_UID] as nat)
        } else {
            None
        }
    }

    /// The index of pin `offset` of instance `uid`, if the context holds it.
    pub open spec fn pin_index(self, uid: UID, offset: u32) -> Option<nat> {
        match self.instance_base(uid) {
            Some(base) => if base + offset < self.pins.len() {
                Some(base + offset as nat)
            } else {
                None
            },
            None => None,
        }
    }
}

/// The state that a circuit instance keeps between simulations.
#[derive(Debug)]
pub struct Context {
    pub(crate) pins: Vec<bool>,
    pub(crate) offsets: Vec<u32>,
    pub(crate) child_context: Vec<Option<Context>>,
}

/// The content of a context, children included.
pub closed spec fn model_of(context: Context) -> ContextModel
    decreases context,
{
    ContextModel {
        pins: context.pins@,
        offsets: context.offsets@,
        nested: Seq::new(
            context.child_context.len() as nat,
            |i: int|
                if 0 <= i < context.child_context.len() {
                    match context.child_context[i] {
                        Some(child) => Some(model_of(child)),
                        None => None,
                    }
                } else {
                    None
                },
        ),
    }
}

impl View for Context {
    type V = ContextModel;

    closed spec fn view(&self) -> ContextModel {
        model_of(*self)
    }
}

impl Context {
    /// A context with the given pins and offsets, and no evaluated children.
    pub(crate) fn new(pins: Vec<bool>, offsets: Vec<u32>) -> (context: Context)
        ensures
            context@ == (ContextModel {
                pins: pins@,
                offsets: offsets@,
                nested: Seq::new(offsets@.len(), |i: int| None::<ContextModel>),
            }),
    {
        let mut child_context: Vec<Option<Context>> = Vec::new();
        let mut i: usize = 0;
        while i < offsets.len()
            invariant
                i <= offsets.len(),
                child_context.len() == i,
                forall|j: int| 0 <= j < i ==> child_context[j] is None,
            decreases offsets.len() - i,
        {
            child_context.push(None);
            i += 1;
        }
        let context = Context { pins, offsets, child_context };
        assert(context@.nested =~= Seq::new(offsets@.len(), |i: int| None::<ContextModel>));
        context
    }

    /// The value of pin `index`.
    pub(crate) fn pin(&self, index: usize) -> (value: bool)
        requires
            index < self@.pins.len(),
        ensures
            value == self@.pins[index as int],
    {
        self.pins[index]
    }

    /// Sets pin `index` to `value`.
    pub(crate) fn set_pin(&mut self, index: usize, value: bool)
        requires
            index < old(self)@.pins.len(),
        ensures
            final(self)@ == (ContextModel {
                pins: old(self)@.pins.update(index as int, value),
                ..old(self)@
            }),
    {
        self.pins[index] = value;
        assert(self@.nested =~= old(self)@.nested);
    }

    /// The number of pins in the buffer.
    pub(crate) fn pin_total(&self) -> (total: usize)
        ensures
            total == self@.pins.len(),
    {
        self.pins.len()
    }

    /// The number of children that have a place in the buffer.
    pub(crate) fn offset_total(&self) -> (total: usize)
        ensures
            total == self@.offsets.len(),
    {
        self.offsets.len()
    }

    /// The number of children that can keep a context.
    pub(crate) fn nested_total(&self) -> (total: usize)
        ensures
            total == self@.nested.len(),
    {
        self.child_context.len()
    }

    /// Where the pins of child `index` begin.
    pub(crate) fn child_base(&self, index: usize) -> (base: u32)
        requires
            index < self@.offsets.len(),
        ensures
            base == self@.offsets[index as int],
    {
        self.offsets[index]
    }

    /// Takes the context of child `index` out, leaving none in its place.
    pub(crate) fn take_nested(&mut self, index: usize) -> (kept: Option<Context>)
        requires
            index < old(self)@.nested.len(),
        ensures
            match kept {
                Some(inner) => old(self)@.nested[index as int] == Some(inner@),
                None => old(self)@.nested[index as int] is None,
            },
            final(self)@ == (ContextModel {
                nested: old(self)@.nested.update(index as int, None),
                ..old(self)@
            }),
    {
        let mut kept: Option<Context> = None;
        std::mem::swap(&mut kept, &mut self.child_context[index]);
        assert(self@.nested =~= old(self)@.nested.update(index as int, None));
        kept
    }

    /// Keeps `inner` as the context of child `index`.
    pub(crate) fn put_nested(&mut self, index: usize, inner: Context)
        requires
            index < old(self)@.nested.len(),
        ensures
            final(self)@ == (ContextModel {
                nested: old(self)@.nested.update(index as int, Some(inner@)),
                ..old(self)@
            }),
    {
        self.child_context[index] = Some(inner);
        assert(self@.nested =~= old(self)@.nested.update(index as int, Some(inner@)));
    }

    /// The pins of the instance and of its children.
    pub fn pins(&self) -> (pins: &Vec<bool>)
        ensures
            pins@ == self@.pins,
    {
        &self.pins
    }

    /// Where the pins of instance `circuit_uid` begin, if the context holds
    /// that instance.
    pub fn offset_of(&self, circuit_uid: UID) -> (base: Option<u32>)
        ensures
            match base {
                Some(b) => self@.instance_base(circuit_uid) == Some(b as nat),
                None => self@.instance_base(circuit_uid) is None,
            },
    {
        if circuit_uid == SELF_UID {
            Some(0)
        } else if circuit_uid >= FIRST_CHILD_UID && ((circuit_uid - FIRST_CHILD_UID) as usize)
            < self.offsets.len() {
            Some(self.offsets[(circuit_uid - FIRST_CHILD_UID) as usize])
        } else {
            None
        }
    }

    /// The index of pin `offset` of instance `circuit_uid`, if the context
    /// holds that pin.
    pub fn pin_index(&self, circuit_uid: UID, offset: u32) -> (index: Option<usize>)
        ensures
            match index {
                Some(i) => self@.pin_index(circuit_uid, offset) == Some(i as nat),
                None => self@.pin_index(circuit_uid, offset) is None,
            },
    {
        match self.offset_of(circuit_uid) {
            Some(base) => {
                let index: u64 = base as u64 + offset as u64;
                if index < self.pins.len() as u64 {
                    Some(index as usize)
                } else {
                    None
                }
            },
            None => None,
        }
    }
}

} // verus!
