//! The object memory: objects, and the heap that holds them by address.

use std::collections::HashMap;
use vstd::prelude::*;

verus! {

/// The address of an object in the heap.
#[derive(Debug, PartialEq, Clone, Copy, Eq, Hash)]
pub struct Pointer(pub usize);

/// An object: its class, where it has one, and the addresses of its fields.
#[derive(Debug, PartialEq, Eq, Hash)]
pub struct Object {
    pub class: Option<Box<Class>>,
    pub fields: Vec<Pointer>,
}

/// A class, which is an object too.
#[derive(Debug, PartialEq, Eq, Hash)]
pub struct Class {
    pub obj: Object,
}

/// Model of an [`Object`], and of a [`Class`] by the object it is.
pub struct ObjectView {
    pub class: Option<Box<ObjectView>>,
    pub fields: Seq<usize>,
}

/// The addresses that `fields` hold.
pub open spec fn addresses(fields: Seq<Pointer>) -> Seq<usize> {
    Seq::new(fields.len(), |i: int| fields[i].0)
}

impl View for Object {
    type V = ObjectView;

    open spec fn view(&self) -> ObjectView
        decreases self,
    {
        ObjectView {
            class: match self.class {
                Some(class) => Some(Box::new((*class)@)),
                None => None,
            },
            fields: addresses(self.fields@),
        }
    }
}

impl View for Class {
    type V = ObjectView;

    open spec fn view(&self) -> ObjectView
        decreases self,
    {
        self.obj@
    }
}

impl Clone for Object {
    fn clone(&self) -> (r: Self)
        ensures
            r@ == self@,
        decreases self,
    {
        proof {
            reveal_with_fuel(<Object as View>::view, 2);
        }
        let class = match &self.class {
            Some(class) => Some(Box::new((**class).clone())),
            None => None,
        };
        let mut fields: Vec<Pointer> = Vec::new();
        let mut i: usize = 0;
        while i < self.fields.len()
            invariant
                i <= self.fields.len(),
                fields@ == self.fields@.take(i as int),
            decreases self.fields.len() - i,
        {
            fields.push(self.fields[i]);
            i += 1;
            assert(fields@ =~= self.fields@.take(i as int));
        }
        assert(self.fields@.take(self.fields.len() as int) =~= self.fields@);
        Object { class, fields }
    }
}

impl Clone for Class {
    fn clone(&self) -> (r: Self)
        ensures
            r@ == self@,
        decreases self,
    {
        proof {
            reveal_with_fuel(<Class as View>::view, 2);
        }
        Class { obj: self.obj.clone() }
    }
}

/// The heap: the objects by address, and the next free address.
#[derive(Debug, PartialEq)]
pub struct Heap {
    pub objects: HashMap<usize, Object>,
    pub curr_idx: Pointer,
}

impl Clone for Heap {
    fn clone(&self) -> (r: Self)
        ensures
            r.objects@ == self.objects@,
            r.curr_idx == self.curr_idx,
    {
        Heap { objects: self.objects.clone(), curr_idx: self.curr_idx }
    }
}

impl Heap {
    /// The empty heap, with 0 as its next free address.
    pub fn new() -> (heap: Heap)
        ensures
            heap.objects@ == Map::<usize, Object>::empty(),
            heap.curr_idx == Pointer(0),
    {
        Heap { objects: HashMap::new(), curr_idx: Pointer(0) }
    }

    /// The object at `ptr`, where the heap holds one there.
    fn access(&self, ptr: &Pointer) -> (found: Option<&Object>)
        ensures
            found == match self.objects@.get(ptr.0) {
                Some(object) => Some(&object),
                None => None,
            },
    {
        self.objects.get(&ptr.0)
    }

    /// The object that field `field_idx` of `of_object` points to, where the
    /// heap holds one there.
    pub fn fetch_pointer(&self, field_idx: usize, of_object: Object) -> (found: Option<&Object>)
        requires
            field_idx < of_object.fields.len(),
        ensures
            found == match self.objects@.get(of_object.fields[field_idx as int].0) {
                Some(object) => Some(&object),
                None => None,
            },
    {
        let ptr = &(of_object.fields[field_idx]);
        self.access(ptr)
    }
}

} // verus!
