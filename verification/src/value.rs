//! Values held in hook state slots, compared by value equality when a setter
//! decides whether a context must re-render.

use vstd::prelude::*;

verus! {

/// A plain value a state slot can hold.
pub enum StateValue {
    Unit,
    Bool(bool),
    Int(i64),
    Nat(u64),
    Text(String),
}

/// The mathematical value of a `StateValue`.
#[verifier::ext_equal]
pub enum StateValueV {
    Unit,
    Bool(bool),
    Int(i64),
    Nat(u64),
    Text(Seq<char>),
}

impl View for StateValue {
    type V = StateValueV;

    open spec fn view(&self) -> StateValueV {
        match *self {
            StateValue::Unit => StateValueV::Unit,
            StateValue::Bool(b) => StateValueV::Bool(b),
            StateValue::Int(i) => StateValueV::Int(i),
            StateValue::Nat(n) => StateValueV::Nat(n),
            StateValue::Text(ref s) => StateValueV::Text(s@),
        }
    }
}

impl StateValue {
    /// Value equality, as a setter compares the new value with the stored one.
    pub fn value_eq(&self, other: &StateValue) -> (r: bool)
        ensures
            r == (self@ == other@),
    {
        match (self, other) {
            (StateValue::Unit, StateValue::Unit) => true,
            (StateValue::Bool(a), StateValue::Bool(b)) => *a == *b,
            (StateValue::Int(a), StateValue::Int(b)) => *a == *b,
            (StateValue::Nat(a), StateValue::Nat(b)) => *a == *b,
            (StateValue::Text(a), StateValue::Text(b)) => String::eq(a, b),
            _ => false,
        }
    }
}

impl Clone for StateValue {
    fn clone(&self) -> (r: Self)
        ensures
            r@ == self@,
    {
        match self {
            StateValue::Unit => StateValue::Unit,
            StateValue::Bool(b) => StateValue::Bool(*b),
            StateValue::Int(i) => StateValue::Int(*i),
            StateValue::Nat(n) => StateValue::Nat(*n),
            StateValue::Text(s) => StateValue::Text(s.clone()),
        }
    }
}

} // verus!
