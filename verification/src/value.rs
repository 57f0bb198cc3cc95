//! Engine values as the host core sees them.
//!
//! The value-marshalling layer proper is an external collaborator; the
//! core only moves whole values between export tables, import bindings
//! and context globals, so a small closed value type suffices.
use vstd::prelude::*;

use crate::syntax::copy_range;

verus! {

/// A value held by a module export table or a context's global table.
#[derive(Debug, Clone, PartialEq, Eq)]
pub enum JsValue {
    /// The absent value.
    Undefined,
    /// An integer.
    Int(i64),
    /// A string, as bytes.
    Str(Vec<u8>),
    /// A function value; its behaviour is opaque to the core.
    Function,
    /// A class value; its behaviour is opaque to the core.
    Class,
}

/// The mathematical model of a [`JsValue`].
pub enum ValView {
    Undefined,
    Int(i64),
    Str(Seq<u8>),
    Function,
    Class,
}

impl View for JsValue {
    type V = ValView;

    open spec fn view(&self) -> ValView {
        match self {
            JsValue::Undefined => ValView::Undefined,
            JsValue::Int(n) => ValView::Int(*n),
            JsValue::Str(s) => ValView::Str(s@),
            JsValue::Function => ValView::Function,
            JsValue::Class => ValView::Class,
        }
    }
}

/// The bytes the engine allocates to hold a value: string contents are
/// counted, everything else is free in the model's accounting.
pub open spec fn val_cost(v: ValView) -> int {
    match v {
        ValView::Str(s) => s.len() as int,
        _ => 0,
    }
}

impl JsValue {
    /// Copy a value.
    pub fn duplicate(&self) -> (r: JsValue)
        ensures
            r@ == self@,
    {
        match self {
            JsValue::Undefined => JsValue::Undefined,
            JsValue::Int(n) => JsValue::Int(*n),
            JsValue::Str(s) => {
                let c = copy_range(s.as_slice(), 0, s.len());
                proof {
                    assert(c@ =~= s@);
                }
                JsValue::Str(c)
            },
            JsValue::Function => JsValue::Function,
            JsValue::Class => JsValue::Class,
        }
    }

    /// The bytes the engine must allocate to hold this value.
    pub fn cost(&self) -> (r: usize)
        ensures
            r as int == val_cost(self@),
    {
        match self {
            JsValue::Str(s) => s.len(),
            _ => 0,
        }
    }
}

} // verus!
