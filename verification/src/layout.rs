//! What a caller hands to the solver and gets back from it.

use vstd::prelude::*;
use cassowary::{Constraint, Variable};
use crate::scalar::Scalar;

verus! {

/// Identifies a widget. The solver neither makes nor destroys widgets; it
/// only indexes their variables under this number.
pub type LayoutId = usize;

/// The variables of one widget. `left`, `top`, `width` and `height` are the
/// widget's own; `right` and `bottom` stand for the derived edges.
#[derive(Clone, Copy, Debug)]
pub struct LayoutVars {
    pub left: Variable,
    pub top: Variable,
    pub right: Variable,
    pub bottom: Variable,
    pub width: Variable,
    pub height: Variable,
}

impl LayoutVars {
    /// The widget's four own variables: left, top, width, height.
    pub open spec fn own(self) -> Seq<Variable> {
        seq![self.left, self.top, self.width, self.height]
    }

    /// The widget's four own variables: left, top, width, height.
    pub fn array(&self) -> (r: [Variable; 4])
        ensures
            r@ == self.own(),
    {
        let r = [self.left, self.top, self.width, self.height];
        assert(r@ =~= self.own());
        r
    }
}

/// A directive that makes a variable editable.
#[derive(Clone, Copy, Debug)]
pub struct EditVariable {
    /// The variable.
    pub var: Variable,
    /// The value to suggest at once, if any.
    pub val: Option<Scalar>,
    /// The strength with which suggestions are to hold.
    pub strength: Scalar,
}

/// The declaration of one widget's layout.
pub struct LayoutBuilder {
    pub vars: LayoutVars,
    pub edit_vars: Vec<EditVariable>,
    pub constraints: Vec<Constraint>,
}

/// A position.
#[derive(Clone, Copy, Debug, PartialEq, Eq, Structural)]
pub struct Point {
    pub x: Scalar,
    pub y: Scalar,
}

/// An extent.
#[derive(Clone, Copy, Debug, PartialEq, Eq, Structural)]
pub struct Size {
    pub width: Scalar,
    pub height: Scalar,
}

/// The geometry of a widget.
#[derive(Clone, Copy, Debug, PartialEq, Eq, Structural)]
pub struct Rect {
    pub origin: Point,
    pub size: Size,
}

/// A suggestion that the caller is to pass on to the engine.
#[derive(Clone, Copy, Debug)]
pub struct EditRequest {
    /// The variable to edit.
    pub var: Variable,
    /// The strength with which the engine is first to be told of the
    /// variable as an edit variable; `None` where it knows it as one.
    pub install: Option<Scalar>,
    /// The value to suggest.
    pub value: Scalar,
}

} // verus!
