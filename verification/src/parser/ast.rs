//! The program representation shared by the parser and the code generator.

use vstd::prelude::*;

verus! {

/// A primitive operation on the tape, the cursor or the I/O channel.
#[derive(Debug, Clone, Copy, PartialEq, Eq, Structural)]
pub enum Operation {
    /// Take one value from the input and store it in the current cell.
    Read,
    /// Send the value of the current cell to the output.
    Write,
    /// Add one to the current cell.
    Increment,
    /// Subtract one from the current cell.
    Decrement,
    /// Move the cursor one cell to the left.
    PtrLeft,
    /// Move the cursor one cell to the right.
    PtrRight,
}

impl View for Operation {
    type V = Operation;

    open spec fn view(&self) -> Operation {
        *self
    }
}

/// An ordered list of elements: a whole program, or the body of one loop.
#[derive(Debug, PartialEq, Eq)]
pub struct ASTBranch(pub Vec<ASTElement>);

/// One element of a branch: a primitive operation, or a loop with its body.
#[derive(Debug, PartialEq, Eq)]
pub enum ASTElement {
    Loop(ASTBranch),
    Operation(Operation),
}

/// The mathematical value of an element: a tree whose loops hold sequences.
pub enum Element {
    Loop(Seq<Element>),
    Operation(Operation),
}

impl View for ASTElement {
    type V = Element;

    open spec fn view(&self) -> Element
        decreases self,
    {
        match self {
            ASTElement::Loop(body) => Element::Loop(body.view()),
            ASTElement::Operation(op) => Element::Operation(*op),
        }
    }
}

impl View for ASTBranch {
    type V = Seq<Element>;

    open spec fn view(&self) -> Seq<Element>
        decreases self,
    {
        Seq::new(
            self.0@.len(),
            |i: int|
                if 0 <= i < self.0@.len() {
                    self.0@[i].view()
                } else {
                    arbitrary()
                },
        )
    }
}

/// The values of a list of elements, one by one.
pub open spec fn values(items: Seq<ASTElement>) -> Seq<Element> {
    Seq::new(items.len(), |i: int| items[i]@)
}

impl Clone for ASTElement {
    fn clone(&self) -> (copy: Self)
        ensures
            copy@ == self@,
        decreases self,
    {
        match self {
            ASTElement::Loop(body) => ASTElement::Loop(body.clone()),
            ASTElement::Operation(op) => ASTElement::Operation(*op),
        }
    }
}

impl Clone for ASTBranch {
    fn clone(&self) -> (copy: Self)
        ensures
            copy@ == self@,
        decreases self,
    {
        let mut items: Vec<ASTElement> = Vec::new();
        let mut i: usize = 0;
        while i < self.0.len()
            invariant
                i <= self.0.len(),
                items.len() == i,
                forall|k: int| 0 <= k < i ==> items@[k]@ == self.0@[k]@,
            decreases self.0.len() - i,
        {
            items.push(self.0[i].clone());
            i += 1;
        }
        let copy = ASTBranch(items);
        assert(copy@ =~= self@);
        copy
    }
}

} // verus!
