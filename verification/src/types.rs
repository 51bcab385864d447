use vstd::prelude::*;

verus! {

/// The classification of a token, as reported by the caller's token type.
#[derive(Copy, Clone, Debug, PartialEq, Eq, Structural)]
pub enum TokenKind {
    /// A leaf operand.
    Value,
    /// A left-associative infix operator carrying its priority.
    /// Lower numeric values bind more tightly.
    InfixOperator(usize),
    /// A prefix unary operator.
    UnaryOperator,
    /// A function carrying the number of arguments it takes (must be 1 or more).
    Function(usize),
    /// A left parenthesis, used for grouping and function arguments.
    LeftParen,
    /// A right parenthesis.
    RightParen,
    /// A separator between function arguments.
    FnSeparator,
}

/// The ways a conversion can fail.
#[derive(Copy, Clone, Debug, PartialEq, Eq, Structural)]
pub enum Error {
    /// Left and right parens didn't match.
    UnbalancedParens,
    /// The input stream was not well formed.
    Malformed,
    /// Could not push to a stack.
    StorageFull,
    /// A function has the wrong number of arguments.
    FunctionLen,
    /// The internal logic of the library has failed.
    Internal,
}

/// A type that can be processed by a shunting yard.
///
/// The engine reads nothing of a token but its classification, which
/// must be a fixed function of the token.
pub trait Token: Sized {
    /// The classification of this token.
    spec fn kind_spec(&self) -> TokenKind;

    /// Report the classification of this token.
    fn kind(&self) -> (k: TokenKind)
        ensures
            k == self.kind_spec(),
    ;
}

/// Stack-like storage the engine is parameterized over.
///
/// `contents` is the abstract content, bottom of the stack first.  A push
/// either appends one item or fails with `Error::StorageFull` leaving the
/// content unchanged; a pop removes and returns the top item if there is
/// one.  `never_full` marks storage whose pushes always succeed, such as a
/// growable vector.
pub trait Stack: Sized {
    type Item;

    /// The abstract stack content, bottom first.
    spec fn contents(&self) -> Seq<Self::Item>;

    /// Whether this storage can always take one more item.
    spec fn never_full(&self) -> bool;

    /// Push `value` on top of the stack, or fail with `Error::StorageFull`.
    fn push(&mut self, value: Self::Item) -> (r: Result<(), Error>)
        ensures
            r is Ok ==> final(self).contents() == old(self).contents().push(value),
            r is Err ==> r == Err::<(), Error>(Error::StorageFull)
                && final(self).contents() == old(self).contents(),
            old(self).never_full() ==> r is Ok,
            final(self).never_full() == old(self).never_full(),
    ;

    /// Remove and return the top of the stack, if any.
    fn pop(&mut self) -> (r: Option<Self::Item>)
        ensures
            old(self).contents().len() == 0 ==> r is None
                && final(self).contents() == old(self).contents(),
            old(self).contents().len() > 0 ==> r == Some(old(self).contents().last())
                && final(self).contents() == old(self).contents().drop_last(),
            final(self).never_full() == old(self).never_full(),
    ;
}

} // verus!
