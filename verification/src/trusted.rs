//! What this library takes from the standard library on trust: the
//! statements below are believed, not proved.

use std::cell::Cell;
use std::rc::Rc;
use std::str::Chars;
use vstd::prelude::*;
use vstd::std_specs::iter::IteratorSpec;

verus! {

/// Whether `c` has the Unicode property `White_Space`, as
/// [`char::is_whitespace`] decides it.
pub uninterp spec fn white_space(c: char) -> bool;

/// Whether `c` is one of the ASCII digits `'0'` to `'9'`.
pub open spec fn is_digit(c: char) -> bool {
    '0' <= c && c <= '9'
}

/// [`char::is_whitespace`] is a function of the character alone; its result
/// is named [`white_space`].
pub assume_specification[ char::is_whitespace ](c: char) -> (b: bool)
    ensures
        b == white_space(c),
;

/// [`char::is_ascii_digit`] holds exactly of the characters U+0030 `'0'` to
/// U+0039 `'9'`.
pub assume_specification[ char::is_ascii_digit ](c: &char) -> (b: bool)
    ensures
        b == is_digit(*c),
;

/// [`Chars::as_str`] gives the part of the string that the iterator has not
/// yet yielded: its characters are exactly those still to come.
pub assume_specification<'a>[ Chars::<'a>::as_str ](chars: &Chars<'a>) -> (rest: &'a str)
    ensures
        rest@ == chars.remaining(),
;

/// [`Cell`], a place whose content can be exchanged through a shared
/// reference. Nothing is said of what a cell holds.
#[verifier::external_type_specification]
#[verifier::external_body]
#[verifier::reject_recursive_types(T)]
pub struct ExCell<T: ?Sized>(std::cell::Cell<T>);

/// [`Cell::new`] makes a cell. Nothing is claimed of it.
pub assume_specification<T>[ Cell::<T>::new ](value: T) -> (cell: Cell<T>);

/// [`Cell::replace`] puts a value into the cell and hands out the one that
/// the cell held. Nothing is claimed of the value handed out.
pub assume_specification<T>[ Cell::<T>::replace ](cell: &Cell<T>, value: T) -> (held: T);

/// [`Rc::clone`] gives another handle to the same allocation, and so to the
/// same value.
#[verifier::external_body]
pub(crate) fn share<T>(handle: &Rc<T>) -> (other: Rc<T>)
    ensures
        other == *handle,
{
    Rc::clone(handle)
}

/// [`Rc::ptr_eq`] holds only of two handles to one allocation, and so to
/// one value. (Two allocations may hold equal values: nothing follows from
/// `false`.)
#[verifier::external_body]
pub(crate) fn same<T>(a: &Rc<T>, b: &Rc<T>) -> (r: bool)
    ensures
        r ==> *a == *b,
{
    Rc::ptr_eq(a, b)
}

} // verus!
