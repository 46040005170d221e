//! The lists of the `nonempty` crate, which hold one item at least.
//!
//! What is said here of that crate is believed, not proved.

use crate::fan_controller::FanController;
use crate::text::texts;
use vstd::prelude::*;

verus! {

/// A list of the `nonempty` crate.
#[verifier::external_type_specification]
#[verifier::external_body]
#[verifier::reject_recursive_types(T)]
pub struct ExNonEmpty<T>(nonempty::NonEmpty<T>);

/// The texts in a list, in their order.
pub uninterp spec fn path_list(paths: nonempty::NonEmpty<String>) -> Seq<Seq<char>>;

/// The fans in a list, in their order.
pub uninterp spec fn fan_list(fans: nonempty::NonEmpty<FanController>) -> Seq<FanController>;

/// Calls `nonempty::NonEmpty::from_vec` on texts: a list of the same texts in the same order,
/// where there is one at least.
#[verifier::external_body]
pub(crate) fn paths_from_vec(paths: Vec<String>) -> (r: Option<nonempty::NonEmpty<String>>)
    ensures
        r is Some <==> paths@.len() > 0,
        r is Some ==> path_list(r->0) == texts(paths@),
{
    nonempty::NonEmpty::from_vec(paths)
}

/// Calls `nonempty::NonEmpty::len_nonzero` on a list of texts: how many there are.
#[verifier::external_body]
pub(crate) fn path_count(paths: &nonempty::NonEmpty<String>) -> (r: usize)
    ensures
        r > 0,
        r == path_list(*paths).len(),
{
    paths.len_nonzero().get()
}

/// Calls `Vec::from` on a list of texts, which the `nonempty` crate implements: the same texts in
/// the same order.
#[verifier::external_body]
pub(crate) fn paths_into_vec(paths: nonempty::NonEmpty<String>) -> (r: Vec<String>)
    ensures
        texts(r@) == path_list(paths),
{
    Vec::from(paths)
}

/// Calls `nonempty::NonEmpty::from_vec` on fans: a list of the same fans in the same order, where
/// there is one at least.
#[verifier::external_body]
pub(crate) fn fans_from_vec(fans: Vec<FanController>) -> (r: Option<
    nonempty::NonEmpty<FanController>,
>)
    ensures
        r is Some <==> fans@.len() > 0,
        r is Some ==> fan_list(r->0) == fans@,
{
    nonempty::NonEmpty::from_vec(fans)
}

/// Calls `nonempty::NonEmpty::len` on a list of fans: how many there are.
#[verifier::external_body]
pub(crate) fn fan_count(fans: &nonempty::NonEmpty<FanController>) -> (r: usize)
    ensures
        r > 0,
        r == fan_list(*fans).len(),
{
    fans.len()
}

/// Calls `nonempty::NonEmpty::get` on a list of fans: the fan at this place, where there is one.
#[verifier::external_body]
pub(crate) fn fan_at(fans: &nonempty::NonEmpty<FanController>, i: usize) -> (r: Option<
    &FanController,
>)
    ensures
        r is Some <==> i < fan_list(*fans).len(),
        r is Some ==> *r->0 == fan_list(*fans)[i as int],
{
    fans.get(i)
}

/// Calls `nonempty::NonEmpty::get_mut` on a list of fans: the fan at this place, to be changed
/// there. No other fan changes.
#[verifier::external_body]
pub(crate) fn fan_at_mut(fans: &mut nonempty::NonEmpty<FanController>, i: usize) -> (r: Option<
    &mut FanController,
>)
    ensures
        r is Some <==> i < fan_list(*old(fans)).len(),
        r matches Some(fan) ==> {
            &&& *fan == fan_list(*old(fans))[i as int]
            &&& fan_list(*final(fans)) == fan_list(*old(fans)).update(i as int, *final(fan))
        },
        r is None ==> *final(fans) == *old(fans),
{
    fans.get_mut(i)
}

} // verus!
