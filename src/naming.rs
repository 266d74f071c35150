//! The naming conventions that make a declaration a component.
use vstd::prelude::*;
use crate::rules::{is_component_name, is_render_callback, render_prefix, starts_with};
use crate::tree::params_view;

verus! {

/// Whether a character has the Unicode `Uppercase` property.
pub uninterp spec fn is_upper(c: char) -> bool;

/// Relies on `char::is_uppercase`: whether `c` has the Unicode `Uppercase`
/// property, which the ASCII capitals have and the ASCII small letters lack.
#[verifier::external_body]
fn char_is_uppercase(c: char) -> (r: bool)
    ensures
        r == is_upper(c),
        ('A' <= c <= 'Z') ==> r,
        ('a' <= c <= 'z') ==> !r,
{
    c.is_uppercase()
}

/// Whether `name` follows the naming convention of components.
pub fn starts_with_uppercase(name: &str) -> (r: bool)
    ensures
        r == is_component_name(name@),
        name@.len() > 0 && 'A' <= name@[0] <= 'Z' ==> r,
        name@.len() > 0 && 'a' <= name@[0] <= 'z' ==> !r,
{
    if name.is_empty() {
        false
    } else {
        char_is_uppercase(name.get_char(0))
    }
}

/// Whether `name` starts with `render`.
pub fn has_render_prefix(name: &str) -> (r: bool)
    ensures
        r == starts_with(name@, render_prefix()),
{
    let prefix = "render";
    proof {
        reveal_strlit("render");
    }
    let n = name.unicode_len();
    if n < 6 {
        return false;
    }
    let mut i: usize = 0;
    while i < 6
        invariant
            0 <= i <= 6,
            6 <= n == name@.len(),
            prefix@ == render_prefix(),
            prefix@.len() == 6,
            name@.subrange(0, i as int) == prefix@.subrange(0, i as int),
        decreases 6 - i,
    {
        if name.get_char(i) != prefix.get_char(i) {
            assert(name@.subrange(0, 6)[i as int] != prefix@[i as int]);
            return false;
        }
        assert(name@.subrange(0, i + 1) =~= name@.subrange(0, i as int).push(name@[i as int]));
        assert(prefix@.subrange(0, i + 1) =~= prefix@.subrange(0, i as int).push(prefix@[i as int]));
        i = i + 1;
    }
    assert(prefix@.subrange(0, 6) =~= prefix@);
    true
}

/// Whether an arrow function with parameters `params` is a render callback.
pub fn is_render_callback_params(params: &Vec<Option<String>>) -> (r: bool)
    ensures
        r == is_render_callback(params_view(params@)),
{
    let mut i: usize = 0;
    while i < params.len()
        invariant
            0 <= i <= params@.len(),
            forall|j: int|
                0 <= j < i ==> !((#[trigger] params_view(params@)[j]) is Some && starts_with(
                    params_view(params@)[j]->0,
                    render_prefix(),
                )),
        decreases params@.len() - i,
    {
        match &params[i] {
            Some(p) => {
                if has_render_prefix(p.as_str()) {
                    assert(params_view(params@)[i as int] is Some);
                    return true;
                }
            },
            None => {},
        }
        i = i + 1;
    }
    false
}

} // verus!
