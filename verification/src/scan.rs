//! The scanning primitives, which are those of `nom`. Their contracts are
//! taken on trust from `nom`'s source; everything built on them is proved.

use crate::text::{find, run_split, Class};
use vstd::prelude::*;

verus! {

/// `nom::bytes::complete::tag`: succeeds exactly when `input` begins with
/// `token`, and then hands back the input that follows it.
#[verifier::external_body]
pub(crate) fn tag<'a>(token: &str, input: &'a str) -> (r: Option<&'a str>)
    ensures
        r is Some <==> token@.is_prefix_of(input@),
        r is Some ==> r.unwrap()@ == input@.skip(token@.len() as int),
{
    match nom::bytes::complete::tag::<&str, &str, nom::error::Error<&str>>(token)(input) {
        Ok((rest, _)) => Some(rest),
        Err(_) => None,
    }
}

/// `nom::character::complete::alpha1`: cuts off the longest non-empty run
/// of ASCII letters at the front of `input`; the result is the rest and the
/// run.
#[verifier::external_body]
pub(crate) fn alpha1<'a>(input: &'a str) -> (r: Option<(&'a str, &'a str)>)
    ensures
        match r {
            Some((rest, word)) => run_split(input@, Class::Alpha) == Some((rest@, word@)),
            None => run_split(input@, Class::Alpha) is None,
        },
{
    match nom::character::complete::alpha1::<&str, nom::error::Error<&str>>(input) {
        Ok(found) => Some(found),
        Err(_) => None,
    }
}

/// `nom::character::complete::alphanumeric1`: as `alpha1`, for ASCII
/// letters and decimal digits.
#[verifier::external_body]
pub(crate) fn alphanumeric1<'a>(input: &'a str) -> (r: Option<(&'a str, &'a str)>)
    ensures
        match r {
            Some((rest, word)) => run_split(input@, Class::AlphaNumeric) == Some((rest@, word@)),
            None => run_split(input@, Class::AlphaNumeric) is None,
        },
{
    match nom::character::complete::alphanumeric1::<&str, nom::error::Error<&str>>(input) {
        Ok(found) => Some(found),
        Err(_) => None,
    }
}

/// `nom::character::complete::digit1`: as `alpha1`, for ASCII decimal
/// digits.
#[verifier::external_body]
pub(crate) fn digit1<'a>(input: &'a str) -> (r: Option<(&'a str, &'a str)>)
    ensures
        match r {
            Some((rest, word)) => run_split(input@, Class::Digit) == Some((rest@, word@)),
            None => run_split(input@, Class::Digit) is None,
        },
{
    match nom::character::complete::digit1::<&str, nom::error::Error<&str>>(input) {
        Ok(found) => Some(found),
        Err(_) => None,
    }
}

/// `nom::character::complete::multispace1`: as `alpha1`, for spaces, tabs,
/// carriage returns and line feeds.
#[verifier::external_body]
pub(crate) fn multispace1<'a>(input: &'a str) -> (r: Option<(&'a str, &'a str)>)
    ensures
        match r {
            Some((rest, word)) => run_split(input@, Class::Space) == Some((rest@, word@)),
            None => run_split(input@, Class::Space) is None,
        },
{
    match nom::character::complete::multispace1::<&str, nom::error::Error<&str>>(input) {
        Ok(found) => Some(found),
        Err(_) => None,
    }
}

/// `nom::bytes::complete::is_not`: cuts off the longest non-empty run of
/// characters that do not occur in `stops`; the result is the rest and the
/// run.
#[verifier::external_body]
pub(crate) fn is_not<'a>(stops: &str, input: &'a str) -> (r: Option<(&'a str, &'a str)>)
    ensures
        match r {
            Some((rest, word)) => run_split(input@, Class::NoneOf(stops@)) == Some(
                (rest@, word@),
            ),
            None => run_split(input@, Class::NoneOf(stops@)) is None,
        },
{
    match nom::bytes::complete::is_not::<&str, &str, nom::error::Error<&str>>(stops)(input) {
        Ok(found) => Some(found),
        Err(_) => None,
    }
}

/// `nom::bytes::complete::take_until`: cuts `input` before the first
/// occurrence of `pat`; the result is the rest, which begins with `pat`, and
/// what stands before it. Fails exactly when `pat` does not occur.
#[verifier::external_body]
pub(crate) fn take_until<'a>(pat: &str, input: &'a str) -> (r: Option<(&'a str, &'a str)>)
    ensures
        match r {
            Some((rest, before)) => find(input@, pat@) == Some(before@.len())
                && before@ == input@.take(before@.len() as int)
                && rest@ == input@.skip(before@.len() as int),
            None => find(input@, pat@) is None,
        },
{
    match nom::bytes::complete::take_until::<&str, &str, nom::error::Error<&str>>(pat)(input) {
        Ok(found) => Some(found),
        Err(_) => None,
    }
}

} // verus!
