//! Getting exactly one item out of a query.

use vstd::prelude::*;

verus! {

#[derive(Debug)]
pub enum UniqueErrorKind {
    MoreThanOne { statement_name: &'static str, arguments: String },
    SQLitePosError(String),
}

#[derive(Debug)]
pub struct UniqueError(pub Box<UniqueErrorKind>);

#[derive(Debug)]
pub enum RequiredUniqueErrorKind {
    UniqueError(UniqueError),
    MissingError { item_type_name: &'static str, arguments: String },
}

#[derive(Debug)]
pub struct RequiredUniqueError(pub Box<RequiredUniqueErrorKind>);

/// The item of a unique lookup `r` that must find one; a missing item
/// is reported as `item_type_name` with the description of the lookup's
/// arguments that `arguments` gives (called only then).
pub fn required_unique<R, F: FnOnce() -> String>(
    item_type_name: &'static str,
    arguments: F,
    r: Result<Option<R>, UniqueError>,
) -> (res: Result<R, RequiredUniqueError>)
    requires
        arguments.requires(()),
    ensures
        match r {
            Ok(Some(v)) => res matches Ok(w) && w == v,
            Ok(None) => res matches Err(e) && *e.0 matches RequiredUniqueErrorKind::MissingError {
                item_type_name: n,
                arguments: a,
            } && n == item_type_name && arguments.ensures((), a),
            Err(e) => res matches Err(e2) && *e2.0 == RequiredUniqueErrorKind::UniqueError(e),
        },
{
    match r {
        Ok(Some(v)) => Ok(v),
        Ok(None) => {
            let a = arguments();
            Err(
                RequiredUniqueError(
                    Box::new(RequiredUniqueErrorKind::MissingError { item_type_name, arguments: a }),
                ),
            )
        },
        Err(e) => Err(RequiredUniqueError(Box::new(RequiredUniqueErrorKind::UniqueError(e)))),
    }
}

/// The result of a lookup that may find at most one row, from what the
/// query gave: `first` is the item read from the first row (`None` when
/// there was no row), `another_row` whether a second row followed it.
/// More than one row is an error naming `statement_name` and the
/// description of the lookup's arguments that `arguments` gives (called
/// only then).
pub fn unique_outcome<R, F: FnOnce() -> String>(
    statement_name: &'static str,
    first: Option<R>,
    another_row: bool,
    arguments: F,
) -> (r: Result<Option<R>, UniqueError>)
    requires
        arguments.requires(()),
    ensures
        match first {
            None => r matches Ok(None),
            Some(v) => if another_row {
                r matches Err(e) && *e.0 matches UniqueErrorKind::MoreThanOne {
                    statement_name: n,
                    arguments: a,
                } && n == statement_name && arguments.ensures((), a)
            } else {
                r matches Ok(Some(w)) && w == v
            },
        },
{
    match first {
        None => Ok(None),
        Some(v) => {
            if another_row {
                let a = arguments();
                Err(UniqueError(Box::new(UniqueErrorKind::MoreThanOne { statement_name, arguments: a })))
            } else {
                Ok(Some(v))
            }
        },
    }
}

} // verus!
