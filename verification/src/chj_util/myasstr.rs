//! Getting a `&str` out of the string types alike.

use vstd::prelude::*;

verus! {

pub trait MyAsStr {
    /// The characters the value stands for.
    spec fn str_view(&self) -> Seq<char>;

    fn my_as_str(&self) -> (r: &str)
        ensures
            r@ == self.str_view(),
    ;
}

impl MyAsStr for str {
    open spec fn str_view(&self) -> Seq<char> {
        self@
    }

    fn my_as_str(&self) -> (r: &str) {
        self
    }
}

impl<'a> MyAsStr for &'a str {
    open spec fn str_view(&self) -> Seq<char> {
        (*self)@
    }

    fn my_as_str(&self) -> (r: &str) {
        *self
    }
}

impl<'a, 'b> MyAsStr for &'a &'b str {
    open spec fn str_view(&self) -> Seq<char> {
        (**self)@
    }

    fn my_as_str(&self) -> (r: &str) {
        **self
    }
}

impl MyAsStr for String {
    open spec fn str_view(&self) -> Seq<char> {
        self@
    }

    fn my_as_str(&self) -> (r: &str) {
        self.as_str()
    }
}

impl<'a> MyAsStr for &'a String {
    open spec fn str_view(&self) -> Seq<char> {
        (*self)@
    }

    fn my_as_str(&self) -> (r: &str) {
        self.as_str()
    }
}

} // verus!
