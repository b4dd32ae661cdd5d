//! The assembly protocol that render functions drive, and its string builders.

use vstd::prelude::*;
use vstd::string::*;
use std::borrow::Cow;

verus! {

/// Builds a rendered message from constant text and string parameters.
pub trait Builder: Sized {
    /// What a finished builder produces.
    type Output;

    /// The output for an empty message.
    fn empty() -> Self::Output {
        Self::const_str("")
    }

    /// The output for a message that is one literal.
    fn const_str(i: &'static str) -> Self::Output {
        Self::new().push_const_str(i).finish()
    }

    /// A builder holding nothing.
    fn new() -> Self;

    /// Appends literal text of the message.
    fn push_const_str(self, i: &'static str) -> Self {
        self.push_str(i)
    }

    /// Appends a string parameter.
    fn push_str(self, i: &str) -> Self;

    /// The output.
    fn finish(self) -> Self::Output;
}

/// A builder that takes typed parameters by reference.
pub trait BuilderFromRef<Input: ?Sized>: Builder {
    /// Appends a typed parameter.
    fn push(self, i: &Input) -> Self;
}

/// A builder that takes typed parameters by value.
pub trait BuilderFromValue<Input>: Builder {
    /// Appends a typed parameter.
    fn push(self, i: Input) -> Self;
}

/// Appends `i` to `s`.
pub fn append_str(s: String, i: &str) -> (r: String)
    ensures
        r@ == s@ + i@,
{
    let mut s = s;
    s.append(i);
    s
}

impl Builder for String {
    type Output = String;

    fn empty() -> String {
        String::new()
    }

    fn const_str(i: &'static str) -> String {
        i.to_owned()
    }

    fn new() -> String {
        String::new()
    }

    fn push_str(self, i: &str) -> String {
        append_str(self, i)
    }

    fn finish(self) -> String {
        self
    }
}

/// Appends `i` to the text of `c`, which becomes owned.
pub fn append_cow(c: Cow<'static, str>, i: &str) -> (r: Cow<'static, str>)
    ensures
        r@ == c@ + i@,
{
    match c {
        Cow::Borrowed(b) => {
            let o = b.to_owned();
            Cow::Owned(append_str(o, i))
        },
        Cow::Owned(o) => Cow::Owned(append_str(o, i)),
    }
}

impl Builder for Cow<'static, str> {
    type Output = Cow<'static, str>;

    fn const_str(i: &'static str) -> Cow<'static, str> {
        Cow::Borrowed(i)
    }

    fn new() -> Cow<'static, str> {
        Cow::Owned(String::new())
    }

    fn push_str(self, i: &str) -> Cow<'static, str> {
        append_cow(self, i)
    }

    fn finish(self) -> Cow<'static, str> {
        self
    }
}

} // verus!
