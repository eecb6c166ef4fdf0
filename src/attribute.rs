use vstd::prelude::*;

use crate::text::push_char;

verus! {

/// An attribute of a tag, built one character at a time.
#[derive(Debug, PartialEq, Eq)]
pub struct Attribute {
    name: String,
    value: String,
}

impl View for Attribute {
    type V = (Seq<char>, Seq<char>);

    closed spec fn view(&self) -> (Seq<char>, Seq<char>) {
        (self.name@, self.value@)
    }
}

impl Attribute {
    pub fn new() -> (r: Attribute)
        ensures
            r@ == (Seq::<char>::empty(), Seq::<char>::empty()),
    {
        Attribute { name: String::new(), value: String::new() }
    }

    /// Appends `c` to the name when `is_name` holds, else to the value.
    pub fn add_char(&mut self, c: char, is_name: bool)
        ensures
            is_name ==> final(self)@ == (old(self)@.0.push(c), old(self)@.1),
            !is_name ==> final(self)@ == (old(self)@.0, old(self)@.1.push(c)),
    {
        if is_name {
            push_char(&mut self.name, c);
        } else {
            push_char(&mut self.value, c);
        }
    }

    pub fn name(&self) -> (r: String)
        ensures
            r@ == self@.0,
    {
        self.name.clone()
    }

    pub fn value(&self) -> (r: String)
        ensures
            r@ == self@.1,
    {
        self.value.clone()
    }
}

} // verus!
