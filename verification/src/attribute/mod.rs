//! The attribute that says how a model is replicated.

use vstd::prelude::*;
use vstd::string::StringExecFns;

pub mod parser;

use crate::attribute::parser::attribute_of;
use crate::attribute::parser::pairs_view;

verus! {

#[derive(Clone, Debug, PartialEq, Eq)]
pub struct Attribute<'a> {
    pub name: &'a str,
    pub fields: Vec<(&'a str, &'a str)>,
}

pub struct AttributeView {
    pub name: Seq<char>,
    pub fields: Seq<(Seq<char>, Seq<char>)>,
}

impl<'a> View for Attribute<'a> {
    type V = AttributeView;

    open spec fn view(&self) -> AttributeView {
        AttributeView { name: self.name@, fields: pairs_view(self.fields@) }
    }
}

impl AttributeView {
    /// The position of the first field of that name.
    pub open spec fn position(self, name: Seq<char>) -> Option<int> {
        if exists|i: int| 0 <= i < self.fields.len() && self.fields[i].0 == name {
            Some(
                choose|i: int|
                    0 <= i < self.fields.len() && self.fields[i].0 == name && forall|j: int|
                        0 <= j < i ==> self.fields[j].0 != name,
            )
        } else {
            None
        }
    }

    /// The value of the first field of that name.
    pub open spec fn field(self, name: Seq<char>) -> Option<Seq<char>> {
        match self.position(name) {
            Some(i) => Some(self.fields[i].1),
            None => None,
        }
    }
}

impl<'a> Attribute<'a> {
    /// Reads the attribute that `input` begins with.
    pub fn parse(input: &'a str) -> (r: Result<Self, ()>)
        ensures
            match r {
                Ok(attribute) => attribute_of(input@) matches Some((view, _)) && attribute@ == view,
                Err(_) => attribute_of(input@).is_none(),
            },
    {
        match parser::parse(input) {
            Ok((_, attribute)) => Ok(attribute),
            Err(_) => Err(()),
        }
    }

    /// The value of the first field of that name.
    pub fn field(&self, name: &str) -> (r: Option<&'a str>)
        ensures
            match r {
                Some(value) => self@.field(name@) == Some(value@),
                None => self@.field(name@).is_none(),
            },
    {
        let wanted = String::from_str(name);
        let mut i: usize = 0;
        while i < self.fields.len()
            invariant
                i <= self.fields@.len(),
                wanted@ == name@,
                forall|j: int| 0 <= j < i ==> self@.fields[j].0 != name@,
            decreases self.fields@.len() - i,
        {
            if String::from_str(self.fields[i].0) == wanted {
                proof {
                    let k = i as int;
                    assert(0 <= k < self@.fields.len() && self@.fields[k].0 == name@);
                    let chosen = self@.position(name@).unwrap();
                    if chosen < k {
                        assert(self@.fields[chosen].0 != name@);
                    } else if k < chosen {
                        assert(self@.fields[k].0 != name@);
                    }
                }
                return Some(self.fields[i].1);
            }
            i += 1;
        }
        None
    }
}

} // verus!
