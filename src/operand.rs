use crate::text::{decimal, decimal_string};
use vstd::prelude::*;

verus! {

/// One positional argument of a command line.
#[derive(Clone, Debug)]
pub struct Operand {
    value: String,
}

impl View for Operand {
    type V = Seq<char>;

    closed spec fn view(&self) -> Seq<char> {
        self.value@
    }
}

impl Operand {
    pub fn new(value: &str) -> (r: Operand)
        ensures
            r@ == value@,
    {
        Operand { value: value.to_owned() }
    }

    pub fn value(&self) -> (r: &str)
        ensures
            r@ == self@,
    {
        self.value.as_str()
    }
}

pub open spec fn operand_texts(v: Seq<Operand>) -> Seq<Seq<char>> {
    v.map_values(|o: Operand| o@)
}

/// A command received fewer operands than it needs: those it received, and how many it expected.
#[derive(Clone, Debug)]
pub struct MissingOperandError(pub Vec<Operand>, pub usize);

impl MissingOperandError {
    pub open spec fn text(&self) -> Seq<char> {
        "not enough operands provided. Received "@ + decimal(self.0@.len()) + ", expected "@ + decimal(
            self.1 as nat,
        )
    }

    pub fn message(&self) -> (r: String)
        ensures
            r@ == self.text(),
    {
        let mut r = String::from_str("not enough operands provided. Received ");
        let got = decimal_string(self.0.len());
        r.append(got.as_str());
        r.append(", expected ");
        let want = decimal_string(self.1);
        r.append(want.as_str());
        r
    }
}

} // verus!
