use vstd::prelude::*;

verus! {

/// A named stage of compilation, such as a dialect level that a module is lowered through.
#[derive(Debug)]
pub struct ConversionStage {
    name: String,
}

impl View for ConversionStage {
    type V = Seq<char>;

    closed spec fn view(&self) -> Seq<char> {
        self.name@
    }
}

impl ConversionStage {
    pub fn new(name: &str) -> (r: ConversionStage)
        ensures
            r@ == name@,
    {
        ConversionStage { name: name.to_string() }
    }

    pub fn from_string(name: String) -> (r: ConversionStage)
        ensures
            r@ == name@,
    {
        ConversionStage { name }
    }

    pub fn as_str(&self) -> (r: &str)
        ensures
            r@ == self@,
    {
        self.name.as_str()
    }

    /// The text of the stage.
    pub fn to_string(&self) -> (r: String)
        ensures
            r@ == self@,
    {
        self.name.clone()
    }

    pub fn same(&self, other: &ConversionStage) -> (r: bool)
        ensures
            r == (self@ == other@),
    {
        self.name == other.name
    }

    pub fn clone_stage(&self) -> (r: ConversionStage)
        ensures
            r@ == self@,
    {
        ConversionStage { name: self.name.clone() }
    }
}

} // verus!
