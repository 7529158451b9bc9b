use vstd::prelude::*;

verus! {

/// The fully qualified name of a level: dimension, hierarchy and level.
#[derive(Debug, Clone, PartialEq, Eq)]
pub struct LevelName {
    pub dimension: String,
    pub hierarchy: String,
    pub level: String,
}

/// The model of a `LevelName`.
pub struct LevelNameView {
    pub dimension: Seq<char>,
    pub hierarchy: Seq<char>,
    pub level: Seq<char>,
}

impl View for LevelName {
    type V = LevelNameView;

    open spec fn view(&self) -> LevelNameView {
        LevelNameView { dimension: self.dimension@, hierarchy: self.hierarchy@, level: self.level@ }
    }
}

/// The name of a measure.
#[derive(Debug, Clone, PartialEq, Eq)]
pub struct Measure(pub String);

impl View for Measure {
    type V = Seq<char>;

    open spec fn view(&self) -> Seq<char> {
        self.0@
    }
}

impl Measure {
    pub fn new(name: String) -> (r: Measure)
        ensures
            r@ == name@,
    {
        Measure(name)
    }
}

} // verus!
