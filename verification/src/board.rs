use vstd::prelude::*;

verus! {

/// The configuration of a board on which a benchmark ran. Two configurations
/// are the same board exactly when their identifiers are equal; the name and
/// the tags are for display.
#[derive(Debug, PartialEq, Eq)]
pub struct BoardConfig {
    /// The 128 bits of the configuration's identifier.
    pub id: u128,
    pub name: String,
    pub tags: Vec<String>,
}

/// The mathematical value of a [`BoardConfig`].
pub struct BoardConfigView {
    pub id: u128,
    pub name: Seq<char>,
    pub tags: Seq<Seq<char>>,
}

impl View for BoardConfig {
    type V = BoardConfigView;

    open spec fn view(&self) -> BoardConfigView {
        BoardConfigView { id: self.id, name: self.name@, tags: self.tags.deep_view() }
    }
}

impl DeepView for BoardConfig {
    type V = BoardConfigView;

    open spec fn deep_view(&self) -> BoardConfigView {
        self@
    }
}

impl Clone for BoardConfig {
    fn clone(&self) -> (res: Self)
        ensures
            res@ == self@,
    {
        let tags = self.tags.clone();
        assert(tags.deep_view() == self.tags.deep_view());
        BoardConfig { id: self.id, name: self.name.clone(), tags }
    }
}

} // verus!
