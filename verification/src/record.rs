//! The catalog's record type: a labeled emoticon with its search tags.
use vstd::prelude::*;

verus! {

/// The mathematical shape of a record: its fields as character sequences.
pub struct RecordView {
    pub text: Seq<char>,
    pub name: Seq<char>,
    pub tags: Seq<Seq<char>>,
}

/// One catalog entry: the display `text`, the unique `name` that serves as
/// the record's identity, and its ordered `search_tags`.
#[derive(Debug)]
pub struct Kaomoji {
    pub text: String,
    pub name: String,
    pub search_tags: Vec<String>,
}

impl View for Kaomoji {
    type V = RecordView;

    open spec fn view(&self) -> RecordView {
        RecordView { text: self.text@, name: self.name@, tags: self.search_tags.deep_view() }
    }
}

impl DeepView for Kaomoji {
    type V = RecordView;

    open spec fn deep_view(&self) -> RecordView {
        self.view()
    }
}

impl Clone for Kaomoji {
    fn clone(&self) -> (r: Self)
        ensures
            r@ == self@,
    {
        let r = Kaomoji {
            text: self.text.clone(),
            name: self.name.clone(),
            search_tags: self.search_tags.clone(),
        };
        proof {
            assert(r.search_tags.deep_view() =~= self.search_tags.deep_view());
        }
        r
    }
}

impl PartialEq for Kaomoji {
    /// Two records are the same exactly when their names are: the name is
    /// the sole equality key.
    fn eq(&self, other: &Self) -> (r: bool)
        ensures
            r == (self.name@ == other.name@),
    {
        self.name == other.name
    }
}

impl vstd::std_specs::cmp::PartialEqSpecImpl for Kaomoji {
    open spec fn obeys_eq_spec() -> bool {
        true
    }

    open spec fn eq_spec(&self, other: &Self) -> bool {
        self.name@ == other.name@
    }
}

} // verus!
