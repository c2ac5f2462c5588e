use vstd::prelude::*;

verus! {

/// The name under which a voice model is registered.
#[derive(Debug)]
pub struct TTSIdent(String);

impl View for TTSIdent {
    type V = Seq<char>;

    closed spec fn view(&self) -> Seq<char> {
        self.0@
    }
}

impl TTSIdent {
    /// Builds an identifier holding a copy of `name`.
    pub fn new(name: &str) -> (ident: TTSIdent)
        ensures
            ident@ == name@,
    {
        TTSIdent(name.to_owned())
    }

    /// The identifier's text.
    pub fn as_str(&self) -> (s: &str)
        ensures
            s@ == self@,
    {
        self.0.as_str()
    }

    /// The identifier rendered as text (what `Display` prints in the CLI).
    pub fn to_string(&self) -> (s: String)
        ensures
            s@ == self@,
    {
        self.0.as_str().to_owned()
    }

    /// A copy of the identifier.
    pub fn duplicate(&self) -> (ident: TTSIdent)
        ensures
            ident@ == self@,
    {
        TTSIdent(self.0.clone())
    }
}

impl PartialEq for TTSIdent {
    fn eq(&self, other: &TTSIdent) -> (r: bool) {
        self.0 == other.0
    }
}

impl Eq for TTSIdent {}

impl vstd::std_specs::cmp::PartialEqSpecImpl for TTSIdent {
    open spec fn obeys_eq_spec() -> bool {
        true
    }

    open spec fn eq_spec(&self, other: &TTSIdent) -> bool {
        self@ == other@
    }
}

} // verus!
