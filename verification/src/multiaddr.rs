use vstd::prelude::*;

verus! {

/// The descriptor of a network endpoint, kept in its textual form, such as
/// `/ip4/127.0.0.1/tcp/1337`. Two descriptors name the same endpoint when
/// their texts are equal; the text itself is not interpreted here.
#[derive(Debug, PartialEq, Eq, Hash)]
pub struct Multiaddr {
    text: String,
}

impl View for Multiaddr {
    type V = Seq<char>;

    closed spec fn view(&self) -> Seq<char> {
        self.text@
    }
}

impl Clone for Multiaddr {
    fn clone(&self) -> (copy: Self)
        ensures
            copy == *self,
    {
        Multiaddr { text: self.text.clone() }
    }
}

impl Multiaddr {
    /// The descriptor with the given text.
    pub fn new(text: String) -> (addr: Self)
        ensures
            addr@ == text@,
    {
        Multiaddr { text }
    }

    /// The descriptor's text.
    pub fn as_str(&self) -> (text: &str)
        ensures
            text@ == self@,
    {
        self.text.as_str()
    }

    /// Whether both descriptors name the same endpoint.
    pub fn same_as(&self, other: &Multiaddr) -> (r: bool)
        ensures
            r == (self@ == other@),
    {
        self.text == other.text
    }
}

} // verus!
