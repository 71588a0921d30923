use vstd::prelude::*;

verus! {

/// Size of the terminal in character cells.
#[derive(Clone, Copy, PartialEq, Eq, Debug, Structural)]
pub struct Size {
    pub width: u16,
    pub height: u16,
}

/// What the editor knows of the terminal: its size.
pub struct Terminal {
    size: Size,
}

impl Terminal {
    pub closed spec fn size_view(&self) -> Size {
        self.size
    }

    /// A terminal of the given size.
    pub fn new(size: Size) -> (r: Terminal)
        ensures
            r.size_view() == size,
    {
        Terminal { size }
    }

    pub fn size(&self) -> (r: &Size)
        ensures
            *r == self.size_view(),
    {
        &self.size
    }
}

} // verus!
