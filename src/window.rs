//! Options of the window that shows the frame buffer.
use vstd::prelude::*;

verus! {

pub struct WindowOptions {
    title: String,
    height: u16,
    width: u16,
}

impl WindowOptions {
    pub closed spec fn spec_title(&self) -> Seq<char> {
        self.title@
    }

    pub closed spec fn spec_height(&self) -> u16 {
        self.height
    }

    pub closed spec fn spec_width(&self) -> u16 {
        self.width
    }

    pub fn title(&self) -> (r: &String)
        ensures
            r@ == self.spec_title(),
    {
        &self.title
    }

    /// Logical height of the frame buffer, in pixels.
    pub fn height(&self) -> (r: u16)
        ensures
            r == self.spec_height(),
    {
        self.height
    }

    /// Logical width of the frame buffer, in pixels.
    pub fn width(&self) -> (r: u16)
        ensures
            r == self.spec_width(),
    {
        self.width
    }
}

impl Default for WindowOptions {
    /// A window titled `Application` over a 64 by 32 pixel frame buffer.
    fn default() -> (r: Self)
        ensures
            r.spec_title() == "Application"@,
            r.spec_height() == 32,
            r.spec_width() == 64,
    {
        Self { title: "Application".to_owned(), height: 32, width: 64 }
    }
}

} // verus!
