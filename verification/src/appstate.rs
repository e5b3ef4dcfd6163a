//! What an application keeps of the surface it draws to.

use vstd::prelude::*;

verus! {

/// The size a surface is configured with.
#[derive(Debug)]
pub struct AppState {
    width: u32,
    height: u32,
    is_surface_configured: bool,
}

impl AppState {
    /// The size of the surface.
    pub closed spec fn spec_size(&self) -> (u32, u32) {
        (self.width, self.height)
    }

    /// Whether the surface has been configured.
    pub closed spec fn spec_configured(&self) -> bool {
        self.is_surface_configured
    }

    /// The state of a surface that has been configured with a size.
    pub fn new(width: u32, height: u32) -> (state: Self)
        ensures
            state.spec_size() == (width, height),
            state.spec_configured(),
    {
        AppState { width, height, is_surface_configured: true }
    }

    /// Takes a new size. A size with no width or no height is ignored. For
    /// any other, the size is recorded, and the answer says that the surface
    /// is to be configured with it.
    pub fn resize(&mut self, width: u32, height: u32) -> (configure: bool)
        ensures
            configure == (width > 0 && height > 0),
            configure ==> final(self).spec_size() == (width, height),
            configure ==> final(self).spec_configured(),
            !configure ==> *final(self) == *old(self),
    {
        if width > 0 && height > 0 {
            self.width = width;
            self.height = height;
            self.is_surface_configured = true;
            true
        } else {
            false
        }
    }

    pub fn size(&self) -> (size: (u32, u32))
        ensures
            size == self.spec_size(),
    {
        (self.width, self.height)
    }

    pub fn is_surface_configured(&self) -> (configured: bool)
        ensures
            configured == self.spec_configured(),
    {
        self.is_surface_configured
    }
}

} // verus!
