use vstd::prelude::*;

verus! {

/// The graphics backend the host engine runs on.
#[derive(PartialEq, Eq, Structural, Clone, Copy, Debug)]
pub enum GraphicsBackend {
    OpenGlesEgl,
    Other,
}

/// Why the server does not start.
#[derive(PartialEq, Eq, Structural, Clone, Copy, Debug)]
pub enum StartupError {
    /// The host engine does not run on EGL/GLES, so its context cannot be shared.
    NotEgl,
}

/// The host's GPU context can be shared only on the EGL/GLES backend.
pub fn require_egl(backend: GraphicsBackend) -> (r: Result<(), StartupError>)
    ensures
        r is Ok <==> backend == GraphicsBackend::OpenGlesEgl,
        r is Err ==> r->Err_0 == StartupError::NotEgl,
{
    match backend {
        GraphicsBackend::OpenGlesEgl => Ok(()),
        GraphicsBackend::Other => Err(StartupError::NotEgl),
    }
}

} // verus!
