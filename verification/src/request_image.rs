//! Acceptance of a frame that was fetched over HTTP.
use vstd::prelude::*;

verus! {

/// Why a fetched frame was turned down.
#[derive(Clone, Copy, Debug, PartialEq, Eq, Structural)]
pub enum ImageRequestError {
    /// The server answered with a status other than 200.
    BadStatus { status: u16 },
    /// The body of the answer held no byte.
    EmptyBody,
    /// The body did not have the size of a frame.
    WrongSize { expected: usize, got: usize },
}

/// What the check of an answer comes to: the status is looked at first, then
/// whether the body is empty, then its size.
pub open spec fn spec_request_image(status: u16, body: Seq<u8>, buffer_size: usize) -> Result<
    Seq<u8>,
    ImageRequestError,
> {
    if status != 200 {
        Err(ImageRequestError::BadStatus { status })
    } else if body.len() == 0 {
        Err(ImageRequestError::EmptyBody)
    } else if body.len() != buffer_size {
        Err(ImageRequestError::WrongSize { expected: buffer_size, got: body.len() as usize })
    } else {
        Ok(body)
    }
}

/// Decides whether the answer to a request for the frame can go to the
/// display: `status` and `body` are what the server sent, `buffer_size` is
/// the size of the frame that the panel takes. The body is handed back
/// untouched when it is accepted.
pub fn request_image(status: u16, body: Vec<u8>, buffer_size: usize) -> (res: Result<
    Vec<u8>,
    ImageRequestError,
>)
    ensures
        match (res, spec_request_image(status, body@, buffer_size)) {
            (Ok(frame), Ok(expected)) => frame@ == expected,
            (Err(e), Err(expected)) => e == expected,
            _ => false,
        },
{
    if status != 200 {
        return Err(ImageRequestError::BadStatus { status });
    }
    let got = body.len();
    if got == 0 {
        return Err(ImageRequestError::EmptyBody);
    }
    if got != buffer_size {
        return Err(ImageRequestError::WrongSize { expected: buffer_size, got });
    }
    Ok(body)
}

} // verus!
