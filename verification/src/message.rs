//! What client and server say to each other.
use crate::image::rescaling::InterpolationType;
use crate::image::{EncryptedImage, Size};
use vstd::prelude::*;

verus! {

/// One message on the wire. A connection carries one request and at most one
/// reply.
pub enum Message {
    /// Check if the server is alive.
    Ping,
    /// The answer to a ping.
    Pong,
    /// Shut down the server.
    Shutdown,
    /// An image: sent to the server to work on, or sent back as a result.
    Image(EncryptedImage),
    /// Rescale the stored image to a new size by the given interpolation.
    Rescale(Size, InterpolationType),
    /// Invert the stored image.
    Invert,
    /// Turn the stored image into grayscale.
    Grayscale,
    /// The server has no image that the request could be carried out on.
    NoImage,
}

impl Message {
    /// Whether the sender of this message is owed a reply.
    pub open spec fn expects_answer(&self) -> bool {
        match self {
            Message::Ping | Message::Rescale(_, _) | Message::Invert | Message::Grayscale => true,
            Message::Pong | Message::Shutdown | Message::Image(_) | Message::NoImage => false,
        }
    }

    /// Whether the message is a request that works on the stored image.
    pub open spec fn needs_image(&self) -> bool {
        match self {
            Message::Rescale(_, _) | Message::Invert | Message::Grayscale => true,
            _ => false,
        }
    }

    /// Whether the sender of this message has to wait for a reply.
    pub fn expect_answer(&self) -> (expected: bool)
        ensures
            expected == self.expects_answer(),
    {
        match self {
            Message::Ping | Message::Rescale(_, _) | Message::Invert | Message::Grayscale => true,
            Message::Pong | Message::Shutdown | Message::Image(_) | Message::NoImage => false,
        }
    }
}

} // verus!
