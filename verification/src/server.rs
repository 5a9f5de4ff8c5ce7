//! The session: one stored image, one request at a time, until shut down.
use crate::crypt::computable_image;
use crate::crypt::scheme::ServerKeyType;
use crate::image::pixel_operations::{grayscale, invert, is_grayscale, is_inversion};
use crate::image::rescaling::{can_rescale, is_bilinear, is_nearest, rescale, InterpolationType};
use crate::image::{EncryptedImage, Size};
use crate::message::Message;
use vstd::prelude::*;

verus! {

/// The state of a session: the evaluation key, the image that was sent last,
/// and whether the session has been shut down.
pub struct Server {
    key: ServerKeyType,
    image: Option<EncryptedImage>,
    stopped: bool,
}

impl Server {
    /// The evaluation key of the session.
    pub closed spec fn key(&self) -> ServerKeyType {
        self.key
    }

    /// The image that requests work on, if one was sent.
    pub closed spec fn stored(&self) -> Option<EncryptedImage> {
        self.image
    }

    /// Whether the session has been shut down.
    pub closed spec fn stopped(&self) -> bool {
        self.stopped
    }

    /// The stored image, if there is one, is complete and of the layout that
    /// the key computes on.
    pub open spec fn wf(&self) -> bool {
        self.stored() matches Some(image) ==> image.wf() && computable_image(self.key(), image)
    }

    /// A message that the session can take: an image in it is complete and of
    /// the layout that the key computes on.
    pub open spec fn accepts(&self, message: Message) -> bool {
        message matches Message::Image(image) ==> image.wf() && computable_image(
            self.key(),
            image,
        )
    }

    /// What a request that works on `image` is answered with: the result where
    /// the operation is defined for the image, `NoImage` where it is not.
    pub open spec fn answers(&self, image: EncryptedImage, request: Message, reply: Message) -> bool {
        match request {
            Message::Rescale(size, interpolation_type) => if can_rescale(image.size, size) {
                &&& reply matches Message::Image(rescaled)
                &&& computable_image(self.key(), rescaled)
                &&& interpolation_type == InterpolationType::Nearest ==> is_nearest(
                    image,
                    size,
                    rescaled,
                )
                &&& interpolation_type == InterpolationType::Bilinear ==> is_bilinear(
                    self.key(),
                    image,
                    size,
                    rescaled,
                )
            } else {
                reply == Message::NoImage
            },
            Message::Invert => {
                &&& reply matches Message::Image(inverted)
                &&& is_inversion(self.key(), image, inverted)
            },
            Message::Grayscale => if image.color_type == crate::image::ColorType::Rgb
                || image.color_type == crate::image::ColorType::Rgba {
                &&& reply matches Message::Image(gray)
                &&& is_grayscale(self.key(), image, gray)
            } else {
                reply == Message::NoImage
            },
            _ => false,
        }
    }

    /// `after` and `reply` are what handling `message` in state `self` leads
    /// to. A session that was shut down takes no message. Otherwise a ping is
    /// answered, an image replaces the stored one, a shutdown ends the session,
    /// a request for work is answered with its result or with `NoImage`, and
    /// what only a server sends is passed over.
    pub open spec fn handled(&self, message: Message, after: Server, reply: Option<Message>) -> bool {
        &&& after.key() == self.key()
        &&& if self.stopped() {
            after.stopped() && after.stored() == self.stored() && reply is None
        } else {
            match message {
                Message::Ping => {
                    &&& reply == Some(Message::Pong)
                    &&& after.stored() == self.stored()
                    &&& !after.stopped()
                },
                Message::Shutdown => {
                    &&& reply is None
                    &&& after.stored() == self.stored()
                    &&& after.stopped()
                },
                Message::Image(image) => {
                    &&& reply is None
                    &&& after.stored() == Some(image)
                    &&& !after.stopped()
                },
                Message::Rescale(_, _) | Message::Invert | Message::Grayscale => {
                    &&& after.stored() == self.stored()
                    &&& !after.stopped()
                    &&& match self.stored() {
                        None => reply == Some(Message::NoImage),
                        Some(image) => reply matches Some(answer) && self.answers(
                            image,
                            message,
                            answer,
                        ),
                    }
                },
                Message::Pong | Message::NoImage => {
                    &&& reply is None
                    &&& after.stored() == self.stored()
                    &&& !after.stopped()
                },
            }
        }
    }

    /// A session with the given key and no image.
    pub fn new(key: ServerKeyType) -> (server: Self)
        ensures
            server.key() == key,
            server.stored() is None,
            !server.stopped(),
            server.wf(),
    {
        Self { key, image: None, stopped: false }
    }

    /// Whether the session still takes messages.
    pub fn is_running(&self) -> (running: bool)
        ensures
            running == !self.stopped(),
    {
        !self.stopped
    }

    /// Whether an image is stored.
    pub fn has_image(&self) -> (stored: bool)
        ensures
            stored == self.stored() is Some,
    {
        self.image.is_some()
    }

    /// Take one message: change the state as the message asks and say what
    /// is to be sent back, if anything.
    pub fn handle(&mut self, message: Message) -> (reply: Option<Message>)
        requires
            old(self).wf(),
            old(self).accepts(message),
        ensures
            final(self).wf(),
            old(self).handled(message, *final(self), reply),
    {
        if self.stopped {
            return None;
        }
        match message {
            Message::Ping => Some(Message::Pong),
            Message::Shutdown => {
                self.stopped = true;
                None
            },
            Message::Image(image) => {
                self.image = Some(image);
                None
            },
            Message::Rescale(size, interpolation_type) => {
                match &self.image {
                    None => Some(Message::NoImage),
                    Some(image) => {
                        if Self::has_pixels_for(&image.size, &size) {
                            Some(Message::Image(rescale(image, &self.key, size, interpolation_type)))
                        } else {
                            Some(Message::NoImage)
                        }
                    },
                }
            },
            Message::Invert => {
                match &self.image {
                    None => Some(Message::NoImage),
                    Some(image) => Some(Message::Image(invert(image, &self.key))),
                }
            },
            Message::Grayscale => {
                match &self.image {
                    None => Some(Message::NoImage),
                    Some(image) => {
                        match grayscale(image, &self.key) {
                            Some(gray) => Some(Message::Image(gray)),
                            None => Some(Message::NoImage),
                        }
                    },
                }
            },
            Message::Pong | Message::NoImage => None,
        }
    }

    /// Whether an image of size `size` has a pixel for every pixel of one of
    /// size `new_size`.
    pub fn has_pixels_for(size: &Size, new_size: &Size) -> (enough: bool)
        ensures
            enough == can_rescale(*size, *new_size),
    {
        new_size.width == 0 || new_size.height == 0 || (size.width > 0 && size.height > 0)
    }
}

/// After a shutdown the session takes nothing: whatever arrives next leaves the
/// state as it is and is not answered.
pub proof fn lemma_shutdown_is_final(
    server: Server,
    stopped: Server,
    reply: Option<Message>,
    next: Message,
    after: Server,
    answer: Option<Message>,
)
    requires
        server.handled(Message::Shutdown, stopped, reply),
        stopped.handled(next, after, answer),
    ensures
        reply is None,
        stopped.stopped(),
        answer is None,
        after.stopped(),
        after.stored() == server.stored(),
        after.key() == server.key(),
{
}

/// A request for work that arrives before any image is answered with
/// `NoImage`, and leaves the session without an image.
pub proof fn lemma_work_needs_image(
    server: Server,
    request: Message,
    after: Server,
    reply: Option<Message>,
)
    requires
        !server.stopped(),
        server.stored() is None,
        request.needs_image(),
        server.handled(request, after, reply),
    ensures
        reply == Some(Message::NoImage),
        after.stored() is None,
        !after.stopped(),
{
}

/// A second image replaces the first: the request that follows is answered
/// from the second image alone.
pub proof fn lemma_image_replaces(
    server: Server,
    first: EncryptedImage,
    with_first: Server,
    second: EncryptedImage,
    with_second: Server,
    request: Message,
    after: Server,
    reply: Option<Message>,
)
    requires
        !server.stopped(),
        server.handled(Message::Image(first), with_first, None),
        with_first.handled(Message::Image(second), with_second, None),
        request.needs_image(),
        with_second.handled(request, after, reply),
    ensures
        with_second.stored() == Some(second),
        after.stored() == Some(second),
        reply matches Some(answer) && with_second.answers(second, request, answer),
{
}

} // verus!
