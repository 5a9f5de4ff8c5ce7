//! What the command line asks for, and what follows from it.
use crate::image::rescaling::{interpolation_name, InterpolationType};
use crate::image::{size_name, Size};
use crate::message::Message;
use vstd::prelude::*;
use vstd::string::StringExecFns;

verus! {

/// Where the server is reached unless the command line says otherwise.
pub const DEFAULT_ADDRESS: &'static str = "127.0.0.1:34347";

/// The command line: a command and the address of the server.
pub struct Arguments {
    /// A command to run
    pub command: Command,
    /// The server address
    pub address: String,
}

/// What is to be done.
pub enum Command {
    /// Start a server
    Server,
    /// Ping the server
    Ping,
    /// Tell the server to shut down
    Shutdown,
    /// Send an image to the server
    Load(LoadCommand),
    /// Rescale the image stored on the server
    Rescale(RescaleCommand),
    /// Invert the image stored on the server
    Invert,
    /// Turn the image stored on the server into grayscale
    Grayscale,
}

/// Which image to send.
pub struct LoadCommand {
    /// The path to the image
    pub file: String,
}

/// How to rescale. Exactly one of the two kinds of interpolation is chosen.
#[derive(Clone, Copy, Debug, PartialEq, Eq, Structural)]
pub struct RescaleCommand {
    /// Use bilinear interpolation
    pub bilinear: bool,
    /// Use nearest-neighbour interpolation
    pub nearest: bool,
    /// The new width of the image
    pub width: u16,
    /// The new height of the image
    pub height: u16,
}

impl RescaleCommand {
    /// Exactly one kind of interpolation is chosen.
    pub open spec fn wf(&self) -> bool {
        self.bilinear != self.nearest
    }

    /// The kind of interpolation that the command asks for: bilinear where it
    /// is chosen, else nearest neighbour.
    pub open spec fn chosen(&self) -> InterpolationType {
        if self.bilinear {
            InterpolationType::Bilinear
        } else {
            InterpolationType::Nearest
        }
    }

    /// The size that the command asks for.
    pub open spec fn target(&self) -> Size {
        Size { width: self.width, height: self.height }
    }

    /// Whether exactly one kind of interpolation is chosen.
    pub fn is_valid(&self) -> (valid: bool)
        ensures
            valid == self.wf(),
    {
        self.bilinear != self.nearest
    }

    /// The kind of interpolation that the command asks for.
    pub fn interpolation_type(&self) -> (interpolation_type: InterpolationType)
        ensures
            interpolation_type == self.chosen(),
    {
        if self.bilinear {
            InterpolationType::Bilinear
        } else {
            InterpolationType::Nearest
        }
    }

    /// The size that the command asks for.
    pub fn size(&self) -> (size: Size)
        ensures
            size == self.target(),
    {
        Size { width: self.width, height: self.height }
    }
}

impl Command {
    /// The message that the command sends to the server without further ado;
    /// none for the commands that first have to start a server or read a file.
    pub open spec fn asks(&self) -> Option<Message> {
        match self {
            Command::Ping => Some(Message::Ping),
            Command::Shutdown => Some(Message::Shutdown),
            Command::Rescale(rescale) => Some(Message::Rescale(rescale.target(), rescale.chosen())),
            Command::Invert => Some(Message::Invert),
            Command::Grayscale => Some(Message::Grayscale),
            Command::Server | Command::Load(_) => None,
        }
    }

    /// Where the image that answers the command is written; none for the
    /// commands that are answered by no image.
    pub open spec fn writes(&self) -> Option<Seq<char>> {
        match self {
            Command::Rescale(rescale) => Some(
                "data/output/rescaled-"@ + interpolation_name(rescale.chosen()) + "-"@ + size_name(
                    rescale.target(),
                ) + ".png"@,
            ),
            Command::Invert => Some("data/output/inverted.png"@),
            Command::Grayscale => Some("data/output/grayscale.png"@),
            _ => None,
        }
    }

    /// The message that the command sends to the server without further ado.
    pub fn request(&self) -> (message: Option<Message>)
        ensures
            message == self.asks(),
    {
        match self {
            Command::Ping => Some(Message::Ping),
            Command::Shutdown => Some(Message::Shutdown),
            Command::Rescale(rescale) => Some(
                Message::Rescale(rescale.size(), rescale.interpolation_type()),
            ),
            Command::Invert => Some(Message::Invert),
            Command::Grayscale => Some(Message::Grayscale),
            Command::Server | Command::Load(_) => None,
        }
    }

    /// Where the image that answers the command is written.
    pub fn output_file(&self) -> (file: Option<String>)
        ensures
            match file {
                Some(path) => self.writes() == Some(path@),
                None => self.writes() is None,
            },
    {
        match self {
            Command::Rescale(rescale) => {
                let size = rescale.size().text();
                let path = String::from_str("data/output/rescaled-").concat(
                    rescale.interpolation_type().name(),
                ).concat("-").concat(size.as_str()).concat(".png");
                Some(path)
            },
            Command::Invert => Some(String::from_str("data/output/inverted.png")),
            Command::Grayscale => Some(String::from_str("data/output/grayscale.png")),
            _ => None,
        }
    }
}

} // verus!
