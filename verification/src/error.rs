use vstd::prelude::*;

verus! {

/// Declares the error type of the `image` crate, so that it can be carried
/// as the source of an error of this library.
#[verifier::external_type_specification]
#[verifier::external_body]
pub struct ExImageError(image::ImageError);

/// What caused an error: the error of an outside crate, or of another part
/// of this library.
pub enum ErrorSource {
    /// An image could not be decoded.
    Image(image::ImageError),
    /// A font could not be parsed; the message is the font crate's own.
    Font(&'static str),
    /// The renderer failed.
    Renderer(Box<RendererError>),
    /// Any other cause, described by its message.
    Other(String),
}

/// The error of the engine: a message, and optionally what caused it.
pub struct AgeError {
    message: String,
    source: Option<ErrorSource>,
}

/// The result of a fallible operation of the engine.
pub type AgeResult<T> = Result<T, AgeError>;

impl AgeError {
    /// The message of the error.
    pub closed spec fn message_spec(&self) -> Seq<char> {
        self.message@
    }

    /// Whether the error has a source.
    pub closed spec fn has_source(&self) -> bool {
        self.source is Some
    }

    /// The source of the error.
    pub closed spec fn source_spec(&self) -> Option<ErrorSource> {
        self.source
    }

    /// Builds an error with the given message and no source.
    pub fn new(message: &str) -> (e: Self)
        ensures
            e.message_spec() == message@,
            !e.has_source(),
    {
        AgeError { message: message.to_owned(), source: None }
    }

    /// The error with its source set to `source`.
    pub fn with_source(self, source: ErrorSource) -> (e: Self)
        ensures
            e.message_spec() == self.message_spec(),
            e.has_source(),
            e.source_spec() == Some(source),
    {
        AgeError { message: self.message, source: Some(source) }
    }

    /// The message, as the error displays itself.
    pub fn to_string(&self) -> (s: String)
        ensures
            s@ == self.message_spec(),
    {
        self.message.clone()
    }

    /// The source of the error, if it has one.
    pub fn source(&self) -> (s: Option<&ErrorSource>)
        ensures
            s is Some == self.has_source(),
            s matches Some(x) ==> self.source_spec() == Some(*x),
    {
        match &self.source {
            Some(s) => Some(s),
            None => None,
        }
    }
}

/// The error of the renderer: a message, and optionally what caused it.
pub struct RendererError {
    msg: String,
    src: Option<ErrorSource>,
}

impl RendererError {
    /// The message of the error.
    pub closed spec fn message_spec(&self) -> Seq<char> {
        self.msg@
    }

    /// Whether the error has a source.
    pub closed spec fn has_source(&self) -> bool {
        self.src is Some
    }

    /// The source of the error.
    pub closed spec fn source_spec(&self) -> Option<ErrorSource> {
        self.src
    }

    /// Builds an error with the given message and no source.
    pub fn new(msg: &str) -> (e: Self)
        ensures
            e.message_spec() == msg@,
            !e.has_source(),
    {
        RendererError { msg: msg.to_owned(), src: None }
    }

    /// The error with its source set to `source`.
    pub fn with_source(self, source: ErrorSource) -> (e: Self)
        ensures
            e.message_spec() == self.message_spec(),
            e.has_source(),
            e.source_spec() == Some(source),
    {
        RendererError { msg: self.msg, src: Some(source) }
    }

    /// The message, as the error displays itself.
    pub fn to_string(&self) -> (s: String)
        ensures
            s@ == self.message_spec(),
    {
        self.msg.clone()
    }

    /// The source of the error, if it has one.
    pub fn source(&self) -> (s: Option<&ErrorSource>)
        ensures
            s is Some == self.has_source(),
            s matches Some(x) ==> self.source_spec() == Some(*x),
    {
        match &self.src {
            Some(s) => Some(s),
            None => None,
        }
    }
}

/// The message of the engine error that wraps a renderer error.
pub open spec fn renderer_failed_message() -> Seq<char> {
    seq!['a', ' ', 'r', 'e', 'n', 'd', 'e', 'r', 'e', 'r', ' ', 'e', 'r', 'r', 'o', 'r', ' ',
        'o', 'c', 'c', 'u', 'r', 'r', 'e', 'd']
}

impl core::convert::From<RendererError> for AgeError {
    /// Wraps a renderer error as the source of an engine error.
    fn from(value: RendererError) -> (e: AgeError)
        ensures
            e.message_spec() == renderer_failed_message(),
            e.source_spec() == Some(ErrorSource::Renderer(Box::new(value))),
    {
        let msg = "a renderer error occurred";
        proof {
            reveal_strlit("a renderer error occurred");
        }
        AgeError { message: msg.to_owned(), source: Some(ErrorSource::Renderer(Box::new(value))) }
    }
}

impl vstd::std_specs::convert::FromSpecImpl<RendererError> for AgeError {
    /// No value of `AgeError` can be written in a specification (its message
    /// is a `String`), so the conversion is described by the `ensures` of
    /// `from` instead.
    open spec fn obeys_from_spec() -> bool {
        false
    }

    open spec fn from_spec(value: RendererError) -> AgeError {
        arbitrary()
    }
}

/// The message of the error for bytes that are no image.
pub open spec fn image_error_message() -> Seq<char> {
    seq!['a', 'n', ' ', 'i', 'm', 'a', 'g', 'e', ' ', 'p', 'r', 'o', 'c', 'e', 's', 's', 'i', 'n',
        'g', ' ', 'e', 'r', 'r', 'o', 'r', ' ', 'o', 'c', 'c', 'u', 'r', 'r', 'e', 'd']
}

impl core::convert::From<image::ImageError> for AgeError {
    /// Wraps an error of the image decoder as the source of an engine error.
    fn from(err: image::ImageError) -> (e: AgeError)
        ensures
            e.message_spec() == image_error_message(),
            e.source_spec() == Some(ErrorSource::Image(err)),
            e.has_source(),
    {
        let msg = "an image processing error occurred";
        proof {
            reveal_strlit("an image processing error occurred");
        }
        AgeError::new(msg).with_source(ErrorSource::Image(err))
    }
}

impl vstd::std_specs::convert::FromSpecImpl<image::ImageError> for AgeError {
    /// No value of `AgeError` can be written in a specification (its message
    /// is a `String`), so the conversion is described by the `ensures` of
    /// `from` instead.
    open spec fn obeys_from_spec() -> bool {
        false
    }

    open spec fn from_spec(err: image::ImageError) -> AgeError {
        arbitrary()
    }
}

} // verus!
