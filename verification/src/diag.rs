//! Errors and warnings that the library reports.

use vstd::prelude::*;
use crate::scene::{seq_view, Span};

verus! {

/// A place in a source file.
#[derive(Debug)]
pub struct SourceLoc {
    pub path: String,
    /// Byte range in the file.
    pub span: Span,
    /// Number of the line, from 1.
    pub line: usize,
    pub line_text: String,
    /// Where the file was pulled in, the outermost place first.
    pub include_trace: Vec<TraceFrame>,
}

/// A place where one file pulls in another.
#[derive(Debug)]
pub struct TraceFrame {
    pub path: String,
    pub span: Span,
    pub line: usize,
    pub line_text: String,
}

/// The value of a [`TraceFrame`].
#[verifier::ext_equal]
pub struct FrameView {
    pub path: Seq<char>,
    pub span: Span,
    pub line: usize,
    pub line_text: Seq<char>,
}

impl View for TraceFrame {
    type V = FrameView;

    open spec fn view(&self) -> FrameView {
        FrameView {
            path: self.path@,
            span: self.span,
            line: self.line,
            line_text: self.line_text@,
        }
    }
}

/// The value of a [`SourceLoc`].
#[verifier::ext_equal]
pub struct LocView {
    pub path: Seq<char>,
    pub span: Span,
    pub line: usize,
    pub line_text: Seq<char>,
    pub include_trace: Seq<FrameView>,
}

impl View for SourceLoc {
    type V = LocView;

    open spec fn view(&self) -> LocView {
        LocView {
            path: self.path@,
            span: self.span,
            line: self.line,
            line_text: self.line_text@,
            include_trace: seq_view(self.include_trace@),
        }
    }
}

/// What can go wrong between a document and a finished video.
#[derive(Debug)]
pub enum CandyError {
    /// A file could not be read.
    Io(String),
    /// The document is malformed.
    Parse(String, Option<SourceLoc>),
    /// An SVG holds no usable scene.
    Svg(String),
    /// Encoding or muxing failed.
    Encode(String),
    /// The hardware encoder failed.
    Libva(String),
    /// A name is used that was not declared: what kind of name, and the name.
    UnknownKey(String, String, Option<SourceLoc>),
    /// A name or a value has the wrong form.
    InvalidKey { what: String, value: String, not_ident: bool, loc: Option<SourceLoc> },
    /// The document does not use the candy package as it must.
    CandyDumpedYou(String, Option<SourceLoc>),
    /// Scenes are put together in a wrong way.
    Scene(String, Option<SourceLoc>),
}

/// The value of a [`CandyError`].
pub enum ErrorView {
    Io(Seq<char>),
    Parse(Seq<char>, Option<LocView>),
    Svg(Seq<char>),
    Encode(Seq<char>),
    Libva(Seq<char>),
    UnknownKey(Seq<char>, Seq<char>, Option<LocView>),
    InvalidKey { what: Seq<char>, value: Seq<char>, not_ident: bool, loc: Option<LocView> },
    CandyDumpedYou(Seq<char>, Option<LocView>),
    Scene(Seq<char>, Option<LocView>),
}

/// The value of an optional place.
pub open spec fn opt_loc(l: Option<SourceLoc>) -> Option<LocView> {
    match l {
        Some(l) => Some(l@),
        None => None,
    }
}

impl View for CandyError {
    type V = ErrorView;

    open spec fn view(&self) -> ErrorView {
        match *self {
            CandyError::Io(m) => ErrorView::Io(m@),
            CandyError::Parse(m, l) => ErrorView::Parse(m@, opt_loc(l)),
            CandyError::Svg(m) => ErrorView::Svg(m@),
            CandyError::Encode(m) => ErrorView::Encode(m@),
            CandyError::Libva(m) => ErrorView::Libva(m@),
            CandyError::UnknownKey(w, n, l) => ErrorView::UnknownKey(w@, n@, opt_loc(l)),
            CandyError::InvalidKey { what, value, not_ident, loc } => ErrorView::InvalidKey {
                what: what@,
                value: value@,
                not_ident,
                loc: opt_loc(loc),
            },
            CandyError::CandyDumpedYou(m, l) => ErrorView::CandyDumpedYou(m@, opt_loc(l)),
            CandyError::Scene(m, l) => ErrorView::Scene(m@, opt_loc(l)),
        }
    }
}

impl CandyError {
    /// The code of the error.
    pub fn code(&self) -> (r: &'static str)
        ensures
            match *self {
                CandyError::Io(_) => r@ == "E001"@,
                CandyError::Parse(_, _) => r@ == "E002"@,
                CandyError::Svg(_) => r@ == "E003"@,
                CandyError::UnknownKey(_, _, _) => r@ == "E006"@,
                CandyError::Encode(_) => r@ == "E007"@,
                CandyError::Libva(_) => r@ == "E007"@,
                CandyError::InvalidKey { .. } => r@ == "E007"@,
                CandyError::CandyDumpedYou(_, _) => r@ == "E008"@,
                CandyError::Scene(_, _) => r@ == "E011"@,
            },
    {
        match self {
            CandyError::Io(_) => "E001",
            CandyError::Parse(_, _) => "E002",
            CandyError::Svg(_) => "E003",
            CandyError::UnknownKey(_, _, _) => "E006",
            CandyError::Encode(_) => "E007",
            CandyError::Libva(_) => "E007",
            CandyError::InvalidKey { .. } => "E007",
            CandyError::CandyDumpedYou(_, _) => "E008",
            CandyError::Scene(_, _) => "E011",
        }
    }
}

/// An error in a document, with the part of the source that it is about.
#[derive(Debug)]
pub enum Fault {
    Parse { message: String, at: Option<Span> },
    UnknownKey { what: String, name: String, at: Option<Span> },
    InvalidKey { what: String, value: String, not_ident: bool, at: Option<Span> },
    DumpedYou { message: String, at: Option<Span> },
    Scene { message: String, at: Option<Span> },
}

/// The value of a [`Fault`].
pub enum FaultView {
    Parse { message: Seq<char>, at: Option<Span> },
    UnknownKey { what: Seq<char>, name: Seq<char>, at: Option<Span> },
    InvalidKey { what: Seq<char>, value: Seq<char>, not_ident: bool, at: Option<Span> },
    DumpedYou { message: Seq<char>, at: Option<Span> },
    Scene { message: Seq<char>, at: Option<Span> },
}

impl View for Fault {
    type V = FaultView;

    open spec fn view(&self) -> FaultView {
        match *self {
            Fault::Parse { message, at } => FaultView::Parse { message: message@, at },
            Fault::UnknownKey { what, name, at } => FaultView::UnknownKey {
                what: what@,
                name: name@,
                at,
            },
            Fault::InvalidKey { what, value, not_ident, at } => FaultView::InvalidKey {
                what: what@,
                value: value@,
                not_ident,
                at,
            },
            Fault::DumpedYou { message, at } => FaultView::DumpedYou { message: message@, at },
            Fault::Scene { message, at } => FaultView::Scene { message: message@, at },
        }
    }
}

/// Something doubtful that stops nothing.
#[derive(Debug)]
pub enum CandyWarn {
    /// A name of the given kind is declared twice in one scope.
    DuplicateName(String, String, Span),
    UnknownEasing(String, Span),
    /// A mobject that is no text cannot be revealed.
    RevealFallback(String, Span),
    /// A keyframe was moved to keep its place between its neighbours.
    KeyframeOffsetClamp(String, Span),
    /// An audio track is left out.
    AudioDropped(String),
    /// The audio track does not go into the container.
    AudioIgnored,
    /// The encoder gave up and is tried once more.
    EncodeRetry,
    /// Another codec is used than the one that was asked for.
    CodecFallback(String),
}

/// The value of a [`CandyWarn`].
pub enum WarnView {
    DuplicateName(Seq<char>, Seq<char>, Span),
    UnknownEasing(Seq<char>, Span),
    RevealFallback(Seq<char>, Span),
    KeyframeOffsetClamp(Seq<char>, Span),
    AudioDropped(Seq<char>),
    AudioIgnored,
    EncodeRetry,
    CodecFallback(Seq<char>),
}

impl View for CandyWarn {
    type V = WarnView;

    open spec fn view(&self) -> WarnView {
        match *self {
            CandyWarn::DuplicateName(what, name, at) => WarnView::DuplicateName(what@, name@, at),
            CandyWarn::UnknownEasing(s, at) => WarnView::UnknownEasing(s@, at),
            CandyWarn::RevealFallback(s, at) => WarnView::RevealFallback(s@, at),
            CandyWarn::KeyframeOffsetClamp(s, at) => WarnView::KeyframeOffsetClamp(s@, at),
            CandyWarn::AudioDropped(s) => WarnView::AudioDropped(s@),
            CandyWarn::AudioIgnored => WarnView::AudioIgnored,
            CandyWarn::EncodeRetry => WarnView::EncodeRetry,
            CandyWarn::CodecFallback(s) => WarnView::CodecFallback(s@),
        }
    }
}

} // verus!
