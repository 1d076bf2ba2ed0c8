//! The printers that draw images with each graphics protocol.
use crate::terminal::{GraphicsMode, KittyMode};
use std::sync::Arc;
use vstd::prelude::*;

verus! {

/// How the iterm2 protocol sends an image.
#[derive(Clone, Copy, Debug, PartialEq, Eq, Structural)]
pub enum ItermMode {
    /// In a single escape sequence.
    Single,
    /// In chunks.
    Multipart,
}

/// Draws images with the iterm2 protocol.
#[derive(Clone, Copy, Debug, PartialEq, Eq, Structural)]
pub struct ItermPrinter {
    pub mode: ItermMode,
    pub tmux: bool,
}

impl ItermPrinter {
    /// A printer in the given mode, wrapping its sequences for tmux when inside it.
    pub fn new(mode: ItermMode, tmux: bool) -> (p: Self)
        ensures
            p.mode == mode,
            p.tmux == tmux,
    {
        ItermPrinter { mode, tmux }
    }
}

/// Draws images with the kitty protocol.
#[derive(Clone, Copy, Debug, PartialEq, Eq, Structural)]
pub struct KittyPrinter {
    pub mode: KittyMode,
    pub tmux: bool,
}

/// Draws images as blocks of colored half characters.
#[derive(Clone, Copy, Debug, PartialEq, Eq, Structural)]
pub struct AsciiPrinter;

/// Draws images with the sixel protocol.
#[derive(Clone, Copy, Debug, PartialEq, Eq, Structural)]
pub struct SixelPrinter;

/// Keeps images as they are, for exports.
#[derive(Clone, Copy, Debug, PartialEq, Eq, Structural)]
pub struct RawPrinter;

/// A printer for one of the graphics protocols.
#[derive(Clone, Copy, Debug, PartialEq, Eq, Structural)]
pub enum ImagePrinter {
    Kitty(KittyPrinter),
    Iterm(ItermPrinter),
    Ascii(AsciiPrinter),
    Raw(RawPrinter),
    Null,
    Sixel(SixelPrinter),
}

/// A printer could not be created.
#[derive(Clone, Copy, Debug, PartialEq, Eq, Structural)]
pub enum CreatePrinterError {
    /// The protocol has no printer.
    Unsupported,
}

/// The printer for a protocol, wrapping its sequences for tmux when inside it.
pub open spec fn printer_for(mode: GraphicsMode, tmux: bool) -> ImagePrinter {
    match mode {
        GraphicsMode::Kitty { mode } => ImagePrinter::Kitty(KittyPrinter { mode, tmux }),
        GraphicsMode::Iterm2 => ImagePrinter::Iterm(ItermPrinter { mode: ItermMode::Single, tmux }),
        GraphicsMode::Iterm2Multipart => ImagePrinter::Iterm(
            ItermPrinter { mode: ItermMode::Multipart, tmux },
        ),
        GraphicsMode::AsciiBlocks => ImagePrinter::Ascii(AsciiPrinter),
        GraphicsMode::Raw => ImagePrinter::Raw(RawPrinter),
        GraphicsMode::Sixel => ImagePrinter::Sixel(SixelPrinter),
    }
}

impl ImagePrinter {
    /// The printer for the given protocol; `tmux` says whether this runs inside tmux.
    pub fn new(mode: GraphicsMode, tmux: bool) -> (r: Result<Self, CreatePrinterError>)
        ensures
            r == Ok::<ImagePrinter, CreatePrinterError>(printer_for(mode, tmux)),
    {
        let printer = match mode {
            GraphicsMode::Kitty { mode } => ImagePrinter::Kitty(KittyPrinter { mode, tmux }),
            GraphicsMode::Iterm2 => ImagePrinter::Iterm(ItermPrinter::new(ItermMode::Single, tmux)),
            GraphicsMode::Iterm2Multipart => ImagePrinter::Iterm(
                ItermPrinter::new(ItermMode::Multipart, tmux),
            ),
            GraphicsMode::AsciiBlocks => ImagePrinter::new_ascii(),
            GraphicsMode::Raw => ImagePrinter::Raw(RawPrinter),
            GraphicsMode::Sixel => ImagePrinter::Sixel(SixelPrinter),
        };
        Ok(printer)
    }

    /// The printer that draws images as blocks of characters.
    pub fn new_ascii() -> (p: Self)
        ensures
            p == ImagePrinter::Ascii(AsciiPrinter),
    {
        ImagePrinter::Ascii(AsciiPrinter)
    }

    /// Whether this printer can register images; the null printer can't.
    pub fn can_register(&self) -> (b: bool)
        ensures
            b == !(*self is Null),
    {
        match self {
            ImagePrinter::Null => false,
            _ => true,
        }
    }

    /// The name of this printer's protocol.
    pub fn name(&self) -> (s: &'static str)
        ensures
            s@ == printer_name(*self),
    {
        match self {
            ImagePrinter::Kitty(_) => "Kitty",
            ImagePrinter::Iterm(_) => "Iterm",
            ImagePrinter::Ascii(_) => "Ascii",
            ImagePrinter::Null => "Null",
            ImagePrinter::Raw(_) => "Raw",
            ImagePrinter::Sixel(_) => "Sixel",
        }
    }
}

/// The name of a printer's protocol.
pub open spec fn printer_name(p: ImagePrinter) -> Seq<char> {
    match p {
        ImagePrinter::Kitty(_) => "Kitty"@,
        ImagePrinter::Iterm(_) => "Iterm"@,
        ImagePrinter::Ascii(_) => "Ascii"@,
        ImagePrinter::Null => "Null"@,
        ImagePrinter::Raw(_) => "Raw"@,
        ImagePrinter::Sixel(_) => "Sixel"@,
    }
}

impl Default for ImagePrinter {
    fn default() -> (p: Self)
        ensures
            p == ImagePrinter::Ascii(AsciiPrinter),
    {
        ImagePrinter::new_ascii()
    }
}

/// Registers images with a printer, shared between the parts of a presentation.
#[derive(Clone, Debug)]
pub struct ImageRegistry {
    pub printer: Arc<ImagePrinter>,
}

impl ImageRegistry {
    /// A registry that registers images with the given printer.
    pub fn new(printer: Arc<ImagePrinter>) -> (r: Self)
        ensures
            *r.printer == *printer,
    {
        ImageRegistry { printer }
    }
}

} // verus!
