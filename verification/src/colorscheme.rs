//! Colour palettes: seven colour slots per severity, and the resolver that
//! answers with a complete palette for every severity.

use crate::level::Level;
use vstd::prelude::*;

verus! {

/// The colour codes of one palette, each the parameter part of an ANSI
/// "select graphic rendition" escape (for example `38;5;246`).
#[derive(Debug, Clone, Copy)]
pub struct ColorScheme<'a> {
    pub level: &'a str,
    pub header: &'a str,
    pub context: &'a str,
    pub cid: &'a str,
    pub msg: &'a str,
    pub key: &'a str,
    pub value: &'a str,
}

/// A palette as plain text: what a `ColorScheme` stands for in contracts.
pub struct Palette {
    pub level: Seq<char>,
    pub header: Seq<char>,
    pub context: Seq<char>,
    pub cid: Seq<char>,
    pub msg: Seq<char>,
    pub key: Seq<char>,
    pub value: Seq<char>,
}

impl<'a> View for ColorScheme<'a> {
    type V = Palette;

    open spec fn view(&self) -> Palette {
        Palette {
            level: self.level@,
            header: self.header@,
            context: self.context@,
            cid: self.cid@,
            msg: self.msg@,
            key: self.key@,
            value: self.value@,
        }
    }
}

/// The level colour of the built-in dark palette, one per severity.
pub open spec fn gruvbox_level_color(level: Level) -> Seq<char> {
    match level {
        Level::Trace => "38;5;109"@,
        Level::Debug => "38;5;108"@,
        Level::Info => "38;5;142"@,
        Level::Warn => "38;5;214"@,
        Level::Error => "38;5;167"@,
    }
}

/// The built-in dark palette: the level colour depends on the severity, the
/// other six slots are shared by all severities.
pub open spec fn gruvbox_palette(level: Level) -> Palette {
    Palette {
        level: gruvbox_level_color(level),
        header: "38;5;246"@,
        context: "38;5;222"@,
        cid: "38;5;175"@,
        msg: "38;5;223"@,
        key: "38;5;208"@,
        value: "38;5;223"@,
    }
}

/// The built-in dark palette for `level`.
pub fn gruvbox_dark(level: Level) -> (scheme: ColorScheme<'static>)
    ensures
        scheme@ == gruvbox_palette(level),
{
    let level_color = match level {
        Level::Trace => "38;5;109",
        Level::Debug => "38;5;108",
        Level::Info => "38;5;142",
        Level::Warn => "38;5;214",
        Level::Error => "38;5;167",
    };
    ColorScheme {
        level: level_color,
        header: "38;5;246",
        context: "38;5;222",
        cid: "38;5;175",
        msg: "38;5;223",
        key: "38;5;208",
        value: "38;5;223",
    }
}

/// A resolver: one complete palette for each of the five severities.
#[derive(Debug, Clone, Copy)]
pub struct ColorResolver {
    trace: ColorScheme<'static>,
    debug: ColorScheme<'static>,
    info: ColorScheme<'static>,
    warn: ColorScheme<'static>,
    error: ColorScheme<'static>,
}

impl ColorResolver {
    /// The palette that the resolver answers with for `level`.
    pub closed spec fn scheme(self, level: Level) -> ColorScheme<'static> {
        match level {
            Level::Trace => self.trace,
            Level::Debug => self.debug,
            Level::Info => self.info,
            Level::Warn => self.warn,
            Level::Error => self.error,
        }
    }

    /// The same palette as plain text.
    pub open spec fn palette(self, level: Level) -> Palette {
        self.scheme(level)@
    }

    /// The resolver that answers as `f` does. `f` is asked once for each
    /// severity, so it has to accept every severity.
    pub fn from_fn<F: Fn(Level) -> ColorScheme<'static>>(f: F) -> (resolver: ColorResolver)
        requires
            forall|level: Level| call_requires(f, (level,)),
        ensures
            forall|level: Level| call_ensures(f, (level,), #[trigger] resolver.scheme(level)),
    {
        let trace = f(Level::Trace);
        let debug = f(Level::Debug);
        let info = f(Level::Info);
        let warn = f(Level::Warn);
        let error = f(Level::Error);
        ColorResolver { trace, debug, info, warn, error }
    }

    /// The resolver of the built-in dark palette.
    pub fn gruvbox() -> (resolver: ColorResolver)
        ensures
            forall|level: Level| #[trigger] resolver.palette(level) == gruvbox_palette(level),
    {
        ColorResolver::from_fn(gruvbox_dark)
    }

    /// The palette for `level`.
    pub fn resolve(&self, level: Level) -> (scheme: ColorScheme<'static>)
        ensures
            scheme == self.scheme(level),
    {
        match level {
            Level::Trace => self.trace,
            Level::Debug => self.debug,
            Level::Info => self.info,
            Level::Warn => self.warn,
            Level::Error => self.error,
        }
    }
}

} // verus!
