//! Design decisions of the interface that are not pixels: which palette
//! entry a method, a status code or an environment is shown in, and the icon
//! characters. The palette's actual colours are the application's.
use crate::model::HttpMethod;
use crate::text::{chars_of, contains, contains_str};
use vstd::prelude::*;

verus! {

/// A palette entry, or a colour given by its red, green and blue parts.
#[derive(Debug, Clone, Copy, PartialEq, Eq, Structural)]
pub enum Swatch {
    Primary,
    Success,
    SuccessBg,
    Warning,
    WarningBg,
    Error,
    ErrorBg,
    TextSecondary,
    Rgb(u8, u8, u8),
}

/// The colour decisions of the warm dark palette.
pub struct Colors;

pub open spec fn method_swatch(m: HttpMethod) -> Swatch {
    match m {
        HttpMethod::GET => Swatch::Success,
        HttpMethod::POST => Swatch::Primary,
        HttpMethod::PUT => Swatch::Warning,
        HttpMethod::PATCH => Swatch::Rgb(234, 179, 8),
        HttpMethod::DELETE => Swatch::Error,
        HttpMethod::HEAD => Swatch::Rgb(86, 182, 194),
        HttpMethod::OPTIONS => Swatch::Rgb(209, 154, 102),
        HttpMethod::CONNECT => Swatch::Rgb(0, 150, 136),
        HttpMethod::TRACE => Swatch::Rgb(158, 158, 158),
    }
}

/// Success below 300, warning for redirects, error from 400 on.
pub open spec fn status_swatches(status: u16) -> (Swatch, Swatch) {
    if status < 300 {
        (Swatch::Success, Swatch::SuccessBg)
    } else if status < 400 {
        (Swatch::Warning, Swatch::WarningBg)
    } else {
        (Swatch::Error, Swatch::ErrorBg)
    }
}

/// Production environments are red, staging amber.
pub open spec fn env_swatch(name: Seq<char>) -> Swatch {
    if contains(name, "prod"@) {
        Swatch::Error
    } else if contains(name, "stag"@) {
        Swatch::Warning
    } else {
        Swatch::TextSecondary
    }
}

impl Colors {
    pub fn method(method: HttpMethod) -> (r: Swatch)
        ensures
            r == method_swatch(method),
    {
        match method {
            HttpMethod::GET => Swatch::Success,
            HttpMethod::POST => Swatch::Primary,
            HttpMethod::PUT => Swatch::Warning,
            HttpMethod::PATCH => Swatch::Rgb(234, 179, 8),
            HttpMethod::DELETE => Swatch::Error,
            HttpMethod::HEAD => Swatch::Rgb(86, 182, 194),
            HttpMethod::OPTIONS => Swatch::Rgb(209, 154, 102),
            HttpMethod::CONNECT => Swatch::Rgb(0, 150, 136),
            HttpMethod::TRACE => Swatch::Rgb(158, 158, 158),
        }
    }

    /// (foreground, background) for an HTTP status code.
    pub fn status(status: u16) -> (r: (Swatch, Swatch))
        ensures
            r == status_swatches(status),
    {
        if status < 300 {
            (Swatch::Success, Swatch::SuccessBg)
        } else if status < 400 {
            (Swatch::Warning, Swatch::WarningBg)
        } else {
            (Swatch::Error, Swatch::ErrorBg)
        }
    }

    pub fn env(name: &str) -> (r: Swatch)
        ensures
            r == env_swatch(name@),
    {
        let cs = chars_of(name);
        if contains_str(&cs, "prod") {
            Swatch::Error
        } else if contains_str(&cs, "stag") {
            Swatch::Warning
        } else {
            Swatch::TextSecondary
        }
    }
}

/// Unicode icons used across the interface.
pub struct Icons;

impl Icons {
    pub const FOLDER: &'static str = "📁";
    pub const FILE: &'static str = "📄";
    pub const PACKAGE: &'static str = "📦";
    pub const ADD: &'static str = "➕";
    pub const DELETE: &'static str = "🗑";
    pub const EDIT: &'static str = "✏";
    pub const COPY: &'static str = "📋";
    pub const SAVE: &'static str = "💾";
    pub const FORMAT: &'static str = "✨";
    pub const CHECK: &'static str = "✅";
    pub const CROSS: &'static str = "×";
    pub const DOT: &'static str = "•";
    pub const WARNING: &'static str = "⚠";
    pub const IMAGE: &'static str = "🌄";
    pub const AUDIO: &'static str = "🎵";
    pub const VIDEO: &'static str = "🎬";
    pub const ATTACHMENT: &'static str = "📎";
    pub const PLAY: &'static str = "▶";
    pub const STOP: &'static str = "■";
    pub const HISTORY: &'static str = "🕐";
    pub const ROCKET: &'static str = "🚀";
    pub const WAVE: &'static str = "👋";
    pub const LIGHTBULB: &'static str = "💡";
    // same Unicode block so both render at the same size
    pub const CHEVRON_RIGHT: &'static str = "⏵";
    pub const CHEVRON_DOWN: &'static str = "⏷";
}

} // verus!
