//! Token-efficient formatting.
use vstd::prelude::*;

verus! {

/// How much detail a formatter writes.
#[derive(Debug, Clone, Copy, PartialEq, Eq, Structural)]
pub enum FormatMode {
    /// Summary only.
    Compact,
    /// Include details.
    Verbose,
    /// Symbols and abbreviations.
    Ultra,
}

impl FormatMode {
    /// Verbosity 0 is compact, 1 verbose, anything higher ultra.
    pub fn from_verbosity(v: u8) -> (r: FormatMode)
        ensures
            v == 0 ==> r == FormatMode::Compact,
            v == 1 ==> r == FormatMode::Verbose,
            v >= 2 ==> r == FormatMode::Ultra,
    {
        match v {
            0 => FormatMode::Compact,
            1 => FormatMode::Verbose,
            _ => FormatMode::Ultra,
        }
    }
}

/// A value that can describe itself at each level of detail; the verbose and ultra forms
/// fall back to the compact one.
pub trait TokenFormatter {
    /// Writes the summary text.
    fn format_compact(&self) -> String;

    /// Writes the detailed text; by default, the summary.
    fn format_verbose(&self) -> (r: String)
        default_ensures
            call_ensures(Self::format_compact, (self,), r),
    {
        self.format_compact()
    }

    /// Writes the abbreviated text; by default, the summary.
    fn format_ultra(&self) -> (r: String)
        default_ensures
            call_ensures(Self::format_compact, (self,), r),
    {
        self.format_compact()
    }

    /// Writes the text for the mode: what `format_compact`, `format_verbose` or
    /// `format_ultra` writes.
    fn format(&self, mode: FormatMode) -> (r: String)
        ensures
            mode == FormatMode::Compact ==> call_ensures(Self::format_compact, (self,), r),
            mode == FormatMode::Verbose ==> call_ensures(Self::format_verbose, (self,), r),
            mode == FormatMode::Ultra ==> call_ensures(Self::format_ultra, (self,), r),
    {
        match mode {
            FormatMode::Compact => self.format_compact(),
            FormatMode::Verbose => self.format_verbose(),
            FormatMode::Ultra => self.format_ultra(),
        }
    }
}

} // verus!
