//! The two on-disk flavours of a rendered diagram: a fenced Markdown block
//! or a raw Mermaid file.

use crate::text::{trim_end, trim_end_spec};
use vstd::prelude::*;

verus! {

/// How a rendered diagram is packaged for output.
#[derive(Clone, Copy, Debug, PartialEq, Eq, Structural)]
pub enum OutputFormat {
    /// Markdown file containing a fenced Mermaid block (three backticks +
    /// `mermaid`)
    Md,
    /// Raw Mermaid diagram file (no Markdown fences), suitable for `.mmd`
    Mmd,
}

impl Default for OutputFormat {
    fn default() -> (r: Self)
        ensures
            r == OutputFormat::Md,
    {
        OutputFormat::Md
    }
}

impl OutputFormat {
    /// The file extension the format is written under.
    pub fn extension(self) -> (r: &'static str)
        ensures
            self == OutputFormat::Md ==> r@ == "md"@,
            self == OutputFormat::Mmd ==> r@ == "mmd"@,
    {
        match self {
            Self::Md => "md",
            Self::Mmd => "mmd",
        }
    }
}

/// What packaging raw Mermaid text yields: trimmed text inside a
/// ```` ```mermaid ```` fence for Markdown, the trimmed text with a single
/// trailing newline for a raw Mermaid file.
pub open spec fn format_output_spec(format: OutputFormat, raw: Seq<char>) -> Seq<char> {
    match format {
        OutputFormat::Md => "```mermaid\n"@ + trim_end_spec(raw) + "\n```\n"@,
        OutputFormat::Mmd => trim_end_spec(raw) + "\n"@,
    }
}

/// Package raw Mermaid output according to the chosen format.
pub fn format_output(format: OutputFormat, raw: &str) -> (r: String)
    ensures
        r@ == format_output_spec(format, raw@),
{
    let trimmed = trim_end(raw);
    match format {
        OutputFormat::Md => {
            let mut out = String::new();
            out.append("```mermaid\n");
            out.append(trimmed.as_str());
            out.append("\n```\n");
            proof {
                assert(out@ =~= format_output_spec(format, raw@));
            }
            out
        },
        OutputFormat::Mmd => {
            let mut out = trimmed;
            out.append("\n");
            out
        },
    }
}

} // verus!
