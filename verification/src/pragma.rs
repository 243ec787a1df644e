//! The pragma line: the first line of a source file, read for the dialect
//! and output markers that steer one pipeline run.

use vstd::prelude::*;

use crate::errors::PpError;
use crate::text;

verus! {

/// The markers a first line may carry. Each field reports a plain substring
/// occurrence, as the directives are free-form comment text.
#[derive(Debug, Clone, Copy)]
pub struct PragmaFlags {
    /// The frontend dialect is requested (`teal`).
    pub teal: bool,
    /// The frontend is asked to check syntax only (`syntax-only`).
    pub syntax_only: bool,
    /// The backend dialect is requested (`luau`).
    pub luau: bool,
    /// The optimizer pass is requested (`opt`).
    pub opt: bool,
    /// Comments are stripped from the output (`no-comment`).
    pub no_comment: bool,
    /// The output is formatted (`format`).
    pub format_out: bool,
    /// Both of the two above (`pretty`).
    pub pretty: bool,
    /// The cache is bypassed for this file (`no-cache`).
    pub no_cache: bool,
    /// The line carries the pipeline's own marker (`luajit-pro`).
    pub marked: bool,
}

/// What `parse_pragma_flags` reads out of a line.
pub open spec fn flags_of(line: Seq<char>) -> PragmaFlags {
    PragmaFlags {
        teal: text::contains_seq(line, "teal"@),
        syntax_only: text::contains_seq(line, "syntax-only"@),
        luau: text::contains_seq(line, "luau"@),
        opt: text::contains_seq(line, "opt"@),
        no_comment: text::contains_seq(line, "no-comment"@),
        format_out: text::contains_seq(line, "format"@),
        pretty: text::contains_seq(line, "pretty"@),
        no_cache: text::contains_seq(line, "no-cache"@),
        marked: text::contains_seq(line, "luajit-pro"@),
    }
}

/// Reads the pragma markers off a first line. Requesting the frontend and
/// the backend dialect at once is a configuration error; everything else is
/// a plain substring test.
pub fn parse_pragma_flags(line: &str) -> (r: Result<PragmaFlags, PpError>)
    ensures
        match r {
            Result::Ok(f) => f == flags_of(line@) && !(f.teal && f.luau),
            Result::Err(e) => e matches PpError::MixedDialects && flags_of(line@).teal && flags_of(
                line@,
            ).luau,
        },
{
    let teal = text::contains_str(line, "teal");
    let luau = text::contains_str(line, "luau");
    if teal && luau {
        return Result::Err(PpError::MixedDialects);
    }
    Result::Ok(
        PragmaFlags {
            teal,
            syntax_only: text::contains_str(line, "syntax-only"),
            luau,
            opt: text::contains_str(line, "opt"),
            no_comment: text::contains_str(line, "no-comment"),
            format_out: text::contains_str(line, "format"),
            pretty: text::contains_str(line, "pretty"),
            no_cache: text::contains_str(line, "no-cache"),
            marked: text::contains_str(line, "luajit-pro"),
        },
    )
}

} // verus!
