//! The preprocessor's error type. Every fatal path carries enough context to
//! name the offending construct; nothing is silently recovered.

use vstd::prelude::*;
use vstd::string::StringExecFns;

verus! {

/// A configuration or collaborator failure that aborts one run.
#[derive(Debug)]
pub enum PpError {
    /// The pragma's parameter record has its closing brace before its
    /// opening brace.
    MalformedParams,
    /// A parameter's effective value is none of `true`, `false`, `0`, `1`.
    InvalidParamValue { key: String, value: String },
    /// A compile-time function declares more than one formal parameter.
    TooManyMacroParams { count: usize },
    /// A compile-time function declares a `...` parameter.
    EllipsisMacroParam,
    /// A reserved marker name occurs inside a declaration name without being
    /// the whole name on the declaring line.
    MalformedMarker,
    /// The pragma requests the frontend and the backend dialect at once.
    MixedDialects,
    /// An included file's last statement is not a `return`.
    MissingReturn,
    /// A collaborator could not parse or rewrite the given text; the
    /// attempted text rides along for reproducibility.
    RewriteFailed { label: String, content: String },
    /// A tree shape the resolver does not recognize: an internal contract
    /// violation, never recovered from.
    UnsupportedShape,
    /// A reserved call carries a number of arguments other than one.
    BadCallArity { name: String, count: usize },
}

impl PpError {
    /// A human-readable description, for the host to report before aborting.
    pub fn message(&self) -> String {
        let mut out = String::new();
        match self {
            PpError::MalformedParams => {
                out.append("malformed parameter record in pragma line");
            },
            PpError::InvalidParamValue { key, value } => {
                out.append("invalid parameter value, key: ");
                out.append(key.as_str());
                out.append(", value: ");
                out.append(value.as_str());
            },
            PpError::TooManyMacroParams { count } => {
                out.append("more than 1 parameter on a compile-time function, got ");
                out.append(crate::text::usize_to_string(*count).as_str());
            },
            PpError::EllipsisMacroParam => {
                out.append("unexpected ellipsis parameter on a compile-time function");
            },
            PpError::MalformedMarker => {
                out.append(
                    "the compile-time marker must be the whole declaration name on the declaring line",
                );
            },
            PpError::MixedDialects => {
                out.append("cannot use both the frontend and the backend dialect");
            },
            PpError::MissingReturn => {
                out.append("cannot find `return` in the included file");
            },
            PpError::RewriteFailed { label, content } => {
                out.append("a collaborator failed to rewrite the text: ");
                out.append(label.as_str());
                out.append("\n----------\n");
                out.append(content.as_str());
                out.append("\n----------");
            },
            PpError::UnsupportedShape => {
                out.append("unexpected tree shape at a resolution site");
            },
            PpError::BadCallArity { name, count } => {
                out.append("expected exactly 1 argument on a reserved call, got ");
                out.append(crate::text::usize_to_string(*count).as_str());
                out.append(" => ");
                out.append(name.as_str());
            },
        }
        out
    }
}

} // verus!
