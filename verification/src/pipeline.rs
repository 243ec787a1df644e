//! The tail of one pipeline run: after macro resolution, the expanded text
//! passes, in fixed order, through global-constant injection, the backend
//! dialect rewriter, and the output markers' comment stripping and
//! formatting. Each pass is exact over the rewriters' named results, and
//! success is promised exactly where every pass succeeds.

use vstd::prelude::*;

use crate::errors::PpError;
use crate::params::kv_view;
use crate::pragma::PragmaFlags;
use crate::rewrite::{
    bool_params, convert_luau_to_lua, dl_parses, format_lua_code, formatted_of,
    inject_global_vals, injected_cleaned_of, luau_lowered_of, regex_ok, remove_lua_comments,
    stylua_ok, uncommented_of,
};

verus! {

/// What the post passes leave of the expanded text, in order: parameters
/// injected and their dead branches dropped; the backend dialect lowered;
/// then, per the output markers, comments stripped and the text formatted
/// (`pretty` implies both).
pub open spec fn post_passes_spec(
    s: Seq<char>,
    flags: PragmaFlags,
    params: Option<Seq<(Seq<char>, Seq<char>)>>,
) -> Seq<char> {
    let s1 = match params {
        Option::Some(e) => injected_cleaned_of(s, bool_params(e)),
        Option::None => s,
    };
    let s2 = if flags.luau {
        luau_lowered_of(s1)
    } else {
        s1
    };
    if flags.pretty {
        formatted_of(uncommented_of(s2, "--\\[\\[@comp_time_enum\\]\\]"@))
    } else {
        let s3 = if flags.no_comment {
            uncommented_of(s2, "--\\[\\[@comp_time_enum\\]\\]"@)
        } else {
            s2
        };
        if flags.format_out {
            formatted_of(s3)
        } else {
            s3
        }
    }
}

/// When the post passes succeed: every rewriter that runs reads its
/// input, and the formatter accepts what it is handed.
pub open spec fn post_passes_ok(
    s: Seq<char>,
    flags: PragmaFlags,
    params: Option<Seq<(Seq<char>, Seq<char>)>>,
) -> bool {
    let ok1 = match params {
        Option::Some(_) => dl_parses(s),
        Option::None => true,
    };
    let s1 = match params {
        Option::Some(e) => injected_cleaned_of(s, bool_params(e)),
        Option::None => s,
    };
    let ok2 = !flags.luau || dl_parses(s1);
    let s2 = if flags.luau {
        luau_lowered_of(s1)
    } else {
        s1
    };
    ok1 && ok2 && (if flags.pretty {
        dl_parses(s2) && regex_ok("--\\[\\[@comp_time_enum\\]\\]"@) && stylua_ok(
            uncommented_of(s2, "--\\[\\[@comp_time_enum\\]\\]"@),
        )
    } else {
        let ok3 = !flags.no_comment || (dl_parses(s2) && regex_ok(
            "--\\[\\[@comp_time_enum\\]\\]"@,
        ));
        let s3 = if flags.no_comment {
            uncommented_of(s2, "--\\[\\[@comp_time_enum\\]\\]"@)
        } else {
            s2
        };
        ok3 && (!flags.format_out || stylua_ok(s3))
    })
}

/// Runs the post passes over the expanded text; succeeds exactly when
/// every pass that the markers request succeeds.
pub fn apply_post_passes(
    content: &str,
    flags: &PragmaFlags,
    param_table: &Option<Vec<(String, String)>>,
) -> (r: Result<String, PpError>)
    ensures
        ({
            let params = match param_table {
                Option::Some(p) => Option::Some(kv_view(p@)),
                Option::None => Option::<Seq<(Seq<char>, Seq<char>)>>::None,
            };
            &&& r is Ok == post_passes_ok(content@, *flags, params)
            &&& (r matches Result::Ok(o) ==> o@ == post_passes_spec(content@, *flags, params))
            &&& (r matches Result::Err(e) ==> e matches PpError::RewriteFailed { .. })
        }),
{
    let s1: String = match param_table {
        Some(p) => {
            match inject_global_vals(content, p) {
                Result::Ok(o) => o,
                Result::Err(e) => {
                    return Result::Err(e);
                },
            }
        },
        None => {
            let mut o = String::new();
            o.append(content);
            proof {
                assert(o@ =~= content@);
            }
            o
        },
    };
    let s2: String = if flags.luau {
        match convert_luau_to_lua(s1.as_str()) {
            Result::Ok(o) => o,
            Result::Err(e) => {
                return Result::Err(e);
            },
        }
    } else {
        s1
    };
    if flags.pretty {
        let stripped = match remove_lua_comments(s2.as_str()) {
            Result::Ok(o) => o,
            Result::Err(e) => {
                return Result::Err(e);
            },
        };
        format_lua_code(stripped.as_str())
    } else {
        let s3: String = if flags.no_comment {
            match remove_lua_comments(s2.as_str()) {
                Result::Ok(o) => o,
                Result::Err(e) => {
                    return Result::Err(e);
                },
            }
        } else {
            s2
        };
        if flags.format_out {
            format_lua_code(s3.as_str())
        } else {
            Result::Ok(s3)
        }
    }
}

} // verus!
