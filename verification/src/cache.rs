//! The build cache's decisions: whether a cached output may be served again,
//! and how the pragma line of a freshly built output is rewritten to record
//! the parameter values that produced it.

use vstd::prelude::*;
use vstd::string::StrSliceExecFns;
use vstd::string::StringExecFns;

use crate::errors::PpError;
use crate::params;
use crate::text;

verus! {

/// What the cache reports for one input file.
#[derive(Debug)]
pub enum CacheDecision {
    /// The cached output is fresh: serve it unchanged.
    Reuse,
    /// The pipeline has to run: no usable cache, a newer source, or an
    /// overridden parameter.
    Rebuild,
}

/// The outcome of reading a cached file's first-line parameter record
/// against the current environment: whether some effective value differs
/// from its recorded default, or the record cannot be read at all.
pub open spec fn record_check(line: Seq<char>, env: Seq<(Seq<char>, Seq<char>)>) -> Result<
    bool,
    (),
> {
    match params::record_pieces(line) {
        Result::Err(_) => Result::Err(()),
        Result::Ok(Option::None) => Result::Ok(false),
        Result::Ok(Option::Some(pieces)) => {
            if params::first_bad_binding(pieces, env) is Some {
                Result::Err(())
            } else {
                Result::Ok(params::any_override(pieces, env))
            }
        },
    }
}

/// Whether the cached output is even considered: the cache directory and the
/// cached file exist, nothing bypasses the cache, and the source is no newer
/// than the cached output.
pub open spec fn cache_considered(
    no_cache_marker: bool,
    env_no_cache: bool,
    env_gen_only: bool,
    cache_dir_exists: bool,
    cached_file_exists: bool,
    src_mtime: u64,
    cache_mtime: u64,
) -> bool {
    &&& cache_dir_exists
    &&& !no_cache_marker
    &&& !env_no_cache
    &&& !env_gen_only
    &&& cached_file_exists
    &&& src_mtime <= cache_mtime
}

/// Decides between serving the cached output and rebuilding.
///
/// The cached output is served exactly when it is considered at all and its
/// recorded parameter record matches the currently effective values; any
/// override forces a rebuild even though the source file is unmodified.
pub fn decide_cache(
    no_cache_marker: bool,
    env_no_cache: bool,
    env_gen_only: bool,
    cache_dir_exists: bool,
    cached_file_exists: bool,
    src_mtime: u64,
    cache_mtime: u64,
    cached_first_line: &str,
    env: &Vec<(String, String)>,
) -> (r: Result<CacheDecision, PpError>)
    ensures
        ({
            let considered = cache_considered(
                no_cache_marker,
                env_no_cache,
                env_gen_only,
                cache_dir_exists,
                cached_file_exists,
                src_mtime,
                cache_mtime,
            );
            let check = record_check(cached_first_line@, params::kv_view(env@));
            match r {
                Result::Ok(CacheDecision::Reuse) => considered && check == Result::<bool, ()>::Ok(
                    false,
                ),
                Result::Ok(CacheDecision::Rebuild) => !considered || check == Result::<bool,
                    ()>::Ok(true),
                Result::Err(e) => considered && check is Err && (match e {
                    PpError::MalformedParams => params::record_pieces(cached_first_line@) is Err,
                    PpError::InvalidParamValue { key, value } => {
                        params::record_pieces(cached_first_line@) matches Result::Ok(
                            Option::Some(pieces),
                        ) && params::first_bad_binding(pieces, params::kv_view(env@)) == Some(
                            (key@, value@),
                        )
                    },
                    _ => false,
                }),
            }
        }),
{
    if no_cache_marker || env_no_cache || env_gen_only || !cache_dir_exists || !cached_file_exists
        || src_mtime > cache_mtime {
        return Result::Ok(CacheDecision::Rebuild);
    }
    match params::parse_param_table(cached_first_line, env) {
        Result::Ok((_, need_rebuild)) => {
            if need_rebuild {
                Result::Ok(CacheDecision::Rebuild)
            } else {
                Result::Ok(CacheDecision::Reuse)
            }
        },
        Result::Err(e) => Result::Err(e),
    }
}

/// `s` without a trailing line break where it carries one; otherwise
/// nothing: only a line that does end in a break keeps its text.
pub open spec fn strip_nl_or_empty(s: Seq<char>) -> Seq<char> {
    if s.len() > 0 && s[s.len() - 1] == '\n' {
        s.drop_last()
    } else {
        Seq::<char>::empty()
    }
}

pub fn strip_nl(s: &str) -> (r: String)
    ensures
        r@ == strip_nl_or_empty(s@),
{
    let len = s.unicode_len();
    if len > 0 && s.get_char(len - 1) == '\n' {
        let r = s.substring_char(0, len - 1);
        proof {
            assert(s@.subrange(0, s@.len() - 1) =~= s@.drop_last());
        }
        r.to_owned()
    } else {
        let r = String::new();
        proof {
            assert(r@ =~= strip_nl_or_empty(s@));
        }
        r
    }
}

/// The first line with its brace group replaced by the effective parameter
/// record, where it has one; the line unchanged where it has none.
pub open spec fn rebuilt_base(line: Seq<char>, entries: Seq<(Seq<char>, Seq<char>)>) -> Seq<
    char,
> {
    let start = params::first_index(line, '{');
    let end = params::last_index(line, '}');
    if start != -1 && end != -1 {
        strip_nl_or_empty(
            line.take(start) + params::serialized_params(entries) + line.skip(end + 1),
        )
    } else {
        line
    }
}

/// How a rebuilt output and the original first line merge into the text that
/// is cached and returned: the pragma line is rewritten to record the
/// effective parameters, and it is kept, joined or dropped depending on
/// whether the rebuilt output still begins with the pipeline's marker.
pub open spec fn merged_output(
    first_line: Seq<char>,
    entries: Seq<(Seq<char>, Seq<char>)>,
    new_content: Seq<char>,
) -> Seq<char> {
    let p = params::first_index(new_content, '\n');
    if p == -1 {
        new_content
    } else {
        let base = rebuilt_base(first_line, entries);
        let new_first = new_content.take(p);
        if text::contains_seq(new_first, "luajit-pro"@) {
            base + new_content.skip(p)
        } else if text::contains_seq(first_line, "luajit-pro"@) {
            strip_nl_or_empty(base) + " "@ + new_content
        } else {
            base + new_content
        }
    }
}

/// Rewrites the first line of a rebuilt output; see [`merged_output`].
pub fn merge_first_line(
    first_line: &str,
    param_table: &Option<Vec<(String, String)>>,
    new_content: &str,
) -> (r: String)
    requires
        param_table is None ==> params::first_index(first_line@, '{') == -1 || params::last_index(
            first_line@,
            '}',
        ) == -1,
    ensures
        r@ == merged_output(
            first_line@,
            match param_table {
                Option::Some(v) => params::kv_view(v@),
                Option::None => Seq::<(Seq<char>, Seq<char>)>::empty(),
            },
            new_content@,
        ),
{
    let ghost entries = match param_table {
        Option::Some(v) => params::kv_view(v@),
        Option::None => Seq::<(Seq<char>, Seq<char>)>::empty(),
    };
    let nc_len = new_content.unicode_len();
    let p = match text::index_of_char(new_content, '\n') {
        Some(i) => {
            proof {
                params::lemma_first_index(new_content@, '\n', i as int);
            }
            i
        },
        None => {
            proof {
                params::lemma_first_index(new_content@, '\n', new_content@.len() as int);
            }
            return new_content.to_owned();
        },
    };
    let line_len = first_line.unicode_len();
    let start = text::index_of_char(first_line, '{');
    let end = text::rindex_of_char(first_line, '}');
    let base: String = match (start, end) {
        (Some(si), Some(ei)) => {
            proof {
                params::lemma_first_index(first_line@, '{', si as int);
                params::lemma_last_index(first_line@, '}', ei as int);
            }
            let before = first_line.substring_char(0, si);
            let after = first_line.substring_char(ei + 1, line_len);
            let mut joined = before.to_owned();
            joined.append(params::serialize_param_table(param_table).as_str());
            joined.append(after);
            proof {
                assert(first_line@.subrange(0, si as int) =~= first_line@.take(si as int));
                assert(first_line@.subrange(ei + 1, first_line@.len() as int) =~= first_line@.skip(
                    ei + 1,
                ));
            }
            strip_nl(joined.as_str())
        },
        _ => {
            proof {
                if start is None {
                    params::lemma_first_index(first_line@, '{', first_line@.len() as int);
                }
                if end is None {
                    params::lemma_last_index(first_line@, '}', first_line@.len() as int);
                }
            }
            first_line.to_owned()
        },
    };
    let new_first = new_content.substring_char(0, p);
    proof {
        assert(new_content@.subrange(0, p as int) =~= new_content@.take(p as int));
    }
    if text::contains_str(new_first, "luajit-pro") {
        let mut out = base;
        out.append(new_content.substring_char(p, nc_len));
        proof {
            assert(new_content@.subrange(p as int, new_content@.len() as int) =~= new_content
                @.skip(p as int));
        }
        out
    } else if text::contains_str(first_line, "luajit-pro") {
        let mut out = strip_nl(base.as_str());
        out.append(" ");
        out.append(new_content);
        out
    } else {
        let mut out = base;
        out.append(new_content);
        out
    }
}

} // verus!
