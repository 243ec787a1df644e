//! The library's cross-cutting guarantees, each stated over the spec
//! functions that the components' own contracts use.

use vstd::prelude::*;

use crate::params::{
    any_override, binding_of, effective_value, entry_text, env_lookup, first_bad_binding,
    is_bool_lit, joined_entries, serialized_params, split_on,
};
use crate::text;
use crate::errors::PpError;
use crate::rewrite::{fm_parses, reparse_exact, resolve_ok, resolve_output};
use crate::token_edit::{
    after_supported, before_supported, body_expr, core_expr, insert_after_expr,
    insert_before_expr, lead_expr, trail_expr,
};
use crate::transformer::LuaTransformer;
use crate::tree::{expr_text, ser_func_decl, Expr, FuncDecl};

verus! {

/// Round-trip identity through the token editor's trivia-preserving
/// edits: inserting text after a syntactic unit moves its serialization
/// from `core + trail` to `core + text + trail`, and wherever the
/// lossless parser accepts the edited text, parsing it and printing the
/// tree again reproduces that same serialization byte for byte — the
/// returned text, when there is one, equals the edited tree's
/// serialization, and there is one exactly when the parser accepts it.
pub fn edited_tree_reparses(e: Expr, text: &str) -> (r: Option<String>)
    requires
        after_supported(e),
    ensures
        r is Some == fm_parses(core_expr(e) + text@ + trail_expr(e)),
        r matches Some(o) ==> o@ == core_expr(e) + text@ + trail_expr(e),
{
    let edited = insert_after_expr(e, text);
    let s = expr_text(&edited);
    reparse_exact(s.as_str())
}

/// The insert-before counterpart of [`edited_tree_reparses`]: the text
/// lands between the first leaf's decoration and the unit's own text, and
/// parsing and reprinting the edited serialization reproduces it exactly
/// whenever the lossless parser accepts it.
pub fn edited_tree_reparses_before(e: Expr, text: &str) -> (r: Option<String>)
    requires
        before_supported(e),
    ensures
        r is Some == fm_parses(lead_expr(e) + text@ + body_expr(e)),
        r matches Some(o) ==> o@ == lead_expr(e) + text@ + body_expr(e),
{
    let edited = insert_before_expr(e, text);
    let s = expr_text(&edited);
    reparse_exact(s.as_str())
}

/// Determinism of inline compile-time resolution: resolving the same
/// declaration with the same evaluator output — a macro body whose result
/// is pure text gives the same output on every run — splices
/// byte-identical text.
pub fn comp_time_resolution_deterministic(
    node1: FuncDecl,
    node2: FuncDecl,
    raw: &str,
    keep_line: bool,
) -> (r: Result<(FuncDecl, FuncDecl), PpError>)
    requires
        node1 == node2,
    ensures
        r is Ok == resolve_ok(raw@),
        r matches Result::Ok(p) ==> ser_func_decl(p.0) == ser_func_decl(p.1),
{
    let t1 = match resolve_output(raw, keep_line) {
        Result::Ok(t) => t,
        Result::Err(e) => {
            return Result::Err(e);
        },
    };
    let t2 = match resolve_output(raw, keep_line) {
        Result::Ok(t) => t,
        Result::Err(e) => {
            return Result::Err(e);
        },
    };
    let r1 = LuaTransformer::splice_comp_time(node1, t1.as_str());
    let r2 = LuaTransformer::splice_comp_time(node2, t2.as_str());
    Result::Ok((r1, r2))
}

/// A record whose every binding already carries its effective value —
/// what a rebuild writes into the cached first line — reports no
/// override, so the next run under an unchanged environment reuses the
/// cache.
pub proof fn lemma_recorded_effective_is_fresh(
    pieces: Seq<Seq<char>>,
    env: Seq<(Seq<char>, Seq<char>)>,
)
    requires
        forall|i: int|
            0 <= i < pieces.len() ==> match binding_of(#[trigger] pieces[i]) {
                Some((k, d)) => effective_value(env, k, d) == d,
                None => true,
            },
    ensures
        !any_override(pieces, env),
    decreases pieces.len(),
{
    if pieces.len() > 0 {
        assert(pieces.drop_first().len() == pieces.len() - 1);
        assert(forall|i: int|
            0 <= i < pieces.drop_first().len() ==> pieces.drop_first()[i] == pieces[i + 1]);
        lemma_recorded_effective_is_fresh(pieces.drop_first(), env);
    }
}

/// An environment override always wins: where the environment binds the
/// key, the effective value is the bound one whatever default the record
/// declares; where it does not, the declared default stands.
pub proof fn lemma_override_wins(
    env: Seq<(Seq<char>, Seq<char>)>,
    key: Seq<char>,
    dflt: Seq<char>,
)
    ensures
        env_lookup(env, key) matches Some(v) ==> effective_value(env, key, dflt) == v,
        env_lookup(env, key) is None ==> effective_value(env, key, dflt) == dflt,
{
}


/// A character that cannot disturb the record syntax: no brace, no comma,
/// no equals sign, no whitespace.
pub open spec fn record_safe_char(c: char) -> bool {
    c != '{' && c != '}' && c != ',' && c != '=' && !text::is_space(c)
}

/// A non-empty text of record-safe characters: what a key or a recorded
/// value may be.
pub open spec fn record_safe(s: Seq<char>) -> bool {
    s.len() > 0 && forall|i: int| 0 <= i < s.len() ==> record_safe_char(#[trigger] s[i])
}

/// A text without any occurrence of `c`.
pub open spec fn free_of(s: Seq<char>, c: char) -> bool {
    forall|i: int| 0 <= i < s.len() ==> (#[trigger] s[i]) != c
}

proof fn lemma_sep_chars()
    ensures
        " = "@.len() == 3 && " = "@[0] == ' ' && " = "@[1] == '=' && " = "@[2] == ' ',
        ", "@.len() == 2 && ", "@[0] == ',' && ", "@[1] == ' ',
        "{"@.len() == 1 && "{"@[0] == '{',
        "}"@.len() == 1 && "}"@[0] == '}',
        " "@.len() == 1 && " "@[0] == ' ',
{
    reveal_strlit(" = ");
    reveal_strlit(", ");
    reveal_strlit("{");
    reveal_strlit("}");
    reveal_strlit(" ");
}

/// A trimmed all-spaces margin around a space-free core disappears.
proof fn lemma_trimmed_padded(pre: Seq<char>, s: Seq<char>, post: Seq<char>)
    requires
        forall|i: int| 0 <= i < pre.len() ==> text::is_space(#[trigger] pre[i]),
        forall|i: int| 0 <= i < post.len() ==> text::is_space(#[trigger] post[i]),
        s.len() > 0,
        forall|i: int| 0 <= i < s.len() ==> !text::is_space(#[trigger] s[i]),
    ensures
        text::trimmed(pre + s + post) == s,
    decreases pre.len() + post.len(),
{
    let w = pre + s + post;
    if pre.len() > 0 {
        assert(w[0] == pre[0]);
        text::lemma_trim_drop_first(w);
        assert(w.drop_first() =~= pre.drop_first() + s + post);
        lemma_trimmed_padded(pre.drop_first(), s, post);
    } else if post.len() > 0 {
        assert(w[0] == s[0]);
        assert(w[w.len() - 1] == post[post.len() - 1]);
        text::lemma_trim_drop_last(w);
        assert(w.drop_last() =~= pre + s + post.drop_last());
        lemma_trimmed_padded(pre, s, post.drop_last());
    } else {
        assert(w =~= s);
        assert(!text::is_space(w[0]));
        assert(!text::is_space(w[w.len() - 1]));
    }
}

/// The binding read back from one written entry piece: a piece of the
/// form `pad k = v`, with a spaces-only pad and record-safe `k` and `v`,
/// parses to exactly `(k, v)`.
proof fn lemma_piece_binding(pad: Seq<char>, k: Seq<char>, v: Seq<char>)
    requires
        forall|i: int| 0 <= i < pad.len() ==> text::is_space(#[trigger] pad[i]),
        forall|i: int| 0 <= i < pad.len() ==> (#[trigger] pad[i]) != '=',
        record_safe(k),
        record_safe(v),
    ensures
        binding_of(pad + entry_text((k, v))) == Some((k, v)),
{
    lemma_sep_chars();
    let piece = pad + entry_text((k, v));
    assert(piece =~= pad + (k + " = "@ + v));
    let at = pad.len() + k.len() + 1;
    assert(piece[at as int] == '=') by {
        assert(piece[pad.len() + k.len() + 1int] == " = "@[1]);
    }
    assert forall|j: int| 0 <= j < at implies piece[j] != '=' by {
        if j < pad.len() {
            assert(piece[j] == pad[j]);
        } else if j < pad.len() + k.len() {
            assert(piece[j] == k[j - pad.len()]);
            assert(record_safe_char(k[j - pad.len()]));
        } else {
            assert(piece[j] == " = "@[0]);
        }
    }
    crate::params::lemma_split_once_at(piece, '=', at as int);
    let left = piece.take(at as int);
    let right = piece.skip(at as int + 1);
    assert(left =~= pad + k + " "@);
    assert(right =~= " "@ + v);
    assert(forall|i: int| 0 <= i < " "@.len() ==> text::is_space(#[trigger] " "@[i]));
    assert(forall|i: int| 0 <= i < k.len() ==> !text::is_space(#[trigger] k[i]));
    assert(forall|i: int| 0 <= i < v.len() ==> !text::is_space(#[trigger] v[i]));
    lemma_trimmed_padded(pad, k, " "@);
    assert(pad + k + " "@ =~= pad + (k + " "@));
    assert(pad + (k + " "@) =~= pad + k + " "@);
    lemma_trimmed_padded(" "@, v, Seq::<char>::empty());
    assert(" "@ + v + Seq::<char>::empty() =~= " "@ + v);
    assert(text::trimmed(left) == k);
    assert(text::trimmed(right) == v);
}


/// A written entry `k = v` contains no comma.
proof fn lemma_entry_comma_free(k: Seq<char>, v: Seq<char>)
    requires
        record_safe(k),
        record_safe(v),
    ensures
        free_of(entry_text((k, v)), ','),
{
    lemma_sep_chars();
    let e = entry_text((k, v));
    assert(e =~= k + " = "@ + v);
    assert forall|i: int| 0 <= i < e.len() implies (#[trigger] e[i]) != ',' by {
        if i < k.len() {
            assert(e[i] == k[i]);
            assert(record_safe_char(k[i]));
        } else if i < k.len() + 3 {
            assert(e[i] == " = "@[i - k.len()]);
        } else {
            assert(e[i] == v[i - k.len() - 3]);
            assert(record_safe_char(v[i - k.len() - 3]));
        }
    }
}

/// Splitting a written record body on commas gives back one piece per
/// entry: the first carries the given padding, the later ones the space
/// of the `, ` separator.
proof fn lemma_split_joined(pad: Seq<char>, entries: Seq<(Seq<char>, Seq<char>)>)
    requires
        free_of(pad, ','),
        entries.len() > 0,
        forall|i: int|
            0 <= i < entries.len() ==> record_safe((#[trigger] entries[i]).0) && record_safe(
                entries[i].1,
            ),
    ensures
        split_on(pad + joined_entries(entries), ',').len() == entries.len(),
        split_on(pad + joined_entries(entries), ',')[0] == pad + entry_text(entries[0]),
        forall|j: int|
            1 <= j < entries.len() ==> split_on(pad + joined_entries(entries), ',')[j] == " "@
                + entry_text(#[trigger] entries[j]),
    decreases entries.len(),
{
    lemma_sep_chars();
    lemma_entry_comma_free(entries[0].0, entries[0].1);
    let e0 = entry_text(entries[0]);
    if entries.len() == 1 {
        let s = pad + joined_entries(entries);
        assert(s =~= pad + e0);
        assert forall|i: int| 0 <= i < s.len() implies (#[trigger] s[i]) != ',' by {
            if i < pad.len() {
                assert(s[i] == pad[i]);
            } else {
                assert(s[i] == e0[i - pad.len()]);
            }
        }
        crate::params::lemma_split_on_step(s, ',', s.len() as int);
        assert(split_on(s, ',') == seq![s]);
    } else {
        let s = pad + joined_entries(entries);
        let rest = entries.drop_first();
        assert(joined_entries(entries) == e0 + ", "@ + joined_entries(rest));
        let at = pad.len() + e0.len();
        assert(s =~= pad + e0 + ", "@ + joined_entries(rest));
        assert(s[at as int] == ',') by {
            assert((pad + e0 + ", "@ + joined_entries(rest))[at as int] == ", "@[0]);
        }
        assert forall|j: int| 0 <= j < at implies (#[trigger] s[j]) != ',' by {
            if j < pad.len() {
                assert(s[j] == pad[j]);
            } else {
                assert(s[j] == e0[j - pad.len()]);
            }
        }
        crate::params::lemma_split_on_step(s, ',', at as int);
        assert(s.take(at as int) =~= pad + e0);
        assert(s.skip(at as int + 1) =~= " "@ + joined_entries(rest));
        assert(forall|i: int|
            0 <= i < rest.len() ==> record_safe((#[trigger] rest[i]).0) && record_safe(
                rest[i].1,
            )) by {
            assert(forall|i: int| 0 <= i < rest.len() ==> rest[i] == entries[i + 1]);
        }
        assert(free_of(" "@, ','));
        lemma_split_joined(" "@, rest);
        let tail = split_on(" "@ + joined_entries(rest), ',');
        assert(split_on(s, ',') == seq![pad + e0] + tail);
        assert(split_on(s, ',').len() == entries.len());
        assert(split_on(s, ',')[0] == pad + e0);
        assert forall|j: int| 1 <= j < entries.len() implies split_on(s, ',')[j] == " "@
            + entry_text(#[trigger] entries[j]) by {
            assert(split_on(s, ',')[j] == tail[j - 1]);
            if j == 1 {
                assert(tail[0] == " "@ + entry_text(rest[0]));
                assert(rest[0] == entries[1]);
            } else {
                assert(tail[j - 1] == " "@ + entry_text(rest[j - 1]));
                assert(rest[j - 1] == entries[j]);
            }
        }
    }
}

/// Pieces whose bindings all carry boolean values equal to their effective
/// values are neither stale nor invalid.
proof fn lemma_fresh_pieces(pieces: Seq<Seq<char>>, env: Seq<(Seq<char>, Seq<char>)>)
    requires
        forall|i: int|
            0 <= i < pieces.len() ==> match binding_of(#[trigger] pieces[i]) {
                Some((k, d)) => effective_value(env, k, d) == d && is_bool_lit(d),
                None => true,
            },
    ensures
        !any_override(pieces, env),
        first_bad_binding(pieces, env) is None,
    decreases pieces.len(),
{
    if pieces.len() > 0 {
        assert(forall|i: int|
            0 <= i < pieces.drop_first().len() ==> pieces.drop_first()[i] == pieces[i + 1]);
        lemma_fresh_pieces(pieces.drop_first(), env);
    }
}

/// The law behind cache reuse on an unchanged second run: a first line
/// whose brace group is the record a rebuild wrote — every binding
/// holding the value that was effective — reads back as fresh under the
/// same environment: no override is reported and every value is still a
/// boolean literal. The text before the record may hold anything without
/// an opening brace, the text after it anything without a closing brace.
pub proof fn lemma_rewritten_record_is_fresh(
    line_pre: Seq<char>,
    line_post: Seq<char>,
    entries: Seq<(Seq<char>, Seq<char>)>,
    env: Seq<(Seq<char>, Seq<char>)>,
)
    requires
        free_of(line_pre, '{'),
        free_of(line_post, '}'),
        entries.len() > 0,
        forall|i: int|
            0 <= i < entries.len() ==> record_safe((#[trigger] entries[i]).0) && record_safe(
                entries[i].1,
            ),
        forall|i: int|
            0 <= i < entries.len() ==> is_bool_lit((#[trigger] entries[i]).1) && effective_value(
                env,
                entries[i].0,
                entries[i].1,
            ) == entries[i].1,
    ensures
        crate::cache::record_check(
            line_pre + serialized_params(entries) + line_post,
            env,
        ) == Result::<bool, ()>::Ok(false),
{
    lemma_sep_chars();
    let rec = serialized_params(entries);
    let joined = joined_entries(entries);
    assert(rec == "{"@ + joined + "}"@);
    let line = line_pre + rec + line_post;
    let start = line_pre.len() as int;
    let end = start + rec.len() - 1;
    assert(line =~= line_pre + ("{"@ + joined + "}"@) + line_post);
    assert(line[start] == '{') by {
        assert(line[start] == "{"@[0]);
    }
    assert forall|j: int| 0 <= j < start implies (#[trigger] line[j]) != '{' by {
        assert(line[j] == line_pre[j]);
    }
    crate::params::lemma_first_index(line, '{', start);
    assert(line[end] == '}') by {
        assert(line[end] == "}"@[0]);
    }
    assert forall|j: int| end < j < line.len() implies (#[trigger] line[j]) != '}' by {
        assert(line[j] == line_post[j - (start + rec.len())]);
    }
    crate::params::lemma_last_index(line, '}', end);
    assert(joined.len() > 0) by {
        assert(entry_text(entries[0]).len() > 0);
    }
    assert(start + 1 <= end);
    let content = line.subrange(start + 1, end);
    assert(content =~= joined);
    assert(Seq::<char>::empty() + joined =~= joined);
    lemma_split_joined(Seq::<char>::empty(), entries);
    let pieces = split_on(joined, ',');
    assert(crate::params::record_pieces(line) == Result::<Option<Seq<Seq<char>>>, ()>::Ok(
        Option::Some(pieces),
    ));
    assert forall|i: int| 0 <= i < pieces.len() implies match binding_of(#[trigger] pieces[i]) {
        Some((k, d)) => effective_value(env, k, d) == d && is_bool_lit(d),
        None => true,
    } by {
        if i == 0 {
            assert(pieces[0] == Seq::<char>::empty() + entry_text(entries[0]));
            lemma_piece_binding(Seq::<char>::empty(), entries[0].0, entries[0].1);
            assert(binding_of(pieces[0]) == Some((entries[0].0, entries[0].1)));
        } else {
            assert(pieces[i] == " "@ + entry_text(entries[i]));
            assert(forall|j: int| 0 <= j < " "@.len() ==> text::is_space(#[trigger] " "@[j]));
            assert(forall|j: int| 0 <= j < " "@.len() ==> (#[trigger] " "@[j]) != '=');
            lemma_piece_binding(" "@, entries[i].0, entries[i].1);
            assert(binding_of(pieces[i]) == Some((entries[i].0, entries[i].1)));
        }
    }
    lemma_fresh_pieces(pieces, env);
}

} // verus!
