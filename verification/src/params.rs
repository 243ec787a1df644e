//! The pragma's parameter record: parsing `{ key = default, ... }` from a
//! file's first line, resolving each default against an environment override
//! of the same name, deciding whether a cached output is stale, and writing
//! the effective record back.

use vstd::prelude::*;
use vstd::string::StrSliceExecFns;
use vstd::string::StringExecFns;

use crate::errors::PpError;
use crate::text;

verus! {

/// The view of a `(String, String)` key/value list.
pub open spec fn kv_view(s: Seq<(String, String)>) -> Seq<(Seq<char>, Seq<char>)> {
    s.map_values(|p: (String, String)| (p.0@, p.1@))
}

/// The views of a list of owned strings.
pub open spec fn str_views(s: Seq<String>) -> Seq<Seq<char>> {
    s.map_values(|p: String| p@)
}

/// The value bound to `key` by the first matching entry, if any.
pub open spec fn env_lookup(env: Seq<(Seq<char>, Seq<char>)>, key: Seq<char>) -> Option<Seq<char>>
    decreases env.len(),
{
    if env.len() == 0 {
        None
    } else if env[0].0 == key {
        Some(env[0].1)
    } else {
        env_lookup(env.drop_first(), key)
    }
}

/// Splits `s` on `c`; an empty input gives one empty piece, as `str::split`
/// does.
pub open spec fn split_on(s: Seq<char>, c: char) -> Seq<Seq<char>>
    decreases s.len(),
{
    if s.len() == 0 {
        seq![Seq::<char>::empty()]
    } else if s[0] == c {
        seq![Seq::<char>::empty()] + split_on(s.drop_first(), c)
    } else {
        let rest = split_on(s.drop_first(), c);
        seq![seq![s[0]] + rest[0]] + rest.drop_first()
    }
}

/// The text before and after the first occurrence of `c`, if `c` occurs.
pub open spec fn split_once_at(s: Seq<char>, c: char) -> Option<(Seq<char>, Seq<char>)>
    decreases s.len(),
{
    if s.len() == 0 {
        None
    } else if s[0] == c {
        Some((Seq::<char>::empty(), s.drop_first()))
    } else {
        match split_once_at(s.drop_first(), c) {
            None => None,
            Some((a, b)) => Some((seq![s[0]] + a, b)),
        }
    }
}

pub proof fn lemma_split_on_nonempty(s: Seq<char>, c: char)
    ensures
        split_on(s, c).len() >= 1,
    decreases s.len(),
{
    if s.len() != 0 {
        lemma_split_on_nonempty(s.drop_first(), c);
    }
}

/// Where the first occurrence of `c` stands, `split_on` takes the text up to
/// it as its first piece and splits the rest; where none does, the whole of
/// `s` is the one piece.
pub proof fn lemma_split_on_step(s: Seq<char>, c: char, i: int)
    requires
        0 <= i <= s.len(),
        forall|j: int| 0 <= j < i ==> s[j] != c,
        i < s.len() ==> s[i] == c,
    ensures
        i == s.len() ==> split_on(s, c) == seq![s],
        i < s.len() ==> split_on(s, c) == seq![s.take(i)] + split_on(s.skip(i + 1), c),
    decreases s.len(),
{
    if s.len() == 0 {
        assert(s =~= Seq::<char>::empty());
        assert(split_on(s, c) =~= seq![s]);
    } else if s[0] == c {
        assert(i == 0);
        assert(s.take(0) =~= Seq::<char>::empty());
        assert(s.skip(1) =~= s.drop_first());
        assert(split_on(s, c) =~= seq![s.take(0)] + split_on(s.skip(1), c));
    } else {
        lemma_split_on_nonempty(s.drop_first(), c);
        if i == s.len() {
            lemma_split_on_step(s.drop_first(), c, i - 1);
            let rest = split_on(s.drop_first(), c);
            assert(rest == seq![s.drop_first()]);
            assert(seq![s[0]] + rest[0] =~= s);
            assert(split_on(s, c) =~= seq![s]);
        } else {
            assert(i >= 1);
            lemma_split_on_step(s.drop_first(), c, i - 1);
            let rest = split_on(s.drop_first(), c);
            assert(rest[0] == s.drop_first().take(i - 1));
            assert(seq![s[0]] + s.drop_first().take(i - 1) =~= s.take(i));
            assert(rest.drop_first() == split_on(s.drop_first().skip(i), c));
            assert(s.drop_first().skip(i) =~= s.skip(i + 1));
            assert(split_on(s, c) =~= seq![s.take(i)] + split_on(s.skip(i + 1), c));
        }
    }
}

/// Where the first occurrence of `c` stands at `i`, `split_once_at` parts the
/// text there; where none does, it gives nothing.
pub proof fn lemma_split_once_at(s: Seq<char>, c: char, i: int)
    requires
        0 <= i <= s.len(),
        forall|j: int| 0 <= j < i ==> s[j] != c,
        i < s.len() ==> s[i] == c,
    ensures
        i == s.len() ==> split_once_at(s, c) is None,
        i < s.len() ==> split_once_at(s, c) == Some((s.take(i), s.skip(i + 1))),
    decreases s.len(),
{
    if s.len() == 0 {
    } else if s[0] == c {
        assert(i == 0);
        assert(s.take(0) =~= Seq::<char>::empty());
        assert(s.skip(1) =~= s.drop_first());
    } else {
        lemma_split_once_at(s.drop_first(), c, i - 1);
        if i < s.len() {
            assert(s.drop_first().take(i - 1) =~= s.take(i).drop_first());
            assert(seq![s[0]] + s.take(i).drop_first() =~= s.take(i));
            assert(s.drop_first().skip(i) =~= s.skip(i + 1));
        }
    }
}

/// One piece of the record, read as a binding: the trimmed text before the
/// first `=` names the key, the trimmed text after it the declared default.
pub open spec fn binding_of(piece: Seq<char>) -> Option<(Seq<char>, Seq<char>)> {
    match split_once_at(piece, '=') {
        None => None,
        Some((k, v)) => Some((text::trimmed(k), text::trimmed(v))),
    }
}

/// The value a binding is worth at run time: its environment override where
/// one exists, else its declared default.
pub open spec fn effective_value(
    env: Seq<(Seq<char>, Seq<char>)>,
    key: Seq<char>,
    dflt: Seq<char>,
) -> Seq<char> {
    match env_lookup(env, key) {
        Some(v) => v,
        None => dflt,
    }
}

/// A literal the record accepts as a boolean.
pub open spec fn is_bool_lit(v: Seq<char>) -> bool {
    v == "true"@ || v == "false"@ || v == "0"@ || v == "1"@
}

/// `acc` with the binding for `k` replaced by `v`, or `(k, v)` appended where
/// `k` is not yet bound.
pub open spec fn upsert(
    acc: Seq<(Seq<char>, Seq<char>)>,
    k: Seq<char>,
    v: Seq<char>,
) -> Seq<(Seq<char>, Seq<char>)>
    decreases acc.len(),
{
    if acc.len() == 0 {
        seq![(k, v)]
    } else if acc[0].0 == k {
        seq![(k, v)] + acc.drop_first()
    } else {
        seq![acc[0]] + upsert(acc.drop_first(), k, v)
    }
}

/// The record's entries after processing every piece, each key bound to its
/// effective value, later bindings overriding earlier ones.
pub open spec fn entries_fold(
    pieces: Seq<Seq<char>>,
    env: Seq<(Seq<char>, Seq<char>)>,
    acc: Seq<(Seq<char>, Seq<char>)>,
) -> Seq<(Seq<char>, Seq<char>)>
    decreases pieces.len(),
{
    if pieces.len() == 0 {
        acc
    } else {
        match binding_of(pieces[0]) {
            None => entries_fold(pieces.drop_first(), env, acc),
            Some((k, d)) => entries_fold(
                pieces.drop_first(),
                env,
                upsert(acc, k, effective_value(env, k, d)),
            ),
        }
    }
}

/// Whether some binding's effective value differs from its declared default,
/// which forces a rebuild of the cached output.
pub open spec fn any_override(
    pieces: Seq<Seq<char>>,
    env: Seq<(Seq<char>, Seq<char>)>,
) -> bool
    decreases pieces.len(),
{
    if pieces.len() == 0 {
        false
    } else {
        (match binding_of(pieces[0]) {
            None => false,
            Some((k, d)) => effective_value(env, k, d) != d,
        }) || any_override(pieces.drop_first(), env)
    }
}

/// The first binding whose effective value is no boolean literal, if any.
pub open spec fn first_bad_binding(
    pieces: Seq<Seq<char>>,
    env: Seq<(Seq<char>, Seq<char>)>,
) -> Option<(Seq<char>, Seq<char>)>
    decreases pieces.len(),
{
    if pieces.len() == 0 {
        None
    } else {
        match binding_of(pieces[0]) {
            Some((k, d)) => {
                if !is_bool_lit(effective_value(env, k, d)) {
                    Some((k, effective_value(env, k, d)))
                } else {
                    first_bad_binding(pieces.drop_first(), env)
                }
            },
            None => first_bad_binding(pieces.drop_first(), env),
        }
    }
}

/// Looks `key` up among the environment entries, first match first.
pub fn lookup_env(env: &Vec<(String, String)>, key: &str) -> (r: Option<String>)
    ensures
        match r {
            Some(v) => env_lookup(kv_view(env@), key@) == Some(v@),
            None => env_lookup(kv_view(env@), key@) is None,
        },
{
    let mut i: usize = 0;
    proof {
        assert(kv_view(env@).skip(0) =~= kv_view(env@));
    }
    while i < env.len()
        invariant
            i <= env@.len(),
            env_lookup(kv_view(env@), key@) == env_lookup(kv_view(env@).skip(i as int), key@),
        decreases env@.len() - i,
    {
        if text::str_eq(env[i].0.as_str(), key) {
            proof {
                assert(kv_view(env@).skip(i as int)[0] == (env@[i as int].0@, env@[i as int].1@));
            }
            return Some(env[i].1.clone());
        }
        proof {
            assert(kv_view(env@).skip(i as int).drop_first() =~= kv_view(env@).skip(i + 1));
        }
        i += 1;
    }
    proof {
        assert(kv_view(env@).skip(env@.len() as int) =~= Seq::<(Seq<char>, Seq<char>)>::empty());
    }
    None
}

/// Binds `k` to `v` in the list, replacing an earlier binding of `k` or
/// appending a new one.
pub fn upsert_entry(acc: &mut Vec<(String, String)>, k: String, v: String)
    ensures
        kv_view(final(acc)@) == upsert(kv_view(old(acc)@), k@, v@),
{
    let mut i: usize = 0;
    while i < acc.len()
        invariant
            i <= acc@.len(),
            acc@ == old(acc)@,
            forall|j: int| 0 <= j < i ==> kv_view(acc@)[j].0 != k@,
        decreases acc@.len() - i,
    {
        if text::str_eq(acc[i].0.as_str(), k.as_str()) {
            let ghost pre = kv_view(acc@);
            acc.set(i, (k, v));
            proof {
                lemma_upsert_at(pre, k@, v@, i as int);
                assert(kv_view(acc@) =~= pre.update(i as int, (k@, v@)));
            }
            return;
        }
        i += 1;
    }
    let ghost pre = kv_view(acc@);
    acc.push((k, v));
    proof {
        lemma_upsert_missing(pre, k@, v@);
        assert(kv_view(acc@) =~= pre.push((k@, v@)));
    }
}

proof fn lemma_upsert_at(acc: Seq<(Seq<char>, Seq<char>)>, k: Seq<char>, v: Seq<char>, i: int)
    requires
        0 <= i < acc.len(),
        acc[i].0 == k,
        forall|j: int| 0 <= j < i ==> acc[j].0 != k,
    ensures
        upsert(acc, k, v) == acc.update(i, (k, v)),
    decreases acc.len(),
{
    if i == 0 {
        assert(upsert(acc, k, v) =~= acc.update(0, (k, v)));
    } else {
        lemma_upsert_at(acc.drop_first(), k, v, i - 1);
        assert(acc.drop_first().update(i - 1, (k, v)) =~= acc.update(i, (k, v)).drop_first());
        assert(upsert(acc, k, v) =~= acc.update(i, (k, v)));
    }
}

proof fn lemma_upsert_missing(acc: Seq<(Seq<char>, Seq<char>)>, k: Seq<char>, v: Seq<char>)
    requires
        forall|j: int| 0 <= j < acc.len() ==> acc[j].0 != k,
    ensures
        upsert(acc, k, v) == acc.push((k, v)),
    decreases acc.len(),
{
    if acc.len() == 0 {
        assert(upsert(acc, k, v) =~= acc.push((k, v)));
    } else {
        lemma_upsert_missing(acc.drop_first(), k, v);
        assert(acc.drop_first().push((k, v)) =~= acc.push((k, v)).drop_first());
        assert(upsert(acc, k, v) =~= acc.push((k, v)));
    }
}

/// Splits a string slice on `c` into owned pieces.
pub fn split_string(s: &str, c: char) -> (r: Vec<String>)
    ensures
        str_views(r@) == split_on(s@, c),
{
    let mut out: Vec<String> = Vec::new();
    let mut rem: &str = s;
    let ghost total = s@;
    loop
        invariant
            total == s@,
            split_on(total, c) == str_views(out@) + split_on(rem@, c),
        decreases rem@.len(),
    {
        match text::index_of_char(rem, c) {
            Some(i) => {
                let ghost rem_pre = rem@;
                let ghost out_pre = str_views(out@);
                let piece = rem.substring_char(0, i);
                let rem_len = rem.unicode_len();
                let new_rem = rem.substring_char(i + 1, rem_len);
                out.push(piece.to_owned());
                proof {
                    lemma_split_on_step(rem_pre, c, i as int);
                    assert(rem_pre.take(i as int) =~= piece@);
                    assert(str_views(out@) =~= out_pre + seq![piece@]);
                    assert(str_views(out@) + split_on(new_rem@, c) =~= split_on(total, c));
                }
                rem = new_rem;
            },
            None => {
                let ghost out_pre = str_views(out@);
                out.push(rem.to_owned());
                proof {
                    lemma_split_on_step(rem@, c, rem@.len() as int);
                    assert(str_views(out@) =~= out_pre + seq![rem@]);
                    assert(str_views(out@) =~= split_on(total, c));
                }
                return out;
            },
        }
    }
}

/// The index of the first occurrence of `c` in `s`, or `-1`.
pub open spec fn first_index(s: Seq<char>, c: char) -> int
    decreases s.len(),
{
    if s.len() == 0 {
        -1
    } else if s[0] == c {
        0
    } else {
        let r = first_index(s.drop_first(), c);
        if r == -1 {
            -1
        } else {
            r + 1
        }
    }
}

/// The index of the last occurrence of `c` in `s`, or `-1`.
pub open spec fn last_index(s: Seq<char>, c: char) -> int
    decreases s.len(),
{
    if s.len() == 0 {
        -1
    } else if s[s.len() - 1] == c {
        s.len() - 1
    } else {
        last_index(s.drop_last(), c)
    }
}

pub proof fn lemma_first_index(s: Seq<char>, c: char, i: int)
    requires
        0 <= i <= s.len(),
        forall|j: int| 0 <= j < i ==> s[j] != c,
        i < s.len() ==> s[i] == c,
    ensures
        first_index(s, c) == if i == s.len() {
            -1int
        } else {
            i
        },
    decreases s.len(),
{
    if s.len() == 0 {
    } else if s[0] == c {
        assert(i == 0);
    } else {
        lemma_first_index(s.drop_first(), c, i - 1);
    }
}

pub proof fn lemma_last_index(s: Seq<char>, c: char, i: int)
    requires
        0 <= i <= s.len(),
        i == s.len() ==> forall|j: int| 0 <= j < s.len() ==> s[j] != c,
        i < s.len() ==> s[i] == c,
        forall|j: int| i < j < s.len() ==> s[j] != c,
    ensures
        last_index(s, c) == if i == s.len() {
            -1int
        } else {
            i
        },
    decreases s.len(),
{
    if s.len() == 0 {
    } else if s[s.len() - 1] == c {
        assert(i == s.len() - 1);
    } else {
        if i == s.len() {
            lemma_last_index(s.drop_last(), c, i - 1);
        } else {
            lemma_last_index(s.drop_last(), c, i);
        }
    }
}

/// The record's pieces, where the line carries one: the text between the
/// first `{` and the last `}`, split on commas. `None` where a brace is
/// missing; an error where the braces stand in the wrong order.
pub open spec fn record_pieces(line: Seq<char>) -> Result<Option<Seq<Seq<char>>>, ()> {
    let start = first_index(line, '{');
    let end = last_index(line, '}');
    if start == -1 || end == -1 {
        Result::Ok(Option::None)
    } else if start + 1 <= end {
        Result::Ok(Option::Some(split_on(line.subrange(start + 1, end), ',')))
    } else {
        Result::Err(())
    }
}

/// Parses the first line's parameter record and decides staleness.
///
/// Where the line holds no `{ ... }` record, there are no parameters and no
/// rebuild is forced. Where it holds one, every `key = default` piece is
/// resolved against `env`: the effective value must be a boolean literal, and
/// any difference between an effective value and its declared default reports
/// the cache as stale.
pub fn parse_param_table(line: &str, env: &Vec<(String, String)>) -> (r: Result<
    (Option<Vec<(String, String)>>, bool),
    PpError,
>)
    ensures
        match r {
            Result::Ok((params, rebuild)) => {
                &&& record_pieces(line@) is Ok
                &&& match record_pieces(line@)->Ok_0 {
                    Option::None => params is None && rebuild == false,
                    Option::Some(pieces) => {
                        &&& first_bad_binding(pieces, kv_view(env@)) is None
                        &&& params matches Option::Some(p) && kv_view(p@) == entries_fold(
                            pieces,
                            kv_view(env@),
                            Seq::empty(),
                        )
                        &&& rebuild == any_override(pieces, kv_view(env@))
                    },
                }
            },
            Result::Err(e) => {
                ||| (e matches PpError::MalformedParams && record_pieces(line@) is Err)
                ||| (record_pieces(line@) matches Result::Ok(Option::Some(pieces))
                    && first_bad_binding(pieces, kv_view(env@)) matches Some((k, v))
                    && e matches PpError::InvalidParamValue { key, value } && key@ == k && value@
                    == v)
            },
        },
{
    let line_len = line.unicode_len();
    let start = match text::index_of_char(line, '{') {
        Some(i) => {
            proof {
                lemma_first_index(line@, '{', i as int);
            }
            i
        },
        None => {
            proof {
                lemma_first_index(line@, '{', line@.len() as int);
            }
            return Result::Ok((None, false));
        },
    };
    let end = match text::rindex_of_char(line, '}') {
        Some(i) => {
            proof {
                lemma_last_index(line@, '}', i as int);
            }
            i
        },
        None => {
            proof {
                lemma_last_index(line@, '}', line@.len() as int);
            }
            return Result::Ok((None, false));
        },
    };
    if start + 1 > end {
        return Result::Err(PpError::MalformedParams);
    }
    let content = line.substring_char(start + 1, end);
    let ghost pieces_spec = split_on(content@, ',');
    proof {
        assert(record_pieces(line@) == Result::<Option<Seq<Seq<char>>>, ()>::Ok(
            Option::Some(pieces_spec),
        ));
    }
    let pieces = split_string(content, ',');
    let ghost env_v = kv_view(env@);

    let mut params: Vec<(String, String)> = Vec::new();
    let mut rebuild = false;
    let mut idx: usize = 0;
    proof {
        assert(pieces_spec.skip(0) =~= pieces_spec);
        assert(kv_view(params@) =~= Seq::<(Seq<char>, Seq<char>)>::empty());
    }
    while idx < pieces.len()
        invariant
            str_views(pieces@) == pieces_spec,
            idx <= pieces@.len(),
            record_pieces(line@) == Result::<Option<Seq<Seq<char>>>, ()>::Ok(
                Option::Some(pieces_spec),
            ),
            entries_fold(pieces_spec, env_v, Seq::<(Seq<char>, Seq<char>)>::empty())
                == entries_fold(pieces_spec.skip(idx as int), env_v, kv_view(params@)),
            any_override(pieces_spec, env_v) == (rebuild || any_override(
                pieces_spec.skip(idx as int),
                env_v,
            )),
            first_bad_binding(pieces_spec, env_v) == first_bad_binding(
                pieces_spec.skip(idx as int),
                env_v,
            ),
            env_v == kv_view(env@),
        decreases pieces@.len() - idx,
    {
        let piece: &String = &pieces[idx];
        proof {
            assert(pieces_spec.skip(idx as int)[0] == piece@);
            assert(pieces_spec.skip(idx as int).drop_first() =~= pieces_spec.skip(idx + 1));
        }
        match text::index_of_char(piece.as_str(), '=') {
            None => {
                proof {
                    lemma_split_once_at(piece@, '=', piece@.len() as int);
                    assert(binding_of(piece@) is None);
                }
            },
            Some(eq_at) => {
                proof {
                    lemma_split_once_at(piece@, '=', eq_at as int);
                }
                let piece_len = piece.as_str().unicode_len();
                let key = text::trim_spaces(piece.as_str().substring_char(0, eq_at));
                let dflt = text::trim_spaces(piece.as_str().substring_char(eq_at + 1, piece_len));
                proof {
                    assert(piece@.skip(eq_at + 1) =~= piece@.subrange(
                        eq_at + 1,
                        piece@.len() as int,
                    ));
                    assert(piece@.take(eq_at as int) =~= piece@.subrange(0, eq_at as int));
                    assert(binding_of(piece@) == Some((key@, dflt@)));
                }
                let ghost eff = effective_value(env_v, key@, dflt@);
                let current = match lookup_env(env, key.as_str()) {
                    Some(v) => {
                        proof {
                            assert(env_lookup(env_v, key@) == Some(v@));
                            assert(eff == v@);
                        }
                        v
                    },
                    None => {
                        proof {
                            assert(env_lookup(env_v, key@) is None);
                            assert(eff == dflt@);
                        }
                        dflt.clone()
                    },
                };
                proof {
                    assert(current@ == eff);
                }
                if !rebuild {
                    rebuild = !text::str_eq(dflt.as_str(), current.as_str());
                }
                let ok = text::str_eq(current.as_str(), "true") || text::str_eq(
                    current.as_str(),
                    "false",
                ) || text::str_eq(current.as_str(), "0") || text::str_eq(current.as_str(), "1");
                if !ok {
                    proof {
                        assert(!is_bool_lit(eff));
                        assert(first_bad_binding(pieces_spec.skip(idx as int), env_v) == Some(
                            (key@, eff),
                        ));
                    }
                    return Result::Err(PpError::InvalidParamValue { key, value: current });
                }
                upsert_entry(&mut params, key, current);
            },
        }
        idx += 1;
    }
    proof {
        assert(pieces_spec.skip(pieces@.len() as int) =~= Seq::<Seq<char>>::empty());
    }
    Result::Ok((Some(params), rebuild))
}

/// One entry written as `key = value`.
pub open spec fn entry_text(e: (Seq<char>, Seq<char>)) -> Seq<char> {
    e.0 + " = "@ + e.1
}

/// The entries written out in order, separated by `, `.
pub open spec fn joined_entries(entries: Seq<(Seq<char>, Seq<char>)>) -> Seq<char>
    decreases entries.len(),
{
    if entries.len() == 0 {
        Seq::<char>::empty()
    } else if entries.len() == 1 {
        entry_text(entries[0])
    } else {
        entry_text(entries[0]) + ", "@ + joined_entries(entries.drop_first())
    }
}

/// The whole record as it is written back into the pragma line.
pub open spec fn serialized_params(entries: Seq<(Seq<char>, Seq<char>)>) -> Seq<char> {
    "{"@ + joined_entries(entries) + "}"@
}

proof fn lemma_joined_push(entries: Seq<(Seq<char>, Seq<char>)>, e: (Seq<char>, Seq<char>))
    ensures
        entries.len() == 0 ==> joined_entries(entries.push(e)) == entry_text(e),
        entries.len() > 0 ==> joined_entries(entries.push(e)) == joined_entries(entries) + ", "@
            + entry_text(e),
    decreases entries.len(),
{
    if entries.len() == 0 {
        assert(entries.push(e)[0] == e);
        assert(joined_entries(entries.push(e)) == entry_text(e));
    } else {
        lemma_joined_push(entries.drop_first(), e);
        assert(entries.push(e).drop_first() =~= entries.drop_first().push(e));
        if entries.len() == 1 {
            assert(joined_entries(entries.push(e)) == entry_text(entries[0]) + ", "@
                + joined_entries(entries.drop_first().push(e)));
        }
    }
}

/// Writes the parameter record back as one `{ key = value, ... }` group, in
/// the order the entries stand in the list.
pub fn serialize_param_table(param_table: &Option<Vec<(String, String)>>) -> (r: String)
    requires
        param_table is Some,
    ensures
        r@ == serialized_params(kv_view(param_table->Some_0@)),
{
    let entries = match param_table {
        Some(v) => v,
        None => unreached(),
    };
    let ghost all = kv_view(entries@);
    let mut out = String::from_str("{");
    let mut i: usize = 0;
    proof {
        assert(all.take(0) =~= Seq::<(Seq<char>, Seq<char>)>::empty());
    }
    while i < entries.len()
        invariant
            i <= entries@.len(),
            all == kv_view(entries@),
            out@ == "{"@ + joined_entries(all.take(i as int)),
        decreases entries@.len() - i,
    {
        if i > 0 {
            out.append(", ");
        }
        out.append(entries[i].0.as_str());
        out.append(" = ");
        out.append(entries[i].1.as_str());
        proof {
            lemma_joined_push(all.take(i as int), all[i as int]);
            assert(all.take(i as int).push(all[i as int]) =~= all.take(i + 1));
            assert(entry_text(all[i as int]) == entries@[i as int].0@ + " = "@
                + entries@[i as int].1@);
            assert(out@ =~= "{"@ + joined_entries(all.take(i + 1)));
        }
        i += 1;
    }
    out.append("}");
    proof {
        assert(all.take(entries@.len() as int) =~= all);
    }
    out
}

} // verus!
