//! The parsing engine: a parser binds a style and a flag registry and
//! exposes `parse`, which classifies each token against the style's groups,
//! decomposes matched tokens by the group's attributes, writes resolved
//! values into the registered actions, and collects everything else as
//! positional output.
//!
//! The whole token algorithm is stated once, as the spec-level interpreter
//! [`spec_parse`]; `parse` is proved to return exactly its outcome.

use vstd::prelude::*;

use crate::attribute::Attribute;
use crate::flag::{Flag, FlagAction, FlagActionV, Flags, FlagV, ParamList};
use crate::results::{Error, ErrorV};
use crate::strutil::{
    is_prefix_of, is_i32_numeral, i32_numeral_val, parse_i32, split_on, split_str, str_eq,
    str_starts_with, substr,
};
use crate::style::{Style, StyleGroup, StyleGroupV, StyleV};

verus! {

/// The leftover, unmatched tokens of a parse, in input order.
pub struct Parsed {
    pub args: Vec<String>,
}

/// The running state of the token interpreter: the registered flags (their
/// actions carry the values written so far), the positional tokens collected
/// so far, and whether a terminator has ended flag interpretation.
#[verifier::ext_equal]
pub ghost struct ParseState {
    pub flags: Seq<FlagV>,
    pub positionals: Seq<Seq<char>>,
    pub terminated: bool,
}

/// The first style group whose prefix is a literal prefix of `t`, searching
/// from index `i`.
pub open spec fn find_group_from(groups: Seq<StyleGroupV>, t: Seq<char>, i: int) -> Option<int>
    decreases groups.len() - i
        when 0 <= i
{
    if i >= groups.len() {
        None
    } else if is_prefix_of(groups[i].prefix, t) {
        Some(i)
    } else {
        find_group_from(groups, t, i + 1)
    }
}

/// What a `Some` answer of [`find_group_from`] means: an in-range match.
pub proof fn lemma_find_group_bounds(groups: Seq<StyleGroupV>, t: Seq<char>, i: int)
    requires
        0 <= i,
    ensures
        find_group_from(groups, t, i) matches Some(g) ==> i <= g < groups.len()
            && is_prefix_of(groups[g].prefix, t),
    decreases groups.len() - i,
{
    if i >= groups.len() {
    } else if is_prefix_of(groups[i].prefix, t) {
    } else {
        lemma_find_group_bounds(groups, t, i + 1);
    }
}

/// `f` is registered under a group whose value equals `gv`. Flags are
/// bucketed by the owning group's value, so groups sharing identical syntax
/// share their flags.
pub open spec fn flag_in_bucket(f: FlagV, groups: Seq<StyleGroupV>, gv: StyleGroupV) -> bool {
    0 <= f.group_id < groups.len() && groups[f.group_id] == gv
}

/// The last registration of `name` in the bucket of `gv`, among the first
/// `n` registry entries; the last registration of a name wins.
pub open spec fn find_exact_upto(
    flags: Seq<FlagV>,
    groups: Seq<StyleGroupV>,
    gv: StyleGroupV,
    name: Seq<char>,
    n: int,
) -> Option<int>
    decreases n
        when n <= flags.len()
{
    if n <= 0 {
        None
    } else if flag_in_bucket(flags[n - 1], groups, gv) && flags[n - 1].name == name {
        Some(n - 1)
    } else {
        find_exact_upto(flags, groups, gv, name, n - 1)
    }
}

/// The registration resolved for an exact name.
pub open spec fn find_exact(
    flags: Seq<FlagV>,
    groups: Seq<StyleGroupV>,
    gv: StyleGroupV,
    name: Seq<char>,
) -> Option<int> {
    find_exact_upto(flags, groups, gv, name, flags.len() as int)
}

/// Among the first `n` registry entries in the bucket of `gv`, the one whose
/// name is the longest prefix of `body`; on equal lengths the later
/// registration wins.
pub open spec fn find_longest_upto(
    flags: Seq<FlagV>,
    groups: Seq<StyleGroupV>,
    gv: StyleGroupV,
    body: Seq<char>,
    n: int,
) -> Option<int>
    decreases n
        when n <= flags.len()
{
    if n <= 0 {
        None
    } else {
        let prev = find_longest_upto(flags, groups, gv, body, n - 1);
        if flag_in_bucket(flags[n - 1], groups, gv) && is_prefix_of(flags[n - 1].name, body) {
            match prev {
                None => Some(n - 1),
                Some(b) => if flags[n - 1].name.len() >= flags[b].name.len() {
                    Some(n - 1)
                } else {
                    Some(b)
                },
            }
        } else {
            prev
        }
    }
}

/// The registration resolved for a token body: the longest registered name
/// that is a prefix of the body.
pub open spec fn find_longest(
    flags: Seq<FlagV>,
    groups: Seq<StyleGroupV>,
    gv: StyleGroupV,
    body: Seq<char>,
) -> Option<int> {
    find_longest_upto(flags, groups, gv, body, flags.len() as int)
}

/// What a `Some` answer of [`find_longest_upto`] means.
pub proof fn lemma_find_longest_bounds(
    flags: Seq<FlagV>,
    groups: Seq<StyleGroupV>,
    gv: StyleGroupV,
    body: Seq<char>,
    n: int,
)
    requires
        n <= flags.len(),
    ensures
        find_longest_upto(flags, groups, gv, body, n) matches Some(j) ==> 0 <= j < n
            && flag_in_bucket(flags[j], groups, gv) && is_prefix_of(flags[j].name, body),
    decreases n,
{
    if n <= 0 {
    } else {
        lemma_find_longest_bounds(flags, groups, gv, body, n - 1);
    }
}

/// The single-character flag resolved for `c` is a boolean flag; the
/// composable decomposition of a body requires this of every character.
pub open spec fn char_flag_ok(
    flags: Seq<FlagV>,
    groups: Seq<StyleGroupV>,
    gv: StyleGroupV,
    c: char,
) -> bool {
    match find_exact(flags, groups, gv, seq![c]) {
        Some(j) => flags[j].action is SetBool,
        None => false,
    }
}

/// Every character of `body` independently resolves to a registered
/// single-character boolean flag.
pub open spec fn compose_ok(
    flags: Seq<FlagV>,
    groups: Seq<StyleGroupV>,
    gv: StyleGroupV,
    body: Seq<char>,
) -> bool {
    forall|i: int| 0 <= i < body.len() ==> char_flag_ok(flags, groups, gv, #[trigger] body[i])
}

/// The registry with entry `j`'s action replaced.
pub open spec fn with_action(flags: Seq<FlagV>, j: int, a: FlagActionV) -> Seq<FlagV> {
    flags.update(j, FlagV { action: a, ..flags[j] })
}

/// The registry after setting each character of `body` true, left to right.
pub open spec fn apply_compose(
    flags: Seq<FlagV>,
    groups: Seq<StyleGroupV>,
    gv: StyleGroupV,
    body: Seq<char>,
) -> Seq<FlagV>
    decreases body.len(),
{
    if body.len() == 0 {
        flags
    } else {
        let flags1 = match find_exact(flags, groups, gv, seq![body[0]]) {
            Some(j) => with_action(flags, j, FlagActionV::SetBool(true)),
            None => flags,
        };
        apply_compose(flags1, groups, gv, body.skip(1))
    }
}

/// The delimiter a value region is split on: the group's delimiter, or the
/// empty string (no splitting) when the group defines none.
pub open spec fn spec_delim(g: StyleGroupV) -> Seq<char> {
    match g.delimiter {
        Some(d) => d,
        None => Seq::<char>::empty(),
    }
}

/// The new action value after dispatching the delimited sub-values to an
/// action, or the schema error the dispatch raises.
pub open spec fn action_result(a: FlagActionV, values: Seq<Seq<char>>) -> Result<
    FlagActionV,
    ErrorV,
> {
    match a {
        FlagActionV::SetBool(_) => Ok(FlagActionV::SetBool(true)),
        FlagActionV::SetInt(_) => if is_i32_numeral(values[0]) {
            Ok(FlagActionV::SetInt(i32_numeral_val(values[0])))
        } else {
            Err(ErrorV::BadAttribute("declared numeric flag got a non-numeric value"@))
        },
        FlagActionV::ParamSingle(_) => Ok(FlagActionV::ParamSingle(values[0])),
        FlagActionV::ParamMulti(slots) => Ok(
            FlagActionV::ParamMulti(
                Seq::new(
                    slots.len(),
                    |i: int|
                        if i < values.len() {
                            values[i]
                        } else {
                            slots[i]
                        },
                ),
            ),
        ),
        FlagActionV::ParamList(items) => Ok(FlagActionV::ParamList(items + values)),
    }
}

/// The state after a raw value region is split on the group's delimiter and
/// dispatched to flag `j`, or the error that aborts the parse.
pub open spec fn apply_region(
    st: ParseState,
    g: StyleGroupV,
    j: int,
    region: Seq<char>,
) -> Result<ParseState, ErrorV> {
    let values = split_on(region, spec_delim(g));
    match action_result(st.flags[j].action, values) {
        Ok(a2) => Ok(ParseState { flags: with_action(st.flags, j, a2), ..st }),
        Err(e) => Err(e),
    }
}

/// The outcome of resolving flag `j`'s value once the token's tail (what
/// follows the matched name) is known: the successor state together with
/// whether the following token was consumed as a sparse value, or the error
/// that aborts the parse.
pub open spec fn step_with_tail(
    style: StyleV,
    args: Seq<Seq<char>>,
    st: ParseState,
    i: int,
    g: int,
    j: int,
    tail: Seq<char>,
) -> Result<(ParseState, bool), ErrorV> {
    let group = style.groups[g];
    if tail.len() == 0 {
        if st.flags[j].action is SetBool {
            Ok((ParseState { flags: with_action(st.flags, j, FlagActionV::SetBool(true)), ..st },
            false))
        } else if group.attribute.no_sparse_assign {
            Err(ErrorV::ArgpxNotAllowed(Attribute::NoSparseAssign))
        } else if i + 1 < args.len() {
            match apply_region(st, group, j, args[i + 1]) {
                Ok(st2) => Ok((st2, true)),
                Err(e) => Err(e),
            }
        } else {
            Err(ErrorV::BadAttribute("a flag expecting a value ends the input"@))
        }
    } else if group.assigner matches Some(a) && is_prefix_of(a, tail) {
        if group.attribute.no_assigner {
            Err(ErrorV::ArgpxNotAllowed(Attribute::NoAssigner))
        } else {
            match apply_region(st, group, j, tail.skip(group.assigner->0.len() as int)) {
                Ok(st2) => Ok((st2, false)),
                Err(e) => Err(e),
            }
        }
    } else if group.attribute.compact_value || group.attribute.compact_arg {
        match apply_region(st, group, j, tail) {
            Ok(st2) => Ok((st2, false)),
            Err(e) => Err(e),
        }
    } else {
        Ok((ParseState { positionals: st.positionals.push(args[i]), ..st }, false))
    }
}

/// One step of the token interpreter on token `i`: the successor state
/// together with whether the following token was also consumed, or the error
/// that aborts the parse.
pub open spec fn spec_step(
    style: StyleV,
    args: Seq<Seq<char>>,
    k: int,
    st: ParseState,
    i: int,
) -> Result<(ParseState, bool), ErrorV> {
    let t = args[i];
    if st.terminated || (i >= k && style.terminators.contains(t)) {
        Ok((ParseState { positionals: st.positionals.push(t), terminated: true, ..st }, false))
    } else {
        match find_group_from(style.groups, t, 0) {
            None => Ok((ParseState { positionals: st.positionals.push(t), ..st }, false)),
            Some(g) => {
                let group = style.groups[g];
                let body = t.skip(group.prefix.len() as int);
                if group.attribute.composable && body.len() >= 1 && compose_ok(
                    st.flags,
                    style.groups,
                    group,
                    body,
                ) {
                    Ok((ParseState {
                        flags: apply_compose(st.flags, style.groups, group, body),
                        ..st
                    }, false))
                } else {
                    match find_longest(st.flags, style.groups, group, body) {
                        None => Ok((ParseState { positionals: st.positionals.push(t), ..st },
                        false)),
                        Some(j) => step_with_tail(
                            style,
                            args,
                            st,
                            i,
                            g,
                            j,
                            body.skip(st.flags[j].name.len() as int),
                        ),
                    }
                }
            },
        }
    }
}

/// The whole token interpreter from token `i` onward: the final state and,
/// when a token aborts the parse, the first error raised; the state then
/// reflects every token before the aborting one (partial application).
pub open spec fn spec_parse(
    style: StyleV,
    args: Seq<Seq<char>>,
    k: int,
    st: ParseState,
    i: int,
) -> (ParseState, Option<ErrorV>)
    decreases args.len() - i
        when 0 <= i
{
    if i >= args.len() {
        (st, None)
    } else {
        match spec_step(style, args, k, st, i) {
            Result::Err(e) => (st, Some(e)),
            Result::Ok((st2, extra)) => if extra && i + 2 <= args.len() {
                spec_parse(style, args, k, st2, i + 2)
            } else if !extra {
                spec_parse(style, args, k, st2, i + 1)
            } else {
                (st2, None)
            },
        }
    }
}

/// Is `t` one of the style's terminator tokens?
fn is_terminator(terms: &Vec<String>, t: &String) -> (r: bool)
    ensures
        r == terms.deep_view().contains(t@),
{
    let n = terms.len();
    let mut i: usize = 0;
    while i < n
        invariant
            i <= n,
            n == terms@.len(),
            forall|l: int| 0 <= l < i ==> terms.deep_view()[l] != t@,
        decreases n - i,
    {
        if str_eq(terms[i].as_str(), t.as_str()) {
            proof {
                assert(terms.deep_view()[i as int] == t@);
            }
            return true;
        }
        i += 1;
    }
    proof {
        assert(forall|l: int| 0 <= l < terms.deep_view().len()
            ==> terms.deep_view()[l] != t@);
    }
    false
}

/// The first style group whose prefix is a literal prefix of `t`.
fn find_group_exec(groups: &Vec<StyleGroup>, t: &String) -> (r: Option<usize>)
    ensures
        match r {
            Some(g) => find_group_from(groups.deep_view(), t@, 0) == Some(g as int)
                && g < groups@.len(),
            None => find_group_from(groups.deep_view(), t@, 0) is None,
        },
{
    let n = groups.len();
    let mut i: usize = 0;
    while i < n
        invariant
            i <= n,
            n == groups@.len(),
            find_group_from(groups.deep_view(), t@, 0) == find_group_from(
                groups.deep_view(),
                t@,
                i as int,
            ),
        decreases n - i,
    {
        if str_starts_with(t.as_str(), groups[i].prefix().as_str()) {
            return Some(i);
        }
        i += 1;
    }
    None
}

/// The last registration of the single-character name `c` in the bucket of
/// group `g`.
fn find_char_flag(flags: &Vec<Flag>, groups: &Vec<StyleGroup>, g: usize, c: char) -> (r: Option<
    usize,
>)
    requires
        g < groups@.len(),
    ensures
        match r {
            Some(j) => find_exact(flags.deep_view(), groups.deep_view(), groups.deep_view()[
                g as int], seq![c]) == Some(j as int) && j < flags@.len(),
            None => find_exact(flags.deep_view(), groups.deep_view(), groups.deep_view()[g as int],
                seq![c]) is None,
        },
{
    let ghost gv = groups.deep_view()[g as int];
    let n = flags.len();
    let mut i: usize = n;
    while i > 0
        invariant
            i <= n,
            n == flags@.len(),
            g < groups@.len(),
            gv == groups.deep_view()[g as int],
            find_exact(flags.deep_view(), groups.deep_view(), gv, seq![c]) == find_exact_upto(
                flags.deep_view(),
                groups.deep_view(),
                gv,
                seq![c],
                i as int,
            ),
        decreases i,
    {
        let f = &flags[i - 1];
        let mut hit = false;
        if f.group_id < groups.len() {
            if groups[f.group_id].same_dialect(&groups[g]) {
                if f.name.as_str().unicode_len() == 1 {
                    if f.name.as_str().get_char(0) == c {
                        hit = true;
                    }
                }
            }
        }
        proof {
            let fv = flags.deep_view()[i - 1];
            if hit {
                assert(fv.name =~= seq![c]);
            } else {
                if flag_in_bucket(fv, groups.deep_view(), gv) && fv.name == seq![c] {
                    assert(fv.name.len() == 1 && fv.name[0] == c);
                    assert(false);
                }
            }
        }
        if hit {
            return Some(i - 1);
        }
        i -= 1;
    }
    None
}

/// The registration whose name is the longest prefix of `body` in the bucket
/// of group `g`; on equal lengths the later registration wins.
fn find_longest_exec(flags: &Vec<Flag>, groups: &Vec<StyleGroup>, g: usize, body: &String) -> (r:
    Option<usize>)
    requires
        g < groups@.len(),
    ensures
        match r {
            Some(j) => find_longest(flags.deep_view(), groups.deep_view(), groups.deep_view()[
                g as int], body@) == Some(j as int) && j < flags@.len(),
            None => find_longest(flags.deep_view(), groups.deep_view(), groups.deep_view()[
                g as int], body@) is None,
        },
{
    let ghost gv = groups.deep_view()[g as int];
    let n = flags.len();
    let mut best: Option<usize> = None;
    let mut best_len: usize = 0;
    let mut i: usize = 0;
    while i < n
        invariant
            i <= n,
            n == flags@.len(),
            g < groups@.len(),
            gv == groups.deep_view()[g as int],
            match best {
                Some(b) => find_longest_upto(flags.deep_view(), groups.deep_view(), gv, body@,
                    i as int) == Some(b as int) && b < n && best_len == flags.deep_view()[
                    b as int].name.len(),
                None => find_longest_upto(flags.deep_view(), groups.deep_view(), gv, body@,
                    i as int) is None,
            },
        decreases n - i,
    {
        let f = &flags[i];
        let mut cand = false;
        if f.group_id < groups.len() {
            if groups[f.group_id].same_dialect(&groups[g]) {
                if str_starts_with(body.as_str(), f.name.as_str()) {
                    cand = true;
                }
            }
        }
        proof {
            let fv = flags.deep_view()[i as int];
            assert(cand == (flag_in_bucket(fv, groups.deep_view(), gv) && is_prefix_of(
                fv.name,
                body@,
            )));
        }
        if cand {
            let nl = f.name.as_str().unicode_len();
            match best {
                None => {
                    best = Some(i);
                    best_len = nl;
                },
                Some(_) => {
                    if nl >= best_len {
                        best = Some(i);
                        best_len = nl;
                    }
                },
            }
        }
        i += 1;
    }
    best
}

/// Replaces the action of registry entry `j`.
fn set_action(flags: &mut Vec<Flag>, j: usize, a: FlagAction)
    requires
        j < old(flags)@.len(),
    ensures
        final(flags).deep_view() == with_action(old(flags).deep_view(), j as int, a@),
{
    let ghost pre = flags.deep_view();
    let ghost av = a@;
    let mut f = flags.remove(j);
    f.action = a;
    flags.insert(j, f);
    proof {
        assert(flags.deep_view() =~= with_action(pre, j as int, av));
    }
}

/// Checks that every character of `body` resolves to a registered
/// single-character boolean flag in the bucket of group `g`.
fn compose_check(flags: &Vec<Flag>, groups: &Vec<StyleGroup>, g: usize, body: &String) -> (r: bool)
    requires
        g < groups@.len(),
    ensures
        r == compose_ok(flags.deep_view(), groups.deep_view(), groups.deep_view()[g as int],
            body@),
{
    let ghost gv = groups.deep_view()[g as int];
    let n = body.as_str().unicode_len();
    let mut i: usize = 0;
    while i < n
        invariant
            i <= n,
            n == body@.len(),
            g < groups@.len(),
            gv == groups.deep_view()[g as int],
            forall|l: int| 0 <= l < i ==> char_flag_ok(flags.deep_view(), groups.deep_view(), gv,
                #[trigger] body@[l]),
        decreases n - i,
    {
        let c = body.as_str().get_char(i);
        match find_char_flag(flags, groups, g, c) {
            None => {
                proof {
                    assert(!char_flag_ok(flags.deep_view(), groups.deep_view(), gv, body@[
                        i as int]));
                }
                return false;
            },
            Some(j) => {
                let is_bool = matches!(&flags[j].action, FlagAction::SetBool(_));
                if !is_bool {
                    proof {
                        assert(!char_flag_ok(flags.deep_view(), groups.deep_view(), gv, body@[
                            i as int]));
                    }
                    return false;
                }
            },
        }
        i += 1;
    }
    true
}

/// Sets each single-character boolean flag named by `body` true, left to
/// right.
fn compose_apply(flags: &mut Vec<Flag>, groups: &Vec<StyleGroup>, g: usize, body: &String)
    requires
        g < groups@.len(),
    ensures
        final(flags).deep_view() == apply_compose(
            old(flags).deep_view(),
            groups.deep_view(),
            groups.deep_view()[g as int],
            body@,
        ),
{
    let ghost gv = groups.deep_view()[g as int];
    let ghost flags0 = flags.deep_view();
    let n = body.as_str().unicode_len();
    proof {
        assert(body@.skip(0) =~= body@);
    }
    let mut i: usize = 0;
    while i < n
        invariant
            i <= n,
            n == body@.len(),
            g < groups@.len(),
            gv == groups.deep_view()[g as int],
            apply_compose(flags0, groups.deep_view(), gv, body@) == apply_compose(
                flags.deep_view(),
                groups.deep_view(),
                gv,
                body@.skip(i as int),
            ),
        decreases n - i,
    {
        let ghost pre = flags.deep_view();
        let c = body.as_str().get_char(i);
        proof {
            assert(body@.skip(i as int)[0] == body@[i as int]);
            assert(body@.skip(i as int).skip(1) =~= body@.skip(i + 1));
        }
        match find_char_flag(flags, groups, g, c) {
            Some(j) => {
                set_action(flags, j, FlagAction::SetBool(true));
            },
            None => {},
        }
        proof {
            assert(apply_compose(pre, groups.deep_view(), gv, body@.skip(i as int))
                == apply_compose(flags.deep_view(), groups.deep_view(), gv, body@.skip(i + 1)));
        }
        i += 1;
    }
    proof {
        assert(body@.skip(n as int) =~= Seq::<char>::empty());
        assert(apply_compose(flags.deep_view(), groups.deep_view(), gv,
            Seq::<char>::empty()) == flags.deep_view());
    }
}

/// Splits a value region on the group's delimiter and writes the sub-values
/// into the action of registry entry `j`.
fn dispatch_action(flags: &mut Vec<Flag>, j: usize, values: &Vec<String>) -> (r: Result<(), Error>)
    requires
        j < old(flags)@.len(),
        values@.len() >= 1,
    ensures
        match action_result(old(flags).deep_view()[j as int].action, values.deep_view()) {
            Result::Ok(a2) => r is Ok && final(flags).deep_view() == with_action(
                old(flags).deep_view(),
                j as int,
                a2,
            ),
            Result::Err(e) => r matches Err(er) && er@ == e && final(flags).deep_view() == old(
                flags,
            ).deep_view(),
        },
{
    let ghost vv = values.deep_view();
    let newaction: FlagAction = match &flags[j].action {
        FlagAction::SetBool(_) => FlagAction::SetBool(true),
        FlagAction::SetInt(_) => {
            match parse_i32(values[0].as_str()) {
                Some(v) => FlagAction::SetInt(v),
                None => {
                    return Err(
                        Error::BadAttribute("declared numeric flag got a non-numeric value"),
                    );
                },
            }
        },
        FlagAction::ParamSingle(_) => FlagAction::ParamSingle(values[0].clone()),
        FlagAction::ParamMulti(slots) => {
            let m = slots.len();
            let mut out: Vec<String> = Vec::with_capacity(m);
            let mut idx: usize = 0;
            while idx < m
                invariant
                    idx <= m,
                    m == slots@.len(),
                    vv == values.deep_view(),
                    vv.len() >= 1,
                    out@.len() == idx,
                    forall|l: int| 0 <= l < idx ==> out.deep_view()[l] == (if l < vv.len() {
                        vv[l]
                    } else {
                        slots.deep_view()[l]
                    }),
                decreases m - idx,
            {
                let ghost prev = out.deep_view();
                let x: String = if idx < values.len() {
                    values[idx].clone()
                } else {
                    slots[idx].clone()
                };
                out.push(x);
                proof {
                    assert(out.deep_view() =~= prev.push(x@));
                }
                idx += 1;
            }
            proof {
                assert(out.deep_view() =~= Seq::new(
                    slots.deep_view().len(),
                    |l: int|
                        if l < vv.len() {
                            vv[l]
                        } else {
                            slots.deep_view()[l]
                        },
                ));
            }
            FlagAction::ParamMulti(out)
        },
        FlagAction::ParamList(l) => {
            let items: &Vec<String> = &l.0;
            let m = items.len();
            let mut out: Vec<String> = Vec::new();
            let mut idx: usize = 0;
            while idx < m
                invariant
                    idx <= m,
                    m == items@.len(),
                    out@.len() == idx,
                    forall|l2: int| 0 <= l2 < idx ==> out.deep_view()[l2] == items.deep_view()[l2],
                decreases m - idx,
            {
                let ghost prev = out.deep_view();
                let x = items[idx].clone();
                out.push(x);
                proof {
                    assert(out.deep_view() =~= prev.push(x@));
                }
                idx += 1;
            }
            let vn = values.len();
            let mut idx2: usize = 0;
            while idx2 < vn
                invariant
                    idx2 <= vn,
                    vn == values@.len(),
                    m == items@.len(),
                    vv == values.deep_view(),
                    out@.len() == m + idx2,
                    forall|l2: int| 0 <= l2 < m ==> out.deep_view()[l2] == items.deep_view()[l2],
                    forall|l2: int| 0 <= l2 < idx2 ==> out.deep_view()[m + l2] == vv[l2],
                decreases vn - idx2,
            {
                let ghost prev = out.deep_view();
                let x = values[idx2].clone();
                out.push(x);
                proof {
                    assert(out.deep_view() =~= prev.push(x@));
                }
                idx2 += 1;
            }
            proof {
                assert(out.deep_view() =~= items.deep_view() + vv);
            }
            FlagAction::ParamList(ParamList(out))
        },
    };
    set_action(flags, j, newaction);
    Ok(())
}

/// The mathematical shape of a [`Parser`].
#[verifier::ext_equal]
pub ghost struct ParserV {
    pub style: StyleV,
    pub flags: Seq<FlagV>,
}

/// A group with no assigner and no compact encoding, with `NoSparseAssign`
/// set, can never deliver a value; binding a value-consuming action under it
/// is rejected when the flag is registered.
pub open spec fn binding_rejected(g: StyleGroupV, a: FlagActionV) -> bool {
    g.assigner is None && !g.attribute.compact_value && !g.attribute.compact_arg
        && g.attribute.no_sparse_assign && !(a is SetBool)
}

/// One executed token step agrees with [`spec_step`]: on success the state
/// moved from `pre` to exactly the spec successor and the step tells whether
/// an extra token was consumed; on an error the state is untouched.
pub open spec fn step_agrees(
    style: StyleV,
    args: Seq<Seq<char>>,
    k: int,
    pre: ParseState,
    post: ParseState,
    i: int,
    r: Result<bool, Error>,
) -> bool {
    match spec_step(style, args, k, pre, i) {
        Result::Ok((st2, extra)) => r matches Ok(e) && e == extra && post == st2,
        Result::Err(ev) => r matches Err(e) && e@ == ev && post == pre,
    }
}

/// A parser: a frozen style bound to a flag registry.
pub struct Parser {
    style: Style,
    flags: Flags,
}

impl View for Parser {
    type V = ParserV;

    closed spec fn view(&self) -> ParserV {
        ParserV { style: self.style@, flags: self.flags.map.deep_view() }
    }
}

impl Parser {
    /// A parser over `style` with an empty registry.
    pub fn new(style: Style) -> (r: Parser)
        ensures
            r@.style == style@,
            r@.flags == Seq::<FlagV>::empty(),
    {
        let r = Parser { style, flags: Flags::new() };
        r
    }

    /// Registers a flag. The group index must be valid for the style the
    /// parser was built with; a binding that could never receive its value
    /// (see [`binding_rejected`]) is refused with a schema error. Within a
    /// bucket the last registration of a name wins.
    pub fn flag(&mut self, flag: Flag) -> (r: Result<(), Error>)
        requires
            flag.group_id < old(self)@.style.groups.len(),
        ensures
            final(self)@.style == old(self)@.style,
            ({
                let rejected = binding_rejected(
                    old(self)@.style.groups[flag.group_id as int],
                    flag@.action,
                );
                if rejected {
                    r matches Err(e) && e@ == ErrorV::BadAttribute(
                        "a value-consuming action bound under a group that can never carry a value"@,
                    ) && final(self)@.flags == old(self)@.flags
                } else {
                    r is Ok && final(self)@.flags == old(self)@.flags.push(flag@)
                }
            }),
    {
        let g = &self.style.groups[flag.group_id];
        let at = g.attribute();
        let no_assigner_defined = match g.assigner() {
            Some(_) => false,
            None => true,
        };
        let is_bool = matches!(&flag.action, FlagAction::SetBool(_));
        if no_assigner_defined && !at.compact_value && !at.compact_arg && at.no_sparse_assign
            && !is_bool {
            return Err(
                Error::BadAttribute(
                    "a value-consuming action bound under a group that can never carry a value",
                ),
            );
        }
        self.flags.map.push(flag);
        proof {
            assert(self.flags.map.deep_view() =~= old(self)@.flags.push(flag@));
        }
        Ok(())
    }

    /// The registered flags, in registration order; after a parse their
    /// actions hold the values that were written.
    pub fn flags(&self) -> (r: &Vec<Flag>)
        ensures
            r.deep_view() == self@.flags,
    {
        &self.flags.map
    }

    /// Processes token `i`: the returned flag says whether the following
    /// token was also consumed (as a sparse value). Exactly one step of
    /// [`spec_step`]: see [`step_agrees`].
    fn step_token(
        style: &Style,
        flags: &mut Vec<Flag>,
        positionals: &mut Vec<String>,
        terminated: &mut bool,
        args: &Vec<String>,
        k: usize,
        i: usize,
    ) -> (r: Result<bool, Error>)
        requires
            i < args@.len(),
        ensures
            step_agrees(
                style@,
                args.deep_view(),
                k as int,
                ParseState {
                    flags: old(flags).deep_view(),
                    positionals: old(positionals).deep_view(),
                    terminated: *old(terminated),
                },
                ParseState {
                    flags: final(flags).deep_view(),
                    positionals: final(positionals).deep_view(),
                    terminated: *final(terminated),
                },
                i as int,
                r,
            ),
            r matches Ok(e) && e ==> i + 2 <= args@.len(),
    {
        let ghost stylev = style@;
        let ghost argsv = args.deep_view();
        let ghost kk = k as int;
        let ghost ii = i as int;
        let ghost pre = ParseState {
            flags: flags.deep_view(),
            positionals: positionals.deep_view(),
            terminated: *terminated,
        };
        let ghost sstep = spec_step(stylev, argsv, kk, pre, ii);
        let t: &String = &args[i];
        proof {
            assert(argsv[ii] == t@);
        }
        // Step 1: after a terminator everything is positional.
        if *terminated {
            let ghost prevp = positionals.deep_view();
            positionals.push(t.clone());
            proof {
                assert(positionals.deep_view() =~= prevp.push(t@));
                let st2 = ParseState { positionals: pre.positionals.push(t@), terminated: true, ..pre };
                assert(sstep == Result::<(ParseState, bool), ErrorV>::Ok((st2, false)));
            }
            return Ok(false);
        }
        if i >= k && is_terminator(&style.terminators, t) {
            *terminated = true;
            let ghost prevp = positionals.deep_view();
            positionals.push(t.clone());
            proof {
                assert(positionals.deep_view() =~= prevp.push(t@));
                let st2 = ParseState { positionals: pre.positionals.push(t@), terminated: true, ..pre };
                assert(sstep == Result::<(ParseState, bool), ErrorV>::Ok((st2, false)));
            }
            return Ok(false);
        }
        proof {
            assert(!(ii >= kk && stylev.terminators.contains(t@)));
        }
        // Step 2: first group whose prefix matches, else positional.
        let g: usize = match find_group_exec(&style.groups, t) {
            None => {
                let ghost prevp = positionals.deep_view();
                positionals.push(t.clone());
                proof {
                    assert(positionals.deep_view() =~= prevp.push(t@));
                    let st2 = ParseState { positionals: pre.positionals.push(t@), ..pre };
                    assert(sstep == Result::<(ParseState, bool), ErrorV>::Ok((st2, false)));
                }
                return Ok(false);
            },
            Some(g) => g,
        };
        let ghost group = stylev.groups[g as int];
        proof {
            lemma_find_group_bounds(stylev.groups, t@, 0);
        }
        // Step 3: strip the prefix; the remainder is the token's body.
        let tlen = t.as_str().unicode_len();
        let plen = style.groups[g].prefix().as_str().unicode_len();
        let body: String = substr(t.as_str(), plen, tlen);
        proof {
            assert(body@ =~= t@.skip(group.prefix.len() as int));
        }
        let attrs = style.groups[g].attribute();
        let blen = body.as_str().unicode_len();
        // Step 3a: composable bundles of single-character boolean flags.
        if attrs.composable && blen >= 1 {
            if compose_check(flags, &style.groups, g, &body) {
                compose_apply(flags, &style.groups, g, &body);
                proof {
                    let st2 = ParseState {
                        flags: apply_compose(pre.flags, stylev.groups, group, body@),
                        ..pre
                    };
                    assert(sstep == Result::<(ParseState, bool), ErrorV>::Ok((st2, false)));
                }
                return Ok(false);
            }
        }
        // Step 3b: longest registered name that is a prefix of the body.
        let j: usize = match find_longest_exec(flags, &style.groups, g, &body) {
            None => {
                let ghost prevp = positionals.deep_view();
                positionals.push(t.clone());
                proof {
                    assert(positionals.deep_view() =~= prevp.push(t@));
                    let st2 = ParseState { positionals: pre.positionals.push(t@), ..pre };
                    assert(sstep == Result::<(ParseState, bool), ErrorV>::Ok((st2, false)));
                }
                return Ok(false);
            },
            Some(j) => j,
        };
        proof {
            lemma_find_longest_bounds(pre.flags, stylev.groups, group, body@,
                pre.flags.len() as int);
        }
        // Step 3c: what follows the name is the tail.
        let nlen = flags[j].name.as_str().unicode_len();
        let tail: String = substr(body.as_str(), nlen, blen);
        let ghost tailv = body@.skip(pre.flags[j as int].name.len() as int);
        proof {
            assert(tail@ =~= tailv);
            assert(sstep == step_with_tail(stylev, argsv, pre, ii, g as int, j as int, tailv));
        }
        let taillen = blen - nlen;
        let ghost delimv = spec_delim(group);
        if taillen == 0 {
            // No attached value: presence alone, or a sparse value.
            let is_bool = matches!(&flags[j].action, FlagAction::SetBool(_));
            if is_bool {
                set_action(flags, j, FlagAction::SetBool(true));
                proof {
                    let st2 = ParseState {
                        flags: with_action(pre.flags, j as int, FlagActionV::SetBool(true)),
                        ..pre
                    };
                    assert(sstep == Result::<(ParseState, bool), ErrorV>::Ok((st2, false)));
                }
                return Ok(false);
            }
            if attrs.no_sparse_assign {
                return Err(Error::ArgpxNotAllowed(Attribute::NoSparseAssign));
            }
            if i < args.len() - 1 {
                let delim: String = match style.groups[g].delimiter() {
                    Some(d) => d.clone(),
                    None => String::new(),
                };
                proof {
                    assert(delim@ == delimv);
                }
                let values = split_str(args[i + 1].as_str(), delim.as_str());
                proof {
                    assert(values.deep_view() == split_on(argsv[ii + 1], delimv));
                }
                match dispatch_action(flags, j, &values) {
                    Ok(_) => {
                        return Ok(true);
                    },
                    Err(e) => {
                        return Err(e);
                    },
                }
            }
            return Err(Error::BadAttribute("a flag expecting a value ends the input"));
        }
        // Step 3d: an attached value introduced by the group's assigner.
        let mut has_assign = false;
        let mut alen: usize = 0;
        match style.groups[g].assigner() {
            Some(a) => {
                if str_starts_with(tail.as_str(), a.as_str()) {
                    has_assign = true;
                    alen = a.as_str().unicode_len();
                }
            },
            None => {},
        }
        proof {
            assert(has_assign == (group.assigner matches Some(a) && is_prefix_of(a, tailv)));
        }
        if has_assign {
            if attrs.no_assigner {
                return Err(Error::ArgpxNotAllowed(Attribute::NoAssigner));
            }
            let delim: String = match style.groups[g].delimiter() {
                Some(d) => d.clone(),
                None => String::new(),
            };
            proof {
                assert(delim@ == delimv);
            }
            let region: String = substr(tail.as_str(), alen, taillen);
            proof {
                assert(region@ =~= tailv.skip(group.assigner->0.len() as int));
            }
            let values = split_str(region.as_str(), delim.as_str());
            match dispatch_action(flags, j, &values) {
                Ok(_) => {
                    return Ok(false);
                },
                Err(e) => {
                    return Err(e);
                },
            }
        }
        // Step 3e: a compact value, the whole tail.
        if attrs.compact_value || attrs.compact_arg {
            let delim: String = match style.groups[g].delimiter() {
                Some(d) => d.clone(),
                None => String::new(),
            };
            proof {
                assert(delim@ == delimv);
            }
            let values = split_str(tail.as_str(), delim.as_str());
            match dispatch_action(flags, j, &values) {
                Ok(_) => {
                    return Ok(false);
                },
                Err(e) => {
                    return Err(e);
                },
            }
        }
        // Step 3f: a trailing tail with no way to read it: positional.
        let ghost prevp = positionals.deep_view();
        positionals.push(t.clone());
        proof {
            assert(positionals.deep_view() =~= prevp.push(t@));
            let st2 = ParseState { positionals: pre.positionals.push(t@), ..pre };
            assert(sstep == Result::<(ParseState, bool), ErrorV>::Ok((st2, false)));
        }
        Ok(false)
    }

    /// Parses `args`, writing resolved values into the registered actions
    /// and collecting every token classified positional, in input order.
    /// Terminator tokens take effect from index `terminate_at` on. The first
    /// grammar violation aborts the parse; values written by earlier tokens
    /// stay written.
    ///
    /// The result is exactly the outcome of the spec-level interpreter
    /// [`spec_parse`] run over the parser's style and registry.
    #[verifier::loop_isolation(false)]
    pub fn parse(&mut self, args: Vec<String>, terminate_at: usize) -> (r: Result<Parsed, Error>)
        ensures
            final(self)@.style == old(self)@.style,
            ({
                let outcome = spec_parse(
                    old(self)@.style,
                    args.deep_view(),
                    terminate_at as int,
                    ParseState {
                        flags: old(self)@.flags,
                        positionals: Seq::<Seq<char>>::empty(),
                        terminated: false,
                    },
                    0,
                );
                final(self)@.flags == outcome.0.flags && match r {
                    Result::Ok(parsed) => outcome.1 is None && parsed.args.deep_view()
                        == outcome.0.positionals,
                    Result::Err(e) => outcome.1 == Some(e@),
                }
            }),
    {
        let ghost stylev = self@.style;
        let ghost argsv = args.deep_view();
        let ghost kk = terminate_at as int;
        let ghost st0 = ParseState {
            flags: self@.flags,
            positionals: Seq::<Seq<char>>::empty(),
            terminated: false,
        };
        let mut positionals: Vec<String> = Vec::with_capacity(args.len());
        let mut terminated: bool = false;
        let mut i: usize = 0;
        proof {
            assert(positionals.deep_view() =~= Seq::<Seq<char>>::empty());
        }
        while i < args.len()
            invariant
                i <= argsv.len(),
                argsv == args.deep_view(),
                stylev == self@.style,
                spec_parse(stylev, argsv, kk, st0, 0) == spec_parse(
                    stylev,
                    argsv,
                    kk,
                    ParseState {
                        flags: self@.flags,
                        positionals: positionals.deep_view(),
                        terminated: terminated,
                    },
                    i as int,
                ),
            decreases argsv.len() - i,
        {
            let ghost cur = ParseState {
                flags: self@.flags,
                positionals: positionals.deep_view(),
                terminated: terminated,
            };
            let step_res = Parser::step_token(&self.style, &mut self.flags.map,
                &mut positionals, &mut terminated, &args, terminate_at, i);
            proof {
                let next = ParseState {
                    flags: self@.flags,
                    positionals: positionals.deep_view(),
                    terminated: terminated,
                };
                assert(step_agrees(stylev, argsv, kk, cur, next, i as int, step_res));
            }
            match step_res {
                Ok(extra) => {
                    proof {
                        let next = ParseState {
                            flags: self@.flags,
                            positionals: positionals.deep_view(),
                            terminated: terminated,
                        };
                        assert(step_agrees(stylev, argsv, kk, cur, next, i as int,
                            Result::<bool, Error>::Ok(extra)));
                        assert(spec_step(stylev, argsv, kk, cur, i as int)
                            == Result::<(ParseState, bool), ErrorV>::Ok((next, extra)));
                        if extra {
                            assert(spec_parse(stylev, argsv, kk, cur, i as int) == spec_parse(
                                stylev, argsv, kk, next, i + 2));
                        } else {
                            assert(spec_parse(stylev, argsv, kk, cur, i as int) == spec_parse(
                                stylev, argsv, kk, next, i + 1));
                        }
                    }
                    if extra {
                        i += 2;
                    } else {
                        i += 1;
                    }
                },
                Err(e) => {
                    proof {
                        assert(step_agrees(stylev, argsv, kk, cur, cur, i as int,
                            Result::<bool, Error>::Err(e)));
                        assert(spec_step(stylev, argsv, kk, cur, i as int)
                            == Result::<(ParseState, bool), ErrorV>::Err(e@));
                        assert(spec_parse(stylev, argsv, kk, cur, i as int) == (cur, Some(e@)));
                    }
                    return Err(e);
                },
            }
        }
        proof {
            let cur = ParseState {
                flags: self@.flags,
                positionals: positionals.deep_view(),
                terminated: terminated,
            };
            assert(spec_parse(stylev, argsv, kk, cur, i as int) == (cur,
                Option::<ErrorV>::None));
        }
        Ok(Parsed { args: positionals })
    }
}


/// A sequence `a` occurs within `b` in order: `a` is a subsequence of `b`.
pub open spec fn is_subseq_of(a: Seq<Seq<char>>, b: Seq<Seq<char>>) -> bool
    decreases b.len(),
{
    if a.len() == 0 {
        true
    } else if b.len() == 0 {
        false
    } else {
        (a[0] == b[0] && is_subseq_of(a.skip(1), b.skip(1))) || is_subseq_of(a, b.skip(1))
    }
}

/// A subsequence of a tail is a subsequence of the whole.
pub proof fn lemma_subseq_widen(a: Seq<Seq<char>>, b: Seq<Seq<char>>)
    requires
        b.len() >= 1,
        is_subseq_of(a, b.skip(1)),
    ensures
        is_subseq_of(a, b),
{
}

/// One interpreter step either leaves the positionals alone or appends the
/// current token to them.
proof fn lemma_step_positionals(style: StyleV, args: Seq<Seq<char>>, k: int, st: ParseState, i: int)
    requires
        0 <= i < args.len(),
    ensures
        spec_step(style, args, k, st, i) matches Ok((st2, extra)) ==> st2.positionals
            == st.positionals || st2.positionals == st.positionals.push(args[i]),
{
}

/// No hidden state: the interpreter is a pure function of the style, the
/// registry, the input tokens and the terminator threshold, so parsing the
/// same token sequence twice against freshly-bound slots produces identical
/// results.
pub proof fn lemma_parse_deterministic(
    style1: StyleV,
    style2: StyleV,
    args1: Seq<Seq<char>>,
    args2: Seq<Seq<char>>,
    k1: int,
    k2: int,
    st1: ParseState,
    st2: ParseState,
)
    requires
        style1 == style2,
        args1 == args2,
        k1 == k2,
        st1 == st2,
    ensures
        spec_parse(style1, args1, k1, st1, 0) == spec_parse(style2, args2, k2, st2, 0),
{
}

/// Order preservation: whatever the interpreter adds to the positionals is
/// a subsequence of the remaining input, and what was already collected
/// stays in place.
pub proof fn lemma_positionals_order(
    style: StyleV,
    args: Seq<Seq<char>>,
    k: int,
    st: ParseState,
    i: int,
)
    requires
        0 <= i <= args.len(),
    ensures
        ({
            let stf = spec_parse(style, args, k, st, i).0;
            stf.positionals.len() >= st.positionals.len() && stf.positionals.take(
                st.positionals.len() as int,
            ) == st.positionals && is_subseq_of(
                stf.positionals.skip(st.positionals.len() as int),
                args.skip(i),
            )
        }),
    decreases args.len() - i,
{
    let stf = spec_parse(style, args, k, st, i).0;
    if i >= args.len() {
        assert(stf.positionals.take(st.positionals.len() as int) =~= st.positionals);
        assert(stf.positionals.skip(st.positionals.len() as int) =~= Seq::<Seq<char>>::empty());
    } else {
        match spec_step(style, args, k, st, i) {
            Result::Err(e) => {
                assert(stf.positionals.take(st.positionals.len() as int) =~= st.positionals);
                assert(stf.positionals.skip(st.positionals.len() as int)
                    =~= Seq::<Seq<char>>::empty());
            },
            Result::Ok((st2, extra)) => {
                lemma_step_positionals(style, args, k, st, i);
                let i2: int = if extra && i + 2 <= args.len() {
                    i + 2
                } else {
                    i + 1
                };
                if extra && i + 2 > args.len() {
                    // the interpreter stops; the step consumed the last token
                    assert(stf == st2);
                    lemma_positionals_tail_case(st, st2, stf, args, i);
                } else {
                    lemma_positionals_order(style, args, k, st2, i2);
                    let stf2 = spec_parse(style, args, k, st2, i2).0;
                    assert(stf2 == stf);
                    let n0 = st.positionals.len() as int;
                    let n2 = st2.positionals.len() as int;
                    assert(stf.positionals.take(n0) =~= st.positionals) by {
                        assert(forall|l: int| 0 <= l < n0 ==> stf.positionals[l]
                            == st2.positionals[l]);
                    }
                    let added = stf.positionals.skip(n0);
                    let added2 = stf.positionals.skip(n2);
                    // the suffix proved by induction sits inside args.skip(i2);
                    // widen it to args.skip(i) step by step
                    assert(args.skip(i).skip(1) =~= args.skip(i + 1));
                    if i2 == i + 2 {
                        assert(args.skip(i + 1).skip(1) =~= args.skip(i + 2));
                        lemma_subseq_widen(added2, args.skip(i + 1));
                    }
                    assert(is_subseq_of(added2, args.skip(i + 1)));
                    if st2.positionals == st.positionals {
                        assert(added =~= added2);
                        lemma_subseq_widen(added, args.skip(i));
                    } else {
                        assert(st2.positionals == st.positionals.push(args[i]));
                        assert(added.len() >= 1);
                        assert(stf.positionals.take(n2) == st2.positionals);
                        assert(stf.positionals[n0] == stf.positionals.take(n2)[n0]);
                        assert(st2.positionals[n0] == args[i]);
                        assert(added[0] == stf.positionals[n0]);
                        assert(added[0] == args[i]);
                        assert(added.skip(1) =~= added2);
                        assert(args.skip(i)[0] == args[i]);
                        assert(is_subseq_of(added, args.skip(i)));
                    }
                }
            },
        }
    }
}

/// The positionals after a step that ends the input extend the prior ones by
/// at most the consumed token, a subsequence of what was left.
proof fn lemma_positionals_tail_case(
    st: ParseState,
    st2: ParseState,
    stf: ParseState,
    args: Seq<Seq<char>>,
    i: int,
)
    requires
        0 <= i < args.len(),
        stf == st2,
        st2.positionals == st.positionals || st2.positionals == st.positionals.push(args[i]),
    ensures
        stf.positionals.len() >= st.positionals.len(),
        stf.positionals.take(st.positionals.len() as int) == st.positionals,
        is_subseq_of(stf.positionals.skip(st.positionals.len() as int), args.skip(i)),
{
    let n0 = st.positionals.len() as int;
    assert(stf.positionals.take(n0) =~= st.positionals);
    let added = stf.positionals.skip(n0);
    if st2.positionals == st.positionals {
        assert(added =~= Seq::<Seq<char>>::empty());
    } else {
        assert(added =~= seq![args[i]]);
        assert(added[0] == args.skip(i)[0]);
        assert(added.skip(1) =~= Seq::<Seq<char>>::empty());
        assert(is_subseq_of(added.skip(1), args.skip(i).skip(1)));
    }
}

/// Order preservation, at the top: the positionals of a whole parse are a
/// subsequence of the input tokens, in the input's relative order.
pub proof fn lemma_positionals_subsequence(
    style: StyleV,
    args: Seq<Seq<char>>,
    k: int,
    flags: Seq<FlagV>,
)
    ensures
        is_subseq_of(
            spec_parse(
                style,
                args,
                k,
                ParseState { flags, positionals: Seq::<Seq<char>>::empty(), terminated: false },
                0,
            ).0.positionals,
            args,
        ),
{
    let st = ParseState { flags, positionals: Seq::<Seq<char>>::empty(), terminated: false };
    lemma_positionals_order(style, args, k, st, 0);
    let stf = spec_parse(style, args, k, st, 0).0;
    assert(stf.positionals.skip(0) =~= stf.positionals);
    assert(args.skip(0) =~= args);
}

/// Once a terminator has taken effect, every remaining token is positional:
/// the parse succeeds and appends the whole remainder, in order, with the
/// flags untouched.
pub proof fn lemma_after_termination(
    style: StyleV,
    args: Seq<Seq<char>>,
    k: int,
    st: ParseState,
    i: int,
)
    requires
        st.terminated,
        0 <= i <= args.len(),
    ensures
        spec_parse(style, args, k, st, i) == (ParseState {
            positionals: st.positionals + args.skip(i),
            ..st
        }, None::<ErrorV>),
    decreases args.len() - i,
{
    if i >= args.len() {
        assert(args.skip(i) =~= Seq::<Seq<char>>::empty());
        assert(ParseState { positionals: st.positionals + args.skip(i), ..st } =~= st);
    } else {
        let st2 = ParseState { positionals: st.positionals.push(args[i]), terminated: true, ..st };
        assert(spec_step(style, args, k, st, i) == Result::<(ParseState, bool), ErrorV>::Ok(
            (st2, false)));
        lemma_after_termination(style, args, k, st2, i + 1);
        assert(st2.positionals + args.skip(i + 1) =~= st.positionals + args.skip(i));
        assert(ParseState { positionals: st2.positionals + args.skip(i + 1), ..st2 }
            =~= ParseState { positionals: st.positionals + args.skip(i), ..st });
    }
}

/// Terminator property: a terminator token reached at or after the
/// `terminate_at` threshold, with flag interpretation still active, makes
/// this and every later token positional, whatever they would otherwise
/// match.
pub proof fn lemma_terminator(
    style: StyleV,
    args: Seq<Seq<char>>,
    k: int,
    st: ParseState,
    i: int,
)
    requires
        !st.terminated,
        0 <= i < args.len(),
        i >= k,
        style.terminators.contains(args[i]),
    ensures
        spec_parse(style, args, k, st, i) == (ParseState {
            positionals: st.positionals + args.skip(i),
            terminated: true,
            ..st
        }, None::<ErrorV>),
{
    let st2 = ParseState { positionals: st.positionals.push(args[i]), terminated: true, ..st };
    assert(spec_step(style, args, k, st, i) == Result::<(ParseState, bool), ErrorV>::Ok(
        (st2, false)));
    lemma_after_termination(style, args, k, st2, i + 1);
    assert(st2.positionals + args.skip(i + 1) =~= st.positionals + args.skip(i));
    assert(ParseState { positionals: st2.positionals + args.skip(i + 1), ..st2 }
        =~= ParseState { positionals: st.positionals + args.skip(i), terminated: true, ..st });
}

} // verus!
