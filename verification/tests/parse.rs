use argpx::attribute::{Attribute, AttributeSet};
use argpx::flag::{Flag, FlagAction, ParamList};
use argpx::parser::Parser;
use argpx::results::Error;
use argpx::style::{Style, StyleGroup};

fn s(x: &str) -> String {
    x.to_string()
}

fn args(xs: &[&str]) -> Vec<String> {
    xs.iter().map(|x| x.to_string()).collect()
}

fn gnu_style() -> Style {
    let mut style = Style::new();
    style.group(StyleGroup::gnu_style());
    style
}

fn bool_flag(name: &str) -> Flag {
    Flag { group_id: 0, name: s(name), action: FlagAction::SetBool(false) }
}

fn int_flag(name: &str) -> Flag {
    Flag { group_id: 0, name: s(name), action: FlagAction::SetInt(0) }
}

fn single_flag(name: &str) -> Flag {
    Flag { group_id: 0, name: s(name), action: FlagAction::ParamSingle(String::new()) }
}

fn action_of(parser: &Parser, idx: usize) -> &FlagAction {
    &parser.flags()[idx].action
}

fn as_bool(parser: &Parser, idx: usize) -> bool {
    match action_of(parser, idx) {
        FlagAction::SetBool(b) => *b,
        _ => panic!("expected a boolean action"),
    }
}

fn as_int(parser: &Parser, idx: usize) -> i32 {
    match action_of(parser, idx) {
        FlagAction::SetInt(v) => *v,
        _ => panic!("expected an integer action"),
    }
}

fn as_single(parser: &Parser, idx: usize) -> String {
    match action_of(parser, idx) {
        FlagAction::ParamSingle(v) => v.clone(),
        _ => panic!("expected a single-string action"),
    }
}

#[test]
fn composable_bundle() {
    let mut parser = Parser::new(gnu_style());
    parser.flag(bool_flag("a")).unwrap();
    parser.flag(bool_flag("b")).unwrap();
    parser.flag(bool_flag("c")).unwrap();
    let parsed = parser.parse(args(&["-abc"]), 0).unwrap();
    assert!(as_bool(&parser, 0));
    assert!(as_bool(&parser, 1));
    assert!(as_bool(&parser, 2));
    assert!(parsed.args.is_empty());
}

#[test]
fn compact_value_int() {
    let mut parser = Parser::new(gnu_style());
    parser.flag(int_flag("a")).unwrap();
    let parsed = parser.parse(args(&["-a8080"]), 0).unwrap();
    assert_eq!(as_int(&parser, 0), 8080);
    assert!(parsed.args.is_empty());
}

#[test]
fn dos_assigner_strings() {
    let mut style = Style::new();
    style.group(StyleGroup::dos_style());
    let mut parser = Parser::new(style);
    parser.flag(single_flag("a")).unwrap();
    parser.flag(single_flag("b")).unwrap();
    let parsed = parser.parse(args(&["/a=127.0.0.1", "/b=8080"]), 0).unwrap();
    assert_eq!(as_single(&parser, 0), "127.0.0.1");
    assert_eq!(as_single(&parser, 1), "8080");
    assert!(parsed.args.is_empty());
}

#[test]
fn no_assigner_rejected() {
    let mut style = Style::new();
    style.group(StyleGroup::new(
        s("-"),
        Some(s("=")),
        None,
        AttributeSet::empty().with(Attribute::NoAssigner),
    ));
    let mut parser = Parser::new(style);
    parser.flag(int_flag("a")).unwrap();
    let r = parser.parse(args(&["-a=8080"]), 0);
    assert_eq!(r.err().unwrap(), Error::ArgpxNotAllowed(Attribute::NoAssigner));
}

#[test]
fn no_sparse_assign_rejected() {
    let mut style = Style::new();
    style.group(StyleGroup::new(
        s("-"),
        Some(s("=")),
        None,
        AttributeSet::empty().with(Attribute::NoSparseAssign),
    ));
    let mut parser = Parser::new(style);
    parser.flag(int_flag("a")).unwrap();
    let r = parser.parse(args(&["-a", "8080"]), 0);
    assert_eq!(r.err().unwrap(), Error::ArgpxNotAllowed(Attribute::NoSparseAssign));
}

#[test]
fn parse_twice_identical() {
    let build = || {
        let mut parser = Parser::new(gnu_style());
        parser.flag(bool_flag("v")).unwrap();
        parser.flag(single_flag("o")).unwrap();
        parser
    };
    let input = ["x", "-v", "-o=out", "y"];
    let mut p1 = build();
    let mut p2 = build();
    let r1 = p1.parse(args(&input), 0).unwrap();
    let r2 = p2.parse(args(&input), 0).unwrap();
    assert_eq!(r1.args, r2.args);
    assert_eq!(as_bool(&p1, 0), as_bool(&p2, 0));
    assert_eq!(as_single(&p1, 1), as_single(&p2, 1));
}

#[test]
fn positional_order_preserved() {
    let mut parser = Parser::new(gnu_style());
    parser.flag(bool_flag("a")).unwrap();
    parser.flag(bool_flag("b")).unwrap();
    let parsed = parser.parse(args(&["x", "-a", "y", "-b", "z"]), 0).unwrap();
    assert_eq!(parsed.args, args(&["x", "y", "z"]));
}

#[test]
fn terminator_suffix_positional() {
    let mut style = Style::new();
    style.group(StyleGroup::gnu_style());
    style.terminator(s("--"));
    let mut parser = Parser::new(style);
    parser.flag(bool_flag("a")).unwrap();
    parser.flag(bool_flag("b")).unwrap();
    let parsed = parser.parse(args(&["-a", "--", "-b"]), 0).unwrap();
    assert!(as_bool(&parser, 0));
    assert!(!as_bool(&parser, 1));
    assert_eq!(parsed.args, args(&["--", "-b"]));
}

#[test]
fn terminator_respects_threshold() {
    let build = || {
        let mut style = Style::new();
        style.group(StyleGroup::gnu_style());
        style.terminator(s("END"));
        let mut parser = Parser::new(style);
        parser.flag(bool_flag("a")).unwrap();
        parser
    };
    // Below the threshold the token is ordinary (here: positional), and the
    // following flag still resolves.
    let mut early = build();
    let parsed = early.parse(args(&["END", "-a"]), 1).unwrap();
    assert!(as_bool(&early, 0));
    assert_eq!(parsed.args, args(&["END"]));
    // At the threshold it terminates: everything from it on is positional.
    let mut at = build();
    let parsed = at.parse(args(&["END", "-a"]), 0).unwrap();
    assert!(!as_bool(&at, 0));
    assert_eq!(parsed.args, args(&["END", "-a"]));
}

#[test]
fn sparse_assignment_value() {
    let mut parser = Parser::new(gnu_style());
    parser.flag(single_flag("o")).unwrap();
    let parsed = parser.parse(args(&["-o", "out.txt"]), 0).unwrap();
    assert_eq!(as_single(&parser, 0), "out.txt");
    assert!(parsed.args.is_empty());
}

#[test]
fn delimiter_splits_list() {
    let mut parser = Parser::new(gnu_style());
    parser.flag(Flag {
        group_id: 0,
        name: s("l"),
        action: FlagAction::ParamList(ParamList::new()),
    }).unwrap();
    parser.parse(args(&["-l=a,b,c"]), 0).unwrap();
    match action_of(&parser, 0) {
        FlagAction::ParamList(l) => assert_eq!(l.0, args(&["a", "b", "c"])),
        _ => panic!("expected a list action"),
    }
}

#[test]
fn param_multi_keeps_unfilled_slots() {
    let mut parser = Parser::new(gnu_style());
    parser.flag(Flag {
        group_id: 0,
        name: s("m"),
        action: FlagAction::ParamMulti(args(&["old1", "old2", "old3"])),
    }).unwrap();
    parser.parse(args(&["-m=1,2"]), 0).unwrap();
    match action_of(&parser, 0) {
        FlagAction::ParamMulti(v) => assert_eq!(v, &args(&["1", "2", "old3"])),
        _ => panic!("expected a multi action"),
    }
}

#[test]
fn param_multi_discards_extra_values() {
    let mut parser = Parser::new(gnu_style());
    parser.flag(Flag {
        group_id: 0,
        name: s("m"),
        action: FlagAction::ParamMulti(args(&["old1", "old2"])),
    }).unwrap();
    parser.parse(args(&["-m=1,2,3,4"]), 0).unwrap();
    match action_of(&parser, 0) {
        FlagAction::ParamMulti(v) => assert_eq!(v, &args(&["1", "2"])),
        _ => panic!("expected a multi action"),
    }
}

#[test]
fn longest_name_wins() {
    let mut parser = Parser::new(gnu_style());
    parser.flag(single_flag("a")).unwrap();
    parser.flag(single_flag("ab")).unwrap();
    parser.parse(args(&["-ab8"]), 0).unwrap();
    assert_eq!(as_single(&parser, 0), "");
    assert_eq!(as_single(&parser, 1), "8");
}

#[test]
fn unknown_flag_is_positional() {
    let mut parser = Parser::new(gnu_style());
    parser.flag(bool_flag("a")).unwrap();
    let parsed = parser.parse(args(&["-z"]), 0).unwrap();
    assert_eq!(parsed.args, args(&["-z"]));
    assert!(!as_bool(&parser, 0));
}

#[test]
fn unmatched_prefix_is_positional() {
    let mut parser = Parser::new(gnu_style());
    let parsed = parser.parse(args(&["hello"]), 0).unwrap();
    assert_eq!(parsed.args, args(&["hello"]));
}

#[test]
fn set_int_rejects_non_numeric() {
    let mut parser = Parser::new(gnu_style());
    parser.flag(int_flag("a")).unwrap();
    let r = parser.parse(args(&["-a=xy"]), 0);
    assert!(matches!(r, Err(Error::BadAttribute(_))));
}

#[test]
fn missing_trailing_value_is_an_error() {
    let mut parser = Parser::new(gnu_style());
    parser.flag(single_flag("o")).unwrap();
    let r = parser.parse(args(&["-o"]), 0);
    assert!(matches!(r, Err(Error::BadAttribute(_))));
}

#[test]
fn negative_int_value() {
    let mut parser = Parser::new(gnu_style());
    parser.flag(int_flag("a")).unwrap();
    parser.parse(args(&["-a=-42"]), 0).unwrap();
    assert_eq!(as_int(&parser, 0), -42);
}

#[test]
fn int_limits() {
    let mut parser = Parser::new(gnu_style());
    parser.flag(int_flag("a")).unwrap();
    let r = parser.parse(args(&["-a=2147483648"]), 0);
    assert!(matches!(r, Err(Error::BadAttribute(_))));
    let mut parser = Parser::new(gnu_style());
    parser.flag(int_flag("a")).unwrap();
    parser.parse(args(&["-a=-2147483648"]), 0).unwrap();
    assert_eq!(as_int(&parser, 0), -2147483648);
}

#[test]
fn last_registration_wins() {
    let mut parser = Parser::new(gnu_style());
    parser.flag(single_flag("o")).unwrap();
    parser.flag(single_flag("o")).unwrap();
    parser.parse(args(&["-o=v"]), 0).unwrap();
    assert_eq!(as_single(&parser, 0), "");
    assert_eq!(as_single(&parser, 1), "v");
}

#[test]
fn hopeless_binding_is_rejected() {
    let build_style = || {
        let mut style = Style::new();
        style.group(StyleGroup::new(
            s("+"),
            None,
            None,
            AttributeSet::empty().with(Attribute::NoSparseAssign),
        ));
        style
    };
    let mut parser = Parser::new(build_style());
    let r = parser.flag(single_flag("p"));
    assert!(matches!(r, Err(Error::BadAttribute(_))));
    let mut parser = Parser::new(build_style());
    parser.flag(bool_flag("p")).unwrap();
    let parsed = parser.parse(args(&["+p"]), 0).unwrap();
    assert!(as_bool(&parser, 0));
    assert!(parsed.args.is_empty());
}

#[test]
fn compose_needs_every_character_boolean() {
    let mut parser = Parser::new(gnu_style());
    parser.flag(bool_flag("a")).unwrap();
    parser.flag(bool_flag("b")).unwrap();
    parser.flag(single_flag("c")).unwrap();
    // "c" is not boolean, so "-abc" is not a composable bundle; it resolves
    // as flag "a" with the compact value "bc", which a boolean flag ignores.
    let parsed = parser.parse(args(&["-abc"]), 0).unwrap();
    assert!(as_bool(&parser, 0));
    assert!(!as_bool(&parser, 1));
    assert_eq!(as_single(&parser, 2), "");
    assert!(parsed.args.is_empty());
}

#[test]
fn set_bool_ignores_attached_value() {
    let mut parser = Parser::new(gnu_style());
    parser.flag(bool_flag("v")).unwrap();
    let parsed = parser.parse(args(&["-v=x"]), 0).unwrap();
    assert!(as_bool(&parser, 0));
    assert!(parsed.args.is_empty());
}

#[test]
fn empty_input() {
    let mut parser = Parser::new(gnu_style());
    let parsed = parser.parse(Vec::new(), 0).unwrap();
    assert!(parsed.args.is_empty());
}

#[test]
fn mixed_dialects() {
    let mut style = Style::new();
    style.group(StyleGroup::gnu_style());
    style.group(StyleGroup::dos_style());
    let mut parser = Parser::new(style);
    parser.flag(bool_flag("v")).unwrap();
    parser.flag(Flag {
        group_id: 1,
        name: s("host"),
        action: FlagAction::ParamSingle(String::new()),
    }).unwrap();
    let parsed = parser.parse(args(&["-v", "/host=example", "pos"]), 0).unwrap();
    assert!(as_bool(&parser, 0));
    assert_eq!(as_single(&parser, 1), "example");
    assert_eq!(parsed.args, args(&["pos"]));
}

#[test]
fn identical_groups_share_their_bucket() {
    let mut style = Style::new();
    style.group(StyleGroup::gnu_style());
    style.group(StyleGroup::gnu_style());
    let mut parser = Parser::new(style);
    // Registered under the second group, but tokens always match the first;
    // the bucket is keyed by the group's value, so the flag still resolves.
    parser.flag(Flag { group_id: 1, name: s("a"), action: FlagAction::SetInt(0) }).unwrap();
    parser.parse(args(&["-a5"]), 0).unwrap();
    assert_eq!(as_int(&parser, 0), 5);
}

#[test]
fn error_aborts_but_earlier_writes_stay() {
    let mut style = Style::new();
    style.group(StyleGroup::new(
        s("-"),
        Some(s("=")),
        None,
        AttributeSet::empty().with(Attribute::NoAssigner).with(Attribute::CompactValue),
    ));
    let mut parser = Parser::new(style);
    parser.flag(bool_flag("a")).unwrap();
    parser.flag(int_flag("b")).unwrap();
    let r = parser.parse(args(&["-a", "-b=1"]), 0);
    assert_eq!(r.err().unwrap(), Error::ArgpxNotAllowed(Attribute::NoAssigner));
    // the first token's write was applied before the second token failed
    assert!(as_bool(&parser, 0));
    assert_eq!(as_int(&parser, 1), 0);
}
