use argpx::attribute::{Attribute, AttributeSet};
use argpx::results::Error;
use argpx::style::{Style, StyleGroup};
use argpx::{ArgpxStatus, ArgpxString};

#[test]
fn attribute_set_from_bits() {
    let gnu = AttributeSet::from_bits(3).unwrap();
    assert_eq!(gnu, Attribute::gnu_style());
    let dos = AttributeSet::from_bits(5).unwrap();
    assert_eq!(dos, Attribute::dos_style());
    let none = AttributeSet::from_bits(0).unwrap();
    assert_eq!(none, AttributeSet::empty());
    let all = AttributeSet::from_bits(31).unwrap();
    assert!(all.composable);
    assert!(all.compact_value);
    assert!(all.compact_arg);
    assert!(all.no_assigner);
    assert!(all.no_sparse_assign);
    assert!(AttributeSet::from_bits(32).is_none());
    assert!(AttributeSet::from_bits(255).is_none());
}

#[test]
fn attribute_defaults() {
    assert_eq!(Attribute::default(), Attribute::gnu_style());
    assert!(Attribute::gnu_style().composable);
    assert!(Attribute::gnu_style().compact_value);
    assert!(!Attribute::gnu_style().compact_arg);
    assert!(Attribute::dos_style().compact_arg);
    assert!(!Attribute::dos_style().compact_value);
}

#[test]
fn attribute_set_membership() {
    let set = AttributeSet::empty().with(Attribute::NoAssigner);
    assert!(set.contains(Attribute::NoAssigner));
    assert!(!set.contains(Attribute::Composable));
    assert!(!set.contains(Attribute::NoSparseAssign));
}

#[test]
fn style_indices_are_stable() {
    let mut style = Style::new();
    assert_eq!(style.group(StyleGroup::gnu_style()), 0);
    assert_eq!(style.group(StyleGroup::dos_style()), 1);
    assert_eq!(style.terminator("--".to_string()), 0);
    assert_eq!(style.terminator(";".to_string()), 1);
}

#[test]
fn group_accessors() {
    let g = StyleGroup::gnu_style();
    assert_eq!(g.prefix(), "-");
    assert_eq!(g.assigner().as_deref(), Some("="));
    assert_eq!(g.delimiter().as_deref(), Some(","));
    assert!(g.attribute().composable);
    let h = StyleGroup::new("~".to_string(), None, None, AttributeSet::empty());
    assert_eq!(h.prefix(), "~");
    assert!(h.assigner().is_none());
    assert!(h.delimiter().is_none());
}

#[test]
fn same_dialect_compares_by_value() {
    let a = StyleGroup::gnu_style();
    let b = StyleGroup::gnu_style();
    let c = StyleGroup::dos_style();
    assert!(a.same_dialect(&b));
    assert!(!a.same_dialect(&c));
}

#[test]
fn usage_rendering() {
    assert_eq!(StyleGroup::gnu_style().usage(), "-<name> [=value_1,value_2,value_N]");
    assert_eq!(StyleGroup::dos_style().usage(), "/<name> [=value_1,value_2,value_N]");
    let bare = StyleGroup::new(
        "+".to_string(),
        None,
        None,
        AttributeSet::empty().with(Attribute::NoAssigner).with(Attribute::NoSparseAssign),
    );
    assert_eq!(bare.usage(), "+<name>+<name>[value]");
}

#[test]
fn status_codes() {
    assert_eq!(ArgpxStatus::Okay.code(), 0);
    assert_eq!(ArgpxStatus::BadAttribute.code(), 1);
    assert_eq!(ArgpxStatus::NotAllowedSparseAssign.code(), 2);
    assert_eq!(ArgpxStatus::NotAllowedAssigner.code(), 3);
    assert_eq!(ArgpxStatus::InvalidParameters.code(), 4);
}

#[test]
fn status_of_result() {
    let err: Result<argpx::parser::Parsed, Error> =
        Err(Error::ArgpxNotAllowed(Attribute::NoAssigner));
    assert_eq!(ArgpxStatus::of_result(&err), ArgpxStatus::NotAllowedAssigner);
    let err: Result<argpx::parser::Parsed, Error> =
        Err(Error::ArgpxNotAllowed(Attribute::NoSparseAssign));
    assert_eq!(ArgpxStatus::of_result(&err), ArgpxStatus::NotAllowedSparseAssign);
    let err: Result<argpx::parser::Parsed, Error> = Err(Error::BadAttribute("x"));
    assert_eq!(ArgpxStatus::of_result(&err), ArgpxStatus::BadAttribute);
    let ok: Result<argpx::parser::Parsed, Error> =
        Ok(argpx::parser::Parsed { args: Vec::new() });
    assert_eq!(ArgpxStatus::of_result(&ok), ArgpxStatus::Okay);
}

#[test]
fn error_descriptions() {
    assert_eq!(Error::BadAttribute("broken").describe(), "bad attribute: broken");
    assert_eq!(
        Error::ArgpxNotAllowed(Attribute::NoAssigner).describe(),
        "not allowed style, NoAssigner is set"
    );
    assert_eq!(
        Error::ArgpxNotAllowed(Attribute::NoSparseAssign).describe(),
        "not allowed style, NoSparseAssign is set"
    );
}

#[test]
fn argpx_string_wrapper() {
    let w = ArgpxString::from("hello".to_string());
    assert_eq!(w.length(), 5);
    assert_eq!(w.into_string(), "hello");
    let empty = ArgpxString::from(String::new());
    assert_eq!(empty.length(), 0);
}
