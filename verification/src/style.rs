//! Style groups and styles: one group per flag dialect (prefix, optional
//! assigner, optional delimiter, attribute set), and a style as an ordered,
//! append-only collection of groups plus a set of terminator tokens.

use vstd::prelude::*;

use crate::attribute::{Attribute, AttributeSet};
use crate::strutil::str_eq;

verus! {

/// The mathematical shape of a [`StyleGroup`].
#[verifier::ext_equal]
pub ghost struct StyleGroupV {
    pub prefix: Seq<char>,
    pub assigner: Option<Seq<char>>,
    pub delimiter: Option<Seq<char>>,
    pub attribute: AttributeSet,
}

impl StyleGroupV {
    /// A group's prefix is never empty.
    pub open spec fn wf(self) -> bool {
        self.prefix.len() >= 1
    }
}

/// One flag dialect: a token matches the group when it starts with `prefix`;
/// `assigner` separates a flag name from an attached value, `delimiter`
/// separates multiple values within one value region, and `attribute` holds
/// the group's grammar switches.
#[derive(Clone)]
pub struct StyleGroup {
    prefix: String,
    assigner: Option<String>,
    delimiter: Option<String>,
    attribute: AttributeSet,
}

impl View for StyleGroup {
    type V = StyleGroupV;

    closed spec fn view(&self) -> StyleGroupV {
        StyleGroupV {
            prefix: self.prefix@,
            assigner: match self.assigner {
                Some(ref a) => Some(a@),
                None => None,
            },
            delimiter: match self.delimiter {
                Some(ref d) => Some(d@),
                None => None,
            },
            attribute: self.attribute,
        }
    }
}

impl DeepView for StyleGroup {
    type V = StyleGroupV;

    open spec fn deep_view(&self) -> StyleGroupV {
        self.view()
    }
}

/// Character-wise equality of two optional strings.
fn opt_str_eq(a: &Option<String>, b: &Option<String>) -> (r: bool)
    ensures
        r == ((match a {
            Some(x) => Some(x@),
            None => None,
        }) == (match b {
            Some(y) => Some(y@),
            None => None,
        })),
{
    match (a, b) {
        (None, None) => true,
        (Some(x), Some(y)) => str_eq(x.as_str(), y.as_str()),
        _ => false,
    }
}

impl StyleGroup {
    /// Builds a group. The prefix must not be empty: a group with an empty
    /// prefix would claim every token.
    pub fn new(
        prefix: String,
        assigner: Option<String>,
        delimiter: Option<String>,
        attribute: AttributeSet,
    ) -> (r: StyleGroup)
        requires
            prefix@.len() >= 1,
        ensures
            r@ == (StyleGroupV {
                prefix: prefix@,
                assigner: match assigner {
                    Some(a) => Some(a@),
                    None => None,
                },
                delimiter: match delimiter {
                    Some(d) => Some(d@),
                    None => None,
                },
                attribute: attribute,
            }),
            r@.wf(),
    {
        StyleGroup { prefix, assigner, delimiter, attribute }
    }

    /// The group's prefix.
    pub fn prefix(&self) -> (r: &String)
        ensures
            r@ == self@.prefix,
    {
        &self.prefix
    }

    /// The group's assigner, if any.
    pub fn assigner(&self) -> (r: &Option<String>)
        ensures
            r is Some <==> self@.assigner is Some,
            r matches Some(a) ==> self@.assigner == Some(a@),
    {
        &self.assigner
    }

    /// The group's delimiter, if any.
    pub fn delimiter(&self) -> (r: &Option<String>)
        ensures
            r is Some <==> self@.delimiter is Some,
            r matches Some(d) ==> self@.delimiter == Some(d@),
    {
        &self.delimiter
    }

    /// The group's attribute set.
    pub fn attribute(&self) -> (r: AttributeSet)
        ensures
            r == self@.attribute,
    {
        self.attribute
    }

    /// Do two groups describe the same dialect? Flag registrations are keyed
    /// by the group's value, so groups that compare equal here share their
    /// flag bucket.
    pub fn same_dialect(&self, other: &StyleGroup) -> (r: bool)
        ensures
            r == (self@ == other@),
    {
        let r = str_eq(self.prefix.as_str(), other.prefix.as_str())
            && opt_str_eq(&self.assigner, &other.assigner)
            && opt_str_eq(&self.delimiter, &other.delimiter)
            && self.attribute == other.attribute;
        proof {
            if r {
                assert(self@ =~= other@);
            }
        }
        r
    }

    /// The GNU dialect: prefix `-`, assigner `=`, delimiter `,`, composable
    /// boolean flags and compact values.
    pub fn gnu_style() -> (r: StyleGroup)
        ensures
            r@ == (StyleGroupV {
                prefix: "-"@,
                assigner: Some("="@),
                delimiter: Some(","@),
                attribute: AttributeSet {
                    composable: true,
                    compact_value: true,
                    compact_arg: false,
                    no_assigner: false,
                    no_sparse_assign: false,
                },
            }),
            r@.wf(),
    {
        proof {
            reveal_strlit("-");
        }
        StyleGroup {
            prefix: String::from_str("-"),
            assigner: Some(String::from_str("=")),
            delimiter: Some(String::from_str(",")),
            attribute: Attribute::gnu_style(),
        }
    }

    /// The DOS dialect: prefix `/`, assigner `=`, delimiter `,`, composable
    /// boolean flags and assigner-attached values.
    pub fn dos_style() -> (r: StyleGroup)
        ensures
            r@ == (StyleGroupV {
                prefix: "/"@,
                assigner: Some("="@),
                delimiter: Some(","@),
                attribute: AttributeSet {
                    composable: true,
                    compact_value: false,
                    compact_arg: true,
                    no_assigner: false,
                    no_sparse_assign: false,
                },
            }),
            r@.wf(),
    {
        proof {
            reveal_strlit("/");
        }
        StyleGroup {
            prefix: String::from_str("/"),
            assigner: Some(String::from_str("=")),
            delimiter: Some(String::from_str(",")),
            attribute: Attribute::dos_style(),
        }
    }
}

/// The usage rendering of a group: a diagnostic view derived from the
/// group's fields alone; it plays no part in parsing.
pub open spec fn usage_spec(g: StyleGroupV) -> Seq<char> {
    let lead = if g.attribute.no_assigner && g.attribute.no_sparse_assign
        && !g.attribute.compact_value {
        g.prefix + "<name>"@
    } else {
        Seq::<char>::empty()
    };
    let space = if g.attribute.no_sparse_assign {
        Seq::<char>::empty()
    } else {
        " "@
    };
    let assigner = if g.attribute.no_assigner {
        Seq::<char>::empty()
    } else {
        match g.assigner {
            Some(a) => a,
            None => Seq::<char>::empty(),
        }
    };
    let value = if g.delimiter is None {
        "value"@
    } else {
        "value_1,value_2,value_N"@
    };
    lead + g.prefix + "<name>"@ + space + "["@ + assigner + value + "]"@
}

impl StyleGroup {
    /// A human-readable usage rendering of the group, such as
    /// `-<name> [=value]`.
    pub fn usage(&self) -> (r: String)
        ensures
            r@ == usage_spec(self@),
    {
        let mut out = String::new();
        let at = self.attribute;
        if at.no_assigner && at.no_sparse_assign && !at.compact_value {
            out.append(self.prefix.as_str());
            out.append("<name>");
        }
        out.append(self.prefix.as_str());
        out.append("<name>");
        if !at.no_sparse_assign {
            out.append(" ");
        }
        out.append("[");
        if !at.no_assigner {
            match &self.assigner {
                Some(a) => out.append(a.as_str()),
                None => {},
            }
        }
        if self.delimiter.is_none() {
            out.append("value");
        } else {
            out.append("value_1,value_2,value_N");
        }
        out.append("]");
        proof {
            assert(out@ =~= usage_spec(self@));
        }
        out
    }
}

/// The mathematical shape of a [`Style`].
#[verifier::ext_equal]
pub ghost struct StyleV {
    pub groups: Seq<StyleGroupV>,
    pub terminators: Seq<Seq<char>>,
}

/// A schema root: an ordered list of style groups (indices are assigned at
/// append time and never reused) plus the set of terminator tokens.
pub struct Style {
    pub groups: Vec<StyleGroup>,
    pub terminators: Vec<String>,
}

impl View for Style {
    type V = StyleV;

    open spec fn view(&self) -> StyleV {
        StyleV { groups: self.groups.deep_view(), terminators: self.terminators.deep_view() }
    }
}

impl Style {
    /// An empty style.
    pub fn new() -> (r: Style)
        ensures
            r@.groups == Seq::<StyleGroupV>::empty(),
            r@.terminators == Seq::<Seq<char>>::empty(),
    {
        Style::with_capacity(8, 2)
    }

    /// An empty style with storage reserved for the given counts.
    pub fn with_capacity(group_size: usize, terminator_size: usize) -> (r: Style)
        ensures
            r@.groups == Seq::<StyleGroupV>::empty(),
            r@.terminators == Seq::<Seq<char>>::empty(),
    {
        let r = Style {
            groups: Vec::with_capacity(group_size),
            terminators: Vec::with_capacity(terminator_size),
        };
        proof {
            assert(r@.groups =~= Seq::<StyleGroupV>::empty());
            assert(r@.terminators =~= Seq::<Seq<char>>::empty());
        }
        r
    }

    /// Appends a group and returns its stable index.
    pub fn group(&mut self, style_group: StyleGroup) -> (idx: usize)
        ensures
            final(self)@.groups == old(self)@.groups.push(style_group@),
            final(self)@.terminators == old(self)@.terminators,
            idx == old(self)@.groups.len(),
    {
        let idx = self.groups.len();
        self.groups.push(style_group);
        proof {
            assert(self@.groups =~= old(self)@.groups.push(style_group@));
            assert(self@.terminators =~= old(self)@.terminators);
        }
        idx
    }

    /// Appends a terminator token and returns its index.
    pub fn terminator(&mut self, terminator: String) -> (idx: usize)
        ensures
            final(self)@.terminators == old(self)@.terminators.push(terminator@),
            final(self)@.groups == old(self)@.groups,
            idx == old(self)@.terminators.len(),
    {
        let idx = self.terminators.len();
        self.terminators.push(terminator);
        proof {
            assert(self@.terminators =~= old(self)@.terminators.push(terminator@));
            assert(self@.groups =~= old(self)@.groups);
        }
        idx
    }
}

} // verus!
