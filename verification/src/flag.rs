//! Flag registrations: the typed result slot a resolved flag writes into,
//! and the registry of flags a parser resolves names against.

use vstd::prelude::*;

verus! {

/// A dynamically growable sequence of string values; a `ParamList` action
/// appends every delimited sub-value to it.
pub struct ParamList(pub Vec<String>);

impl ParamList {
    /// An empty list.
    pub fn new() -> (r: ParamList)
        ensures
            r.0@.len() == 0,
    {
        ParamList(Vec::new())
    }
}

/// The mathematical shape of a [`FlagAction`].
#[verifier::ext_equal]
pub ghost enum FlagActionV {
    ParamSingle(Seq<char>),
    ParamMulti(Seq<Seq<char>>),
    ParamList(Seq<Seq<char>>),
    SetBool(bool),
    SetInt(int),
}

/// How a resolved value is written back: the action owns its result slot for
/// the duration of a parse, and the caller reads it back afterwards.
pub enum FlagAction {
    /// One string slot, overwritten with the first sub-value.
    ParamSingle(String),
    /// A fixed-size sequence of string slots, written positionally; slots
    /// beyond the supplied sub-values keep their old content, extra
    /// sub-values are discarded.
    ParamMulti(Vec<String>),
    /// A growable list; every sub-value is appended, in order.
    ParamList(ParamList),
    /// Presence of the flag sets the slot true; any attached value is
    /// ignored.
    SetBool(bool),
    /// The single value region is parsed as a signed 32-bit integer.
    SetInt(i32),
}

impl View for FlagAction {
    type V = FlagActionV;

    open spec fn view(&self) -> FlagActionV {
        match self {
            FlagAction::ParamSingle(s) => FlagActionV::ParamSingle(s@),
            FlagAction::ParamMulti(v) => FlagActionV::ParamMulti(v.deep_view()),
            FlagAction::ParamList(l) => FlagActionV::ParamList(l.0.deep_view()),
            FlagAction::SetBool(b) => FlagActionV::SetBool(*b),
            FlagAction::SetInt(x) => FlagActionV::SetInt(*x as int),
        }
    }
}

impl DeepView for FlagAction {
    type V = FlagActionV;

    open spec fn deep_view(&self) -> FlagActionV {
        self.view()
    }
}

/// The mathematical shape of a [`Flag`].
#[verifier::ext_equal]
pub ghost struct FlagV {
    pub group_id: int,
    pub name: Seq<char>,
    pub action: FlagActionV,
}

/// One flag registration: the index of the owning style group within the
/// style, the flag's name, and the action its resolved values feed.
pub struct Flag {
    pub group_id: usize,
    pub name: String,
    pub action: FlagAction,
}

impl View for Flag {
    type V = FlagV;

    open spec fn view(&self) -> FlagV {
        FlagV { group_id: self.group_id as int, name: self.name@, action: self.action@ }
    }
}

impl DeepView for Flag {
    type V = FlagV;

    open spec fn deep_view(&self) -> FlagV {
        self.view()
    }
}

/// The flag registry: registrations in order of arrival. Lookups bucket the
/// entries by the value of their owning style group, and within a bucket the
/// last registration of a name wins.
pub struct Flags {
    pub map: Vec<Flag>,
}

impl Flags {
    /// An empty registry.
    pub fn new() -> (r: Flags)
        ensures
            r.map.deep_view() == Seq::<FlagV>::empty(),
    {
        Flags::with_capacity(4)
    }

    /// An empty registry with storage reserved for `size` entries.
    pub fn with_capacity(size: usize) -> (r: Flags)
        ensures
            r.map.deep_view() == Seq::<FlagV>::empty(),
    {
        let r = Flags { map: Vec::with_capacity(size) };
        proof {
            assert(r.map.deep_view() =~= Seq::<FlagV>::empty());
        }
        r
    }
}

} // verus!
