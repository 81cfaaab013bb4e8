//! Index types shared by the IR and the bytecode.
use vstd::prelude::*;

verus! {

/// A register of a compiled body.
#[derive(Clone, Copy, PartialEq, Eq, Structural, Debug, Hash)]
pub struct Reg(pub u32);

/// A function body of a program.
#[derive(Clone, Copy, PartialEq, Eq, Structural, Debug, Hash)]
pub struct BodyId(pub u32);

/// A struct, enum, or enum variant layout.
#[derive(Clone, Copy, PartialEq, Eq, Structural, Debug, Hash)]
pub struct AdtId(pub u32);

/// An interned string.
#[derive(Clone, Copy, PartialEq, Eq, Structural, Debug, Hash)]
pub struct StrId(pub u32);

/// A native function of the host.
#[derive(Clone, Copy, PartialEq, Eq, Structural, Debug, Hash)]
pub struct NativeId(pub u32);

/// A span of source text: the file it is in and its byte offsets there. The empty span at zero
/// of file zero stands for code that no source text wrote (a prologue, say).
#[derive(Clone, Copy, PartialEq, Eq, Structural, Debug, Hash)]
pub struct Location {
    pub file_id: u32,
    pub start: u32,
    pub end: u32,
}

impl Location {
    /// The location of code that no source text wrote.
    pub open spec fn synthetic_spec() -> Location {
        Location { file_id: 0, start: 0, end: 0 }
    }

    /// The location of code that no source text wrote.
    #[verifier::when_used_as_spec(synthetic_spec)]
    pub fn synthetic() -> (l: Location)
        ensures
            l == Location::synthetic_spec(),
    {
        Location { file_id: 0, start: 0, end: 0 }
    }
}

/// A block of an IR body.
#[derive(Clone, Copy, PartialEq, Eq, Structural, Debug, Hash)]
pub struct BlockId(pub u32);

/// An instruction of an IR body.
#[derive(Clone, Copy, PartialEq, Eq, Structural, Debug, Hash)]
pub struct InstId(pub u32);

/// A local variable slot of an IR body.
#[derive(Clone, Copy, PartialEq, Eq, Structural, Debug, Hash)]
pub struct Local(pub u32);


impl From<u32> for Reg {
    fn from(v: u32) -> (r: Reg) {
        Reg(v)
    }
}

impl vstd::std_specs::convert::FromSpecImpl<u32> for Reg {
    open spec fn obeys_from_spec() -> bool {
        true
    }

    open spec fn from_spec(v: u32) -> Reg {
        Reg(v)
    }
}

impl From<u32> for BodyId {
    fn from(v: u32) -> (r: BodyId) {
        BodyId(v)
    }
}

impl vstd::std_specs::convert::FromSpecImpl<u32> for BodyId {
    open spec fn obeys_from_spec() -> bool {
        true
    }

    open spec fn from_spec(v: u32) -> BodyId {
        BodyId(v)
    }
}

impl From<u32> for AdtId {
    fn from(v: u32) -> (r: AdtId) {
        AdtId(v)
    }
}

impl vstd::std_specs::convert::FromSpecImpl<u32> for AdtId {
    open spec fn obeys_from_spec() -> bool {
        true
    }

    open spec fn from_spec(v: u32) -> AdtId {
        AdtId(v)
    }
}

impl From<u32> for StrId {
    fn from(v: u32) -> (r: StrId) {
        StrId(v)
    }
}

impl vstd::std_specs::convert::FromSpecImpl<u32> for StrId {
    open spec fn obeys_from_spec() -> bool {
        true
    }

    open spec fn from_spec(v: u32) -> StrId {
        StrId(v)
    }
}

impl From<u32> for NativeId {
    fn from(v: u32) -> (r: NativeId) {
        NativeId(v)
    }
}

impl vstd::std_specs::convert::FromSpecImpl<u32> for NativeId {
    open spec fn obeys_from_spec() -> bool {
        true
    }

    open spec fn from_spec(v: u32) -> NativeId {
        NativeId(v)
    }
}

impl From<u32> for BlockId {
    fn from(v: u32) -> (r: BlockId) {
        BlockId(v)
    }
}

impl vstd::std_specs::convert::FromSpecImpl<u32> for BlockId {
    open spec fn obeys_from_spec() -> bool {
        true
    }

    open spec fn from_spec(v: u32) -> BlockId {
        BlockId(v)
    }
}

} // verus!
