//! The plain-value side of running scripts in a game engine: hooks, the plugin's settings,
//! script assets and errors, entities, and the integers scripts read and write.
use vstd::prelude::*;
use vstd::string::StringExecFns;

verus! {

/// The hooks a script can register functions to.
#[derive(Debug, Clone, Copy, PartialEq, Eq, Structural)]
pub enum Hook {
    Start,
    Update,
    FixedUpdate,
    Stop,
}

/// The name a script uses for a hook.
pub open spec fn hook_name(h: Hook) -> Seq<char> {
    match h {
        Hook::Start => "start"@,
        Hook::Update => "update"@,
        Hook::FixedUpdate => "fixed_update"@,
        Hook::Stop => "stop"@,
    }
}

impl Hook {
    /// Every hook, in the order they run in a frame's life.
    pub fn all() -> (hooks: [Hook; 4])
        ensures
            hooks@ == seq![Hook::Start, Hook::Update, Hook::FixedUpdate, Hook::Stop],
    {
        let hooks = [Hook::Start, Hook::Update, Hook::FixedUpdate, Hook::Stop];
        assert(hooks@ =~= seq![Hook::Start, Hook::Update, Hook::FixedUpdate, Hook::Stop]);
        hooks
    }

    /// The name a script uses for this hook.
    pub fn name(self) -> (s: &'static str)
        ensures
            s@ == hook_name(self),
    {
        match self {
            Hook::Start => "start",
            Hook::Update => "update",
            Hook::FixedUpdate => "fixed_update",
            Hook::Stop => "stop",
        }
    }
}

/// Which scripts the plugin loads at startup: named paths under `assets/`, or a whole folder.
#[derive(Debug, Clone)]
pub struct MimasPlugin {
    /// Paths under `assets/` to load at startup.
    pub scripts: Vec<String>,
    /// A folder under `assets/` to load whole at startup.
    pub folder: Option<String>,
}

impl MimasPlugin {
    /// Loads each of `scripts` and nothing else.
    pub fn new(scripts: Vec<String>) -> (p: Self)
        ensures
            p.scripts@ == scripts@,
            p.folder is None,
    {
        MimasPlugin { scripts, folder: None }
    }

    /// Loads every `.mim` file in a folder relative to `assets/`.
    pub fn folder(folder: String) -> (p: Self)
        ensures
            p.scripts@.len() == 0,
            p.folder == Some(folder),
    {
        MimasPlugin { scripts: Vec::new(), folder: Some(folder) }
    }
}

impl Default for MimasPlugin {
    /// Loads the `assets/scripts` folder.
    fn default() -> (p: Self)
        ensures
            p.scripts@.len() == 0,
            p.folder matches Some(f) && f@ == "scripts"@,
    {
        MimasPlugin::folder(String::from_str("scripts"))
    }
}

/// The systems that compile and run scripts.
#[derive(Debug, Clone, Copy, PartialEq, Eq, Structural, Hash)]
pub struct MimasSystems;

/// A loaded `.mim` file.
#[derive(Debug, Clone)]
pub struct MimasScript {
    pub path: String,
    pub source: String,
}

/// Runs a script's hooks for the entity holding it: the id of the script asset.
#[derive(Debug, Clone, Copy, PartialEq, Eq, Structural, Hash)]
pub struct Script(pub u64);

/// A script's compile error or runtime fault: the script asset's id, the bits of the entity whose
/// hook it happened in (if it happened in a hook), and the message.
#[derive(Debug, Clone)]
pub struct ScriptError {
    pub script: u64,
    pub entity: Option<u64>,
    pub message: String,
}

/// An engine entity as scripts hold it: its bits, as an `int`.
#[derive(Debug, Clone, Copy, PartialEq, Eq, Structural, Hash)]
pub struct Entity(pub i64);

impl Entity {
    /// The script value of the entity with bits `bits`: the same bits, read as signed.
    pub fn from_bits(bits: u64) -> (e: Entity)
        ensures
            e.0 == bits as i64,
    {
        Entity(bits as i64)
    }

    /// The bits of the entity this script value stands for.
    pub fn to_bits(self) -> (bits: u64)
        ensures
            bits == self.0 as u64,
    {
        self.0 as u64
    }
}

/// Entity bits survive the trip into a script and back.
pub proof fn lemma_entity_bits_roundtrip(bits: u64)
    ensures
        (bits as i64) as u64 == bits,
{
    assert((bits as i64) as u64 == bits) by (bit_vector);
}

/// An integer of one of the integer types scripts can read and write.
#[derive(Debug, Clone, Copy, PartialEq, Eq, Structural)]
pub enum IntValue {
    I8(i8),
    I16(i16),
    I32(i32),
    I64(i64),
    Isize(isize),
    U8(u8),
    U16(u16),
    U32(u32),
    U64(u64),
    Usize(usize),
}

/// An integer type scripts can read and write.
#[derive(Debug, Clone, Copy, PartialEq, Eq, Structural)]
pub enum IntType {
    I8,
    I16,
    I32,
    I64,
    Isize,
    U8,
    U16,
    U32,
    U64,
    Usize,
}

/// The type of an integer value.
pub open spec fn int_type(v: IntValue) -> IntType {
    match v {
        IntValue::I8(_) => IntType::I8,
        IntValue::I16(_) => IntType::I16,
        IntValue::I32(_) => IntType::I32,
        IntValue::I64(_) => IntType::I64,
        IntValue::Isize(_) => IntType::Isize,
        IntValue::U8(_) => IntType::U8,
        IntValue::U16(_) => IntType::U16,
        IntValue::U32(_) => IntType::U32,
        IntValue::U64(_) => IntType::U64,
        IntValue::Usize(_) => IntType::Usize,
    }
}

/// An integer as a script `int`: its value, with a 64-bit unsigned integer keeping its bits (so
/// one above `i64::MAX` comes out negative).
pub open spec fn int_of(v: IntValue) -> i64 {
    match v {
        IntValue::I8(n) => n as i64,
        IntValue::I16(n) => n as i64,
        IntValue::I32(n) => n as i64,
        IntValue::I64(n) => n,
        IntValue::Isize(n) => n as i64,
        IntValue::U8(n) => n as i64,
        IntValue::U16(n) => n as i64,
        IntValue::U32(n) => n as i64,
        IntValue::U64(n) => n as i64,
        IntValue::Usize(n) => n as i64,
    }
}

/// Reads any integer as an `int`. A `u64` above `i64::MAX` keeps its bits and comes out negative.
pub fn read_int(value: IntValue) -> (n: i64)
    ensures
        n == int_of(value),
{
    match value {
        IntValue::I8(n) => n as i64,
        IntValue::I16(n) => n as i64,
        IntValue::I32(n) => n as i64,
        IntValue::I64(n) => n,
        IntValue::Isize(n) => n as i64,
        IntValue::U8(n) => n as i64,
        IntValue::U16(n) => n as i64,
        IntValue::U32(n) => n as i64,
        IntValue::U64(n) => n as i64,
        IntValue::Usize(n) => n as i64,
    }
}

/// An `int` as an integer of type `ty`: 64-bit integers take the bits as they are, and smaller
/// ones have to fit.
pub open spec fn boxed(ty: IntType, n: i64) -> Option<IntValue> {
    match ty {
        IntType::I8 => if i8::MIN <= n <= i8::MAX { Some(IntValue::I8(n as i8)) } else { None },
        IntType::I16 => if i16::MIN <= n <= i16::MAX { Some(IntValue::I16(n as i16)) } else { None },
        IntType::I32 => if i32::MIN <= n <= i32::MAX { Some(IntValue::I32(n as i32)) } else { None },
        IntType::I64 => Some(IntValue::I64(n)),
        IntType::Isize => if isize::BITS == 64 || (isize::MIN <= n <= isize::MAX) {
            Some(IntValue::Isize(n as isize))
        } else {
            None
        },
        IntType::U8 => if 0 <= n <= u8::MAX { Some(IntValue::U8(n as u8)) } else { None },
        IntType::U16 => if 0 <= n <= u16::MAX { Some(IntValue::U16(n as u16)) } else { None },
        IntType::U32 => if 0 <= n <= u32::MAX { Some(IntValue::U32(n as u32)) } else { None },
        IntType::U64 => Some(IntValue::U64(n as u64)),
        IntType::Usize => if usize::BITS == 64 || (0 <= n <= usize::MAX) {
            Some(IntValue::Usize(n as usize))
        } else {
            None
        },
    }
}

/// Boxes an `int` as an integer of type `ty`: 64-bit integers take the bits back as they are,
/// and smaller ones have to fit.
pub fn box_int(ty: IntType, n: i64) -> (r: Option<IntValue>)
    ensures
        r == boxed(ty, n),
{
    match ty {
        IntType::I8 => if i8::MIN as i64 <= n && n <= i8::MAX as i64 { Some(IntValue::I8(n as i8)) } else { None },
        IntType::I16 => if i16::MIN as i64 <= n && n <= i16::MAX as i64 { Some(IntValue::I16(n as i16)) } else { None },
        IntType::I32 => if i32::MIN as i64 <= n && n <= i32::MAX as i64 { Some(IntValue::I32(n as i32)) } else { None },
        IntType::I64 => Some(IntValue::I64(n)),
        IntType::Isize => {
            if isize::BITS == 64 || (isize::MIN as i64 <= n && n <= isize::MAX as i64) {
                Some(IntValue::Isize(n as isize))
            } else {
                None
            }
        },
        IntType::U8 => if 0 <= n && n <= u8::MAX as i64 { Some(IntValue::U8(n as u8)) } else { None },
        IntType::U16 => if 0 <= n && n <= u16::MAX as i64 { Some(IntValue::U16(n as u16)) } else { None },
        IntType::U32 => if 0 <= n && n <= u32::MAX as i64 { Some(IntValue::U32(n as u32)) } else { None },
        IntType::U64 => Some(IntValue::U64(n as u64)),
        IntType::Usize => {
            if usize::BITS == 64 || (0 <= n && n as i128 <= usize::MAX as i128) {
                Some(IntValue::Usize(n as usize))
            } else {
                None
            }
        },
    }
}

/// Every integer a script reads, written back as its own type, is the integer it was: the bits of
/// a 64-bit integer survive the trip through an `int`.
pub proof fn lemma_int_roundtrip(v: IntValue)
    ensures
        boxed(int_type(v), int_of(v)) == Some(v),
{
    match v {
        IntValue::U64(n) => {
            assert(((n as i64) as u64) == n) by (bit_vector);
        },
        IntValue::Usize(n) => {
            if usize::BITS == 64 {
                assert(((n as i64) as usize) == n) by (bit_vector)
                    requires
                        usize::BITS == 64,
                ;
            } else {
                assert(n as i64 == n as int);
            }
        },
        IntValue::Isize(n) => {
            assert(n as i64 == n as int);
        },
        _ => {},
    }
}

} // verus!
