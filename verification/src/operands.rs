//! Operands of the compiled evaluator: what an instruction reads and writes.

use vstd::prelude::*;

verus! {

/// Index of a constant in the constant table.
#[derive(Clone, Copy, PartialEq, Eq, Structural, Hash, Debug, PartialOrd, Ord)]
pub struct Constant(pub u16);

impl Constant {
    /// Creates the identifier with the given index.
    pub fn new(index: u16) -> (r: Self)
        ensures
            r.0 == index,
    {
        Constant(index)
    }

    /// The raw index.
    pub fn as_raw(self) -> (r: u16)
        ensures
            r == self.0,
    {
        self.0
    }
}

/// Index of a register.
#[derive(Clone, Copy, PartialEq, Eq, Structural, Hash, Debug, PartialOrd, Ord)]
pub struct Register(pub u16);

impl Register {
    /// Creates the identifier with the given index.
    pub fn new(index: u16) -> (r: Self)
        ensures
            r.0 == index,
    {
        Register(index)
    }

    /// The raw index.
    pub fn as_raw(self) -> (r: u16)
        ensures
            r == self.0,
    {
        self.0
    }
}

/// Index of a string in the string table.
#[derive(Clone, Copy, PartialEq, Eq, Structural, Hash, Debug, PartialOrd, Ord)]
pub struct StringId(pub u16);

impl StringId {
    /// Creates the identifier with the given index.
    pub fn new(index: u16) -> (r: Self)
        ensures
            r.0 == index,
    {
        StringId(index)
    }

    /// The raw index.
    pub fn as_raw(self) -> (r: u16)
        ensures
            r == self.0,
    {
        self.0
    }
}

/// Index of a closure.
#[derive(Clone, Copy, PartialEq, Eq, Structural, Hash, Debug, PartialOrd, Ord)]
pub struct ClosureId(pub u16);

impl ClosureId {
    /// Creates the identifier with the given index.
    pub fn new(index: u16) -> (r: Self)
        ensures
            r.0 == index,
    {
        ClosureId(index)
    }

    /// The raw index.
    pub fn as_raw(self) -> (r: u16)
        ensures
            r == self.0,
    {
        self.0
    }
}

/// Index of an access path.
#[derive(Clone, Copy, PartialEq, Eq, Structural, Hash, Debug, PartialOrd, Ord)]
pub struct AccessId(pub u16);

impl AccessId {
    /// Creates the identifier with the given index.
    pub fn new(index: u16) -> (r: Self)
        ensures
            r.0 == index,
    {
        AccessId(index)
    }

    /// The raw index.
    pub fn as_raw(self) -> (r: u16)
        ensures
            r == self.0,
    {
        self.0
    }
}

/// Index of a global binding.
#[derive(Clone, Copy, PartialEq, Eq, Structural, Hash, Debug, PartialOrd, Ord)]
pub struct Global(pub u16);

impl Global {
    /// Creates the identifier with the given index.
    pub fn new(index: u16) -> (r: Self)
        ensures
            r.0 == index,
    {
        Global(index)
    }

    /// The raw index.
    pub fn as_raw(self) -> (r: u16)
        ensures
            r == self.0,
    {
        self.0
    }
}

/// Index of a math binding.
#[derive(Clone, Copy, PartialEq, Eq, Structural, Hash, Debug, PartialOrd, Ord)]
pub struct Math(pub u16);

impl Math {
    /// Creates the identifier with the given index.
    pub fn new(index: u16) -> (r: Self)
        ensures
            r.0 == index,
    {
        Math(index)
    }

    /// The raw index.
    pub fn as_raw(self) -> (r: u16)
        ensures
            r == self.0,
    {
        self.0
    }
}

/// Index of an instruction pointer.
#[derive(Clone, Copy, PartialEq, Eq, Structural, Hash, Debug, PartialOrd, Ord)]
pub struct Pointer(pub u16);

impl Pointer {
    /// Creates the identifier with the given index.
    pub fn new(index: u16) -> (r: Self)
        ensures
            r.0 == index,
    {
        Pointer(index)
    }

    /// The raw index.
    pub fn as_raw(self) -> (r: u16)
        ensures
            r == self.0,
    {
        self.0
    }
}

/// Index of a label.
#[derive(Clone, Copy, PartialEq, Eq, Structural, Hash, Debug, PartialOrd, Ord)]
pub struct LabelId(pub u16);

impl LabelId {
    /// Creates the identifier with the given index.
    pub fn new(index: u16) -> (r: Self)
        ensures
            r.0 == index,
    {
        LabelId(index)
    }

    /// The raw index.
    pub fn as_raw(self) -> (r: u16)
        ensures
            r == self.0,
    {
        self.0
    }
}

/// Index of a call site.
#[derive(Clone, Copy, PartialEq, Eq, Structural, Hash, Debug, PartialOrd, Ord)]
pub struct CallId(pub u16);

impl CallId {
    /// Creates the identifier with the given index.
    pub fn new(index: u16) -> (r: Self)
        ensures
            r.0 == index,
    {
        CallId(index)
    }

    /// The raw index.
    pub fn as_raw(self) -> (r: u16)
        ensures
            r == self.0,
    {
        self.0
    }
}

/// Index of a destructuring pattern.
#[derive(Clone, Copy, PartialEq, Eq, Structural, Hash, Debug, PartialOrd, Ord)]
pub struct PatternId(pub u16);

impl PatternId {
    /// Creates the identifier with the given index.
    pub fn new(index: u16) -> (r: Self)
        ensures
            r.0 == index,
    {
        PatternId(index)
    }

    /// The raw index.
    pub fn as_raw(self) -> (r: u16)
        ensures
            r == self.0,
    {
        self.0
    }
}

/// Index of a source span.
#[derive(Clone, Copy, PartialEq, Eq, Structural, Hash, Debug, PartialOrd, Ord)]
pub struct SpanId(pub u16);

impl SpanId {
    /// Creates the identifier with the given index.
    pub fn new(index: u16) -> (r: Self)
        ensures
            r.0 == index,
    {
        SpanId(index)
    }

    /// The raw index.
    pub fn as_raw(self) -> (r: u16)
        ensures
            r == self.0,
    {
        self.0
    }
}

/// Index of a module.
#[derive(Clone, Copy, PartialEq, Eq, Structural, Hash, Debug, PartialOrd, Ord)]
pub struct ModuleId(pub u16);

impl ModuleId {
    /// Creates the identifier with the given index.
    pub fn new(index: u16) -> (r: Self)
        ensures
            r.0 == index,
    {
        ModuleId(index)
    }

    /// The raw index.
    pub fn as_raw(self) -> (r: u16)
        ensures
            r == self.0,
    {
        self.0
    }
}

/// A value that an instruction can read.
#[derive(Clone, Copy, PartialEq, Eq, Structural, Hash, Debug)]
pub enum Readable {
    /// A constant.
    Const(Constant),
    /// A register.
    Reg(Register),
    /// A string.
    Str(StringId),
    /// A global binding.
    Global(Global),
    /// A math binding.
    Math(Math),
    /// A boolean literal.
    Bool(bool),
    /// A label.
    Label(LabelId),
    /// An access path.
    Access(AccessId),
    /// The `none` value.
    NoneValue,
    /// The `auto` value.
    Auto,
}

impl Readable {
    /// Creates a new none readable.
    pub fn none() -> (r: Self)
        ensures
            r == Readable::NoneValue,
    {
        Readable::NoneValue
    }

    /// Creates a new auto readable.
    pub fn auto() -> (r: Self)
        ensures
            r == Readable::Auto,
    {
        Readable::Auto
    }

    /// Creates a new bool readable.
    pub fn bool(value: bool) -> (r: Self)
        ensures
            r == Readable::Bool(value),
    {
        Readable::Bool(value)
    }

    /// Creates a new constant readable.
    pub fn const_(const_: Constant) -> (r: Self)
        ensures
            r == Readable::Const(const_),
    {
        Readable::Const(const_)
    }

    /// Creates a new register readable.
    pub fn reg(reg: Register) -> (r: Self)
        ensures
            r == Readable::Reg(reg),
    {
        Readable::Reg(reg)
    }

    /// Creates a new string readable.
    pub fn string(string: StringId) -> (r: Self)
        ensures
            r == Readable::Str(string),
    {
        Readable::Str(string)
    }

    /// Creates a new global readable.
    pub fn global(global: Global) -> (r: Self)
        ensures
            r == Readable::Global(global),
    {
        Readable::Global(global)
    }

    /// Creates a new math readable.
    pub fn math(math: Math) -> (r: Self)
        ensures
            r == Readable::Math(math),
    {
        Readable::Math(math)
    }

    /// Creates a new access readable.
    pub fn access(access: AccessId) -> (r: Self)
        ensures
            r == Readable::Access(access),
    {
        Readable::Access(access)
    }

    /// Creates a new label readable.
    pub fn label(label: LabelId) -> (r: Self)
        ensures
            r == Readable::Label(label),
    {
        Readable::Label(label)
    }

    /// Returns this readable as a constant; the readable must be a constant.
    pub fn as_const(self) -> (r: Constant)
        requires
            self is Const,
        ensures
            self == Readable::Const(r),
    {
        match self {
            Readable::Const(v) => v,
            _ => vstd::pervasive::unreached(),
        }
    }

    /// Returns this readable as a register; the readable must be a register.
    pub fn as_reg(self) -> (r: Register)
        requires
            self is Reg,
        ensures
            self == Readable::Reg(r),
    {
        match self {
            Readable::Reg(v) => v,
            _ => vstd::pervasive::unreached(),
        }
    }

    /// Returns this readable as a string; the readable must be a string.
    pub fn as_string(self) -> (r: StringId)
        requires
            self is Str,
        ensures
            self == Readable::Str(r),
    {
        match self {
            Readable::Str(v) => v,
            _ => vstd::pervasive::unreached(),
        }
    }

    /// Returns this readable as a global; the readable must be a global.
    pub fn as_global(self) -> (r: Global)
        requires
            self is Global,
        ensures
            self == Readable::Global(r),
    {
        match self {
            Readable::Global(v) => v,
            _ => vstd::pervasive::unreached(),
        }
    }

    /// Returns this readable as a math; the readable must be a math.
    pub fn as_math(self) -> (r: Math)
        requires
            self is Math,
        ensures
            self == Readable::Math(r),
    {
        match self {
            Readable::Math(v) => v,
            _ => vstd::pervasive::unreached(),
        }
    }

    /// Returns this readable as a bool; the readable must be a bool.
    pub fn as_bool(self) -> (r: bool)
        requires
            self is Bool,
        ensures
            self == Readable::Bool(r),
    {
        match self {
            Readable::Bool(v) => v,
            _ => vstd::pervasive::unreached(),
        }
    }

    /// Returns this readable as a label; the readable must be a label.
    pub fn as_label(self) -> (r: LabelId)
        requires
            self is Label,
        ensures
            self == Readable::Label(r),
    {
        match self {
            Readable::Label(v) => v,
            _ => vstd::pervasive::unreached(),
        }
    }

    /// Returns true if the operand is a register.
    pub fn is_reg(self) -> (r: bool)
        ensures
            r == (self is Reg),
    {
        match self {
            Readable::Reg(_) => true,
            _ => false,
        }
    }
}

/// A place that an instruction can write to.
#[derive(Clone, Copy, PartialEq, Eq, Structural, Hash, Debug)]
pub enum Writable {
    /// A register.
    Reg(Register),
    /// The joiner, which joins the written value with the ones before.
    Joiner,
}

impl Writable {
    /// Creates a new register writable.
    pub fn reg(reg: Register) -> (r: Self)
        ensures
            r == Writable::Reg(reg),
    {
        Writable::Reg(reg)
    }

    /// Creates a new joiner writable.
    pub fn joiner() -> (r: Self)
        ensures
            r == Writable::Joiner,
    {
        Writable::Joiner
    }

    /// Returns this writable as a register; the writable must be a register.
    pub fn as_reg(self) -> (r: Register)
        requires
            self is Reg,
        ensures
            self == Writable::Reg(r),
    {
        match self {
            Writable::Reg(v) => v,
            Writable::Joiner => vstd::pervasive::unreached(),
        }
    }
}


impl From<Constant> for Readable {
    /// The readable that reads the operand.
    fn from(v: Constant) -> (r: Self) {
        Readable::Const(v)
    }
}

impl vstd::std_specs::convert::FromSpecImpl<Constant> for Readable {
    open spec fn obeys_from_spec() -> bool {
        true
    }

    open spec fn from_spec(v: Constant) -> Self {
        Readable::Const(v)
    }
}

impl From<Register> for Readable {
    /// The readable that reads the operand.
    fn from(v: Register) -> (r: Self) {
        Readable::Reg(v)
    }
}

impl vstd::std_specs::convert::FromSpecImpl<Register> for Readable {
    open spec fn obeys_from_spec() -> bool {
        true
    }

    open spec fn from_spec(v: Register) -> Self {
        Readable::Reg(v)
    }
}

impl From<StringId> for Readable {
    /// The readable that reads the operand.
    fn from(v: StringId) -> (r: Self) {
        Readable::Str(v)
    }
}

impl vstd::std_specs::convert::FromSpecImpl<StringId> for Readable {
    open spec fn obeys_from_spec() -> bool {
        true
    }

    open spec fn from_spec(v: StringId) -> Self {
        Readable::Str(v)
    }
}

impl From<Global> for Readable {
    /// The readable that reads the operand.
    fn from(v: Global) -> (r: Self) {
        Readable::Global(v)
    }
}

impl vstd::std_specs::convert::FromSpecImpl<Global> for Readable {
    open spec fn obeys_from_spec() -> bool {
        true
    }

    open spec fn from_spec(v: Global) -> Self {
        Readable::Global(v)
    }
}

impl From<Math> for Readable {
    /// The readable that reads the operand.
    fn from(v: Math) -> (r: Self) {
        Readable::Math(v)
    }
}

impl vstd::std_specs::convert::FromSpecImpl<Math> for Readable {
    open spec fn obeys_from_spec() -> bool {
        true
    }

    open spec fn from_spec(v: Math) -> Self {
        Readable::Math(v)
    }
}

impl From<bool> for Readable {
    /// The readable that reads the operand.
    fn from(v: bool) -> (r: Self) {
        Readable::Bool(v)
    }
}

impl vstd::std_specs::convert::FromSpecImpl<bool> for Readable {
    open spec fn obeys_from_spec() -> bool {
        true
    }

    open spec fn from_spec(v: bool) -> Self {
        Readable::Bool(v)
    }
}

impl From<LabelId> for Readable {
    /// The readable that reads the operand.
    fn from(v: LabelId) -> (r: Self) {
        Readable::Label(v)
    }
}

impl vstd::std_specs::convert::FromSpecImpl<LabelId> for Readable {
    open spec fn obeys_from_spec() -> bool {
        true
    }

    open spec fn from_spec(v: LabelId) -> Self {
        Readable::Label(v)
    }
}

impl From<AccessId> for Readable {
    /// The readable that reads the operand.
    fn from(v: AccessId) -> (r: Self) {
        Readable::Access(v)
    }
}

impl vstd::std_specs::convert::FromSpecImpl<AccessId> for Readable {
    open spec fn obeys_from_spec() -> bool {
        true
    }

    open spec fn from_spec(v: AccessId) -> Self {
        Readable::Access(v)
    }
}

impl From<Register> for Writable {
    /// The writable that writes the register.
    fn from(v: Register) -> (r: Self) {
        Writable::Reg(v)
    }
}

impl vstd::std_specs::convert::FromSpecImpl<Register> for Writable {
    open spec fn obeys_from_spec() -> bool {
        true
    }

    open spec fn from_spec(v: Register) -> Self {
        Writable::Reg(v)
    }
}


/// In which mode to evaluate a string.
#[derive(Clone, Copy, PartialEq, Eq, Structural, Hash, Debug)]
pub enum EvalMode {
    /// Evaluate as code, as after a hash.
    Code,
    /// Evaluate as markup, like in a Typst file.
    Markup,
    /// Evaluate as math, as in an equation.
    Math,
}

} // verus!
