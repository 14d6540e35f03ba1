use vstd::prelude::*;

verus! {

/// The kind tag of a value.
#[derive(Debug, Clone, Copy, PartialEq, Eq, Structural, PartialOrd, Ord, Hash)]
pub enum VariableTypes {
    INT,
    STRING,
    FLOAT,
    BOOL,
    NULL,
}

/// A typed scalar: its textual representation and its kind.
#[derive(Debug, Clone)]
pub struct VariableContent {
    pub value: String,
    pub data_type: VariableTypes,
}

/// The mathematical value of a `VariableContent`: its kind and its text.
pub type ValueView = (VariableTypes, Seq<char>);

impl View for VariableContent {
    type V = ValueView;

    open spec fn view(&self) -> ValueView {
        (self.data_type, self.value@)
    }
}

/// The fatal errors that a program run can end with.
#[derive(Debug, Clone, Copy, PartialEq, Eq, Structural)]
pub enum ErrorKind {
    /// Lookup or assignment of a name that no scope declares.
    NameError,
    /// A call of a name that neither the native nor the user table holds.
    UnknownFunctionError,
    /// A built-in called with fewer arguments than it needs.
    ArityError,
    /// An operand of a kind that the operation does not accept.
    TypeError,
    /// Numeric text that does not read as a number of its kind.
    MalformedNumber,
    /// An arithmetic result that does not fit the machine representation.
    Overflow,
    /// User-defined calls nested deeper than the evaluator allows.
    CallDepthExceeded,
}

impl VariableContent {
    /// Builds a value from its kind and text.
    pub fn new(data_type: VariableTypes, value: String) -> (r: VariableContent)
        ensures
            r@ == (data_type, value@),
    {
        VariableContent { value, data_type }
    }

    /// The `Null` value, with empty text.
    pub fn null() -> (r: VariableContent)
        ensures
            r@ == null_value(),
    {
        VariableContent { value: String::new(), data_type: VariableTypes::NULL }
    }

    /// An independent copy of this value.
    pub fn duplicate(&self) -> (r: VariableContent)
        ensures
            r@ == self@,
    {
        VariableContent { value: self.value.clone(), data_type: self.data_type }
    }

    /// Equality on (kind, text), with no numeric normalisation.
    pub fn same_as(&self, other: &VariableContent) -> (r: bool)
        ensures
            r == (self@ == other@),
    {
        self.data_type == other.data_type && self.value == other.value
    }
}

/// The `Null` value.
pub open spec fn null_value() -> ValueView {
    (VariableTypes::NULL, Seq::<char>::empty())
}

} // verus!
