//! The program model: the value types that describe a step, an operation and
//! a whole program. Pure data; the engine interprets it.

use crate::json::Json;
use vstd::prelude::*;

verus! {

/// A literal for the constant step.
#[derive(Debug, Clone)]
pub enum ConstantValue {
    Text(String),
    Number(serde_json::Number),
    Bool(bool),
    Null,
}

/// The element-wise arithmetic operator of the calculate step.
#[derive(Debug, Clone, Copy, PartialEq, Eq, Structural)]
pub enum MathOp {
    Add,
    Subtract,
    Multiply,
    Divide,
}

/// The comparison operator of the numeric filter.
#[derive(Debug, Clone, Copy, PartialEq, Eq, Structural)]
pub enum CmpOp {
    Gt,
    Lt,
    Eq,
    Gte,
    Lte,
}

/// One placeholder of a template: the key appears in braces in the template,
/// the path says where its value comes from.
#[derive(Debug, Clone)]
pub struct FormatVariable {
    pub key: String,
    pub path: String,
}

/// An atomic operation: a closed union, one variant per supported step kind.
#[derive(Debug, Clone)]
pub enum LogicOp {
    /// Read a value from the state.
    Get { path: String },
    /// Produce a constant value.
    Constant { value: ConstantValue },
    /// Extract a field from a list of objects.
    Pluck { path: String, key: String },
    Add { a: String, b: String },
    Subtract { a: String, b: String },
    Multiply { a: String, b: String },
    Divide { a: String, b: String },
    /// Element-wise arithmetic over a list of objects.
    Calculate {
        list_path: String,
        output_field: String,
        operator: MathOp,
        a_field: String,
        b_field: String,
    },
    Sum { list_path: String, field: Option<String> },
    Count { list_path: String },
    Min { list_path: String, field: Option<String> },
    Max { list_path: String, field: Option<String> },
    /// Keep the elements whose numeric value compares true to the threshold.
    FilterNumeric {
        list_path: String,
        field: Option<String>,
        operator: CmpOp,
        value: serde_json::Number,
    },
    /// Stable sort by a field's numeric value.
    Sort { list_path: String, field: String, descending: bool },
    /// Build a string from a template and resolved placeholders.
    FormatString { template: String, variables: Vec<FormatVariable> },
}

/// One step: an operation plus where its result is written.
#[derive(Debug, Clone)]
pub struct LogicStep {
    pub id: String,
    pub description: String,
    pub operation: LogicOp,
    pub output_path: String,
}

/// What an application is: its name, its description, and the two
/// JSON-Schema-shaped values; only the output schema's top-level property
/// names steer the engine (they govern output extraction).
#[derive(Debug, Clone)]
pub struct AppDefinition {
    pub name: String,
    pub description: String,
    pub input_schema: Json,
    pub output_schema: Json,
}

/// A whole program: the definition it was built to satisfy and the ordered
/// steps; order is semantically significant.
#[derive(Debug, Clone)]
pub struct AppProgram {
    pub definition: AppDefinition,
    pub steps: Vec<LogicStep>,
}

} // verus!
