pub mod ast;
pub mod call_types;
pub mod expr;
pub mod expr_rules;
pub mod generic_types;
pub mod intrinsics;
pub mod literals;
pub mod method_lookup;
pub mod path_types;
pub mod paths;
pub mod patterns;
pub mod refinement;
pub mod runtime_types;
pub mod support;
pub mod traits;
pub mod ty;
pub mod type_compat;
pub mod type_exprs;
pub mod type_shapes;
