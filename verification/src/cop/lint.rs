//! Lint cops: suspicious constructs.
pub mod duplicate_methods;
pub mod boolean_symbol;
pub mod branch_fingerprint;
pub mod ambiguous_operator_precedence;
pub mod duplicate_magic_comment;
pub mod duplicate_hash_key;
pub mod debugger;
pub mod duplicate_elsif_condition;
pub mod assignment_in_condition;
pub mod duplicate_branch;
pub mod rescue_cops;
pub mod deprecated_class_methods;
pub mod deprecated_open_ssl_constant;
pub mod ambiguous_block_association;
pub mod duplicate_regexp_character_class_element;
pub mod ambiguous_range;
pub mod circular_argument_reference;
pub mod else_layout;
pub mod duplicate_require;
pub mod constant_reassignment;
pub mod binary_operator_with_identical_operands;
pub mod deprecated_constants;
pub mod cop_directive_syntax;
