//! Layout cops: whitespace and alignment.
pub mod trailing_whitespace;
pub mod space_around_keyword;
pub mod space_before_comma;
pub mod space_before_brackets;
pub mod space_before_semicolon;
pub mod space_inside_range_literal;
pub mod space_around_method_call_operator;
pub mod space_around_block_parameters;
pub mod space_inside_array_literal_brackets;
pub mod space_inside_parens;
pub mod space_inside_reference_brackets;
pub mod space_inside_block_braces;
pub mod space_inside_percent_literals;
pub mod space_before_first_arg;
pub mod space_around_operators;
pub mod space_around_equals_in_parameter_default;
pub mod space_in_lambda_literal;
pub mod space_before_block_braces;
