//! A console calculator: a recursive-descent parser for arithmetic
//! expressions over the six binary operators `+ - * / ^ %`, and a
//! precedence-tiered evaluator with a checked-arithmetic layer that turns
//! IEEE-754 sentinel outcomes into typed errors.
//!
//! Numbers are IEEE-754 single-precision values, carried everywhere as their
//! raw bit patterns (`u32`). The library itself never performs a primitive
//! float operation: every such result enters through an explicit transcript
//! of answers supplied by the caller, and everything the library does with
//! those answers — parsing, tree construction, precedence reduction, and the
//! classification of raw results into overflow, underflow, infinity, NaN and
//! division-by-zero errors — is verified.

pub mod operator;
pub mod expression_item;
pub mod expression_builder;
pub mod checked_operations;
pub mod eval;
pub mod expression_value;
pub mod cheap_expression_enum;
pub mod round_trip;
pub mod evaluate_expression;
pub mod simple_calculator;
