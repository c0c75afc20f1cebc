//! The verified engine of a "Make 10" puzzle game.
//!
//! A puzzle is four digits; the player combines them with `+ - * /` to
//! reach the value ten.  The engine has three parts: a solvability oracle
//! that decides by exhaustive search whether a digit quadruple can reach
//! ten at all, an evaluator for the expression the player types, and a
//! generator that produces solvable puzzles.  All arithmetic is exact, over
//! rationals kept as numerator/denominator pairs, so "equals ten" is a
//! precise statement and division by zero is simply the absence of a
//! result.

pub mod calculator;
pub mod expression;
pub mod numbers;
pub mod rational;
pub mod state;
