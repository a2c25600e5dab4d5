//! A tree-walking interpreter core for a small dynamically typed scripting
//! language.
//!
//! A program passes through four stages:
//!
//! - [`scanner`] turns the characters of the source into [`token`]s;
//! - [`parser`] builds the syntax tree that the [`grammar`] defines, gives
//!   each node its [`identity`], and warns where a call or a function goes
//!   over the [`limits`];
//! - [`resolver`] files, as [`resolution`] defines, how many scopes lie
//!   between each variable reference and its declaration;
//! - [`interpreter`] executes statements as the [`semantics`] define, over a
//!   scope chain ([`environment`]) of [`value`]s, some of them [`callable`],
//!   starting from the native [`globals`].
//!
//! The interpreter is a machine that the host steps. Whatever needs the
//! outside world is handed to the host as an action: a line to print, or a
//! request for a number, be it the result of an arithmetic operation on
//! doubles, the value of a numeric literal, or the time.
//!
//! The meaning of every stage is given by spec functions over mathematical
//! models of its data, and the executable code is proved to compute what
//! they say.
//! [`theorems`] holds what is proved of the language from those definitions.

pub mod callable;
pub mod environment;
pub mod globals;
pub mod grammar;
pub mod identity;
pub mod interpreter;
pub mod limits;
pub mod parser;
pub mod resolution;
pub mod resolver;
pub mod scanner;
pub mod semantics;
pub mod theorems;
pub mod token;
pub mod value;
