//! SXO dialect core: explicit dialect tags, host summaries, the Mathematica and
//! MATLAB surface forms, their renderers and their lowering into session terms.

pub mod bridge;
pub mod bridge_render;
pub mod dialect;
pub mod error;
pub mod frontend;
pub mod host;
pub mod matlab_ast;
pub mod matlab_lower;
pub mod matlab_render;
pub mod matlab_request;
pub mod options;
pub mod request;
pub mod rules;
pub mod semantic;
pub mod number;
pub mod strings;
pub mod summary;
pub mod term;
pub mod wexpr;
pub mod wolfram_lower;
pub mod wolfram_number;
pub mod wolfram_render;
pub mod wolfram_request;
pub mod wolfram_parse;
pub mod wolfram_tree;
