//! A verified pretty-printer for numbat programs: a document tree of format
//! nodes, a layout engine that fits groups within a line width, and a
//! builder that turns a program's syntax tree and source text, comments
//! included, into a document.

pub mod ast;
pub mod builder;
pub mod engine_laws;
pub mod generator;
pub mod laws;
pub mod node;
mod outside;
pub mod text;

pub use generator::{
    fits_machine, fits_machine_seq, fresh_layout, indentation, lemma_fits_machine_render_ok,
    lemma_fits_machine_render_seq_ok, put_new_line, put_text, render, render_ok, render_seq,
    render_seq_ok, Generator, Layout, INDENT,
};
pub use node::{
    bound_of, bounds, byte_len, depth_of, depths, doc_of, docs_of, flat, flats, no_required_line,
    well_counted, width_of, widths, Doc, FormatNode, Wrap,
};

use vstd::prelude::*;
use vstd::string::StringSliceAdditionalSpecFns;
use ast::Statement;
use builder::{initial_state, spec_build, Builder};

verus! {

/// Formats a program: builds the document of its syntax tree, with the
/// comments of its source text, and lays it out within `max_width` columns.
pub fn fmt(source: &str, ast: Vec<Statement>, max_width: usize) -> (r: String)
    requires
        spec_build(source.spec_bytes(), ast@, initial_state()) is Some,
        render_ok(
            spec_build(source.spec_bytes(), ast@, initial_state())->0,
            false,
            fresh_layout(),
            max_width as int,
        ),
    ensures
        r@ == render(
            spec_build(source.spec_bytes(), ast@, initial_state())->0,
            false,
            fresh_layout(),
            max_width as int,
        ).buffer,
{
    let format_tree = Builder::new(source).build(ast);
    Generator::new(max_width).generate(format_tree)
}

} // verus!
