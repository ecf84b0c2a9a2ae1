//! Verified core of a recipe-harvesting pipeline.
//!
//! The library models one harvested page as a tree of plain values
//! ([`page::PageModel`]), extracts a structured [`recipe::Recipe`] from it,
//! renders the recipe into a self-contained LaTeX fragment, and accumulates
//! the results of many independent harvest tasks into a single
//! [`harvest::HarvestResult`]. Fetching pages, parsing HTML into the page
//! model, downloading images and writing files are left to the surrounding
//! program; everything that decides or computes lives here, with a contract.

pub mod page;
pub mod recipe;
pub mod render;
pub mod harvest;
pub mod document;
