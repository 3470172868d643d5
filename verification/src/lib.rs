//! DPCrawler's core: the search engine over crawled sites, the reading of
//! the crawler's output, the file layout, and the desktop front end's state.

pub mod text;
pub mod tokenize;
pub mod extract;
pub mod index;
pub mod result;
pub mod crawl_output;
pub mod sidecar;
pub mod gui;
pub mod preview;
pub mod paths;
pub mod sites;
pub mod control;
pub mod serve;
pub mod catalog;
pub mod records;
