//! Safari tours: reading the pages that offer them, judging them, and crawling from page to page.

pub mod analysis;
pub mod crawl;
pub mod links;
pub mod page;
pub mod ranking;
