//! A single-domain web crawler core: starting from a seed URL, it discovers
//! every page on the seed's host by repeatedly dequeuing a URL, fetching it,
//! extracting the in-scope links of the page, and enqueuing the new ones,
//! until the frontier queue is empty.

pub mod crawler;
pub mod extract;
pub mod urls;
