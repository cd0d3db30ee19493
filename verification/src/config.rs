use vstd::prelude::*;

verus! {

/// Environment-style configuration for one synchronization run, built once
/// at process start and passed explicitly where it is needed.
#[derive(Debug, Clone, Copy)]
pub struct SyncConfig {
    pub message_page_size: u32,
    pub message_max_pages: u32,
    pub announcements_limit: usize,
}

impl SyncConfig {
    /// The defaults used when the environment sets nothing: pages of 50, at
    /// most 10 pages per paginated listing, and the latest 50 announcements.
    pub fn defaults() -> (c: SyncConfig)
        ensures
            c.message_page_size == 50,
            c.message_max_pages == 10,
            c.announcements_limit == 50,
    {
        SyncConfig { message_page_size: 50, message_max_pages: 10, announcements_limit: 50 }
    }
}

} // verus!
