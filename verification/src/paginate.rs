use vstd::prelude::*;

verus! {

/// The views of the successive pages a source returns.
pub open spec fn page_views<T>(pages: Seq<Vec<T>>) -> Seq<Seq<T>> {
    pages.map_values(|p: Vec<T>| p@)
}

/// How many page fetches pagination issues against a source whose successive
/// pages are `pages` (a page past the end reads as empty): it stops after an
/// empty page, after a page shorter than `limit`, or after `max_pages`
/// fetches, whichever comes first.
pub open spec fn spec_call_count<T>(pages: Seq<Seq<T>>, limit: nat, max_pages: nat) -> nat
    decreases max_pages,
{
    if max_pages == 0 {
        0
    } else {
        let first: nat = if pages.len() == 0 {
            0
        } else {
            pages[0].len()
        };
        if first == 0 || first < limit {
            1
        } else {
            1 + spec_call_count(pages.skip(1), limit, (max_pages - 1) as nat)
        }
    }
}

/// The records pagination accumulates, in fetch order.
pub open spec fn spec_collected<T>(pages: Seq<Seq<T>>, limit: nat, max_pages: nat) -> Seq<T>
    decreases max_pages,
{
    if max_pages == 0 || pages.len() == 0 || pages[0].len() == 0 {
        Seq::empty()
    } else if pages[0].len() < limit {
        pages[0]
    } else {
        pages[0] + spec_collected(pages.skip(1), limit, (max_pages - 1) as nat)
    }
}

/// The paging state machine: which page to ask for next and when to stop.
/// The surrounding application performs each fetch and reports the page
/// length back through `record_page`.
#[derive(Debug, Clone, Copy)]
pub struct Paginator {
    pub limit: u32,
    pub max_pages: u32,
    pub pages_fetched: u32,
    pub done: bool,
}

impl Paginator {
    /// A paginator never fetches past its ceiling.
    pub open spec fn wf(&self) -> bool {
        &&& self.pages_fetched <= self.max_pages
        &&& !self.done ==> self.pages_fetched < self.max_pages
    }

    /// Start paging with the given page size and page-count ceiling.
    pub fn new(limit: u32, max_pages: u32) -> (p: Paginator)
        ensures
            p.wf(),
            p.limit == limit,
            p.max_pages == max_pages,
            p.pages_fetched == 0,
            p.done == (max_pages == 0),
    {
        Paginator { limit, max_pages, pages_fetched: 0, done: max_pages == 0 }
    }

    /// Whether another page fetch is still wanted.
    pub fn wants_fetch(&self) -> (r: bool)
        ensures
            r == !self.done,
    {
        !self.done
    }

    /// The one-based page number of the next fetch.
    pub fn next_page(&self) -> (r: u32)
        requires
            self.wf(),
            !self.done,
        ensures
            r == self.pages_fetched + 1,
    {
        self.pages_fetched + 1
    }

    /// Note a fetched page of `page_len` records: stop after an empty page, a
    /// short page, or the ceiling; otherwise ask for the next page.
    pub fn record_page(&mut self, page_len: usize)
        requires
            old(self).wf(),
            !old(self).done,
        ensures
            final(self).wf(),
            final(self).limit == old(self).limit,
            final(self).max_pages == old(self).max_pages,
            final(self).pages_fetched == old(self).pages_fetched + 1,
            final(self).done == (page_len == 0 || (page_len as int) < old(self).limit as int
                || final(self).pages_fetched == old(self).max_pages),
    {
        self.pages_fetched = self.pages_fetched + 1;
        if page_len == 0 {
            self.done = true;
        } else if page_len < self.limit as usize {
            self.done = true;
        } else if self.pages_fetched == self.max_pages {
            self.done = true;
        } else {
            self.done = false;
        }
    }
}

/// Drive the paging state machine over a source whose successive pages are
/// `pages` (a page past the end reads as empty), returning the accumulated
/// records in fetch order and the exact number of page fetches issued.
pub fn paginate<T>(pages: Vec<Vec<T>>, limit: u32, max_pages: u32) -> (r: (Vec<T>, u32))
    ensures
        r.0@ == spec_collected(page_views(pages@), limit as nat, max_pages as nat),
        r.1 as nat == spec_call_count(page_views(pages@), limit as nat, max_pages as nat),
{
    let ghost all = page_views(pages@);
    let mut rest = pages;
    let mut out: Vec<T> = Vec::new();
    let mut calls: u32 = 0;
    let mut pag = Paginator::new(limit, max_pages);
    while pag.wants_fetch()
        invariant
            pag.wf(),
            pag.limit == limit,
            pag.max_pages == max_pages,
            calls == pag.pages_fetched,
            !pag.done ==> spec_call_count(all, limit as nat, max_pages as nat) == calls
                + spec_call_count(
                page_views(rest@),
                limit as nat,
                (max_pages - pag.pages_fetched) as nat,
            ),
            pag.done ==> spec_call_count(all, limit as nat, max_pages as nat) == calls,
            !pag.done ==> spec_collected(all, limit as nat, max_pages as nat) == out@
                + spec_collected(
                page_views(rest@),
                limit as nat,
                (max_pages - pag.pages_fetched) as nat,
            ),
            pag.done ==> spec_collected(all, limit as nat, max_pages as nat) == out@,
        decreases max_pages - pag.pages_fetched,
    {
        let ghost pre = page_views(rest@);
        let ghost m = (max_pages - pag.pages_fetched) as nat;
        let mut page: Vec<T> = if rest.len() > 0 {
            rest.remove(0)
        } else {
            Vec::new()
        };
        proof {
            if pre.len() > 0 {
                assert(page_views(rest@) =~= pre.skip(1));
                assert(page@ == pre[0]);
            } else {
                assert(page_views(rest@) =~= pre);
                assert(page@ =~= Seq::<T>::empty());
            }
        }
        let page_len = page.len();
        if page_len > 0 {
            out.append(&mut page);
        }
        pag.record_page(page_len);
        calls = calls + 1;
        proof {
            if pre.len() == 0 {
                assert(spec_call_count(pre, limit as nat, m) == 1);
                assert(spec_collected(pre, limit as nat, m) =~= Seq::<T>::empty());
            } else if page_len == 0 {
                assert(spec_call_count(pre, limit as nat, m) == 1);
                assert(spec_collected(pre, limit as nat, m) =~= Seq::<T>::empty());
            } else if page_len < limit as usize {
                assert(spec_call_count(pre, limit as nat, m) == 1);
                assert(spec_collected(pre, limit as nat, m) == pre[0]);
            } else {
                assert(spec_call_count(pre, limit as nat, m) == 1 + spec_call_count(
                    pre.skip(1),
                    limit as nat,
                    (m - 1) as nat,
                ));
                assert(spec_collected(pre, limit as nat, m) == pre[0] + spec_collected(
                    pre.skip(1),
                    limit as nat,
                    (m - 1) as nat,
                ));
                if pag.done {
                    assert(m == 1);
                    assert(spec_call_count(pre.skip(1), limit as nat, 0) == 0);
                    assert(spec_collected(pre.skip(1), limit as nat, 0)
                        =~= Seq::<T>::empty());
                    assert(out@ =~= out@ + Seq::<T>::empty());
                }
            }
        }
    }
    (out, calls)
}

} // verus!
