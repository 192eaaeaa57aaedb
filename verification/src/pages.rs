//! A forward-only cursor over the pages of a finite paginated collection.
//!
//! Remote listings arrive page by page; correctness of the collection passes
//! depends on advancing a stateful cursor rather than reissuing the original
//! request, which would yield the first page forever.  `Paged` models that
//! cursor: each page is served exactly once, in order, and a consumer can
//! never read an earlier page again.

use vstd::prelude::*;

verus! {

pub struct Paged<T> {
    /// The pages not yet served, most recent last, so the next page to serve
    /// sits at the end and can be moved out in constant time.
    rev: Vec<Vec<T>>,
}

impl<T> Paged<T> {
    /// The pages not yet served, as sequences, in the order they will be
    /// served.
    pub closed spec fn remaining(self) -> Seq<Seq<T>> {
        self.rev@.map_values(|p: Vec<T>| p@).reverse()
    }

    /// All items not yet served, in service order.
    pub open spec fn items(self) -> Seq<T> {
        self.remaining().flatten()
    }

    /// Builds a cursor that will serve `pages` front to back.
    pub fn new(pages: Vec<Vec<T>>) -> (r: Paged<T>)
        ensures
            r.remaining() == pages@.map_values(|p: Vec<T>| p@),
    {
        let mut src = pages;
        let mut rev: Vec<Vec<T>> = Vec::new();
        while src.len() > 0
            invariant
                src@ == pages@.take(src@.len() as int),
                rev@.len() + src@.len() == pages@.len(),
                forall|i: int| 0 <= i < rev@.len()
                    ==> rev@[i] == pages@[pages@.len() - 1 - i],
            decreases src.len(),
        {
            let page = src.pop().unwrap();
            proof {
                assert(page == pages@[src@.len() as int]);
                assert(src@ =~= pages@.take(src@.len() as int));
            }
            rev.push(page);
        }
        let r = Paged { rev };
        proof {
            assert(r.remaining() =~= pages@.map_values(|p: Vec<T>| p@));
        }
        r
    }

    /// Whether any page is left to serve.
    pub fn has_next(&self) -> (b: bool)
        ensures
            b == (self.remaining().len() > 0),
    {
        self.rev.len() > 0
    }

    /// Serves the next page and advances past it; `None` once every page has
    /// been served.  A served page can never be obtained again.
    pub fn next_page(&mut self) -> (r: Option<Vec<T>>)
        ensures
            old(self).remaining().len() == 0 ==> {
                &&& r is None
                &&& final(self).remaining() == old(self).remaining()
            },
            old(self).remaining().len() > 0 ==> {
                &&& r matches Some(p) && p@ == old(self).remaining()[0]
                &&& final(self).remaining() == old(self).remaining().drop_first()
            },
    {
        let r = self.rev.pop();
        proof {
            if old(self).remaining().len() > 0 {
                assert(self.remaining() =~= old(self).remaining().drop_first());
            } else {
                assert(self.remaining() =~= old(self).remaining());
            }
        }
        r
    }
}

} // verus!
