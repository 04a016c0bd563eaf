//! A labeling decoration over an iterator.
//!
//! Each produced element is annotated with a `(page, line)` coordinate:
//! pages hold `page_length` items, page numbers start at 1, and line
//! numbers restart at 1 on every page.  The labels never change the
//! underlying sequence of elements.

use crate::lines::LinesIter;
use vstd::prelude::*;

verus! {

/// The page number of the `i`-th produced item (1-indexed), for pages of
/// `n` lines.  For `n >= 1` this is the ceiling of `i / n`; a page length
/// of zero gives every item its own page, starting at page 2.
pub open spec fn page_of(i: nat, n: nat) -> nat {
    if n == 0 {
        i + 1
    } else {
        (((i - 1) / (n as int)) + 1) as nat
    }
}

/// The line number, within its page, of the `i`-th produced item
/// (1-indexed): `((i - 1) mod n) + 1` for pages of `n >= 1` lines.
pub open spec fn line_of(i: nat, n: nat) -> nat {
    if n == 0 {
        1
    } else {
        (((i - 1) % (n as int)) + 1) as nat
    }
}

/// For positive page lengths the page number is exactly the ceiling of
/// `i / n`.
pub proof fn lemma_page_of_is_ceil(i: nat, n: nat)
    requires
        i >= 1,
        n >= 1,
    ensures
        page_of(i, n) == (i + n - 1) / (n as int),
{
    vstd::arithmetic::div_mod::lemma_div_plus_one(i - 1, n as int);
}

/// Wraps an iterator and labels each produced item with its page and line
/// coordinate.
pub struct PagedIterator<I> {
    page_length: usize,
    page_number: usize,
    line_number: usize,
    iter: I,
    drawn: Ghost<nat>,
}

impl<I> PagedIterator<I> {
    /// The configured page length.
    pub closed spec fn page_length(&self) -> nat {
        self.page_length as nat
    }

    /// The page counter as it stands.
    pub closed spec fn page_number(&self) -> nat {
        self.page_number as nat
    }

    /// The line counter as it stands.
    pub closed spec fn line_number(&self) -> nat {
        self.line_number as nat
    }

    /// The wrapped iterator.
    pub closed spec fn inner(&self) -> I {
        self.iter
    }

    /// How many items were drawn through this pager.
    pub closed spec fn drawn(&self) -> nat {
        self.drawn@
    }

    /// Starts labeling at page 1; the first item drawn gets line 1.
    pub fn init(iter: I, page_length: usize) -> (r: PagedIterator<I>)
        ensures
            r.page_length() == page_length,
            r.page_number() == 1,
            r.line_number() == 0,
            r.inner() == iter,
            r.drawn() == 0,
    {
        PagedIterator { page_length, page_number: 1, line_number: 0, iter, drawn: Ghost(0) }
    }
}

impl<'a> PagedIterator<LinesIter<'a>> {
    /// The counters agree with the number of items drawn so far.
    pub open spec fn wf(&self) -> bool {
        &&& self.drawn() == 0 ==> self.page_number() == 1 && self.line_number() == 0
        &&& self.drawn() >= 1 ==> self.page_number() == page_of(self.drawn(), self.page_length())
            && self.line_number() == line_of(self.drawn(), self.page_length())
        &&& self.drawn() <= self.inner().pos()
    }

    /// Draws the next line and labels it: the `i`-th item drawn (counting
    /// from 1) carries page `page_of(i, n)` and line `line_of(i, n)`.
    /// A page length of zero opens a new page for every item, so its page
    /// counter needs the line store to leave room in the address space (a
    /// store of `usize::MAX` lines cannot exist anyway).
    pub fn next(&mut self) -> (r: Option<(usize, usize, &'a String)>)
        requires
            old(self).wf(),
            old(self).page_length() == 0 ==> old(self).inner().lines_view().len() < usize::MAX,
        ensures
            final(self).wf(),
            final(self).page_length() == old(self).page_length(),
            final(self).inner().lines_view() == old(self).inner().lines_view(),
            old(self).inner().pos() < old(self).inner().lines_view().len() ==> {
                &&& final(self).drawn() == old(self).drawn() + 1
                &&& final(self).inner().pos() == old(self).inner().pos() + 1
                &&& r matches Some((p, n, s)) && p == page_of(
                    final(self).drawn(),
                    old(self).page_length(),
                ) && n == line_of(final(self).drawn(), old(self).page_length())
                    && s.deep_view() == old(self).inner().lines_view()[old(
                    self,
                ).inner().pos() as int]
            },
            old(self).inner().pos() >= old(self).inner().lines_view().len() ==> {
                &&& r is None
                &&& final(self).drawn() == old(self).drawn()
                &&& final(self).inner().pos() == old(self).inner().pos()
                &&& final(self).page_number() == old(self).page_number()
                &&& final(self).line_number() == old(self).line_number()
            },
    {
        match self.iter.next() {
            None => None,
            Some(s) => {
                let ghost t = self.drawn@ as int;
                let ghost n = self.page_length as int;
                proof {
                    self.iter.lemma_pos_bound();
                    if n >= 1 && t >= 1 {
                        vstd::arithmetic::div_mod::lemma_mod_bound(t - 1, n);
                        vstd::arithmetic::div_mod::lemma_mod_decreases((t - 1) as nat, n as nat);
                        vstd::arithmetic::div_mod::lemma_div_nonincreasing(t - 1, n);
                        vstd::arithmetic::div_mod::lemma_fundamental_div_mod(t - 1, n);
                        let q = (t - 1) / n;
                        let m = (t - 1) % n;
                        assert(t - 1 == n * q + m);
                        if m + 1 == n {
                            assert((q + 1) * n == n * q + n) by (nonlinear_arith);
                            assert(t == (q + 1) * n + 0);
                            vstd::arithmetic::div_mod::lemma_fundamental_div_mod_converse(
                                t,
                                n,
                                q + 1,
                                0,
                            );
                        } else {
                            assert(q * n == n * q) by (nonlinear_arith);
                            assert(t == q * n + (m + 1));
                            vstd::arithmetic::div_mod::lemma_fundamental_div_mod_converse(
                                t,
                                n,
                                q,
                                m + 1,
                            );
                        }
                    }
                    if n >= 1 && t == 0 {
                        vstd::arithmetic::div_mod::lemma_fundamental_div_mod_converse(0, n, 0, 0);
                    }
                }
                self.line_number = self.line_number + 1;
                if self.line_number > self.page_length {
                    self.page_number = self.page_number + 1;
                    self.line_number = 1;
                }
                self.drawn = Ghost(self.drawn@ + 1);
                Some((self.page_number, self.line_number, s))
            },
        }
    }
}

} // verus!
