use vstd::prelude::*;

verus! {

/// The identifier of a page of a heap file.
pub type PageId = u16;

/// What the driver of a heap file iterator does next.
pub enum HeapFileStep {
    /// A record of the file.
    Record(Vec<u8>),
    /// The page with this index must be read and handed to `load_page`, then
    /// `next_step` called again.
    ReadPage(PageId),
    /// Every record has been produced.
    Done,
}

/// The value of a step.
pub enum HeapFileStepV {
    Record(Seq<u8>),
    ReadPage(nat),
    Done,
}

impl View for HeapFileStep {
    type V = HeapFileStepV;

    open spec fn view(&self) -> HeapFileStepV {
        match self {
            HeapFileStep::Record(r) => HeapFileStepV::Record(r@),
            HeapFileStep::ReadPage(p) => HeapFileStepV::ReadPage(*p as nat),
            HeapFileStep::Done => HeapFileStepV::Done,
        }
    }
}

/// The values of a sequence of records.
pub open spec fn records_view(s: Seq<Vec<u8>>) -> Seq<Seq<u8>> {
    s.map_values(|r: Vec<u8>| r@)
}

/// One step of the iteration over a file of `num_pages` pages, from page
/// `page_index` with the records `rem` of that page still to produce: the step,
/// the next page index and the records of that page still to produce.
pub open spec fn heap_step(page_index: nat, rem: Seq<Seq<u8>>, num_pages: nat) -> (HeapFileStepV, nat, Seq<Seq<u8>>) {
    if page_index >= num_pages {
        (HeapFileStepV::Done, page_index, rem)
    } else if rem.len() > 0 {
        (HeapFileStepV::Record(rem[0]), page_index, rem.drop_first())
    } else if page_index + 1 >= num_pages {
        (HeapFileStepV::Done, page_index + 1, rem)
    } else {
        (HeapFileStepV::ReadPage(page_index + 1), page_index + 1, rem)
    }
}

/// The state of an iteration over the records of a heap file, page by page.
/// Reading a page is left to the caller: the iterator asks for it by its index.
pub struct HeapFileIterator {
    page_index: PageId,
    records: Vec<Vec<u8>>,
    cursor: usize,
}

impl HeapFileIterator {
    /// The index of the current page.
    pub closed spec fn page_index(&self) -> nat {
        self.page_index as nat
    }

    /// The records of the current page still to produce.
    pub closed spec fn remaining(&self) -> Seq<Seq<u8>> {
        records_view(self.records@).skip(self.cursor as int)
    }

    pub closed spec fn wf(&self) -> bool {
        self.cursor <= self.records.len()
    }

    /// An iteration that starts with the records of the first page.
    pub fn new(first_page: Vec<Vec<u8>>) -> (it: HeapFileIterator)
        ensures
            it.wf(),
            it.page_index() == 0,
            it.remaining() == records_view(first_page@),
    {
        let it = HeapFileIterator { page_index: 0, records: first_page, cursor: 0 };
        assert(it.remaining() =~= records_view(it.records@));
        it
    }

    /// Hands the records of the page that the last step asked for.
    pub fn load_page(&mut self, records: Vec<Vec<u8>>)
        ensures
            final(self).wf(),
            final(self).page_index() == old(self).page_index(),
            final(self).remaining() == records_view(records@),
    {
        self.records = records;
        self.cursor = 0;
        assert(self.remaining() =~= records_view(self.records@));
    }

    /// The next step of the iteration over a file of `num_pages` pages.
    pub fn next_step(&mut self, num_pages: PageId) -> (s: HeapFileStep)
        requires
            old(self).wf(),
        ensures
            final(self).wf(),
            (s@, final(self).page_index(), final(self).remaining()) == heap_step(
                old(self).page_index(),
                old(self).remaining(),
                num_pages as nat,
            ),
            s@ is Done ==> heap_step(final(self).page_index(), final(self).remaining(), num_pages as nat) == (
                HeapFileStepV::Done,
                final(self).page_index(),
                final(self).remaining(),
            ),
    {
        if self.page_index >= num_pages {
            return HeapFileStep::Done;
        }
        if self.cursor < self.records.len() {
            let r = self.records[self.cursor].clone();
            proof {
                assert(r@ == self.records@[self.cursor as int]@);
            }
            let ghost rem0 = self.remaining();
            self.cursor = self.cursor + 1;
            assert(self.remaining() =~= rem0.drop_first());
            return HeapFileStep::Record(r);
        }
        self.page_index = self.page_index + 1;
        if self.page_index >= num_pages {
            HeapFileStep::Done
        } else {
            HeapFileStep::ReadPage(self.page_index)
        }
    }
}

} // verus!

verus! {

/// The records still to produce from a file whose pages hold `pages`, at page
/// `page_index` with `rem` left of it: the rest of that page, then every record
/// of the pages after it.
pub open spec fn pending(pages: Seq<Seq<Seq<u8>>>, page_index: nat, rem: Seq<Seq<u8>>) -> Seq<Seq<u8>> {
    if page_index < pages.len() {
        rem + pages.skip(page_index as int + 1).flatten()
    } else {
        Seq::empty()
    }
}

/// An iteration that starts with the first page has every record of the file
/// to produce, page after page.
pub proof fn law_heap_start(pages: Seq<Seq<Seq<u8>>>)
    requires
        pages.len() > 0,
    ensures
        pending(pages, 0, pages[0]) == pages.flatten(),
{
    assert(pages.skip(1) =~= pages.drop_first());
}

/// Each step of the iteration over a file produces its next record, or asks for
/// the next page without losing a record, or ends when no record is left.
pub proof fn law_heap_step(pages: Seq<Seq<Seq<u8>>>, page_index: nat, rem: Seq<Seq<u8>>)
    ensures
        ({
            let (s, next_index, next_rem) = heap_step(page_index, rem, pages.len());
            let before = pending(pages, page_index, rem);
            match s {
                HeapFileStepV::Record(r) => {
                    &&& before.len() > 0
                    &&& r == before[0]
                    &&& pending(pages, next_index, next_rem) == before.drop_first()
                },
                HeapFileStepV::ReadPage(k) => {
                    &&& k == next_index
                    &&& k < pages.len()
                    &&& pending(pages, k, pages[k as int]) == before
                },
                HeapFileStepV::Done => before.len() == 0,
            }
        }),
{
    let n = pages.len();
    if page_index < n {
        let flat = pages.skip(page_index as int + 1).flatten();
        if rem.len() > 0 {
            assert((rem + flat).drop_first() =~= rem.drop_first() + flat);
        } else if page_index + 1 >= n {
            assert(pages.skip(page_index as int + 1).len() == 0);
            assert(rem + flat =~= Seq::<Seq<u8>>::empty());
        } else {
            let k = page_index as int + 1;
            assert(pages.skip(k).drop_first() =~= pages.skip(k + 1));
            assert(pages.skip(k).first() == pages[k]);
            assert(rem + flat =~= flat);
        }
    }
}

/// Once a step has ended the iteration, the next step ends it again, in the
/// same state, and asks for no page.
pub proof fn law_heap_done_stays_done(page_index: nat, rem: Seq<Seq<u8>>, num_pages: nat)
    requires
        heap_step(page_index, rem, num_pages).0 is Done,
    ensures
        ({
            let (_, next_index, next_rem) = heap_step(page_index, rem, num_pages);
            heap_step(next_index, next_rem, num_pages) == (HeapFileStepV::Done, next_index, next_rem)
        }),
{
}

/// What a driver of the iteration over a file whose pages hold `pages` sees in
/// at most `fuel` steps from page `page_index` with `rem` left of it, when it
/// hands over page `k` each time page `k` is asked for: the records produced,
/// if a step has ended the iteration by then.
pub open spec fn drive(pages: Seq<Seq<Seq<u8>>>, page_index: nat, rem: Seq<Seq<u8>>, fuel: nat) -> Option<
    Seq<Seq<u8>>,
>
    decreases fuel,
{
    if fuel == 0 {
        None
    } else {
        let (s, next_index, next_rem) = heap_step(page_index, rem, pages.len());
        match s {
            HeapFileStepV::Record(r) => match drive(pages, next_index, next_rem, (fuel - 1) as nat) {
                Some(rest) => Some(seq![r] + rest),
                None => None,
            },
            HeapFileStepV::ReadPage(k) => drive(pages, next_index, pages[k as int], (fuel - 1) as nat),
            HeapFileStepV::Done => Some(Seq::empty()),
        }
    }
}

/// How many steps are enough to end the iteration from page `page_index` with
/// `rem` left of it: one per record still to produce and one per page still to
/// reach, and the last step.
pub open spec fn steps_to_end(pages: Seq<Seq<Seq<u8>>>, page_index: nat, rem: Seq<Seq<u8>>) -> nat {
    if page_index < pages.len() {
        pending(pages, page_index, rem).len() + (pages.len() - page_index) as nat
    } else {
        1
    }
}

/// Driven with enough steps, the iteration produces exactly the records still
/// to produce, in order, and then ends.
pub proof fn law_heap_drive(pages: Seq<Seq<Seq<u8>>>, page_index: nat, rem: Seq<Seq<u8>>, fuel: nat)
    requires
        fuel >= steps_to_end(pages, page_index, rem),
    ensures
        drive(pages, page_index, rem, fuel) == Some(pending(pages, page_index, rem)),
    decreases fuel,
{
    law_heap_step(pages, page_index, rem);
    let (s, next_index, next_rem) = heap_step(page_index, rem, pages.len());
    let before = pending(pages, page_index, rem);
    match s {
        HeapFileStepV::Record(r) => {
            law_heap_drive(pages, next_index, next_rem, (fuel - 1) as nat);
            assert(seq![r] + before.drop_first() =~= before);
        },
        HeapFileStepV::ReadPage(k) => {
            law_heap_drive(pages, next_index, pages[k as int], (fuel - 1) as nat);
        },
        HeapFileStepV::Done => {
            assert(before =~= Seq::<Seq<u8>>::empty());
        },
    }
}

/// The whole iteration over a file, started with its first page (or with no
/// records when the file has no page), produces every record of the file, page
/// after page and in order within a page, and then ends.
pub proof fn law_heap_whole_run(pages: Seq<Seq<Seq<u8>>>)
    ensures
        pages.len() > 0 ==> drive(pages, 0, pages[0], steps_to_end(pages, 0, pages[0])) == Some(pages.flatten()),
        pages.len() == 0 ==> drive(pages, 0, Seq::empty(), 1) == Some(Seq::<Seq<u8>>::empty()),
{
    if pages.len() > 0 {
        law_heap_start(pages);
        law_heap_drive(pages, 0, pages[0], steps_to_end(pages, 0, pages[0]));
    } else {
        assert(drive(pages, 0, Seq::empty(), 1) == Some(Seq::<Seq<u8>>::empty()));
    }
}

} // verus!
