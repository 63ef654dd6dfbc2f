use queryexe::heapfileiter::{HeapFileIterator, HeapFileStep, PageId};

fn rec(b: u8) -> Vec<u8> {
    vec![b, b]
}

/// Runs the iteration over `pages`, reading the pages it asks for.
fn run(pages: &[Vec<Vec<u8>>]) -> (Vec<Vec<u8>>, Vec<PageId>) {
    let mut it = HeapFileIterator::new(pages[0].clone());
    let mut out = Vec::new();
    let mut reads = Vec::new();
    loop {
        match it.next_step(pages.len() as PageId) {
            HeapFileStep::Record(r) => out.push(r),
            HeapFileStep::ReadPage(p) => {
                reads.push(p);
                it.load_page(pages[p as usize].clone());
            }
            HeapFileStep::Done => break,
        }
    }
    (out, reads)
}

#[test]
fn every_record_in_page_order() {
    let pages = vec![vec![rec(1), rec(2)], vec![rec(3)], vec![rec(4), rec(5)]];
    let (out, reads) = run(&pages);
    assert_eq!(out, vec![rec(1), rec(2), rec(3), rec(4), rec(5)]);
    assert_eq!(reads, vec![1, 2]);
}

#[test]
fn empty_pages_are_skipped() {
    let pages = vec![vec![], vec![rec(7)], vec![], vec![]];
    let (out, reads) = run(&pages);
    assert_eq!(out, vec![rec(7)]);
    assert_eq!(reads, vec![1, 2, 3]);
}

#[test]
fn done_stays_done() {
    let mut it = HeapFileIterator::new(vec![rec(1)]);
    assert!(matches!(it.next_step(1), HeapFileStep::Record(_)));
    assert!(matches!(it.next_step(1), HeapFileStep::Done));
    assert!(matches!(it.next_step(1), HeapFileStep::Done));
}

#[test]
fn a_file_without_pages_has_no_record() {
    let mut it = HeapFileIterator::new(vec![rec(1)]);
    assert!(matches!(it.next_step(0), HeapFileStep::Done));
}
