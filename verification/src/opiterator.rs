use vstd::prelude::*;
use crate::field::{CrustyError, FieldV};
use crate::tuple::{AttributeV, TableSchema, Tuple};

verus! {

/// The values of a sequence of tuples.
pub open spec fn tuples_view(s: Seq<Tuple>) -> Seq<Seq<FieldV>> {
    s.map_values(|t: Tuple| t@)
}

/// What every call on an operator keeps: the tuples it produces, their schema,
/// whether its inputs are valid, how each of its calls ends, and whether it can
/// be closed.
pub open spec fn same_plan<O: OpIterator>(a: &O, b: &O) -> bool {
    &&& a.output() == b.output()
    &&& a.schema_view() == b.schema_view()
    &&& a.valid_input() == b.valid_input()
    &&& a.open_error() == b.open_error()
    &&& a.end_error() == b.end_error()
    &&& a.rewind_error() == b.rewind_error()
    &&& a.close_error() == b.close_error()
    &&& a.can_close() == b.can_close()
}

/// None of the operator's calls ever fails, and it can always be closed.
pub open spec fn infallible<O: OpIterator>(o: &O) -> bool {
    &&& o.open_error() is None
    &&& o.end_error() is None
    &&& o.rewind_error() is None
    &&& o.close_error() is None
    &&& o.can_close()
}

/// An operator of a query plan: once opened, it produces a fixed sequence of
/// tuples, one per call of `next`, and then ends, either with `Ok(None)` or with
/// an error. An input that fails part way is one whose tuples are those produced
/// before the failure. Each call that can fail says with which error.
pub trait OpIterator: Sized {
    /// The operator's internal invariant.
    spec fn wf(&self) -> bool;

    /// Whether the operator is open.
    spec fn opened(&self) -> bool;

    /// Every tuple the operator produces, in order.
    spec fn output(&self) -> Seq<Seq<FieldV>>;

    /// How many tuples of `output` have been produced since the last open or rewind.
    spec fn pos(&self) -> nat;

    /// The schema of the produced tuples.
    spec fn schema_view(&self) -> Seq<AttributeV>;

    /// Whether the inputs of the operator let it be opened without panicking.
    spec fn valid_input(&self) -> bool;

    /// Whether `open` can be called in the current state.
    spec fn can_open(&self) -> bool;

    /// The error with which `open` fails, if it does.
    spec fn open_error(&self) -> Option<CrustyError>;

    /// The error that `next` returns in place of `Ok(None)` once every tuple has
    /// been produced, if it does.
    spec fn end_error(&self) -> Option<CrustyError>;

    /// The error with which `rewind` fails, if it does.
    spec fn rewind_error(&self) -> Option<CrustyError>;

    /// The error with which `close` fails, if it does.
    spec fn close_error(&self) -> Option<CrustyError>;

    /// Whether `close` can be called without panicking.
    spec fn can_close(&self) -> bool;

    /// Opens the operator: its tuples are produced from the first one on. When it
    /// fails, the operator stays closed. An operator that can be opened has valid
    /// inputs, so once closed again it can be reopened.
    fn open(&mut self) -> (r: Result<(), CrustyError>)
        requires
            old(self).wf(),
            old(self).can_open(),
        ensures
            final(self).wf(),
            final(self).output() == old(self).output(),
            final(self).schema_view() == old(self).schema_view(),
            final(self).valid_input() == old(self).valid_input(),
            final(self).open_error() == old(self).open_error(),
            final(self).end_error() == old(self).end_error(),
            final(self).rewind_error() == old(self).rewind_error(),
            final(self).close_error() == old(self).close_error(),
            final(self).can_close() == old(self).can_close(),
            final(self).pos() <= final(self).output().len(),
            final(self).valid_input(),
            match old(self).open_error() {
                None => r is Ok && final(self).opened() && final(self).pos() == 0,
                Some(e) => r == Err::<(), CrustyError>(e) && !final(self).opened(),
            },
    ;

    /// Produces the next tuple; once all have been produced, `Ok(None)` or the
    /// operator's end error.
    fn next(&mut self) -> (r: Result<Option<Tuple>, CrustyError>)
        requires
            old(self).wf(),
            old(self).opened(),
        ensures
            final(self).wf(),
            final(self).opened(),
            final(self).output() == old(self).output(),
            final(self).schema_view() == old(self).schema_view(),
            final(self).valid_input() == old(self).valid_input(),
            final(self).open_error() == old(self).open_error(),
            final(self).end_error() == old(self).end_error(),
            final(self).rewind_error() == old(self).rewind_error(),
            final(self).close_error() == old(self).close_error(),
            final(self).can_close() == old(self).can_close(),
            final(self).can_open() == old(self).can_open(),
            final(self).pos() <= final(self).output().len(),
            old(self).pos() < old(self).output().len() ==> {
                &&& r matches Ok(Some(t)) && t@ == old(self).output()[old(self).pos() as int]
                &&& final(self).pos() == old(self).pos() + 1
            },
            old(self).pos() >= old(self).output().len() ==> {
                &&& final(self).pos() == old(self).pos()
                &&& r == match old(self).end_error() {
                    None => Ok::<Option<Tuple>, CrustyError>(None),
                    Some(e) => Err(e),
                }
            },
    ;

    /// Closes the operator. When it fails, the operator stays open as it was.
    fn close(&mut self) -> (r: Result<(), CrustyError>)
        requires
            old(self).wf(),
            old(self).opened(),
            old(self).can_close(),
        ensures
            final(self).wf(),
            final(self).output() == old(self).output(),
            final(self).schema_view() == old(self).schema_view(),
            final(self).valid_input() == old(self).valid_input(),
            final(self).open_error() == old(self).open_error(),
            final(self).end_error() == old(self).end_error(),
            final(self).rewind_error() == old(self).rewind_error(),
            final(self).close_error() == old(self).close_error(),
            final(self).can_close() == old(self).can_close(),
            final(self).pos() <= final(self).output().len(),
            match old(self).close_error() {
                None => r is Ok && !final(self).opened() && final(self).can_open() == old(self).valid_input(),
                Some(e) => {
                    &&& r == Err::<(), CrustyError>(e)
                    &&& final(self).opened()
                    &&& final(self).pos() == old(self).pos()
                    &&& final(self).can_open() == old(self).can_open()
                },
            },
    ;

    /// Restarts the production of tuples from the first one. When it fails, the
    /// operator stays where it was.
    fn rewind(&mut self) -> (r: Result<(), CrustyError>)
        requires
            old(self).wf(),
            old(self).opened(),
        ensures
            final(self).wf(),
            final(self).opened(),
            final(self).output() == old(self).output(),
            final(self).schema_view() == old(self).schema_view(),
            final(self).valid_input() == old(self).valid_input(),
            final(self).open_error() == old(self).open_error(),
            final(self).end_error() == old(self).end_error(),
            final(self).rewind_error() == old(self).rewind_error(),
            final(self).close_error() == old(self).close_error(),
            final(self).can_close() == old(self).can_close(),
            final(self).can_open() == old(self).can_open(),
            final(self).pos() <= final(self).output().len(),
            match old(self).rewind_error() {
                None => r is Ok && final(self).pos() == 0,
                Some(e) => r == Err::<(), CrustyError>(e) && final(self).pos() == old(self).pos(),
            },
    ;

    /// The schema of the produced tuples.
    fn get_schema(&self) -> (s: &TableSchema)
        requires
            self.wf(),
        ensures
            s@ == self.schema_view(),
    ;
}

/// An operator that produces the tuples of a vector.
pub struct TupleIterator {
    tuples: Vec<Tuple>,
    schema: TableSchema,
    index: Option<usize>,
}

impl TupleIterator {
    /// Creates an iterator over `tuples`; it is closed.
    pub fn new(tuples: Vec<Tuple>, schema: TableSchema) -> (it: TupleIterator)
        ensures
            it.wf(),
            !it.opened(),
            it.output() == tuples_view(tuples@),
            it.schema_view() == schema@,
            it.valid_input(),
            it.can_open(),
            infallible(&it),
    {
        TupleIterator { tuples, schema, index: None }
    }
}

impl OpIterator for TupleIterator {
    closed spec fn wf(&self) -> bool {
        match self.index {
            Some(i) => i <= self.tuples.len(),
            None => true,
        }
    }

    closed spec fn opened(&self) -> bool {
        self.index is Some
    }

    closed spec fn output(&self) -> Seq<Seq<FieldV>> {
        tuples_view(self.tuples@)
    }

    closed spec fn pos(&self) -> nat {
        match self.index {
            Some(i) => i as nat,
            None => 0,
        }
    }

    closed spec fn schema_view(&self) -> Seq<AttributeV> {
        self.schema@
    }

    closed spec fn valid_input(&self) -> bool {
        true
    }

    closed spec fn can_open(&self) -> bool {
        true
    }

    closed spec fn open_error(&self) -> Option<CrustyError> {
        None
    }

    closed spec fn end_error(&self) -> Option<CrustyError> {
        None
    }

    closed spec fn rewind_error(&self) -> Option<CrustyError> {
        None
    }

    closed spec fn close_error(&self) -> Option<CrustyError> {
        None
    }

    closed spec fn can_close(&self) -> bool {
        true
    }

    fn open(&mut self) -> (r: Result<(), CrustyError>) {
        self.index = Some(0);
        Ok(())
    }

    fn next(&mut self) -> (r: Result<Option<Tuple>, CrustyError>) {
        let i = match self.index {
            Some(i) => i,
            None => 0,
        };
        if i < self.tuples.len() {
            let t = self.tuples[i].duplicate();
            self.index = Some(i + 1);
            Ok(Some(t))
        } else {
            Ok(None)
        }
    }

    fn close(&mut self) -> (r: Result<(), CrustyError>) {
        self.index = None;
        Ok(())
    }

    fn rewind(&mut self) -> (r: Result<(), CrustyError>) {
        self.index = Some(0);
        Ok(())
    }

    fn get_schema(&self) -> (s: &TableSchema) {
        &self.schema
    }
}

} // verus!
