//! The statement executor: runs the statements of a document in order
//! against one scope, and collects one rendered record per statement until
//! the first error.

use vstd::prelude::*;
use crate::assoc::Text;
use crate::ast::{SourceStatement, SourceStatementView, Statement, StatementView};
use crate::error::{EngineError, ErrorView};
use crate::evaluator::{eval, evaluate};
use crate::registry::{UnitRegistry, UnitView};
use crate::scope::Scope;
use crate::value::{render_value, Value, ValueView};

verus! {

/// The model of a rendered record.
pub struct RecordView {
    pub source: Text,
    pub value: ValueView,
}

/// What one statement produced: its text in the document and its value.
#[derive(Debug)]
pub struct RenderedRecord {
    source: String,
    value: Value,
}

impl View for RenderedRecord {
    type V = RecordView;

    closed spec fn view(&self) -> RecordView {
        RecordView { source: self.source@, value: self.value@ }
    }
}

impl RenderedRecord {
    pub open spec fn wf(&self) -> bool {
        self@.value.wf()
    }

    /// The text of the statement, as the document has it.
    pub fn source_text(&self) -> (s: &String)
        ensures
            s@ == self@.source,
    {
        &self.source
    }

    /// The value of the statement.
    pub fn value(&self) -> (v: &Value)
        ensures
            v@ == self@.value,
    {
        &self.value
    }

    /// The value as text: the magnitude, then the dimensions in their
    /// stored order.
    pub fn formatted(&self) -> (s: String)
        requires
            self.wf(),
        ensures
            s@ == render_value(self@.value),
    {
        self.value.render()
    }
}

/// Where an execution stands.
pub enum StateView {
    /// Statements are still accepted.
    Running,
    /// A statement failed; nothing more is executed.
    Errored(ErrorView),
    /// Every statement was executed without error.
    Done,
}

/// The model of an executor.
pub struct ExecutorView {
    pub scope: Map<Text, ValueView>,
    pub records: Seq<RecordView>,
    pub state: StateView,
}

/// The executor before the first statement.
pub open spec fn initial() -> ExecutorView {
    ExecutorView { scope: Map::empty(), records: Seq::empty(), state: StateView::Running }
}

/// The executor after one more statement. While running, the statement's
/// expression is evaluated in the current scope: on success a record is
/// appended, and an assignment binds its name; on failure the executor is
/// errored, with scope and records as they were. An executor that is not
/// running does not change.
pub open spec fn step(ex: ExecutorView, s: SourceStatementView, units: Map<Text, UnitView>) -> ExecutorView {
    if ex.state is Running {
        match eval(s.statement.expression(), ex.scope, units) {
            Err(e) => ExecutorView { state: StateView::Errored(e), ..ex },
            Ok(v) => ExecutorView {
                scope: match s.statement {
                    StatementView::Assignment(name, _) => ex.scope.insert(name, v),
                    StatementView::Expression(_) => ex.scope,
                },
                records: ex.records.push(RecordView { source: s.text, value: v }),
                state: StateView::Running,
            },
        }
    } else {
        ex
    }
}

/// The executor after the given statements, in order.
pub open spec fn after(statements: Seq<SourceStatementView>, units: Map<Text, UnitView>) -> ExecutorView
    decreases statements.len(),
{
    if statements.len() == 0 {
        initial()
    } else {
        step(after(statements.drop_last(), units), statements.last(), units)
    }
}

/// The executor at the end of the document: done, unless a statement
/// failed.
pub open spec fn finished(ex: ExecutorView) -> ExecutorView {
    if ex.state is Running {
        ExecutorView { state: StateView::Done, ..ex }
    } else {
        ex
    }
}

/// The outcome of a whole document.
pub open spec fn run(statements: Seq<SourceStatementView>, units: Map<Text, UnitView>) -> ExecutorView {
    finished(after(statements, units))
}

/// While no statement has failed there is one record per statement, each
/// with the text of its statement; once one has failed, there are fewer
/// records than statements.
pub proof fn lemma_one_record_per_statement(
    statements: Seq<SourceStatementView>,
    units: Map<Text, UnitView>,
)
    ensures
        !(after(statements, units).state is Done),
        after(statements, units).state is Running ==> after(statements, units).records.len()
            == statements.len(),
        after(statements, units).state is Errored ==> after(statements, units).records.len()
            < statements.len(),
        forall|i: int|
            0 <= i < after(statements, units).records.len() ==> (#[trigger] after(
                statements,
                units,
            ).records[i]).source == statements[i].text,
    decreases statements.len(),
{
    if statements.len() > 0 {
        lemma_one_record_per_statement(statements.drop_last(), units);
    }
}

/// Execution is fail-fast: once the statements up to some point have left
/// the executor errored, the statements after them change nothing. No
/// record is added beyond the last successful statement, and the error
/// stays that of the first failing statement.
pub proof fn lemma_fail_fast(
    statements: Seq<SourceStatementView>,
    units: Map<Text, UnitView>,
    k: int,
)
    requires
        0 <= k <= statements.len(),
        after(statements.take(k), units).state is Errored,
    ensures
        after(statements, units) == after(statements.take(k), units),
        run(statements, units) == after(statements.take(k), units),
    decreases statements.len() - k,
{
    if k == statements.len() {
        assert(statements.take(k) =~= statements);
    } else {
        let front = statements.drop_last();
        assert(front.take(k) =~= statements.take(k));
        lemma_fail_fast(front, units, k);
    }
}

/// The records of an execution do not depend on what follows: the records
/// after the first `k` statements are the first records of the whole run.
pub proof fn lemma_records_are_a_prefix(
    statements: Seq<SourceStatementView>,
    units: Map<Text, UnitView>,
    k: int,
)
    requires
        0 <= k <= statements.len(),
    ensures
        after(statements.take(k), units).records.len() <= after(statements, units).records.len(),
        after(statements.take(k), units).records == after(statements, units).records.take(
            after(statements.take(k), units).records.len() as int,
        ),
    decreases statements.len() - k,
{
    let whole = after(statements, units).records;
    if k == statements.len() {
        assert(statements.take(k) =~= statements);
        assert(whole.take(whole.len() as int) =~= whole);
    } else {
        let front = statements.drop_last();
        assert(front.take(k) =~= statements.take(k));
        lemma_records_are_a_prefix(front, units, k);
        let part = after(statements.take(k), units).records;
        let before = after(front, units).records;
        assert(before.len() <= whole.len());
        assert(before == whole.take(before.len() as int)) by {
            assert(before =~= whole.take(before.len() as int));
        }
        assert(part =~= whole.take(part.len() as int));
    }
}

/// Where an execution stands.
#[derive(Debug)]
pub enum ExecutionState {
    /// Statements are still accepted.
    Running,
    /// A statement failed with this error; nothing more is executed.
    Errored(EngineError),
    /// Every statement was executed without error.
    Done,
}

impl View for ExecutionState {
    type V = StateView;

    open spec fn view(&self) -> StateView {
        match self {
            ExecutionState::Running => StateView::Running,
            ExecutionState::Errored(e) => StateView::Errored(e@),
            ExecutionState::Done => StateView::Done,
        }
    }
}

/// Runs statements against one scope and keeps the records produced.
#[derive(Debug)]
pub struct Executor {
    scope: Scope,
    records: Vec<RenderedRecord>,
    state: ExecutionState,
}

impl View for Executor {
    type V = ExecutorView;

    closed spec fn view(&self) -> ExecutorView {
        ExecutorView {
            scope: self.scope@,
            records: Seq::new(self.records@.len(), |i: int| self.records@[i]@),
            state: self.state@,
        }
    }
}

impl Executor {
    /// The scope and every record hold well-formed values.
    pub closed spec fn wf(&self) -> bool {
        &&& self.scope.wf()
        &&& forall|i: int| 0 <= i < self.records@.len() ==> (#[trigger] self.records@[i]).wf()
    }

    /// An executor with an empty scope and no records, running.
    pub fn new() -> (r: Executor)
        ensures
            r.wf(),
            r@ == initial(),
    {
        let r = Executor {
            scope: Scope::default(),
            records: Vec::new(),
            state: ExecutionState::Running,
        };
        assert(r@.records =~= Seq::empty());
        r
    }

    /// Executes one statement.
    pub fn execute(&mut self, statement: &SourceStatement, registry: &UnitRegistry)
        requires
            old(self).wf(),
            statement.statement.wf(),
            registry.wf(),
        ensures
            final(self).wf(),
            final(self)@ == step(old(self)@, statement@, registry@),
    {
        match self.state {
            ExecutionState::Running => {},
            _ => {
                return ;
            },
        }
        let evaluated = match &statement.statement {
            Statement::Assignment(_, e) => evaluate(e, &self.scope, registry),
            Statement::Expression(e) => evaluate(e, &self.scope, registry),
        };
        match evaluated {
            Err(e) => {
                self.state = ExecutionState::Errored(e);
                assert(final(self)@.records =~= old(self)@.records);
            },
            Ok(v) => {
                let record = RenderedRecord { source: statement.text.clone(), value: v.clone() };
                match &statement.statement {
                    Statement::Assignment(name, _) => {
                        self.scope.set(name.as_str(), v);
                    },
                    Statement::Expression(_) => {},
                }
                self.records.push(record);
                assert(final(self)@.records =~= old(self)@.records.push(record@));
            },
        }
    }

    /// Ends the execution: a running executor is done.
    pub fn finish(&mut self)
        requires
            old(self).wf(),
        ensures
            final(self).wf(),
            final(self)@ == finished(old(self)@),
    {
        match self.state {
            ExecutionState::Running => {
                self.state = ExecutionState::Done;
                assert(final(self)@.records =~= old(self)@.records);
            },
            _ => {},
        }
    }

    /// Executes the statements of a document in order, from an empty scope,
    /// stopping at the first that fails.
    pub fn run(statements: &Vec<SourceStatement>, registry: &UnitRegistry) -> (r: Executor)
        requires
            forall|i: int| 0 <= i < statements@.len() ==> (#[trigger] statements@[i]).statement.wf(),
            registry.wf(),
        ensures
            r.wf(),
            r@ == run(statements_view(statements@), registry@),
    {
        let mut executor = Executor::new();
        let ghost all = statements_view(statements@);
        let mut i: usize = 0;
        while i < statements.len()
            invariant
                i <= statements.len(),
                all == statements_view(statements@),
                registry.wf(),
                executor.wf(),
                forall|j: int|
                    0 <= j < statements@.len() ==> (#[trigger] statements@[j]).statement.wf(),
                executor@ == after(all.take(i as int), registry@),
            decreases statements.len() - i,
        {
            match executor.state {
                ExecutionState::Running => {},
                _ => {
                    proof {
                        lemma_one_record_per_statement(all.take(i as int), registry@);
                        lemma_fail_fast(all, registry@, i as int);
                    }
                    executor.finish();
                    return executor;
                },
            }
            proof {
                let part = all.take(i + 1);
                assert(part.drop_last() =~= all.take(i as int));
                assert(part.last() == statements@[i as int]@);
            }
            executor.execute(&statements[i], registry);
            i += 1;
        }
        assert(all.take(statements.len() as int) =~= all);
        executor.finish();
        executor
    }

    /// Where the execution stands.
    pub fn state(&self) -> (s: &ExecutionState)
        ensures
            s@ == self@.state,
    {
        &self.state
    }

    /// The variables assigned so far.
    pub fn scope(&self) -> (s: &Scope)
        ensures
            s@ == self@.scope,
            self.wf() ==> s.wf(),
    {
        &self.scope
    }

    /// The number of records produced so far.
    pub fn record_count(&self) -> (n: usize)
        ensures
            n == self@.records.len(),
    {
        self.records.len()
    }

    /// The record of the statement at `index`.
    pub fn record(&self, index: usize) -> (r: &RenderedRecord)
        requires
            index < self@.records.len(),
        ensures
            r@ == self@.records[index as int],
            self.wf() ==> r.wf(),
    {
        &self.records[index]
    }

    /// Gives up the executor for its records and its state.
    pub fn into_parts(self) -> (r: (Vec<RenderedRecord>, ExecutionState))
        ensures
            records_view(r.0@) == self@.records,
            r.1@ == self@.state,
            self.wf() ==> forall|i: int| 0 <= i < r.0@.len() ==> (#[trigger] r.0@[i]).wf(),
    {
        assert(records_view(self.records@) =~= self@.records);
        (self.records, self.state)
    }
}

/// The models of a list of statements.
pub open spec fn statements_view(v: Seq<SourceStatement>) -> Seq<SourceStatementView> {
    Seq::new(v.len(), |i: int| v[i]@)
}

/// The models of a list of records.
pub open spec fn records_view(v: Seq<RenderedRecord>) -> Seq<RecordView> {
    Seq::new(v.len(), |i: int| v[i]@)
}

} // verus!
