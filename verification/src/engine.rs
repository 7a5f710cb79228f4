//! The entry point: from the text of a document to its rendered records.

use vstd::prelude::*;
use crate::assoc::Text;
use crate::error::{fails_with, succeeds_with, EngineError, ErrorView};
use crate::executor::{
    records_view, run, ExecutionState, Executor, RecordView, RenderedRecord, StateView,
};
use crate::grammar::document;
use crate::parser::parse_document;
use crate::registry::{UnitRegistry, UnitView};

verus! {

/// What a document evaluates to. A malformed document is the error of its
/// first malformed line, and nothing is executed. Otherwise its statements
/// are executed in order: the result is the error of the first statement
/// that fails, or else one record per statement.
pub open spec fn evaluation(source: Text, units: Map<Text, UnitView>) -> Result<
    Seq<RecordView>,
    ErrorView,
> {
    match document(source) {
        Err(e) => Err(e),
        Ok(statements) => match run(statements, units).state {
            StateView::Errored(e) => Err(e),
            _ => Ok(run(statements, units).records),
        },
    }
}

/// Evaluates a document: parses it, then executes its statements from an
/// empty scope.
pub fn evaluate_document(source: &str, registry: &UnitRegistry) -> (r: Result<
    Vec<RenderedRecord>,
    EngineError,
>)
    requires
        registry.wf(),
    ensures
        match r {
            Ok(records) => {
                &&& succeeds_with(evaluation(source@, registry@), records_view(records@))
                &&& forall|i: int| 0 <= i < records@.len() ==> (#[trigger] records@[i]).wf()
            },
            Err(e) => fails_with(evaluation(source@, registry@), e@),
        },
{
    let statements = parse_document(source)?;
    let executor = Executor::run(&statements, registry);
    let (records, state) = executor.into_parts();
    match state {
        ExecutionState::Errored(e) => Err(e),
        _ => Ok(records),
    }
}

} // verus!
