//! Which upgrades an existing database needs, decided from the columns its
//! tables have.

use vstd::prelude::*;
use crate::config::texts;
use crate::text::{chars_equal, chars_of};

verus! {

/// The upgrades a database needs.
#[derive(Clone, Copy, Debug, PartialEq, Eq, Structural)]
pub struct MigrationPlan {
    /// Rebuild the checkpoint table, which lacks the query column.
    pub rebuild_checkpoints: bool,
    /// Rebuild the execution table, which lacks the query or the
    /// confidence column.
    pub rebuild_executions: bool,
    /// Add the sources column to the agent output table.
    pub add_sources_column: bool,
}

fn has_column(columns: &Vec<String>, name: &str) -> (b: bool)
    ensures
        b == texts(columns@).contains(name@),
{
    let n = chars_of(name);
    let mut i: usize = 0;
    while i < columns.len()
        invariant
            n@ == name@,
            i <= columns@.len(),
            forall|j: int| 0 <= j < i ==> #[trigger] texts(columns@)[j] != name@,
        decreases columns@.len() - i,
    {
        if chars_equal(&chars_of(columns[i].as_str()), &n) {
            assert(texts(columns@)[i as int] == name@);
            return true;
        }
        i = i + 1;
    }
    false
}

/// The upgrades a database needs, given the columns of its checkpoint,
/// execution and agent output tables.
pub fn migration_plan(checkpoint_columns: &Vec<String>, execution_columns: &Vec<String>, agent_columns: &Vec<String>) -> (plan: MigrationPlan)
    ensures
        plan.rebuild_checkpoints == !texts(checkpoint_columns@).contains("query"@),
        plan.rebuild_executions == (!texts(execution_columns@).contains("query"@)
            || !texts(execution_columns@).contains("confidence_score"@)),
        plan.add_sources_column == !texts(agent_columns@).contains("sources_json"@),
{
    MigrationPlan {
        rebuild_checkpoints: !has_column(checkpoint_columns, "query"),
        rebuild_executions: !has_column(execution_columns, "query") || !has_column(execution_columns, "confidence_score"),
        add_sources_column: !has_column(agent_columns, "sources_json"),
    }
}

} // verus!
