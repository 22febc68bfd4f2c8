//! The plan by which a stored schema is brought up to date.
//!
//! The file that holds the store carries the version of its schema.
//! At startup the caller asks for the steps that lead from that
//! version to the current one and carries them out in order, recording
//! the new version after each. Every step only adds to the schema.

use vstd::prelude::*;

verus! {

/// The version of the schema that this engine works on.
pub const SCHEMA_VERSION: u32 = 2;

/// One step of the plan.
#[derive(Clone, Copy, Debug, PartialEq, Eq, Structural)]
pub enum Migration {
    /// From an empty file to version 1: the tables for users, products,
    /// stock movements, purchases and sales.
    CreateTables,
    /// From version 1 to version 2: the list price and the target stock
    /// of a product.
    AddProductPricing,
}

/// Why no plan can be made.
#[derive(Clone, Copy, Debug, PartialEq, Eq, Structural)]
pub enum MigrationError {
    /// The file was written by a later version of the engine.
    SchemaTooNew { found: u32 },
}

impl Migration {
    /// The version that the step starts from.
    pub open spec fn from_version(self) -> int {
        match self {
            Migration::CreateTables => 0,
            Migration::AddProductPricing => 1,
        }
    }

    /// The version that the step leads to.
    pub open spec fn to_version(self) -> int {
        self.from_version() + 1
    }

    /// The version to record once the step is done.
    pub fn version_after(&self) -> (version: u32)
        ensures
            version == self.to_version(),
    {
        match self {
            Migration::CreateTables => 1,
            Migration::AddProductPricing => 2,
        }
    }
}

/// Whether `plan` leads from version `from` to the current version: it
/// has one step for each version in between, each starting where the
/// one before it ended.
pub open spec fn leads_up(plan: Seq<Migration>, from: int) -> bool {
    &&& plan.len() == SCHEMA_VERSION - from
    &&& forall|i: int| 0 <= i < plan.len() ==> (#[trigger] plan[i]).from_version() == from + i
}

/// The step that starts from `version`, if the schema is not yet
/// current.
pub fn next_step(version: u32) -> (step: Option<Migration>)
    ensures
        step is Some <==> version < SCHEMA_VERSION,
        step matches Some(migration) ==> migration.from_version() == version,
{
    if version == 0 {
        Some(Migration::CreateTables)
    } else if version == 1 {
        Some(Migration::AddProductPricing)
    } else {
        None
    }
}

/// The steps that bring a file of version `version` up to date, in the
/// order in which they are to be carried out. A current file needs
/// none. A file of a later version is refused.
pub fn pending(version: u32) -> (result: Result<Vec<Migration>, MigrationError>)
    ensures
        match result {
            Ok(plan) => version <= SCHEMA_VERSION && leads_up(plan@, version as int),
            Err(error) => version > SCHEMA_VERSION && error == (MigrationError::SchemaTooNew {
                found: version,
            }),
        },
{
    if version > SCHEMA_VERSION {
        return Err(MigrationError::SchemaTooNew { found: version });
    }
    let mut plan: Vec<Migration> = Vec::new();
    let mut at: u32 = version;
    while at < SCHEMA_VERSION
        invariant
            version <= at <= SCHEMA_VERSION,
            plan@.len() == at - version,
            forall|i: int| 0 <= i < plan@.len() ==> (#[trigger] plan@[i]).from_version() == version + i,
        decreases SCHEMA_VERSION - at,
    {
        let step = next_step(at).unwrap();
        plan.push(step);
        at = step.version_after();
    }
    Ok(plan)
}

/// Carrying out a plan ends at the current version, and a second pass
/// finds nothing left to do.
pub proof fn lemma_plan_ends_current(plan: Seq<Migration>, from: int)
    requires
        0 <= from <= SCHEMA_VERSION,
        leads_up(plan, from),
    ensures
        plan.len() == 0 <==> from == SCHEMA_VERSION,
        plan.len() > 0 ==> plan.last().to_version() == SCHEMA_VERSION,
        leads_up(Seq::<Migration>::empty(), SCHEMA_VERSION as int),
{
}

} // verus!
