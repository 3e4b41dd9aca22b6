//! Event logs in tabular form: named columns of text, one row per event.

use vstd::prelude::*;

verus! {

/// One named column of an event log, as read: the field's name and its value
/// for every event.
#[derive(Debug)]
pub struct Column {
    pub name: String,
    pub values: Vec<String>,
}

/// What a column holds, as mathematical sequences of characters.
pub struct ColumnModel {
    pub name: Seq<char>,
    pub values: Seq<Seq<char>>,
}

impl View for Column {
    type V = ColumnModel;

    open spec fn view(&self) -> ColumnModel {
        ColumnModel { name: self.name@, values: self.values.deep_view() }
    }
}

/// The models of a sequence of columns, in order.
pub open spec fn column_models(columns: Seq<Column>) -> Seq<ColumnModel> {
    Seq::new(columns.len(), |i: int| columns[i]@)
}

/// A table is well formed when no two columns share a name and all columns
/// have one value per event, so the same number of values.
pub open spec fn well_formed(columns: Seq<ColumnModel>) -> bool {
    &&& forall|i: int, j: int|
        0 <= i < j < columns.len() ==> (#[trigger] columns[i]).name != (#[trigger] columns[j]).name
    &&& forall|i: int|
        0 <= i < columns.len() ==> (#[trigger] columns[i]).values.len() == columns[0].values.len()
}

/// Whether some column of the table bears this name.
pub open spec fn has_column(columns: Seq<ColumnModel>, name: Seq<char>) -> bool {
    exists|i: int| 0 <= i < columns.len() && (#[trigger] columns[i]).name == name
}

/// The values of the column that bears this name; meaningful where
/// `has_column` holds.
pub open spec fn values_of(columns: Seq<ColumnModel>, name: Seq<char>) -> Seq<Seq<char>> {
    let i = choose|i: int| 0 <= i < columns.len() && (#[trigger] columns[i]).name == name;
    columns[i].values
}

/// The number of events in a table: the number of values of its columns,
/// zero for a table without columns.
pub open spec fn height_of(columns: Seq<ColumnModel>) -> nat {
    if columns.len() == 0 {
        0
    } else {
        columns[0].values.len()
    }
}

/// Why a table could not be built, or a column not be had.
#[derive(Debug, Clone, Copy, PartialEq, Eq, Structural)]
pub enum EventLogError {
    /// A column has another number of values than the first column.
    ShapeMismatch,
    /// A column bears the name of an earlier column.
    Duplicate,
    /// No column bears the name asked for.
    NotFound,
}

/// What is wrong with column `at` of `columns`, if anything: its number of
/// values is looked at before its name.
pub open spec fn fault_at(columns: Seq<ColumnModel>, at: int) -> Option<EventLogError> {
    if columns[at].values.len() != columns[0].values.len() {
        Some(EventLogError::ShapeMismatch)
    } else if exists|k: int| 0 <= k < at && (#[trigger] columns[k]).name == columns[at].name {
        Some(EventLogError::Duplicate)
    } else {
        None
    }
}

/// An event log as a table of text: columns with distinct names that all
/// have one value per event.
#[derive(Debug)]
pub struct EventLog {
    columns: Vec<Column>,
}

impl View for EventLog {
    type V = Seq<ColumnModel>;

    closed spec fn view(&self) -> Seq<ColumnModel> {
        column_models(self.columns@)
    }
}

impl EventLog {
    /// Every event log is a well-formed table.
    #[verifier::type_invariant]
    pub open spec fn inv(self) -> bool {
        well_formed(self@)
    }

    /// Builds an event log from its columns, which must have distinct names
    /// and equally many values. Otherwise the first column at fault decides
    /// the error: `ShapeMismatch` if it has another number of values than the
    /// first column, else `Duplicate` if an earlier column bears its name.
    pub fn new(columns: Vec<Column>) -> (built: Result<EventLog, EventLogError>)
        ensures
            built is Ok <==> well_formed(column_models(columns@)),
            match built {
                Ok(log) => log@ == column_models(columns@),
                Err(error) => exists|at: int|
                    {
                        &&& 0 <= at < columns.len()
                        &&& #[trigger] fault_at(column_models(columns@), at) == Some(error)
                        &&& forall|k: int|
                            0 <= k < at ==> #[trigger] fault_at(column_models(columns@), k) is None
                    },
            },
    {
        let ghost models = column_models(columns@);
        let mut i: usize = 0;
        while i < columns.len()
            invariant
                i <= columns.len(),
                models == column_models(columns@),
                forall|k: int| 0 <= k < i ==> #[trigger] fault_at(models, k) is None,
            decreases columns.len() - i,
        {
            if columns[i].values.len() != columns[0].values.len() {
                assert(fault_at(models, i as int) == Some(EventLogError::ShapeMismatch));
                assert(!well_formed(models));
                return Err(EventLogError::ShapeMismatch);
            }
            let mut k: usize = 0;
            while k < i
                invariant
                    k <= i < columns.len(),
                    models == column_models(columns@),
                    models[i as int].values.len() == models[0].values.len(),
                    forall|j: int| 0 <= j < i ==> #[trigger] fault_at(models, j) is None,
                    forall|j: int| 0 <= j < k ==> (#[trigger] models[j]).name != models[i as int].name,
                decreases i - k,
            {
                if columns[k].name == columns[i].name {
                    assert(models[k as int].name == models[i as int].name);
                    assert(fault_at(models, i as int) == Some(EventLogError::Duplicate));
                    assert(!well_formed(models));
                    return Err(EventLogError::Duplicate);
                }
                k += 1;
            }
            i += 1;
        }
        assert(well_formed(models)) by {
            assert forall|p: int, q: int| 0 <= p < q < models.len() implies (#[trigger] models[p]).name
                != (#[trigger] models[q]).name by {
                assert(fault_at(models, q) is None);
            }
            assert forall|p: int| 0 <= p < models.len() implies (#[trigger] models[p]).values.len()
                == models[0].values.len() by {
                assert(fault_at(models, p) is None);
            }
        }
        Ok(EventLog { columns })
    }

    /// The number of events in the log.
    pub fn height(&self) -> (rows: usize)
        ensures
            rows == height_of(self@),
    {
        if self.columns.len() == 0 {
            0
        } else {
            self.columns[0].values.len()
        }
    }

    /// The values of the column that bears `name`, one per event, or
    /// `NotFound` if the log has no such column.
    pub fn column(&self, name: &str) -> (found: Result<&Vec<String>, EventLogError>)
        ensures
            match found {
                Ok(values) => has_column(self@, name@) && values.deep_view() == values_of(
                    self@,
                    name@,
                ) && values.len() == height_of(self@),
                Err(error) => !has_column(self@, name@) && error == EventLogError::NotFound,
            },
    {
        proof {
            use_type_invariant(self);
        }
        let wanted: String = name.to_owned();
        let mut i: usize = 0;
        while i < self.columns.len()
            invariant
                i <= self.columns.len(),
                wanted@ == name@,
                well_formed(self@),
                forall|k: int| 0 <= k < i ==> (#[trigger] self@[k]).name != name@,
            decreases self.columns.len() - i,
        {
            if self.columns[i].name == wanted {
                proof {
                    assert(self@[i as int].name == name@);
                    let found_at = choose|k: int|
                        0 <= k < self@.len() && (#[trigger] self@[k]).name == name@;
                    assert(found_at == i) by {
                        if found_at < i {
                            assert(self@[found_at].name != self@[i as int].name);
                        } else if found_at > i {
                            assert(self@[i as int].name != self@[found_at].name);
                        }
                    }
                    assert(self@[i as int].values.len() == self@[0].values.len());
                }
                return Ok(&self.columns[i].values);
            }
            i += 1;
        }
        Err(EventLogError::NotFound)
    }
}

} // verus!
