//! Operations on shared records: records that any node may write, merged
//! field by field.

use vstd::prelude::*;
use crate::table::Key;
use crate::value::copy_fields;
use crate::value::FieldMap;
use crate::value::SyncID;
use crate::value::SyncIdView;
use crate::value::Value;

verus! {

/// An operation on the shared record that `model` and `record_id` identify.
///
/// An update writes exactly one field, so that the latest write to a field
/// can be found by comparing one timestamp.
#[derive(Clone, Debug, PartialEq, Eq)]
pub struct SharedOperation {
    pub record_id: SyncID,
    pub model: String,
    pub data: SharedOperationData,
}

#[derive(Clone, Debug, PartialEq, Eq)]
pub enum SharedOperationData {
    Create(SharedOperationCreateData),
    Update { field: String, value: Value },
    Delete,
}

/// How a shared record comes into being: with its fields in one operation,
/// or as an empty record whose fields arrive as updates. Until they have
/// arrived the record is there without them, and whoever reads it has to
/// reckon with that.
#[derive(Clone, Debug, PartialEq, Eq)]
pub enum SharedOperationCreateData {
    Unique(FieldMap),
    Atomic,
}

pub enum SharedOperationCreateDataView {
    Unique(Map<Seq<char>, Seq<u8>>),
    Atomic,
}

pub enum SharedOperationDataView {
    Create(SharedOperationCreateDataView),
    Update { field: Seq<char>, value: Seq<u8> },
    Delete,
}

pub struct SharedOperationView {
    pub record_id: SyncIdView,
    pub model: Seq<char>,
    pub data: SharedOperationDataView,
}

impl View for SharedOperationCreateData {
    type V = SharedOperationCreateDataView;

    open spec fn view(&self) -> SharedOperationCreateDataView {
        match self {
            SharedOperationCreateData::Unique(m) => SharedOperationCreateDataView::Unique(m@),
            SharedOperationCreateData::Atomic => SharedOperationCreateDataView::Atomic,
        }
    }
}

impl View for SharedOperationData {
    type V = SharedOperationDataView;

    open spec fn view(&self) -> SharedOperationDataView {
        match self {
            SharedOperationData::Create(c) => SharedOperationDataView::Create(c@),
            SharedOperationData::Update { field, value } => SharedOperationDataView::Update {
                field: field@,
                value: value@,
            },
            SharedOperationData::Delete => SharedOperationDataView::Delete,
        }
    }
}

impl View for SharedOperation {
    type V = SharedOperationView;

    open spec fn view(&self) -> SharedOperationView {
        SharedOperationView { record_id: self.record_id@, model: self.model@, data: self.data@ }
    }
}

impl SharedOperationData {
    pub open spec fn valid(&self) -> bool {
        match self {
            SharedOperationData::Create(SharedOperationCreateData::Unique(m)) => m.wf(),
            _ => true,
        }
    }

    pub fn create_unique(data: FieldMap) -> (r: Self)
        ensures
            r == SharedOperationData::Create(SharedOperationCreateData::Unique(data)),
    {
        SharedOperationData::Create(SharedOperationCreateData::Unique(data))
    }

    pub fn create_atomic() -> (r: Self)
        ensures
            r == SharedOperationData::Create(SharedOperationCreateData::Atomic),
    {
        SharedOperationData::Create(SharedOperationCreateData::Atomic)
    }

    pub fn update(field: String, value: Value) -> (r: Self)
        ensures
            r == (SharedOperationData::Update { field, value }),
    {
        SharedOperationData::Update { field, value }
    }

    pub fn delete() -> (r: Self)
        ensures
            r == SharedOperationData::Delete,
    {
        SharedOperationData::Delete
    }
}

impl SharedOperation {
    pub open spec fn valid(&self) -> bool {
        self.record_id.valid() && self.data.valid()
    }

    /// Whether the operation is valid.
    pub fn check(&self) -> (b: bool)
        ensures
            b == self.valid(),
    {
        self.record_id.check() && match &self.data {
            SharedOperationData::Create(SharedOperationCreateData::Unique(values)) => values.is_wf(),
            _ => true,
        }
    }

    pub fn copy(&self) -> (c: Self)
        requires
            self.valid(),
        ensures
            c.valid(),
            c@ == self@,
    {
        SharedOperation {
            record_id: self.record_id.copy(),
            model: self.model.clone(),
            data: match &self.data {
                SharedOperationData::Create(SharedOperationCreateData::Unique(values)) => SharedOperationData::Create(
                    SharedOperationCreateData::Unique(copy_fields(values)),
                ),
                SharedOperationData::Create(SharedOperationCreateData::Atomic) => SharedOperationData::Create(
                    SharedOperationCreateData::Atomic,
                ),
                SharedOperationData::Update { field, value } => SharedOperationData::Update {
                    field: field.clone(),
                    value: value.copy(),
                },
                SharedOperationData::Delete => SharedOperationData::Delete,
            },
        }
    }
}

} // verus!
