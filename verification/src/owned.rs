//! Operations on owned records: records that only the node that made them
//! writes.

use vstd::prelude::*;
use crate::table::Key;
use crate::value::copy_fields;
use crate::value::FieldMap;
use crate::value::SyncID;
use crate::value::SyncIdView;

verus! {

/// A batch of changes to records of `model`, in the order in which the
/// owning node made them.
#[derive(Clone, Debug, PartialEq, Eq)]
pub struct OwnedOperation {
    pub model: String,
    pub data: Vec<OwnedOperationData>,
}

#[derive(Clone, Debug, PartialEq, Eq)]
pub enum OwnedOperationData {
    Create(FieldMap),
    Update(FieldMap),
    Delete(SyncID),
}

pub enum OwnedOperationDataView {
    Create(Map<Seq<char>, Seq<u8>>),
    Update(Map<Seq<char>, Seq<u8>>),
    Delete(SyncIdView),
}

pub struct OwnedOperationView {
    pub model: Seq<char>,
    pub data: Seq<OwnedOperationDataView>,
}

impl View for OwnedOperationData {
    type V = OwnedOperationDataView;

    open spec fn view(&self) -> OwnedOperationDataView {
        match self {
            OwnedOperationData::Create(m) => OwnedOperationDataView::Create(m@),
            OwnedOperationData::Update(m) => OwnedOperationDataView::Update(m@),
            OwnedOperationData::Delete(id) => OwnedOperationDataView::Delete(id@),
        }
    }
}

impl OwnedOperationData {
    pub open spec fn valid(&self) -> bool {
        match self {
            OwnedOperationData::Create(m) => m.wf(),
            OwnedOperationData::Update(m) => m.wf(),
            OwnedOperationData::Delete(id) => id.valid(),
        }
    }
}

/// The changes of a batch.
pub open spec fn changes_view(data: Seq<OwnedOperationData>) -> Seq<OwnedOperationDataView> {
    Seq::new(data.len(), |i: int| data[i]@)
}

impl View for OwnedOperation {
    type V = OwnedOperationView;

    open spec fn view(&self) -> OwnedOperationView {
        OwnedOperationView { model: self.model@, data: changes_view(self.data@) }
    }
}

impl OwnedOperation {
    pub open spec fn valid(&self) -> bool {
        forall|i: int| 0 <= i < self.data@.len() ==> (#[trigger] self.data@[i]).valid()
    }

    /// Whether the operation is valid.
    pub fn check(&self) -> (b: bool)
        ensures
            b == self.valid(),
    {
        let mut i: usize = 0;
        while i < self.data.len()
            invariant
                i <= self.data@.len(),
                forall|j: int| 0 <= j < i ==> (#[trigger] self.data@[j]).valid(),
            decreases self.data@.len() - i,
        {
            let ok = match &self.data[i] {
                OwnedOperationData::Create(values) => values.is_wf(),
                OwnedOperationData::Update(values) => values.is_wf(),
                OwnedOperationData::Delete(id) => id.check(),
            };
            if !ok {
                return false;
            }
            i += 1;
        }
        true
    }

    pub fn copy(&self) -> (c: Self)
        requires
            self.valid(),
        ensures
            c.valid(),
            c@ == self@,
    {
        let mut data: Vec<OwnedOperationData> = Vec::new();
        let mut i: usize = 0;
        while i < self.data.len()
            invariant
                self.valid(),
                i <= self.data@.len(),
                data@.len() == i,
                forall|j: int| 0 <= j < i ==> (#[trigger] data@[j]).valid() && data@[j]@ == self.data@[j]@,
            decreases self.data@.len() - i,
        {
            let change = match &self.data[i] {
                OwnedOperationData::Create(values) => OwnedOperationData::Create(copy_fields(values)),
                OwnedOperationData::Update(values) => OwnedOperationData::Update(copy_fields(values)),
                OwnedOperationData::Delete(id) => OwnedOperationData::Delete(id.copy()),
            };
            data.push(change);
            i += 1;
        }
        assert(changes_view(data@) =~= changes_view(self.data@));
        OwnedOperation { model: self.model.clone(), data }
    }
}

} // verus!
