//! How generated code puts together the identifier of a record that it has
//! just made.

use vstd::prelude::*;
use crate::datamodel::model::SyncIDMapping;
use crate::datamodel::Datamodel;
use crate::generator::fields::CrdtType;
use crate::resolver::acyclic;
use crate::resolver::chain_ends;
use crate::resolver::count_from;
use crate::resolver::end_of;
use crate::resolver::field_value;
use crate::resolver::follow;
use crate::resolver::lemma_steps_complete;
use crate::resolver::lemma_steps_resolve;
use crate::resolver::step_of;
use crate::resolver::steps_of;
use crate::resolver::sync_id_of;
use crate::resolver::Rows;
use crate::resolver::Step;
use crate::value::SyncIdView;

verus! {

/// Where the value of a part of an identifier comes from.
#[derive(Clone, Debug, PartialEq, Eq)]
pub enum Source {
    /// From the field itself.
    Given,
    /// The field holds the key of a record of another model, and the part
    /// is what stands for that record in its own identifier. It is reached
    /// by the steps, one after another: each finds a record by the value
    /// that the step before took, the first by the value of the field. The
    /// steps go on until what is taken is no key of a further record.
    Lookup { steps: Vec<Step> },
}

pub enum SourceView {
    Given,
    Lookup { steps: Seq<Step> },
}

impl View for Source {
    type V = SourceView;

    open spec fn view(&self) -> SourceView {
        match self {
            Source::Given => SourceView::Given,
            Source::Lookup { steps } => SourceView::Lookup { steps: steps@ },
        }
    }
}

impl SourceView {
    /// The steps of a source: none where the value is given.
    pub open spec fn steps(self) -> Seq<Step> {
        match self {
            SourceView::Given => seq![],
            SourceView::Lookup { steps } => steps,
        }
    }

    /// The source that goes through the steps.
    pub open spec fn of(steps: Seq<Step>) -> SourceView {
        if steps.len() == 0 {
            SourceView::Given
        } else {
            SourceView::Lookup { steps }
        }
    }
}

impl Source {
    /// The source that goes through the steps.
    pub fn of(steps: Vec<Step>) -> (s: Source)
        ensures
            s@ == SourceView::of(steps@),
    {
        if steps.len() == 0 {
            Source::Given
        } else {
            Source::Lookup { steps }
        }
    }
}

/// A part of an identifier: the scalar field that it is named after, and
/// where its value comes from.
#[derive(Clone, Debug, PartialEq, Eq)]
pub struct Part {
    pub field: usize,
    pub source: Source,
}

impl Datamodel {
    /// Where the value of the part that the field `f` of model `m` gives
    /// comes from.
    pub open spec fn source_of(&self, m: int, f: int) -> SourceView {
        SourceView::of(steps_of(self, m, f, count_from(self, 0)))
    }

    /// Where the value of the part that a field gives comes from.
    pub fn source(&self, m: usize, f: usize) -> (s: Source)
        ensures
            s@ == self.source_of(m as int, f as int),
    {
        Source::of(self.steps(m, f))
    }

    /// The parts that the fields of `fields` give.
    pub fn parts(&self, m: usize, fields: &Vec<usize>) -> (r: Vec<Part>)
        ensures
            are_parts(self, m as int, fields@, r@),
    {
        let mut r: Vec<Part> = Vec::new();
        let mut k: usize = 0;
        while k < fields.len()
            invariant
                k <= fields@.len(),
                r@.len() == k,
                forall|j: int|
                    0 <= j < k ==> (#[trigger] r@[j]).field == fields@[j] && r@[j].source@ == self.source_of(
                        m as int,
                        fields@[j] as int,
                    ),
            decreases fields@.len() - k,
        {
            r.push(Part { field: fields[k], source: self.source(m, fields[k]) });
            k += 1;
        }
        r
    }
}

/// Whether `parts` are the parts that the fields of `fields` give.
pub open spec fn are_parts(datamodel: &Datamodel, m: int, fields: Seq<usize>, parts: Seq<Part>) -> bool {
    &&& parts.len() == fields.len()
    &&& forall|k: int|
        0 <= k < fields.len() ==> (#[trigger] parts[k]).field == fields[k] && parts[k].source@
            == datamodel.source_of(m, fields[k] as int)
}

/// Whether what the part takes at the end of its steps is no key of a
/// further record.
pub open spec fn goes_to_end(datamodel: &Datamodel, m: int, part: Part) -> bool {
    let end = end_of(part.source@.steps(), m, part.field as int);
    step_of(datamodel, end.0, end.1).is_none()
}

/// In a data model in which no field refers back to itself the parts that
/// fields give go to the end, and going through the steps of a part from
/// the value that a record holds under the part's field gives what stands
/// for the field in the record's identifier.
pub proof fn lemma_parts_go_to_end(datamodel: &Datamodel, m: int, fields: Seq<usize>, parts: Seq<Part>)
    requires
        acyclic(datamodel),
        are_parts(datamodel, m, fields, parts),
    ensures
        forall|k: int| 0 <= k < parts.len() ==> goes_to_end(datamodel, m, #[trigger] parts[k]),
        forall|k: int, rows: &Rows, row: Map<Seq<char>, Seq<u8>>|
            0 <= k < parts.len() && 0 <= m < datamodel.models@.len() && parts[k].field
                < datamodel.models@[m].fields@.len() && row.contains_key(
                datamodel.models@[m].fields@[parts[k].field as int].name@,
            ) ==> #[trigger] follow(
                datamodel,
                rows,
                parts[k].source@.steps(),
                row[datamodel.models@[m].fields@[parts[k].field as int].name@],
            ) == field_value(datamodel, rows, m, parts[k].field as int, row, count_from(datamodel, 0)),
{
    let depth = count_from(datamodel, 0);
    assert forall|k: int| 0 <= k < parts.len() implies goes_to_end(datamodel, m, #[trigger] parts[k]) by {
        let f = parts[k].field as int;
        assert(parts[k].field == fields[k]);
        if 0 <= m < datamodel.models@.len() && f < datamodel.models@[m].fields@.len() {
            assert(chain_ends(datamodel, m, f, depth));
            lemma_steps_complete(datamodel, m, f, depth);
        }
    }
    assert forall|k: int, rows: &Rows, row: Map<Seq<char>, Seq<u8>>|
        0 <= k < parts.len() && 0 <= m < datamodel.models@.len() && parts[k].field
            < datamodel.models@[m].fields@.len() && row.contains_key(
            datamodel.models@[m].fields@[parts[k].field as int].name@,
        ) implies #[trigger] follow(
        datamodel,
        rows,
        parts[k].source@.steps(),
        row[datamodel.models@[m].fields@[parts[k].field as int].name@],
    ) == field_value(datamodel, rows, m, parts[k].field as int, row, count_from(datamodel, 0)) by {
        let f = parts[k].field as int;
        assert(parts[k].field == fields[k]);
        assert(chain_ends(datamodel, m, f, depth));
        lemma_steps_resolve(datamodel, rows, m, f, row, depth);
    }
}

/// In a data model in which no field refers back to itself, the identifier
/// of a record that one field identifies is what the steps of that field
/// come to from the value that the record holds under it, and there is none
/// where the steps come to nothing.
pub proof fn lemma_plan_gives_identifier(
    datamodel: &Datamodel,
    rows: &Rows,
    m: int,
    f: int,
    row: Map<Seq<char>, Seq<u8>>,
)
    requires
        acyclic(datamodel),
        0 <= m < datamodel.models@.len(),
        0 <= f < datamodel.models@[m].fields@.len(),
        datamodel.models@[m].mapping() matches Some(SyncIDMapping::Single { sync_id, .. })
            && datamodel.models@[m].scalar_of(sync_id) == f,
        row.contains_key(datamodel.models@[m].fields@[f].name@),
    ensures
        sync_id_of(datamodel, rows, m, row) == match follow(
            datamodel,
            rows,
            datamodel.source_of(m, f).steps(),
            row[datamodel.models@[m].fields@[f].name@],
        ) {
            Some(value) => Some(SyncIdView::Single(value)),
            None => None,
        },
{
    let depth = count_from(datamodel, 0);
    assert(chain_ends(datamodel, m, f, depth));
    lemma_steps_resolve(datamodel, rows, m, f, row, depth);
    assert(datamodel.source_of(m, f).steps() =~= steps_of(datamodel, m, f, depth));
}

/// Whether `typed` are the fields of `fields`, each with its type in an
/// operation.
pub open spec fn are_typed(datamodel: &Datamodel, m: int, fields: Seq<usize>, typed: Seq<(usize, CrdtType)>) -> bool {
    &&& typed.len() == fields.len()
    &&& forall|k: int|
        0 <= k < fields.len() ==> #[trigger] typed[k] == (fields[k], datamodel.crdt_type_of(m, fields[k] as int))
}

/// The parts of the identifier of a record of model `m`, in the order in
/// which the model's fields give them: one for each scalar field of the
/// identifier. A field that holds a plain value gives the value; a field
/// that holds the key of a record of another model gives what stands for
/// that record in its own identifier, reached by as many steps as it takes,
/// and never a key under which this node keeps a record.
pub fn constructor(datamodel: &Datamodel, m: usize) -> (parts: Vec<Part>)
    requires
        m < datamodel.models@.len(),
    ensures
        are_parts(
            datamodel,
            m as int,
            datamodel.models@[m as int].scalar_ids_upto(datamodel.models@[m as int].fields@.len() as int),
            parts@,
        ),
        acyclic(datamodel) ==> forall|k: int|
            0 <= k < parts@.len() ==> goes_to_end(datamodel, m as int, #[trigger] parts@[k]),
{
    let fields = datamodel.models[m].scalar_sync_id_fields();
    let parts = datamodel.parts(m, &fields);
    proof {
        if acyclic(datamodel) {
            lemma_parts_go_to_end(datamodel, m as int, fields@, parts@);
        }
    }
    parts
}

/// The fields of the identifier of a record of model `m`, each with its
/// type in an operation.
pub fn definition(datamodel: &Datamodel, m: usize) -> (fields: Vec<(usize, CrdtType)>)
    requires
        m < datamodel.models@.len(),
    ensures
        are_typed(
            datamodel,
            m as int,
            datamodel.models@[m as int].scalar_ids_upto(datamodel.models@[m as int].fields@.len() as int),
            fields@,
        ),
{
    let ids = datamodel.models[m].scalar_sync_id_fields();
    datamodel.crdt_types(m, &ids)
}

} // verus!
