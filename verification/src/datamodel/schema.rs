//! What the merge engine needs to know of the models of a data model.

use vstd::prelude::*;
use crate::datamodel::field::Field;
use crate::datamodel::field::FieldType;
use crate::datamodel::model::Model;
use crate::datamodel::model::ModelType;
use crate::datamodel::model::SyncIDMapping;
use crate::datamodel::model_names;
use crate::datamodel::Datamodel;
use crate::merge::schema::names_view;
use crate::merge::schema::references_view;
use crate::merge::schema::ModelKind;
use crate::merge::schema::ModelKindView;
use crate::merge::schema::Reference;
use crate::merge::schema::Schema;
use crate::names::first_of;
use crate::names::is_first;
use crate::names::lemma_first;
use crate::names::lemma_first_exists;
use crate::table::Table;

verus! {

/// The names of the fields that stand, in the first `n` pairs of a mapping,
/// for the fields of the primary key.
pub open spec fn pair_names(fields: Seq<Field>, pairs: Seq<(usize, usize)>, n: int) -> Seq<Seq<char>>
    decreases n,
{
    if n <= 0 || n > pairs.len() {
        seq![]
    } else {
        let before = pair_names(fields, pairs, n - 1);
        if pairs[n - 1].1 < fields.len() {
            before.push(fields[pairs[n - 1].1 as int].name@)
        } else {
            before
        }
    }
}

/// The names of the fields that identify a record on every node.
pub open spec fn id_names(fields: Seq<Field>, mapping: SyncIDMapping) -> Seq<Seq<char>> {
    match mapping {
        SyncIDMapping::Single { primary_key, sync_id } => if sync_id < fields.len() {
            seq![fields[sync_id as int].name@]
        } else {
            seq![]
        },
        SyncIDMapping::Compound(pairs) => pair_names(fields, pairs@, pairs@.len() as int),
    }
}

/// For each of the first `n` fields that holds the key of a record of
/// another model, the field's name and the name of that model.
pub open spec fn references_upto(models: Seq<Model>, fields: Seq<Field>, n: int) -> Seq<(Seq<char>, Seq<char>)>
    decreases n,
{
    if n <= 0 || n > fields.len() {
        seq![]
    } else {
        let before = references_upto(models, fields, n - 1);
        match fields[n - 1].typ {
            FieldType::Scalar { relation_field_info: Some(info) } => if info.referenced_field.model < models.len() {
                before.push((fields[n - 1].name@, models[info.referenced_field.model as int].name@))
            } else {
                before
            },
            _ => before,
        }
    }
}

/// The model that a relation field leads to.
pub open spec fn target_of(fields: Seq<Field>, f: usize) -> Option<Seq<char>> {
    if f < fields.len() {
        match fields[f as int].typ {
            FieldType::Relation { relation_info } => Some(relation_info.to@),
            _ => None,
        }
    } else {
        None
    }
}

impl Datamodel {
    /// How the merge engine treats the model at position `i`. A relation
    /// whose two ends are not both relation fields is not replicated.
    pub open spec fn kind_of(&self, i: int) -> ModelKindView {
        let model = self.models@[i];
        match model.typ {
            ModelType::Local { .. } => ModelKindView::Local,
            ModelType::Shared { .. } => ModelKindView::Shared,
            ModelType::Owned { owner, id } => ModelKindView::Owned {
                id: id_names(model.fields@, id),
                compound: id is Compound,
                references: references_upto(self.models@, model.fields@, model.fields@.len() as int),
            },
            ModelType::Relation { item, group } => match (
                target_of(model.fields@, item),
                target_of(model.fields@, group),
            ) {
                (Some(item), Some(group)) => ModelKindView::Relation { item, group },
                _ => ModelKindView::Local,
            },
        }
    }

    fn target(&self, i: usize, f: usize) -> (r: Option<String>)
        requires
            i < self.models@.len(),
        ensures
            match r {
                Some(name) => target_of(self.models@[i as int].fields@, f) == Some(name@),
                None => target_of(self.models@[i as int].fields@, f).is_none(),
            },
    {
        if f < self.models[i].fields.len() {
            match &self.models[i].fields[f].typ {
                FieldType::Relation { relation_info } => Some(relation_info.to.clone()),
                _ => None,
            }
        } else {
            None
        }
    }

    fn kind(&self, i: usize) -> (kind: ModelKind)
        requires
            i < self.models@.len(),
        ensures
            kind@ == self.kind_of(i as int),
    {
        let model = &self.models[i];
        match &model.typ {
            ModelType::Local { .. } => ModelKind::Local,
            ModelType::Shared { .. } => ModelKind::Shared,
            ModelType::Owned { owner, id } => {
                let mut names: Vec<String> = Vec::new();
                let compound = match id {
                    SyncIDMapping::Single { primary_key, sync_id } => {
                        if *sync_id < model.fields.len() {
                            names.push(model.fields[*sync_id].name.clone());
                        }
                        assert(names_view(names@) =~= id_names(model.fields@, *id));
                        false
                    },
                    SyncIDMapping::Compound(pairs) => {
                        let mut n: usize = 0;
                        while n < pairs.len()
                            invariant
                                n <= pairs@.len(),
                                names_view(names@) == pair_names(model.fields@, pairs@, n as int),
                            decreases pairs@.len() - n,
                        {
                            if pairs[n].1 < model.fields.len() {
                                let ghost before = names_view(names@);
                                names.push(model.fields[pairs[n].1].name.clone());
                                assert(names_view(names@) =~= before.push(model.fields@[pairs@[n as int].1 as int].name@));
                            }
                            n += 1;
                        }
                        true
                    },
                };
                let mut references: Vec<Reference> = Vec::new();
                let mut n: usize = 0;
                while n < model.fields.len()
                    invariant
                        n <= model.fields@.len(),
                        references_view(references@) == references_upto(self.models@, model.fields@, n as int),
                    decreases model.fields@.len() - n,
                {
                    match &model.fields[n].typ {
                        FieldType::Scalar { relation_field_info: Some(info) } => {
                            if info.referenced_field.model < self.models.len() {
                                let ghost before = references_view(references@);
                                references.push(
                                    Reference {
                                        field: model.fields[n].name.clone(),
                                        target: self.models[info.referenced_field.model].name.clone(),
                                    },
                                );
                                assert(references_view(references@) =~= before.push(
                                    (
                                        model.fields@[n as int].name@,
                                        self.models@[info.referenced_field.model as int].name@,
                                    ),
                                ));
                            }
                        },
                        _ => {},
                    }
                    n += 1;
                }
                ModelKind::Owned { id: names, compound, references }
            },
            ModelType::Relation { item, group } => {
                match self.target(i, *item) {
                    Some(item) => match self.target(i, *group) {
                        Some(group) => ModelKind::Relation { item, group },
                        None => ModelKind::Local,
                    },
                    None => ModelKind::Local,
                }
            },
        }
    }

    /// What the merge engine needs to know of the models: for each name, how
    /// the first model of that name is replicated.
    pub fn schema(&self) -> (schema: Schema)
        ensures
            schema.wf(),
            forall|name: Seq<char>| #[trigger]
                schema@.contains_key(name) <==> first_of(model_names(self.models@), name).is_some(),
            forall|name: Seq<char>| #[trigger]
                schema@.contains_key(name) ==> schema@[name] == self.kind_of(
                    first_of(model_names(self.models@), name).unwrap(),
                ),
    {
        let ghost names = model_names(self.models@);
        let mut schema: Schema = Table::new();
        let mut i: usize = 0;
        while i < self.models.len()
            invariant
                i <= self.models@.len(),
                names == model_names(self.models@),
                schema.wf(),
                forall|name: Seq<char>| #[trigger]
                    schema@.contains_key(name) <==> exists|j: int| 0 <= j < i && names[j] == name,
                forall|name: Seq<char>| #[trigger]
                    schema@.contains_key(name) ==> exists|j: int|
                        0 <= j < i && is_first(names, name, j) && schema@[name] == self.kind_of(j),
            decreases self.models@.len() - i,
        {
            let ghost before = schema@;
            if schema.find(&self.models[i].name).is_none() {
                let kind = self.kind(i);
                schema.push(self.models[i].name.clone(), kind);
                proof {
                    assert(names[i as int] == self.models@[i as int].name@);
                    assert(is_first(names, names[i as int], i as int)) by {
                        assert forall|j: int| 0 <= j < i implies names[j] != names[i as int] by {
                            if names[j] == names[i as int] {
                                assert(before.contains_key(names[i as int]));
                            }
                        }
                    }
                }
            }
            proof {
                assert forall|name: Seq<char>| #[trigger]
                    schema@.contains_key(name) <==> exists|j: int| 0 <= j < i + 1 && names[j] == name by {
                    if before.contains_key(name) {
                        let j = choose|j: int| 0 <= j < i && names[j] == name;
                        assert(0 <= j < i + 1 && names[j] == name);
                    }
                    if exists|j: int| 0 <= j < i + 1 && names[j] == name {
                        let j = choose|j: int| 0 <= j < i + 1 && names[j] == name;
                        if j < i {
                            assert(before.contains_key(name));
                        }
                    }
                }
                assert forall|name: Seq<char>| #[trigger] schema@.contains_key(name) implies exists|j: int|
                    0 <= j < i + 1 && is_first(names, name, j) && schema@[name] == self.kind_of(j) by {
                    if before.contains_key(name) {
                        let j = choose|j: int| 0 <= j < i && is_first(names, name, j) && before[name] == self.kind_of(j);
                        assert(0 <= j < i + 1 && is_first(names, name, j) && schema@[name] == self.kind_of(j));
                    } else {
                        assert(is_first(names, name, i as int) && schema@[name] == self.kind_of(i as int));
                    }
                }
            }
            i += 1;
        }
        proof {
            assert forall|name: Seq<char>| #[trigger]
                schema@.contains_key(name) <==> first_of(names, name).is_some() by {
                if schema@.contains_key(name) {
                    let j = choose|j: int| 0 <= j < i && names[j] == name;
                    lemma_first_exists(names, name, j);
                }
                if first_of(names, name).is_some() {
                    let j = choose|j: int| is_first(names, name, j);
                    assert(0 <= j < i && names[j] == name);
                }
            }
            assert forall|name: Seq<char>| #[trigger] schema@.contains_key(name) implies schema@[name]
                == self.kind_of(first_of(names, name).unwrap()) by {
                let j = choose|j: int| 0 <= j < i && is_first(names, name, j) && schema@[name] == self.kind_of(j);
                lemma_first(names, name, j);
            }
        }
        schema
    }
}

} // verus!
