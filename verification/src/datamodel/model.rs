//! A model, how it is replicated, and which of its fields identify a record
//! on every node.

use vstd::prelude::*;
use vstd::string::StringExecFns;
use crate::attribute::parser::attribute_of;
use crate::attribute::Attribute;
use crate::attribute::AttributeView;
use crate::datamodel::error::DatamodelError;
use crate::datamodel::error::DatamodelErrorView;
use crate::datamodel::error::role_text;
use crate::datamodel::error::Role;
use crate::datamodel::field::field_names;
use crate::datamodel::field::find_field;
use crate::datamodel::field::Field;
use crate::datamodel::source::FieldSource;
use crate::datamodel::source::ModelSource;
use crate::names::first_of;
use crate::names::strings_view;
use crate::prelude::snake_case;
use crate::prelude::snake_ident;

verus! {

/// How a shared record is made: in one operation that carries its fields, or
/// as an empty record followed by one update for each field.
#[derive(Clone, Copy, Debug, PartialEq, Eq, Structural)]
pub enum SharedCreateType {
    Unique,
    Atomic,
}

impl SharedCreateType {
    pub open spec fn of(s: Seq<char>) -> Result<SharedCreateType, DatamodelErrorView> {
        if s == "Unique"@ {
            Ok(SharedCreateType::Unique)
        } else if s == "Atomic"@ {
            Ok(SharedCreateType::Atomic)
        } else {
            Err(DatamodelErrorView::InvalidCreateType { value: s })
        }
    }

    pub fn from_str(s: &str) -> (r: Result<Self, DatamodelError>)
        ensures
            match r {
                Ok(t) => Self::of(s@) == Ok::<SharedCreateType, DatamodelErrorView>(t),
                Err(e) => Self::of(s@) == Err::<SharedCreateType, DatamodelErrorView>(e@),
            },
    {
        let value = String::from_str(s);
        if value == String::from_str("Unique") {
            Ok(SharedCreateType::Unique)
        } else if value == String::from_str("Atomic") {
            Ok(SharedCreateType::Atomic)
        } else {
            Err(DatamodelError::InvalidCreateType { value })
        }
    }
}

/// Which field stands for each field of the primary key in the identifier
/// that is the same on every node. Fields are given by their positions in
/// the model.
#[derive(Clone, Debug, PartialEq, Eq)]
pub enum SyncIDMapping {
    Single { primary_key: usize, sync_id: usize },
    Compound(Vec<(usize, usize)>),
}

pub enum SyncIDMappingView {
    Single { primary_key: usize, sync_id: usize },
    Compound(Seq<(usize, usize)>),
}

impl View for SyncIDMapping {
    type V = SyncIDMappingView;

    open spec fn view(&self) -> SyncIDMappingView {
        match self {
            SyncIDMapping::Single { primary_key, sync_id } => SyncIDMappingView::Single {
                primary_key: *primary_key,
                sync_id: *sync_id,
            },
            SyncIDMapping::Compound(pairs) => SyncIDMappingView::Compound(pairs@),
        }
    }
}

/// Each field of the primary key from position `k` on, standing for itself;
/// or the first of them that the model does not have.
pub open spec fn compound_of(names: Seq<Seq<char>>, model: Seq<char>, key: Seq<Seq<char>>, k: int) -> Result<
    Seq<(usize, usize)>,
    DatamodelErrorView,
>
    decreases key.len() - k,
{
    if k < 0 || k >= key.len() {
        Ok(seq![])
    } else {
        match first_of(names, key[k]) {
            None => Err(DatamodelErrorView::NoField { model, field: key[k] }),
            Some(i) => match compound_of(names, model, key, k + 1) {
                Ok(rest) => Ok(seq![(i as usize, i as usize)] + rest),
                Err(e) => Err(e),
            },
        }
    }
}

/// The mapping that an attribute asks for, for a model with fields of the
/// names `names`. With a field `id` the attribute names the field that stands
/// for the one field of the primary key; without it each field of the primary
/// key stands for itself.
pub open spec fn mapping_of(
    attribute: AttributeView,
    names: Seq<Seq<char>>,
    model: Seq<char>,
    key: Option<Seq<Seq<char>>>,
) -> Result<SyncIDMappingView, DatamodelErrorView> {
    match key {
        None => Err(DatamodelErrorView::NoPrimaryKey { model }),
        Some(key) => match attribute.field("id"@) {
            Some(id) => {
                if key.len() != 1 {
                    Err(DatamodelErrorView::PrimaryKeyFields { model, count: key.len() as usize })
                } else {
                    match first_of(names, key[0]) {
                        None => Err(DatamodelErrorView::PrimaryKeyFieldNotFound { field: key[0] }),
                        Some(p) => match first_of(names, id) {
                            Some(s) => Ok(
                                SyncIDMappingView::Single { primary_key: p as usize, sync_id: s as usize },
                            ),
                            None => Err(DatamodelErrorView::NoField { model, field: id }),
                        },
                    }
                }
            },
            None => match compound_of(names, model, key, 0) {
                Ok(pairs) => Ok(SyncIDMappingView::Compound(pairs)),
                Err(e) => Err(e),
            },
        },
    }
}

/// The names of the fields of a primary key.
pub open spec fn key_view(key: Option<Vec<String>>) -> Option<Seq<Seq<char>>> {
    match key {
        Some(key) => Some(strings_view(key@)),
        None => None,
    }
}

impl SyncIDMapping {
    /// The mapping that the attribute asks for.
    pub fn from_attribute(attribute: &Attribute, fields: &Vec<Field>, model: &ModelSource) -> (r: Result<
        Self,
        DatamodelError,
    >)
        ensures
            match r {
                Ok(mapping) => mapping_of(attribute@, field_names(fields@), model.name@, key_view(model.primary_key))
                    == Ok::<SyncIDMappingView, DatamodelErrorView>(mapping@),
                Err(e) => mapping_of(attribute@, field_names(fields@), model.name@, key_view(model.primary_key))
                    == Err::<SyncIDMappingView, DatamodelErrorView>(e@),
            },
    {
        let key = match &model.primary_key {
            Some(key) => key,
            None => {
                return Err(DatamodelError::NoPrimaryKey { model: model.name.clone() });
            },
        };
        let ghost names = field_names(fields@);
        let ghost key_names = strings_view(key@);
        match attribute.field("id") {
            Some(id) => {
                if key.len() != 1 {
                    return Err(DatamodelError::PrimaryKeyFields { model: model.name.clone(), count: key.len() });
                }
                let primary_key = match find_field(fields, &key[0]) {
                    Some(p) => p,
                    None => {
                        return Err(DatamodelError::PrimaryKeyFieldNotFound { field: key[0].clone() });
                    },
                };
                let id = String::from_str(id);
                match find_field(fields, &id) {
                    Some(sync_id) => Ok(SyncIDMapping::Single { primary_key, sync_id }),
                    None => Err(DatamodelError::NoField { model: model.name.clone(), field: id }),
                }
            },
            None => {
                let mut pairs: Vec<(usize, usize)> = Vec::new();
                let mut k: usize = 0;
                while k < key.len()
                    invariant
                        k <= key@.len(),
                        names == field_names(fields@),
                        key_names == strings_view(key@),
                        key_view(model.primary_key) == Some(key_names),
                        attribute@.field("id"@).is_none(),
                        compound_of(names, model.name@, key_names, 0) == (match compound_of(
                            names,
                            model.name@,
                            key_names,
                            k as int,
                        ) {
                            Ok(rest) => Ok::<Seq<(usize, usize)>, DatamodelErrorView>(pairs@ + rest),
                            Err(e) => Err(e),
                        }),
                    decreases key@.len() - k,
                {
                    match find_field(fields, &key[k]) {
                        Some(i) => {
                            proof {
                                let rest = compound_of(names, model.name@, key_names, k + 1);
                                if let Ok(rest) = rest {
                                    assert(pairs@ + (seq![(i, i)] + rest) =~= pairs@.push((i, i)) + rest);
                                }
                            }
                            pairs.push((i, i));
                        },
                        None => {
                            return Err(
                                DatamodelError::NoField { model: model.name.clone(), field: key[k].clone() },
                            );
                        },
                    }
                    k += 1;
                }
                assert(pairs@ + Seq::<(usize, usize)>::empty() =~= pairs@);
                Ok(SyncIDMapping::Compound(pairs))
            },
        }
    }

    /// The field that stands for the given field of the primary key.
    pub open spec fn sync_id_of(self, primary_key: usize) -> Option<usize> {
        match self {
            SyncIDMapping::Single { primary_key: key, sync_id } => if key == primary_key {
                Some(sync_id)
            } else {
                None
            },
            SyncIDMapping::Compound(pairs) => pair_of(pairs@, primary_key, 0),
        }
    }

    pub fn get_sync_id(&self, primary_key: usize) -> (r: Option<usize>)
        ensures
            r == self.sync_id_of(primary_key),
    {
        match self {
            SyncIDMapping::Single { primary_key: key, sync_id } => if *key == primary_key {
                Some(*sync_id)
            } else {
                None
            },
            SyncIDMapping::Compound(pairs) => {
                let mut k: usize = 0;
                while k < pairs.len()
                    invariant
                        k <= pairs@.len(),
                        self.sync_id_of(primary_key) == pair_of(pairs@, primary_key, k as int),
                    decreases pairs@.len() - k,
                {
                    if pairs[k].0 == primary_key {
                        return Some(pairs[k].1);
                    }
                    k += 1;
                }
                None
            },
        }
    }
}

/// What the first pair from position `k` on whose first part is `wanted`
/// holds as its second part.
pub open spec fn pair_of(pairs: Seq<(usize, usize)>, wanted: usize, k: int) -> Option<usize>
    decreases pairs.len() - k,
{
    if k < 0 || k >= pairs.len() {
        None
    } else if pairs[k].0 == wanted {
        Some(pairs[k].1)
    } else {
        pair_of(pairs, wanted, k + 1)
    }
}

/// How a model is replicated.
#[derive(Clone, Debug, PartialEq, Eq)]
pub enum ModelType {
    /// Not replicated.
    Local { id: SyncIDMapping },
    /// Written only by the node that the field `owner` names.
    Owned { owner: usize, id: SyncIDMapping },
    /// Written by any node.
    Shared { id: SyncIDMapping, create: SharedCreateType },
    /// A relation between the records that the fields `item` and `group`
    /// lead to.
    Relation { item: usize, group: usize },
}

pub enum ModelTypeView {
    Local { id: SyncIDMappingView },
    Owned { owner: usize, id: SyncIDMappingView },
    Shared { id: SyncIDMappingView, create: SharedCreateType },
    Relation { item: usize, group: usize },
}

impl View for ModelType {
    type V = ModelTypeView;

    open spec fn view(&self) -> ModelTypeView {
        match self {
            ModelType::Local { id } => ModelTypeView::Local { id: id@ },
            ModelType::Owned { owner, id } => ModelTypeView::Owned { owner: *owner, id: id@ },
            ModelType::Shared { id, create } => ModelTypeView::Shared { id: id@, create: *create },
            ModelType::Relation { item, group } => ModelTypeView::Relation { item: *item, group: *group },
        }
    }
}

/// The field that the attribute gives for the role.
pub open spec fn role_of(attribute: AttributeView, names: Seq<Seq<char>>, role: Role) -> Result<
    usize,
    DatamodelErrorView,
> {
    match attribute.field(role_text(role)) {
        None => Err(DatamodelErrorView::MissingRole { role }),
        Some(field) => match first_of(names, field) {
            Some(i) => Ok(i as usize),
            None => Err(DatamodelErrorView::UnknownRole { role, field }),
        },
    }
}

/// The type of a model that is not replicated.
pub open spec fn local_type_of(mapping: Result<SyncIDMappingView, DatamodelErrorView>) -> Result<
    ModelTypeView,
    DatamodelErrorView,
> {
    match mapping {
        Ok(id) => Ok(ModelTypeView::Local { id }),
        Err(e) => Err(e),
    }
}

/// The type of an owned model, with the owner that the attribute gives.
pub open spec fn owned_type_of(
    mapping: Result<SyncIDMappingView, DatamodelErrorView>,
    owner: Result<usize, DatamodelErrorView>,
) -> Result<ModelTypeView, DatamodelErrorView> {
    match mapping {
        Ok(id) => match owner {
            Ok(owner) => Ok(ModelTypeView::Owned { owner, id }),
            Err(e) => Err(e),
        },
        Err(e) => Err(e),
    }
}

/// The type of a shared model, whose records are made in the way that the
/// attribute gives under `create`, or in one operation where it gives none.
pub open spec fn shared_type_of(
    mapping: Result<SyncIDMappingView, DatamodelErrorView>,
    create: Option<Seq<char>>,
) -> Result<ModelTypeView, DatamodelErrorView> {
    match mapping {
        Ok(id) => match create {
            None => Ok(ModelTypeView::Shared { id, create: SharedCreateType::Unique }),
            Some(value) => match SharedCreateType::of(value) {
                Ok(create) => Ok(ModelTypeView::Shared { id, create }),
                Err(e) => Err(e),
            },
        },
        Err(e) => Err(e),
    }
}

/// The type of a relation between the fields that the attribute gives.
pub open spec fn relation_type_of(
    item: Result<usize, DatamodelErrorView>,
    group: Result<usize, DatamodelErrorView>,
) -> Result<ModelTypeView, DatamodelErrorView> {
    match item {
        Ok(item) => match group {
            Ok(group) => Ok(ModelTypeView::Relation { item, group }),
            Err(e) => Err(e),
        },
        Err(e) => Err(e),
    }
}

/// How the attribute says the model is replicated.
pub open spec fn model_type_of(
    attribute: AttributeView,
    names: Seq<Seq<char>>,
    model: Seq<char>,
    key: Option<Seq<Seq<char>>>,
) -> Result<ModelTypeView, DatamodelErrorView> {
    if attribute.name == "local"@ {
        local_type_of(mapping_of(attribute, names, model, key))
    } else if attribute.name == "owned"@ {
        owned_type_of(mapping_of(attribute, names, model, key), role_of(attribute, names, Role::Owner))
    } else if attribute.name == "shared"@ {
        shared_type_of(mapping_of(attribute, names, model, key), attribute.field("create"@))
    } else if attribute.name == "relation"@ {
        relation_type_of(role_of(attribute, names, Role::Item), role_of(attribute, names, Role::Group))
    } else {
        Err(DatamodelErrorView::InvalidAttributeType { name: attribute.name })
    }
}

fn str_eq(a: &str, b: &str) -> (r: bool)
    ensures
        r == (a@ == b@),
{
    String::from_str(a) == String::from_str(b)
}

/// The field that the attribute gives for the role.
fn role_field(attribute: &Attribute, fields: &Vec<Field>, role: Role) -> (r: Result<usize, DatamodelError>)
    ensures
        match r {
            Ok(i) => role_of(attribute@, field_names(fields@), role) == Ok::<usize, DatamodelErrorView>(i),
            Err(e) => role_of(attribute@, field_names(fields@), role) == Err::<usize, DatamodelErrorView>(e@),
        },
{
    let given = match role {
        Role::Owner => attribute.field("owner"),
        Role::Item => attribute.field("item"),
        Role::Group => attribute.field("group"),
    };
    match given {
        None => Err(DatamodelError::MissingRole { role }),
        Some(field) => {
            let field = String::from_str(field);
            match find_field(fields, &field) {
                Some(i) => Ok(i),
                None => Err(DatamodelError::UnknownRole { role, field }),
            }
        },
    }
}

impl ModelType {
    /// How the attribute says the model is replicated.
    pub fn from_attribute(attribute: &Attribute, fields: &Vec<Field>, model: &ModelSource) -> (r: Result<
        Self,
        DatamodelError,
    >)
        ensures
            match r {
                Ok(typ) => model_type_of(attribute@, field_names(fields@), model.name@, key_view(model.primary_key))
                    == Ok::<ModelTypeView, DatamodelErrorView>(typ@),
                Err(e) => model_type_of(attribute@, field_names(fields@), model.name@, key_view(model.primary_key))
                    == Err::<ModelTypeView, DatamodelErrorView>(e@),
            },
    {
        if str_eq(attribute.name, "local") {
            match SyncIDMapping::from_attribute(attribute, fields, model) {
                Ok(id) => Ok(ModelType::Local { id }),
                Err(e) => Err(e),
            }
        } else if str_eq(attribute.name, "owned") {
            Self::owned(attribute, fields, model)
        } else if str_eq(attribute.name, "shared") {
            Self::shared(attribute, fields, model)
        } else if str_eq(attribute.name, "relation") {
            Self::relation(attribute, fields)
        } else {
            Err(DatamodelError::InvalidAttributeType { name: String::from_str(attribute.name) })
        }
    }

    fn owned(attribute: &Attribute, fields: &Vec<Field>, model: &ModelSource) -> (r: Result<Self, DatamodelError>)
        ensures
            match r {
                Ok(typ) => owned_type_of(
                    mapping_of(attribute@, field_names(fields@), model.name@, key_view(model.primary_key)),
                    role_of(attribute@, field_names(fields@), Role::Owner),
                ) == Ok::<ModelTypeView, DatamodelErrorView>(typ@),
                Err(e) => owned_type_of(
                    mapping_of(attribute@, field_names(fields@), model.name@, key_view(model.primary_key)),
                    role_of(attribute@, field_names(fields@), Role::Owner),
                ) == Err::<ModelTypeView, DatamodelErrorView>(e@),
            },
    {
        match SyncIDMapping::from_attribute(attribute, fields, model) {
            Ok(id) => match role_field(attribute, fields, Role::Owner) {
                Ok(owner) => Ok(ModelType::Owned { owner, id }),
                Err(e) => Err(e),
            },
            Err(e) => Err(e),
        }
    }

    fn shared(attribute: &Attribute, fields: &Vec<Field>, model: &ModelSource) -> (r: Result<Self, DatamodelError>)
        ensures
            match r {
                Ok(typ) => shared_type_of(
                    mapping_of(attribute@, field_names(fields@), model.name@, key_view(model.primary_key)),
                    attribute@.field("create"@),
                ) == Ok::<ModelTypeView, DatamodelErrorView>(typ@),
                Err(e) => shared_type_of(
                    mapping_of(attribute@, field_names(fields@), model.name@, key_view(model.primary_key)),
                    attribute@.field("create"@),
                ) == Err::<ModelTypeView, DatamodelErrorView>(e@),
            },
    {
        match SyncIDMapping::from_attribute(attribute, fields, model) {
            Ok(id) => match attribute.field("create") {
                None => Ok(ModelType::Shared { id, create: SharedCreateType::Unique }),
                Some(value) => match SharedCreateType::from_str(value) {
                    Ok(create) => Ok(ModelType::Shared { id, create }),
                    Err(e) => Err(e),
                },
            },
            Err(e) => Err(e),
        }
    }

    fn relation(attribute: &Attribute, fields: &Vec<Field>) -> (r: Result<Self, DatamodelError>)
        ensures
            match r {
                Ok(typ) => relation_type_of(
                    role_of(attribute@, field_names(fields@), Role::Item),
                    role_of(attribute@, field_names(fields@), Role::Group),
                ) == Ok::<ModelTypeView, DatamodelErrorView>(typ@),
                Err(e) => relation_type_of(
                    role_of(attribute@, field_names(fields@), Role::Item),
                    role_of(attribute@, field_names(fields@), Role::Group),
                ) == Err::<ModelTypeView, DatamodelErrorView>(e@),
            },
    {
        match role_field(attribute, fields, Role::Item) {
            Ok(item) => match role_field(attribute, fields, Role::Group) {
                Ok(group) => Ok(ModelType::Relation { item, group }),
                Err(e) => Err(e),
            },
            Err(e) => Err(e),
        }
    }
}

#[derive(Clone, Debug, PartialEq, Eq)]
pub struct Model {
    pub name: String,
    pub name_snake: String,
    pub typ: ModelType,
    pub fields: Vec<Field>,
}

/// The names of the fields that a schema gives a model.
pub open spec fn source_names(fields: Seq<FieldSource>) -> Seq<Seq<char>> {
    Seq::new(fields.len(), |i: int| fields[i].name@)
}

/// The first field from position `k` on that is neither a scalar nor a
/// relation.
pub open spec fn unsupported_from(fields: Seq<FieldSource>, k: int) -> Option<int>
    decreases fields.len() - k,
{
    if k < 0 || k >= fields.len() {
        None
    } else if fields[k].kind is Other {
        Some(k)
    } else {
        unsupported_from(fields, k + 1)
    }
}

impl Model {
    /// Why the model that `source` describes cannot be read, if it cannot:
    /// the first of a missing comment, a comment that begins with no
    /// attribute, a field of a kind that is not supported, and an attribute
    /// that does not fit the model.
    pub open spec fn error_of(source: &ModelSource) -> Option<DatamodelErrorView> {
        match source.documentation {
            None => Some(DatamodelErrorView::MissingAttribute { model: source.name@ }),
            Some(text) => match attribute_of(text@) {
                None => Some(DatamodelErrorView::InvalidAttribute { model: source.name@ }),
                Some((attribute, _)) => match unsupported_from(source.fields@, 0) {
                    Some(i) => Some(DatamodelErrorView::UnsupportedField { field: source.fields@[i].name@ }),
                    None => match model_type_of(
                        attribute,
                        source_names(source.fields@),
                        source.name@,
                        key_view(source.primary_key),
                    ) {
                        Err(e) => Some(e),
                        Ok(_) => None,
                    },
                },
            },
        }
    }

    /// Whether the model is what `source` describes.
    #[verifier::opaque]
    pub open spec fn made_of(&self, source: &ModelSource) -> bool {
        &&& self.name@ == source.name@
        &&& self.name_snake@ == snake_case(source.name@)
        &&& self.fields@.len() == source.fields@.len()
        &&& forall|i: int| 0 <= i < self.fields@.len() ==> (#[trigger] self.fields@[i]).made_of(&source.fields@[i])
        &&& source.documentation matches Some(text) && attribute_of(text@) matches Some((attribute, _))
            && model_type_of(attribute, source_names(source.fields@), source.name@, key_view(source.primary_key))
            == Ok::<ModelTypeView, DatamodelErrorView>(self.typ@)
    }

    /// The model that `source` describes.
    pub fn new(source: &ModelSource) -> (r: Result<Model, DatamodelError>)
        ensures
            match r {
                Ok(model) => Self::error_of(source).is_none() && model.made_of(source) && forall|i: int|
                    0 <= i < model.fields@.len() ==> (#[trigger] model.fields@[i]).unlinked(),
                Err(e) => Self::error_of(source) == Some(e@),
            },
    {
        let text = match &source.documentation {
            Some(text) => text,
            None => {
                return Err(DatamodelError::MissingAttribute { model: source.name.clone() });
            },
        };
        let attribute = match Attribute::parse(text.as_str()) {
            Ok(attribute) => attribute,
            Err(_) => {
                return Err(DatamodelError::InvalidAttribute { model: source.name.clone() });
            },
        };
        let mut fields: Vec<Field> = Vec::new();
        let mut i: usize = 0;
        while i < source.fields.len()
            invariant
                i <= source.fields@.len(),
                fields@.len() == i,
                forall|j: int|
                    0 <= j < i ==> (#[trigger] fields@[j]).made_of(&source.fields@[j]) && fields@[j].unlinked(),
                unsupported_from(source.fields@, 0) == unsupported_from(source.fields@, i as int),
                source.documentation == Some(*text),
                attribute_of(text@) matches Some((view, _)) && attribute@ == view,
            decreases source.fields@.len() - i,
        {
            match Field::new(&source.fields[i]) {
                Ok(field) => {
                    fields.push(field);
                },
                Err(e) => {
                    return Err(e);
                },
            }
            i += 1;
        }
        assert(field_names(fields@) =~= source_names(source.fields@));
        match ModelType::from_attribute(&attribute, &fields, source) {
            Ok(typ) => {
                let model = Model {
                    name: source.name.clone(),
                    name_snake: snake_ident(source.name.as_str()),
                    typ,
                    fields,
                };
                proof {
                    reveal(Model::made_of);
                }
                Ok(model)
            },
            Err(e) => Err(e),
        }
    }

    /// The mapping of the model's primary key, if the model has one.
    pub open spec fn mapping(&self) -> Option<SyncIDMapping> {
        match self.typ {
            ModelType::Local { id } => Some(id),
            ModelType::Owned { id, .. } => Some(id),
            ModelType::Shared { id, .. } => Some(id),
            ModelType::Relation { .. } => None,
        }
    }

    /// The field that stands for the given field of the primary key in the
    /// identifier that is the same on every node. A relation has none.
    pub open spec fn sync_field(&self, primary_key: usize) -> Option<usize> {
        match self.mapping() {
            Some(id) => id.sync_id_of(primary_key),
            None => None,
        }
    }

    pub fn get_sync_id(&self, primary_key: usize) -> (r: Option<usize>)
        ensures
            r == self.sync_field(primary_key),
    {
        match &self.typ {
            ModelType::Local { id } => id.get_sync_id(primary_key),
            ModelType::Owned { id, .. } => id.get_sync_id(primary_key),
            ModelType::Shared { id, .. } => id.get_sync_id(primary_key),
            ModelType::Relation { .. } => None,
        }
    }

    /// The first field of that name.
    pub fn field(&self, name: &String) -> (r: Option<usize>)
        ensures
            match r {
                Some(i) => first_of(field_names(self.fields@), name@) == Some(i as int) && i < self.fields@.len(),
                None => first_of(field_names(self.fields@), name@).is_none(),
            },
    {
        find_field(&self.fields, name)
    }
}

} // verus!
