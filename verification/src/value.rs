//! Plain values that operations carry: scalar values held as bytes, maps
//! from field names to such values, and record identifiers.

use vstd::prelude::*;
use crate::table::Key;
use crate::table::Table;

verus! {

/// A scalar field value in its encoded form.
pub type Value = Vec<u8>;

/// A field name together with the value written to it.
pub type SerializedField = (String, Value);

/// A map from field names to values.
pub type FieldMap = Table<String, Value>;

/// Lexicographic order on byte strings; a proper prefix comes first.
pub open spec fn bytes_le(a: Seq<u8>, b: Seq<u8>) -> bool
    decreases a.len(),
{
    if a.len() == 0 {
        true
    } else if b.len() == 0 {
        false
    } else if a[0] != b[0] {
        a[0] < b[0]
    } else {
        bytes_le(a.skip(1), b.skip(1))
    }
}

pub proof fn lemma_bytes_le_total(a: Seq<u8>, b: Seq<u8>)
    ensures
        bytes_le(a, b) || bytes_le(b, a),
    decreases a.len(),
{
    if a.len() > 0 && b.len() > 0 && a[0] == b[0] {
        lemma_bytes_le_total(a.skip(1), b.skip(1));
    }
}

pub proof fn lemma_bytes_le_antisymmetric(a: Seq<u8>, b: Seq<u8>)
    requires
        bytes_le(a, b),
        bytes_le(b, a),
    ensures
        a == b,
    decreases a.len(),
{
    if a.len() == 0 || b.len() == 0 {
        assert(a =~= b);
    } else {
        lemma_bytes_le_antisymmetric(a.skip(1), b.skip(1));
        assert(a =~= seq![a[0]] + a.skip(1));
        assert(b =~= seq![b[0]] + b.skip(1));
    }
}

pub proof fn lemma_bytes_le_transitive(a: Seq<u8>, b: Seq<u8>, c: Seq<u8>)
    requires
        bytes_le(a, b),
        bytes_le(b, c),
    ensures
        bytes_le(a, c),
    decreases a.len(),
{
    if a.len() > 0 && b.len() > 0 && c.len() > 0 && a[0] == b[0] && b[0] == c[0] {
        lemma_bytes_le_transitive(a.skip(1), b.skip(1), c.skip(1));
    }
}

/// Decides the lexicographic order of two byte strings.
pub fn bytes_le_exec(a: &Vec<u8>, b: &Vec<u8>) -> (r: bool)
    ensures
        r == bytes_le(a@, b@),
{
    let mut i: usize = 0;
    assert(a@.skip(0) =~= a@ && b@.skip(0) =~= b@);
    while i < a.len() && i < b.len()
        invariant
            i <= a@.len(),
            i <= b@.len(),
            bytes_le(a@, b@) == bytes_le(a@.skip(i as int), b@.skip(i as int)),
        decreases a@.len() - i,
    {
        proof {
            assert(a@.skip(i as int).skip(1) =~= a@.skip(i + 1));
            assert(b@.skip(i as int).skip(1) =~= b@.skip(i + 1));
        }
        if a[i] != b[i] {
            return a[i] < b[i];
        }
        i += 1;
    }
    i == a.len()
}

/// A copy of a field map.
pub fn copy_fields(m: &FieldMap) -> (c: FieldMap)
    requires
        m.wf(),
    ensures
        c.wf(),
        c@ == m@,
{
    let mut c: FieldMap = Table::new();
    let mut i: usize = 0;
    while i < m.entries.len()
        invariant
            m.wf(),
            c.wf(),
            i <= m.entries@.len(),
            c.entries@.len() == i,
            forall|j: int| 0 <= j < i ==> c.key_at(j) == m.key_at(j) && c.value_at(j) == m.value_at(j),
        decreases m.entries@.len() - i,
    {
        let key = m.entries[i].0.copy();
        let value = m.entries[i].1.copy();
        proof {
            if c@.contains_key(key@) {
                let j = c.index_of(key@);
                assert(c.key_at(j) == m.key_at(j));
                assert(m.key_at(j) != m.key_at(i as int));
            }
        }
        c.push(key, value);
        i += 1;
    }
    proof {
        lemma_same_entries(&c, m);
    }
    c
}

/// Two well-formed tables with the same keys and values at the same
/// positions are the same map.
pub proof fn lemma_same_entries(a: &FieldMap, b: &FieldMap)
    requires
        a.wf(),
        b.wf(),
        a.entries@.len() == b.entries@.len(),
        forall|j: int| 0 <= j < a.entries@.len() ==> a.key_at(j) == b.key_at(j) && a.value_at(j) == b.value_at(j),
    ensures
        a@ == b@,
{
    assert forall|k: Seq<char>| a@.contains_key(k) <==> b@.contains_key(k) by {
        if a.has(k) {
            let j = a.index_of(k);
            assert(b.key_at(j) == k);
        }
        if b.has(k) {
            let j = b.index_of(k);
            assert(a.key_at(j) == k);
        }
    }
    assert forall|k: Seq<char>| a@.contains_key(k) implies a@[k] == b@[k] by {
        let j = a.index_of(k);
        a.lemma_entry(j);
        b.lemma_entry(j);
    }
    assert(a@ =~= b@);
}

/// Whether two field maps hold the same fields with the same values.
pub fn same_fields(a: &FieldMap, b: &FieldMap) -> (r: bool)
    requires
        a.wf(),
        b.wf(),
    ensures
        r == (a@ == b@),
{
    if !fields_within(a, b) {
        return false;
    }
    if !fields_within(b, a) {
        return false;
    }
    assert(a@ =~= b@);
    true
}

/// Whether every field of `a` is a field of `b` with the same value.
fn fields_within(a: &FieldMap, b: &FieldMap) -> (r: bool)
    requires
        a.wf(),
        b.wf(),
    ensures
        r == (forall|k: Seq<char>| #[trigger] a@.contains_key(k) ==> b@.contains_key(k) && b@[k] == a@[k]),
{
    let mut i: usize = 0;
    while i < a.entries.len()
        invariant
            a.wf(),
            b.wf(),
            i <= a.entries@.len(),
            forall|j: int| 0 <= j < i ==> b@.contains_key(#[trigger] a.key_at(j)) && b@[a.key_at(j)] == a.value_at(j),
        decreases a.entries@.len() - i,
    {
        proof {
            a.lemma_entry(i as int);
        }
        match b.find(&a.entries[i].0) {
            Some(j) => {
                if !a.entries[i].1.same(&b.entries[j].1) {
                    return false;
                }
            },
            None => {
                return false;
            },
        }
        i += 1;
    }
    proof {
        assert forall|k: Seq<char>| #[trigger] a@.contains_key(k) implies b@.contains_key(k) && b@[k] == a@[k] by {
            let j = a.index_of(k);
            a.lemma_entry(j);
            assert(b@.contains_key(a.key_at(j)));
        }
    }
    true
}

/// The identifier of a replicated record, the same on every node: one value,
/// or one value for each of several named components.
#[derive(Clone, Debug, PartialEq, Eq)]
pub enum SyncID {
    Single(Value),
    Compound(FieldMap),
}

pub enum SyncIdView {
    Single(Seq<u8>),
    Compound(Map<Seq<char>, Seq<u8>>),
}

impl View for SyncID {
    type V = SyncIdView;

    open spec fn view(&self) -> SyncIdView {
        match self {
            SyncID::Single(v) => SyncIdView::Single(v@),
            SyncID::Compound(m) => SyncIdView::Compound(m@),
        }
    }
}

impl Key for SyncID {
    open spec fn valid(&self) -> bool {
        match self {
            SyncID::Single(_) => true,
            SyncID::Compound(m) => m.wf(),
        }
    }

    fn same(&self, other: &Self) -> (b: bool) {
        match (self, other) {
            (SyncID::Single(a), SyncID::Single(b)) => a.same(b),
            (SyncID::Compound(a), SyncID::Compound(b)) => same_fields(a, b),
            _ => false,
        }
    }

    fn copy(&self) -> (c: Self) {
        match self {
            SyncID::Single(v) => SyncID::Single(v.copy()),
            SyncID::Compound(m) => SyncID::Compound(copy_fields(m)),
        }
    }

    fn check(&self) -> (b: bool) {
        match self {
            SyncID::Single(_) => true,
            SyncID::Compound(m) => m.is_wf(),
        }
    }
}

} // verus!
