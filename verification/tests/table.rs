use prisma_crdt::merge::key::OperationId;
use prisma_crdt::merge::key::RecordKey;
use prisma_crdt::merge::record::Record;
use prisma_crdt::resolver::rows_check;
use prisma_crdt::resolver::Rows;
use prisma_crdt::table::Key;
use prisma_crdt::table::Table;
use prisma_crdt::value::bytes_le_exec;
use prisma_crdt::value::copy_fields;
use prisma_crdt::value::same_fields;
use prisma_crdt::value::FieldMap;
use prisma_crdt::value::SyncID;

fn fields(pairs: &[(&str, &[u8])]) -> FieldMap {
    let mut map: FieldMap = Table::new();
    for (name, value) in pairs {
        map.insert(name.to_string(), value.to_vec());
    }
    map
}

#[test]
fn entries_of_a_table() {
    let mut table: Table<String, Vec<u8>> = Table::new();
    assert_eq!(table.len(), 0);
    assert_eq!(table.pop(), None);
    table.push("a".to_string(), vec![1]);
    table.push("b".to_string(), vec![2]);
    table.insert("c".to_string(), vec![3]);
    table.insert("a".to_string(), vec![4]);
    assert_eq!(table.len(), 3);
    let at = |t: &Table<String, Vec<u8>>, k: &str| t.find(&k.to_string()).map(|i| t.entries[i].1.clone());
    assert_eq!(at(&table, "a"), Some(vec![4]));
    assert_eq!(at(&table, "b"), Some(vec![2]));
    assert_eq!(at(&table, "d"), None);
    let b = table.find(&"b".to_string()).unwrap();
    table.replace(b, vec![5]);
    assert_eq!(at(&table, "b"), Some(vec![5]));
    let c = table.find(&"c".to_string()).unwrap();
    assert_eq!(table.remove(c), ("c".to_string(), vec![3]));
    assert_eq!(at(&table, "c"), None);
    assert_eq!(table.len(), 2);
    assert!(table.is_wf());
    let taken = table.pop().unwrap();
    assert_eq!(at(&table, &taken.0), None);
    assert_eq!(table.len(), 1);
}

#[test]
fn maps_of_fields_are_compared_without_their_order() {
    let ab = fields(&[("a", &[1]), ("b", &[2])]);
    let ba = fields(&[("b", &[2]), ("a", &[1])]);
    assert!(same_fields(&ab, &ba));
    assert!(!same_fields(&ab, &fields(&[("a", &[1])])));
    assert!(!same_fields(&fields(&[("a", &[1])]), &ab));
    assert!(!same_fields(&ab, &fields(&[("a", &[1]), ("b", &[3])])));
    assert!(!same_fields(&ab, &fields(&[("a", &[1]), ("c", &[2])])));
    assert!(same_fields(&fields(&[]), &fields(&[])));
    assert_eq!(copy_fields(&ab), ab);
    assert!(SyncID::Compound(ab.clone()).same(&SyncID::Compound(ba)));
    assert!(!SyncID::Compound(ab.clone()).same(&SyncID::Single(vec![1])));
    assert!(SyncID::Single(vec![1]).same(&SyncID::Single(vec![1])));
    assert!(!SyncID::Single(vec![1]).same(&SyncID::Single(vec![1, 0])));
    assert_eq!(SyncID::Compound(ab.clone()).copy(), SyncID::Compound(ab));
}

#[test]
fn keys_of_records() {
    let row = |m: &str, id: u8| RecordKey::Row { model: m.to_string(), id: SyncID::Single(vec![id]) };
    let edge = |r: &str, a: u8, b: u8| RecordKey::Edge {
        relation: r.to_string(),
        item: SyncID::Single(vec![a]),
        group: SyncID::Single(vec![b]),
    };
    assert!(row("Tag", 1).same(&row("Tag", 1)));
    assert!(!row("Tag", 1).same(&row("Tag", 2)));
    assert!(!row("Tag", 1).same(&row("File", 1)));
    assert!(edge("R", 1, 2).same(&edge("R", 1, 2)));
    assert!(!edge("R", 1, 2).same(&edge("R", 2, 1)));
    assert!(!edge("R", 1, 2).same(&edge("S", 1, 2)));
    assert!(!edge("R", 1, 2).same(&row("R", 1)));
    assert_eq!(edge("R", 1, 2).copy(), edge("R", 1, 2));
    assert_eq!(row("R", 1).copy(), row("R", 1));
    assert!(row("R", 1).check());
}

#[test]
fn order_of_bytes_and_of_operations() {
    assert!(bytes_le_exec(&vec![], &vec![]));
    assert!(bytes_le_exec(&vec![], &vec![0]));
    assert!(!bytes_le_exec(&vec![0], &vec![]));
    assert!(bytes_le_exec(&vec![1, 2], &vec![1, 2]));
    assert!(bytes_le_exec(&vec![1, 2], &vec![1, 3]));
    assert!(!bytes_le_exec(&vec![1, 3], &vec![1, 2]));
    assert!(bytes_le_exec(&vec![1, 2], &vec![1, 2, 0]));
    assert!(bytes_le_exec(&vec![1, 255], &vec![2]));
    let id = |node: &[u8], timestamp: u64| OperationId { node: node.to_vec(), timestamp };
    assert!(id(&[9], 1).le(&id(&[0], 2)));
    assert!(!id(&[0], 2).le(&id(&[9], 1)));
    assert!(id(&[1], 2).le(&id(&[1, 0], 2)));
    assert!(id(&[1], 2).le(&id(&[1], 2)));
    assert!(id(&[1], 2).same(&id(&[1], 2)));
    assert!(!id(&[1], 2).same(&id(&[1], 3)));
    assert!(!id(&[1], 2).same(&id(&[2], 2)));
}

#[test]
fn changes_to_a_record() {
    let mut record = Record::new();
    assert!(!record.is_live());
    record.create_with(fields(&[("f", &[1]), ("g", &[1])]), 10);
    assert!(record.is_live());
    record.update("f".to_string(), vec![2], 12);
    record.update("f".to_string(), vec![3], 11);
    record.update("g".to_string(), vec![4], 10);
    assert_eq!(record.value(&"f".to_string()), Some(&vec![2]));
    assert_eq!(record.value(&"g".to_string()), Some(&vec![1]));
    record.put("g".to_string(), vec![5], 1, true);
    assert_eq!(record.value(&"g".to_string()), Some(&vec![5]));
    record.put("g".to_string(), vec![6], 1, false);
    assert_eq!(record.value(&"g".to_string()), Some(&vec![5]));
    record.delete(12);
    assert!(!record.is_live());
    assert!(record.is_stale(11));
    assert!(!record.is_stale(12));
    assert_eq!(record.value(&"f".to_string()), Some(&vec![2]));
    assert_eq!(record.value(&"g".to_string()), None);
    record.delete(5);
    assert_eq!(record.tombstone, Some(12));
    record.create_with(fields(&[("h", &[1])]), 11);
    assert!(!record.is_live());
    assert_eq!(record.value(&"h".to_string()), None);
    record.create_with(fields(&[("h", &[1])]), 12);
    assert!(record.is_live());
    assert_eq!(record.value(&"h".to_string()), Some(&vec![1]));
}

#[test]
fn records_of_a_node_that_name_a_field_twice() {
    let mut rows: Rows = Table::new();
    rows.push("Tag".to_string(), vec![fields(&[("a", &[1])]), fields(&[])]);
    assert!(rows_check(&rows));
    let mut twice: FieldMap = Table::new();
    twice.entries.push(("f".to_string(), vec![1]));
    twice.entries.push(("f".to_string(), vec![2]));
    rows.push("File".to_string(), vec![fields(&[("a", &[1])]), twice]);
    assert!(!rows_check(&rows));
    let mut models_twice: Rows = Table::new();
    models_twice.entries.push(("Tag".to_string(), vec![]));
    models_twice.entries.push(("Tag".to_string(), vec![]));
    assert!(!rows_check(&models_twice));
}
