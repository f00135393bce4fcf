use rooster::base_entity::{
    create_entity_from_row, fields_to_load, map_to, try_create_entity_from_row, try_map_to,
    EntityInterface, Relation,
    RoosterAtomicTypeInterface, RowData,
};

#[derive(Default)]
struct Person {
    id: u32,
    name: String,
}

impl EntityInterface for Person {
    fn field_names(&self) -> &'static [&'static str] {
        static NAMES: &'static [&'static str] = &["id", "name"];
        NAMES
    }

    fn field_by_name(&mut self, f_name: &str) -> Box<&mut dyn RoosterAtomicTypeInterface> {
        match f_name {
            "id" => Box::new(&mut self.id),
            "name" => Box::new(&mut self.name),
            _ => panic!("no such field"),
        }
    }

    fn class_name(&self) -> String {
        String::from("Person")
    }

    fn get_relation_vec(&mut self, _v_name: &str) -> Relation {
        Relation::default()
    }

    fn get_relations(&self) -> &'static [&'static str] {
        &[]
    }
}

fn row(columns: &[&str], values: Vec<Option<Vec<u8>>>) -> RowData {
    RowData { columns: columns.iter().map(|c| c.to_string()).collect(), values }
}

#[test]
fn string_to_bytes_is_utf8() {
    let mut s = String::from("é1");
    assert_eq!(s.to_bytes(), vec![0xC3, 0xA9, b'1']);
}

#[test]
fn string_load_from_bytes_reads_one_char_per_byte() {
    let mut s = String::from("old");
    s.load_from_bytes(vec![0xC3, 0xA9, b'a']);
    assert_eq!(s, "Ã©a");
}

#[test]
fn ascii_text_survives_bytes_round_trip() {
    let mut s = String::from("hello world");
    let bytes = s.to_bytes();
    let mut t = String::new();
    t.load_from_bytes(bytes);
    assert_eq!(t, "hello world");
}

#[test]
fn string_sql_literal_is_quoted_with_spaces() {
    let mut s = String::from("abc");
    assert_eq!(s.to_sql_str(), " 'abc' ");
}

#[test]
fn u32_to_bytes_is_big_endian() {
    let mut x: u32 = 0x0102_0304;
    assert_eq!(x.to_bytes(), vec![1, 2, 3, 4]);
}

#[test]
fn u32_load_from_bytes_reads_little_endian() {
    let mut x: u32 = 0;
    x.load_from_bytes(vec![1, 2, 0, 0]);
    assert_eq!(x, 513);
}

#[test]
fn u32_bytes_round_trip_swaps_then_restores() {
    let mut x: u32 = 1;
    let mut y: u32 = 0;
    y.load_from_bytes(x.to_bytes());
    assert_eq!(y, 16_777_216);
    x.load_from_bytes(y.to_bytes());
    assert_eq!(x, 1);
}

#[test]
fn u32_sql_literal_is_quoted_decimal() {
    let mut x: u32 = 42;
    assert_eq!(x.to_sql_str(), " '42' ");
    let mut z: u32 = 0;
    assert_eq!(z.to_sql_str(), " '0' ");
}

#[test]
fn accepted_inputs() {
    let x: u32 = 0;
    let s = String::new();
    assert!(x.accepts_bytes(&vec![1, 2, 3, 4]));
    assert!(!x.accepts_bytes(&vec![1, 2, 3]));
    assert!(s.accepts_bytes(&vec![1, 2, 3]));
    assert!(x.accepts_cell(&Some(b"123".to_vec())));
    assert!(!x.accepts_cell(&Some(b"x1".to_vec())));
    assert!(!x.accepts_cell(&None));
    assert!(s.accepts_cell(&Some(vec![])));
    assert!(!s.accepts_cell(&None));
}

#[test]
fn load_from_row_cells() {
    let r = row(&["id", "name"], vec![Some(b"17".to_vec()), Some(b"ann".to_vec())]);
    let mut x: u32 = 0;
    x.load_from_row(&r, 0);
    assert_eq!(x, 17);
    let mut s = String::new();
    s.load_from_row(&r, 1);
    assert_eq!(s, "ann");
}

#[test]
fn fields_to_load_skips_unknown_columns() {
    let names: &[&str] = &["id", "name"];
    let columns = vec![String::from("name"), String::from("extra"), String::from("id")];
    assert_eq!(fields_to_load(names, &columns), vec![0, 2]);
}

#[test]
fn entity_from_row() {
    let r = row(
        &["id", "other", "name"],
        vec![Some(b"5".to_vec()), None, Some(b"bob".to_vec())],
    );
    let p: Box<Person> = create_entity_from_row(&r);
    assert_eq!(p.id, 5);
    assert_eq!(p.name, "bob");
}

#[test]
fn entity_from_row_with_null_field_fails() {
    let r = row(&["id", "name"], vec![Some(b"5".to_vec()), None]);
    assert!(try_create_entity_from_row::<Person>(&r).is_none());
}

#[test]
fn entity_from_row_with_bad_number_fails() {
    let r = row(&["id"], vec![Some(b"five".to_vec())]);
    assert!(try_create_entity_from_row::<Person>(&r).is_none());
}

#[test]
fn map_to_copies_text_and_swaps_number_bytes() {
    let mut source: Box<dyn EntityInterface> = Box::new(Person { id: 1, name: String::from("zed") });
    let copy: Person = map_to(&mut source);
    assert_eq!(copy.name, "zed");
    assert_eq!(copy.id, 16_777_216);
}

#[test]
fn related_objects_are_empty() {
    let mut relation = Relation { join_on: String::from("id"), table: String::from("subs") };
    let objs: Vec<Person> = relation.get_objs();
    assert!(objs.is_empty());
    assert_eq!(relation.join_on, "id");
}

#[derive(Default)]
struct Tag {
    name: String,
}

impl EntityInterface for Tag {
    fn field_names(&self) -> &'static [&'static str] {
        static NAMES: &'static [&'static str] = &["name"];
        NAMES
    }

    fn field_by_name(&mut self, f_name: &str) -> Box<&mut dyn RoosterAtomicTypeInterface> {
        match f_name {
            "name" => Box::new(&mut self.name),
            _ => panic!("no such field"),
        }
    }

    fn class_name(&self) -> String {
        String::from("Tag")
    }

    fn get_relation_vec(&mut self, _v_name: &str) -> Relation {
        Relation::default()
    }

    fn get_relations(&self) -> &'static [&'static str] {
        &[]
    }
}

#[test]
fn u32_cells_take_an_optional_sign() {
    let x: u32 = 0;
    assert!(x.accepts_cell(&Some(b"+7".to_vec())));
    assert!(x.accepts_cell(&Some(b"-0".to_vec())));
    assert!(!x.accepts_cell(&Some(b"-1".to_vec())));
    assert!(!x.accepts_cell(&Some(b"+".to_vec())));
    assert!(!x.accepts_cell(&Some(b"".to_vec())));
    assert!(!x.accepts_cell(&Some(b" 7".to_vec())));
    let r = row(&["a", "b"], vec![Some(b"+7".to_vec()), Some(b"-00".to_vec())]);
    let mut y: u32 = 9;
    y.load_from_row(&r, 0);
    assert_eq!(y, 7);
    y.load_from_row(&r, 1);
    assert_eq!(y, 0);
}

#[test]
fn u32_cells_in_range_only() {
    let x: u32 = 0;
    assert!(x.accepts_cell(&Some(b"4294967295".to_vec())));
    assert!(!x.accepts_cell(&Some(b"4294967296".to_vec())));
    let r = row(&["a"], vec![Some(b"4294967295".to_vec())]);
    let mut y: u32 = 0;
    y.load_from_row(&r, 0);
    assert_eq!(y, u32::MAX);
}

#[test]
fn entity_from_row_last_column_of_a_name_wins() {
    let r = row(&["name", "name"], vec![Some(b"first".to_vec()), Some(b"second".to_vec())]);
    let p: Box<Person> = create_entity_from_row(&r);
    assert_eq!(p.name, "second");
    assert_eq!(p.id, 0);
}

#[test]
fn map_to_fails_when_a_field_is_missing_in_the_source() {
    let mut source: Box<dyn EntityInterface> = Box::new(Tag { name: String::from("t") });
    let mapped: Option<Person> = try_map_to(&mut source);
    assert!(mapped.is_none());
}

#[test]
fn map_to_copies_the_fields_it_names() {
    let mut source: Box<dyn EntityInterface> = Box::new(Person { id: 3, name: String::from("ann") });
    let tag: Tag = map_to(&mut source);
    assert_eq!(tag.name, "ann");
}

#[test]
fn try_forms_agree_on_good_inputs() {
    let r = row(&["id", "name"], vec![Some(b"8".to_vec()), Some(b"eve".to_vec())]);
    let p: Box<Person> = try_create_entity_from_row(&r).unwrap();
    assert_eq!(p.id, 8);
    assert_eq!(p.name, "eve");
    let mut source: Box<dyn EntityInterface> = Box::new(Person { id: 2, name: String::from("x") });
    let copy: Person = try_map_to(&mut source).unwrap();
    assert_eq!(copy.name, "x");
    assert_eq!(copy.id, 33_554_432);
}
