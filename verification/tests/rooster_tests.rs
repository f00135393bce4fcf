use rooster::base_entity::{EntityInterface, Relation, RoosterAtomicTypeInterface};
use rooster::config::{Config, RoosterConfig};
use rooster::connection::ConnectionData;
use rooster::insert_statement;
use rooster::query::{eq, SQLZygote};
use rooster::Rooster;

#[derive(Default)]
struct Test {
    id: u32,
    name: String,
    description: String,
}

impl EntityInterface for Test {
    fn field_names(&self) -> &'static [&'static str] {
        static NAMES: &'static [&'static str] = &["id", "name", "description"];
        NAMES
    }

    fn field_by_name(&mut self, f_name: &str) -> Box<&mut dyn RoosterAtomicTypeInterface> {
        match f_name {
            "id" => Box::new(&mut self.id),
            "name" => Box::new(&mut self.name),
            "description" => Box::new(&mut self.description),
            _ => panic!("no such field"),
        }
    }

    fn class_name(&self) -> String {
        String::from("Test")
    }

    fn get_relation_vec(&mut self, _v_name: &str) -> Relation {
        Relation::default()
    }

    fn get_relations(&self) -> &'static [&'static str] {
        &[]
    }
}

fn client() -> Rooster {
    let conn_data = ConnectionData::new(String::from("michal"), String::from("michal"), None, None);
    Rooster::new(conn_data, None)
}

#[test]
fn connection_defaults_and_url() {
    let c = ConnectionData::new(String::from("michal"), String::from("pw"), None, None);
    assert_eq!(c.host, "localhost");
    assert_eq!(c.port, 3306);
    assert_eq!(c.toUrl(), "mysql://michal:pw@localhost:3306/test");
}

#[test]
fn connection_with_host_and_port() {
    let c = ConnectionData::new(
        String::from("u"),
        String::from("p"),
        Some(String::from("db.example")),
        Some(7),
    );
    assert_eq!(c.toUrl(), "mysql://u:p@db.example:7/test");
}

#[test]
fn new_client_is_not_connected() {
    let r = Rooster::new(
        ConnectionData::new(String::from("a"), String::from("b"), None, None),
        Some(RoosterConfig::default()),
    );
    assert!(r.connection_pool().is_none());
    assert_eq!(r.conn_data().u_name, "a");
    assert_eq!(r.select_sql(), Some(String::new()));
}

#[test]
fn select_with_where_renders() {
    let mut r = client();
    let query = eq("name", "'aaa'").or(eq("id", "3"));
    r.get("Test")._where(query);
    assert_eq!(
        r.select_sql(),
        Some(String::from("SELECT * FROM Test  WHERE name = 'aaa' OR id = 3"))
    );
}

#[test]
fn select_without_where_renders() {
    let mut r = client();
    r.get("Test");
    assert_eq!(r.select_sql(), Some(String::from("SELECT * FROM Test ")));
}

#[test]
fn queue_with_update_cannot_be_selected() {
    let mut r = client();
    r.get("Test").update("Test");
    assert_eq!(r.select_sql(), None);
}

#[test]
fn delete_queues_an_operation_that_cannot_be_selected() {
    let mut r = client();
    let _ = r.delete("Test");
    assert_eq!(r.select_sql(), None);
}

#[test]
fn insert_statement_lists_columns_and_values() {
    let values = vec![String::from(" '5' "), String::from(" 'x' ")];
    assert_eq!(
        insert_statement("Test", &["id", "name"], &values),
        "INSERT INTO Test (id ,name ) VALUES ( '5'  , 'x'  )"
    );
}

#[test]
fn insert_statement_removes_colons_from_names() {
    let values = vec![String::from(" 'v' ")];
    assert_eq!(insert_statement("T", &["a:b"], &values), "INSERT INTO T (ab ) VALUES ( 'v'  )");
}

#[test]
fn insert_statement_of_no_fields() {
    assert_eq!(insert_statement("T", &[], &vec![]), "INSERT INTO T () VALUES ()");
}

#[test]
fn insert_template_of_an_entity() {
    let r = client();
    let mut t = Test { id: 5, name: String::from("Some new name"), description: String::from("d") };
    let sql = r.generate_sql_obj_template(Box::new(&mut t));
    assert_eq!(
        sql,
        "INSERT INTO Test (id ,name ,description ) VALUES ( '5'  , 'Some new name'  , 'd'  )"
    );
}
