//! Rooster: a small query builder and entity mapper for MySQL.
//!
//! A `Rooster` client queues operations (`get`, `_where`, `update`,
//! `delete`); the queue of a `SELECT` renders as SQL text, and entities
//! render as `INSERT` statements.
pub mod base_entity;
pub mod config;
pub mod connection;
pub mod mysql_types;
pub mod query;
pub mod text;

use vstd::prelude::*;
use mysql::Pool;

use crate::base_entity::{EntityInterface, names_view, strings_view};
use crate::config::{Config, RoosterConfig};
use crate::connection::ConnectionData;
use crate::mysql_types::{empty_params, table_name_params};
use crate::query::{Operation, Q, SQLOperation, SQLZygote};
use crate::text::{drop_last_char, push_without_char, without_char};

verus! {

/// A client: where to connect, its pool of connections once connected, its
/// settings and the queue of operations of the statement being built.
pub struct Rooster {
    conn_data: ConnectionData,
    connection_pool: Option<Pool>,
    config: RoosterConfig,
    queue: Vec<Operation>,
}

/// The items, each followed by `" ,"`, one after the other.
pub open spec fn with_separators(items: Seq<Seq<char>>) -> Seq<char>
    decreases items.len(),
{
    if items.len() == 0 {
        Seq::empty()
    } else {
        with_separators(items.drop_last()) + items.last() + " ,"@
    }
}

/// The `INSERT` statement of an entity of class `class` with the given field
/// names and the SQL literals of their values: the names and the values are
/// each listed with `" ,"` after every item and the last character dropped;
/// colons are removed from the names.
pub open spec fn spec_insert_sql(class: Seq<char>, names: Seq<Seq<char>>, values: Seq<Seq<char>>) -> Seq<char> {
    "INSERT INTO "@ + class + " ("@ + without_char(drop_last_char(with_separators(names)), ':')
        + ") VALUES ("@ + drop_last_char(with_separators(values)) + ")"@
}

/// The operations that a `SELECT` can run: table selections and `WHERE`
/// clauses that carry a query.
pub open spec fn runnable(ops: Seq<Operation>) -> bool {
    forall|i: int|
        0 <= i < ops.len() ==> match #[trigger] ops[i].operation {
            SQLOperation::SELECT(_) => true,
            SQLOperation::WHERE => ops[i].query matches Some(q) && q.wf(),
            _ => false,
        }
}

/// The SQL text of a queue of runnable operations: `SELECT * FROM <table> `
/// for each selection and ` WHERE <condition>` for each clause, in order.
pub open spec fn spec_select_sql(ops: Seq<Operation>) -> Seq<char>
    decreases ops.len(),
{
    if ops.len() == 0 {
        Seq::empty()
    } else {
        let prev = spec_select_sql(ops.drop_last());
        match ops.last().operation {
            SQLOperation::SELECT(t) => prev + "SELECT * FROM "@ + t@ + " "@,
            SQLOperation::WHERE => prev + " WHERE "@ + ops.last().query->0.sql(),
            _ => prev,
        }
    }
}

/// The `INSERT` statement of an entity, from its class name, its field names
/// and the SQL literals of the field values.
pub fn insert_statement(class_name: &str, field_names: &[&str], values: &Vec<String>) -> (r: String)
    ensures
        r@ == spec_insert_sql(class_name@, names_view(field_names@), strings_view(values@)),
{
    let mut columns_template = String::new();
    let mut i: usize = 0;
    while i < field_names.len()
        invariant
            i <= field_names.len(),
            columns_template@ == with_separators(names_view(field_names@.subrange(0, i as int))),
        decreases field_names.len() - i,
    {
        columns_template.append(field_names[i]);
        columns_template.append(" ,");
        i = i + 1;
        assert(names_view(field_names@.subrange(0, i as int)).drop_last() =~= names_view(
            field_names@.subrange(0, i - 1),
        ));
    }
    assert(field_names@.subrange(0, i as int) =~= field_names@);
    let mut values_template = String::new();
    let mut j: usize = 0;
    while j < values.len()
        invariant
            j <= values.len(),
            values_template@ == with_separators(strings_view(values@.subrange(0, j as int))),
        decreases values.len() - j,
    {
        values_template.append(values[j].as_str());
        values_template.append(" ,");
        j = j + 1;
        assert(strings_view(values@.subrange(0, j as int)).drop_last() =~= strings_view(
            values@.subrange(0, j - 1),
        ));
    }
    assert(values@.subrange(0, j as int) =~= values@);
    columns_template.pop();
    values_template.pop();
    let mut raw_sql = String::from_str("INSERT INTO ");
    raw_sql.append(class_name);
    raw_sql.append(" (");
    push_without_char(&mut raw_sql, columns_template.as_str(), ':');
    raw_sql.append(") VALUES (");
    raw_sql.append(values_template.as_str());
    raw_sql.append(")");
    raw_sql
}

impl Rooster {
    /// Where the client connects.
    pub closed spec fn spec_conn_data(&self) -> ConnectionData {
        self.conn_data
    }

    /// The settings of the client.
    pub closed spec fn spec_config(&self) -> RoosterConfig {
        self.config
    }

    /// The pool of connections, once connected.
    pub closed spec fn spec_pool(&self) -> Option<Pool> {
        self.connection_pool
    }

    /// The queued operations, oldest first.
    pub closed spec fn spec_queue(&self) -> Seq<Operation> {
        self.queue@
    }

    /// A client that is not connected yet and has nothing queued; the
    /// settings default when none are given.
    pub fn new(conn_data: ConnectionData, config: Option<RoosterConfig>) -> (r: Rooster)
        ensures
            r.spec_conn_data() == conn_data,
            config matches Some(c) ==> r.spec_config() == c,
            config is None ==> r.spec_config().experimental(),
            r.spec_pool() is None,
            r.spec_queue() == Seq::<Operation>::empty(),
    {
        Rooster {
            conn_data,
            config: config.unwrap_or(RoosterConfig::default()),
            connection_pool: None,
            queue: Vec::new(),
        }
    }

    /// Where the client connects.
    pub fn conn_data(&self) -> (r: &ConnectionData)
        ensures
            *r == self.spec_conn_data(),
    {
        &self.conn_data
    }

    /// The pool of connections, once connected.
    pub fn connection_pool(&self) -> (r: &Option<Pool>)
        ensures
            *r == self.spec_pool(),
    {
        &self.connection_pool
    }

    /// Stores the pool of connections that connecting opened.
    pub fn set_connection_pool(&mut self, pool: Pool)
        ensures
            final(self).spec_pool() == Some(pool),
            final(self).spec_conn_data() == old(self).spec_conn_data(),
            final(self).spec_config() == old(self).spec_config(),
            final(self).spec_queue() == old(self).spec_queue(),
    {
        self.connection_pool = Some(pool);
    }

    /// The `INSERT` statement of an entity: into the table of its class
    /// name, its field names as the columns and the SQL literal of each
    /// field's value as the values, in the same order, as `insert_statement`
    /// renders them. The fields keep their values.
    pub fn generate_sql_obj_template(&self, entity: Box<&mut dyn EntityInterface>) -> (r: String)
        ensures
            exists|values: Seq<Seq<char>>|
                {
                    &&& values.len() == old(*entity).spec_field_names().len()
                    &&& forall|i: int|
                        0 <= i < values.len() ==> #[trigger] values[i] == old(*entity).spec_field_sql(
                            old(*entity).spec_field_names()[i],
                        )
                    &&& r@ == spec_insert_sql(
                        old(*entity).spec_class_name(),
                        old(*entity).spec_field_names(),
                        values,
                    )
                },
            forall|n: Seq<char>|
                #[trigger] final(*entity).spec_field_bytes(n) == old(*entity).spec_field_bytes(n),
    {
        let ghost e0 = entity;
        let mut entity = entity;
        let names = entity.field_names();
        let mut values: Vec<String> = Vec::new();
        let mut i: usize = 0;
        while i < names.len()
            invariant
                i <= names.len(),
                values.len() == i,
                ({
                    &&& names_view(names@) == e0.spec_field_names()
                    &&& entity.spec_field_names() == e0.spec_field_names()
                    &&& entity.spec_class_name() == e0.spec_class_name()
                    &&& forall|n: Seq<char>| #[trigger] entity.spec_field_sql(n) == e0.spec_field_sql(n)
                    &&& forall|n: Seq<char>| #[trigger] entity.spec_field_bytes(n) == e0.spec_field_bytes(n)
                    &&& forall|j: int|
                        0 <= j < i ==> #[trigger] values@[j]@ == e0.spec_field_sql(names@[j]@)
                }),
            decreases names.len() - i,
        {
            proof {
                assert(names_view(names@)[i as int] == names@[i as int]@);
            }
            let mut field = entity.field_by_name(names[i]);
            let value = field.to_sql_str();
            values.push(value);
            i = i + 1;
        }
        let class_name = entity.class_name();
        let raw_sql = insert_statement(class_name.as_str(), names, &values);
        proof {
            let vals = strings_view(values@);
            assert forall|k: int| 0 <= k < vals.len() implies #[trigger] vals[k] == e0.spec_field_sql(
                e0.spec_field_names()[k],
            ) by {
                assert(values@[k]@ == e0.spec_field_sql(names@[k]@));
                assert(names_view(names@)[k] == names@[k]@);
            }
        }
        raw_sql
    }

    /// The SQL text of the queued `SELECT`, or `None` when the queue holds an
    /// operation that a `SELECT` cannot run.
    pub fn select_sql(&self) -> (r: Option<String>)
        ensures
            r is Some <==> runnable(self.spec_queue()),
            r matches Some(s) ==> s@ == spec_select_sql(self.spec_queue()),
    {
        let mut raw = String::new();
        let mut i: usize = 0;
        while i < self.queue.len()
            invariant
                i <= self.queue.len(),
                runnable(self.queue@.subrange(0, i as int)),
                raw@ == spec_select_sql(self.queue@.subrange(0, i as int)),
            decreases self.queue.len() - i,
        {
            let oper = &self.queue[i];
            let ghost prefix = self.queue@.subrange(0, i as int);
            let ghost next = self.queue@.subrange(0, i + 1);
            assert(next.drop_last() =~= prefix);
            match &oper.operation {
                SQLOperation::SELECT(table_name) => {
                    raw.append("SELECT * FROM ");
                    raw.append(table_name.as_str());
                    raw.append(" ");
                },
                SQLOperation::WHERE => {
                    match &oper.query {
                        Some(q) => {
                            if !q.renderable() {
                                return None;
                            }
                            let where_raw = q.to_sql();
                            raw.append(" WHERE ");
                            raw.append(where_raw.as_str());
                        },
                        None => {
                            return None;
                        },
                    }
                },
                _ => {
                    return None;
                },
            }
            i = i + 1;
            assert(runnable(next)) by {
                assert forall|k: int| 0 <= k < next.len() implies match #[trigger] next[k].operation {
                    SQLOperation::SELECT(_) => true,
                    SQLOperation::WHERE => next[k].query matches Some(q) && q.wf(),
                    _ => false,
                } by {
                    if k < i - 1 {
                        assert(next[k] == prefix[k]);
                    }
                }
            }
        }
        assert(self.queue@.subrange(0, i as int) =~= self.queue@);
        Some(raw)
    }
}

/// A queue of one selection of table `t` and then one `WHERE` clause with
/// query `q` can run, and renders as `SELECT * FROM t ` followed by
/// ` WHERE ` and the text of `q`.
pub proof fn lemma_select_where_sql(ops: Seq<Operation>, t: String, q: Q)
    requires
        ops.len() == 2,
        ops[0].operation == SQLOperation::SELECT(t),
        ops[0].query is None,
        ops[1].operation == SQLOperation::WHERE,
        ops[1].query == Some(q),
        q.wf(),
    ensures
        runnable(ops),
        spec_select_sql(ops) == "SELECT * FROM "@ + t@ + " "@ + " WHERE "@ + q.sql(),
{
    let first = ops.drop_last();
    assert(first.drop_last() =~= Seq::<Operation>::empty());
    assert(first.last() == ops[0]);
    assert(first.len() == 1);
    assert(spec_select_sql(first.drop_last()) == Seq::<char>::empty());
    assert(spec_select_sql(first) =~= "SELECT * FROM "@ + t@ + " "@);
    assert(spec_select_sql(ops) =~= "SELECT * FROM "@ + t@ + " "@ + " WHERE "@ + q.sql());
}

/// The queue `after` is `before` with one more operation at the end.
pub open spec fn one_more(before: Seq<Operation>, after: Seq<Operation>) -> bool {
    &&& after.len() == before.len() + 1
    &&& after.drop_last() == before
}

impl SQLZygote for Rooster {
    /// Queues a selection of every column of the table `table_name`.
    fn get(&mut self, table_name: &str) -> (r: &mut Self)
        ensures
            *final(r) == *final(self),
            one_more(old(self).spec_queue(), r.spec_queue()),
            r.spec_queue().last().operation matches SQLOperation::SELECT(t) && t@ == table_name@,
            r.spec_queue().last().query is None,
            r.spec_conn_data() == old(self).spec_conn_data(),
            r.spec_config() == old(self).spec_config(),
            r.spec_pool() == old(self).spec_pool(),
    {
        self.queue.push(
            Operation {
                operation: SQLOperation::SELECT(String::from_str(table_name)),
                params: empty_params(),
                query: None,
            },
        );
        assert(self.queue@.drop_last() =~= old(self).queue@);
        self
    }

    /// Queues a `WHERE` clause with the given conditions.
    fn _where(&mut self, conditions: Q) -> (r: &mut Self)
        ensures
            *final(r) == *final(self),
            one_more(old(self).spec_queue(), r.spec_queue()),
            r.spec_queue().last().operation == SQLOperation::WHERE,
            r.spec_queue().last().query == Some(conditions),
            r.spec_conn_data() == old(self).spec_conn_data(),
            r.spec_config() == old(self).spec_config(),
            r.spec_pool() == old(self).spec_pool(),
    {
        self.queue.push(
            Operation { operation: SQLOperation::WHERE, params: empty_params(), query: Some(conditions) },
        );
        assert(self.queue@.drop_last() =~= old(self).queue@);
        self
    }

    /// Queues an operation on the table `table_name`, with the table's name
    /// as a named parameter; it is queued as an `UPDATE`.
    fn delete(&mut self, table_name: &str) -> (r: &Self)
        ensures
            *r == *final(self),
            one_more(old(self).spec_queue(), r.spec_queue()),
            r.spec_queue().last().operation == SQLOperation::UPDATE,
            r.spec_queue().last().query is None,
            r.spec_conn_data() == old(self).spec_conn_data(),
            r.spec_config() == old(self).spec_config(),
            r.spec_pool() == old(self).spec_pool(),
    {
        self.queue.push(
            Operation {
                operation: SQLOperation::UPDATE,
                params: table_name_params(table_name),
                query: None,
            },
        );
        assert(self.queue@.drop_last() =~= old(self).queue@);
        self
    }

    /// Queues an `UPDATE` of the table `table_name`, with the table's name as
    /// a named parameter.
    fn update(&mut self, table_name: &str) -> (r: &mut Self)
        ensures
            *final(r) == *final(self),
            one_more(old(self).spec_queue(), r.spec_queue()),
            r.spec_queue().last().operation == SQLOperation::UPDATE,
            r.spec_queue().last().query is None,
            r.spec_conn_data() == old(self).spec_conn_data(),
            r.spec_config() == old(self).spec_config(),
            r.spec_pool() == old(self).spec_pool(),
    {
        self.queue.push(
            Operation {
                operation: SQLOperation::UPDATE,
                params: table_name_params(table_name),
                query: None,
            },
        );
        assert(self.queue@.drop_last() =~= old(self).queue@);
        self
    }
}

} // verus!
