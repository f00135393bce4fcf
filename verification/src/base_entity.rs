//! Entities: records whose fields map to the columns of a table, the field
//! values that the library can move between rows, bytes and SQL text, and the
//! loading of an entity from a fetched row.
use vstd::prelude::*;

use crate::mysql_types::{mysql_u32_from_text, u32_from_text};
use crate::text::{decimal, push_decimal};

verus! {

/// One fetched row of the text protocol: the column names and, per column,
/// the cell's bytes, `None` for SQL `NULL`.
pub struct RowData {
    pub columns: Vec<String>,
    pub values: Vec<Option<Vec<u8>>>,
}

/// The bytes of a cell, `None` for `NULL`.
pub open spec fn cell_view(c: Option<Vec<u8>>) -> Option<Seq<u8>> {
    match c {
        Some(b) => Some(b@),
        None => None,
    }
}

/// A value of an entity's field.
///
/// `accepts_bytes` and `accepts_cell` say which inputs `load_from_bytes` and
/// `load_from_row` take; on any other input those would have no value to
/// store. The value is described by the bytes that `to_bytes` gives and the
/// SQL literal that `to_sql_str` gives.
pub trait RoosterAtomicTypeInterface {
    /// The byte sequences that `load_from_bytes` takes.
    spec fn spec_accepts_bytes(&self, bytes: Seq<u8>) -> bool;

    /// The cells that `load_from_row` takes.
    spec fn spec_accepts_cell(&self, cell: Option<Seq<u8>>) -> bool;

    /// The bytes that `to_bytes` gives for the value.
    spec fn spec_bytes(&self) -> Seq<u8>;

    /// The bytes that the value gives after `load_from_bytes(bytes)`.
    spec fn spec_loaded_bytes(&self, bytes: Seq<u8>) -> Seq<u8>;

    /// The bytes that the value gives after loading the cell `cell`.
    spec fn spec_cell_bytes(&self, cell: Option<Seq<u8>>) -> Seq<u8>;

    /// The SQL literal that `to_sql_str` gives for the value.
    spec fn spec_sql_str(&self) -> Seq<char>;

    fn accepts_bytes(&self, bytes: &Vec<u8>) -> (r: bool)
        ensures
            r == self.spec_accepts_bytes(bytes@),
    ;

    fn accepts_cell(&self, cell: &Option<Vec<u8>>) -> (r: bool)
        ensures
            r == self.spec_accepts_cell(cell_view(*cell)),
    ;

    /// The bytes of the value; the value stays as it was.
    fn to_bytes(&mut self) -> (r: Vec<u8>)
        ensures
            r@ == old(self).spec_bytes(),
            final(self).spec_bytes() == old(self).spec_bytes(),
            final(self).spec_sql_str() == old(self).spec_sql_str(),
    ;

    /// Replaces the value with the one that `bytes` give.
    fn load_from_bytes(&mut self, bytes: Vec<u8>)
        requires
            old(self).spec_accepts_bytes(bytes@),
        ensures
            final(self).spec_bytes() == old(self).spec_loaded_bytes(bytes@),
    ;

    /// Replaces the value with the one that the cell at `idx` gives.
    fn load_from_row(&mut self, row: &RowData, idx: usize)
        requires
            idx < row.values.len(),
            old(self).spec_accepts_cell(cell_view(row.values[idx as int])),
        ensures
            final(self).spec_bytes() == old(self).spec_cell_bytes(cell_view(row.values[idx as int])),
    ;

    /// The value as a SQL literal; the value stays as it was.
    fn to_sql_str(&mut self) -> (r: String)
        ensures
            r@ == old(self).spec_sql_str(),
            final(self).spec_bytes() == old(self).spec_bytes(),
            final(self).spec_sql_str() == old(self).spec_sql_str(),
    ;
}

/// Each byte read as the character with that code (`byte as char`).
pub open spec fn latin1_chars(bytes: Seq<u8>) -> Seq<char> {
    bytes.map_values(|b: u8| b as char)
}

/// The SQL literal of a text: the text between single quotes, with a space
/// on each side.
pub open spec fn quoted(s: Seq<char>) -> Seq<char> {
    " '"@ + s + "' "@
}

/// The four bytes of `x`, most significant first.
pub open spec fn be_bytes(x: u32) -> Seq<u8> {
    seq![
        (x / 0x100_0000) as u8,
        (x / 0x1_0000 % 0x100) as u8,
        (x / 0x100 % 0x100) as u8,
        (x % 0x100) as u8,
    ]
}

/// The number that four bytes spell least significant first.
pub open spec fn from_le(bytes: Seq<u8>) -> int {
    bytes[3] * 0x100_0000 + bytes[2] * 0x1_0000 + bytes[1] * 0x100 + bytes[0]
}

impl RoosterAtomicTypeInterface for String {
    open spec fn spec_accepts_bytes(&self, bytes: Seq<u8>) -> bool {
        true
    }

    open spec fn spec_accepts_cell(&self, cell: Option<Seq<u8>>) -> bool {
        cell is Some
    }

    open spec fn spec_bytes(&self) -> Seq<u8> {
        vstd::utf8::encode_utf8(self@)
    }

    open spec fn spec_loaded_bytes(&self, bytes: Seq<u8>) -> Seq<u8> {
        vstd::utf8::encode_utf8(latin1_chars(bytes))
    }

    open spec fn spec_cell_bytes(&self, cell: Option<Seq<u8>>) -> Seq<u8> {
        match cell {
            Some(b) => vstd::utf8::encode_utf8(latin1_chars(b)),
            None => Seq::empty(),
        }
    }

    open spec fn spec_sql_str(&self) -> Seq<char> {
        quoted(self@)
    }

    fn accepts_bytes(&self, bytes: &Vec<u8>) -> (r: bool) {
        true
    }

    fn accepts_cell(&self, cell: &Option<Vec<u8>>) -> (r: bool) {
        cell.is_some()
    }

    /// The UTF-8 encoding of the text.
    fn to_bytes(&mut self) -> (r: Vec<u8>)
        ensures
            r@ == vstd::utf8::encode_utf8(old(self)@),
            *final(self) == *old(self),
    {
        self.as_str().as_bytes_vec()
    }

    /// Replaces the text with the bytes read one character per byte.
    fn load_from_bytes(&mut self, bytes: Vec<u8>)
        ensures
            final(self)@ == latin1_chars(bytes@),
    {
        *self = String::new();
        let mut i: usize = 0;
        while i < bytes.len()
            invariant
                i <= bytes.len(),
                self@ == latin1_chars(bytes@.subrange(0, i as int)),
            decreases bytes.len() - i,
        {
            let b = bytes[i];
            self.push(b as char);
            i = i + 1;
            assert(self@ =~= latin1_chars(bytes@.subrange(0, i as int)));
        }
        assert(bytes@.subrange(0, i as int) =~= bytes@);
    }

    /// Replaces the text with the cell's bytes, read one character per byte.
    fn load_from_row(&mut self, row: &RowData, idx: usize)
        ensures
            final(self)@ == latin1_chars(cell_view(row.values[idx as int])->0),
    {
        match &row.values[idx] {
            Some(bytes) => self.load_from_bytes(bytes.clone()),
            None => {},
        }
    }

    /// The text as a quoted SQL literal.
    fn to_sql_str(&mut self) -> (r: String)
        ensures
            r@ == quoted(old(self)@),
            *final(self) == *old(self),
    {
        let mut r = String::from_str(" '");
        r.append(self.as_str());
        r.append("' ");
        r
    }
}

impl RoosterAtomicTypeInterface for u32 {
    open spec fn spec_accepts_bytes(&self, bytes: Seq<u8>) -> bool {
        bytes.len() == 4
    }

    open spec fn spec_accepts_cell(&self, cell: Option<Seq<u8>>) -> bool {
        cell matches Some(b) && mysql_u32_from_text(b) is Some
    }

    open spec fn spec_bytes(&self) -> Seq<u8> {
        be_bytes(*self)
    }

    open spec fn spec_loaded_bytes(&self, bytes: Seq<u8>) -> Seq<u8> {
        be_bytes(from_le(bytes) as u32)
    }

    open spec fn spec_cell_bytes(&self, cell: Option<Seq<u8>>) -> Seq<u8> {
        match cell {
            Some(b) => match mysql_u32_from_text(b) {
                Some(v) => be_bytes(v),
                None => Seq::empty(),
            },
            None => Seq::empty(),
        }
    }

    open spec fn spec_sql_str(&self) -> Seq<char> {
        quoted(decimal(*self as nat))
    }

    fn accepts_bytes(&self, bytes: &Vec<u8>) -> (r: bool) {
        bytes.len() == 4
    }

    fn accepts_cell(&self, cell: &Option<Vec<u8>>) -> (r: bool) {
        match cell {
            Some(b) => u32_from_text(b).is_some(),
            None => false,
        }
    }

    /// The four bytes of the number, most significant first.
    fn to_bytes(&mut self) -> (r: Vec<u8>)
        ensures
            r@ == be_bytes(*old(self)),
            *final(self) == *old(self),
    {
        let x = *self;
        let mut r: Vec<u8> = Vec::new();
        r.push((x / 0x100_0000) as u8);
        r.push((x / 0x1_0000 % 0x100) as u8);
        r.push((x / 0x100 % 0x100) as u8);
        r.push((x % 0x100) as u8);
        assert(r@ =~= be_bytes(x));
        r
    }

    /// Replaces the number with the one that the four bytes spell least
    /// significant first.
    fn load_from_bytes(&mut self, bytes: Vec<u8>)
        ensures
            *final(self) == from_le(bytes@),
    {
        let b0 = bytes[0] as u32;
        let b1 = bytes[1] as u32;
        let b2 = bytes[2] as u32;
        let b3 = bytes[3] as u32;
        *self = b3 * 0x100_0000 + b2 * 0x1_0000 + b1 * 0x100 + b0;
    }

    /// Replaces the number with the one that the cell's text spells.
    fn load_from_row(&mut self, row: &RowData, idx: usize)
        ensures
            Some(*final(self)) == mysql_u32_from_text(cell_view(row.values[idx as int])->0),
    {
        match &row.values[idx] {
            Some(bytes) => match u32_from_text(bytes) {
                Some(v) => {
                    *self = v;
                },
                None => {},
            },
            None => {},
        }
    }

    /// The number in decimal as a quoted SQL literal.
    fn to_sql_str(&mut self) -> (r: String)
        ensures
            r@ == quoted(decimal(*old(self) as nat)),
            *final(self) == *old(self),
    {
        let mut r = String::from_str(" '");
        push_decimal(&mut r, *self as u64);
        r.append("' ");
        r
    }
}

/// A record that maps to a row of a table: its field names, access to each
/// field's value by name, its class name (the table) and its relations.
///
/// The spec functions describe an implementation; the contracts below are
/// the obligations of every implementation: the field names, the class name,
/// and which bytes and cells each field takes and what loading them gives,
/// stay as they are whatever is done to the fields; `field_by_name` is asked
/// only for a field name and returns the field of that name, whose later
/// changes change no other field.
///
/// Every spec function has a default body, so that implementations written
/// outside Verus (such as the ones the `RoosterEntity!` macro writes) compile;
/// code that is generic over the trait never reads those bodies. Such an
/// implementation is not checked against the obligations: a struct whose
/// fields are a `String` or a `u32` each, with `field_names` listing them and
/// `field_by_name` returning the field of that name, keeps them.
pub trait EntityInterface {
    /// The names of the fields.
    closed spec fn spec_field_names(&self) -> Seq<Seq<char>> {
        vstd::pervasive::arbitrary()
    }

    /// The class name, which names the table.
    closed spec fn spec_class_name(&self) -> Seq<char> {
        vstd::pervasive::arbitrary()
    }

    /// Whether the field named `name` takes `bytes` in `load_from_bytes`.
    closed spec fn spec_field_accepts_bytes(&self, name: Seq<char>, bytes: Seq<u8>) -> bool {
        vstd::pervasive::arbitrary()
    }

    /// Whether the field named `name` takes `cell` in `load_from_row`.
    closed spec fn spec_field_accepts_cell(&self, name: Seq<char>, cell: Option<Seq<u8>>) -> bool {
        vstd::pervasive::arbitrary()
    }

    /// The bytes that the field named `name` gives in `to_bytes`.
    closed spec fn spec_field_bytes(&self, name: Seq<char>) -> Seq<u8> {
        vstd::pervasive::arbitrary()
    }

    /// The bytes that the field named `name` gives after loading `bytes`.
    closed spec fn spec_field_loaded_bytes(&self, name: Seq<char>, bytes: Seq<u8>) -> Seq<u8> {
        vstd::pervasive::arbitrary()
    }

    /// The bytes that the field named `name` gives after loading `cell`.
    closed spec fn spec_field_cell_bytes(&self, name: Seq<char>, cell: Option<Seq<u8>>) -> Seq<u8> {
        vstd::pervasive::arbitrary()
    }

    /// The SQL literal that the field named `name` gives in `to_sql_str`.
    closed spec fn spec_field_sql(&self, name: Seq<char>) -> Seq<char> {
        vstd::pervasive::arbitrary()
    }

    fn field_names(&self) -> (r: &'static [&'static str])
        ensures
            names_view(r@) == self.spec_field_names(),
    ;

    fn field_by_name(&mut self, f_name: &str) -> (r: Box<&mut dyn RoosterAtomicTypeInterface>)
        requires
            old(self).spec_field_names().contains(f_name@),
        ensures
            forall|b: Seq<u8>|
                #![trigger r.spec_accepts_bytes(b)]
                r.spec_accepts_bytes(b) == old(self).spec_field_accepts_bytes(f_name@, b),
            forall|c: Option<Seq<u8>>|
                #![trigger r.spec_accepts_cell(c)]
                r.spec_accepts_cell(c) == old(self).spec_field_accepts_cell(f_name@, c),
            forall|b: Seq<u8>|
                #![trigger r.spec_loaded_bytes(b)]
                r.spec_loaded_bytes(b) == old(self).spec_field_loaded_bytes(f_name@, b),
            forall|c: Option<Seq<u8>>|
                #![trigger r.spec_cell_bytes(c)]
                r.spec_cell_bytes(c) == old(self).spec_field_cell_bytes(f_name@, c),
            r.spec_bytes() == old(self).spec_field_bytes(f_name@),
            r.spec_sql_str() == old(self).spec_field_sql(f_name@),
            final(self).spec_field_names() == old(self).spec_field_names(),
            final(self).spec_class_name() == old(self).spec_class_name(),
            forall|n: Seq<char>, b: Seq<u8>|
                #![trigger final(self).spec_field_accepts_bytes(n, b)]
                final(self).spec_field_accepts_bytes(n, b) == old(self).spec_field_accepts_bytes(n, b),
            forall|n: Seq<char>, c: Option<Seq<u8>>|
                #![trigger final(self).spec_field_accepts_cell(n, c)]
                final(self).spec_field_accepts_cell(n, c) == old(self).spec_field_accepts_cell(n, c),
            forall|n: Seq<char>, b: Seq<u8>|
                #![trigger final(self).spec_field_loaded_bytes(n, b)]
                final(self).spec_field_loaded_bytes(n, b) == old(self).spec_field_loaded_bytes(n, b),
            forall|n: Seq<char>, c: Option<Seq<u8>>|
                #![trigger final(self).spec_field_cell_bytes(n, c)]
                final(self).spec_field_cell_bytes(n, c) == old(self).spec_field_cell_bytes(n, c),
            forall|n: Seq<char>|
                n != f_name@ ==> #[trigger] final(self).spec_field_bytes(n)
                    == old(self).spec_field_bytes(n),
            forall|n: Seq<char>|
                n != f_name@ ==> #[trigger] final(self).spec_field_sql(n) == old(
                    self,
                ).spec_field_sql(n),
            final(self).spec_field_bytes(f_name@) == final(*r).spec_bytes(),
            final(self).spec_field_sql(f_name@) == final(*r).spec_sql_str(),
    ;

    fn class_name(&self) -> (r: String)
        ensures
            r@ == self.spec_class_name(),
    ;

    fn get_relation_vec(&mut self, v_name: &str) -> Relation;

    fn get_relations(&self) -> &'static [&'static str];
}

/// A relation of an entity to another table, joined on a column.
#[derive(Default, Clone)]
pub struct Relation {
    pub join_on: String,
    pub table: String,
}

impl Relation {
    /// The related objects; none are fetched yet, so the result is empty.
    pub fn get_objs<T>(&mut self) -> (r: Vec<T>) where T: EntityInterface + Default
        ensures
            r@ == Seq::<T>::empty(),
            *final(self) == *old(self),
    {
        Vec::new()
    }
}

/// The views of a list of names.
pub open spec fn names_view(names: Seq<&str>) -> Seq<Seq<char>> {
    names.map_values(|s: &str| s@)
}

/// The views of a list of strings.
pub open spec fn strings_view(strings: Seq<String>) -> Seq<Seq<char>> {
    strings.map_values(|s: String| s@)
}

/// The positions, in order, of the columns whose name is one of `names`.
pub open spec fn load_plan(names: Seq<Seq<char>>, columns: Seq<Seq<char>>) -> Seq<usize>
    decreases columns.len(),
{
    if columns.len() == 0 {
        Seq::empty()
    } else {
        let rest = load_plan(names, columns.drop_last());
        if names.contains(columns.last()) {
            rest.push((columns.len() - 1) as usize)
        } else {
            rest
        }
    }
}

/// Every position in a load plan is a position of a column.
proof fn lemma_load_plan_bounds(names: Seq<Seq<char>>, columns: Seq<Seq<char>>)
    requires
        columns.len() <= usize::MAX,
    ensures
        forall|k: int|
            0 <= k < load_plan(names, columns).len() ==> {
                &&& #[trigger] load_plan(names, columns)[k] < columns.len()
                &&& names.contains(columns[load_plan(names, columns)[k] as int])
            },
    decreases columns.len(),
{
    if columns.len() > 0 {
        let rest = load_plan(names, columns.drop_last());
        lemma_load_plan_bounds(names, columns.drop_last());
        assert forall|k: int| 0 <= k < load_plan(names, columns).len() implies {
            &&& #[trigger] load_plan(names, columns)[k] < columns.len()
            &&& names.contains(columns[load_plan(names, columns)[k] as int])
        } by {
            if k < rest.len() {
                assert(load_plan(names, columns)[k] == rest[k]);
                assert(columns.drop_last()[rest[k] as int] == columns[rest[k] as int]);
            } else {
                assert(names.contains(columns.last()));
                assert(load_plan(names, columns)[k] == (columns.len() - 1) as usize);
            }
        }
    }
}

/// The number with its four bytes in reverse order.
pub open spec fn byte_swapped(x: u32) -> int {
    from_le(be_bytes(x))
}

proof fn lemma_swap_formula(x: u32)
    ensures
        byte_swapped(x) == (x % 0x100) * 0x100_0000 + (x / 0x100 % 0x100) * 0x1_0000 + (x / 0x1_0000
            % 0x100) * 0x100 + x / 0x100_0000,
{
}

proof fn lemma_swap_twice(x: u32)
    by (bit_vector)
    ensures
        ({
            let y: u32 = ((x % 0x100) * 0x100_0000 + (x / 0x100 % 0x100) * 0x1_0000 + (x / 0x1_0000
                % 0x100) * 0x100 + x / 0x100_0000) as u32;
            &&& (x % 0x100) * 0x100_0000 + (x / 0x100 % 0x100) * 0x1_0000 + (x / 0x1_0000 % 0x100)
                * 0x100 + x / 0x100_0000 <= 0xffff_ffff
            &&& (y % 0x100) * 0x100_0000 + (y / 0x100 % 0x100) * 0x1_0000 + (y / 0x1_0000 % 0x100)
                * 0x100 + y / 0x100_0000 == x
        }),
{
}

/// Loading a number from the bytes that `to_bytes` gives reverses the order
/// of its bytes, so doing it twice gives the number back.
pub proof fn lemma_u32_bytes_round_trip(x: u32)
    ensures
        0 <= byte_swapped(x) <= u32::MAX,
        byte_swapped(byte_swapped(x) as u32) == x,
{
    lemma_swap_formula(x);
    lemma_swap_twice(x);
    lemma_swap_formula(byte_swapped(x) as u32);
}

/// Loading a text from the bytes that `to_bytes` gives returns the same text
/// when every character is ASCII.
pub proof fn lemma_ascii_text_round_trip(s: Seq<char>)
    requires
        vstd::utf8::is_ascii_chars(s),
    ensures
        latin1_chars(vstd::utf8::encode_utf8(s)) == s,
{
    vstd::utf8::is_ascii_chars_encode_utf8(s);
    assert forall|i: int| 0 <= i < s.len() implies latin1_chars(vstd::utf8::encode_utf8(s))[i]
        == s[i] by {
        let b = vstd::utf8::encode_utf8(s)[i];
        assert(s[i] as u8 == b);
    }
    assert(latin1_chars(vstd::utf8::encode_utf8(s)) =~= s);
}

/// The SQL literal of a text holds the whole text, in order, between a
/// space and a quote on the left and a quote and a space on the right.
pub proof fn lemma_quoted_holds_text(s: Seq<char>)
    ensures
        quoted(s).len() == s.len() + 4,
        quoted(s).subrange(2, s.len() + 2 as int) == s,
        quoted(s)[0] == ' ',
        quoted(s)[1] == '\'',
        quoted(s)[s.len() + 2 as int] == '\'',
        quoted(s)[s.len() + 3 as int] == ' ',
{
    reveal_strlit(" '");
    reveal_strlit("' ");
    assert(quoted(s).subrange(2, s.len() + 2 as int) =~= s);
}

/// A text field takes every byte sequence and every non-`NULL` cell, the
/// empty ones included: loading a text never fails on bytes.
pub proof fn lemma_text_takes_all_bytes(t: String, bytes: Seq<u8>)
    ensures
        t.spec_accepts_bytes(bytes),
        t.spec_accepts_cell(Some(bytes)),
        !t.spec_accepts_cell(None),
{
}

/// A number field takes exactly four bytes, and the cells whose text the
/// `u32` conversion reads.
pub proof fn lemma_number_takes(x: u32, bytes: Seq<u8>)
    ensures
        x.spec_accepts_bytes(bytes) <==> bytes.len() == 4,
        x.spec_accepts_cell(Some(bytes)) <==> mysql_u32_from_text(bytes) is Some,
        !x.spec_accepts_cell(None),
{
}

/// Whether a row loads depends on nothing but where the planned columns
/// are and whether each field takes its cell.
pub proof fn lemma_plan_loads_iff<T: EntityInterface>(d: T, plan: Seq<usize>, row: RowData)
    ensures
        plan_loads(d, plan, row) <==> forall|k: int|
            #![trigger plan[k]]
            0 <= k < plan.len() ==> plan[k] < row.values.len() && d.spec_field_accepts_cell(
                row.columns@[plan[k] as int]@,
                cell_view(row.values@[plan[k] as int]),
            ),
{
}

/// Whether `name` is one of `names`.
fn is_field(names: &[&str], name: &String) -> (r: bool)
    ensures
        r == names_view(names@).contains(name@),
{
    let mut i: usize = 0;
    while i < names.len()
        invariant
            i <= names.len(),
            forall|j: int| 0 <= j < i ==> names@[j]@ != name@,
        decreases names.len() - i,
    {
        let candidate = String::from_str(names[i]);
        if candidate == *name {
            assert(names_view(names@)[i as int] == name@);
            return true;
        }
        i = i + 1;
    }
    proof {
        if names_view(names@).contains(name@) {
            let k = choose|k: int| 0 <= k < names_view(names@).len() && names_view(names@)[k] == name@;
            assert(names@[k]@ == name@);
        }
    }
    false
}

/// The positions, in order, of the row's columns that name a field in
/// `names`; the other columns are left out.
pub fn fields_to_load(names: &[&str], columns: &Vec<String>) -> (r: Vec<usize>)
    ensures
        r@ == load_plan(names_view(names@), strings_view(columns@)),
{
    let mut r: Vec<usize> = Vec::new();
    let mut i: usize = 0;
    while i < columns.len()
        invariant
            i <= columns.len(),
            r@ == load_plan(names_view(names@), strings_view(columns@.subrange(0, i as int))),
        decreases columns.len() - i,
    {
        let ghost before = columns@.subrange(0, i as int);
        if is_field(names, &columns[i]) {
            r.push(i);
        }
        i = i + 1;
        assert(strings_view(columns@.subrange(0, i as int)).drop_last() =~= strings_view(before));
    }
    assert(columns@.subrange(0, i as int) =~= columns@);
    r
}

/// A new entity of type `T` with each field of `T` loaded from the bytes of
/// the field of the same name in `entity`; `None` where a field of `T` is
/// not a field of `entity` or does not take its bytes.
///
/// For the entity `d` that `T::default()` gave: the result is `Some` exactly
/// when every field name of `d` is a field name of `entity` and the field of
/// `d` takes the bytes of `entity`'s field of that name. Each field of the new entity
/// that `d` names then gives what loading those bytes gives; any other field
/// is as in `d`. The source entity's field names and the bytes of its fields
/// stay as they were.
pub fn try_map_to<T>(entity: &mut Box<dyn EntityInterface>) -> (r: Option<T>) where
    T: EntityInterface + Default,
    ensures
        final(entity).spec_field_names() == old(entity).spec_field_names(),
        forall|n: Seq<char>| #[trigger] final(entity).spec_field_bytes(n) == old(entity).spec_field_bytes(n),
        exists|d: T|
            #![trigger call_ensures(T::default, (), d)]
            call_ensures(T::default, (), d) && {
                &&& (r is Some <==> forall|i: int|
                    #![trigger d.spec_field_names()[i]]
                    0 <= i < d.spec_field_names().len() ==> {
                        &&& old(entity).spec_field_names().contains(d.spec_field_names()[i])
                        &&& d.spec_field_accepts_bytes(
                            d.spec_field_names()[i],
                            old(entity).spec_field_bytes(d.spec_field_names()[i]),
                        )
                    })
                &&& (r matches Some(v) ==> {
                    &&& v.spec_field_names() == d.spec_field_names()
                    &&& forall|n: Seq<char>|
                        #[trigger] v.spec_field_bytes(n) == if d.spec_field_names().contains(n) {
                            d.spec_field_loaded_bytes(n, old(entity).spec_field_bytes(n))
                        } else {
                            d.spec_field_bytes(n)
                        }
                })
            },
{
    let mut value = T::default();
    let ghost d = value;
    let ghost source = *entity;
    let fields = value.field_names();
    let src_names = entity.field_names();
    let ghost names = names_view(fields@);
    let mut i: usize = 0;
    while i < fields.len()
        invariant
            i <= fields.len(),
            names == names_view(fields@),
            names.len() == fields@.len(),
            source == *old(entity),
            call_ensures(T::default, (), d),
            names == d.spec_field_names(),
            value.spec_field_names() == d.spec_field_names(),
            forall|n: Seq<char>, b: Seq<u8>|
                #[trigger] value.spec_field_accepts_bytes(n, b) == d.spec_field_accepts_bytes(n, b),
            forall|n: Seq<char>, b: Seq<u8>|
                #[trigger] value.spec_field_loaded_bytes(n, b) == d.spec_field_loaded_bytes(n, b),
            forall|n: Seq<char>|
                #[trigger] value.spec_field_bytes(n) == if names.subrange(0, i as int).contains(n) {
                    d.spec_field_loaded_bytes(n, source.spec_field_bytes(n))
                } else {
                    d.spec_field_bytes(n)
                },
            names_view(src_names@) == source.spec_field_names(),
            entity.spec_field_names() == source.spec_field_names(),
            forall|n: Seq<char>| #[trigger] entity.spec_field_bytes(n) == source.spec_field_bytes(n),
            forall|j: int|
                #![trigger names[j]]
                0 <= j < i ==> {
                    &&& source.spec_field_names().contains(names[j])
                    &&& d.spec_field_accepts_bytes(names[j], source.spec_field_bytes(names[j]))
                },
        decreases fields.len() - i,
    {
        let field_name = fields[i];
        assert(names[i as int] == field_name@);
        let known = is_field(src_names, &String::from_str(field_name));
        if !known {
            proof {
                assert(d.spec_field_names()[i as int] == names[i as int]);
                assert(!source.spec_field_names().contains(names[i as int]));
            }
            return None;
        }
        let mut field_val = value.field_by_name(field_name);
        let mut field_ref = entity.field_by_name(field_name);
        let bytes = field_ref.to_bytes();
        if !field_val.accepts_bytes(&bytes) {
            proof {
                assert(d.spec_field_names()[i as int] == names[i as int]);
                assert(!d.spec_field_accepts_bytes(
                    names[i as int],
                    source.spec_field_bytes(names[i as int]),
                ));
            }
            return None;
        }
        field_val.load_from_bytes(bytes);
        proof {
            let prefix = names.subrange(0, i as int);
            let grown = names.subrange(0, i + 1);
            assert(grown =~= prefix.push(names[i as int]));
            assert forall|n: Seq<char>| #[trigger] value.spec_field_bytes(n) == if grown.contains(n) {
                d.spec_field_loaded_bytes(n, source.spec_field_bytes(n))
            } else {
                d.spec_field_bytes(n)
            } by {
                if n != names[i as int] {
                    assert(grown.contains(n) == prefix.contains(n)) by {
                        if grown.contains(n) {
                            let k = choose|k: int| 0 <= k < grown.len() && grown[k] == n;
                            assert(prefix[k] == n);
                        }
                    }
                } else {
                    assert(grown[i as int] == n);
                }
            }
        }
        i = i + 1;
    }
    proof {
        assert(names.subrange(0, i as int) =~= names);
    }
    Some(value)
}

/// A new entity of type `T` with each field of `T` loaded from the bytes of
/// the field of the same name in `entity`, as `try_map_to` gives it. Every
/// field of `T` must be a field of `entity` that takes its bytes.
pub fn map_to<T>(entity: &mut Box<dyn EntityInterface>) -> (r: T) where
    T: EntityInterface + Default,
    requires
        forall|d: T|
            #![trigger call_ensures(T::default, (), d)]
            call_ensures(T::default, (), d) ==> forall|i: int|
                #![trigger d.spec_field_names()[i]]
                0 <= i < d.spec_field_names().len() ==> {
                    &&& old(entity).spec_field_names().contains(d.spec_field_names()[i])
                    &&& d.spec_field_accepts_bytes(
                        d.spec_field_names()[i],
                        old(entity).spec_field_bytes(d.spec_field_names()[i]),
                    )
                },
    ensures
        final(entity).spec_field_names() == old(entity).spec_field_names(),
        forall|n: Seq<char>| #[trigger] final(entity).spec_field_bytes(n) == old(entity).spec_field_bytes(n),
        exists|d: T|
            #![trigger call_ensures(T::default, (), d)]
            call_ensures(T::default, (), d) && r.spec_field_names() == d.spec_field_names()
                && forall|n: Seq<char>|
                #[trigger] r.spec_field_bytes(n) == if d.spec_field_names().contains(n) {
                    d.spec_field_loaded_bytes(n, old(entity).spec_field_bytes(n))
                } else {
                    d.spec_field_bytes(n)
                },
{
    let r = try_map_to::<T>(entity);
    r.unwrap()
}

/// Every column that the plan loads has a cell, and the field of that name
/// in `d` takes the cell.
pub open spec fn plan_loads<T: EntityInterface>(d: T, plan: Seq<usize>, row: RowData) -> bool {
    forall|k: int|
        0 <= k < plan.len() ==> {
            &&& #[trigger] plan[k] < row.values.len()
            &&& d.spec_field_accepts_cell(
                row.columns@[plan[k] as int]@,
                cell_view(row.values@[plan[k] as int]),
            )
        }
}

/// The bytes of the field named `n` after the columns of `plan` were loaded
/// in order into `d`: the cell of the last column of the plan named `n`, as
/// that field loads it, or the field of `d` as it was when no column of the
/// plan is named `n`.
pub open spec fn loaded_field_bytes<T: EntityInterface>(d: T, plan: Seq<usize>, row: RowData, n: Seq<char>) -> Seq<u8>
    decreases plan.len(),
{
    if plan.len() == 0 {
        d.spec_field_bytes(n)
    } else if row.columns@[plan.last() as int]@ == n {
        d.spec_field_cell_bytes(n, cell_view(row.values@[plan.last() as int]))
    } else {
        loaded_field_bytes(d, plan.drop_last(), row, n)
    }
}

/// What `create_entity_from_row` gives, for the entity `d` that
/// `T::default()` gave: a result exactly when every column that names a field
/// of `d` has a cell that the field takes; then an entity with the field
/// names of `d`, each field holding what its last column gave it, or what it
/// held in `d` when no column names it.
pub open spec fn entity_from_row_outcome<T: EntityInterface>(d: T, row: RowData, r: Option<Box<T>>) -> bool {
    let plan = load_plan(d.spec_field_names(), strings_view(row.columns@));
    &&& (r is Some <==> plan_loads(d, plan, row))
    &&& (r matches Some(e) ==> {
        &&& e.spec_field_names() == d.spec_field_names()
        &&& forall|n: Seq<char>| #[trigger] e.spec_field_bytes(n) == loaded_field_bytes(d, plan, row, n)
    })
}

/// A new entity of type `T` with each field that names a column of the row
/// loaded from that column's cell, in column order; columns that name no
/// field are left out. `None` where a field does not take its cell.
pub fn try_create_entity_from_row<T>(row: &RowData) -> (r: Option<Box<T>>) where
    T: EntityInterface + Default,
    ensures
        exists|d: T|
            #![trigger call_ensures(T::default, (), d)]
            call_ensures(T::default, (), d) && entity_from_row_outcome(d, *row, r),
{
    let start = T::default();
    let ghost d = start;
    let mut entity: Box<T> = Box::new(start);
    let names = entity.field_names();
    let plan = fields_to_load(names, &row.columns);
    let ghost cols = strings_view(row.columns@);
    proof {
        assert(cols.len() == row.columns.len());
        lemma_load_plan_bounds(names_view(names@), cols);
    }
    let mut k: usize = 0;
    while k < plan.len()
        invariant
            k <= plan.len(),
            call_ensures(T::default, (), d),
            cols == strings_view(row.columns@),
            plan@ == load_plan(names_view(names@), cols),
            forall|m: int|
                0 <= m < plan@.len() ==> {
                    &&& #[trigger] plan@[m] < row.columns@.len()
                    &&& names_view(names@).contains(cols[plan@[m] as int])
                },
            ({
                &&& names_view(names@) == d.spec_field_names()
                &&& entity.spec_field_names() == d.spec_field_names()
                &&& forall|n: Seq<char>, c: Option<Seq<u8>>|
                    #[trigger] entity.spec_field_accepts_cell(n, c) == d.spec_field_accepts_cell(n, c)
                &&& forall|n: Seq<char>, c: Option<Seq<u8>>|
                    #[trigger] entity.spec_field_cell_bytes(n, c) == d.spec_field_cell_bytes(n, c)
                &&& forall|n: Seq<char>|
                    #[trigger] entity.spec_field_bytes(n) == loaded_field_bytes(
                        d,
                        plan@.subrange(0, k as int),
                        *row,
                        n,
                    )
                &&& forall|m: int|
                    0 <= m < k ==> {
                        &&& #[trigger] plan@[m] < row.values.len()
                        &&& d.spec_field_accepts_cell(
                            row.columns@[plan@[m] as int]@,
                            cell_view(row.values@[plan@[m] as int]),
                        )
                    }
            }),
        decreases plan.len() - k,
    {
        let i = plan[k];
        assert(cols[i as int] == row.columns@[i as int]@);
        if i >= row.values.len() {
            proof {
                assert(!plan_loads(d, plan@, *row));
                assert(entity_from_row_outcome(d, *row, None));
            }
            return None;
        }
        let mut value = entity.field_by_name(row.columns[i].as_str());
        if !value.accepts_cell(&row.values[i]) {
            proof {
                assert(!plan_loads(d, plan@, *row));
                assert(entity_from_row_outcome(d, *row, None));
            }
            return None;
        }
        value.load_from_row(row, i);
        proof {
            let before = plan@.subrange(0, k as int);
            let after = plan@.subrange(0, k + 1);
            assert(after.drop_last() =~= before);
            assert(after.last() == i);
        }
        k = k + 1;
    }
    proof {
        assert(plan@.subrange(0, k as int) =~= plan@);
        assert(plan_loads(d, plan@, *row));
        assert(entity_from_row_outcome(d, *row, Some(entity)));
    }
    Some(entity)
}

/// A new entity of type `T` with each field that names a column of the row
/// loaded from that column's cell, in column order, as
/// `try_create_entity_from_row` gives it; columns that name no field are left
/// out. Every column that names a field of `T` must have a cell that the
/// field takes.
pub fn create_entity_from_row<T>(row: &RowData) -> (r: Box<T>) where
    T: EntityInterface + Default,
    requires
        forall|d: T|
            #![trigger call_ensures(T::default, (), d)]
            call_ensures(T::default, (), d) ==> plan_loads(
                d,
                load_plan(d.spec_field_names(), strings_view(row.columns@)),
                *row,
            ),
    ensures
        exists|d: T|
            #![trigger call_ensures(T::default, (), d)]
            call_ensures(T::default, (), d) && entity_from_row_outcome(d, *row, Some(r)),
{
    let e = try_create_entity_from_row::<T>(row);
    e.unwrap()
}

} // verus!
