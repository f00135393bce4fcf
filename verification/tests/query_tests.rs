use rooster::query::{eq, like, Condition, Conjunction, Q};

#[test]
fn eq_renders_field_equals_value() {
    assert_eq!(eq("id", "2").to_sql(), "id = 2");
}

#[test]
fn like_renders_field_like_pattern() {
    let q = like(String::from("name"), String::from("'%a%'"));
    assert_eq!(q.to_sql(), "name LIKE '%a%'");
}

#[test]
fn n_renders_id_like_one() {
    assert_eq!(Q::n().to_sql(), "id LIKE 1");
}

#[test]
fn readme_or_example() {
    let query = eq("name", "'aaa'").or(eq("id", "3"));
    assert_eq!(query.to_sql(), "name = 'aaa' OR id = 3");
}

#[test]
fn and_of_two_conditions() {
    let query = eq("a", "1").and(eq("b", "2"));
    assert_eq!(query.to_sql(), "a = 1 AND b = 2");
}

#[test]
fn compound_tail_renders_in_parentheses() {
    let query = eq("x", "1").and(eq("a", "1").or(eq("b", "2")));
    assert_eq!(query.to_sql(), "x = 1 AND (a = 1 OR b = 2)");
}

#[test]
fn nested_groups_of_the_program_example() {
    let query = eq("id", "2")
        .and(eq("name", " 'balls' ").or(eq("bussy", " 'sussy' ").or(eq("name", "'cockerton'"))));
    assert_eq!(
        query.to_sql(),
        "id = 2 AND (name =  'balls'  OR (bussy =  'sussy'  OR name = 'cockerton'))"
    );
}

#[test]
fn chained_and_keeps_every_conjunction() {
    let query = eq("a", "1").and(eq("b", "2")).and(eq("c", "3"));
    assert_eq!(query.to_sql(), "a = 1 AND b = 2 AND c = 3");
}

#[test]
fn or_then_and_joins_in_order() {
    let query = eq("a", "1").or(eq("b", "2")).and(eq("c", "3"));
    assert_eq!(query.to_sql(), "a = 1 OR b = 2 AND c = 3");
}

#[test]
fn readme_or_of_compound_query() {
    let query = eq("a", "1").and(eq("b", "2")).or(eq("c", "3").and(eq("d", "4")));
    assert_eq!(query.to_sql(), "a = 1 AND b = 2 OR (c = 3 AND d = 4)");
}

#[test]
fn group_followed_by_another_condition() {
    let query = eq("x", "1").and(eq("a", "1").or(eq("b", "2"))).or(eq("y", "2"));
    assert_eq!(query.to_sql(), "x = 1 AND (a = 1 OR b = 2) OR y = 2");
}

#[test]
fn shallow_copy_keeps_only_the_first_node() {
    let query = eq("a", "1").or(eq("b", "2"));
    let copy = Q::shallow_copy(&query);
    assert_eq!(copy.to_sql(), "a = 1");
}

#[test]
fn set_tail_attaches_the_query_itself_when_there_is_no_next_node() {
    let mut query = eq("a", "1");
    query.set_tail(eq("b", "2").or(eq("c", "3")));
    // the conjunction of the head is still START
    assert_eq!(query.to_sql(), "a = 1  b = 2 OR c = 3");
}

#[test]
fn set_tail_appends_the_whole_query_after_the_last_node() {
    let mut query = eq("a", "1").or(eq("b", "2"));
    query.set_tail(eq("c", "3").or(eq("d", "4")));
    // the last node of the chain is still joined by START
    assert_eq!(query.to_sql(), "a = 1 OR b = 2  c = 3 OR d = 4");
}

#[test]
fn conjunction_keywords() {
    assert_eq!(Conjunction::AND.to_str(), "AND");
    assert_eq!(Conjunction::OR.to_str(), "OR");
    assert_eq!(Conjunction::GROUP.to_str(), "");
    assert_eq!(Conjunction::START.to_str(), "");
}

#[test]
fn condition_renderings() {
    let like_c = Condition::LIKE(String::from("f"), String::from("x"));
    let eq_c = Condition::EQUALS(String::from("f"), String::from("x"));
    assert_eq!(like_c.as_sql(), "f LIKE x");
    assert_eq!(eq_c.as_sql(), "f = x");
    assert_eq!(Condition::NONE.as_sql(), "");
}

#[test]
fn renderable_queries() {
    assert!(eq("a", "1").or(eq("b", "2")).renderable());
    assert!(Q::n().renderable());
}

#[test]
fn nested_query_text_has_matching_parentheses() {
    let query = eq("a", "1")
        .and(eq("b", "2").or(eq("c", "3").and(eq("d", "4"))))
        .or(eq("e", "5").and(eq("f", "6")));
    let text = query.to_sql();
    assert_eq!(text, "a = 1 AND (b = 2 OR (c = 3 AND d = 4)) OR (e = 5 AND f = 6)");
    let mut depth: i32 = 0;
    for ch in text.chars() {
        if ch == '(' {
            depth += 1;
        } else if ch == ')' {
            depth -= 1;
        }
        assert!(depth >= 0);
    }
    assert_eq!(depth, 0);
}
