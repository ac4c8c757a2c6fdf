use plat::collection::Collection;
use plat::error::Error;
use plat::node::Node;
use plat::position::Position;
use plat::value::{Range, StringExpression, StringPart, Value};

fn spot(line: usize, column: usize) -> Position {
    Position { line, column }
}

fn oops(text: &str) -> Error {
    Error::other(text, spot(1, 2))
}

#[test]
fn node_new_pairs_data_and_position() {
    let node = Node::new(7u8, spot(3, 4));
    assert_eq!(node.data, 7);
    assert_eq!(node.position, spot(3, 4));
}

#[test]
fn collection_starts_empty_and_ok() {
    let collection: Collection<u8> = Collection::new();
    assert!(collection.is_ok());
    assert_eq!(collection, Collection::Okay(vec![]));
}

#[test]
fn collection_push_keeps_order() {
    let mut collection: Collection<u8> = Collection::new();
    collection.push(Node::new(1, spot(0, 0)));
    collection.push(Node::new(2, spot(0, 1)));
    assert_eq!(
        collection,
        Collection::Okay(vec![Node::new(1, spot(0, 0)), Node::new(2, spot(0, 1))])
    );
}

#[test]
fn collection_throw_discards_nodes() {
    let mut collection: Collection<u8> = Collection::new();
    collection.push(Node::new(1, spot(0, 0)));
    collection.throw(oops("first"));
    assert!(!collection.is_ok());
    assert_eq!(collection, Collection::Failed(vec![oops("first")]));
}

#[test]
fn collection_failure_is_final() {
    let mut collection: Collection<u8> = Collection::new();
    collection.throw(oops("first"));
    collection.push(Node::new(1, spot(0, 0)));
    collection.throw(oops("second"));
    collection.push(Node::new(2, spot(0, 0)));
    assert_eq!(collection, Collection::Failed(vec![oops("first"), oops("second")]));
}

#[test]
fn collection_throw_all_appends_in_order() {
    let mut collection: Collection<u8> = Collection::new();
    collection.throw(oops("first"));
    collection.throw_all(vec![oops("second"), oops("third")]);
    assert_eq!(
        collection,
        Collection::Failed(vec![oops("first"), oops("second"), oops("third")])
    );
}

#[test]
fn collection_throw_all_of_nothing_fails_an_ok_collection() {
    let mut collection: Collection<u8> = Collection::new();
    collection.push(Node::new(1, spot(0, 0)));
    collection.throw_all(vec![]);
    assert!(!collection.is_ok());
    assert_eq!(collection, Collection::Failed(vec![]));
    assert_eq!(collection.into_result(), Err(vec![]));
}

#[test]
fn collection_throw_all_of_nothing_keeps_the_errors_held() {
    let mut collection: Collection<u8> = Collection::new();
    collection.throw(oops("first"));
    collection.throw_all(vec![]);
    assert_eq!(collection, Collection::Failed(vec![oops("first")]));
}

#[test]
fn collection_throw_each_of_nothing_changes_nothing() {
    let mut collection: Collection<u8> = Collection::new();
    collection.push(Node::new(1, spot(0, 0)));
    collection.throw_each(vec![]);
    assert_eq!(collection, Collection::Okay(vec![Node::new(1, spot(0, 0))]));
    let mut failed: Collection<u8> = Collection::new();
    failed.throw(oops("first"));
    failed.throw_each(vec![]);
    assert_eq!(failed, Collection::Failed(vec![oops("first")]));
}

#[test]
fn collection_throw_each_fails_an_ok_collection() {
    let mut collection: Collection<u8> = Collection::new();
    collection.push(Node::new(1, spot(0, 0)));
    collection.throw_each(vec![oops("first"), oops("second")]);
    assert_eq!(collection, Collection::Failed(vec![oops("first"), oops("second")]));
}

#[test]
fn collection_throw_each_appends_in_order() {
    let mut collection: Collection<u8> = Collection::new();
    collection.throw(oops("first"));
    collection.throw_each(vec![oops("second"), oops("third")]);
    assert_eq!(
        collection,
        Collection::Failed(vec![oops("first"), oops("second"), oops("third")])
    );
}

#[test]
fn collection_throw_all_fails_an_ok_collection() {
    let mut collection: Collection<u8> = Collection::new();
    collection.push(Node::new(1, spot(0, 0)));
    collection.throw_all(vec![oops("first"), oops("second")]);
    assert_eq!(collection, Collection::Failed(vec![oops("first"), oops("second")]));
}

#[test]
fn collection_try_throw() {
    let mut collection: Collection<u8> = Collection::new();
    collection.try_throw(Ok(()));
    assert!(collection.is_ok());
    collection.try_throw(Err(oops("first")));
    assert_eq!(collection, Collection::Failed(vec![oops("first")]));
}

#[test]
fn collection_into_result() {
    let mut collection: Collection<u8> = Collection::new();
    collection.push(Node::new(1, spot(0, 0)));
    assert_eq!(collection.into_result(), Ok(vec![Node::new(1, spot(0, 0))]));
    let mut failed: Collection<u8> = Collection::new();
    failed.throw(oops("first"));
    assert_eq!(failed.into_result(), Err(vec![oops("first")]));
}

#[test]
fn error_constructors() {
    assert_eq!(
        Error::unexpected("a", "b", spot(1, 2)),
        Error::Unexpected {
            expected: "a".to_string(),
            received: "b".to_string(),
            position: spot(1, 2),
        }
    );
    assert_eq!(
        Error::invalid("b", spot(1, 2)),
        Error::Invalid { received: "b".to_string(), position: spot(1, 2) }
    );
    assert_eq!(
        Error::end_of_file("a", spot(1, 2)),
        Error::EndOfFile { expected: "a".to_string(), position: spot(1, 2) }
    );
    assert_eq!(
        Error::other("m", spot(1, 2)),
        Error::Other { message: "m".to_string(), position: spot(1, 2) }
    );
}

#[test]
fn error_messages() {
    assert_eq!(Error::unexpected("a", "b", spot(0, 0)).message(), "Expected 'a', found 'b'");
    assert_eq!(Error::invalid("b", spot(0, 0)).message(), "Invalid: found 'b'");
    assert_eq!(Error::end_of_file("}", spot(0, 0)).message(), "Expected '}', found end of file");
    assert_eq!(Error::other("something broke", spot(0, 0)).message(), "something broke");
}

#[test]
fn error_positions() {
    assert_eq!(Error::unexpected("a", "b", spot(1, 2)).position(), spot(1, 2));
    assert_eq!(Error::invalid("b", spot(3, 4)).position(), spot(3, 4));
    assert_eq!(Error::end_of_file("a", spot(5, 6)).position(), spot(5, 6));
    assert_eq!(Error::other("m", spot(7, 8)).position(), spot(7, 8));
}

#[test]
fn string_expression_new_and_push() {
    let mut expression = StringExpression::new();
    assert_eq!(expression.parts, vec![]);
    expression.push(StringPart::Literal("a".to_string()));
    expression.push(StringPart::Variable("b".to_string()));
    assert_eq!(
        expression.parts,
        vec![StringPart::Literal("a".to_string()), StringPart::Variable("b".to_string())]
    );
    assert_eq!(expression.clone(), expression);
    assert_eq!(expression.describe(), "\"a$b\"");
}

#[test]
fn range_new_and_describe() {
    let range = Range::new(-3, 12);
    assert_eq!(range.begin, -3);
    assert_eq!(range.end, 12);
    assert_eq!(range.describe(), "range -3-12");
    assert_eq!(Value::Range(range).describe(), "range -3-12");
}

#[test]
fn string_expression_written_joins_parts() {
    let mut expression = StringExpression::new();
    assert_eq!(expression.written(), "");
    expression.push(StringPart::Literal("src/".to_string()));
    expression.push(StringPart::Variable("name".to_string()));
    expression.push(StringPart::Literal(".rs".to_string()));
    assert_eq!(expression.written(), "src/$name.rs");
    assert_eq!(expression.describe(), "\"src/$name.rs\"");
}
