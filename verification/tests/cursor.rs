use ryson::common::make_iterator;
use ryson::BasicIteratorParser;

#[test]
fn lib_iterator_preserves_position() {
    let text = String::from("null,");
    let mut iter = make_iterator(text.as_str());
    let parser = BasicIteratorParser;
    parser.parse(&mut iter).unwrap();
    assert_eq!(iter.peek().unwrap().0, 4);
}

#[test]
fn lib_preserves_position_on_number() {
    let text = String::from("234 ");
    let mut iter = make_iterator(text.as_str());
    let parser = BasicIteratorParser;
    parser.parse(&mut iter).unwrap();
    assert_eq!(iter.peek().unwrap().0, 3);
}

#[test]
fn lib_preserves_position_on_string() {
    let text = String::from("\"text\":true");
    let mut iter = make_iterator(text.as_str());
    let parser = BasicIteratorParser;
    parser.parse(&mut iter).unwrap();
    assert_eq!(iter.peek().unwrap().0, 6);
}

#[test]
fn mod_iterator_preserves_position() {
    let text = String::from("null,");
    let mut iter = make_iterator(text.as_str());
    let parser = BasicIteratorParser;
    parser.parse(&mut iter).unwrap();
    assert_eq!(iter.peek().unwrap().0, 4);
}

#[test]
fn mod_preserves_position_on_number() {
    let text = String::from("234 ");
    let mut iter = make_iterator(text.as_str());
    let parser = BasicIteratorParser;
    parser.parse(&mut iter).unwrap();
    assert_eq!(iter.peek().unwrap().0, 3);
}

#[test]
fn mod_preserves_position_on_string() {
    let text = String::from("\"text\":true");
    let mut iter = make_iterator(text.as_str());
    let parser = BasicIteratorParser;
    parser.parse(&mut iter).unwrap();
    assert_eq!(iter.peek().unwrap().0, 6);
}

#[test]
fn cursor_peek_and_next_walk_the_text() {
    let text = String::from("ab");
    let mut iter = make_iterator(text.as_str());
    assert_eq!(iter.peek(), Some((0, 'a')));
    assert_eq!(iter.next(), Some((0, 'a')));
    assert_eq!(iter.peek(), Some((1, 'b')));
    assert_eq!(iter.next(), Some((1, 'b')));
    assert_eq!(iter.peek(), None);
    assert_eq!(iter.next(), None);
}
