use eb::author::Author;
use eb::document::engine::{CausalityError, Document};
use eb::document::model::{Element, LogPosition};

#[test]
fn one_insert_after_root_gives_the_character() {
    let mut doc = Document::new(Author::Server);
    let at = doc.insert_after(Author::Client(7), LogPosition(0), 'a');
    assert_eq!(at, Ok(LogPosition(1)));
    assert_eq!(doc.to_string(), "a");
}

#[test]
fn empty_document_has_empty_text() {
    let doc = Document::new(Author::Server);
    assert_eq!(doc.to_string(), "");
    assert_eq!(doc.next_position(), LogPosition(1));
    assert_eq!(doc.origin(), Author::Server);
}

#[test]
fn five_sessions_in_a_chain_give_abcde() {
    let mut doc = Document::new(Author::Server);
    let letters = ['a', 'b', 'c', 'd', 'e'];
    for (i, letter) in letters.iter().enumerate() {
        let session = 100 - i as u128;
        let at = doc.insert_after(Author::Client(session), LogPosition(i), *letter);
        assert_eq!(at, Ok(LogPosition(i + 1)));
    }
    assert_eq!(doc.to_string(), "abcde");
}

#[test]
fn unknown_predecessor_is_a_causality_error() {
    let mut doc = Document::new(Author::Server);
    let r = doc.insert_after(Author::Client(1), LogPosition(5), 'x');
    assert_eq!(r, Err(CausalityError { predecessor: LogPosition(5) }));
    assert_eq!(doc.to_string(), "");
    assert_eq!(doc.next_position(), LogPosition(1));
}

#[test]
fn later_sibling_of_same_author_comes_first() {
    let mut doc = Document::new(Author::Server);
    doc.insert_after(Author::Client(1), LogPosition(0), 'x').unwrap();
    doc.insert_after(Author::Client(1), LogPosition(0), 'y').unwrap();
    assert_eq!(doc.to_string(), "yx");
}

#[test]
fn siblings_are_ordered_by_author_first() {
    // Client 2 inserts first, client 9 second: the smaller author is visited
    // first, although the other has the later position.
    let mut doc = Document::new(Author::Server);
    doc.insert_after(Author::Client(2), LogPosition(0), 't').unwrap();
    doc.insert_after(Author::Client(9), LogPosition(0), 'n').unwrap();
    assert_eq!(doc.to_string(), "tn");
    // The coordinator sorts before every client, so its insertion comes first.
    doc.insert_after(Author::Server, LogPosition(0), 's').unwrap();
    assert_eq!(doc.to_string(), "stn");
}

#[test]
fn smaller_client_comes_first_whichever_arrived_first() {
    let mut first = Document::new(Author::Server);
    first.insert_after(Author::Client(2), LogPosition(0), 'x').unwrap();
    first.insert_after(Author::Client(1), LogPosition(0), 'y').unwrap();
    assert_eq!(first.to_string(), "yx");
    let mut second = Document::new(Author::Server);
    second.insert_after(Author::Client(1), LogPosition(0), 'y').unwrap();
    second.insert_after(Author::Client(2), LogPosition(0), 'x').unwrap();
    assert_eq!(second.to_string(), "yx");
}

#[test]
fn coordinator_comes_before_a_client() {
    let mut doc = Document::new(Author::Server);
    doc.insert_after(Author::Server, LogPosition(0), 's').unwrap();
    doc.insert_after(Author::Client(0), LogPosition(0), 'c').unwrap();
    assert_eq!(doc.to_string(), "sc");
}

#[test]
fn subtree_stays_with_its_parent() {
    let mut doc = Document::new(Author::Server);
    let a = doc.insert_after(Author::Client(5), LogPosition(0), 'a').unwrap();
    let b = doc.insert_after(Author::Client(5), a, 'b').unwrap();
    doc.insert_after(Author::Client(5), b, 'c').unwrap();
    // A sibling of 'a' by a greater author goes after the whole of "abc".
    doc.insert_after(Author::Client(7), LogPosition(0), 'z').unwrap();
    assert_eq!(doc.to_string(), "abcz");
    // A follower of 'a' by a smaller author goes before 'b'.
    doc.insert_after(Author::Client(1), a, 'q').unwrap();
    assert_eq!(doc.to_string(), "aqbcz");
    // A follower of 'a' by a greater author goes after 'b' and all below it.
    doc.insert_after(Author::Client(6), a, 'r').unwrap();
    assert_eq!(doc.to_string(), "aqbcrz");
}

fn element(author: u128, position: usize, predecessor: usize, value: char) -> Element {
    Element {
        author: Author::Client(author),
        position: LogPosition(position),
        predecessor: LogPosition(predecessor),
        value,
    }
}

#[test]
fn same_elements_in_another_order_give_the_same_text() {
    let a = element(3, 1, 0, 'a');
    let b = element(1, 2, 0, 'b');
    let c = element(2, 3, 1, 'c');
    let d = element(9, 7, 2, 'd');
    let e = element(4, 5, 1, 'e');
    let mut first = Document::new(Author::Server);
    for x in [a, b, c, d, e] {
        assert_eq!(first.insert(x), Ok(()));
    }
    let mut second = Document::new(Author::Server);
    for x in [b, d, a, e, c] {
        assert_eq!(second.insert(x), Ok(()));
    }
    assert_eq!(first.to_string(), second.to_string());
    assert_eq!(first.to_string(), "bdace");
    assert_eq!(first.next_position(), LogPosition(8));
    assert_eq!(second.next_position(), LogPosition(8));
}

#[test]
fn inserting_an_element_twice_changes_nothing() {
    let mut doc = Document::new(Author::Server);
    let a = element(3, 1, 0, 'a');
    assert_eq!(doc.insert(a), Ok(()));
    let before = doc.to_string();
    assert_eq!(doc.insert(a), Ok(()));
    // Another element that claims the position of the first is not taken.
    assert_eq!(doc.insert(element(8, 1, 0, 'z')), Ok(()));
    assert_eq!(doc.to_string(), before);
    assert_eq!(doc.get(LogPosition(1)), Some(a));
    assert_eq!(doc.next_position(), LogPosition(2));
}

#[test]
fn element_before_its_predecessor_is_refused() {
    let mut doc = Document::new(Author::Server);
    let orphan = element(1, 4, 2, 'o');
    assert_eq!(doc.insert(orphan), Err(CausalityError { predecessor: LogPosition(2) }));
    let backwards = element(1, 3, 3, 'o');
    assert_eq!(doc.insert(backwards), Err(CausalityError { predecessor: LogPosition(3) }));
    assert_eq!(doc.to_string(), "");
    assert!(!doc.holds(LogPosition(4)));
    assert!(doc.holds(LogPosition(0)));
    assert_eq!(doc.get(LogPosition(4)), None);
}

/// The text as the definition has it: a walk from the root that visits the
/// followers of each position in the order of their authors, and those of
/// one author from the latest to the earliest.
fn walk(elements: &[Element], from: usize, text: &mut String) {
    let mut followers: Vec<&Element> =
        elements.iter().filter(|e| e.predecessor.0 == from).collect();
    followers.sort_by(|a, b| a.author.cmp(&b.author).then(b.position.cmp(&a.position)));
    for follower in followers {
        text.push(follower.value);
        walk(elements, follower.position.0, text);
    }
}

/// Some elements with mixed authors, each following the root or an element
/// with a smaller position.
fn forest(count: usize) -> Vec<Element> {
    (1..=count)
        .map(|i| {
            let author = if i % 7 == 0 { Author::Server } else { Author::Client((i * 31 % 5) as u128) };
            Element {
                author,
                position: LogPosition(i),
                predecessor: LogPosition(i * 7919 % i.min(1 + i / 3)),
                value: char::from(b'a' + (i % 26) as u8),
            }
        })
        .collect()
}

#[test]
fn text_is_the_walk_whatever_the_order_of_arrival() {
    let elements = forest(200);
    let mut expected = String::new();
    walk(&elements, 0, &mut expected);
    assert_eq!(expected.chars().count(), 200);

    // In the order of the positions.
    let mut first = Document::new(Author::Server);
    for e in &elements {
        assert_eq!(first.insert(*e), Ok(()));
    }
    assert_eq!(first.to_string(), expected);

    // In another order: always the last of those whose predecessor is there.
    let mut second = Document::new(Author::Client(3));
    let mut waiting: Vec<Element> = elements.clone();
    while !waiting.is_empty() {
        let ready = waiting.iter().rposition(|e| second.holds(e.predecessor)).unwrap();
        let e = waiting.remove(ready);
        assert_eq!(second.insert(e), Ok(()));
    }
    assert_eq!(second.to_string(), expected);
    assert_eq!(second.next_position(), first.next_position());
}

#[test]
fn insert_after_agrees_with_the_walk() {
    let plan = forest(150);
    let mut doc = Document::new(Author::Server);
    let mut made = Vec::new();
    for e in &plan {
        let at = doc.insert_after(e.author, e.predecessor, e.value).unwrap();
        assert_eq!(at, e.position);
        made.push(doc.get(at).unwrap());
        let mut expected = String::new();
        walk(&made, 0, &mut expected);
        assert_eq!(doc.to_string(), expected);
    }
    assert_eq!(made, plan);
}

#[test]
fn long_text_typed_in_order() {
    let mut doc = Document::new(Author::Server);
    let mut at = LogPosition(0);
    let mut typed = String::new();
    for i in 0..20000usize {
        let value = char::from(b'a' + (i % 26) as u8);
        at = doc.insert_after(Author::Client((i % 3) as u128), at, value).unwrap();
        typed.push(value);
    }
    assert_eq!(doc.to_string(), typed);
    assert_eq!(doc.next_position(), LogPosition(20001));
}

#[test]
fn positions_may_have_gaps() {
    let mut doc = Document::new(Author::Server);
    assert_eq!(doc.insert(element(1, 10, 0, 'x')), Ok(()));
    assert_eq!(doc.next_position(), LogPosition(11));
    assert_eq!(doc.insert(element(1, 4, 0, 'y')), Ok(()));
    assert_eq!(doc.next_position(), LogPosition(11));
    assert_eq!(doc.insert_after(Author::Client(1), LogPosition(4), 'z'), Ok(LogPosition(11)));
    assert_eq!(doc.to_string(), "xyz");
    assert!(doc.holds(LogPosition(10)) && doc.holds(LogPosition(4)) && !doc.holds(LogPosition(5)));
}
