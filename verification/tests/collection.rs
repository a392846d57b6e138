use pocky::{AsHtml, PageCollection};

#[derive(Debug, PartialEq)]
struct Note(u32);

impl AsHtml for Note {
    fn as_html(&self) -> String {
        format!("<p>{}</p>", self.0)
    }
}

fn notes(numbers: &[u32]) -> PageCollection<Note> {
    PageCollection::from(numbers.iter().map(|n| Note(*n)).collect::<Vec<Note>>())
}

fn numbers(collection: &PageCollection<Note>) -> Vec<u32> {
    collection.iter().map(|note| note.0).collect()
}

#[test]
fn collection_keeps_the_order() {
    assert_eq!(numbers(&notes(&[3, 1, 2])), vec![3, 1, 2]);
    assert_eq!(numbers(&notes(&[])), Vec::<u32>::new());
}

#[test]
fn iter_hands_out_references() {
    let collection = notes(&[1, 2]);
    let html: Vec<String> = collection.iter().map(|note| note.as_html()).collect();
    assert_eq!(html, vec!["<p>1</p>", "<p>2</p>"]);
    assert_eq!(collection.iter().count(), 2);
}

#[test]
fn retain_keeps_what_the_predicate_accepts() {
    let mut collection = notes(&[1, 2, 3, 4, 5, 6]);
    collection.retain(|note| note.0 % 2 == 0);
    assert_eq!(numbers(&collection), vec![2, 4, 6]);
}

#[test]
fn retain_all_and_none() {
    let mut collection = notes(&[1, 2, 3]);
    collection.retain(|_| true);
    assert_eq!(numbers(&collection), vec![1, 2, 3]);
    collection.retain(|_| false);
    assert_eq!(numbers(&collection), Vec::<u32>::new());
    collection.retain(|_| true);
    assert_eq!(numbers(&collection), Vec::<u32>::new());
}

#[test]
fn retain_asks_once_for_each_page_in_order() {
    let mut collection = notes(&[5, 6, 7]);
    let mut asked = Vec::new();
    collection.retain(|note| {
        asked.push(note.0);
        note.0 != 6
    });
    assert_eq!(asked, vec![5, 6, 7]);
    assert_eq!(numbers(&collection), vec![5, 7]);
}

#[test]
fn retain_agrees_with_vec() {
    for mask in 0..64u32 {
        let mut collection = notes(&[0, 1, 2, 3, 4, 5]);
        collection.retain(|note| mask & (1 << note.0) != 0);
        let mut expected = vec![0u32, 1, 2, 3, 4, 5];
        expected.retain(|n| mask & (1 << n) != 0);
        assert_eq!(numbers(&collection), expected);
    }
}

#[test]
fn into_iter_hands_the_pages_out() {
    let pages: Vec<Note> = notes(&[2, 1]).into_iter().collect();
    assert_eq!(pages, vec![Note(2), Note(1)]);
}
