use splitter::codec::{decode_categories, encode_categories, load_categories};
use splitter::records::{Category, Run};

fn sample_categories() -> Vec<Category> {
    let mut a = Category::new("Type-C".to_string());
    a.update_from_run(&Run {
        splits: vec![100, 150, 0, 0, 0, 0, 0, 0],
        score: 250,
    });
    let b = Category::new("z\u{e9}ro \u{30e9}\u{30f3}\u{30ac}\u{30fc}".to_string());
    vec![a, b]
}

fn categories_equal(a: &[Category], b: &[Category]) -> bool {
    a.len() == b.len()
        && a.iter().zip(b.iter()).all(|(x, y)| {
            x.name == y.name
                && x.best_splits == y.best_splits
                && x.personal_best.splits == y.personal_best.splits
                && x.personal_best.score == y.personal_best.score
        })
}

#[test]
fn round_trip_preserves_every_field() {
    let cats = sample_categories();
    let bytes = encode_categories(&cats);
    let back = decode_categories(&bytes).expect("decodes");
    assert!(categories_equal(&cats, &back));
}

#[test]
fn round_trip_of_empty_list() {
    let cats: Vec<Category> = Vec::new();
    let bytes = encode_categories(&cats);
    let back = decode_categories(&bytes).expect("decodes");
    assert!(back.is_empty());
}

#[test]
fn truncated_store_is_rejected() {
    let cats = sample_categories();
    let mut bytes = encode_categories(&cats);
    bytes.pop();
    assert!(decode_categories(&bytes).is_none());
    assert!(decode_categories(&vec![1, 2, 3]).is_none());
}

#[test]
fn trailing_junk_is_rejected() {
    let cats = sample_categories();
    let mut bytes = encode_categories(&cats);
    bytes.push(0);
    assert!(decode_categories(&bytes).is_none());
}

#[test]
fn invalid_name_bytes_are_rejected() {
    let cats = vec![Category::new("a".to_string())];
    let mut bytes = encode_categories(&cats);
    // The name's single byte sits right after the count and length prefix.
    bytes[16] = 0xFF;
    assert!(decode_categories(&bytes).is_none());
}

#[test]
fn empty_store_loads_default_categories() {
    let cats = load_categories(None);
    assert_eq!(cats.len(), 2);
    assert_eq!(cats[0].name, "Type-C");
    assert_eq!(cats[1].name, "Type-B");
    for c in &cats {
        assert_eq!(c.best_splits, vec![0; 8]);
        assert_eq!(c.personal_best.splits, vec![0; 8]);
        assert_eq!(c.personal_best.score, 0);
    }
}

#[test]
fn empty_list_in_store_loads_defaults() {
    let bytes = encode_categories(&Vec::new());
    let cats = load_categories(Some(&bytes));
    assert_eq!(cats.len(), 2);
    assert_eq!(cats[0].name, "Type-C");
    assert_eq!(cats[1].name, "Type-B");
}

#[test]
fn undecodable_store_loads_defaults() {
    let cats = load_categories(Some(&vec![9, 9, 9]));
    assert_eq!(cats.len(), 2);
    assert_eq!(cats[0].name, "Type-C");
}

#[test]
fn stored_list_loads_as_saved() {
    let cats = sample_categories();
    let bytes = encode_categories(&cats);
    let back = load_categories(Some(&bytes));
    assert!(categories_equal(&cats, &back));
}
