use thistle::database::database_fns::{database_module_uuid, DB};
use thistle::database::db::{LoadError, QueryError};
use thistle::hnswlib::dist::DistHamming;

fn store() -> DB<u8, DistHamming> {
    let texts = vec!["a".to_string(), "b".to_string(), "c".to_string(), "d".to_string()];
    let embeddings = vec![vec![1, 1, 1], vec![1, 2, 3], vec![0, 0, 0], vec![1, 2, 0]];
    DB::load(texts, embeddings, DistHamming).unwrap()
}

fn texts_within(threshold: u64) -> Vec<String> {
    store().query(&[1, 2, 3], threshold).unwrap().iter().map(|d| d.get_text()).collect()
}

#[test]
fn documents_within_a_distance() {
    // Hamming distances to [1, 2, 3]: a 2, b 0, c 3, d 1
    assert_eq!(texts_within(0), Vec::<String>::new());
    assert_eq!(texts_within(1), vec!["b"]);
    assert_eq!(texts_within(2), vec!["b", "d"]);
    assert_eq!(texts_within(3), vec!["a", "b", "d"]);
    assert_eq!(texts_within(4), vec!["a", "b", "c", "d"]);
    assert_eq!(texts_within(u64::MAX), vec!["a", "b", "c", "d"]);
}

#[test]
fn threshold_store_refusals() {
    assert!(matches!(store().query(&[1, 2], 5), Err(QueryError::DimensionMismatch)));
    let r = DB::load(vec!["a".to_string()], vec![vec![1u8], vec![2u8]], DistHamming);
    assert!(matches!(r, Err(LoadError::InvalidParameter)));
    let r = DB::load(vec!["a".to_string(), "b".to_string()], vec![vec![1u8], vec![2u8, 3]], DistHamming);
    assert!(matches!(r, Err(LoadError::DimensionMismatch)));
    let empty = DB::<u8, DistHamming>::load(Vec::new(), Vec::new(), DistHamming).unwrap();
    assert_eq!(empty.query(&[1, 2, 3], 9).unwrap().len(), 0);
}

#[test]
fn identifiers_have_the_usual_form() {
    let id = database_module_uuid();
    assert_eq!(id.len(), 36);
    assert_eq!(id.matches('-').count(), 4);
    assert!(id.chars().all(|c| c == '-' || c.is_ascii_hexdigit()));
}
