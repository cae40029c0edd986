use thistle::database::db::{Doc, LoadError, Operations, QueryError};
use thistle::database::lsh_db::{keep_stored, Buckets, LshDB};

/// A table that names what it is told to name, and records what is filed into it.
struct Told {
    names: Vec<u32>,
    filed: Vec<(Vec<f64>, usize)>,
}

impl Told {
    fn new(names: Vec<u32>) -> Self {
        Told { names, filed: Vec::new() }
    }
}

impl Buckets<f64> for Told {
    fn store(&mut self, embedding: &[f64], id: usize) {
        self.filed.push((embedding.to_vec(), id));
    }

    fn bucket_ids(&self, _query: &[f64]) -> Vec<u32> {
        self.names.clone()
    }
}

fn store(names: Vec<u32>) -> LshDB<f64, Told> {
    let texts = vec![
        "Do not go gentle into that good night".to_string(),
        "Shall I compare thee to a summer's day".to_string(),
        "What happens to a dream deferred?".to_string(),
    ];
    let embeddings = vec![vec![1.0, 0.0], vec![0.0, 1.0], vec![1.0, 1.0]];
    let mut db = LshDB::new(Told::new(names));
    db.load(texts, embeddings).unwrap();
    db
}

fn texts_of(docs: &Vec<Doc<f64>>) -> Vec<String> {
    docs.iter().map(|d| d.text.clone()).collect()
}

#[test]
fn bucket_matches_become_documents() {
    let db = store(Vec::new());
    let result = db.query_matches(&vec![0, 2, 1], 1).unwrap();
    assert_eq!(1, result.len());
    assert_eq!("Do not go gentle into that good night", result[0].text);
    assert_eq!(result[0].embedding, vec![1.0, 0.0]);
    assert_eq!(result[0].score, 0);
    let result = db.query_matches(&vec![2, 0, 1], 2).unwrap();
    assert_eq!(
        texts_of(&result),
        vec!["What happens to a dream deferred?", "Do not go gentle into that good night"]
    );
    // more asked for than matched: all matches
    assert_eq!(db.query_matches(&vec![1, 1], 5).unwrap().len(), 2);
    // no match: no document
    assert_eq!(db.query_matches(&Vec::new(), 5).unwrap().len(), 0);
}

#[test]
fn bucket_store_refusals() {
    let mut db = store(Vec::new());
    assert!(matches!(db.query_matches(&vec![0], 0), Err(QueryError::InvalidParameter)));
    assert!(matches!(db.query_matches(&vec![0, 3], 2), Err(QueryError::InvalidParameter)));
    // a match that is not among those to return is not looked at
    assert_eq!(db.query_matches(&vec![0, 3], 1).unwrap().len(), 1);
    assert_eq!(
        db.load(vec!["x".to_string()], vec![vec![1.0]]),
        Err(LoadError::DimensionMismatch)
    );
    assert_eq!(db.load(vec!["x".to_string()], Vec::new()), Err(LoadError::InvalidParameter));
    assert_eq!(db.docs().len(), 3);
    // a refused batch is not filed
    assert_eq!(db.table().filed.len(), 3);
    assert_eq!(db.load(vec!["x".to_string()], vec![vec![2.0, 2.0]]), Ok(()));
    assert_eq!(db.query_matches(&vec![3], 1).unwrap()[0].text, "x");
}

#[test]
fn a_load_files_each_embedding_under_its_position() {
    let mut db = store(Vec::new());
    db.load(vec!["x".to_string(), "y".to_string()], vec![vec![2.0, 2.0], vec![3.0, 3.0]]).unwrap();
    let filed = &db.table().filed;
    assert_eq!(filed.len(), 5);
    for (at, (embedding, id)) in filed.iter().enumerate() {
        assert_eq!(*id, at);
        assert_eq!(embedding, &db.docs()[at].embedding);
    }
}

#[test]
fn a_query_returns_the_stored_documents_that_the_table_names() {
    // the table names 2, then a document that is not stored, then 0 and 2 again
    let db = store(vec![2, 7, 0, 2]);
    assert_eq!(keep_stored(&vec![2, 7, 0, 2], 3), vec![2, 0, 2]);
    let all = db.query(&[0.5, 0.5], 10).unwrap();
    assert_eq!(
        texts_of(&all),
        vec![
            "What happens to a dream deferred?",
            "Do not go gentle into that good night",
            "What happens to a dream deferred?"
        ]
    );
    assert!(all.iter().all(|d| d.score == 0));
    let two = db.query(&[0.5, 0.5], 2).unwrap();
    assert_eq!(two.len(), 2);
    assert_eq!(two[1].text, "Do not go gentle into that good night");
    assert!(matches!(db.query(&[0.5, 0.5], 0), Err(QueryError::InvalidParameter)));
    assert!(matches!(db.query(&[0.5], 1), Err(QueryError::DimensionMismatch)));
    // nothing stored: nothing found, and the table is not asked
    let empty = LshDB::new(Told::new(vec![0, 1]));
    assert_eq!(empty.query(&[0.5, 0.5, 0.5], 3).unwrap().len(), 0);
    // a table that names nothing
    assert_eq!(store(Vec::new()).query(&[0.5, 0.5], 3).unwrap().len(), 0);
}
