use thistle::database::cosine_db::CosineDB;
use thistle::database::db::{
    backend_kind, database_module_uuid, new, BackendKind, Doc, LoadError, Operations, QueryError,
    DB,
};
use thistle::database::euclidean_db::EuclideanDB;
use thistle::database::lsh_db::Buckets;
use thistle::hnswlib::ranking::rank;
use thistle::hnswlib::dist::{DistHamming, Distance};

/// Cosine distance on `f64` vectors; the key is the bit pattern of the distance as a
/// non-negative `f32`, which orders as the distance does.
struct Cosine;

impl Distance<f64> for Cosine {
    fn eval(&self, va: &[f64], vb: &[f64]) -> u64 {
        let dot: f64 = va.iter().zip(vb.iter()).map(|t| t.0 * t.1).sum();
        let na: f64 = va.iter().map(|x| x * x).sum();
        let nb: f64 = vb.iter().map(|x| x * x).sum();
        let d = if na > 0. && nb > 0. { 1. - dot / (na * nb).sqrt() } else { 0. };
        (d.max(0.) as f32).to_bits() as u64
    }
}

/// Euclidean distance on `f64` vectors, with the same kind of key.
struct Euclidean;

impl Distance<f64> for Euclidean {
    fn eval(&self, va: &[f64], vb: &[f64]) -> u64 {
        let norm: f64 = va.iter().zip(vb.iter()).map(|t| (t.0 - t.1) * (t.0 - t.1)).sum();
        (norm.sqrt() as f32).to_bits() as u64
    }
}

/// A table with one bucket for each place of a vector: a vector lies in the bucket of
/// its largest value, the first of several.
struct LargestValue {
    buckets: Vec<Vec<u32>>,
}

impl LargestValue {
    fn new() -> Self {
        LargestValue { buckets: Vec::new() }
    }

    fn bucket_of(v: &[f64]) -> usize {
        let mut best = 0;
        for (at, x) in v.iter().enumerate() {
            if *x > v[best] {
                best = at;
            }
        }
        best
    }
}

impl Buckets<f64> for LargestValue {
    fn store(&mut self, embedding: &[f64], id: usize) {
        let bucket = Self::bucket_of(embedding);
        while self.buckets.len() <= bucket {
            self.buckets.push(Vec::new());
        }
        self.buckets[bucket].push(id as u32);
    }

    fn bucket_ids(&self, query: &[f64]) -> Vec<u32> {
        self.buckets.get(Self::bucket_of(query)).cloned().unwrap_or_default()
    }
}

/// A stand-in for the sentence encoder: how often each of the five vowels occurs.
fn get_embedding(text: &str) -> Vec<f64> {
    let mut counts = vec![0.0; 5];
    for c in text.to_lowercase().chars() {
        if let Some(at) = "aeiou".find(c) {
            counts[at] += 1.0;
        }
    }
    counts
}

fn poems() -> Vec<String> {
    vec![
        "Do not go gentle into that good night".to_string(),
        "Shall I compare thee to a summer's day".to_string(),
        "What happens to a dream deferred?".to_string(),
    ]
}

fn embed_all(texts: &Vec<String>) -> Vec<Vec<f64>> {
    texts.iter().map(|t| get_embedding(t)).collect()
}

#[test]
fn make_uuid() {
    let id = database_module_uuid();
    println!("local module uuid is {}", id);
    assert_eq!(id.len(), 36);
    let chars: Vec<char> = id.chars().collect();
    for (at, c) in chars.iter().enumerate() {
        if [8, 13, 18, 23].contains(&at) {
            assert_eq!(*c, '-');
        } else {
            assert!(('0'..='9').contains(c) || ('a'..='f').contains(c));
        }
    }
    assert_eq!(chars[14], '4');
    assert!(['8', '9', 'a', 'b'].contains(&chars[19]));
    assert_ne!(id, database_module_uuid());
}

#[test]
fn run_cosine_db() {
    let texts = poems();
    let embeddings = embed_all(&texts);
    let mut db = new("Cosine", Cosine, Euclidean, LargestValue::new());
    db.load(texts, embeddings).unwrap();
    let result = db.query(&get_embedding("stay strong as you grow older"), 1).unwrap();
    assert_eq!("Do not go gentle into that good night", result[0].text);
}

#[test]
fn run_euclidean_db() {
    let texts = poems();
    let embeddings = embed_all(&texts);
    let mut db = new("Euclidean", Cosine, Euclidean, LargestValue::new());
    db.load(texts, embeddings).unwrap();
    let result = db.query(&get_embedding("stay strong as you grow older"), 1).unwrap();
    assert_eq!("Do not go gentle into that good night", result[0].text);
}

#[test]
fn run_lsh_db() {
    let texts = poems();
    let embeddings = embed_all(&texts);
    let mut db = new("LSH", Cosine, Euclidean, LargestValue::new());
    assert!(matches!(db, DB::LshDB(_)));
    db.load(texts, embeddings).unwrap();
    let result = db.query(&get_embedding("Don't go into the night"), 1).unwrap();
    println!("{:?}", result[0].text);
    println!("len results {:?}", result.len());
    assert_eq!(1, result.len());
    assert_eq!("Do not go gentle into that good night", result[0].text);
}

#[test]
fn backend_names() {
    assert_eq!(backend_kind("Cosine"), BackendKind::Cosine);
    assert_eq!(backend_kind("Euclidean"), BackendKind::Euclidean);
    assert_eq!(backend_kind("Hnsw_Euclidean"), BackendKind::HnswEuclidean);
    assert_eq!(backend_kind("Hnsw_Cosine"), BackendKind::HnswCosine);
    assert_eq!(backend_kind("LSH"), BackendKind::Lsh);
    assert_eq!(backend_kind("lsh"), BackendKind::Cosine);
    assert_eq!(backend_kind(""), BackendKind::Cosine);
    assert_eq!(backend_kind("cosine"), BackendKind::Cosine);
    assert_eq!(backend_kind("euclidean"), BackendKind::Cosine);
    assert!(matches!(new::<f64, _, _, _>("Cosine", Cosine, Euclidean, LargestValue::new()), DB::CosineDB(_)));
    assert!(matches!(new::<f64, _, _, _>("Euclidean", Cosine, Euclidean, LargestValue::new()), DB::EuclideanDB(_)));
    assert!(matches!(
        new::<f64, _, _, _>("Hnsw_Euclidean", Cosine, Euclidean, LargestValue::new()),
        DB::HnswEuclideanDB(_)
    ));
    assert!(matches!(new::<f64, _, _, _>("Hnsw_Cosine", Cosine, Euclidean, LargestValue::new()), DB::HnswCosineDB(_)));
    assert!(matches!(
        new::<f64, _, _, _>("LSH", Cosine, Euclidean, LargestValue::new()),
        DB::LshDB(_)
    ));
    assert!(matches!(
        new::<f64, _, _, _>("Hnsw_L1", Cosine, Euclidean, LargestValue::new()),
        DB::CosineDB(_)
    ));
}

#[test]
fn rank_orders_by_key_and_keeps_ties_in_place() {
    let keys: Vec<u64> = vec![5, 1, 4, 1, 9, 4];
    assert_eq!(rank(&keys, 6), vec![1, 3, 2, 5, 0, 4]);
    assert_eq!(rank(&keys, 3), vec![1, 3, 2]);
    assert_eq!(rank(&keys, 1), vec![1]);
    assert_eq!(rank(&keys, 0), Vec::<usize>::new());
    assert_eq!(rank(&keys, 100), vec![1, 3, 2, 5, 0, 4]);
    assert_eq!(rank(&Vec::new(), 3), Vec::<usize>::new());
}

#[test]
fn rank_of_many_items_agrees_with_a_stable_sort() {
    let mut state = 12345u64;
    for len in [0usize, 1, 15, 16, 17, 64, 257, 1000] {
        let keys: Vec<u64> = (0..len)
            .map(|_| {
                state = state.wrapping_mul(6364136223846793005).wrapping_add(1442695040888963407);
                (state >> 33) % 50
            })
            .collect();
        let mut expected: Vec<usize> = (0..len).collect();
        expected.sort_by_key(|i| keys[*i]);
        for n in [0usize, 1, 15, 16, 17, 100, len, len + 5] {
            let order = rank(&keys, n);
            let m = n.min(len);
            assert_eq!(order, expected[..m].to_vec());
        }
    }
}

fn words() -> (Vec<String>, Vec<Vec<i32>>) {
    let texts = vec!["a".to_string(), "b".to_string(), "c".to_string(), "d".to_string()];
    let embeddings = vec![vec![1, 1, 1], vec![1, 2, 3], vec![0, 0, 0], vec![1, 2, 0]];
    (texts, embeddings)
}

fn texts_of(docs: &Vec<Doc<i32>>) -> Vec<String> {
    docs.iter().map(|d| d.text.clone()).collect()
}

#[test]
fn exhaustive_query_ranks_every_document() {
    let (texts, embeddings) = words();
    let mut db = EuclideanDB::new(DistHamming);
    assert_eq!(db.load(texts, embeddings), Ok(()));
    assert_eq!(db.docs().len(), 4);
    // Hamming distances to [1, 2, 3]: a 2, b 0, c 3, d 1
    let result = db.query(&[1, 2, 3], 4).unwrap();
    assert_eq!(texts_of(&result), vec!["b", "d", "a", "c"]);
    let scores: Vec<u64> = result.iter().map(|d| d.score).collect();
    assert_eq!(scores, vec![0, 1, 2, 3]);
    assert_eq!(result[1].embedding, vec![1, 2, 0]);
    let top = db.query(&[1, 2, 3], 2).unwrap();
    assert_eq!(texts_of(&top), vec!["b", "d"]);
    // all four are at distance 2 from [0, 2, 1]: ties come in the order of loading
    let tied = db.query(&[0, 2, 1], 4).unwrap();
    let tied_scores: Vec<u64> = tied.iter().map(|d| d.score).collect();
    assert_eq!(tied_scores, vec![2, 2, 2, 2]);
    assert_eq!(texts_of(&tied), vec!["a", "b", "c", "d"]);
}

#[test]
fn query_for_more_than_is_stored_returns_all() {
    let (texts, embeddings) = words();
    let mut db = CosineDB::new(DistHamming);
    db.load(texts, embeddings).unwrap();
    let result = db.query(&[1, 2, 3], 100).unwrap();
    assert_eq!(result.len(), 4);
    assert_eq!(texts_of(&result), vec!["b", "d", "a", "c"]);
    let all = db.query(&[1, 2, 3], u32::MAX).unwrap();
    assert_eq!(all.len(), 4);
}

#[test]
fn query_refusals() {
    let (texts, embeddings) = words();
    let mut db = CosineDB::new(DistHamming);
    // before any load the answer is empty, whatever the query's length
    assert_eq!(db.query(&[1, 2, 3, 4, 5], 3).unwrap().len(), 0);
    assert!(matches!(db.query(&[1, 2, 3], 0), Err(QueryError::InvalidParameter)));
    db.load(texts, embeddings).unwrap();
    assert!(matches!(db.query(&[1, 2, 3], 0), Err(QueryError::InvalidParameter)));
    assert!(matches!(db.query(&[1, 2], 1), Err(QueryError::DimensionMismatch)));
    assert!(matches!(db.query(&[1, 2, 3, 4], 1), Err(QueryError::DimensionMismatch)));
    assert!(matches!(db.query(&[1, 2], 0), Err(QueryError::InvalidParameter)));
    assert_eq!(db.query(&[1, 2, 3], 1).unwrap().len(), 1);
}

#[test]
fn load_refusals_change_nothing() {
    let (texts, embeddings) = words();
    let mut db = EuclideanDB::new(DistHamming);
    db.load(texts, embeddings).unwrap();
    // one text too many
    let r = db.load(vec!["e".to_string(), "f".to_string()], vec![vec![1, 1, 1]]);
    assert_eq!(r, Err(LoadError::InvalidParameter));
    assert_eq!(db.docs().len(), 4);
    // an embedding of another length
    let r = db.load(vec!["e".to_string(), "f".to_string()], vec![vec![1, 1, 1], vec![1, 1]]);
    assert_eq!(r, Err(LoadError::DimensionMismatch));
    assert_eq!(db.docs().len(), 4);
    assert_eq!(texts_of(db.docs()), vec!["a", "b", "c", "d"]);
    // a batch that disagrees with itself, into an empty store
    let mut fresh = CosineDB::new(DistHamming);
    let r = fresh.load(vec!["e".to_string(), "f".to_string()], vec![vec![1], vec![1, 1]]);
    assert_eq!(r, Err(LoadError::DimensionMismatch));
    assert_eq!(fresh.docs().len(), 0);
    // an empty batch is fine
    assert_eq!(fresh.load(Vec::new(), Vec::new()), Ok(()));
    // a second batch is appended
    let r = db.load(vec!["e".to_string()], vec![vec![1, 2, 3]]);
    assert_eq!(r, Ok(()));
    assert_eq!(texts_of(db.docs()), vec!["a", "b", "c", "d", "e"]);
    let result = db.query(&[1, 2, 3], 2).unwrap();
    assert_eq!(texts_of(&result), vec!["b", "e"]);
}

#[test]
fn exhaustive_query_finds_a_stored_vector_first() {
    let (texts, embeddings) = words();
    let mut db = EuclideanDB::new(DistHamming);
    db.load(texts.clone(), embeddings.clone()).unwrap();
    for (text, embedding) in texts.iter().zip(embeddings.iter()) {
        let result = db.query(embedding, 1).unwrap();
        assert_eq!(&result[0].text, text);
        assert_eq!(result[0].score, 0);
    }
}

#[test]
fn exhaustive_query_twice_gives_the_same_answer() {
    let texts = poems();
    let embeddings = embed_all(&texts);
    let mut db = CosineDB::new(Cosine);
    db.load(texts, embeddings).unwrap();
    let q = get_embedding("stay strong as you grow older");
    let first = db.query(&q, 3).unwrap();
    let second = db.query(&q, 3).unwrap();
    assert_eq!(first.len(), 3);
    for (a, b) in first.iter().zip(second.iter()) {
        assert_eq!(a.text, b.text);
        assert_eq!(a.score, b.score);
        assert_eq!(a.embedding, b.embedding);
    }
}
