use thistle::database::db::{new, Doc, Operations, QueryError, DB};
use thistle::database::hnsw_db::{level_draw, max_layer_for, HnswDB};
use thistle::database::lsh_db::Buckets;
use thistle::hnswlib::dist::{DistHamming, DistL1, Distance};
use thistle::hnswlib::hnsw::{level_from_draw, Hnsw, HnswError, Neighbour};

/// Euclidean distance on `f64` vectors; the key is the bit pattern of the distance as
/// a non-negative `f32`, which orders as the distance does.
struct DistL2;

impl Distance<f64> for DistL2 {
    fn eval(&self, va: &[f64], vb: &[f64]) -> u64 {
        let norm: f64 = va.iter().zip(vb.iter()).map(|t| (*t.0 - *t.1) * (*t.0 - *t.1)).sum();
        (norm.sqrt() as f32).to_bits() as u64
    }
}

/// A table that is never asked.
struct NoTable;

impl Buckets<f64> for NoTable {
    fn store(&mut self, _embedding: &[f64], _id: usize) {}

    fn bucket_ids(&self, _query: &[f64]) -> Vec<u32> {
        Vec::new()
    }
}

struct Random(u64);

impl Random {
    fn word(&mut self) -> u64 {
        self.0 = self.0.wrapping_mul(6364136223846793005).wrapping_add(1442695040888963407);
        let mut z = self.0;
        z = (z ^ (z >> 30)).wrapping_mul(0xBF58476D1CE4E5B9);
        z = (z ^ (z >> 27)).wrapping_mul(0x94D049BB133111EB);
        z ^ (z >> 31)
    }

    fn unit(&mut self) -> f64 {
        ((self.word() >> 11) as f64) / ((1u64 << 53) as f64)
    }

    fn vector(&mut self, dim: usize) -> Vec<f64> {
        (0..dim).map(|_| self.unit()).collect()
    }
}

fn gen_random_matrix_f64(rng: &mut Random, dim: usize, nb_elem: usize) -> Vec<Vec<f64>> {
    (0..nb_elem).map(|_| rng.vector(dim)).collect()
}

fn build(rng: &mut Random, data: &Vec<Vec<f64>>, max_nb_connection: usize, ef_c: usize) -> Hnsw<f64, DistL2> {
    let nb_elem = data.len();
    let nb_layer = 16.min((nb_elem as f32).ln().trunc() as usize);
    let mut hnsw = Hnsw::<f64, DistL2>::new(max_nb_connection, nb_elem, nb_layer, ef_c, DistL2).unwrap();
    for (i, v) in data.iter().enumerate() {
        assert_eq!(hnsw.insert(v.clone(), rng.word()), Ok(i));
    }
    hnsw
}

fn exact(data: &Vec<Vec<f64>>, query: &Vec<f64>, k: usize) -> Vec<Neighbour> {
    let mut all: Vec<Neighbour> = data
        .iter()
        .enumerate()
        .map(|(i, v)| Neighbour { d_id: i, distance: DistL2.eval(v, query) })
        .collect();
    all.sort_by_key(|n| (n.distance, n.d_id));
    all.truncate(k);
    all
}

/// A distance that the caller defines with a closure.
struct DistFn {
    dist_function: Box<dyn Fn(&[f32], &[f32]) -> f32 + Send + Sync>,
}

impl DistFn {
    fn new(f: Box<dyn Fn(&[f32], &[f32]) -> f32 + Send + Sync>) -> Self {
        DistFn { dist_function: f }
    }

    fn distance(&self, va: &[f32], vb: &[f32]) -> f32 {
        (self.dist_function)(va, vb)
    }
}

impl Distance<f32> for DistFn {
    fn eval(&self, va: &[f32], vb: &[f32]) -> u64 {
        self.distance(va, vb).to_bits() as u64
    }
}

#[test]
fn test_my_closure() {
    let weight = vec![0.1, 0.8, 0.1];
    let my_fn = move |va: &[f32], vb: &[f32]| -> f32 {
        // should check that we work with same size for va, vb, and weight...
        let mut dist: f32 = 0.;
        for i in 0..va.len() {
            dist += weight[i] * (va[i] - vb[i]).abs();
        }
        dist
    };
    let my_boxed_f = Box::new(my_fn);
    let my_boxed_dist = DistFn::new(my_boxed_f);
    let va: Vec<f32> = vec![1., 2., 3.];
    let vb: Vec<f32> = vec![2., 2., 4.];
    let dist = my_boxed_dist.distance(&va, &vb);
    println!("test_my_closure computed : {:?}", dist);
    assert_eq!(f32::from_bits(my_boxed_dist.eval(&va, &vb) as u32), dist);
    // try allocation Hnsw
    let mut hnsw = Hnsw::<f32, DistFn>::new(10, 3, 100, 16, my_boxed_dist).unwrap();
    assert_eq!(hnsw.get_max_level(), 16);
    //
    assert_eq!(dist, 0.2);
    assert_eq!(hnsw.insert(va, 0), Ok(0));
    assert_eq!(hnsw.insert(vb.clone(), 1), Ok(1));
    let found = hnsw.search(&vb, 1, 16).unwrap();
    assert_eq!(found, vec![Neighbour { d_id: 1, distance: 0 }]);
}

#[test]
fn run_hnsw_db() {
    let nb_elem = 50;
    let dim = 25;
    let mut rng = Random(1);
    let data = gen_random_matrix_f64(&mut rng, dim, nb_elem);

    let ef_c = 200;
    let max_nb_connection = 15;
    let hnsw = build(&mut rng, &data, max_nb_connection, ef_c);
    println!(" parallel hnsw data nb point inserted {:?}", hnsw.get_nb_point());
    assert_eq!(hnsw.get_nb_point(), nb_elem);

    let ef_search = max_nb_connection * 2;
    let knbn = 3;
    let r_vec = rng.vector(dim);
    let neighbors = hnsw.search(&r_vec, knbn, ef_search).unwrap();
    println!("{:?}", neighbors);
    assert_eq!(neighbors.len(), knbn);
    assert_eq!(neighbors, exact(&data, &r_vec, knbn));
}

#[test]
fn graph_search_recalls_the_nearest_neighbours() {
    let nb_elem = 600;
    let dim = 12;
    let k = 10;
    let mut rng = Random(42);
    let data = gen_random_matrix_f64(&mut rng, dim, nb_elem);
    let hnsw = build(&mut rng, &data, 15, 200);
    let mut hits = 0;
    for _ in 0..10 {
        let query = rng.vector(dim);
        let found = hnsw.search(&query, k, 30).unwrap();
        assert_eq!(found.len(), k);
        for pair in found.windows(2) {
            assert!((pair[0].distance, pair[0].d_id) < (pair[1].distance, pair[1].d_id));
        }
        for n in found.iter() {
            assert_eq!(n.distance, DistL2.eval(&data[n.d_id], &query));
        }
        let truth = exact(&data, &query, k);
        hits += found.iter().filter(|n| truth.iter().any(|t| t.d_id == n.d_id)).count();
    }
    println!("recall {} of {}", hits, 10 * k);
    assert!(hits >= 90);
}

#[test]
fn graph_search_twice_gives_the_same_answer() {
    let mut rng = Random(3);
    let data = gen_random_matrix_f64(&mut rng, 8, 300);
    let hnsw = build(&mut rng, &data, 15, 200);
    for _ in 0..20 {
        let query = rng.vector(8);
        let first = hnsw.search(&query, 7, 30).unwrap();
        let second = hnsw.search(&query, 7, 30).unwrap();
        assert_eq!(first, second);
    }
}

#[test]
fn graph_search_finds_a_stored_vector_first() {
    let mut rng = Random(5);
    let data = gen_random_matrix_f64(&mut rng, 10, 400);
    let hnsw = build(&mut rng, &data, 15, 200);
    for (i, v) in data.iter().enumerate() {
        let found = hnsw.search(v, 1, 30).unwrap();
        assert_eq!(found.len(), 1);
        assert_eq!(found[0].d_id, i);
        assert_eq!(found[0].distance, 0);
    }
}

#[test]
fn graph_search_for_more_than_is_stored_returns_all() {
    let mut rng = Random(9);
    let data = gen_random_matrix_f64(&mut rng, 6, 40);
    let hnsw = build(&mut rng, &data, 4, 10);
    let query = rng.vector(6);
    let found = hnsw.search(&query, 41, 30).unwrap();
    assert_eq!(found.len(), 40);
    assert_eq!(found, exact(&data, &query, 40));
    let found = hnsw.search(&query, 40, 1).unwrap();
    assert_eq!(found, exact(&data, &query, 40));
    let found = hnsw.search(&query, usize::MAX, 0).unwrap();
    assert_eq!(found.len(), 40);
}

#[test]
fn index_refusals() {
    assert!(matches!(Hnsw::<f64, DistL2>::new(0, 10, 3, 200, DistL2), Err(HnswError::InvalidParameter)));
    assert!(matches!(Hnsw::<f64, DistL2>::new(15, 10, 3, 0, DistL2), Err(HnswError::InvalidParameter)));
    let mut hnsw = Hnsw::<f64, DistL2>::new(15, 0, 100, 200, DistL2).unwrap();
    // an empty index answers with nothing, whatever the query's length
    assert_eq!(hnsw.search(&[1.0, 2.0], 3, 30), Ok(Vec::new()));
    assert_eq!(hnsw.search(&[1.0, 2.0], 0, 30), Err(HnswError::InvalidParameter));
    assert_eq!(hnsw.insert(vec![0.0, 0.0], u64::MAX), Ok(0));
    assert_eq!(hnsw.insert(vec![1.0, 0.0], 0), Ok(1));
    assert_eq!(hnsw.insert(vec![1.0, 0.0, 0.0], 0), Err(HnswError::DimensionMismatch));
    assert_eq!(hnsw.insert(vec![], 0), Err(HnswError::DimensionMismatch));
    assert_eq!(hnsw.get_nb_point(), 2);
    assert_eq!(hnsw.search(&[1.0], 1, 30), Err(HnswError::DimensionMismatch));
    assert_eq!(hnsw.search(&[1.0, 0.0], 0, 30), Err(HnswError::InvalidParameter));
    let found = hnsw.search(&[0.9, 0.0], 1, 30).unwrap();
    assert_eq!(found.len(), 1);
    assert_eq!(found[0].d_id, 1);
    hnsw.reset(10, 2);
    assert_eq!(hnsw.get_nb_point(), 0);
    assert_eq!(hnsw.insert(vec![1.0, 0.0, 0.0], 0), Ok(0));
}

#[test]
fn a_small_neighbour_limit_is_kept() {
    // with one neighbour per layer the graph is sparse, and still every search returns
    // ordered hits of the index
    let mut rng = Random(11);
    let data = gen_random_matrix_f64(&mut rng, 4, 200);
    let hnsw = build(&mut rng, &data, 1, 1);
    for _ in 0..20 {
        let query = rng.vector(4);
        let found = hnsw.search(&query, 5, 1).unwrap();
        assert!(found.len() >= 1 && found.len() <= 5);
        for pair in found.windows(2) {
            assert!((pair[0].distance, pair[0].d_id) < (pair[1].distance, pair[1].d_id));
        }
        for n in found.iter() {
            assert!(n.d_id < 200);
            assert_eq!(n.distance, DistL2.eval(&data[n.d_id], &query));
        }
    }
}

#[test]
fn the_graph_keeps_its_invariants() {
    let mut rng = Random(13);
    let data = gen_random_matrix_f64(&mut rng, 6, 350);
    for m in [1usize, 3, 15] {
        let hnsw = build(&mut rng, &data, m, 40);
        assert_eq!(hnsw.get_max_nb_connection(), m);
        assert_eq!(hnsw.get_ef_construction(), 40);
        assert_eq!(hnsw.get_max_level(), 5);
        let entry = hnsw.get_entry_point().unwrap();
        let top = hnsw.get_level(entry).unwrap();
        assert!(top <= 5);
        assert_eq!(hnsw.get_level(350), None);
        let mut linked = 0;
        for id in 0..350 {
            let level = hnsw.get_level(id).unwrap();
            assert!(level <= top);
            assert_eq!(hnsw.get_neighbours(id, level + 1), None);
            for layer in 0..=level {
                let list = hnsw.get_neighbours(id, layer).unwrap();
                assert!(list.len() <= if layer == 0 { 2 * m } else { m });
                for nb in list.iter() {
                    assert!(*nb < 350 && *nb != id);
                    assert!(hnsw.get_level(*nb).unwrap() >= layer);
                }
                linked += list.len();
            }
        }
        assert!(linked >= 349);
    }
}

fn all_lists(hnsw: &Hnsw<f64, DistL2>) -> Vec<Vec<Vec<usize>>> {
    (0..hnsw.get_nb_point())
        .map(|id| {
            let level = hnsw.get_level(id).unwrap();
            (0..=level).map(|layer| hnsw.get_neighbours(id, layer).unwrap()).collect()
        })
        .collect()
}

#[test]
fn an_insertion_only_adds_edges_to_the_new_point() {
    let mut rng = Random(17);
    let data = gen_random_matrix_f64(&mut rng, 5, 150);
    let mut hnsw = Hnsw::<f64, DistL2>::new(3, 150, 4, 20, DistL2).unwrap();
    let mut before = all_lists(&hnsw);
    for (id, v) in data.iter().enumerate() {
        hnsw.insert(v.clone(), rng.word()).unwrap();
        let after = all_lists(&hnsw);
        assert_eq!(after.len(), id + 1);
        for (point, lists) in before.iter().enumerate() {
            // the level of a point never changes
            assert_eq!(after[point].len(), lists.len());
            for (layer, was) in lists.iter().enumerate() {
                let now = &after[point][layer];
                assert!(now.len() >= was.len());
                assert!(now.iter().all(|nb| *nb == id || was.contains(nb)));
            }
        }
        before = after;
    }
}

#[test]
fn levels_come_from_coin_flips() {
    assert_eq!(level_from_draw(0, 16), 0);
    assert_eq!(level_from_draw(0b10, 16), 0);
    assert_eq!(level_from_draw(0b1, 16), 1);
    assert_eq!(level_from_draw(0b1011, 16), 2);
    assert_eq!(level_from_draw(0b0111, 16), 3);
    assert_eq!(level_from_draw(0b0111, 2), 2);
    assert_eq!(level_from_draw(u64::MAX, 16), 16);
    assert_eq!(level_from_draw(u64::MAX, 0), 0);
    assert_eq!(level_from_draw(u64::MAX, 100), 64);
    // the draws of the backends spread: about half of the points stay on layer 0
    let on_ground = (0..1000).filter(|i| level_from_draw(level_draw(*i), 16) == 0).count();
    assert!(on_ground > 400 && on_ground < 600);
}

#[test]
fn the_top_layer_is_the_natural_logarithm_rounded_down() {
    assert_eq!(max_layer_for(0), 0);
    assert_eq!(max_layer_for(1), 0);
    assert_eq!(max_layer_for(2), 0);
    assert_eq!(max_layer_for(3), 1);
    assert_eq!(max_layer_for(7), 1);
    assert_eq!(max_layer_for(8), 2);
    assert_eq!(max_layer_for(50), 3);
    assert_eq!(max_layer_for(54), 3);
    assert_eq!(max_layer_for(55), 4);
    assert_eq!(max_layer_for(1000), 6);
    assert_eq!(max_layer_for(8886110), 15);
    assert_eq!(max_layer_for(8886111), 16);
    assert_eq!(max_layer_for(usize::MAX), 16);
    for n in [4usize, 20, 21, 100, 148, 149, 403, 404, 5000, 22026, 22027, 100000, 1000000] {
        assert_eq!(max_layer_for(n), (n as f64).ln().floor() as usize);
    }
}

fn texts_of(docs: &Vec<Doc<f64>>) -> Vec<String> {
    docs.iter().map(|d| d.text.clone()).collect()
}

#[test]
fn graph_backend_loads_and_answers() {
    let mut rng = Random(21);
    let data = gen_random_matrix_f64(&mut rng, 8, 120);
    let texts: Vec<String> = (0..120).map(|i| format!("doc {}", i)).collect();
    let mut db = HnswDB::new(DistL2);
    assert_eq!(db.query(&rng.vector(8), 3).unwrap().len(), 0);
    db.load(texts[..70].to_vec(), data[..70].to_vec()).unwrap();
    assert_eq!(db.docs().len(), 70);
    assert_eq!(db.hnsw().get_nb_point(), 70);
    // a second load appends, and the graph is built over all documents
    db.load(texts[70..].to_vec(), data[70..].to_vec()).unwrap();
    assert_eq!(db.docs().len(), 120);
    assert_eq!(db.hnsw().get_nb_point(), 120);
    for i in [0usize, 69, 70, 119] {
        let found = db.query(&data[i], 1).unwrap();
        assert_eq!(found[0].text, texts[i]);
        assert_eq!(found[0].embedding, data[i]);
        assert_eq!(found[0].score, 0);
    }
    let query = rng.vector(8);
    let found = db.query(&query, 5).unwrap();
    assert_eq!(found.len(), 5);
    for pair in found.windows(2) {
        assert!(pair[0].score <= pair[1].score);
    }
    // asked for more than is stored: all documents, in exact order
    let all = db.query(&query, 500).unwrap();
    assert_eq!(all.len(), 120);
    let truth = exact(&data, &query, 120);
    let expected: Vec<String> = truth.iter().map(|n| texts[n.d_id].clone()).collect();
    assert_eq!(texts_of(&all), expected);
    assert!(matches!(db.query(&query, 0), Err(QueryError::InvalidParameter)));
    assert!(matches!(db.query(&query[..3], 1), Err(QueryError::DimensionMismatch)));
    // a refused load changes nothing
    assert!(db.load(vec!["x".to_string()], vec![vec![1.0]]).is_err());
    assert_eq!(db.docs().len(), 120);
    assert_eq!(db.hnsw().get_nb_point(), 120);
}

#[test]
fn graph_backends_by_name() {
    let mut rng = Random(33);
    let data = gen_random_matrix_f64(&mut rng, 5, 60);
    let texts: Vec<String> = (0..60).map(|i| format!("doc {}", i)).collect();
    for name in ["Hnsw_Euclidean", "Hnsw_Cosine"] {
        let mut db = new(name, DistL2, DistL2, NoTable);
        assert!(matches!(db, DB::HnswEuclideanDB(_) | DB::HnswCosineDB(_)));
        db.load(texts.clone(), data.clone()).unwrap();
        let found = db.query(&data[17], 2).unwrap();
        assert_eq!(found.len(), 2);
        assert_eq!(found[0].text, "doc 17");
    }
}

#[test]
fn graph_over_symbol_vectors() {
    let data: Vec<Vec<i32>> = (0..64).map(|i| (0..6).map(|b| (i >> b) & 1).collect()).collect();
    let mut hnsw = Hnsw::<i32, DistHamming>::new(8, 64, 4, 50, DistHamming).unwrap();
    for (i, v) in data.iter().enumerate() {
        hnsw.insert(v.clone(), level_draw(i)).unwrap();
    }
    let found = hnsw.search(&data[37], 7, 64).unwrap();
    assert_eq!(found[0], Neighbour { d_id: 37, distance: 0 });
    // the six vectors that differ from it in one position follow, by id
    let near: Vec<usize> = found[1..].iter().map(|n| n.d_id).collect();
    assert_eq!(near, vec![5, 33, 36, 39, 45, 53]);
    assert!(found[1..].iter().all(|n| n.distance == 1));
}

#[test]
fn a_narrow_walk_may_miss_a_stored_vector() {
    // one neighbour per point and walks of width 1: the graph over these five points
    // on a line has no way from the entry point to the third one
    let mut hnsw = Hnsw::<i32, DistL1>::new(1, 5, 0, 1, DistL1).unwrap();
    for value in [0, 37, 74, 10, 47] {
        hnsw.insert(vec![value], 0).unwrap();
    }
    let found = hnsw.search(&[74], 1, 1).unwrap();
    assert_eq!(found, vec![Neighbour { d_id: 4, distance: 27 }]);
    // asked for all points, the search scores every one and finds it
    let found = hnsw.search(&[74], 5, 1).unwrap();
    assert_eq!(found[0], Neighbour { d_id: 2, distance: 0 });
    assert_eq!(found.len(), 5);
}

#[test]
fn neighbours_are_chosen_apart_and_linked_back() {
    let mut hnsw = Hnsw::<i32, DistL1>::new(4, 10, 0, 10, DistL1).unwrap();
    for value in [0, 10, 11] {
        hnsw.insert(vec![value], 0).unwrap();
    }
    // 11 takes 10 as neighbour; 0 is nearer to 10 than to 11 and is passed over
    assert_eq!(hnsw.get_neighbours(2, 0), Some(vec![1]));
    // 10 took 0 when it came, and 11 in turn
    assert_eq!(hnsw.get_neighbours(1, 0), Some(vec![0, 2]));
    assert_eq!(hnsw.get_neighbours(0, 0), Some(vec![1]));

    // with one neighbour a layer, two on layer 0, a full list gives up its farthest
    let mut hnsw = Hnsw::<i32, DistL1>::new(1, 10, 0, 10, DistL1).unwrap();
    for value in [0, 10, 11, 12] {
        hnsw.insert(vec![value], 0).unwrap();
    }
    assert_eq!(hnsw.get_neighbours(1, 0), Some(vec![0, 2]));
    assert_eq!(hnsw.get_neighbours(3, 0), Some(vec![2]));
    assert_eq!(hnsw.get_neighbours(2, 0), Some(vec![1, 3]));
    hnsw.insert(vec![9], 0).unwrap();
    // 9 is nearer to 10 than 0 is: it takes the place of 0
    assert_eq!(hnsw.get_neighbours(4, 0), Some(vec![1]));
    assert_eq!(hnsw.get_neighbours(1, 0), Some(vec![4, 2]));
    hnsw.insert(vec![30], 0).unwrap();
    // 30 goes to 12, which has room for it
    assert_eq!(hnsw.get_neighbours(5, 0), Some(vec![3]));
    assert_eq!(hnsw.get_neighbours(3, 0), Some(vec![2, 5]));
    hnsw.insert(vec![40], 0).unwrap();
    // 40 goes to 30; the full list of 12 is not asked
    assert_eq!(hnsw.get_neighbours(6, 0), Some(vec![5]));
    assert_eq!(hnsw.get_neighbours(5, 0), Some(vec![3, 6]));
    hnsw.insert(vec![50], 0).unwrap();
    hnsw.insert(vec![100], 0).unwrap();
    // 100 goes to 50, whose list holds 40 and had room; then 60 asks 50, whose list is
    // full: 60 is as far from 50 as 40 is and nearer than 100, the farthest
    assert_eq!(hnsw.get_neighbours(7, 0), Some(vec![6, 8]));
    hnsw.insert(vec![60], 0).unwrap();
    assert_eq!(hnsw.get_neighbours(7, 0), Some(vec![6, 9]));
    // a second 40 goes to the first one, whose neighbours 30 and 50 are equally far:
    // the last of them gives way
    assert_eq!(hnsw.get_neighbours(6, 0), Some(vec![5, 7]));
    hnsw.insert(vec![40], 1).unwrap();
    assert_eq!(hnsw.get_neighbours(10, 0), Some(vec![6]));
    assert_eq!(hnsw.get_neighbours(6, 0), Some(vec![5, 10]));
    assert_eq!(hnsw.get_neighbours(7, 0), Some(vec![6, 9]));
}

#[test]
fn a_new_point_gets_neighbours_that_hold_it_or_are_full() {
    let mut rng = Random(23);
    let data = gen_random_matrix_f64(&mut rng, 4, 120);
    for m in [1usize, 2, 5] {
        let mut hnsw = Hnsw::<f64, DistL2>::new(m, 120, 3, 8, DistL2).unwrap();
        hnsw.insert(data[0].clone(), rng.word()).unwrap();
        assert_eq!(hnsw.get_neighbours(0, 0), Some(Vec::new()));
        for (id, v) in data.iter().enumerate().skip(1) {
            let before = all_lists(&hnsw);
            let entry = hnsw.get_entry_point().unwrap();
            let top = hnsw.get_level(entry).unwrap();
            hnsw.insert(v.clone(), rng.word()).unwrap();
            let level = hnsw.get_level(id).unwrap();
            for layer in 0..=level.min(top) {
                let own = hnsw.get_neighbours(id, layer).unwrap();
                assert!(own.len() >= 1 && own.len() <= m);
                for p in own.iter() {
                    let list = hnsw.get_neighbours(*p, layer).unwrap();
                    let cap = if layer == 0 { 2 * m } else { m };
                    assert!(
                        list.contains(&id) || (before[*p][layer].len() == cap && list == before[*p][layer])
                    );
                }
            }
            // on layers above the old top the new point stands alone
            for layer in (top + 1)..=level {
                assert_eq!(hnsw.get_neighbours(id, layer), Some(Vec::new()));
            }
        }
    }
}
