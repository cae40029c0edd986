use thistle::database::db::Doc;
use thistle::evaluation::run_eval::{count_correct, top_is};
use thistle::model::sentence_transformer::{join, SentenceTransformer};

fn doc(text: &str) -> Doc<u8> {
    Doc { text: text.to_string(), embedding: Vec::new(), score: 0 }
}

#[test]
fn correct_answers_are_counted() {
    let results = vec![
        vec![doc("a"), doc("b")],
        vec![doc("b"), doc("a")],
        vec![],
        vec![doc("c")],
        vec![doc("d")],
    ];
    let references: Vec<String> = ["a", "a", "c", "c"].iter().map(|s| s.to_string()).collect();
    assert!(top_is(&results[0], &references[0]));
    assert!(!top_is(&results[1], &references[1]));
    assert!(!top_is(&results[2], &references[2]));
    assert_eq!(count_correct(&results, &references), 2);
    assert_eq!(count_correct(&Vec::<Vec<Doc<u8>>>::new(), &references), 0);
    assert_eq!(count_correct(&results, &Vec::new()), 0);
    assert_eq!(count_correct(&results[..1].iter().map(|r| vec![doc(&r[0].text)]).collect(), &references), 1);
}

#[test]
fn encoder_parts_lie_under_the_model_directory() {
    let encoder = SentenceTransformer::new("models/bert-base-nli-stsb-mean-tokens");
    assert_eq!(encoder.bert, "models/bert-base-nli-stsb-mean-tokens/0_BERT");
    assert_eq!(
        encoder.pooling,
        "models/bert-base-nli-stsb-mean-tokens/1_Pooling/config.json"
    );
    let encoder = SentenceTransformer::new("models/");
    assert_eq!(encoder.bert, "models/0_BERT");
    let encoder = SentenceTransformer::new("");
    assert_eq!(encoder.pooling, "1_Pooling/config.json");
    assert_eq!(join("a", "b"), "a/b");
    assert_eq!(join("a/", "b"), "a/b");
    assert_eq!(join("", "b"), "b");
    assert_eq!(join("dé", "b"), "dé/b");
    assert_eq!(
        std::path::Path::new("models").join("1_Pooling/config.json").to_str().unwrap(),
        join("models", "1_Pooling/config.json")
    );
}
