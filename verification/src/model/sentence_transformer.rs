//! Where the parts of a sentence encoder lie under its model directory.

use vstd::prelude::*;
use vstd::string::StringExecFns;
use vstd::string::StrSliceExecFns;

verus! {

/// `part` adjoined to the directory `base`: a `/` stands between the two unless `base`
/// is empty or ends in one.
pub open spec fn joined(base: Seq<char>, part: Seq<char>) -> Seq<char> {
    if base.len() == 0 || base.last() == '/' {
        base + part
    } else {
        base + seq!['/'] + part
    }
}

/// Adjoins the relative path `part` to the directory `base`.
pub fn join(base: &str, part: &str) -> (path: String)
    ensures
        path@ == joined(base@, part@),
{
    let len = base.unicode_len();
    let path = String::from_str(base);
    if len == 0 || base.get_char(len - 1) == '/' {
        path.concat(part)
    } else {
        proof {
            reveal_strlit("/");
        }
        path.concat("/").concat(part)
    }
}

/// A sentence encoder on disk: a transformer that embeds the tokens of a sentence,
/// and a pooling layer that reduces the token embeddings to one vector of
/// `EMBEDDING_SIZE` values.
pub struct SentenceTransformer {
    /// Directory of the transformer's weights and vocabulary.
    pub bert: String,
    /// File that configures the pooling layer.
    pub pooling: String,
}

impl SentenceTransformer {
    /// The encoder whose model directory is `model_path`.
    pub fn new(model_path: &str) -> (encoder: SentenceTransformer)
        ensures
            encoder.bert@ == joined(model_path@, "0_BERT"@),
            encoder.pooling@ == joined(model_path@, "1_Pooling/config.json"@),
    {
        SentenceTransformer {
            bert: join(model_path, "0_BERT"),
            pooling: join(model_path, "1_Pooling/config.json"),
        }
    }
}

} // verus!
