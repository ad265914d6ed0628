//! Counting the tokens of a prompt with the `cl100k_base` vocabulary of `tiktoken_rs`.
use vstd::prelude::*;

verus! {

#[verifier::external_type_specification]
#[verifier::external_body]
pub struct ExCoreBPE(tiktoken_rs::CoreBPE);

/// Whether an encoder is one that `tiktoken_rs::cl100k_base` builds: it holds the `cl100k_base`
/// vocabulary with its special tokens, and splits text as that vocabulary wants it.
pub uninterp spec fn is_cl100k(bpe: tiktoken_rs::CoreBPE) -> bool;

/// The tokens of a text in the `cl100k_base` vocabulary, its special tokens included; none where
/// the splitting of the text is given up.
pub uninterp spec fn cl100k_tokens(text: Seq<char>) -> Option<Seq<u32>>;

/// An encoder for the `cl100k_base` vocabulary.
pub struct Tokenizer {
    bpe: tiktoken_rs::CoreBPE,
}

impl Tokenizer {
    #[verifier::type_invariant]
    spec fn inv(self) -> bool {
        is_cl100k(self.bpe)
    }

    /// The encoder is the one for the `cl100k_base` vocabulary.
    pub closed spec fn encodes_cl100k(self) -> bool {
        is_cl100k(self.bpe)
    }
}

/// `tiktoken_rs::cl100k_base` builds the encoder for the `cl100k_base` vocabulary. It takes no
/// argument and reads nothing but the table and the expressions that are compiled into it, so it
/// always succeeds; the crate itself unwraps its result.
#[verifier::external_body]
fn load_cl100k() -> (r: Option<tiktoken_rs::CoreBPE>)
    ensures
        r is Some,
        r matches Some(bpe) ==> is_cl100k(bpe),
{
    tiktoken_rs::cl100k_base().ok()
}

/// `tiktoken_rs::CoreBPE::encode` with all of the vocabulary's special tokens allowed gives the
/// tokens of a text, or an error where its regular expression gives up on the text. Of an encoder
/// for `cl100k_base` both are a function of the text; they are named and not spelt out.
#[verifier::external_body]
fn encode(bpe: &tiktoken_rs::CoreBPE, text: &str) -> (r: Option<Vec<u32>>)
    requires
        is_cl100k(*bpe),
    ensures
        match r {
            Some(tokens) => cl100k_tokens(text@) == Some(tokens@),
            None => cl100k_tokens(text@) is None,
        },
{
    bpe.encode(text, &bpe.special_tokens()).ok().map(|r| r.0)
}

/// A number of tokens as it is reported: only its lowest 32 bits count.
pub open spec fn reported_count(n: nat) -> u32 {
    (n % 0x1_0000_0000) as u32
}

/// The number of tokens that is reported for a prompt: none where the encoder is missing.
pub open spec fn prompt_token_count(loaded: bool, tokens: Option<Seq<u32>>) -> Option<u32> {
    if !loaded {
        Some(0)
    } else {
        match tokens {
            Some(t) => Some(reported_count(t.len())),
            None => None,
        }
    }
}

/// The number of tokens that is reported for a list of tokens.
pub fn report(tokens: &Vec<u32>) -> (r: u32)
    ensures
        r == reported_count(tokens@.len()),
{
    let n: u64 = tokens.len() as u64;
    assert(n as u32 == n % 0x1_0000_0000u64) by (bit_vector);
    n as u32
}

impl Tokenizer {
    /// Builds the encoder for the `cl100k_base` vocabulary.
    pub fn load() -> (r: Option<Tokenizer>)
        ensures
            r is Some,
            r matches Some(t) ==> t.encodes_cl100k(),
    {
        match load_cl100k() {
            Some(bpe) => Some(Tokenizer { bpe }),
            None => None,
        }
    }
}

/// The number of tokens of a prompt: zero without an encoder, nothing where the encoder gives
/// up on the text.
pub fn count_prompt_tokens(tokenizer: Option<&Tokenizer>, prompt: &str) -> (r: Option<u32>)
    ensures
        r == prompt_token_count(tokenizer is Some, cl100k_tokens(prompt@)),
{
    match tokenizer {
        Some(t) => {
            proof {
                use_type_invariant(t);
            }
            match encode(&t.bpe, prompt) {
                Some(tokens) => Some(report(&tokens)),
                None => None,
            }
        },
        None => Some(0),
    }
}

} // verus!
